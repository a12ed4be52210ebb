use vstd::prelude::*;

verus! {

/// What the URL parser yields for a text: its normalized form and its host,
/// or nothing when the text is not an absolute URL.
pub uninterp spec fn parsed_url(s: Seq<char>) -> Option<(Seq<char>, Option<Seq<char>>)>;

#[verifier::external_type_specification]
#[verifier::external_body]
pub struct ExParseError(url::ParseError);

/// An absolute URL, held as its normalized text and its host.
#[derive(Debug)]
pub struct Link {
    pub text: String,
    pub host: Option<String>,
}

impl View for Link {
    type V = (Seq<char>, Option<Seq<char>>);

    open spec fn view(&self) -> (Seq<char>, Option<Seq<char>>) {
        (
            self.text@,
            match &self.host {
                Some(h) => Some(h@),
                None => None,
            },
        )
    }
}

/// Relies on url::Url::parse, and on Url::as_str and Url::host_str to read
/// the normalized text and the host of the URL it parsed.
#[verifier::external_body]
fn parse_url(s: &str) -> (r: Result<Link, url::ParseError>)
    ensures
        match r {
            Ok(l) => parsed_url(s@) == Some(l@),
            Err(_) => parsed_url(s@).is_none(),
        },
{
    match url::Url::parse(s) {
        Ok(u) => Ok(Link { text: u.as_str().to_string(), host: u.host_str().map(|h| h.to_string()) }),
        Err(e) => Err(e),
    }
}

impl Clone for Link {
    fn clone(&self) -> (r: Link)
        ensures
            r == *self,
    {
        Link {
            text: self.text.clone(),
            host: match &self.host {
                Some(h) => Some(h.clone()),
                None => None,
            },
        }
    }
}

impl Link {
    /// The link is what the URL parser gives for some text.
    pub open spec fn wf(&self) -> bool {
        exists|s: Seq<char>| #[trigger] parsed_url(s) == Some(self@)
    }

    /// Parses an absolute URL.
    pub fn parse(s: &str) -> (r: Result<Link, CrawlerError>)
        ensures
            match r {
                Ok(l) => parsed_url(s@) == Some(l@) && l.wf(),
                Err(e) => parsed_url(s@).is_none() && e is ParseError,
            },
    {
        match parse_url(s) {
            Ok(l) => Ok(l),
            Err(e) => Err(CrawlerError::ParseError(e)),
        }
    }
}

/// The outcome of a successful fetch: the status code and the body text.
pub struct HtmlPage {
    pub status: u16,
    pub body: String,
}

impl HtmlPage {
    pub open spec fn success_status(status: u16) -> bool {
        200 <= status < 300
    }

    /// Whether the status is in the success class (200 to 299).
    pub fn is_success(&self) -> (r: bool)
        ensures
            r == Self::success_status(self.status),
    {
        200 <= self.status && self.status < 300
    }
}

/// The errors that end a crawl.
#[derive(Debug)]
pub enum CrawlerError {
    NotScheduled { url: Link },
    ParseError(url::ParseError),
    SubdomainError { url: Link },
    InputMalformed,
}

impl CrawlerError {
    /// A one-line description of the error.
    pub fn message(&self) -> (r: String)
        ensures
            match self {
                CrawlerError::NotScheduled { url } => r@ == "The URL could not be scheduled: "@ + url.text@,
                CrawlerError::ParseError(_) => r@ == "Unable to parse URL"@,
                CrawlerError::SubdomainError { url } => r@
                    == "Could not extract the subdomain from the URL "@ + url.text@,
                CrawlerError::InputMalformed => r@ == "please specify a single URL argument"@,
            },
    {
        match self {
            CrawlerError::NotScheduled { url } => String::from_str("The URL could not be scheduled: ").concat(
                url.text.as_str(),
            ),
            CrawlerError::ParseError(_) => String::from_str("Unable to parse URL"),
            CrawlerError::SubdomainError { url } => String::from_str(
                "Could not extract the subdomain from the URL ",
            ).concat(url.text.as_str()),
            CrawlerError::InputMalformed => String::from_str("please specify a single URL argument"),
        }
    }
}

} // verus!
