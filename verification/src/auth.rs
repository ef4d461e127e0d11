use vstd::prelude::*;

verus! {

/// The OAuth flow answer used when a command runs with a cached token: it never asks the
/// user, so a flow that needs the user fails with a pointer to `auth`.
#[derive(Debug)]
pub struct NoInteractionDelegate;

impl NoInteractionDelegate {
    /// The answer to a request to present the authorization URL: a refusal.
    pub fn present_user_url(&self, url: &str, need_code: bool) -> (r: Result<String, String>)
        ensures
            r matches Err(m) && m@ == "Not authenticated. Run 'rscalendar auth' first."@,
    {
        Err(String::from_str("Not authenticated. Run 'rscalendar auth' first."))
    }
}

/// The OAuth flow answer used by `auth`: the URL is opened in a browser, and the code
/// comes back through the redirect, so the answer itself is empty.
#[derive(Debug)]
pub struct BrowserFlowDelegate;

/// What presenting the URL leads to: a warning to print, if any, and the flow's answer.
#[derive(Debug)]
pub struct BrowserOutcome {
    pub warning: Option<String>,
    pub answer: Result<String, String>,
}

impl BrowserFlowDelegate {
    /// The outcome once the browser was asked to open `url`: when that failed with
    /// `open_error`, a warning that gives the URL to open by hand; the answer is an empty
    /// code either way.
    pub fn present_user_url(&self, url: &str, need_code: bool, open_error: Option<&str>) -> (r: BrowserOutcome)
        ensures
            match open_error {
                Some(e) => r.warning matches Some(w) && w@ == "Failed to open browser: "@ + e@
                    + ". Please open this URL manually:\n"@ + url@,
                None => r.warning is None,
            },
            r.answer matches Ok(a) && a@.len() == 0,
    {
        let warning = match open_error {
            Some(e) => {
                let mut w = String::from_str("Failed to open browser: ");
                w.append(e);
                w.append(". Please open this URL manually:\n");
                w.append(url);
                Some(w)
            },
            None => None,
        };
        BrowserOutcome { warning, answer: Ok(String::new()) }
    }
}

} // verus!
