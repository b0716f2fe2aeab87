use vstd::prelude::*;

verus! {

/// A submitted feedback form.
pub struct FeedbackForm {
    pub choice: String,
    pub message: String,
    pub email: String,
    pub location: String,
    /// The screenshot as a data URL, when one was sent.
    pub screenshot: Option<String>,
}

/// The subject line of a feedback mail.
pub const FEEDBACK_SUBJECT: &'static str = "Feedback!";

/// The media type of the inline screenshot.
pub const SCREENSHOT_MEDIA_TYPE: &'static str = "image/png";

/// The file name under which the screenshot is attached and referenced.
pub const SCREENSHOT_FILE_NAME: &'static str = "screenshot.png";

/// What a screenshot data URL starts with, ahead of its base64 text.
pub const SCREENSHOT_URL_PREFIX: &'static str = "data:image/png;base64,";

/// The plain-text body of a feedback mail.
pub open spec fn plain_body_of(location: Seq<char>, email: Seq<char>, choice: Seq<char>, message: Seq<char>) -> Seq<char> {
    "Location: "@ + location + "\nEmail: "@ + email + "\nChoice: "@ + choice + "\nMesage:\n"@ + message
        + "\n"@
}

/// The HTML body of a feedback mail; the screenshot is shown inline.
pub open spec fn html_body_of(location: Seq<char>, email: Seq<char>, choice: Seq<char>, message: Seq<char>) -> Seq<char> {
    "<h3>Feedback</h3>\n<p>Location: "@ + location + "</p>\n<p>Email: "@ + email
        + "</p>\n<p>Choice: "@ + choice + "</p>\n<p>Message:</p>\n<pre>"@ + message
        + "</pre>\n<img src=\"cid:screenshot.png\">\n"@
}

/// The base64 text of a screenshot: what follows the data URL prefix, or
/// nothing when there is no screenshot or it lacks the prefix.
pub open spec fn screenshot_payload_of(screenshot: Option<Seq<char>>, prefix: Seq<char>) -> Seq<char> {
    match screenshot {
        Some(url) => if prefix.len() <= url.len() && url.take(prefix.len() as int) == prefix {
            url.skip(prefix.len() as int)
        } else {
            Seq::empty()
        },
        None => Seq::empty(),
    }
}

/// Relies on str::strip_prefix: `Some` of what follows exactly when `s`
/// starts with `prefix`.
#[verifier::external_body]
fn strip_prefix(s: &str, prefix: &str) -> (r: Option<String>)
    ensures
        r.is_some() == (prefix@.len() <= s@.len() && s@.take(prefix@.len() as int) == prefix@),
        r matches Some(rest) ==> rest@ == s@.skip(prefix@.len() as int),
{
    s.strip_prefix(prefix).map(|rest| rest.to_string())
}

impl FeedbackForm {
    /// The plain-text body of the mail for this form.
    pub fn plain_body(&self) -> (r: String)
        ensures
            r@ == plain_body_of(self.location@, self.email@, self.choice@, self.message@),
    {
        let mut s = String::new();
        s.append("Location: ");
        s.append(self.location.as_str());
        s.append("\nEmail: ");
        s.append(self.email.as_str());
        s.append("\nChoice: ");
        s.append(self.choice.as_str());
        s.append("\nMesage:\n");
        s.append(self.message.as_str());
        s.append("\n");
        s
    }

    /// The HTML body of the mail for this form.
    pub fn html_body(&self) -> (r: String)
        ensures
            r@ == html_body_of(self.location@, self.email@, self.choice@, self.message@),
    {
        let mut s = String::new();
        s.append("<h3>Feedback</h3>\n<p>Location: ");
        s.append(self.location.as_str());
        s.append("</p>\n<p>Email: ");
        s.append(self.email.as_str());
        s.append("</p>\n<p>Choice: ");
        s.append(self.choice.as_str());
        s.append("</p>\n<p>Message:</p>\n<pre>");
        s.append(self.message.as_str());
        s.append("</pre>\n<img src=\"cid:screenshot.png\">\n");
        s
    }

    /// The base64 text of the screenshot to attach inline.
    pub fn screenshot_payload(&self) -> (r: String)
        ensures
            r@ == screenshot_payload_of(
                match self.screenshot {
                    Some(url) => Some(url@),
                    None => None,
                },
                SCREENSHOT_URL_PREFIX@,
            ),
    {
        match &self.screenshot {
            Some(url) => match strip_prefix(url.as_str(), SCREENSHOT_URL_PREFIX) {
                Some(rest) => rest,
                None => String::new(),
            },
            None => String::new(),
        }
    }
}

} // verus!
