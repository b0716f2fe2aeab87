use notebook_store::feedback::FeedbackForm;

fn form(screenshot: Option<&str>) -> FeedbackForm {
    FeedbackForm {
        choice: "bug".to_string(),
        message: "It broke.\nTwice.".to_string(),
        email: "me@example.org".to_string(),
        location: "/notebook/3".to_string(),
        screenshot: screenshot.map(|s| s.to_string()),
    }
}

#[test]
fn plain_body_lists_fields() {
    assert_eq!(
        form(None).plain_body(),
        "Location: /notebook/3\nEmail: me@example.org\nChoice: bug\nMesage:\nIt broke.\nTwice.\n"
    );
}

#[test]
fn html_body_lists_fields() {
    assert_eq!(
        form(None).html_body(),
        "<h3>Feedback</h3>\n<p>Location: /notebook/3</p>\n<p>Email: me@example.org</p>\n\
         <p>Choice: bug</p>\n<p>Message:</p>\n<pre>It broke.\nTwice.</pre>\n\
         <img src=\"cid:screenshot.png\">\n"
    );
}

#[test]
fn screenshot_prefix_is_stripped() {
    assert_eq!(form(Some("data:image/png;base64,iVBORw0KGgo=")).screenshot_payload(), "iVBORw0KGgo=");
    assert_eq!(form(Some("data:image/png;base64,")).screenshot_payload(), "");
}

#[test]
fn screenshot_without_prefix_is_dropped() {
    assert_eq!(form(Some("data:image/jpeg;base64,AAAA")).screenshot_payload(), "");
    assert_eq!(form(Some("iVBORw0KGgo=")).screenshot_payload(), "");
    assert_eq!(form(None).screenshot_payload(), "");
}
