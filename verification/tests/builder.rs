use sendgrid::Destination;
use sendgrid::Mail;
use sendgrid::SendgridError;
use sendgrid::SGClient;

fn dest(address: &str, name: &str) -> Destination {
    Destination { address: String::from(address), name: String::from(name) }
}

fn base_mail() -> Mail {
    Mail::new(dest("a@x.com", "A"), String::from("Sub"), dest("b@x.com", "B"))
}

#[test]
fn new_mail_starts_with_required_fields_only() {
    let m = base_mail();
    assert_eq!(m.to, vec![String::from("a@x.com")]);
    assert_eq!(m.toname, vec![String::from("A")]);
    assert!(m.cc.is_empty() && m.ccname.is_empty());
    assert!(m.bcc.is_empty() && m.bccname.is_empty());
    assert_eq!(m.from, "b@x.com");
    assert_eq!(m.fromname, "B");
    assert_eq!(m.subject, "Sub");
    assert!(m.html.is_none() && m.text.is_none());
    assert!(m.replyto.is_none() && m.date.is_none() && m.x_smtpapi.is_none());
    assert_eq!(m.attachments.len(), 0);
    assert_eq!(m.content.len(), 0);
    assert_eq!(m.headers.len(), 0);
}

#[test]
fn setters_chain_and_store_their_values() {
    let m = base_mail()
        .add_html(String::from("<p>hi</p>"))
        .add_text(String::from("hi"))
        .add_reply_to(String::from("r@x.com"))
        .add_date(String::from("Wed, 18 Dec 2013 14:48:16 +0000"))
        .add_x_smtpapi(String::from("{}"));
    assert_eq!(m.html.as_deref(), Some("<p>hi</p>"));
    assert_eq!(m.text.as_deref(), Some("hi"));
    assert_eq!(m.replyto.as_deref(), Some("r@x.com"));
    assert_eq!(m.date.as_deref(), Some("Wed, 18 Dec 2013 14:48:16 +0000"));
    assert_eq!(m.x_smtpapi.as_deref(), Some("{}"));
}

#[test]
fn build_returns_the_mail_once_a_body_is_set() {
    let m = base_mail().add_text(String::from("body")).build();
    assert_eq!(m.text.as_deref(), Some("body"));
}

#[test]
fn add_attachment_failed_read_gives_io_error() {
    let r = base_mail().add_attachment(
        Some(String::from("gone.txt")),
        Err(String::from("No such file or directory")),
    );
    assert_eq!(r.unwrap_err(), SendgridError::IoError(String::from("No such file or directory")));
}

#[test]
fn add_attachment_non_utf8_path_gives_invalid_filename() {
    let r = base_mail().add_attachment(None, Ok(String::from("contents")));
    assert_eq!(r.unwrap_err(), SendgridError::InvalidFilename);
}

#[test]
fn add_attachment_stores_contents_under_the_path() {
    let m = base_mail()
        .add_attachment(Some(String::from("a.txt")), Ok(String::from("one")))
        .unwrap()
        .add_attachment(Some(String::from("a.txt")), Ok(String::from("two")))
        .unwrap();
    assert_eq!(m.attachments.len(), 1);
    assert_eq!(m.attachments.key_at(0).as_str(), "a.txt");
    assert_eq!(m.attachments.value_at(0).as_str(), "two");
}

#[test]
fn content_map_overwrites_by_id() {
    let m = base_mail()
        .add_content(String::from("cid"), String::from("first"))
        .add_content(String::from("cid"), String::from("second"));
    assert_eq!(m.content.len(), 1);
    assert_eq!(m.content.value_at(0).as_str(), "second");
}

#[test]
fn client_computes_the_fixed_request_pieces() {
    let client = SGClient::new(String::from("abc123"));
    assert_eq!(client.authorization_header(), String::from("Bearer abc123"));
    assert_eq!(sendgrid::sg_client::api_url(), "https://api.sendgrid.com/api/mail.send.json?");
    assert_eq!(sendgrid::sg_client::content_type(), "application/x-www-form-urlencoded");
    assert_eq!(sendgrid::sg_client::user_agent(), "sendgrid-rs");
}

#[test]
fn client_body_matches_the_encoder() {
    let client = SGClient::new(String::from("key"));
    let m = base_mail().add_text(String::from("hello"));
    let body = client.post_body(&m);
    assert_eq!(body, sendgrid::encoder::post_body(&m));
    assert!(body.contains("text=hello"));
}
