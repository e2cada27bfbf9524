use sendgrid::encoder::json_object_bytes;
use sendgrid::encoder::post_body;
use sendgrid::Destination;
use sendgrid::Mail;

fn dest(address: &str, name: &str) -> Destination {
    Destination { address: String::from(address), name: String::from(name) }
}

fn base_mail() -> Mail {
    Mail::new(dest("a@x.com", "A"), String::from("Test"), dest("b@x.com", "B"))
}

#[test]
fn basic_message_body() {
    let m = Mail::new(
        dest("test@example.com", "Testy mcTestFace"),
        String::from("Test"),
        dest("me@example.com", "Example sender"),
    )
    .add_text(String::from("It works"));

    let body = post_body(&m);
    let want = "to%5B%5D=test%40example.com&toname%5B%5D=Testy+mcTestFace&from=me%40example.com&subject=Test&\
                html=&text=It+works&fromname=&replyto=&date=&headers=%7B%7D&x-smtpapi=";
    assert_eq!(body, want);
}

#[test]
fn end_to_end_body_with_text() {
    let m = base_mail().add_text(String::from("It works"));
    let body = post_body(&m);
    assert_eq!(
        body,
        "to%5B%5D=a%40x.com&toname%5B%5D=A&from=b%40x.com&subject=Test&\
         html=&text=It+works&fromname=&replyto=&date=&headers=%7B%7D&x-smtpapi="
    );
}

#[test]
fn empty_optional_fields_encode_as_empty_values() {
    let body = post_body(&base_mail());
    for key in ["html=", "text=", "fromname=", "replyto=", "date=", "x-smtpapi="] {
        assert!(body.contains(key), "missing {key} in {body}");
    }
    assert!(body.ends_with(
        "from=b%40x.com&subject=Test&html=&text=&fromname=&replyto=&date=&headers=%7B%7D&x-smtpapi="
    ));
}

#[test]
fn array_fields_preserve_order_and_correspondence() {
    let m = base_mail()
        .add_to(dest("c@x.com", "C"))
        .add_cc(dest("d@x.com", "D"))
        .add_cc(dest("e@x.com", "E"))
        .add_bcc(dest("f@x.com", "F"));
    let body = post_body(&m);
    assert!(body.starts_with(
        "to%5B%5D=a%40x.com&to%5B%5D=c%40x.com&toname%5B%5D=A&toname%5B%5D=C&\
         cc%5B%5D=d%40x.com&cc%5B%5D=e%40x.com&ccname%5B%5D=D&ccname%5B%5D=E&\
         bcc%5B%5D=f%40x.com&bccname%5B%5D=F&from=b%40x.com"
    ));
}

#[test]
fn reserved_characters_are_percent_encoded() {
    let m = Mail::new(dest("a@x.com", "A"), String::from("a b&c=d+e*f-g._"), dest("b@x.com", "B"));
    let body = post_body(&m);
    assert!(body.contains("subject=a+b%26c%3Dd%2Be*f-g._&"));
}

#[test]
fn multibyte_characters_encode_their_utf8_bytes() {
    let m = base_mail().add_text(String::from("h\u{e9}llo"));
    let body = post_body(&m);
    assert!(body.contains("text=h%C3%A9llo&"));
}

#[test]
fn headers_encode_as_url_encoded_json_object() {
    let m = base_mail().add_header(String::from("X-Test"), String::from("1"));
    let body = post_body(&m);
    assert!(body.contains("headers=%7B%22X-Test%22%3A%221%22%7D"));
}

#[test]
fn header_json_escapes_quotes_backslashes_and_controls() {
    let m = base_mail()
        .add_header(String::from("k"), String::from("a\"b\\c\nd"))
        .add_header(String::from("l"), String::from("\u{1}"));
    let json = json_object_bytes(&m.headers);
    assert_eq!(json, b"{\"k\":\"a\\\"b\\\\c\\nd\",\"l\":\"\\u0001\"}".to_vec());
}

#[test]
fn header_map_keeps_insertion_order_and_overwrites() {
    let m = base_mail()
        .add_header(String::from("one"), String::from("1"))
        .add_header(String::from("two"), String::from("2"))
        .add_header(String::from("one"), String::from("3"));
    let json = json_object_bytes(&m.headers);
    assert_eq!(json, b"{\"one\":\"3\",\"two\":\"2\"}".to_vec());
}

#[test]
fn attachments_and_content_use_bracketed_keys() {
    let m = base_mail()
        .add_attachment(Some(String::from("notes.txt")), Ok(String::from("file body")))
        .unwrap()
        .add_content(String::from("img1"), String::from("inline"));
    let body = post_body(&m);
    assert!(body.contains("&files%5Bnotes.txt%5D=file+body&"));
    assert!(body.contains("&content%5Bimg1%5D=inline&"));
}
