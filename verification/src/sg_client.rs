use vstd::prelude::*;

use crate::encoder::body_chars;
use crate::encoder::post_body;
use crate::mail::Mail;
use vstd::string::StrSliceExecFns;
use vstd::string::StringExecFns;

verus! {

/// Authenticates to the mail API: holds the key that every request
/// presents as a bearer credential. The client has no other state, so one
/// client may serve any number of sends.
pub struct SGClient {
    api_key: String,
}

impl View for SGClient {
    type V = Seq<char>;

    closed spec fn view(&self) -> Seq<char> {
        self.api_key@
    }
}

/// The fixed endpoint every mail is posted to.
pub fn api_url() -> (r: &'static str)
    ensures
        r@ == "https://api.sendgrid.com/api/mail.send.json?"@,
{
    "https://api.sendgrid.com/api/mail.send.json?"
}

/// The content type of the post body.
pub fn content_type() -> (r: &'static str)
    ensures
        r@ == "application/x-www-form-urlencoded"@,
{
    "application/x-www-form-urlencoded"
}

/// The identifier the client presents as its user agent.
pub fn user_agent() -> (r: &'static str)
    ensures
        r@ == "sendgrid-rs"@,
{
    "sendgrid-rs"
}

impl SGClient {
    /// A client that authenticates with the given API key.
    pub fn new(key: String) -> (r: SGClient)
        ensures
            r@ == key@,
    {
        SGClient { api_key: key }
    }

    /// The value of the `Authorization` header: the stored key presented
    /// as a bearer credential.
    pub fn authorization_header(&self) -> (r: String)
        ensures
            r@ == "Bearer "@ + self@,
    {
        let mut r = String::from_str("Bearer ");
        r.append(self.api_key.as_str());
        r
    }

    /// The body of the request that sends `mail`: its whole form encoding.
    /// The transport layer posts exactly this string to [`api_url`] under
    /// the headers this client computes, and what comes back is the
    /// service's response, returned to the caller unparsed.
    pub fn post_body(&self, mail: &Mail) -> (r: String)
        ensures
            r@ == body_chars(mail@),
    {
        post_body(mail)
    }
}

} // verus!
