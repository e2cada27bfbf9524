use vstd::prelude::*;

use crate::errors::SendgridError;
use crate::strmap::StrMap;
use crate::strmap::map_insert;
use crate::strmap::unique_keys;

verus! {

/// An address/display-name pair used for the to, cc, bcc and from fields.
/// No validation of the address format is performed by this layer.
#[derive(Debug)]
pub struct Destination {
    pub address: String,
    pub name: String,
}

/// The mathematical content of a [`Mail`]: address lists as sequences of
/// character sequences, mappings as ordered key/value pair sequences, and
/// optional scalars as optional character sequences.
#[verifier::ext_equal]
pub ghost struct MailModel {
    pub to: Seq<Seq<char>>,
    pub toname: Seq<Seq<char>>,
    pub cc: Seq<Seq<char>>,
    pub ccname: Seq<Seq<char>>,
    pub bcc: Seq<Seq<char>>,
    pub bccname: Seq<Seq<char>>,
    pub from: Seq<char>,
    pub fromname: Seq<char>,
    pub subject: Seq<char>,
    pub html: Option<Seq<char>>,
    pub text: Option<Seq<char>>,
    pub replyto: Option<Seq<char>>,
    pub date: Option<Seq<char>>,
    pub attachments: Seq<(Seq<char>, Seq<char>)>,
    pub content: Seq<(Seq<char>, Seq<char>)>,
    pub headers: Seq<(Seq<char>, Seq<char>)>,
    pub x_smtpapi: Option<Seq<char>>,
}

impl MailModel {
    /// The shape the builder maintains: each address list in step with its
    /// name list, and each mapping keyed uniquely.
    pub open spec fn wf(self) -> bool {
        &&& self.to.len() == self.toname.len()
        &&& self.cc.len() == self.ccname.len()
        &&& self.bcc.len() == self.bccname.len()
        &&& unique_keys(self.attachments)
        &&& unique_keys(self.content)
        &&& unique_keys(self.headers)
    }

    /// At least one body variant is set.
    pub open spec fn has_body(self) -> bool {
        self.html is Some || self.text is Some
    }
}

/// The mail a freshly created builder holds: one recipient, the required
/// subject and sender, and every other field empty or absent.
pub open spec fn initial_model(
    toaddress: Seq<char>,
    toname: Seq<char>,
    subject: Seq<char>,
    fromaddress: Seq<char>,
    fromname: Seq<char>,
) -> MailModel {
    MailModel {
        to: seq![toaddress],
        toname: seq![toname],
        cc: Seq::<Seq<char>>::empty(),
        ccname: Seq::<Seq<char>>::empty(),
        bcc: Seq::<Seq<char>>::empty(),
        bccname: Seq::<Seq<char>>::empty(),
        from: fromaddress,
        fromname: fromname,
        subject: subject,
        html: None,
        text: None,
        replyto: None,
        date: None,
        attachments: Seq::<(Seq<char>, Seq<char>)>::empty(),
        content: Seq::<(Seq<char>, Seq<char>)>::empty(),
        headers: Seq::<(Seq<char>, Seq<char>)>::empty(),
        x_smtpapi: None,
    }
}

/// A message for the mail-send endpoint, accumulated through chained
/// setters that each consume the mail and hand back the updated one.
#[derive(Debug)]
pub struct Mail {
    pub to: Vec<String>,
    pub toname: Vec<String>,
    pub cc: Vec<String>,
    pub ccname: Vec<String>,
    pub bcc: Vec<String>,
    pub bccname: Vec<String>,
    pub from: String,
    pub fromname: String,
    pub subject: String,
    pub html: Option<String>,
    pub text: Option<String>,
    pub replyto: Option<String>,
    pub date: Option<String>,
    pub attachments: StrMap,
    pub content: StrMap,
    pub headers: StrMap,
    pub x_smtpapi: Option<String>,
}

impl View for Mail {
    type V = MailModel;

    open spec fn view(&self) -> MailModel {
        MailModel {
            to: self.to.deep_view(),
            toname: self.toname.deep_view(),
            cc: self.cc.deep_view(),
            ccname: self.ccname.deep_view(),
            bcc: self.bcc.deep_view(),
            bccname: self.bccname.deep_view(),
            from: self.from@,
            fromname: self.fromname@,
            subject: self.subject@,
            html: self.html.deep_view(),
            text: self.text.deep_view(),
            replyto: self.replyto.deep_view(),
            date: self.date.deep_view(),
            attachments: self.attachments@,
            content: self.content@,
            headers: self.headers@,
            x_smtpapi: self.x_smtpapi.deep_view(),
        }
    }
}

impl Mail {
    /// A new mail holding the bare minimum: one recipient, the subject and
    /// the sender. Every other field starts empty.
    pub fn new(to: Destination, subject: String, from: Destination) -> (r: Mail)
        ensures
            r@ == initial_model(to.address@, to.name@, subject@, from.address@, from.name@),
            r@.wf(),
    {
        let ghost goal = initial_model(to.address@, to.name@, subject@, from.address@, from.name@);
        let Destination { address: fromaddress, name: fromname } = from;
        let Destination { address: toaddress, name: toname } = to;
        let mut tolist: Vec<String> = Vec::new();
        tolist.push(toaddress);
        let mut tonamelist: Vec<String> = Vec::new();
        tonamelist.push(toname);
        let r = Mail {
            to: tolist,
            toname: tonamelist,
            cc: Vec::new(),
            ccname: Vec::new(),
            bcc: Vec::new(),
            bccname: Vec::new(),
            from: fromaddress,
            fromname: fromname,
            subject: subject,
            html: None,
            text: None,
            replyto: None,
            date: None,
            attachments: StrMap::new(),
            content: StrMap::new(),
            headers: StrMap::new(),
            x_smtpapi: None,
        };
        proof {
            assert(r@ =~= goal);
        }
        r
    }

    /// Appends a recipient to the to list and its name list.
    pub fn add_to(self, data: Destination) -> (r: Mail)
        ensures
            r@ == (MailModel {
                to: self@.to.push(data.address@),
                toname: self@.toname.push(data.name@),
                ..self@
            }),
    {
        let ghost goal = MailModel {
            to: self@.to.push(data.address@),
            toname: self@.toname.push(data.name@),
            ..self@
        };
        let Destination { address, name } = data;
        let mut m = self;
        m.to.push(address);
        m.toname.push(name);
        proof {
            assert(m@ =~= goal);
        }
        m
    }

    /// Appends a recipient to the cc list and its name list.
    pub fn add_cc(self, data: Destination) -> (r: Mail)
        ensures
            r@ == (MailModel {
                cc: self@.cc.push(data.address@),
                ccname: self@.ccname.push(data.name@),
                ..self@
            }),
    {
        let ghost goal = MailModel {
            cc: self@.cc.push(data.address@),
            ccname: self@.ccname.push(data.name@),
            ..self@
        };
        let Destination { address, name } = data;
        let mut m = self;
        m.cc.push(address);
        m.ccname.push(name);
        proof {
            assert(m@ =~= goal);
        }
        m
    }

    /// Appends a recipient to the bcc list and its name list.
    pub fn add_bcc(self, data: Destination) -> (r: Mail)
        ensures
            r@ == (MailModel {
                bcc: self@.bcc.push(data.address@),
                bccname: self@.bccname.push(data.name@),
                ..self@
            }),
    {
        let ghost goal = MailModel {
            bcc: self@.bcc.push(data.address@),
            bccname: self@.bccname.push(data.name@),
            ..self@
        };
        let Destination { address, name } = data;
        let mut m = self;
        m.bcc.push(address);
        m.bccname.push(name);
        proof {
            assert(m@ =~= goal);
        }
        m
    }

    /// Sets the HTML body. Setting it does not clear the text body.
    pub fn add_html(self, data: String) -> (r: Mail)
        ensures
            r@ == (MailModel { html: Some(data@), ..self@ }),
    {
        let ghost goal = MailModel { html: Some(data@), ..self@ };
        let mut m = self;
        m.html = Some(data);
        proof {
            assert(m@ =~= goal);
        }
        m
    }

    /// Sets the text body. Setting it does not clear the HTML body.
    pub fn add_text(self, data: String) -> (r: Mail)
        ensures
            r@ == (MailModel { text: Some(data@), ..self@ }),
    {
        let ghost goal = MailModel { text: Some(data@), ..self@ };
        let mut m = self;
        m.text = Some(data);
        proof {
            assert(m@ =~= goal);
        }
        m
    }

    /// Sets the reply-to address.
    pub fn add_reply_to(self, data: String) -> (r: Mail)
        ensures
            r@ == (MailModel { replyto: Some(data@), ..self@ }),
    {
        let ghost goal = MailModel { replyto: Some(data@), ..self@ };
        let mut m = self;
        m.replyto = Some(data);
        proof {
            assert(m@ =~= goal);
        }
        m
    }

    /// Sets the date. The caller supplies it already formatted as an RFC 822
    /// timestamp; this layer does not validate it.
    pub fn add_date(self, data: String) -> (r: Mail)
        ensures
            r@ == (MailModel { date: Some(data@), ..self@ }),
    {
        let ghost goal = MailModel { date: Some(data@), ..self@ };
        let mut m = self;
        m.date = Some(data);
        proof {
            assert(m@ =~= goal);
        }
        m
    }

    /// Sets the X-SMTPAPI metadata string, passed to the service opaquely.
    pub fn add_x_smtpapi(self, data: String) -> (r: Mail)
        ensures
            r@ == (MailModel { x_smtpapi: Some(data@), ..self@ }),
    {
        let ghost goal = MailModel { x_smtpapi: Some(data@), ..self@ };
        let mut m = self;
        m.x_smtpapi = Some(data);
        proof {
            assert(m@ =~= goal);
        }
        m
    }

    /// Binds inline content (for example an embedded image) to its content
    /// id, overwriting any value the id already has.
    pub fn add_content(self, id: String, data: String) -> (r: Mail)
        ensures
            r@ == (MailModel { content: map_insert(self@.content, id@, data@), ..self@ }),
    {
        let ghost goal = MailModel { content: map_insert(self@.content, id@, data@), ..self@ };
        let mut m = self;
        m.content.insert(id, data);
        proof {
            assert(m@ =~= goal);
        }
        m
    }

    /// Binds a custom header to its name, overwriting any value the name
    /// already has.
    pub fn add_header(self, name: String, data: String) -> (r: Mail)
        ensures
            r@ == (MailModel { headers: map_insert(self@.headers, name@, data@), ..self@ }),
    {
        let ghost goal = MailModel { headers: map_insert(self@.headers, name@, data@), ..self@ };
        let mut m = self;
        m.headers.insert(name, data);
        proof {
            assert(m@ =~= goal);
        }
        m
    }

    /// Stores an attachment under the name of the file it came from.
    ///
    /// The caller does the reading and hands in plain values: `filename` is
    /// the file's path rendered as UTF-8, or `None` when the path is not
    /// valid UTF-8; `contents` is the file's text, or the text of the error
    /// reading it produced. A failed read yields `IoError`; a path that is
    /// not valid UTF-8 yields `InvalidFilename`; otherwise the attachment is
    /// stored under the path, overwriting any attachment of the same name.
    pub fn add_attachment(self, filename: Option<String>, contents: Result<String, String>) -> (r:
        Result<Mail, SendgridError>)
        ensures
            ({
                match contents {
                    Err(e) => r == Err::<Mail, SendgridError>(SendgridError::IoError(e)),
                    Ok(data) => match filename {
                        None => r == Err::<Mail, SendgridError>(SendgridError::InvalidFilename),
                        Some(name) => r is Ok && r->Ok_0@ == (MailModel {
                            attachments: map_insert(self@.attachments, name@, data@),
                            ..self@
                        }),
                    },
                }
            }),
    {
        let ghost pre = self@;
        match contents {
            Err(e) => Err(SendgridError::IoError(e)),
            Ok(data) => match filename {
                None => Err(SendgridError::InvalidFilename),
                Some(name) => {
                    let ghost goal = MailModel {
                        attachments: map_insert(pre.attachments, name@, data@),
                        ..pre
                    };
                    let mut m = self;
                    m.attachments.insert(name, data);
                    proof {
                        assert(m@ =~= goal);
                    }
                    Ok(m)
                },
            },
        }
    }

    /// Hands the mail back unchanged for sending, once it has a body.
    ///
    /// A mail with neither HTML nor text body must not reach transport;
    /// callers establish that one of the two was set before this point.
    pub fn build(self) -> (r: Mail)
        requires
            self@.has_body(),
        ensures
            r == self,
    {
        self
    }
}

} // verus!
