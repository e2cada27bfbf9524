//! Client library for a transactional-email HTTP API.
//!
//! Three parts make up the library. [`mail`] holds the message value,
//! accumulated through chained setters into parallel recipient lists,
//! optional scalar fields and ordered mappings ([`strmap`]). [`encoder`]
//! fixes the wire format: it flattens a mail into form-encoded key/value
//! pairs, with the custom headers carried as a JSON object string, and
//! proves the layout laws the receiving service depends on. [`sg_client`]
//! computes the pieces of the one authenticated POST a client issues: the
//! endpoint, the header values and the body. Performing the POST itself,
//! and reading attachment files, is left to the thin unverified layer
//! around the library; everything that decides what goes over the wire is
//! specified and proved here.

pub mod encoder;
pub mod errors;
pub mod mail;
pub mod sg_client;
pub mod strmap;

pub use errors::SendgridError;
pub use mail::Destination;
pub use mail::Mail;
pub use sg_client::SGClient;
