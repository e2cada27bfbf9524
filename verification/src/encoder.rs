//! The wire format: flattening a mail into the key/value pairs of its
//! `application/x-www-form-urlencoded` body, and the JSON object string
//! that carries the custom headers.
//!
//! The byte-level layout is the library's compatibility contract with the
//! receiving service: the pairs stand in a fixed order, and optional scalar
//! fields are always present, encoding as empty values when absent.

use vstd::prelude::*;
use vstd::utf8::encode_utf8;

use crate::mail::Mail;
use crate::mail::MailModel;
use crate::strmap::StrMap;
use vstd::string::StrSliceExecFns;

verus! {

/// The character content of an optional field: absent encodes as empty.
pub open spec fn opt_chars(o: Option<Seq<char>>) -> Seq<char> {
    match o {
        Some(s) => s,
        None => Seq::<char>::empty(),
    }
}

/// The bytes form encoding leaves unescaped: ASCII alphanumerics and
/// `*`, `-`, `.`, `_`.
pub open spec fn is_unreserved(b: u8) -> bool {
    (0x41 <= b && b <= 0x5a) || (0x61 <= b && b <= 0x7a) || (0x30 <= b && b <= 0x39) || b == 0x2a
        || b == 0x2d || b == 0x2e || b == 0x5f
}

/// The ASCII digit for hex nibble `n`, upper case.
pub open spec fn hex_upper(n: u8) -> u8 {
    if n < 10 {
        (n + 0x30) as u8
    } else {
        (n + 0x37) as u8
    }
}

/// The ASCII digit for hex nibble `n`, lower case.
pub open spec fn hex_lower(n: u8) -> u8 {
    if n < 10 {
        (n + 0x30) as u8
    } else {
        (n + 0x57) as u8
    }
}

/// How one byte appears in form encoding: unreserved bytes stand for
/// themselves, a space becomes `+`, and every other byte becomes `%`
/// followed by its two upper-case hex digits.
pub open spec fn form_escape_byte(b: u8) -> Seq<u8> {
    if is_unreserved(b) {
        seq![b]
    } else if b == 0x20 {
        seq![0x2b]
    } else {
        seq![0x25, hex_upper(b / 16), hex_upper(b % 16)]
    }
}

/// Form encoding of a byte sequence, byte by byte.
pub open spec fn form_escape(bs: Seq<u8>) -> Seq<u8>
    decreases bs.len(),
{
    if bs.len() == 0 {
        Seq::<u8>::empty()
    } else {
        form_escape_byte(bs[0]) + form_escape(bs.drop_first())
    }
}

/// One key/value pair on the wire: escaped key, `=`, escaped value.
pub open spec fn pair_bytes(p: (Seq<u8>, Seq<u8>)) -> Seq<u8> {
    form_escape(p.0) + seq![0x3d] + form_escape(p.1)
}

/// A pair list on the wire: the pairs in order, joined by `&`.
pub open spec fn pairs_bytes(ps: Seq<(Seq<u8>, Seq<u8>)>) -> Seq<u8>
    decreases ps.len(),
{
    if ps.len() == 0 {
        Seq::<u8>::empty()
    } else if ps.len() == 1 {
        pair_bytes(ps[0])
    } else {
        pair_bytes(ps[0]) + seq![0x26] + pairs_bytes(ps.drop_first())
    }
}

/// How one byte of string content appears inside a JSON string literal:
/// quote and backslash take a backslash, the named control characters take
/// their short escapes, other control bytes take `\u00` and two lower-case
/// hex digits, and everything else stands for itself.
pub open spec fn json_escape_byte(b: u8) -> Seq<u8> {
    if b == 0x22 {
        seq![0x5c, 0x22]
    } else if b == 0x5c {
        seq![0x5c, 0x5c]
    } else if b == 0x08 {
        seq![0x5c, 0x62]
    } else if b == 0x09 {
        seq![0x5c, 0x74]
    } else if b == 0x0a {
        seq![0x5c, 0x6e]
    } else if b == 0x0c {
        seq![0x5c, 0x66]
    } else if b == 0x0d {
        seq![0x5c, 0x72]
    } else if b < 0x20 {
        seq![0x5c, 0x75, 0x30, 0x30, hex_lower(b / 16), hex_lower(b % 16)]
    } else {
        seq![b]
    }
}

/// JSON escaping of string content, byte by byte over its UTF-8 bytes.
pub open spec fn json_escape(bs: Seq<u8>) -> Seq<u8>
    decreases bs.len(),
{
    if bs.len() == 0 {
        Seq::<u8>::empty()
    } else {
        json_escape_byte(bs[0]) + json_escape(bs.drop_first())
    }
}

/// A JSON string literal for the character sequence `s`.
pub open spec fn json_string(s: Seq<char>) -> Seq<u8> {
    seq![0x22] + json_escape(encode_utf8(s)) + seq![0x22]
}

/// One JSON object member: key string, `:`, value string.
pub open spec fn json_member(e: (Seq<char>, Seq<char>)) -> Seq<u8> {
    json_string(e.0) + seq![0x3a] + json_string(e.1)
}

/// The members of a JSON object in entry order, joined by `,`.
pub open spec fn json_members(entries: Seq<(Seq<char>, Seq<char>)>) -> Seq<u8>
    decreases entries.len(),
{
    if entries.len() == 0 {
        Seq::<u8>::empty()
    } else if entries.len() == 1 {
        json_member(entries[0])
    } else {
        json_member(entries[0]) + seq![0x2c] + json_members(entries.drop_first())
    }
}

/// A mapping as the bytes of a JSON object, entries in insertion order.
pub open spec fn json_object(entries: Seq<(Seq<char>, Seq<char>)>) -> Seq<u8> {
    seq![0x7b] + json_members(entries) + seq![0x7d]
}

/// The pairs of an array field: the same key repeated, once per element,
/// in the order the elements were appended.
pub open spec fn array_pairs(key: Seq<char>, vals: Seq<Seq<char>>) -> Seq<(Seq<u8>, Seq<u8>)> {
    Seq::new(vals.len(), |i: int| (encode_utf8(key), encode_utf8(vals[i])))
}

/// The pairs of an attachment or inline-content mapping: each entry keyed
/// `prefix`, then the entry's name, then `]`.
pub open spec fn bracket_pairs(prefix: Seq<char>, entries: Seq<(Seq<char>, Seq<char>)>) -> Seq<
    (Seq<u8>, Seq<u8>),
> {
    Seq::new(
        entries.len(),
        |i: int|
            (
                encode_utf8(prefix) + encode_utf8(entries[i].0) + seq![0x5d],
                encode_utf8(entries[i].1),
            ),
    )
}

/// One scalar pair.
pub open spec fn scalar_pair(key: Seq<char>, val: Seq<char>) -> (Seq<u8>, Seq<u8>) {
    (encode_utf8(key), encode_utf8(val))
}

/// Every key/value pair of a mail's form body, in the order the wire format
/// fixes: the six array fields, the seven scalar fields, the attachment and
/// inline-content mappings, the headers object, and the metadata string.
/// The `fromname` key is part of the fixed key set but always carries an
/// empty value: the service reads the sender name from the `from` field,
/// and the receiving parser still expects the key to be present.
pub open spec fn mail_pairs(m: MailModel) -> Seq<(Seq<u8>, Seq<u8>)> {
    array_pairs("to[]"@, m.to) + array_pairs("toname[]"@, m.toname) + array_pairs("cc[]"@, m.cc)
        + array_pairs("ccname[]"@, m.ccname) + array_pairs("bcc[]"@, m.bcc) + array_pairs(
        "bccname[]"@,
        m.bccname,
    ) + seq![
        scalar_pair("from"@, m.from),
        scalar_pair("subject"@, m.subject),
        scalar_pair("html"@, opt_chars(m.html)),
        scalar_pair("text"@, opt_chars(m.text)),
        scalar_pair("fromname"@, Seq::<char>::empty()),
        scalar_pair("replyto"@, opt_chars(m.replyto)),
        scalar_pair("date"@, opt_chars(m.date)),
    ] + bracket_pairs("files["@, m.attachments) + bracket_pairs("content["@, m.content) + seq![
        (encode_utf8("headers"@), json_object(m.headers)),
        scalar_pair("x-smtpapi"@, opt_chars(m.x_smtpapi)),
    ]
}

/// The whole form body of a mail, as bytes.
pub open spec fn body_bytes(m: MailModel) -> Seq<u8> {
    pairs_bytes(mail_pairs(m))
}

/// A byte sequence read as characters; meaningful when every byte is ASCII.
pub open spec fn ascii_chars(bs: Seq<u8>) -> Seq<char> {
    Seq::new(bs.len(), |i: int| bs[i] as char)
}

/// Holds when every byte of the sequence is ASCII.
pub open spec fn all_ascii(bs: Seq<u8>) -> bool {
    forall|i: int| 0 <= i < bs.len() ==> bs[i] < 0x80
}

/// The whole form body of a mail, as the string the client posts.
pub open spec fn body_chars(m: MailModel) -> Seq<char> {
    ascii_chars(body_bytes(m))
}

proof fn lemma_form_escape_push(bs: Seq<u8>, b: u8)
    ensures
        form_escape(bs.push(b)) == form_escape(bs) + form_escape_byte(b),
    decreases bs.len(),
{
    reveal_with_fuel(form_escape, 2);
    if bs.len() == 0 {
        assert(bs.push(b).drop_first() =~= Seq::<u8>::empty());
        assert(form_escape(bs.push(b)) == form_escape_byte(b) + form_escape(Seq::<u8>::empty()));
        assert(form_escape(bs.push(b)) =~= form_escape(bs) + form_escape_byte(b));
    } else {
        assert(bs.push(b).drop_first() =~= bs.drop_first().push(b));
        lemma_form_escape_push(bs.drop_first(), b);
        assert(form_escape(bs.push(b)) == form_escape_byte(bs[0]) + (form_escape(bs.drop_first())
            + form_escape_byte(b)));
        assert(form_escape(bs) == form_escape_byte(bs[0]) + form_escape(bs.drop_first()));
        assert(form_escape(bs.push(b)) =~= form_escape(bs) + form_escape_byte(b));
    }
}

proof fn lemma_json_escape_push(bs: Seq<u8>, b: u8)
    ensures
        json_escape(bs.push(b)) == json_escape(bs) + json_escape_byte(b),
    decreases bs.len(),
{
    reveal_with_fuel(json_escape, 2);
    if bs.len() == 0 {
        assert(bs.push(b).drop_first() =~= Seq::<u8>::empty());
        assert(json_escape(bs.push(b)) == json_escape_byte(b) + json_escape(Seq::<u8>::empty()));
        assert(json_escape(bs.push(b)) =~= json_escape(bs) + json_escape_byte(b));
    } else {
        assert(bs.push(b).drop_first() =~= bs.drop_first().push(b));
        lemma_json_escape_push(bs.drop_first(), b);
        assert(json_escape(bs.push(b)) == json_escape_byte(bs[0]) + (json_escape(bs.drop_first())
            + json_escape_byte(b)));
        assert(json_escape(bs) == json_escape_byte(bs[0]) + json_escape(bs.drop_first()));
        assert(json_escape(bs.push(b)) =~= json_escape(bs) + json_escape_byte(b));
    }
}

proof fn lemma_pairs_bytes_push(ps: Seq<(Seq<u8>, Seq<u8>)>, p: (Seq<u8>, Seq<u8>))
    ensures
        ps.len() == 0 ==> pairs_bytes(ps.push(p)) == pair_bytes(p),
        ps.len() > 0 ==> pairs_bytes(ps.push(p)) == pairs_bytes(ps) + seq![0x26] + pair_bytes(p),
    decreases ps.len(),
{
    reveal_with_fuel(pairs_bytes, 2);
    if ps.len() == 0 {
        assert(pairs_bytes(ps.push(p)) == pair_bytes(ps.push(p)[0]));
    } else if ps.len() == 1 {
        assert(ps.push(p).drop_first() =~= ps.drop_first().push(p));
        assert(ps.drop_first().push(p).len() == 1);
        assert(pairs_bytes(ps.push(p)) == pair_bytes(ps[0]) + seq![0x26] + pairs_bytes(
            ps.drop_first().push(p),
        ));
        assert(pairs_bytes(ps.drop_first().push(p)) == pair_bytes(p));
        assert(pairs_bytes(ps) == pair_bytes(ps[0]));
        assert(pairs_bytes(ps.push(p)) =~= pairs_bytes(ps) + seq![0x26] + pair_bytes(p));
    } else {
        assert(ps.push(p).drop_first() =~= ps.drop_first().push(p));
        lemma_pairs_bytes_push(ps.drop_first(), p);
        assert(pairs_bytes(ps.push(p)) == pair_bytes(ps[0]) + seq![0x26] + (pairs_bytes(
            ps.drop_first(),
        ) + seq![0x26] + pair_bytes(p)));
        assert(pairs_bytes(ps) == pair_bytes(ps[0]) + seq![0x26] + pairs_bytes(ps.drop_first()));
        assert(pairs_bytes(ps.push(p)) =~= pairs_bytes(ps) + seq![0x26] + pair_bytes(p));
    }
}

proof fn lemma_json_members_push(es: Seq<(Seq<char>, Seq<char>)>, e: (Seq<char>, Seq<char>))
    ensures
        es.len() == 0 ==> json_members(es.push(e)) == json_member(e),
        es.len() > 0 ==> json_members(es.push(e)) == json_members(es) + seq![0x2c] + json_member(e),
    decreases es.len(),
{
    reveal_with_fuel(json_members, 2);
    if es.len() == 0 {
        assert(json_members(es.push(e)) == json_member(es.push(e)[0]));
    } else if es.len() == 1 {
        assert(es.push(e).drop_first() =~= es.drop_first().push(e));
        assert(es.drop_first().push(e).len() == 1);
        assert(json_members(es.push(e)) == json_member(es[0]) + seq![0x2c] + json_members(
            es.drop_first().push(e),
        ));
        assert(json_members(es.drop_first().push(e)) == json_member(e));
        assert(json_members(es) == json_member(es[0]));
        assert(json_members(es.push(e)) =~= json_members(es) + seq![0x2c] + json_member(e));
    } else {
        assert(es.push(e).drop_first() =~= es.drop_first().push(e));
        lemma_json_members_push(es.drop_first(), e);
        assert(json_members(es.push(e)) == json_member(es[0]) + seq![0x2c] + (json_members(
            es.drop_first(),
        ) + seq![0x2c] + json_member(e)));
        assert(json_members(es) == json_member(es[0]) + seq![0x2c] + json_members(es.drop_first()));
        assert(json_members(es.push(e)) =~= json_members(es) + seq![0x2c] + json_member(e));
    }
}

proof fn lemma_form_escape_ascii(bs: Seq<u8>)
    ensures
        all_ascii(form_escape(bs)),
    decreases bs.len(),
{
    if bs.len() > 0 {
        lemma_form_escape_ascii(bs.drop_first());
        assert(all_ascii(form_escape_byte(bs[0])));
    }
}

proof fn lemma_pairs_bytes_ascii(ps: Seq<(Seq<u8>, Seq<u8>)>)
    ensures
        all_ascii(pairs_bytes(ps)),
    decreases ps.len(),
{
    if ps.len() > 0 {
        lemma_form_escape_ascii(ps[0].0);
        lemma_form_escape_ascii(ps[0].1);
        assert(all_ascii(pair_bytes(ps[0])));
        if ps.len() > 1 {
            lemma_pairs_bytes_ascii(ps.drop_first());
        }
    }
}

fn hex_upper_digit(n: u8) -> (r: u8)
    requires
        n < 16,
    ensures
        r == hex_upper(n),
{
    if n < 10 {
        n + 0x30
    } else {
        n + 0x37
    }
}

fn hex_lower_digit(n: u8) -> (r: u8)
    requires
        n < 16,
    ensures
        r == hex_lower(n),
{
    if n < 10 {
        n + 0x30
    } else {
        n + 0x57
    }
}

/// Appends the form encoding of `bs` to `out`.
fn push_escaped(out: &mut Vec<u8>, bs: &[u8])
    ensures
        final(out)@ == old(out)@ + form_escape(bs@),
{
    let n = bs.len();
    let mut i: usize = 0;
    while i < n
        invariant
            n == bs@.len(),
            i <= n,
            out@ == old(out)@ + form_escape(bs@.take(i as int)),
        decreases n - i,
    {
        let b = bs[i];
        if (0x41 <= b && b <= 0x5a) || (0x61 <= b && b <= 0x7a) || (0x30 <= b && b <= 0x39) || b
            == 0x2a || b == 0x2d || b == 0x2e || b == 0x5f {
            out.push(b);
        } else if b == 0x20 {
            out.push(0x2b);
        } else {
            out.push(0x25);
            out.push(hex_upper_digit(b / 16));
            out.push(hex_upper_digit(b % 16));
        }
        proof {
            lemma_form_escape_push(bs@.take(i as int), b);
            assert(bs@.take(i as int).push(b) =~= bs@.take(i as int + 1));
            assert(out@ =~= old(out)@ + form_escape(bs@.take(i as int + 1)));
        }
        i += 1;
    }
    proof {
        assert(bs@.take(n as int) =~= bs@);
    }
}

/// Appends the JSON string literal for `s` to `out`.
fn push_json_string(out: &mut Vec<u8>, s: &str)
    ensures
        final(out)@ == old(out)@ + json_string(s@),
{
    out.push(0x22);
    let bs = s.as_bytes();
    let n = bs.len();
    let mut i: usize = 0;
    while i < n
        invariant
            n == bs@.len(),
            i <= n,
            bs@ == encode_utf8(s@),
            out@ == old(out)@ + seq![0x22] + json_escape(bs@.take(i as int)),
        decreases n - i,
    {
        let b = bs[i];
        if b == 0x22 {
            out.push(0x5c);
            out.push(0x22);
        } else if b == 0x5c {
            out.push(0x5c);
            out.push(0x5c);
        } else if b == 0x08 {
            out.push(0x5c);
            out.push(0x62);
        } else if b == 0x09 {
            out.push(0x5c);
            out.push(0x74);
        } else if b == 0x0a {
            out.push(0x5c);
            out.push(0x6e);
        } else if b == 0x0c {
            out.push(0x5c);
            out.push(0x66);
        } else if b == 0x0d {
            out.push(0x5c);
            out.push(0x72);
        } else if b < 0x20 {
            out.push(0x5c);
            out.push(0x75);
            out.push(0x30);
            out.push(0x30);
            out.push(hex_lower_digit(b / 16));
            out.push(hex_lower_digit(b % 16));
        } else {
            out.push(b);
        }
        proof {
            lemma_json_escape_push(bs@.take(i as int), b);
            assert(bs@.take(i as int).push(b) =~= bs@.take(i as int + 1));
            assert(out@ =~= old(out)@ + seq![0x22] + json_escape(bs@.take(i as int + 1)));
        }
        i += 1;
    }
    out.push(0x22);
    proof {
        assert(bs@.take(n as int) =~= bs@);
        assert(out@ =~= old(out)@ + json_string(s@));
    }
}

/// The headers mapping as the bytes of its JSON object string.
pub fn json_object_bytes(map: &StrMap) -> (out: Vec<u8>)
    ensures
        out@ == json_object(map@),
{
    let mut out: Vec<u8> = Vec::new();
    out.push(0x7b);
    let n = map.len();
    let mut i: usize = 0;
    while i < n
        invariant
            n == map@.len(),
            i <= n,
            out@ == seq![0x7b] + json_members(map@.take(i as int)),
        decreases n - i,
    {
        if i > 0 {
            out.push(0x2c);
        }
        push_json_string(&mut out, map.key_at(i).as_str());
        out.push(0x3a);
        push_json_string(&mut out, map.value_at(i).as_str());
        proof {
            lemma_json_members_push(map@.take(i as int), map@[i as int]);
            assert(map@.take(i as int).push(map@[i as int]) =~= map@.take(i as int + 1));
            assert(out@ =~= seq![0x7b] + json_members(map@.take(i as int + 1)));
        }
        i += 1;
    }
    out.push(0x7d);
    proof {
        assert(map@.take(n as int) =~= map@);
        assert(out@ =~= json_object(map@));
    }
    out
}

/// The pair list a vector of byte-vector pairs stands for.
pub open spec fn pair_views(ps: Seq<(Vec<u8>, Vec<u8>)>) -> Seq<(Seq<u8>, Seq<u8>)> {
    Seq::new(ps.len(), |i: int| (ps[i].0@, ps[i].1@))
}

/// Appends the repeated-key pairs of one array field.
fn push_array_pairs(ps: &mut Vec<(Vec<u8>, Vec<u8>)>, key: &str, vals: &Vec<String>)
    ensures
        pair_views(final(ps)@) == pair_views(old(ps)@) + array_pairs(key@, vals.deep_view()),
{
    let n = vals.len();
    let mut i: usize = 0;
    while i < n
        invariant
            n == vals@.len(),
            i <= n,
            pair_views(ps@) == pair_views(old(ps)@) + array_pairs(key@, vals.deep_view().take(
                i as int,
            )),
        decreases n - i,
    {
        let ghost prev = ps@;
        let kb = key.as_bytes_vec();
        let vb = vals[i].as_str().as_bytes_vec();
        ps.push((kb, vb));
        proof {
            assert(ps@.last().0@ == encode_utf8(key@));
            assert(vals.deep_view()[i as int] == vals@[i as int]@);
            assert(ps@.last().1@ == encode_utf8(vals.deep_view()[i as int]));
            assert(pair_views(ps@) =~= pair_views(prev).push(
                (encode_utf8(key@), encode_utf8(vals.deep_view()[i as int])),
            ));
            assert(array_pairs(key@, vals.deep_view().take(i as int + 1)) =~= array_pairs(
                key@,
                vals.deep_view().take(i as int),
            ).push((encode_utf8(key@), encode_utf8(vals.deep_view()[i as int]))));
            assert(pair_views(ps@) =~= pair_views(old(ps)@) + array_pairs(
                key@,
                vals.deep_view().take(i as int + 1),
            ));
        }
        i += 1;
    }
    proof {
        assert(vals.deep_view().take(n as int) =~= vals.deep_view());
    }
}

/// Appends one scalar pair.
fn push_scalar_pair(ps: &mut Vec<(Vec<u8>, Vec<u8>)>, key: &str, val: &str)
    ensures
        pair_views(final(ps)@) == pair_views(old(ps)@).push(scalar_pair(key@, val@)),
{
    ps.push((key.as_bytes_vec(), val.as_bytes_vec()));
    proof {
        assert(pair_views(ps@) =~= pair_views(old(ps)@).push(scalar_pair(key@, val@)));
    }
}

/// Appends the bracket-keyed pairs of one mapping field.
fn push_bracket_pairs(ps: &mut Vec<(Vec<u8>, Vec<u8>)>, prefix: &str, map: &StrMap)
    ensures
        pair_views(final(ps)@) == pair_views(old(ps)@) + bracket_pairs(prefix@, map@),
{
    let n = map.len();
    let mut i: usize = 0;
    while i < n
        invariant
            n == map@.len(),
            i <= n,
            pair_views(ps@) == pair_views(old(ps)@) + bracket_pairs(prefix@, map@.take(i as int)),
        decreases n - i,
    {
        let ghost prev = ps@;
        let mut kb = prefix.as_bytes_vec();
        let mut name = map.key_at(i).as_str().as_bytes_vec();
        kb.append(&mut name);
        kb.push(0x5d);
        let vb = map.value_at(i).as_str().as_bytes_vec();
        ps.push((kb, vb));
        proof {
            assert(ps@.last().0@ =~= encode_utf8(prefix@) + encode_utf8(map@[i as int].0) + seq![
                0x5d,
            ]);
            assert(ps@.last().1@ == encode_utf8(map@[i as int].1));
            assert(pair_views(ps@) =~= pair_views(prev).push(
                (
                    encode_utf8(prefix@) + encode_utf8(map@[i as int].0) + seq![0x5d],
                    encode_utf8(map@[i as int].1),
                ),
            ));
            assert(bracket_pairs(prefix@, map@.take(i as int + 1)) =~= bracket_pairs(
                prefix@,
                map@.take(i as int),
            ).push(
                (
                    encode_utf8(prefix@) + encode_utf8(map@[i as int].0) + seq![0x5d],
                    encode_utf8(map@[i as int].1),
                ),
            ));
            assert(pair_views(ps@) =~= pair_views(old(ps)@) + bracket_pairs(
                prefix@,
                map@.take(i as int + 1),
            ));
        }
        i += 1;
    }
    proof {
        assert(map@.take(n as int) =~= map@);
    }
}

/// The empty value that the always-empty `fromname` key carries.
fn empty_str() -> (r: &'static str)
    ensures
        r@ == Seq::<char>::empty(),
{
    let r = "";
    proof {
        reveal_strlit("");
        assert(r@ =~= Seq::<char>::empty());
    }
    r
}

/// The string content of an optional field, absent fields reading as empty.
fn opt_str(o: &Option<String>) -> (r: &str)
    ensures
        r@ == opt_chars(o.deep_view()),
{
    match o {
        Some(s) => s.as_str(),
        None => {
            let r = "";
            proof {
                reveal_strlit("");
                assert(r@ =~= Seq::<char>::empty());
            }
            r
        },
    }
}

/// Every pair of the form body for `mail`, in wire order, as byte vectors.
fn mail_pairs_vec(mail: &Mail) -> (ps: Vec<(Vec<u8>, Vec<u8>)>)
    ensures
        pair_views(ps@) == mail_pairs(mail@),
{
    let mut ps: Vec<(Vec<u8>, Vec<u8>)> = Vec::new();
    proof {
        assert(pair_views(ps@) =~= Seq::<(Seq<u8>, Seq<u8>)>::empty());
    }
    push_array_pairs(&mut ps, "to[]", &mail.to);
    push_array_pairs(&mut ps, "toname[]", &mail.toname);
    push_array_pairs(&mut ps, "cc[]", &mail.cc);
    push_array_pairs(&mut ps, "ccname[]", &mail.ccname);
    push_array_pairs(&mut ps, "bcc[]", &mail.bcc);
    push_array_pairs(&mut ps, "bccname[]", &mail.bccname);
    let ghost arrs = array_pairs("to[]"@, mail@.to) + array_pairs("toname[]"@, mail@.toname)
        + array_pairs("cc[]"@, mail@.cc) + array_pairs("ccname[]"@, mail@.ccname) + array_pairs(
        "bcc[]"@,
        mail@.bcc,
    ) + array_pairs("bccname[]"@, mail@.bccname);
    proof {
        assert(pair_views(ps@) =~= arrs);
    }
    push_scalar_pair(&mut ps, "from", mail.from.as_str());
    push_scalar_pair(&mut ps, "subject", mail.subject.as_str());
    push_scalar_pair(&mut ps, "html", opt_str(&mail.html));
    push_scalar_pair(&mut ps, "text", opt_str(&mail.text));
    push_scalar_pair(&mut ps, "fromname", empty_str());
    push_scalar_pair(&mut ps, "replyto", opt_str(&mail.replyto));
    push_scalar_pair(&mut ps, "date", opt_str(&mail.date));
    let ghost scalars = arrs + seq![
        scalar_pair("from"@, mail@.from),
        scalar_pair("subject"@, mail@.subject),
        scalar_pair("html"@, opt_chars(mail@.html)),
        scalar_pair("text"@, opt_chars(mail@.text)),
        scalar_pair("fromname"@, Seq::<char>::empty()),
        scalar_pair("replyto"@, opt_chars(mail@.replyto)),
        scalar_pair("date"@, opt_chars(mail@.date)),
    ];
    proof {
        assert(pair_views(ps@) =~= scalars);
    }
    push_bracket_pairs(&mut ps, "files[", &mail.attachments);
    push_bracket_pairs(&mut ps, "content[", &mail.content);
    let ghost maps = scalars + bracket_pairs("files["@, mail@.attachments) + bracket_pairs(
        "content["@,
        mail@.content,
    );
    proof {
        assert(pair_views(ps@) =~= maps);
    }
    let ghost prev = ps@;
    let hk = "headers".as_bytes_vec();
    let hv = json_object_bytes(&mail.headers);
    ps.push((hk, hv));
    proof {
        assert(ps@.last().0@ == encode_utf8("headers"@));
        assert(ps@.last().1@ == json_object(mail@.headers));
        assert(pair_views(ps@) =~= pair_views(prev).push(
            (encode_utf8("headers"@), json_object(mail@.headers)),
        ));
    }
    push_scalar_pair(&mut ps, "x-smtpapi", opt_str(&mail.x_smtpapi));
    proof {
        assert(pair_views(ps@) =~= maps.push(
            (encode_utf8("headers"@), json_object(mail@.headers)),
        ).push(scalar_pair("x-smtpapi"@, opt_chars(mail@.x_smtpapi))));
        assert(pair_views(ps@) =~= mail_pairs(mail@));
    }
    ps
}

/// The pair list joined into one body: pairs in order, `&` between them.
fn pairs_to_body(ps: &Vec<(Vec<u8>, Vec<u8>)>) -> (out: Vec<u8>)
    ensures
        out@ == pairs_bytes(pair_views(ps@)),
{
    let mut out: Vec<u8> = Vec::new();
    let n = ps.len();
    let mut i: usize = 0;
    while i < n
        invariant
            n == ps@.len(),
            i <= n,
            out@ == pairs_bytes(pair_views(ps@).take(i as int)),
        decreases n - i,
    {
        if i > 0 {
            out.push(0x26);
        }
        push_escaped(&mut out, ps[i].0.as_slice());
        out.push(0x3d);
        push_escaped(&mut out, ps[i].1.as_slice());
        proof {
            lemma_pairs_bytes_push(pair_views(ps@).take(i as int), pair_views(ps@)[i as int]);
            assert(pair_views(ps@).take(i as int).push(pair_views(ps@)[i as int]) =~= pair_views(
                ps@,
            ).take(i as int + 1));
            assert(out@ =~= pairs_bytes(pair_views(ps@).take(i as int + 1)));
        }
        i += 1;
    }
    proof {
        assert(pair_views(ps@).take(n as int) =~= pair_views(ps@));
    }
    out
}

/// Relies on `String::from_utf8`: a vector of ASCII bytes is valid UTF-8,
/// and decodes to the string whose characters are exactly those bytes.
#[verifier::external_body]
fn ascii_string(bytes: Vec<u8>) -> (r: String)
    requires
        all_ascii(bytes@),
    ensures
        r@ == ascii_chars(bytes@),
{
    String::from_utf8(bytes).unwrap_or_default()
}

/// The form body the client posts for `mail`: every pair of [`mail_pairs`]
/// percent-encoded and joined by `&`, as one ASCII string.
pub fn post_body(mail: &Mail) -> (r: String)
    ensures
        r@ == body_chars(mail@),
{
    let ps = mail_pairs_vec(mail);
    let bytes = pairs_to_body(&ps);
    proof {
        lemma_pairs_bytes_ascii(pair_views(ps@));
    }
    ascii_string(bytes)
}


/// Law: for a mail whose address lists are in step, the encoded pair list
/// carries each array field's entries in the order they were appended —
/// all `to[]` pairs first, then the `toname[]` pairs, then `cc[]`,
/// `ccname[]`, `bcc[]` and `bccname[]` — and the name belonging to the
/// address at position `i` of a list stands exactly one list length after
/// that address, so the address/name correspondence is preserved.
pub proof fn lemma_array_pairs_ordered(m: MailModel)
    requires
        m.wf(),
    ensures
        forall|i: int|
            0 <= i < m.to.len() ==> mail_pairs(m)[i] == (
                encode_utf8("to[]"@),
                encode_utf8(m.to[i]),
            ),
        forall|i: int|
            0 <= i < m.to.len() ==> mail_pairs(m)[m.to.len() + i] == (
                encode_utf8("toname[]"@),
                encode_utf8(m.toname[i]),
            ),
        forall|i: int|
            0 <= i < m.cc.len() ==> mail_pairs(m)[2 * m.to.len() + i] == (
                encode_utf8("cc[]"@),
                encode_utf8(m.cc[i]),
            ),
        forall|i: int|
            0 <= i < m.cc.len() ==> mail_pairs(m)[2 * m.to.len() + m.cc.len() + i] == (
                encode_utf8("ccname[]"@),
                encode_utf8(m.ccname[i]),
            ),
        forall|i: int|
            0 <= i < m.bcc.len() ==> mail_pairs(m)[2 * m.to.len() + 2 * m.cc.len() + i] == (
                encode_utf8("bcc[]"@),
                encode_utf8(m.bcc[i]),
            ),
        forall|i: int|
            0 <= i < m.bcc.len() ==> mail_pairs(m)[2 * m.to.len() + 2 * m.cc.len() + m.bcc.len()
                + i] == (encode_utf8("bccname[]"@), encode_utf8(m.bccname[i])),
{
    assert forall|i: int| 0 <= i < m.to.len() implies mail_pairs(m)[i] == (
        encode_utf8("to[]"@),
        encode_utf8(m.to[i]),
    ) by {
        assert(mail_pairs(m)[i] == array_pairs("to[]"@, m.to)[i]);
    }
    assert forall|i: int| 0 <= i < m.to.len() implies mail_pairs(m)[m.to.len() + i] == (
        encode_utf8("toname[]"@),
        encode_utf8(m.toname[i]),
    ) by {
        assert(mail_pairs(m)[m.to.len() + i] == array_pairs("toname[]"@, m.toname)[i]);
    }
    assert forall|i: int| 0 <= i < m.cc.len() implies mail_pairs(m)[2 * m.to.len() + i] == (
        encode_utf8("cc[]"@),
        encode_utf8(m.cc[i]),
    ) by {
        assert(mail_pairs(m)[2 * m.to.len() + i] == array_pairs("cc[]"@, m.cc)[i]);
    }
    assert forall|i: int| 0 <= i < m.cc.len() implies mail_pairs(m)[2 * m.to.len() + m.cc.len()
        + i] == (encode_utf8("ccname[]"@), encode_utf8(m.ccname[i])) by {
        assert(mail_pairs(m)[2 * m.to.len() + m.cc.len() + i] == array_pairs(
            "ccname[]"@,
            m.ccname,
        )[i]);
    }
    assert forall|i: int| 0 <= i < m.bcc.len() implies mail_pairs(m)[2 * m.to.len() + 2
        * m.cc.len() + i] == (encode_utf8("bcc[]"@), encode_utf8(m.bcc[i])) by {
        assert(mail_pairs(m)[2 * m.to.len() + 2 * m.cc.len() + i] == array_pairs(
            "bcc[]"@,
            m.bcc,
        )[i]);
    }
    assert forall|i: int| 0 <= i < m.bcc.len() implies mail_pairs(m)[2 * m.to.len() + 2
        * m.cc.len() + m.bcc.len() + i] == (encode_utf8("bccname[]"@), encode_utf8(m.bccname[i]))
        by {
        assert(mail_pairs(m)[2 * m.to.len() + 2 * m.cc.len() + m.bcc.len() + i] == array_pairs(
            "bccname[]"@,
            m.bccname,
        )[i]);
    }
}

/// Law: the scalar keys — required and optional alike — stand in every
/// encoded pair list at their fixed places past the array pairs, so an
/// absent optional field is never an omitted key: its pair is present and
/// its value encodes as the empty byte string. The headers object likewise
/// always stands, second from the end, and the metadata string last.
pub proof fn lemma_optional_fields_always_present(m: MailModel)
    ensures
        ({
            let base: int = (m.to.len() + m.toname.len() + m.cc.len() + m.ccname.len()
                + m.bcc.len() + m.bccname.len()) as int;
            let n: int = mail_pairs(m).len() as int;
            &&& n == base + 9 + m.attachments.len() + m.content.len()
            &&& mail_pairs(m)[base + 0] == scalar_pair("from"@, m.from)
            &&& mail_pairs(m)[base + 1] == scalar_pair("subject"@, m.subject)
            &&& mail_pairs(m)[base + 2] == scalar_pair("html"@, opt_chars(m.html))
            &&& mail_pairs(m)[base + 3] == scalar_pair("text"@, opt_chars(m.text))
            &&& mail_pairs(m)[base + 4] == scalar_pair("fromname"@, Seq::<char>::empty())
            &&& mail_pairs(m)[base + 5] == scalar_pair("replyto"@, opt_chars(m.replyto))
            &&& mail_pairs(m)[base + 6] == scalar_pair("date"@, opt_chars(m.date))
            &&& mail_pairs(m)[n - 2] == (encode_utf8("headers"@), json_object(m.headers))
            &&& mail_pairs(m)[n - 1] == scalar_pair("x-smtpapi"@, opt_chars(m.x_smtpapi))
            &&& (m.html is None ==> mail_pairs(m)[base + 2].1 == Seq::<u8>::empty())
            &&& (m.text is None ==> mail_pairs(m)[base + 3].1 == Seq::<u8>::empty())
            &&& (m.replyto is None ==> mail_pairs(m)[base + 5].1 == Seq::<u8>::empty())
            &&& (m.date is None ==> mail_pairs(m)[base + 6].1 == Seq::<u8>::empty())
            &&& (m.x_smtpapi is None ==> mail_pairs(m)[n - 1].1 == Seq::<u8>::empty())
        }),
{
    assert(encode_utf8(Seq::<char>::empty()) =~= Seq::<u8>::empty());
}


} // verus!
