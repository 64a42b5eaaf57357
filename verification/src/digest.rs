//! Digests of messages and keys, and the compression of messages.
use vstd::prelude::*;

use crate::number::digit_char;
use crate::text::{chars_of, owned, string_of, text_eq, Text};
use vstd::string::*;

verus! {

/// What `blake3::hash` gives: the BLAKE3 digest of the data.
pub uninterp spec fn blake3_digest(data: Seq<u8>) -> Seq<u8>;

/// `blake3::hash` of the `blake3` crate, with the 32 bytes of the digest. The digest is named, not
/// described.
#[verifier::external_body]
fn blake3_hash(data: &[u8]) -> (r: Vec<u8>)
    ensures
        r@ == blake3_digest(data@),
        r@.len() == 32,
{
    blake3::hash(data).as_bytes().to_vec()
}

/// What `zstd::decode_all` gives: the data that a compressed message stands for, if it is one.
pub uninterp spec fn zstd_decoded(data: Seq<u8>) -> Option<Seq<u8>>;

/// `zstd::decode_all` of the `zstd` crate on data in memory. What it decodes, and whether it can,
/// is named, not described.
#[verifier::external_body]
fn zstd_decode_all(data: &[u8]) -> (r: Option<Vec<u8>>)
    ensures
        r.deep_view() == zstd_decoded(data@),
{
    zstd::decode_all(data).ok()
}

/// Bytes in lower case hexadecimal digits, two for each.
pub open spec fn hex_text(bytes: Seq<u8>) -> Text
    decreases bytes.len(),
{
    if bytes.len() == 0 {
        Seq::empty()
    } else {
        hex_text(bytes.drop_last()).push(digit_char((bytes.last() / 16) as nat)).push(
            digit_char((bytes.last() % 16) as nat),
        )
    }
}

fn hex_digit(d: u8) -> (r: char)
    requires
        d < 16,
    ensures
        r == digit_char(d as nat),
{
    if d < 10 {
        (48 + d) as char
    } else {
        (87 + d) as char
    }
}

/// Writes bytes in hexadecimal digits.
pub fn hex_of(bytes: &Vec<u8>) -> (r: String)
    ensures
        r@ == hex_text(bytes@),
        r@.len() == 2 * bytes@.len(),
{
    let mut out = String::new();
    let mut i: usize = 0;
    assert(out@ =~= hex_text(bytes@.take(0)));
    while i < bytes.len()
        invariant
            i <= bytes@.len(),
            out@ == hex_text(bytes@.take(i as int)),
            out@.len() == 2 * i,
        decreases bytes.len() - i,
    {
        assert(bytes@.take(i + 1).drop_last() =~= bytes@.take(i as int));
        let b: u8 = bytes[i];
        out.push(hex_digit(b / 16));
        out.push(hex_digit(b % 16));
        i += 1;
    }
    assert(bytes@.take(bytes@.len() as int) =~= bytes@);
    out
}

/// The digest of data in hexadecimal digits.
pub open spec fn digest_text(data: Seq<u8>) -> Text {
    hex_text(blake3_digest(data))
}

/// The digest of data in hexadecimal digits.
pub fn digest_of(data: &[u8]) -> (r: String)
    ensures
        r@ == digest_text(data@),
        r@.len() == 64,
{
    hex_of(&blake3_hash(data))
}

/// The name under which a node is known to the broker: `wg-` and the first twenty digits of the
/// digest of its public key.
pub open spec fn client_name(public_key: Text) -> Text {
    "wg-"@ + digest_text(vstd::utf8::encode_utf8(public_key)).take(20)
}

/// The name under which a node is known to the broker.
pub fn client_id(public_key: &str) -> (r: String)
    ensures
        r@ == client_name(public_key@),
{
    let digest = digest_of(public_key.as_bytes());
    let chars = chars_of(digest.as_str());
    let head = string_of(&chars, 0, 20);
    assert(head@ =~= digest@.take(20));
    owned("wg-").concat(head.as_str())
}

// ---------- Receiving a snapshot ----------

/// The contents of a message that carries a snapshot: decompressed, or as they are where they are
/// not compressed.
pub open spec fn message_contents(payload: Seq<u8>) -> Seq<u8> {
    match zstd_decoded(payload) {
        Some(data) => data,
        None => payload,
    }
}

/// What is to be read of a decoded message, `decoded` being what decompression gave.
pub fn contents_or_payload(decoded: Option<Vec<u8>>, payload: &[u8]) -> (r: Vec<u8>)
    ensures
        r@ == match decoded.deep_view() {
            Some(data) => data,
            None => payload@,
        },
{
    match decoded {
        Some(data) => data,
        None => {
            let mut out: Vec<u8> = Vec::new();
            let mut i: usize = 0;
            while i < payload.len()
                invariant
                    i <= payload@.len(),
                    out@ == payload@.take(i as int),
                decreases payload.len() - i,
            {
                out.push(payload[i]);
                i += 1;
            }
            out
        },
    }
}

/// Whether the message with this digest was received last.
pub fn is_repeated(last: &Option<String>, digest: &String) -> (r: bool)
    ensures
        r == (last.deep_view() == Some(digest@)),
{
    match last {
        Some(prev) => text_eq(prev.as_str(), digest.as_str()),
        None => false,
    }
}

/// What is to be read of a message, `last` being the digest of the one before: nothing where the
/// message is the same.
pub open spec fn news(last: Option<Text>, payload: Seq<u8>) -> Option<Seq<u8>> {
    if last == Some(digest_text(payload)) {
        None
    } else {
        Some(message_contents(payload))
    }
}

/// A message that is sent twice in a row is read once, whatever came before it.
pub proof fn law_repeated_message_is_ignored(last: Option<Text>, payload: Seq<u8>)
    ensures
        news(Some(digest_text(payload)), payload) is None,
        last != Some(digest_text(payload)) ==> news(last, payload) == Some(
            message_contents(payload),
        ),
{
}

/// Takes a message that carries a snapshot. One that repeats the last message is ignored; of any
/// other the digest is remembered and the contents are returned.
pub fn receive_snapshot(last: &mut Option<String>, payload: &[u8]) -> (r: Option<Vec<u8>>)
    ensures
        r.deep_view() == news(old(last).deep_view(), payload@),
        final(last).deep_view() == Some(digest_text(payload@)),
{
    let digest = digest_of(payload);
    if is_repeated(last, &digest) {
        return None;
    }
    *last = Some(digest);
    Some(contents_or_payload(zstd_decode_all(payload), payload))
}

} // verus!
