//! The push channel of a client: its name carries the user and the client id,
//! variable-byte encoded and written in URL-safe Base64.
use vstd::prelude::*;

use crate::vbyte_codec::{
    bin_u64_li, lemma_strict_dec_enc_list, list_overflows, vb_dec_list_strict, vb_enc_list,
    vb_list_overflows, vb_unzip,
};

verus! {

/// The character of a six-bit group in the URL-safe Base64 alphabet.
pub open spec fn b64_char(v: int) -> char {
    if v < 26 {
        (65 + v) as char
    } else if v < 52 {
        (97 + v - 26) as char
    } else if v < 62 {
        (48 + v - 52) as char
    } else if v == 62 {
        '-'
    } else {
        '_'
    }
}

/// The URL-safe Base64 text of some bytes, without padding: four characters
/// for every three bytes, two or three for a last one or two.
pub open spec fn b64e_of(b: Seq<u8>) -> Seq<char>
    decreases b.len(),
{
    if b.len() == 0 {
        Seq::empty()
    } else {
        let x0 = b[0] as int;
        let x1 = if b.len() > 1 { b[1] as int } else { 0 };
        let x2 = if b.len() > 2 { b[2] as int } else { 0 };
        let c0 = b64_char(x0 / 4);
        let c1 = b64_char((x0 % 4) * 16 + x1 / 16);
        let c2 = b64_char((x1 % 16) * 4 + x2 / 64);
        let c3 = b64_char(x2 % 64);
        if b.len() == 1 {
            seq![c0, c1]
        } else if b.len() == 2 {
            seq![c0, c1, c2]
        } else {
            seq![c0, c1, c2, c3] + b64e_of(b.skip(3))
        }
    }
}

/// The bytes that `ub64::b64d` reads from a text, `None` where it fails.
pub uninterp spec fn b64d_of(text: Seq<char>) -> Option<Seq<u8>>;

/// The little-endian number in the first eight bytes (fewer bytes standing
/// for the low ones, the rest zero).
pub open spec fn le_value(b: Seq<u8>) -> nat
    decreases b.len(),
{
    if b.len() == 0 {
        0
    } else {
        b[0] as nat + 256 * le_value(b.drop_first())
    }
}

/// The number `ub64::b64_u64` reads from a text: the little-endian value of
/// the decoded bytes (`intbin::bin_u64`), 0 where the text does not decode.
pub open spec fn b64_u64_of(text: Seq<char>) -> u64 {
    match b64d_of(text) {
        Some(b) => le_value(if b.len() > 8 { b.take(8) } else { b }) as u64,
        None => 0,
    }
}

/// `ub64::b64e`: the `URL_SAFE_NO_PAD` engine of the `base64` crate. Decoding
/// with `ub64::b64d`, the same engine, gives the bytes back (the engine's
/// documented round trip), which the second clause states.
#[verifier::external_body]
fn b64e(bytes: &[u8]) -> (r: String)
    ensures
        r@ == b64e_of(bytes@),
        b64d_of(r@) == Some(bytes@),
{
    ub64::b64e(bytes)
}

/// `ub64::b64d`, its error turned into `None`.
#[verifier::external_body]
fn b64d(text: &str) -> (r: Option<Vec<u8>>)
    ensures
        r is Some <==> b64d_of(text@) is Some,
        r matches Some(b) ==> b64d_of(text@) == Some(b@),
{
    ub64::b64d(text).ok()
}

/// `ub64::b64_u64`: the same decoding, then `intbin::bin_u64` (the first eight
/// bytes, zero-padded, read little-endian); 0 where the text does not decode.
#[verifier::external_body]
fn b64_u64(text: &str) -> (r: u64)
    ensures
        r == b64_u64_of(text@),
{
    ub64::b64_u64(text)
}

/// `vb::e_li`: each number in seven-bit groups, lowest first, the high bit
/// set on every byte but a number's last.
#[verifier::external_body]
fn vb_e_li(li: &[u64]) -> (r: Vec<u8>)
    ensures
        r@ == vb_enc_list(li@),
{
    vb::e_li(li.iter().copied())
}

/// `vb::d_li`, its error turned into `None`: it decodes as `vb_dec_list_strict`
/// says.
#[verifier::external_body]
pub(crate) fn vb_d_li(bytes: &[u8]) -> (r: Option<Vec<u64>>)
    ensures
        r is Some <==> vb_dec_list_strict(bytes@) is Some,
        r matches Some(l) ==> vb_dec_list_strict(bytes@) == Some(l@),
{
    vb::d_li(bytes).ok()
}

/// The user that a channel name carries: the first of the exactly two numbers
/// it encodes; `None` when it does not decode to two numbers.
pub open spec fn channel_user_of(channel: Seq<char>) -> Option<u64> {
    match b64d_of(channel) {
        None => None,
        Some(b) => match vb_dec_list_strict(b) {
            None => None,
            Some(l) => if l.len() == 2 {
                Some(l[0])
            } else {
                None
            },
        },
    }
}

/// The name of the channel of a client of a user.
pub open spec fn channel_name(uid: u64, client_id: u64) -> Seq<char> {
    b64e_of(vb_enc_list(seq![uid, client_id]))
}

/// The channel of a client of a user and the internal URL that serves it.
/// The channel name reads back to the user.
pub fn channel_for(uid: u64, client_id: u64) -> (r: (String, String))
    ensures
        r.0@ == channel_name(uid, client_id),
        r.1@ == "/nchan/"@ + r.0@,
        channel_user_of(r.0@) == Some(uid),
{
    let li: [u64; 2] = [uid, client_id];
    assert(li@ =~= seq![uid, client_id]);
    let bytes = vb_e_li(&li);
    proof {
        lemma_strict_dec_enc_list(seq![uid, client_id]);
    }
    let channel = b64e(bytes.as_slice());
    let mut url = String::from_str("/nchan/");
    url.append(channel.as_str());
    (channel, url)
}

/// The user that a channel name carries, as the channel handler reads it.
pub fn channel_user(channel: &str) -> (r: Option<u64>)
    ensures
        r == channel_user_of(channel@),
{
    match b64d(channel) {
        None => None,
        Some(b) => match vb_d_li(b.as_slice()) {
            None => None,
            Some(l) => if l.len() == 2 {
                Some(l[0])
            } else {
                None
            },
        },
    }
}

/// The numbers a channel name encodes; `None` where the name is not Base64 or
/// its bytes are not a variable-byte list.
pub open spec fn channel_numbers_of(channel: Seq<char>) -> Option<Seq<u64>> {
    match b64d_of(channel) {
        None => None,
        Some(b) => vb_dec_list_strict(b),
    }
}

/// Reads the numbers of a channel name, as the channel handler does before it
/// looks at them: a name that does not decode is an error there, while one
/// that decodes to anything but a user and a client is ignored.
pub fn channel_numbers(channel: &str) -> (r: Option<Vec<u64>>)
    ensures
        r is Some <==> channel_numbers_of(channel@) is Some,
        r matches Some(l) ==> channel_numbers_of(channel@) == Some(l@),
        r matches Some(l) ==> (channel_user_of(channel@) == if l@.len() == 2 {
            Some(l@[0])
        } else {
            None
        }),
        r is None ==> channel_user_of(channel@) is None,
{
    match b64d(channel) {
        None => None,
        Some(b) => vb_d_li(b.as_slice()),
    }
}

/// The user named in the path of a channel request (Base64 of its
/// little-endian bytes; 0 when it does not decode), and the channel of this
/// client of that user with its URL.
pub fn channel_request(uid_text: &str, client_id: u64) -> (r: (u64, String, String))
    ensures
        r.0 == b64_u64_of(uid_text@),
        r.1@ == channel_name(r.0, client_id),
        r.2@ == "/nchan/"@ + r.1@,
{
    let uid = b64_u64(uid_text);
    let (channel, url) = channel_for(uid, client_id);
    (uid, channel, url)
}

/// The two cursors of a sync request body (the time after which history is
/// asked for, then the favourite id): the first two numbers of its
/// variable-byte list; `None` when the body does not decode or holds fewer
/// than two numbers.
pub open spec fn sync_cursors_of(body: Seq<u8>) -> Option<(u64, u64)> {
    match vb_dec_list_strict(body) {
        Some(l) => if l.len() >= 2 {
            Some((l[0], l[1]))
        } else {
            None
        },
        None => None,
    }
}

/// Reads the cursors of a sync request body.
pub fn sync_cursors(body: &[u8]) -> (r: Option<(u64, u64)>)
    ensures
        r == sync_cursors_of(body@),
{
    match vb_d_li(body) {
        Some(l) => if l.len() >= 2 {
            Some((l[0], l[1]))
        } else {
            None
        },
        None => None,
    }
}

/// The little-endian bytes of a number without its high zero bytes (none for
/// zero), as `intbin::to_bin` gives them.
pub open spec fn min_le_bytes(n: u64) -> Seq<u8>
    decreases n,
{
    if n == 0 {
        Seq::empty()
    } else {
        seq![(n % 256) as u8] + min_le_bytes(n / 256)
    }
}

/// `ub64::u64_b64`: `intbin::to_bin` of the number in the `URL_SAFE_NO_PAD`
/// engine of the `base64` crate.
#[verifier::external_body]
fn u64_b64(n: u64) -> (r: String)
    ensures
        r@ == b64e_of(min_le_bytes(n)),
{
    ub64::u64_b64(n)
}

/// The list the event-stream path carries: Base64, then a variable-byte list.
/// A text that is not Base64 reads as an empty list; `None` where decoding the
/// list would overflow a shift (the decoder panics there in debug builds).
pub open spec fn es_list_of(text: Seq<char>) -> Option<Seq<u64>> {
    match b64d_of(text) {
        None => Some(Seq::empty()),
        Some(b) => if vb_list_overflows(b) {
            None
        } else {
            Some(vb_unzip(b))
        },
    }
}

/// Reads the list of the event-stream path, decoding with `ub64::b64d` and
/// `ub64::bin_u64_li`.
pub fn es_list(text: &str) -> (r: Option<Vec<u64>>)
    ensures
        r is None <==> es_list_of(text@) is None,
        r matches Some(l) ==> es_list_of(text@) == Some(l@),
{
    match b64d(text) {
        None => Some(Vec::new()),
        Some(b) => if list_overflows(b.as_slice()) {
            None
        } else {
            Some(bin_u64_li(b.as_slice()))
        },
    }
}

/// The user an event-stream request is for: the first number, when the list
/// holds at least two.
pub fn es_user(li: &Vec<u64>) -> (r: Option<u64>)
    ensures
        r == (if li@.len() >= 2 {
            Some(li@[0])
        } else {
            None
        }),
{
    if li.len() >= 2 {
        Some(li[0])
    } else {
        None
    }
}

/// The sync cursors of an event-stream request: the last favourite id the
/// client holds, then the time of the last history row it holds.
pub fn es_cursors(li: &Vec<u64>) -> (r: (u64, u64))
    requires
        li@.len() >= 3,
    ensures
        r == (li@[1], li@[2]),
{
    (li[1], li[2])
}

/// The event-stream channel of a client and the internal URL that serves it:
/// the client id's little-endian bytes in Base64.
pub fn es_channel(client_id: u64) -> (r: (String, String))
    ensures
        r.0@ == b64e_of(min_le_bytes(client_id)),
        r.1@ == "/nchan/"@ + r.0@,
{
    let channel = u64_b64(client_id);
    let mut url = String::from_str("/nchan/");
    url.append(channel.as_str());
    (channel, url)
}

} // verus!
