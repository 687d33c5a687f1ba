//! The signed client cookie: a token that carries the ten-day period in which it
//! was issued and the client id, authenticated by an xxh3 hash keyed with the
//! server's secret, and the rules that accept, renew or reject it.
use vstd::bytes::*;
use vstd::slice::slice_subrange;
use vstd::prelude::*;

use crate::vbyte_codec::{
    bin_u64_li, compress_list, lemma_dec_enc_list, list_overflows, unzip_u64, vb_enc_list,
    vb_list_overflows, vb_unzip, zip_u64,
};

verus! {

/// Number of ten-day periods after which the period counter wraps.
pub const BASE: u64 = 4096;

/// The request middleware renews a token up to this many periods old; a token
/// that has gone unused for more periods than this is no longer valid.
pub const MAX_INTERVAL: u64 = 41;

/// The client-id middleware renews a token up to this many periods old: it
/// counts a token as invalid after more than 40 unused periods.
pub const CLIENT_ID_MAX_AGE: u64 = 40;

/// Length of the hash that opens a token.
pub const TOKEN_LEN: usize = 8;

/// What a cookie says about the client that sent it.
#[derive(Debug, Clone, Copy, PartialEq, Eq, Structural)]
pub enum ClientState {
    /// A token of the current period, for this client id.
    Current(u64),
    /// A valid token of an earlier period: reissue it for this client id.
    Renew(u64),
    /// No valid token.
    Invalid,
}

/// A client as the request handlers see it: its id, and the user behind it
/// (`Some(0)` when that is yet to be looked up, `None` when there is none).
#[derive(Debug, Clone, Copy, PartialEq, Eq, Structural)]
pub struct ClientUser {
    pub id: u64,
    pub _uid: Option<u64>,
}

/// What finding the user of a client takes: it is known (or known to be
/// none), or it is still to be looked up in the store.
#[derive(Debug, Clone, Copy, PartialEq, Eq, Structural)]
pub enum UidStep {
    Known(Option<u64>),
    Lookup,
}

impl ClientUser {
    /// The first step of finding the user: a stored `Some(0)` asks for a
    /// lookup, any other value is the answer.
    pub fn uid_step(&self) -> (r: UidStep)
        ensures
            r == (if self._uid == Some(0u64) {
                UidStep::Lookup
            } else {
                UidStep::Known(self._uid)
            }),
    {
        match self._uid {
            Some(id) => if id == 0 {
                UidStep::Lookup
            } else {
                UidStep::Known(Some(id))
            },
            None => UidStep::Known(None),
        }
    }

    /// Keeps what the lookup found (a user, or none) as the client's user, and
    /// returns it.
    pub fn uid_found(&mut self, found: Option<u64>) -> (r: Option<u64>)
        ensures
            r == found,
            *final(self) == (ClientUser { id: old(self).id, _uid: found }),
    {
        self._uid = found;
        found
    }
}

/// The ten-day period of a Unix time in seconds, modulo `BASE`.
pub open spec fn day_of(now_secs: u64) -> u64 {
    ((now_secs / 864000) % 4096) as u64
}

/// How many periods lie between the period of a token and the current one,
/// counted modulo `BASE`.
pub open spec fn token_age(pre: u64, now: u64) -> int {
    (now as int - pre as int) % 4096
}

/// The state of a client whose token was issued in period `pre`, checked in
/// period `now`: current in the same period; to be renewed when it is at most
/// `max_age` periods old (and its period is one that could have been issued);
/// rejected otherwise.
pub open spec fn state_for(pre: u64, client: u64, now: u64, max_age: u64) -> ClientState {
    if pre == now {
        ClientState::Current(client)
    } else if pre < 4096 && token_age(pre, now) <= max_age {
        ClientState::Renew(client)
    } else {
        ClientState::Invalid
    }
}

/// The xxh3-64 hash of a byte string.
pub uninterp spec fn xxh3_64_of(data: Seq<u8>) -> u64;

/// The cookie-safe text that `xxai::cookie_encode` makes of a byte string.
pub uninterp spec fn cookie_text(bytes: Seq<u8>) -> Seq<char>;

/// The bytes that `xxai::cookie_decode` reads from a text, `None` where it fails.
pub uninterp spec fn cookie_bytes(text: Seq<char>) -> Option<Seq<u8>>;

/// The registrable domain that `xxai::tld` makes of a `Host` header value.
pub uninterp spec fn tld_of(host: Seq<char>) -> Seq<char>;

/// The (name, value) pairs that `cookie::Cookie::split_parse` finds in a
/// `Cookie` header, in order, those it cannot parse left out.
pub uninterp spec fn cookie_pairs_of(header: Seq<char>) -> Seq<(Seq<char>, Seq<char>)>;

/// The client part of a token whose hash matches under the secret `sk`.
pub open spec fn token_client(token: Seq<char>, sk: Seq<u8>) -> Option<Seq<u8>> {
    match cookie_bytes(token) {
        Some(c) => if c.len() >= 8 && xxh3_64_of(sk + c.skip(8)) == spec_u64_from_le_bytes(
            c.take(8),
        ) {
            Some(c.skip(8))
        } else {
            None
        },
        None => None,
    }
}

/// The state of the client that sent `token`, checked in period `now` under
/// the secret `sk`, renewable up to `max_age` periods old. A client part whose
/// decoding would overflow is rejected.
pub open spec fn token_state(token: Seq<char>, sk: Seq<u8>, now: u64, max_age: u64) -> ClientState {
    match token_client(token, sk) {
        None => ClientState::Invalid,
        Some(cl) => if vb_list_overflows(cl) {
            ClientState::Invalid
        } else {
            let li = vb_unzip(cl);
            if li.len() == 2 {
                state_for(li[0], li[1], now, max_age)
            } else {
                ClientState::Invalid
            }
        },
    }
}

/// The value of the first cookie named `I` among the pairs of a header.
pub open spec fn first_i_value(pairs: Seq<(Seq<char>, Seq<char>)>) -> Option<Seq<char>>
    decreases pairs.len(),
{
    if pairs.len() == 0 {
        None
    } else if pairs[0].0 == seq!['I'] {
        Some(pairs[0].1)
    } else {
        first_i_value(pairs.drop_first())
    }
}

/// The state that a `Cookie` header gives: that of the first cookie named `I`.
pub open spec fn first_i_state(
    pairs: Seq<(Seq<char>, Seq<char>)>,
    sk: Seq<u8>,
    now: u64,
    max_age: u64,
) -> ClientState {
    match first_i_value(pairs) {
        Some(v) => token_state(v, sk, now, max_age),
        None => ClientState::Invalid,
    }
}

/// The bytes that a token carries before encoding: the hash of the secret and
/// the client part, little-endian, then the client part.
pub open spec fn token_bytes(sk: Seq<u8>, day: u64, client: u64) -> Seq<u8> {
    let t = vb_enc_list(seq![day, client]);
    spec_u64_to_le_bytes(xxh3_64_of(sk + t)) + t
}

/// The `Set-Cookie` value for a token and a host.
pub open spec fn set_cookie_text(token: Seq<char>, host: Seq<char>) -> Seq<char> {
    "I="@ + token + ";max-age=99999999;domain="@ + tld_of(host)
        + ";path=/;HttpOnly;SameSite=None;Secure"@
}

/// `xxhash_rust::xxh3::xxh3_64`.
#[verifier::external_body]
fn xxh3_64(data: &[u8]) -> (r: u64)
    ensures
        r == xxh3_64_of(data@),
{
    xxhash_rust::xxh3::xxh3_64(data)
}

/// `xxai::cookie_encode`: `base_x::encode` with a cookie-safe alphabet.
/// Base-x decoding with the same alphabet gives the bytes back (the base-x
/// crate's tests check both directions), which the second clause states.
#[verifier::external_body]
fn cookie_encode(bytes: &[u8]) -> (r: String)
    ensures
        r@ == cookie_text(bytes@),
        cookie_bytes(r@) == Some(bytes@),
{
    xxai::cookie_encode(bytes)
}

/// `xxai::cookie_decode`, its error turned into `None`.
#[verifier::external_body]
fn cookie_decode(text: &str) -> (r: Option<Vec<u8>>)
    ensures
        r is Some <==> cookie_bytes(text@) is Some,
        r matches Some(b) ==> cookie_bytes(text@) == Some(b@),
{
    xxai::cookie_decode(text).ok().map(|b| b.into_vec())
}

/// `xxai::tld`.
#[verifier::external_body]
fn tld(host: &str) -> (r: String)
    ensures
        r@ == tld_of(host@),
{
    xxai::tld(host)
}

/// `cookie::Cookie::split_parse`, each cookie that parses turned into its
/// name and value.
#[verifier::external_body]
fn cookie_pairs(header: &str) -> (r: Vec<(String, String)>)
    ensures
        r.deep_view() == cookie_pairs_of(header@),
{
    cookie::Cookie::split_parse(header).flatten().map(
        |c| (c.name().to_string(), c.value().to_string()),
    ).collect()
}

/// `xxai::now`: the Unix time in seconds. Nothing is stated of it: it reads
/// the clock.
#[verifier::external_body]
fn now_secs() -> u64 {
    xxai::now()
}

/// The ten-day period of a Unix time in seconds, modulo `BASE`.
pub fn day10_of(now_secs: u64) -> (r: u64)
    ensures
        r == day_of(now_secs),
        r < BASE,
{
    (now_secs / 864000) % BASE
}

/// The current ten-day period, modulo `BASE`.
pub fn day10() -> (r: u64)
    ensures
        r < BASE,
{
    day10_of(now_secs())
}

/// The current ten-day period, as the `client_id` middleware counts it.
pub fn day() -> (r: u64)
    ensures
        r < BASE,
{
    day10_of(now_secs())
}

/// The state of a client whose token is of period `pre_day10`, checked in
/// period `now_day10`, renewable up to `max_age` periods old.
pub fn client_state(pre_day10: u64, client: u64, now_day10: u64, max_age: u64) -> (r: ClientState)
    requires
        now_day10 < BASE,
    ensures
        r == state_for(pre_day10, client, now_day10, max_age),
{
    let now = now_day10;
    if pre_day10 != now {
        // unsigned: no subtraction that could go below zero
        if pre_day10 > now {
            if pre_day10 < BASE && (now + BASE - pre_day10) <= max_age {
                return ClientState::Renew(client);
            }
        } else if (now - pre_day10) <= max_age {
            return ClientState::Renew(client);
        }
    } else {
        return ClientState::Current(client);
    }
    ClientState::Invalid
}

/// The bytes of `a` followed by those of `b`.
fn concat_bytes(a: &[u8], b: &[u8]) -> (r: Vec<u8>)
    ensures
        r@ == a@ + b@,
{
    let mut r: Vec<u8> = Vec::new();
    let mut i: usize = 0;
    while i < a.len()
        invariant
            i <= a.len(),
            r@ == a@.take(i as int),
        decreases a.len() - i,
    {
        r.push(a[i]);
        i = i + 1;
        assert(r@ =~= a@.take(i as int));
    }
    let mut j: usize = 0;
    while j < b.len()
        invariant
            i == a.len(),
            j <= b.len(),
            r@ == a@ + b@.take(j as int),
        decreases b.len() - j,
    {
        r.push(b[j]);
        j = j + 1;
        assert(r@ =~= a@ + b@.take(j as int));
    }
    assert(a@.take(a.len() as int) =~= a@);
    assert(b@.take(b.len() as int) =~= b@);
    r
}

/// The bytes of `v` from index `from` on.
fn bytes_from(v: &[u8], from: usize) -> (r: Vec<u8>)
    requires
        from <= v.len(),
    ensures
        r@ == v@.skip(from as int),
{
    let mut r: Vec<u8> = Vec::new();
    let mut i: usize = from;
    while i < v.len()
        invariant
            from <= i <= v.len(),
            r@ == v@.subrange(from as int, i as int),
        decreases v.len() - i,
    {
        r.push(v[i]);
        i = i + 1;
        assert(r@ =~= v@.subrange(from as int, i as int));
    }
    r
}

/// The client part of a token, if its hash matches under `sk`.
fn token_client_part(token: &str, sk: &[u8]) -> (r: Option<Vec<u8>>)
    ensures
        r matches Some(b) ==> token_client(token@, sk@) == Some(b@),
        r is None ==> token_client(token@, sk@) is None,
{
    match cookie_decode(token) {
        Some(c) => {
            if c.len() >= TOKEN_LEN {
                let client = bytes_from(c.as_slice(), TOKEN_LEN);
                let keyed = concat_bytes(sk, client.as_slice());
                let head = slice_subrange(c.as_slice(), 0, TOKEN_LEN);
                let mac = u64_from_le_bytes(head);
                assert(head@ =~= c@.take(8));
                if xxh3_64(keyed.as_slice()) == mac {
                    Some(client)
                } else {
                    None
                }
            } else {
                None
            }
        },
        None => None,
    }
}

/// The state of the client that sent `token`, as the `client_id` middleware
/// decides it: the hash checked under the secret `sk`, the client part decoded
/// with `xxai::unzip_u64`, its period compared with `now_day10` and renewed
/// up to `CLIENT_ID_MAX_AGE` periods old.
pub fn client_id_by_cookie(token: &str, sk: &[u8], now_day10: u64) -> (r: ClientState)
    requires
        now_day10 < BASE,
    ensures
        r == token_state(token@, sk@, now_day10, CLIENT_ID_MAX_AGE),
{
    match token_client_part(token, sk) {
        Some(client) => {
            if list_overflows(client.as_slice()) {
                return ClientState::Invalid;
            }
            let li = unzip_u64(client.as_slice());
            if li.len() == 2 {
                client_state(li[0], li[1], now_day10, CLIENT_ID_MAX_AGE)
            } else {
                ClientState::Invalid
            }
        },
        None => ClientState::Invalid,
    }
}

/// The state of the client that sent `token`, as the request middleware
/// decides it: the same hash, the client part decoded with `ub64::bin_u64_li` and renewed up to
/// `MAX_INTERVAL` periods old.
pub fn client_by_token(token: &str, sk: &[u8], now_day10: u64) -> (r: ClientState)
    requires
        now_day10 < BASE,
    ensures
        r == token_state(token@, sk@, now_day10, MAX_INTERVAL),
{
    match token_client_part(token, sk) {
        Some(client) => {
            if list_overflows(client.as_slice()) {
                return ClientState::Invalid;
            }
            let li = bin_u64_li(client.as_slice());
            if li.len() == 2 {
                client_state(li[0], li[1], now_day10, MAX_INTERVAL)
            } else {
                ClientState::Invalid
            }
        },
        None => ClientState::Invalid,
    }
}

/// Whether a cookie name is `I`.
fn is_i(name: &String) -> (r: bool)
    ensures
        r == (name@ == seq!['I']),
{
    let s = name.as_str();
    if s.unicode_len() == 1 {
        let c = s.get_char(0);
        assert(c == 'I' ==> s@ =~= seq!['I']);
        c == 'I'
    } else {
        false
    }
}

/// The value of the first cookie named `I` in a `Cookie` header.
fn first_i_cookie(header: &str) -> (r: Option<String>)
    ensures
        r matches Some(v) ==> first_i_value(cookie_pairs_of(header@)) == Some(v@),
        r is None ==> first_i_value(cookie_pairs_of(header@)) is None,
{
    let pairs = cookie_pairs(header);
    let ghost all = pairs.deep_view();
    let mut i: usize = 0;
    assert(all.skip(0) =~= all);
    while i < pairs.len()
        invariant
            i <= pairs.len(),
            all == pairs.deep_view(),
            all == cookie_pairs_of(header@),
            first_i_value(all) == first_i_value(all.skip(i as int)),
        decreases pairs.len() - i,
    {
        let ghost rest = all.skip(i as int);
        assert(rest[0] == (pairs[i as int].0@, pairs[i as int].1@));
        if is_i(&pairs[i].0) {
            return Some(pairs[i].1.clone());
        }
        assert(rest.drop_first() =~= all.skip(i + 1));
        i = i + 1;
    }
    None
}

/// The state of the client that sent a `Cookie` header (none when the request
/// has no such header), as the request middleware reads it.
pub fn client_by_cookie(cookie: Option<&str>, sk: &[u8], now_day10: u64) -> (r: ClientState)
    requires
        now_day10 < BASE,
    ensures
        cookie matches Some(h) ==> r == first_i_state(cookie_pairs_of(h@), sk@, now_day10, MAX_INTERVAL),
        cookie is None ==> r == ClientState::Invalid,
{
    match cookie {
        Some(h) => match first_i_cookie(h) {
            Some(v) => client_by_token(v.as_str(), sk, now_day10),
            None => ClientState::Invalid,
        },
        None => ClientState::Invalid,
    }
}

/// The same, as the client-id middleware reads it (its decoder for the client
/// part is `xxai::unzip_u64`).
pub fn client_id_by_header(cookie: Option<&str>, sk: &[u8], now_day10: u64) -> (r: ClientState)
    requires
        now_day10 < BASE,
    ensures
        cookie matches Some(h) ==> r == first_i_state(cookie_pairs_of(h@), sk@, now_day10, CLIENT_ID_MAX_AGE),
        cookie is None ==> r == ClientState::Invalid,
{
    match cookie {
        Some(h) => match first_i_cookie(h) {
            Some(v) => client_id_by_cookie(v.as_str(), sk, now_day10),
            None => ClientState::Invalid,
        },
        None => ClientState::Invalid,
    }
}

/// Signs the client part of a token: the hash of the secret and the part,
/// little-endian, then the part, cookie-encoded.
fn sign_token(sk: &[u8], t: &Vec<u8>, day: u64, client: u64) -> (r: String)
    requires
        t@ == vb_enc_list(seq![day, client]),
    ensures
        r@ == cookie_text(token_bytes(sk@, day, client)),
        forall|now: u64, max_age: u64|
            now < BASE ==> #[trigger] token_state(r@, sk@, now, max_age) == state_for(
                day,
                client,
                now,
                max_age,
            ),
{
    let keyed = concat_bytes(sk, t.as_slice());
    let mac = xxh3_64(keyed.as_slice());
    let mac_bytes = u64_to_le_bytes(mac);
    let all = concat_bytes(mac_bytes.as_slice(), t.as_slice());
    let r = cookie_encode(all.as_slice());
    proof {
        lemma_auto_spec_u64_to_from_le_bytes();
        lemma_dec_enc_list(seq![day, client]);
        let b = all@;
        assert(b.take(8) =~= mac_bytes@);
        assert(b.skip(8) =~= t@);
    }
    r
}

/// The token of a client issued in period `day`, signed with the secret `sk`
/// (its client part encoded with `vbyte::compress_list`). Checked in any period,
/// it gives the state `state_for` gives for its period and client: current in
/// the period it was issued in, renewable for as many periods after as the
/// checking middleware allows.
pub fn token_for(sk: &[u8], day: u64, client: u64) -> (r: String)
    ensures
        r@ == cookie_text(token_bytes(sk@, day, client)),
        forall|now: u64, max_age: u64|
            now < BASE ==> #[trigger] token_state(r@, sk@, now, max_age) == state_for(
                day,
                client,
                now,
                max_age,
            ),
        forall|max_age: u64|
            day < BASE ==> #[trigger] token_state(r@, sk@, day, max_age) == ClientState::Current(client),
{
    let li: [u64; 2] = [day, client];
    let t = compress_list(&li);
    assert(li@ =~= seq![day, client]);
    sign_token(sk, &t, day, client)
}

/// The token the client-id middleware issues: the same bytes, its client part
/// encoded with `xxai::zip_u64`.
pub fn client_id_token(sk: &[u8], day: u64, client: u64) -> (r: String)
    ensures
        r@ == cookie_text(token_bytes(sk@, day, client)),
        forall|now: u64, max_age: u64|
            now < BASE ==> #[trigger] token_state(r@, sk@, now, max_age) == state_for(
                day,
                client,
                now,
                max_age,
            ),
        forall|max_age: u64|
            day < BASE ==> #[trigger] token_state(r@, sk@, day, max_age) == ClientState::Current(client),
{
    let li: [u64; 2] = [day, client];
    let t = zip_u64(&li);
    assert(li@ =~= seq![day, client]);
    sign_token(sk, &t, day, client)
}

/// The `Set-Cookie` header value that carries `token` for the registrable
/// domain of `host`.
pub fn set_cookie(token: &str, host: &str) -> (r: String)
    ensures
        r@ == set_cookie_text(token@, host@),
{
    let domain = tld(host);
    let mut r = String::from_str("I=");
    r.append(token);
    r.append(";max-age=99999999;domain=");
    r.append(domain.as_str());
    r.append(";path=/;HttpOnly;SameSite=None;Secure");
    r
}

/// The client and the cookie to set, given the state that the request's cookie
/// gave: a current token keeps its client and sets nothing; a renewable one
/// keeps its client (with no user looked up yet to be reset) and is reissued;
/// otherwise — or when the token named client 0 — the client is `fresh_id`,
/// whose user is yet to be looked up, and a token is issued for it. Tokens are
/// issued in period `now_day10` under the secret `sk`.
pub fn client_user_cookie(
    host: &str,
    state: ClientState,
    sk: &[u8],
    now_day10: u64,
    fresh_id: u64,
) -> (r: (ClientUser, Option<String>))
    requires
        now_day10 < BASE,
    ensures
        state matches ClientState::Current(id) ==> r.0 == (ClientUser { id, _uid: Some(0) }) && r.1
            is None,
        !(state is Current) ==> {
            let client = match state {
                ClientState::Renew(id) => id,
                _ => 0,
            };
            let id = if client == 0 { fresh_id } else { client };
            &&& r.0 == (ClientUser { id, _uid: if client == 0 { Some(0) } else { None } })
            &&& r.1 matches Some(c) && c@ == set_cookie_text(
                cookie_text(token_bytes(sk@, now_day10, id)),
                host@,
            )
        },
{
    let mut client: u64 = 0;
    match state {
        ClientState::Renew(id) => {
            client = id;
        },
        ClientState::Current(id) => {
            return (ClientUser { id, _uid: Some(0) }, None);
        },
        ClientState::Invalid => {},
    }
    let _uid = if client == 0 {
        client = fresh_id;
        Some(0)
    } else {
        None
    };
    let token = token_for(sk, now_day10, client);
    let cookie = set_cookie(token.as_str(), host);
    (ClientUser { id: client, _uid }, Some(cookie))
}

/// What the client-id middleware does with the state of a request: a current
/// token keeps its id and sets no cookie; otherwise the renewed id, or
/// `fresh_id` where there is none, gets a token of period `now_day10` in a
/// `Set-Cookie` for the host.
pub fn client_id_cookie(
    host: &str,
    state: ClientState,
    sk: &[u8],
    now_day10: u64,
    fresh_id: u64,
) -> (r: (u64, Option<String>))
    ensures
        state matches ClientState::Current(id) ==> r.0 == id && r.1 is None,
        !(state is Current) ==> {
            let client = match state {
                ClientState::Renew(id) => id,
                _ => 0,
            };
            let id = if client == 0 { fresh_id } else { client };
            &&& r.0 == id
            &&& r.1 matches Some(c) && c@ == set_cookie_text(
                cookie_text(token_bytes(sk@, now_day10, id)),
                host@,
            )
        },
{
    let mut client: u64 = 0;
    match state {
        ClientState::Renew(id) => {
            client = id;
        },
        ClientState::Current(id) => {
            return (id, None);
        },
        ClientState::Invalid => {},
    }
    if client == 0 {
        client = fresh_id;
    }
    let token = client_id_token(sk, now_day10, client);
    (client, Some(set_cookie(token.as_str(), host)))
}

/// Whether a state leaves the request without a client, so that a fresh id
/// must be drawn before `client_user_cookie`.
pub fn needs_fresh_id(state: &ClientState) -> (r: bool)
    ensures
        r == match *state {
            ClientState::Current(_) => false,
            ClientState::Renew(id) => id == 0,
            ClientState::Invalid => true,
        },
{
    match state {
        ClientState::Current(_) => false,
        ClientState::Renew(id) => *id == 0,
        ClientState::Invalid => true,
    }
}

/// The secret that a stored value provides: the stored bytes when there are
/// exactly 32 of them, otherwise none (a new one is to be drawn and stored).
pub fn stored_secret(stored: Option<Vec<u8>>) -> (r: Option<Vec<u8>>)
    ensures
        r matches Some(s) ==> stored matches Some(t) && s@ == t@ && s@.len() == 32,
        r is None ==> !(stored matches Some(t) && t@.len() == 32),
{
    match stored {
        Some(sk) => if sk.len() == 32 {
            Some(sk)
        } else {
            None
        },
        None => None,
    }
}

} // verus!
