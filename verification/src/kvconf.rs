//! The key-value store's connection settings, read from the text of its
//! environment variables: the servers, the database number and the protocol.
use vstd::prelude::*;

use crate::text::{
    chars_of, find_from, is_white, is_whitespace, lemma_find_char_bound, split_on, string_of,
    sub_chars, trim_end, trim_end_chars,
};

verus! {

/// The port used when a server names none.
pub const DEFAULT_PORT: u16 = 6379;

/// `s` without leading whitespace (`str::trim_start`).
pub open spec fn trim_start(s: Seq<char>) -> Seq<char>
    decreases s.len(),
{
    if s.len() > 0 && is_white(s[0]) {
        trim_start(s.drop_first())
    } else {
        s
    }
}

/// `s` without leading and trailing whitespace (`str::trim`).
pub open spec fn trim(s: Seq<char>) -> Seq<char> {
    trim_end(trim_start(s))
}

/// The value of a string of decimal digits, if it is one and is not empty.
pub open spec fn digits_value(s: Seq<char>) -> Option<nat>
    decreases s.len(),
{
    if s.len() == 0 {
        None
    } else {
        let d = s.last();
        if '0' <= d && d <= '9' {
            let dv = (d as u32 - '0' as u32) as nat;
            if s.len() == 1 {
                Some(dv)
            } else {
                match digits_value(s.drop_last()) {
                    Some(v) => Some(10 * v + dv),
                    None => None,
                }
            }
        } else {
            None
        }
    }
}

/// What `str::parse` gives for an unsigned integer type whose largest value
/// is `max`: an optional `+`, then decimal digits whose value fits.
pub open spec fn parse_uint(s: Seq<char>, max: nat) -> Option<nat> {
    let body = if s.len() > 0 && s[0] == '+' {
        s.drop_first()
    } else {
        s
    };
    match digits_value(body) {
        Some(v) => if v <= max {
            Some(v)
        } else {
            None
        },
        None => None,
    }
}

/// A server written as `host` or `host:port`: the port after the first colon
/// (default `DEFAULT_PORT` without one), `None` where it does not parse.
pub open spec fn host_port_item(item: Seq<char>) -> Option<(Seq<char>, u16)> {
    let parts = split_on(item, ':');
    if parts.len() == 1 {
        Some((item, DEFAULT_PORT))
    } else {
        match parse_uint(parts[1], 65535) {
            Some(p) => Some((parts[0], p as u16)),
            None => None,
        }
    }
}

/// The servers of a space-separated list, blank items skipped; `None` when a
/// port does not parse.
pub open spec fn host_port_list(items: Seq<Seq<char>>) -> Option<Seq<(Seq<char>, u16)>>
    decreases items.len(),
{
    if items.len() == 0 {
        Some(Seq::empty())
    } else {
        let t = trim(items[0]);
        match host_port_list(items.drop_first()) {
            None => None,
            Some(rest) => if t.len() == 0 {
                Some(rest)
            } else {
                match host_port_item(t) {
                    Some(hp) => Some(seq![hp] + rest),
                    None => None,
                }
            },
        }
    }
}

/// `s` without leading whitespace.
fn trim_start_chars(s: &Vec<char>) -> (r: Vec<char>)
    ensures
        r@ == trim_start(s@),
{
    let mut i: usize = 0;
    assert(s@.skip(0) =~= s@);
    while i < s.len() && is_whitespace(s[i])
        invariant
            i <= s.len(),
            trim_start(s@) == trim_start(s@.skip(i as int)),
        decreases s.len() - i,
    {
        assert(s@.skip(i as int).drop_first() =~= s@.skip(i + 1));
        i = i + 1;
    }
    let r = sub_chars(s, i, s.len());
    assert(r@ =~= s@.skip(i as int));
    r
}

/// `s` without leading and trailing whitespace.
fn trim_chars(s: &Vec<char>) -> (r: Vec<char>)
    ensures
        r@ == trim(s@),
{
    let t = trim_start_chars(s);
    trim_end_chars(t)
}

/// The value of decimal digits, if `s` is a non-empty run of them and the
/// value is at most `max`.
fn parse_digits(s: &Vec<char>, from: usize, max: u64) -> (r: Option<u64>)
    requires
        from <= s.len(),
        9 <= max <= 0xffff_ffff,
    ensures
        r matches Some(v) ==> digits_value(s@.skip(from as int)) == Some(v as nat) && v <= max,
        r is None ==> !(digits_value(s@.skip(from as int)) matches Some(v) && v <= max),
{
    let ghost body = s@.skip(from as int);
    if from == s.len() {
        assert(body.len() == 0);
        return None;
    }
    let mut v: u64 = 0;
    let mut i: usize = from;
    while i < s.len()
        invariant
            from < s.len(),
            9 <= max <= 0xffff_ffff,
            from <= i <= s.len(),
            body == s@.skip(from as int),
            v <= max,
            i > from ==> digits_value(s@.subrange(from as int, i as int)) == Some(v as nat),
            i == from ==> v == 0,
        decreases s.len() - i,
    {
        let c = s[i];
        let ghost pre = s@.subrange(from as int, i as int);
        let ghost cur = s@.subrange(from as int, i + 1);
        assert(cur.drop_last() =~= pre);
        assert(cur.last() == c);
        if !('0' <= c && c <= '9') {
            proof {
                lemma_digits_prefix(body, (i - from + 1) as nat);
                assert(body.take((i - from + 1) as int) =~= cur);
            }
            return None;
        }
        let d = (c as u32 - '0' as u32) as u64;
        proof {
            assert(cur =~= pre.push(c));
            lemma_digits_step(pre, c, v as nat);
            assert(d as nat == (c as u32 - '0' as u32) as nat);
        }
        if v > (max - d) / 10 {
            proof {
                let x = (max - d) as int;
                assert(10 * v + d > max) by (nonlinear_arith)
                    requires
                        v >= x / 10 + 1,
                        x == max - d,
                        x >= 0,
                ;
                assert(body.take((i - from + 1) as int) =~= cur);
                lemma_digits_grow(body, (i - from + 1) as nat, max);
            }
            return None;
        }
        proof {
            assert(10 * v + d <= max) by (nonlinear_arith)
                requires
                    v <= (max - d) / 10,
                    d <= max,
            ;
        }
        v = 10 * v + d;
        i = i + 1;
    }
    assert(s@.subrange(from as int, s.len() as int) =~= body);
    Some(v)
}

/// One more digit.
proof fn lemma_digits_step(pre: Seq<char>, c: char, v: nat)
    requires
        (pre.len() == 0 && v == 0) || digits_value(pre) == Some(v),
        '0' <= c <= '9',
    ensures
        digits_value(pre.push(c)) == Some(10 * v + (c as u32 - '0' as u32) as nat),
{
    assert(pre.push(c).drop_last() =~= pre);
    assert(pre.push(c).last() == c);
}

/// A prefix that fails to be digits makes the whole fail.
proof fn lemma_digits_prefix(s: Seq<char>, k: nat)
    requires
        0 < k <= s.len(),
        digits_value(s.take(k as int)) is None,
    ensures
        digits_value(s) is None,
    decreases s.len(),
{
    if k < s.len() {
        assert(s.drop_last().take(k as int) =~= s.take(k as int));
        lemma_digits_prefix(s.drop_last(), k);
    } else {
        assert(s.take(k as int) =~= s);
    }
}

/// A prefix whose value exceeds `max` makes the whole exceed it, if it is digits.
proof fn lemma_digits_grow(s: Seq<char>, k: nat, max: u64)
    requires
        0 < k <= s.len(),
        digits_value(s.take(k as int)) matches Some(v) ==> v > max,
    ensures
        digits_value(s) matches Some(v) ==> v > max,
    decreases s.len(),
{
    if k < s.len() {
        assert(s.drop_last().take(k as int) =~= s.take(k as int));
        lemma_digits_grow(s.drop_last(), k, max);
        if let Some(v) = digits_value(s) {
            assert(s.len() >= 2);
            let w = digits_value(s.drop_last()).unwrap();
            let dv = (s.last() as u32 - '0' as u32) as nat;
            assert(v == 10 * w + dv);
        }
    } else {
        assert(s.take(k as int) =~= s);
    }
}

/// `str::parse` for an unsigned integer type whose largest value is `max`.
fn parse_uint_chars(s: &Vec<char>, max: u64) -> (r: Option<u64>)
    requires
        9 <= max <= 0xffff_ffff,
    ensures
        r matches Some(v) ==> parse_uint(s@, max as nat) == Some(v as nat),
        r is None ==> parse_uint(s@, max as nat) is None,
{
    let from: usize = if s.len() > 0 && s[0] == '+' {
        1
    } else {
        0
    };
    assert(from == 1 ==> s@.skip(1) =~= s@.drop_first());
    assert(s@.skip(0) =~= s@);
    parse_digits(s, from, max)
}

/// `u8::from_str` on the text of a setting.
pub fn parse_u8(s: &str) -> (r: Option<u8>)
    ensures
        r matches Some(v) ==> parse_uint(s@, 255) == Some(v as nat),
        r is None ==> parse_uint(s@, 255) is None,
{
    let cs = chars_of(s);
    match parse_uint_chars(&cs, 255) {
        Some(v) => Some(v as u8),
        None => None,
    }
}

/// One step of `host_port_list`: the list of the items from `k` on.
proof fn lemma_host_port_step(items: Seq<Seq<char>>, k: int)
    requires
        0 <= k < items.len(),
    ensures
        host_port_list(items.skip(k)) == ({
            let t = trim(items[k]);
            match host_port_list(items.skip(k + 1)) {
                None => None,
                Some(rest) => if t.len() == 0 {
                    Some(rest)
                } else {
                    match host_port_item(t) {
                        Some(hp) => Some(seq![hp] + rest),
                        None => None,
                    }
                },
            }
        }),
{
    assert(items.skip(k).drop_first() =~= items.skip(k + 1));
    assert(items.skip(k)[0] == items[k]);
}

/// The server named by one non-blank item, `None` when its port does not parse.
fn host_port_of(t: &Vec<char>) -> (r: Option<(String, u16)>)
    ensures
        r matches Some(hp) ==> host_port_item(t@) == Some((hp.0@, hp.1)),
        r is None ==> host_port_item(t@) is None,
{
    let colon = find_from(t, ':', 0);
    assert(t@.skip(0) =~= t@);
    proof {
        lemma_find_char_bound(t@, ':');
    }
    if colon == t.len() {
        assert(split_on(t@, ':') == seq![t@]);
        Some((string_of(t.as_slice()), DEFAULT_PORT))
    } else {
        let host = sub_chars(t, 0, colon);
        let colon2 = find_from(t, ':', colon + 1);
        let port_text = sub_chars(t, colon + 1, colon2);
        proof {
            let rest = t@.skip(colon + 1);
            lemma_find_char_bound(rest, ':');
            assert(host@ =~= t@.take(colon as int));
            assert(split_on(t@, ':') == seq![t@.take(colon as int)] + split_on(rest, ':'));
            if colon2 < t.len() {
                assert(rest.take((colon2 - colon - 1) as int) =~= port_text@);
                assert(split_on(rest, ':')[0] == rest.take((colon2 - colon - 1) as int));
            } else {
                assert(rest =~= port_text@);
                assert(split_on(rest, ':') == seq![rest]);
            }
            assert(split_on(t@, ':')[1] == port_text@);
            assert(split_on(t@, ':').len() != 1);
        }
        match parse_uint_chars(&port_text, 65535) {
            Some(p) => Some((string_of(host.as_slice()), p as u16)),
            None => None,
        }
    }
}

/// The servers named by the `HOST_PORT` setting: items separated by spaces,
/// blank ones skipped, each `host` or `host:port` (port `DEFAULT_PORT` when
/// none is given; with more colons the text between the first two is the
/// port). `None` exactly when a port is not a `u16`.
pub fn host_port(s: &str) -> (r: Option<Vec<(String, u16)>>)
    ensures
        r matches Some(v) ==> host_port_list(split_on(s@, ' ')) == Some(v.deep_view()),
        r is None ==> host_port_list(split_on(s@, ' ')) is None,
{
    let cs = chars_of(s);
    let ghost all = cs@;
    assert(all == s@);
    let mut items: Vec<Vec<char>> = Vec::new();
    let ghost mut gitems: Seq<Seq<char>> = Seq::empty();
    let mut start: usize = 0;
    let mut done = false;
    assert(all.skip(0) =~= all);
    while !done
        invariant
            all == cs@,
            start <= cs.len(),
            items@.len() == gitems.len(),
            forall|i: int| 0 <= i < gitems.len() ==> (#[trigger] items@[i])@ == gitems[i],
            !done ==> split_on(all, ' ') == gitems + split_on(all.skip(start as int), ' '),
            done ==> split_on(all, ' ') == gitems,
        decreases cs.len() - start + (if done { 0int } else { 1int }),
    {
        let ghost rest = all.skip(start as int);
        let p = find_from(&cs, ' ', start);
        let piece = sub_chars(&cs, start, p);
        proof {
            lemma_find_char_bound(rest, ' ');
            assert(piece@ =~= rest.take((p - start) as int));
        }
        let ghost before = gitems;
        items.push(piece);
        proof {
            gitems = gitems.push(rest.take((p - start) as int));
        }
        if p < cs.len() {
            proof {
                assert(rest.skip((p - start) + 1) =~= all.skip(p + 1));
                assert(split_on(rest, ' ') == seq![rest.take((p - start) as int)] + split_on(
                    all.skip(p + 1),
                    ' ',
                ));
                assert(before + split_on(rest, ' ') =~= gitems + split_on(all.skip(p + 1), ' '));
            }
            start = p + 1;
        } else {
            proof {
                assert(rest.take((p - start) as int) =~= rest);
                assert(split_on(rest, ' ') == seq![rest]);
                assert(before + split_on(rest, ' ') =~= gitems);
            }
            done = true;
        }
    }
    let mut out: Vec<(String, u16)> = Vec::new();
    let ghost mut gout: Seq<(Seq<char>, u16)> = Seq::empty();
    let mut k: usize = 0;
    assert(gitems.skip(0) =~= gitems);
    while k < items.len()
        invariant
            k <= items@.len(),
            items@.len() == gitems.len(),
            forall|i: int| 0 <= i < gitems.len() ==> (#[trigger] items@[i])@ == gitems[i],
            split_on(all, ' ') == gitems,
            all == s@,
            out.deep_view() == gout,
            host_port_list(gitems) == match host_port_list(gitems.skip(k as int)) {
                None => None::<Seq<(Seq<char>, u16)>>,
                Some(r) => Some(gout + r),
            },
        decreases items@.len() - k,
    {
        proof {
            lemma_host_port_step(gitems, k as int);
        }
        let t = trim_chars(&items[k]);
        assert(t@ == trim(gitems[k as int]));
        if t.len() > 0 {
            match host_port_of(&t) {
                Some(hp) => {
                    let ghost prev = out.deep_view();
                    let ghost e = (hp.0@, hp.1);
                    out.push(hp);
                    proof {
                        assert forall|i: int| 0 <= i < prev.len() + 1 implies out.deep_view()[i]
                            == prev.push(e)[i] by {
                            if i < prev.len() {
                                assert(out.deep_view()[i] == prev[i]);
                            }
                        }
                        assert(out.deep_view() =~= prev.push(e));
                        if let Some(r) = host_port_list(gitems.skip(k + 1)) {
                            assert(gout + (seq![e] + r) =~= gout.push(e) + r);
                        }
                        gout = gout.push(e);
                    }
                },
                None => {
                    assert(host_port_item(t@) is None);
                    assert(host_port_list(gitems.skip(k as int)) is None);
                    return None;
                },
            }
        }
        k = k + 1;
    }
    assert(gitems.skip(items@.len() as int) =~= Seq::<Seq<char>>::empty());
    assert(gout + Seq::<(Seq<char>, u16)>::empty() =~= gout);
    Some(out)
}

/// How the store is reached: one server, or a cluster of them.
#[derive(Debug)]
pub enum ServerConf {
    Centralized(String, u16),
    Clustered(Vec<(String, u16)>),
}

/// One server when the list names exactly one, a cluster otherwise.
pub fn server_conf(list: Vec<(String, u16)>) -> (r: ServerConf)
    ensures
        list@.len() == 1 ==> (r matches ServerConf::Centralized(h, p) && h@ == list@[0].0@ && p
            == list@[0].1),
        list@.len() != 1 ==> (r matches ServerConf::Clustered(v) && v@ == list@),
{
    if list.len() == 1 {
        let (h, p) = (list[0].0.clone(), list[0].1);
        ServerConf::Centralized(h, p)
    } else {
        ServerConf::Clustered(list)
    }
}

/// The protocol versions the store speaks.
#[derive(Debug, Clone, Copy, PartialEq, Eq, Structural)]
pub enum RespVersion {
    Resp2,
    Resp3,
}

/// The protocol a `RESP` setting asks for: version 2 for `2`, version 3
/// otherwise and by default.
pub fn resp_version(resp: Option<u8>) -> (r: RespVersion)
    ensures
        r == (if resp == Some(2u8) {
            RespVersion::Resp2
        } else {
            RespVersion::Resp3
        }),
{
    match resp {
        Some(v) => if v == 2 {
            RespVersion::Resp2
        } else {
            RespVersion::Resp3
        },
        None => RespVersion::Resp3,
    }
}

} // verus!
