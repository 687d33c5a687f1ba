//! The decisions and texts of the request handlers: what a request body asks
//! for, which rows and messages are written for it, and what is answered.
use vstd::prelude::*;

use crate::anypack::{publish_to_user_client, Any, UserMessage};
use crate::channel::vb_d_li;
use crate::vbyte_codec::vb_dec_list_strict;
use crate::text::{i64_text, int_text, join_with, nat_text, u64_text};

verus! {

/// Name of the search service.
pub const CLIP: &'static str = "clip";

/// Content level: every level.
pub const LEVEL_ANY: u8 = 2;

/// Content level: safe content only.
pub const LEVEL_SAFE: u8 = 1;

/// Content level: adult content only.
pub const LEVEL_ADULT: u8 = 0;

/// Keys of the key-value store.
pub const FAV_LAST: &'static str = "favLast";
pub const R: &'static str = "r";
pub const R0: &'static str = "r0";
pub const R1: &'static str = "r1";
pub const HR2: &'static str = "hr2";

/// Kinds of messages pushed to the clients of a user.
pub const KIND_SYNC_FAV: u16 = 1;
pub const KIND_SYNC_SEEN: u16 = 2;

/// Messages sent to a client over its channel.
#[derive(Debug, Clone, Copy, PartialEq, Eq, Structural)]
pub enum WS {
    /// The client is not logged in as the user it asked for.
    NotLoggedIn,
}

/// Requests a client sends over its channel.
#[derive(Debug, Clone, Copy, PartialEq, Eq, Structural)]
pub enum WR {
    /// Synchronise favourites and history.
    Sync,
}

impl WS {
    /// The number that stands for the message.
    pub fn to_int(&self) -> (r: u8)
        ensures
            r == 0,
    {
        0
    }
}

impl WR {
    /// The request a number stands for, if any.
    pub fn from_int(v: u8) -> (r: Option<WR>)
        ensures
            r == (if v == 0 {
                Some(WR::Sync)
            } else {
                None
            }),
    {
        if v == 0 {
            Some(WR::Sync)
        } else {
            None
        }
    }

    /// The number that stands for the request.
    pub fn to_int(&self) -> (r: u8)
        ensures
            r == 0,
    {
        0
    }
}

/// A resource: its kind and its id.
#[derive(Debug, Clone, Copy, PartialEq, Eq, Hash, Structural)]
pub struct CidRid {
    pub cid: u8,
    pub rid: u64,
}

/// An action on a resource and the chain of recommendations that led to it.
#[derive(Debug)]
pub struct RecChina {
    pub action: u8,
    pub chain: Vec<CidRid>,
}

/// Recommendations for a set of actions: none are made yet, for any input.
pub fn rec_by_action(level: u64, cid_rid_action: &Vec<(CidRid, RecChina)>) -> (r: Vec<u64>)
    ensures
        r@.len() == 0,
{
    Vec::new()
}

/// Appends the decimal text of `v`.
fn push_u64(s: &mut String, v: u64)
    ensures
        final(s)@ == old(s)@ + nat_text(v as nat),
{
    let t = u64_text(v);
    s.append(t.as_str());
}

/// Appends the decimal text of `v`, signed.
fn push_i64(s: &mut String, v: i64)
    ensures
        final(s)@ == old(s)@ + int_text(v as int),
{
    let t = i64_text(v);
    s.append(t.as_str());
}

/// The query for what a user has seen after a time, ordered by time.
pub fn after_ts_sql(uid: u64, ts: u64) -> (r: String)
    ensures
        r@ == "SELECT cid,rid,CAST(ts as BIGINT) t FROM seen WHERE uid="@ + nat_text(uid as nat)
            + " AND ts>"@ + nat_text(ts as nat) + " ORDER BY TS"@,
{
    let mut s = String::from_str("SELECT cid,rid,CAST(ts as BIGINT) t FROM seen WHERE uid=");
    push_u64(&mut s, uid);
    s.append(" AND ts>");
    push_u64(&mut s, ts);
    s.append(" ORDER BY TS");
    s
}

/// The query for what a user has seen after a time, as the history handler
/// asks it (no order).
pub fn seen_after_ts_sql(uid: u64, ts: u64) -> (r: String)
    ensures
        r@ == "SELECT cid,rid,CAST(ts as BIGINT) t FROM seen WHERE uid="@ + nat_text(uid as nat)
            + " AND ts>"@ + nat_text(ts as nat),
{
    let mut s = String::from_str("SELECT cid,rid,CAST(ts as BIGINT) t FROM seen WHERE uid=");
    push_u64(&mut s, uid);
    s.append(" AND ts>");
    push_u64(&mut s, ts);
    s
}

/// The query for one page of a user's history after a time in milliseconds,
/// oldest first, as the sync over a channel asks it.
pub fn sync_seen_sql(uid: u64, ts: u64) -> (r: String)
    ensures
        r@ == "SELECT CAST(ts as BIGINT) t,cid,rid FROM seen WHERE uid="@ + nat_text(uid as nat)
            + " AND ts>ARROW_CAST("@ + nat_text(ts as nat)
            + ",'Timestamp(Millisecond,None)') ORDER BY ts LIMIT 8192"@,
{
    let mut s = String::from_str("SELECT CAST(ts as BIGINT) t,cid,rid FROM seen WHERE uid=");
    push_u64(&mut s, uid);
    s.append(" AND ts>ARROW_CAST(");
    push_u64(&mut s, ts);
    s.append(",'Timestamp(Millisecond,None)') ORDER BY ts LIMIT 8192");
    s
}

/// Whether every stored member of a recommendation list decodes, where it
/// decodes at all, to at least a kind and an id.
pub open spec fn rec_members_ok(members: Seq<Seq<u8>>) -> bool {
    forall|i: int|
        0 <= i < members.len() ==> (#[trigger] vb_dec_list_strict(members[i]) matches Some(l) ==> l.len()
            >= 2)
}

/// The ids of a recommendation list: for each stored member that decodes, its
/// kind and its id; members that do not decode are skipped.
pub open spec fn rec_ids_of(members: Seq<Seq<u8>>) -> Seq<u64>
    decreases members.len(),
{
    if members.len() == 0 {
        Seq::empty()
    } else {
        let rest = rec_ids_of(members.drop_last());
        match vb_dec_list_strict(members.last()) {
            Some(l) => rest + seq![l[0], l[1]],
            None => rest,
        }
    }
}

/// The ids of the members of a recommendation list, as the list is read from
/// the store.
pub fn rec_li_ids(members: &Vec<Vec<u8>>) -> (r: Vec<u64>)
    requires
        rec_members_ok(members.deep_view()),
    ensures
        r@ == rec_ids_of(members.deep_view()),
{
    let ghost all = members.deep_view();
    let mut r: Vec<u64> = Vec::new();
    let mut i: usize = 0;
    while i < members.len()
        invariant
            i <= members@.len(),
            all == members.deep_view(),
            rec_members_ok(all),
            r@ == rec_ids_of(all.take(i as int)),
        decreases members@.len() - i,
    {
        assert(all[i as int] == members@[i as int]@);
        let d = vb_d_li(members[i].as_slice());
        assert(all.take(i + 1).drop_last() =~= all.take(i as int));
        assert(all.take(i + 1).last() == all[i as int]);
        if let Some(l) = d {
            assert(vb_dec_list_strict(all[i as int]) == Some(l@));
            r.push(l[0]);
            r.push(l[1]);
        }
        i = i + 1;
    }
    assert(all.take(members@.len() as int) =~= all);
    r
}

/// The ids of a recommendation list, or `None` when a member decodes to fewer
/// than two numbers.
pub fn rec_li_ids_checked(members: &Vec<Vec<u8>>) -> (r: Option<Vec<u64>>)
    ensures
        r matches Some(v) ==> rec_members_ok(members.deep_view()) && v@ == rec_ids_of(
            members.deep_view(),
        ),
        r is None ==> !rec_members_ok(members.deep_view()),
{
    let ghost all = members.deep_view();
    let mut i: usize = 0;
    while i < members.len()
        invariant
            i <= members@.len(),
            all == members.deep_view(),
            forall|j: int|
                0 <= j < i ==> (#[trigger] vb_dec_list_strict(all[j]) matches Some(l) ==> l.len() >= 2),
        decreases members@.len() - i,
    {
        assert(all[i as int] == members@[i as int]@);
        if let Some(l) = vb_d_li(members[i].as_slice()) {
            if l.len() < 2 {
                assert(!(vb_dec_list_strict(all[i as int]) matches Some(l2) ==> l2.len() >= 2));
                return None;
            }
        }
        i = i + 1;
    }
    Some(rec_li_ids(members))
}

/// The ids of a list, each once (the history handler gathers them in a set,
/// so the order is not part of what it promises).
pub fn unique_ids(v: &Vec<u64>) -> (r: Vec<u64>)
    ensures
        r@.no_duplicates(),
        forall|x: u64| r@.contains(x) <==> v@.contains(x),
{
    let mut r: Vec<u64> = Vec::new();
    let mut i: usize = 0;
    while i < v.len()
        invariant
            i <= v@.len(),
            r@.no_duplicates(),
            forall|x: u64| r@.contains(x) <==> v@.take(i as int).contains(x),
        decreases v@.len() - i,
    {
        let x = v[i];
        let mut seen = false;
        let mut j: usize = 0;
        while j < r.len()
            invariant
                j <= r@.len(),
                seen <==> r@.take(j as int).contains(x),
            decreases r@.len() - j,
        {
            if r[j] == x {
                seen = true;
            }
            proof {
                let t = r@.take(j + 1);
                assert(t =~= r@.take(j as int).push(r@[j as int]));
                if r@[j as int] == x {
                    assert(t[j as int] == x);
                }
                if t.contains(x) && r@[j as int] != x {
                    let k = choose|k: int| 0 <= k < t.len() && #[trigger] t[k] == x;
                    assert(r@.take(j as int)[k] == x);
                }
                if r@.take(j as int).contains(x) {
                    let k = choose|k: int| 0 <= k < j && #[trigger] r@.take(j as int)[k] == x;
                    assert(t[k] == x);
                }
            }
            j = j + 1;
        }
        assert(r@.take(r@.len() as int) =~= r@);
        let ghost before = r@;
        if !seen {
            r.push(x);
            proof {
                assert forall|a: int, b: int| 0 <= a < r@.len() && 0 <= b < r@.len() && a != b implies r@[a]
                    != r@[b] by {
                    if a < before.len() && b < before.len() {
                    } else if a < before.len() {
                        assert(before.contains(r@[a]));
                    } else {
                        assert(before.contains(r@[b]));
                    }
                }
            }
        }
        proof {
            assert(v@.take(i + 1) =~= v@.take(i as int).push(x));
            assert forall|y: u64| r@.contains(y) <==> v@.take(i + 1).contains(y) by {
                if r@.contains(y) && y != x {
                    let k = choose|k: int| 0 <= k < r@.len() && #[trigger] r@[k] == y;
                    if !seen {
                        assert(k < before.len());
                        assert(before.contains(y));
                    }
                }
                if v@.take(i + 1).contains(y) && y != x {
                    let w = v@.take(i + 1);
                    let k = choose|k: int| 0 <= k < w.len() && #[trigger] w[k] == y;
                    assert(v@.take(i as int)[k] == y);
                    assert(before.contains(y));
                    let k2 = choose|k2: int| 0 <= k2 < before.len() && #[trigger] before[k2] == y;
                    assert(r@[k2] == y);
                }
                if y == x {
                    assert(v@.take(i + 1)[i as int] == x);
                    if !seen {
                        assert(r@[before.len() as int] == x);
                    }
                }
            }
        }
        i = i + 1;
    }
    assert(v@.take(v@.len() as int) =~= v@);
    r
}

/// The history sync message of the new resources: for each kind, the kind in
/// brackets; the whole in brackets.
pub open spec fn seen_publish_text(cids: Seq<u64>) -> Seq<char> {
    "["@ + join_with(Seq::new(cids.len(), |i: int| "["@ + nat_text(cids[i] as nat) + "]"@), ","@)
        + "]"@
}

/// Builds the history sync message for the kinds that got new resources.
pub fn seen_publish(cids: &Vec<u64>) -> (r: String)
    ensures
        r@ == seen_publish_text(cids@),
{
    let ghost parts = Seq::new(cids@.len(), |i: int| "["@ + nat_text(cids@[i] as nat) + "]"@);
    let mut items: Vec<String> = Vec::new();
    let mut i: usize = 0;
    while i < cids.len()
        invariant
            i <= cids@.len(),
            parts == Seq::new(cids@.len(), |i: int| "["@ + nat_text(cids@[i] as nat) + "]"@),
            items.deep_view() == parts.take(i as int),
        decreases cids@.len() - i,
    {
        let mut t = String::from_str("[");
        push_u64(&mut t, cids[i]);
        t.append("]");
        let ghost before = items.deep_view();
        items.push(t);
        assert(items.deep_view() =~= before.push(t@));
        assert(parts.take(i + 1) =~= parts.take(i as int).push(parts[i as int]));
        i = i + 1;
    }
    assert(parts.take(cids@.len() as int) =~= parts);
    let mut r = insert_sql("[", &items);
    r.append("]");
    r
}

/// History rows (kind, resource id, time) as the flat list that is answered:
/// three numbers a row, each converted to `u64` as `as` does (a negative kind
/// wraps around).
pub fn seen_rows_flat(rows: &Vec<(i8, i64, i64)>) -> (r: Vec<u64>)
    ensures
        r@.len() == 3 * rows@.len(),
        forall|i: int|
            0 <= i < rows@.len() ==> r@[3 * i] == #[trigger] rows@[i].0 as u64 && r@[3 * i + 1]
                == rows@[i].1 as u64 && r@[3 * i + 2] == rows@[i].2 as u64,
{
    let mut r: Vec<u64> = Vec::new();
    let mut i: usize = 0;
    while i < rows.len()
        invariant
            i <= rows@.len(),
            r@.len() == 3 * i,
            forall|k: int|
                0 <= k < i ==> r@[3 * k] == #[trigger] rows@[k].0 as u64 && r@[3 * k + 1]
                    == rows@[k].1 as u64 && r@[3 * k + 2] == rows@[k].2 as u64,
        decreases rows@.len() - i,
    {
        let (cid, rid, ts) = rows[i];
        let ghost before = r@;
        r.push(cid as u64);
        r.push(rid as u64);
        r.push(ts as u64);
        proof {
            assert forall|k: int| 0 <= k < i + 1 implies r@[3 * k] == #[trigger] rows@[k].0 as u64
                && r@[3 * k + 1] == rows@[k].1 as u64 && r@[3 * k + 2] == rows@[k].2 as u64 by {
                if k < i {
                    assert(r@[3 * k] == before[3 * k]);
                    assert(r@[3 * k + 1] == before[3 * k + 1]);
                    assert(r@[3 * k + 2] == before[3 * k + 2]);
                }
            }
        }
        i = i + 1;
    }
    r
}

/// What a favourites request carries: the user, the last id it has synced,
/// and the favourites it adds as (kind, resource id, time, action).
#[derive(Debug)]
pub struct FavPost {
    pub uid: u64,
    pub last_sync_id: u64,
    pub items: Vec<(u16, u64, u64, i8)>,
}

/// The favourites of a request's numbers after the first two, read four at a
/// time (a trailing group of fewer is ignored), kind and action truncated to
/// their widths.
pub open spec fn fav_items_of(li: Seq<u64>) -> Seq<(u16, u64, u64, i8)> {
    Seq::new(
        ((li.len() - 2) / 4) as nat,
        |i: int| (li[2 + 4 * i] as u16, li[3 + 4 * i], li[4 + 4 * i], li[5 + 4 * i] as i8),
    )
}

/// Reads a favourites request from its numbers: at least three are needed; the
/// user and the last synced id come first, the rest is read four at a time
/// (a trailing group of fewer is ignored), kind and action truncated to their
/// widths as `as` does.
pub fn fav_post_parse(li: &Vec<u64>) -> (r: Option<FavPost>)
    ensures
        li@.len() <= 2 ==> r is None,
        li@.len() > 2 ==> (r matches Some(p) && p.uid == li@[0] && p.last_sync_id == li@[1]
            && p.items@.len() == (li@.len() - 2) / 4 && forall|i: int|
            0 <= i < p.items@.len() ==> #[trigger] p.items@[i] == (
                li@[2 + 4 * i] as u16,
                li@[3 + 4 * i],
                li@[4 + 4 * i],
                li@[5 + 4 * i] as i8,
            )),
        li@.len() > 2 ==> (r matches Some(p) && p.items@ == fav_items_of(li@)),
{
    if li.len() > 2 {
        let n = (li.len() - 2) / 4;
        assert(li@.len() == li.len());
        let mut items: Vec<(u16, u64, u64, i8)> = Vec::new();
        let mut i: usize = 0;
        while i < n
            invariant
                li@.len() > 2,
                li@.len() <= usize::MAX,
                n == (li@.len() - 2) / 4,
                i <= n,
                items@.len() == i,
                forall|k: int|
                    0 <= k < i ==> #[trigger] items@[k] == (
                        li@[2 + 4 * k] as u16,
                        li@[3 + 4 * k],
                        li@[4 + 4 * k],
                        li@[5 + 4 * k] as i8,
                    ),
            decreases n - i,
        {
            proof {
                assert(4 * i + 6 <= li@.len()) by (nonlinear_arith)
                    requires
                        i < n,
                        n == (li@.len() - 2) / 4,
                        li@.len() > 2,
                ;
                assert(li@.len() <= usize::MAX);
                assert(4 * i + 6 <= usize::MAX);
            }
            let b = 2 + 4 * i;
            items.push((li[b] as u16, li[b + 1], li[b + 2], li[b + 3] as i8));
            i = i + 1;
        }
        assert(items@ =~= fav_items_of(li@));
        Some(FavPost { uid: li[0], last_sync_id: li[1], items })
    } else {
        None
    }
}

/// The numbers `serde_json` reads from a body holding a JSON array of
/// unsigned 64-bit integers, `None` where it fails.
pub uninterp spec fn json_u64_list_of(body: Seq<u8>) -> Option<Seq<u64>>;

/// The two numbers `serde_json` reads from a body holding a JSON pair of
/// unsigned 64-bit integers (invalid UTF-8 replaced first), `None` where it
/// fails.
pub uninterp spec fn json_pair_of(body: Seq<u8>) -> Option<(u64, u64)>;

/// `serde_json::from_slice::<Vec<u64>>`, its error turned into `None`.
#[verifier::external_body]
fn json_u64_list(body: &[u8]) -> (r: Option<Vec<u64>>)
    ensures
        r is Some <==> json_u64_list_of(body@) is Some,
        r matches Some(v) ==> json_u64_list_of(body@) == Some(v@),
{
    serde_json::from_slice::<Vec<u64>>(body).ok()
}

/// `serde_json::from_str::<(u64, u64)>` on `String::from_utf8_lossy` of the
/// body, its error turned into `None`.
#[verifier::external_body]
fn json_pair(body: &[u8]) -> (r: Option<(u64, u64)>)
    ensures
        r == json_pair_of(body@),
{
    serde_json::from_str::<(u64, u64)>(&String::from_utf8_lossy(body)).ok()
}

/// Reads the body of a favourites request: `None` when it is not a JSON list
/// of numbers (the request fails); otherwise what `fav_post_parse` reads from
/// the numbers (nothing to do for fewer than three).
pub fn fav_post_body(body: &[u8]) -> (r: Option<Option<FavPost>>)
    ensures
        r is None <==> json_u64_list_of(body@) is None,
        r matches Some(p) ==> (json_u64_list_of(body@) matches Some(li) && (li.len() <= 2
            ==> p is None) && (li.len() > 2 ==> (p matches Some(f) && f.uid == li[0]
            && f.last_sync_id == li[1] && f.items@ == fav_items_of(li)))),
{
    match json_u64_list(body) {
        Some(li) => Some(fav_post_parse(&li)),
        None => None,
    }
}

/// Reads the body of a request for a user's favourites: the user and the time
/// the page is asked before (0 for the first page); `None` when it is not a
/// JSON pair of numbers (the request fails).
pub fn user_fav_request(body: &[u8]) -> (r: Option<(u64, u64)>)
    ensures
        r == json_pair_of(body@),
{
    json_pair(body)
}

/// The answer to a favourites request: the favourites the client misses
/// (each as kind, resource id, time and action, widened to `u64` as `as`
/// does), then the newest id when there is one. The newest id is that of the
/// last added favourite, or else that of the last missed one, or else none.
pub open spec fn fav_answer(rows: Seq<(u64, u16, u64, u64, i8)>, added_id: u64) -> (Seq<u64>, u64) {
    let flat = Seq::new(
        4 * rows.len(),
        |j: int|
            {
                let row = rows[j / 4];
                if j % 4 == 0 {
                    row.1 as u64
                } else if j % 4 == 1 {
                    row.2
                } else if j % 4 == 2 {
                    row.3
                } else {
                    row.4 as u64
                }
            },
    );
    let id = if added_id != 0 {
        added_id
    } else if rows.len() > 0 {
        rows.last().0
    } else {
        0
    };
    (if id != 0 {
        flat.push(id)
    } else {
        flat
    }, id)
}

/// The answer to a favourites request lists each missed favourite as its four
/// numbers, in order, and then, when there is a newest id, ends with it: the
/// id of the favourites the client added when it added any, else the id of the
/// last missed favourite; the answer has no last number only when there is
/// neither.
pub proof fn law_fav_answer_ends_with_newest(rows: Seq<(u64, u16, u64, u64, i8)>, added_id: u64)
    ensures
        ({
            let (ans, id) = fav_answer(rows, added_id);
            &&& added_id != 0 ==> id == added_id
            &&& added_id == 0 && rows.len() > 0 ==> id == rows.last().0
            &&& added_id == 0 && rows.len() == 0 ==> id == 0
            &&& id != 0 ==> ans.len() == 4 * rows.len() + 1 && ans.last() == id
            &&& id == 0 ==> ans.len() == 4 * rows.len()
            &&& forall|i: int|
                0 <= i < rows.len() ==> ans[4 * i] == #[trigger] rows[i].1 as u64 && ans[4 * i + 1]
                    == rows[i].2 && ans[4 * i + 2] == rows[i].3 && ans[4 * i + 3] == rows[i].4 as u64
        }),
{
    let (ans, id) = fav_answer(rows, added_id);
    assert forall|i: int| 0 <= i < rows.len() implies ans[4 * i] == #[trigger] rows[i].1 as u64
        && ans[4 * i + 1] == rows[i].2 && ans[4 * i + 2] == rows[i].3 && ans[4 * i + 3]
        == rows[i].4 as u64 by {
        assert((4 * i) / 4 == i && (4 * i) % 4 == 0) by (nonlinear_arith);
        assert((4 * i + 1) / 4 == i && (4 * i + 1) % 4 == 1) by (nonlinear_arith);
        assert((4 * i + 2) / 4 == i && (4 * i + 2) % 4 == 2) by (nonlinear_arith);
        assert((4 * i + 3) / 4 == i && (4 * i + 3) % 4 == 3) by (nonlinear_arith);
        assert(4 * i + 3 < 4 * rows.len()) by (nonlinear_arith)
            requires
                0 <= i < rows.len(),
        ;
    }
}

/// Builds the answer to a favourites request from the rows the client misses
/// (id, kind, resource id, time, action) and the id of the last favourite it
/// added (0 for none); also returns the newest id.
pub fn fav_answer_of(rows: &Vec<(u64, u16, u64, u64, i8)>, added_id: u64) -> (r: (Vec<u64>, u64))
    ensures
        (r.0@, r.1) == fav_answer(rows@, added_id),
{
    let mut out: Vec<u64> = Vec::new();
    let mut id: u64 = 0;
    if rows.len() > 0 {
        id = rows[rows.len() - 1].0;
    }
    let mut i: usize = 0;
    while i < rows.len()
        invariant
            i <= rows@.len(),
            out@.len() == 4 * i,
            forall|j: int|
                0 <= j < 4 * i ==> #[trigger] out@[j] == fav_answer(rows@, 0).0[j],
            rows@.len() > 0 ==> id == rows@.last().0,
            rows@.len() == 0 ==> id == 0,
        decreases rows@.len() - i,
    {
        let row = rows[i];
        out.push(row.1 as u64);
        out.push(row.2);
        out.push(row.3);
        out.push(row.4 as u64);
        proof {
            let f = fav_answer(rows@, 0).0;
            assert forall|j: int| 4 * i <= j < 4 * i + 4 implies #[trigger] out@[j] == f[j] by {
                assert(j / 4 == i);
            }
        }
        i = i + 1;
    }
    if added_id != 0 {
        id = added_id;
    }
    if id != 0 {
        out.push(id);
    }
    proof {
        let (f, fid) = fav_answer(rows@, added_id);
        let base = Seq::new(
            4 * rows@.len(),
            |j: int|
                {
                    let row = rows@[j / 4];
                    if j % 4 == 0 {
                        row.1 as u64
                    } else if j % 4 == 1 {
                        row.2
                    } else if j % 4 == 2 {
                        row.3
                    } else {
                        row.4 as u64
                    }
                },
        );
        assert(fav_answer(rows@, 0).0.take(4 * rows@.len() as int) =~= base) by {
            if rows@.len() > 0 && rows@.last().0 != 0 {
                assert(fav_answer(rows@, 0).0 == base.push(rows@.last().0));
            }
        }
        assert(fid == id);
        if id != 0 {
            assert(out@ =~= base.push(id));
        } else {
            assert(out@ =~= base);
        }
    }
    (out, id)
}

/// The favourites of a page as the event-stream sync writes them: for each,
/// `,kind,id,time,action`.
pub open spec fn fav_rows_text(rows: Seq<(u64, u16, u64, u64, i8)>) -> Seq<char>
    decreases rows.len(),
{
    if rows.len() == 0 {
        Seq::empty()
    } else {
        let r = rows.last();
        fav_rows_text(rows.drop_last()) + ","@ + nat_text(r.1 as nat) + ","@ + nat_text(r.2 as nat)
            + ","@ + nat_text(r.3 as nat) + ","@ + int_text(r.4 as int)
    }
}

/// The history rows of a page as the event-stream sync writes them: for each,
/// `,time,kind,id`.
pub open spec fn seen_rows_text(rows: Seq<(u64, i8, i64)>) -> Seq<char>
    decreases rows.len(),
{
    if rows.len() == 0 {
        Seq::empty()
    } else {
        let r = rows.last();
        seen_rows_text(rows.drop_last()) + ","@ + nat_text(r.0 as nat) + ","@ + int_text(r.1 as int)
            + ","@ + int_text(r.2 as int)
    }
}

/// The message of one page of favourites sent when an event stream opens: the
/// user, the id the page was asked after, the id of its last row, then its
/// rows.
pub fn es_fav_text(uid: u64, prev_id: u64, rows: &Vec<(u64, u16, u64, u64, i8)>) -> (r: String)
    requires
        rows@.len() > 0,
    ensures
        r@ == nat_text(uid as nat) + ","@ + nat_text(prev_id as nat) + ","@ + nat_text(
            rows@.last().0 as nat,
        ) + fav_rows_text(rows@),
{
    let mut s = String::new();
    push_u64(&mut s, uid);
    s.append(",");
    push_u64(&mut s, prev_id);
    s.append(",");
    push_u64(&mut s, rows[rows.len() - 1].0);
    let ghost head = s@;
    let mut i: usize = 0;
    while i < rows.len()
        invariant
            i <= rows@.len(),
            s@ == head + fav_rows_text(rows@.take(i as int)),
        decreases rows@.len() - i,
    {
        let (_, cid, rid, ts, aid) = rows[i];
        let t = fav_json_item(cid, rid, ts, aid);
        s.append(t.as_str());
        assert(rows@.take(i + 1).drop_last() =~= rows@.take(i as int));
        assert(rows@.take(i + 1).last() == rows@[i as int]);
        i = i + 1;
    }
    assert(rows@.take(rows@.len() as int) =~= rows@);
    s
}

/// The message of one page of history sent when an event stream opens: the
/// user, its rows, then the time the page was asked after.
pub fn es_seen_text(uid: u64, prev_ts: u64, rows: &Vec<(u64, i8, i64)>) -> (r: String)
    ensures
        r@ == nat_text(uid as nat) + seen_rows_text(rows@) + ","@ + nat_text(prev_ts as nat),
{
    let mut s = String::new();
    push_u64(&mut s, uid);
    let ghost head = s@;
    let mut i: usize = 0;
    while i < rows.len()
        invariant
            i <= rows@.len(),
            s@ == head + seen_rows_text(rows@.take(i as int)),
        decreases rows@.len() - i,
    {
        let (ts, cid, rid) = rows[i];
        s.append(",");
        push_u64(&mut s, ts);
        s.append(",");
        push_i64(&mut s, cid as i64);
        s.append(",");
        push_i64(&mut s, rid);
        assert(rows@.take(i + 1).drop_last() =~= rows@.take(i as int));
        assert(rows@.take(i + 1).last() == rows@[i as int]);
        i = i + 1;
    }
    assert(rows@.take(rows@.len() as int) =~= rows@);
    s.append(",");
    push_u64(&mut s, prev_ts);
    s
}

/// The query for one page of a user's history after a time, oldest first, as
/// the event-stream sync asks it.
pub fn es_seen_sql(uid: u64, ts: u64) -> (r: String)
    ensures
        r@ == "SELECT CAST(ts as BIGINT) t,cid,rid FROM seen WHERE uid="@ + nat_text(uid as nat)
            + " AND ts>CAST("@ + nat_text(ts as nat) + " as TIMESTAMP) ORDER BY ts LIMIT 8192"@,
{
    let mut s = String::from_str("SELECT CAST(ts as BIGINT) t,cid,rid FROM seen WHERE uid=");
    push_u64(&mut s, uid);
    s.append(" AND ts>CAST(");
    push_u64(&mut s, ts);
    s.append(" as TIMESTAMP) ORDER BY ts LIMIT 8192");
    s
}

/// The text a favourite adds to the sync message: `,kind,id,time,action`.
pub fn fav_json_item(cid: u16, rid: u64, ts: u64, aid: i8) -> (r: String)
    ensures
        r@ == ","@ + nat_text(cid as nat) + ","@ + nat_text(rid as nat) + ","@ + nat_text(
            ts as nat,
        ) + ","@ + int_text(aid as int),
{
    let mut s = String::from_str(",");
    push_u64(&mut s, cid as u64);
    s.append(",");
    push_u64(&mut s, rid);
    s.append(",");
    push_u64(&mut s, ts);
    s.append(",");
    push_i64(&mut s, aid as i64);
    s
}

/// The progress of adding a batch of favourites: the id of the last one the
/// store took, how many it took, and the sync text of those.
#[derive(Debug)]
pub struct FavBatch {
    pub id: u64,
    pub n: u64,
    pub json: String,
}

impl FavBatch {
    /// Nothing added yet.
    pub fn new() -> (r: FavBatch)
        ensures
            r.id == 0 && r.n == 0 && r.json@ == Seq::<char>::empty(),
    {
        FavBatch { id: 0, n: 0, json: String::new() }
    }

    /// Records the store's answer to adding one favourite: `Some(id)` when it
    /// took it (the favourite then joins the sync text), `None` when it was
    /// there already.
    pub fn record(&mut self, inserted: Option<u64>, item: (u16, u64, u64, i8))
        requires
            old(self).n < u64::MAX,
        ensures
            inserted matches Some(id) ==> final(self).id == id && final(self).n == old(self).n + 1
                && final(self).json@ == old(self).json@ + ","@ + nat_text(item.0 as nat) + ","@
                + nat_text(item.1 as nat) + ","@ + nat_text(item.2 as nat) + ","@ + int_text(
                item.3 as int,
            ),
            inserted is None ==> final(self).id == old(self).id && final(self).n == old(self).n
                && final(self).json@ == old(self).json@,
    {
        if let Some(id) = inserted {
            self.id = id;
            self.n = self.n + 1;
            let t = fav_json_item(item.0, item.1, item.2, item.3);
            self.json.append(t.as_str());
        }
    }
}

/// The sync message for favourites added between two ids: `prev,now` and the
/// favourites' text.
pub fn fav_sync_msg(prev_id: u64, now_id: u64, json: &str) -> (r: String)
    ensures
        r@ == nat_text(prev_id as nat) + ","@ + nat_text(now_id as nat) + json@,
{
    let mut s = String::new();
    push_u64(&mut s, prev_id);
    s.append(",");
    push_u64(&mut s, now_id);
    s.append(json);
    s
}

/// The message that tells the user's other clients about favourites added
/// between two ids: a favourites sync, its text `prev,now` and the favourites'
/// text.
pub fn publish_fav_sync(client_id: u64, uid: u64, prev_id: u64, now_id: u64, json: &str) -> (r:
    UserMessage)
    ensures
        r.sender_client_id == client_id,
        r.uid == uid,
        r.kind == KIND_SYNC_FAV,
        r.msg matches Any::Str(t) && t@ == nat_text(prev_id as nat) + ","@ + nat_text(
            now_id as nat,
        ) + json@,
{
    let msg = fav_sync_msg(prev_id, now_id, json);
    publish_to_user_client(client_id, uid, KIND_SYNC_FAV, Any::Str(msg))
}

/// Numbers in parentheses, separated by commas: a row of an `INSERT`.
pub open spec fn row_text(vals: Seq<u64>) -> Seq<char> {
    "("@ + join_with(Seq::new(vals.len(), |i: int| nat_text(vals[i] as nat)), ","@) + ")"@
}

/// A row of an `INSERT` made of the given numbers.
pub fn row_of(vals: &[u64]) -> (r: String)
    ensures
        r@ == row_text(vals@),
{
    let ghost parts = Seq::new(vals@.len(), |i: int| nat_text(vals@[i] as nat));
    let mut s = String::from_str("(");
    let mut i: usize = 0;
    proof {
        reveal_strlit("(");
        assert(parts.take(0) =~= Seq::<Seq<char>>::empty());
    }
    while i < vals.len()
        invariant
            i <= vals@.len(),
            parts == Seq::new(vals@.len(), |i: int| nat_text(vals@[i] as nat)),
            s@ == "("@ + join_with(parts.take(i as int), ","@),
        decreases vals@.len() - i,
    {
        let ghost before = s@;
        if i > 0 {
            s.append(",");
        }
        push_u64(&mut s, vals[i]);
        proof {
            let t = parts.take(i + 1);
            assert(t.drop_last() =~= parts.take(i as int));
            assert(t.last() == nat_text(vals@[i as int] as nat));
            if i == 0 {
                assert(t.len() == 1);
                assert(join_with(parts.take(i as int), ","@) =~= Seq::<char>::empty());
            }
        }
        i = i + 1;
    }
    s.append(")");
    assert(parts.take(vals@.len() as int) =~= parts);
    s
}

/// An `INSERT` statement: its head, then the rows joined by commas.
pub fn insert_sql(head: &str, rows: &Vec<String>) -> (r: String)
    ensures
        r@ == head@ + join_with(rows.deep_view(), ","@),
{
    let mut s = String::from_str(head);
    let ghost parts = rows.deep_view();
    let mut i: usize = 0;
    proof {
        assert(parts.take(0) =~= Seq::<Seq<char>>::empty());
    }
    while i < rows.len()
        invariant
            i <= rows@.len(),
            parts == rows.deep_view(),
            s@ == head@ + join_with(parts.take(i as int), ","@),
        decreases rows@.len() - i,
    {
        if i > 0 {
            s.append(",");
        }
        s.append(rows[i].as_str());
        proof {
            let t = parts.take(i + 1);
            assert(t.drop_last() =~= parts.take(i as int));
            assert(t.last() == rows@[i as int]@);
            if i == 0 {
                assert(join_with(parts.take(i as int), ","@) =~= Seq::<char>::empty());
            }
        }
        i = i + 1;
    }
    assert(parts.take(rows@.len() as int) =~= parts);
    s
}

/// The rows the history handler inserts for the new resources of one kind:
/// `(uid,kind,id,time)`, the time counting up by one from `ts` for each; also
/// the time after the last row.
pub fn seen_rows(uid: u64, cid: u64, rids: &Vec<u64>, ts: u64) -> (r: (Vec<String>, u64))
    requires
        ts + rids@.len() <= u64::MAX,
    ensures
        r.1 == ts + rids@.len(),
        r.0@.len() == rids@.len(),
        forall|i: int|
            0 <= i < rids@.len() ==> (#[trigger] r.0@[i])@ == row_text(
                seq![uid, cid, rids@[i], (ts + i) as u64],
            ),
{
    let mut out: Vec<String> = Vec::new();
    let mut t = ts;
    let mut i: usize = 0;
    while i < rids.len()
        invariant
            i <= rids@.len(),
            t == ts + i,
            ts + rids@.len() <= u64::MAX,
            out@.len() == i,
            forall|k: int|
                0 <= k < i ==> (#[trigger] out@[k])@ == row_text(
                    seq![uid, cid, rids@[k], (ts + k) as u64],
                ),
        decreases rids@.len() - i,
    {
        let vals: [u64; 4] = [uid, cid, rids[i], t];
        let row = row_of(&vals);
        assert(vals@ =~= seq![uid, cid, rids@[i as int], (ts + i) as u64]);
        out.push(row);
        t = t + 1;
        i = i + 1;
    }
    (out, t)
}

/// Levels of content that the search service filters by.
#[derive(Debug, Clone, Copy, PartialEq, Eq, Structural)]
pub enum Level {
    All,
    Nsfw,
    Sfw,
}

/// The search level a query's level number asks for: every level for
/// `LEVEL_ANY`, adult content for `LEVEL_ADULT`, safe content otherwise.
pub fn search_level(l: u8) -> (r: Level)
    ensures
        r == (if l == LEVEL_ANY {
            Level::All
        } else if l == LEVEL_ADULT {
            Level::Nsfw
        } else {
            Level::Sfw
        }),
{
    if l == LEVEL_ANY {
        Level::All
    } else if l == LEVEL_ADULT {
        Level::Nsfw
    } else {
        Level::Sfw
    }
}

/// The days a query covers: none when both its length and its end are 0;
/// otherwise it ends on `end` (tomorrow when `end` is 0) and begins `duration`
/// days and one before that.
pub fn day_range(duration: u32, end: u32, today: u32) -> (r: Option<(u32, u32)>)
    requires
        end == 0 ==> today < u32::MAX,
        (if end == 0 {
            today + 1
        } else {
            end as int
        }) >= duration + 1,
    ensures
        end == 0 && duration == 0 ==> r is None,
        !(end == 0 && duration == 0) ==> (r matches Some((b, e)) && e == (if end == 0 {
            today + 1
        } else {
            end as int
        }) && b == e - duration - 1),
{
    if end == 0 && duration == 0 {
        None
    } else {
        let e = if end == 0 {
            today + 1
        } else {
            end
        };
        let b = e - duration - 1;
        Some((b, e))
    }
}

} // verus!
