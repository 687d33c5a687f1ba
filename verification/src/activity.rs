//! The bookkeeping of the activity log handler. A client reports, per search
//! query, lists of numbers: an action, then (kind, resource id) pairs. Each list
//! becomes rows of the `log` table; the actions that carry a recommendation
//! chain (the first pair is the resource acted on, the others the
//! recommendations that led to it) also give rows of the `rec_chain` table and
//! an entry of the map from resources to their latest chain, from which the
//! removal action takes the entry out again.
use vstd::prelude::*;
use crate::assoc::{
    assoc_view, has_key, keys_unique, lemma_assoc_absent, lemma_assoc_push, lemma_assoc_remove,
    lemma_assoc_update,
};
use crate::handlers::{row_of, row_text, CidRid, RecChina};

verus! {

/// A chain entry as a value: its action and its resources.
pub open spec fn chain_value(c: RecChina) -> (u8, Seq<CidRid>) {
    (c.action, c.chain@)
}

/// The entries as a map from resources to chains.
pub open spec fn actions_view(s: Seq<(CidRid, RecChina)>) -> Map<CidRid, (u8, Seq<CidRid>)> {
    assoc_view(s, |c: RecChina| chain_value(c))
}

/// What the handler has gathered: the `log` rows, the `rec_chain` rows and the
/// latest chain of each resource.
pub struct LogBatch {
    pub to_insert: Vec<String>,
    pub rec_chain: Vec<String>,
    pub rec_action: Vec<(CidRid, RecChina)>,
}

impl LogBatch {
    /// The rows as texts and the chains as a map.
    pub open spec fn view(&self) -> (Seq<Seq<char>>, Seq<Seq<char>>, Map<CidRid, (u8, Seq<CidRid>)>) {
        (self.to_insert.deep_view(), self.rec_chain.deep_view(), actions_view(self.rec_action@))
    }

    /// At most one chain entry per resource.
    pub open spec fn wf(&self) -> bool {
        keys_unique(self.rec_action@)
    }

    /// Nothing gathered yet.
    pub fn new() -> (r: LogBatch)
        ensures
            r.wf(),
            r.view().0 == Seq::<Seq<char>>::empty(),
            r.view().1 == Seq::<Seq<char>>::empty(),
            r.view().2 == Map::<CidRid, (u8, Seq<CidRid>)>::empty(),
    {
        let r = LogBatch { to_insert: Vec::new(), rec_chain: Vec::new(), rec_action: Vec::new() };
        assert(r.view().0 =~= Seq::<Seq<char>>::empty());
        assert(r.view().1 =~= Seq::<Seq<char>>::empty());
        assert(r.view().2 =~= Map::<CidRid, (u8, Seq<CidRid>)>::empty());
        r
    }
}

/// The number of pairs of a list, a last lone number counting as one.
pub open spec fn pair_count(v: Seq<u64>) -> int {
    (v.len() / 2) as int
}

/// The `log` rows of a list whose action carries no chain: one per pair.
pub open spec fn pair_rows(uid: u64, a: u8, v: Seq<u64>, qid: u64, ts: u64) -> Seq<Seq<char>> {
    Seq::new(
        pair_count(v) as nat,
        |j: int| row_text(seq![uid, a as u64, v[1 + 2 * j], v[2 + 2 * j], qid, ts]),
    )
}

/// The `rec_chain` rows of a list: one per recommendation, after the resource
/// acted on (whose kind is truncated to a byte here).
pub open spec fn chain_rows(uid: u64, a: u8, v: Seq<u64>, ts: u64) -> Seq<Seq<char>> {
    Seq::new(
        (pair_count(v) - 1) as nat,
        |j: int|
            row_text(
                seq![
                    uid,
                    a as u64,
                    (v[1] as u8) as u64,
                    v[2],
                    (v[3 + 2 * j] as u8) as u64,
                    v[4 + 2 * j],
                    ts,
                ],
            ),
    )
}

/// The recommendations of a list, after the resource acted on.
pub open spec fn chain_of(v: Seq<u64>) -> Seq<CidRid> {
    Seq::new((pair_count(v) - 1) as nat, |j: int| CidRid { cid: v[3 + 2 * j] as u8, rid: v[4 + 2 * j] })
}

/// The lists the handler takes without reading past their end: empty ones,
/// ones made of whole pairs after the action, and chain lists that read no
/// pair after the first (at most one pair, or the removal action).
pub open spec fn list_ok(v: Seq<u64>, recs: Seq<u8>, fav_rm: u8) -> bool {
    v.len() == 0 || v.len() % 2 == 1 || (recs.contains(v[0] as u8) && (pair_count(v) <= 1 || v[0]
        as u8 == fav_rm))
}

/// What one list adds to what has been gathered, for a user, the id of the
/// query it was reported under and the time of the report. The action is the
/// first number truncated to a byte.
pub open spec fn log_step(
    st: (Seq<Seq<char>>, Seq<Seq<char>>, Map<CidRid, (u8, Seq<CidRid>)>),
    v: Seq<u64>,
    uid: u64,
    qid: u64,
    ts: u64,
    recs: Seq<u8>,
    fav_rm: u8,
) -> (Seq<Seq<char>>, Seq<Seq<char>>, Map<CidRid, (u8, Seq<CidRid>)>) {
    if v.len() == 0 {
        st
    } else {
        let a = v[0] as u8;
        if recs.contains(a) {
            if pair_count(v) > 1 {
                let key = CidRid { cid: v[1] as u8, rid: v[2] };
                if a == fav_rm {
                    (st.0, st.1, st.2.remove(key))
                } else {
                    (
                        st.0.push(row_text(seq![uid, a as u64, v[1], v[2], qid, ts])),
                        st.1 + chain_rows(uid, a, v, ts),
                        st.2.insert(key, (a, chain_of(v))),
                    )
                }
            } else {
                st
            }
        } else {
            (st.0 + pair_rows(uid, a, v, qid, ts), st.1, st.2)
        }
    }
}

/// What the lists of one query add, in order.
pub open spec fn log_fold(
    st: (Seq<Seq<char>>, Seq<Seq<char>>, Map<CidRid, (u8, Seq<CidRid>)>),
    lists: Seq<Seq<u64>>,
    uid: u64,
    qid: u64,
    ts: u64,
    recs: Seq<u8>,
    fav_rm: u8,
) -> (Seq<Seq<char>>, Seq<Seq<char>>, Map<CidRid, (u8, Seq<CidRid>)>)
    decreases lists.len(),
{
    if lists.len() == 0 {
        st
    } else {
        log_step(
            log_fold(st, lists.drop_last(), uid, qid, ts, recs, fav_rm),
            lists.last(),
            uid,
            qid,
            ts,
            recs,
            fav_rm,
        )
    }
}

/// Finds the entry of a resource.
fn find_action(s: &Vec<(CidRid, RecChina)>, key: CidRid) -> (r: Option<usize>)
    ensures
        r matches Some(i) ==> i < s@.len() && s@[i as int].0 == key,
        r is None ==> !has_key(s@, key),
{
    let mut i: usize = 0;
    while i < s.len()
        invariant
            i <= s@.len(),
            forall|j: int| 0 <= j < i ==> #[trigger] s@[j].0 != key,
        decreases s@.len() - i,
    {
        if s[i].0 == key {
            return Some(i);
        }
        i = i + 1;
    }
    None
}

/// Sets the chain of a resource.
fn put_action(s: &mut Vec<(CidRid, RecChina)>, key: CidRid, val: RecChina)
    requires
        keys_unique(old(s)@),
    ensures
        keys_unique(final(s)@),
        actions_view(final(s)@) == actions_view(old(s)@).insert(key, chain_value(val)),
{
    let ghost v = chain_value(val);
    match find_action(s, key) {
        Some(i) => {
            proof {
                lemma_assoc_update(s@, i as int, (key, val), |c: RecChina| chain_value(c));
            }
            s.set(i, (key, val));
        },
        None => {
            proof {
                lemma_assoc_push(s@, (key, val), |c: RecChina| chain_value(c));
            }
            s.push((key, val));
        },
    }
}

/// Takes out the chain of a resource, if it has one.
fn drop_action(s: &mut Vec<(CidRid, RecChina)>, key: CidRid)
    requires
        keys_unique(old(s)@),
    ensures
        keys_unique(final(s)@),
        actions_view(final(s)@) == actions_view(old(s)@).remove(key),
{
    match find_action(s, key) {
        Some(i) => {
            proof {
                lemma_assoc_remove(s@, i as int, |c: RecChina| chain_value(c));
            }
            s.remove(i);
        },
        None => {
            proof {
                lemma_assoc_absent(s@, key, |c: RecChina| chain_value(c));
            }
        },
    }
}

/// Whether an action carries a recommendation chain.
fn is_rec_action(recs: &[u8], a: u8) -> (r: bool)
    ensures
        r == recs@.contains(a),
{
    let mut i: usize = 0;
    while i < recs.len()
        invariant
            i <= recs@.len(),
            forall|j: int| 0 <= j < i ==> recs@[j] != a,
        decreases recs@.len() - i,
    {
        if recs[i] == a {
            assert(recs@[i as int] == a);
            return true;
        }
        i = i + 1;
    }
    false
}

/// Whether the handler takes a list (see `list_ok`).
pub fn list_acceptable(v: &Vec<u64>, recs: &[u8], fav_rm: u8) -> (r: bool)
    ensures
        r == list_ok(v@, recs@, fav_rm),
{
    if v.len() == 0 || v.len() % 2 == 1 {
        true
    } else {
        let a = v[0] as u8;
        is_rec_action(recs, a) && (v.len() / 2 <= 1 || a == fav_rm)
    }
}

/// Whether the handler takes every list of a query.
pub fn lists_acceptable(lists: &Vec<Vec<u64>>, recs: &[u8], fav_rm: u8) -> (r: bool)
    ensures
        r == forall|i: int| 0 <= i < lists@.len() ==> list_ok(#[trigger] lists@[i]@, recs@, fav_rm),
{
    let mut i: usize = 0;
    while i < lists.len()
        invariant
            i <= lists@.len(),
            forall|j: int| 0 <= j < i ==> list_ok(#[trigger] lists@[j]@, recs@, fav_rm),
        decreases lists@.len() - i,
    {
        if !list_acceptable(&lists[i], recs, fav_rm) {
            return false;
        }
        i = i + 1;
    }
    true
}

/// Adds the rows of a list whose action carries no chain.
fn push_pair_rows(rows: &mut Vec<String>, uid: u64, a: u8, v: &Vec<u64>, qid: u64, ts: u64)
    requires
        v@.len() % 2 == 1,
    ensures
        final(rows).deep_view() == old(rows).deep_view() + pair_rows(uid, a, v@, qid, ts),
{
    let n = v.len() / 2;
    let ghost start = rows.deep_view();
    let mut k: usize = 0;
    while k < n
        invariant
            n == v@.len() / 2,
            v@.len() % 2 == 1,
            2 * n < v@.len() <= usize::MAX,
            k <= n,
            rows.deep_view() == start + pair_rows(uid, a, v@, qid, ts).take(k as int),
        decreases n - k,
    {
        let vals: [u64; 6] = [uid, a as u64, v[1 + 2 * k], v[2 + 2 * k], qid, ts];
        let row = row_of(&vals);
        assert(vals@ =~= seq![uid, a as u64, v@[1 + 2 * k], v@[2 + 2 * k], qid, ts]);
        let ghost before = rows.deep_view();
        rows.push(row);
        assert(pair_rows(uid, a, v@, qid, ts).take(k + 1) =~= pair_rows(uid, a, v@, qid, ts).take(
            k as int,
        ).push(row@));
        assert(rows.deep_view() =~= before.push(row@));
        k = k + 1;
    }
    assert(pair_rows(uid, a, v@, qid, ts).take(n as int) =~= pair_rows(uid, a, v@, qid, ts));
}

/// Adds the chain rows of a list and returns its recommendations.
fn push_chain_rows(rows: &mut Vec<String>, uid: u64, a: u8, v: &Vec<u64>, ts: u64) -> (chain: Vec<
    CidRid,
>)
    requires
        v@.len() % 2 == 1,
        pair_count(v@) > 1,
    ensures
        final(rows).deep_view() == old(rows).deep_view() + chain_rows(uid, a, v@, ts),
        chain@ == chain_of(v@),
{
    let n = v.len() / 2;
    let cid = v[1] as u8;
    let rid = v[2];
    let ghost start = rows.deep_view();
    let mut chain: Vec<CidRid> = Vec::new();
    let mut k: usize = 1;
    while k < n
        invariant
            n == v@.len() / 2,
            v@.len() % 2 == 1,
            2 * n < v@.len() <= usize::MAX,
            1 <= k <= n,
            cid == v@[1] as u8,
            rid == v@[2],
            rows.deep_view() == start + chain_rows(uid, a, v@, ts).take(k - 1),
            chain@ == chain_of(v@).take(k - 1),
        decreases n - k,
    {
        let rcid = v[1 + 2 * k] as u8;
        let rrid = v[2 + 2 * k];
        let vals: [u64; 7] = [uid, a as u64, cid as u64, rid, rcid as u64, rrid, ts];
        let row = row_of(&vals);
        assert(vals@ =~= seq![
            uid,
            a as u64,
            (v@[1] as u8) as u64,
            v@[2],
            (v@[3 + 2 * (k - 1)] as u8) as u64,
            v@[4 + 2 * (k - 1)],
            ts,
        ]);
        let ghost before = rows.deep_view();
        rows.push(row);
        chain.push(CidRid { cid: rcid, rid: rrid });
        assert(chain_rows(uid, a, v@, ts).take(k as int) =~= chain_rows(uid, a, v@, ts).take(
            k - 1,
        ).push(row@));
        assert(rows.deep_view() =~= before.push(row@));
        assert(chain_of(v@).take(k as int) =~= chain_of(v@).take(k - 1).push(
            CidRid { cid: rcid, rid: rrid },
        ));
        k = k + 1;
    }
    assert(chain_rows(uid, a, v@, ts).take(n - 1) =~= chain_rows(uid, a, v@, ts));
    assert(chain_of(v@).take(n - 1) =~= chain_of(v@));
    chain
}

impl LogBatch {
    /// Takes one list reported under a query: for a user, the id of the query
    /// and the time of the report, with the actions that carry a chain and the
    /// action that removes one.
    pub fn log_list(
        &mut self,
        uid: u64,
        qid: u64,
        ts: u64,
        v: &Vec<u64>,
        recs: &[u8],
        fav_rm: u8,
    )
        requires
            old(self).wf(),
            list_ok(v@, recs@, fav_rm),
        ensures
            final(self).wf(),
            final(self).view() == log_step(old(self).view(), v@, uid, qid, ts, recs@, fav_rm),
    {
        if v.len() == 0 {
            return ;
        }
        let a = v[0] as u8;
        if is_rec_action(recs, a) {
            if v.len() / 2 > 1 {
                let key = CidRid { cid: v[1] as u8, rid: v[2] };
                if a == fav_rm {
                    drop_action(&mut self.rec_action, key);
                } else {
                    let vals: [u64; 6] = [uid, a as u64, v[1], v[2], qid, ts];
                    let row = row_of(&vals);
                    assert(vals@ =~= seq![uid, a as u64, v@[1], v@[2], qid, ts]);
                    let ghost before = self.to_insert.deep_view();
                    self.to_insert.push(row);
                    assert(self.to_insert.deep_view() =~= before.push(row@));
                    let chain = push_chain_rows(&mut self.rec_chain, uid, a, v, ts);
                    put_action(&mut self.rec_action, key, RecChina { action: a, chain });
                }
            }
        } else {
            push_pair_rows(&mut self.to_insert, uid, a, v, qid, ts);
        }
    }

    /// Takes the lists reported under one query, in order.
    pub fn log_group(
        &mut self,
        uid: u64,
        qid: u64,
        ts: u64,
        lists: &Vec<Vec<u64>>,
        recs: &[u8],
        fav_rm: u8,
    )
        requires
            old(self).wf(),
            forall|i: int| 0 <= i < lists@.len() ==> list_ok(#[trigger] lists@[i]@, recs@, fav_rm),
        ensures
            final(self).wf(),
            final(self).view() == log_fold(
                old(self).view(),
                lists.deep_view(),
                uid,
                qid,
                ts,
                recs@,
                fav_rm,
            ),
    {
        let ghost start = self.view();
        let ghost all = lists.deep_view();
        let mut i: usize = 0;
        while i < lists.len()
            invariant
                i <= lists@.len(),
                all == lists.deep_view(),
                self.wf(),
                forall|j: int| 0 <= j < lists@.len() ==> list_ok(#[trigger] lists@[j]@, recs@, fav_rm),
                self.view() == log_fold(start, all.take(i as int), uid, qid, ts, recs@, fav_rm),
            decreases lists@.len() - i,
        {
            assert(all[i as int] == lists@[i as int]@);
            self.log_list(uid, qid, ts, &lists[i], recs, fav_rm);
            assert(all.take(i + 1).drop_last() =~= all.take(i as int));
            i = i + 1;
        }
        assert(all.take(lists@.len() as int) =~= all);
    }
}

/// Removing a resource's chain right after recording one for it leaves the
/// resource without a chain and every other resource's chain as it was.
pub proof fn law_removal_undoes_chain(
    st: (Seq<Seq<char>>, Seq<Seq<char>>, Map<CidRid, (u8, Seq<CidRid>)>),
    rec: Seq<u64>,
    rm: Seq<u64>,
    uid: u64,
    qid: u64,
    ts: u64,
    recs: Seq<u8>,
    fav_rm: u8,
)
    requires
        rec.len() > 0,
        rm.len() > 0,
        recs.contains(rec[0] as u8),
        rec[0] as u8 != fav_rm,
        pair_count(rec) > 1,
        recs.contains(fav_rm),
        rm[0] as u8 == fav_rm,
        pair_count(rm) > 1,
        rm[1] as u8 == rec[1] as u8,
        rm[2] == rec[2],
    ensures
        log_step(log_step(st, rec, uid, qid, ts, recs, fav_rm), rm, uid, qid, ts, recs, fav_rm).2
            == st.2.remove(CidRid { cid: rec[1] as u8, rid: rec[2] }),
{
    let key = CidRid { cid: rec[1] as u8, rid: rec[2] };
    let once = log_step(st, rec, uid, qid, ts, recs, fav_rm);
    assert(once.2 == st.2.insert(key, (rec[0] as u8, chain_of(rec))));
    assert(once.2.remove(key) =~= st.2.remove(key));
}

} // verus!
