//! The month-by-month favourites sync. A client sends, per month, the
//! favourites it holds as (kind, resource id, time, action); the favourites the
//! server holds for that month and the client does not are answered, and the
//! ones the client holds and the server does not are left to be added. What
//! the client sent for one month stays pending through the later months.
use vstd::prelude::*;
use crate::assoc::{
    assoc_view, has_key, keys_unique, lemma_assoc_absent, lemma_assoc_push, lemma_assoc_remove,
    lemma_assoc_update,
};

verus! {

/// A favourite as the sync keys it: kind, resource id and time.
pub type FavKey = (u16, u64, u64);

/// The pending favourites as a map from key to action.
pub open spec fn pending_view(s: Seq<(FavKey, i8)>) -> Map<FavKey, i8> {
    assoc_view(s, |a: i8| a)
}

/// The sync of one request: the favourites sent and not yet matched, and the
/// answer so far.
pub struct FavMonths {
    pub pending: Vec<(FavKey, i8)>,
    pub answer: Vec<u64>,
}

/// The list sent for a month is its number, then whole groups of four.
pub open spec fn month_ok(li: Seq<u64>) -> bool {
    li.len() >= 1 && (li.len() - 1) % 4 == 0
}

/// The favourites of a month's list, in order, kind and action truncated to
/// their widths.
pub open spec fn month_items(li: Seq<u64>) -> Seq<(FavKey, i8)> {
    Seq::new(
        ((li.len() - 1) / 4) as nat,
        |j: int| ((li[1 + 4 * j] as u16, li[2 + 4 * j], li[3 + 4 * j]), li[4 + 4 * j] as i8),
    )
}

/// A map after setting the given pairs in order (a later pair for a key wins).
pub open spec fn put_all(m: Map<FavKey, i8>, items: Seq<(FavKey, i8)>) -> Map<FavKey, i8>
    decreases items.len(),
{
    if items.len() == 0 {
        m
    } else {
        put_all(m, items.drop_last()).insert(items.last().0, items.last().1)
    }
}

/// Matching the server's rows of a month, in order: a row whose key is
/// pending takes it out of the pending ones; any other row is answered as its
/// four numbers (the action sign-extended).
pub open spec fn match_rows(
    st: (Map<FavKey, i8>, Seq<u64>),
    rows: Seq<(u16, u64, u64, i8)>,
) -> (Map<FavKey, i8>, Seq<u64>)
    decreases rows.len(),
{
    if rows.len() == 0 {
        st
    } else {
        let prev = match_rows(st, rows.drop_last());
        let r = rows.last();
        let key = (r.0, r.1, r.2);
        if prev.0.contains_key(key) {
            (prev.0.remove(key), prev.1)
        } else {
            (prev.0, prev.1 + seq![r.0 as u64, r.1, r.2, r.3 as u64])
        }
    }
}

impl FavMonths {
    /// The pending favourites as a map, and the answer.
    pub open spec fn view(&self) -> (Map<FavKey, i8>, Seq<u64>) {
        (pending_view(self.pending@), self.answer@)
    }

    /// At most one pending favourite per key.
    pub open spec fn wf(&self) -> bool {
        keys_unique(self.pending@)
    }

    /// Nothing sent, nothing answered.
    pub fn new() -> (r: FavMonths)
        ensures
            r.wf(),
            r.view().0 == Map::<FavKey, i8>::empty(),
            r.view().1 == Seq::<u64>::empty(),
    {
        let r = FavMonths { pending: Vec::new(), answer: Vec::new() };
        assert(r.view().0 =~= Map::<FavKey, i8>::empty());
        r
    }

    fn find(&self, key: FavKey) -> (r: Option<usize>)
        ensures
            r matches Some(i) ==> i < self.pending@.len() && self.pending@[i as int].0 == key,
            r is None ==> !has_key(self.pending@, key),
    {
        let mut i: usize = 0;
        while i < self.pending.len()
            invariant
                i <= self.pending@.len(),
                forall|j: int| 0 <= j < i ==> #[trigger] self.pending@[j].0 != key,
            decreases self.pending@.len() - i,
        {
            let k = self.pending[i].0;
            if k.0 == key.0 && k.1 == key.1 && k.2 == key.2 {
                return Some(i);
            }
            i = i + 1;
        }
        None
    }

    fn put(&mut self, key: FavKey, action: i8)
        requires
            old(self).wf(),
        ensures
            final(self).wf(),
            final(self).view() == (old(self).view().0.insert(key, action), old(self).view().1),
    {
        match self.find(key) {
            Some(i) => {
                proof {
                    lemma_assoc_update(self.pending@, i as int, (key, action), |a: i8| a);
                }
                self.pending.set(i, (key, action));
            },
            None => {
                proof {
                    lemma_assoc_push(self.pending@, (key, action), |a: i8| a);
                }
                self.pending.push((key, action));
            },
        }
    }

    /// Takes the list a client sent for one month.
    pub fn add_month(&mut self, li: &Vec<u64>)
        requires
            old(self).wf(),
            month_ok(li@),
        ensures
            final(self).wf(),
            final(self).view() == (
                put_all(old(self).view().0, month_items(li@)),
                old(self).view().1,
            ),
    {
        let n = (li.len() - 1) / 4;
        let ghost start = self.view();
        let ghost items = month_items(li@);
        let mut k: usize = 0;
        while k < n
            invariant
                n == (li@.len() - 1) / 4,
                month_ok(li@),
                4 * n + 1 == li@.len() <= usize::MAX,
                k <= n,
                items == month_items(li@),
                self.wf(),
                self.view() == (put_all(start.0, items.take(k as int)), start.1),
            decreases n - k,
        {
            let key: FavKey = (li[1 + 4 * k] as u16, li[2 + 4 * k], li[3 + 4 * k]);
            let action = li[4 + 4 * k] as i8;
            assert(items[k as int] == (key, action));
            assert(items.take(k + 1).drop_last() =~= items.take(k as int));
            self.put(key, action);
            k = k + 1;
        }
        assert(items.take(n as int) =~= items);
    }

    /// Matches the server's rows of a month against the pending favourites.
    pub fn match_month(&mut self, rows: &Vec<(u16, u64, u64, i8)>)
        requires
            old(self).wf(),
        ensures
            final(self).wf(),
            final(self).view() == match_rows(old(self).view(), rows@),
    {
        let ghost start = self.view();
        let mut i: usize = 0;
        while i < rows.len()
            invariant
                i <= rows@.len(),
                self.wf(),
                self.view() == match_rows(start, rows@.take(i as int)),
            decreases rows@.len() - i,
        {
            let (cid, rid, ts, aid) = rows[i];
            let key: FavKey = (cid, rid, ts);
            assert(rows@.take(i + 1).drop_last() =~= rows@.take(i as int));
            assert(rows@.take(i + 1).last() == rows@[i as int]);
            match self.find(key) {
                Some(j) => {
                    proof {
                        lemma_assoc_remove(self.pending@, j as int, |a: i8| a);
                    }
                    self.pending.remove(j);
                },
                None => {
                    proof {
                        lemma_assoc_absent(self.pending@, key, |a: i8| a);
                    }
                    let ghost before = self.answer@;
                    self.answer.push(cid as u64);
                    self.answer.push(rid);
                    self.answer.push(ts);
                    self.answer.push(aid as u64);
                    assert(self.answer@ =~= before + seq![cid as u64, rid, ts, aid as u64]);
                },
            }
            i = i + 1;
        }
        assert(rows@.take(rows@.len() as int) =~= rows@);
    }

    /// The favourites still pending, to be added: each once, as (kind,
    /// resource id, time, action).
    pub fn pending_items(&self) -> (r: Vec<(u16, u64, u64, i8)>)
        ensures
            r@.len() == self.pending@.len(),
            forall|i: int|
                0 <= i < r@.len() ==> #[trigger] r@[i] == (
                    self.pending@[i].0.0,
                    self.pending@[i].0.1,
                    self.pending@[i].0.2,
                    self.pending@[i].1,
                ),
    {
        let mut r: Vec<(u16, u64, u64, i8)> = Vec::new();
        let mut i: usize = 0;
        while i < self.pending.len()
            invariant
                i <= self.pending@.len(),
                r@.len() == i,
                forall|j: int|
                    0 <= j < i ==> #[trigger] r@[j] == (
                        self.pending@[j].0.0,
                        self.pending@[j].0.1,
                        self.pending@[j].0.2,
                        self.pending@[j].1,
                    ),
            decreases self.pending@.len() - i,
        {
            let (k, a) = self.pending[i];
            r.push((k.0, k.1, k.2, a));
            i = i + 1;
        }
        r
    }
}

/// Whether a month's list is its number and whole groups of four.
pub fn month_acceptable(li: &Vec<u64>) -> (r: bool)
    ensures
        r == month_ok(li@),
{
    li.len() >= 1 && (li.len() - 1) % 4 == 0
}

/// A favourite as a server row.
pub open spec fn item_row(e: (FavKey, i8)) -> (u16, u64, u64, i8) {
    (e.0.0, e.0.1, e.0.2, e.1)
}

/// No two favourites of a list share a key.
pub open spec fn distinct_keys(items: Seq<(FavKey, i8)>) -> bool {
    forall|i: int, j: int|
        0 <= i < items.len() && 0 <= j < items.len() && #[trigger] items[i].0 == #[trigger] items[j].0
            ==> i == j
}

/// Whether a key is among those of a list.
pub open spec fn lists_key(items: Seq<(FavKey, i8)>, k: FavKey) -> bool {
    exists|i: int| 0 <= i < items.len() && #[trigger] items[i].0 == k
}

/// A map with the keys of a list taken out, in order.
pub open spec fn remove_all(m: Map<FavKey, i8>, items: Seq<(FavKey, i8)>) -> Map<FavKey, i8>
    decreases items.len(),
{
    if items.len() == 0 {
        m
    } else {
        remove_all(m, items.drop_last()).remove(items.last().0)
    }
}

proof fn lemma_put_all(m: Map<FavKey, i8>, items: Seq<(FavKey, i8)>, k: FavKey)
    ensures
        put_all(m, items).contains_key(k) == (m.contains_key(k) || lists_key(items, k)),
        !lists_key(items, k) ==> put_all(m, items)[k] == m[k],
    decreases items.len(),
{
    if items.len() > 0 {
        let d = items.drop_last();
        lemma_put_all(m, d, k);
        if lists_key(d, k) {
            let i = choose|i: int| 0 <= i < d.len() && #[trigger] d[i].0 == k;
            assert(items[i].0 == k);
        }
        if lists_key(items, k) && items.last().0 != k {
            let i = choose|i: int| 0 <= i < items.len() && #[trigger] items[i].0 == k;
            assert(i != items.len() - 1);
            assert(d[i].0 == k);
        }
        if items.last().0 == k {
            assert(items[items.len() - 1].0 == k);
        }
    }
}

proof fn lemma_remove_all(m: Map<FavKey, i8>, items: Seq<(FavKey, i8)>, k: FavKey)
    ensures
        remove_all(m, items).contains_key(k) == (m.contains_key(k) && !lists_key(items, k)),
        remove_all(m, items).contains_key(k) ==> remove_all(m, items)[k] == m[k],
    decreases items.len(),
{
    if items.len() > 0 {
        let d = items.drop_last();
        lemma_remove_all(m, d, k);
        if lists_key(d, k) {
            let i = choose|i: int| 0 <= i < d.len() && #[trigger] d[i].0 == k;
            assert(items[i].0 == k);
        }
        if lists_key(items, k) && items.last().0 != k {
            let i = choose|i: int| 0 <= i < items.len() && #[trigger] items[i].0 == k;
            assert(i != items.len() - 1);
            assert(d[i].0 == k);
        }
        if items.last().0 == k {
            assert(items[items.len() - 1].0 == k);
        }
    }
}

proof fn lemma_match_removes(m: Map<FavKey, i8>, a: Seq<u64>, items: Seq<(FavKey, i8)>)
    requires
        distinct_keys(items),
        forall|i: int| 0 <= i < items.len() ==> m.contains_key(#[trigger] items[i].0),
    ensures
        match_rows((m, a), items.map_values(|e: (FavKey, i8)| item_row(e))) == (
            remove_all(m, items),
            a,
        ),
    decreases items.len(),
{
    let rows = items.map_values(|e: (FavKey, i8)| item_row(e));
    if items.len() > 0 {
        let d = items.drop_last();
        assert(rows.drop_last() =~= d.map_values(|e: (FavKey, i8)| item_row(e)));
        assert forall|i: int, j: int|
            0 <= i < d.len() && 0 <= j < d.len() && #[trigger] d[i].0 == #[trigger] d[j].0 implies i
            == j by {
            assert(items[i].0 == items[j].0);
        }
        assert forall|i: int| 0 <= i < d.len() implies m.contains_key(#[trigger] d[i].0) by {
            assert(items[i].0 == d[i].0);
        }
        lemma_match_removes(m, a, d);
        let last = items.last();
        let k = last.0;
        assert(rows.last() == item_row(last));
        assert(m.contains_key(items[items.len() - 1].0));
        lemma_remove_all(m, d, k);
        if lists_key(d, k) {
            let i = choose|i: int| 0 <= i < d.len() && #[trigger] d[i].0 == k;
            assert(items[i].0 == items[items.len() - 1].0);
        }
        assert((last.0.0, last.0.1, last.0.2) == k);
    }
}

/// A client that already holds exactly the server's favourites of a month,
/// with nothing else pending, gets no answer for it and has nothing left to
/// add: what it sent is matched away entirely.
pub proof fn law_in_sync_month(
    m: Map<FavKey, i8>,
    answer: Seq<u64>,
    items: Seq<(FavKey, i8)>,
)
    requires
        distinct_keys(items),
        forall|i: int| 0 <= i < items.len() ==> !m.contains_key(#[trigger] items[i].0),
    ensures
        match_rows(
            (put_all(m, items), answer),
            items.map_values(|e: (FavKey, i8)| item_row(e)),
        ) == (m, answer),
{
    let full = put_all(m, items);
    assert forall|i: int| 0 <= i < items.len() implies full.contains_key(#[trigger] items[i].0) by {
        lemma_put_all(m, items, items[i].0);
    }
    lemma_match_removes(full, answer, items);
    assert forall|k: FavKey| #[trigger] remove_all(full, items).contains_key(k) == m.contains_key(k)
        by {
        lemma_remove_all(full, items, k);
        lemma_put_all(m, items, k);
        if lists_key(items, k) {
            let i = choose|i: int| 0 <= i < items.len() && #[trigger] items[i].0 == k;
            assert(!m.contains_key(items[i].0));
        }
    }
    assert forall|k: FavKey| #[trigger] remove_all(full, items).contains_key(k) implies remove_all(
        full,
        items,
    )[k] == m[k] by {
        lemma_remove_all(full, items, k);
        lemma_put_all(m, items, k);
    }
    assert(remove_all(full, items) =~= m);
}

} // verus!
