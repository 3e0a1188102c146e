use vstd::prelude::*;

use crate::mi::{sum_limit, MutualInformation, ScoreParts};

verus! {

// ------------------------------------------------------------------
// Count tables as sequences of key/count entries
// ------------------------------------------------------------------

/// The finite map denoted by a sequence of key/count entries; a later
/// entry for a key overrides an earlier one (well-formed tables never
/// repeat a key, so the order never matters there).
pub open spec fn assoc_map<K>(entries: Seq<(K, usize)>) -> Map<K, nat>
    decreases entries.len(),
{
    if entries.len() == 0 {
        Map::empty()
    } else {
        assoc_map(entries.drop_last()).insert(entries.last().0, entries.last().1 as nat)
    }
}

/// No key occurs in two entries.
pub open spec fn distinct_keys<K>(entries: Seq<(K, usize)>) -> bool {
    forall|j1: int, j2: int|
        0 <= j1 < j2 < entries.len() ==> (#[trigger] entries[j1]).0 != (#[trigger] entries[j2]).0
}

/// Every entry carries a strictly positive count.
pub open spec fn counts_positive<K>(entries: Seq<(K, usize)>) -> bool {
    forall|j: int| 0 <= j < entries.len() ==> 1 <= (#[trigger] entries[j]).1
}

/// The sum of all counts in the table.
pub open spec fn sum_counts<K>(entries: Seq<(K, usize)>) -> nat
    decreases entries.len(),
{
    if entries.len() == 0 {
        0
    } else {
        sum_counts(entries.drop_last()) + entries.last().1 as nat
    }
}

/// The count a map holds for `k`, with absent keys counting as zero.
pub open spec fn count_in<K>(m: Map<K, nat>, k: K) -> nat {
    if m.dom().contains(k) {
        m[k]
    } else {
        0
    }
}

/// A duplicate-free entry table and the map it denotes hold exactly the
/// same associations.
pub proof fn lemma_assoc_entries<K>(entries: Seq<(K, usize)>)
    requires
        distinct_keys(entries),
    ensures
        forall|k: K|
            #[trigger] assoc_map(entries).dom().contains(k)
                <==> exists|j: int| 0 <= j < entries.len() && (#[trigger] entries[j]).0 == k,
        forall|j: int|
            0 <= j < entries.len() ==> assoc_map(entries).dom().contains(
                (#[trigger] entries[j]).0,
            ) && assoc_map(entries)[entries[j].0] == entries[j].1 as nat,
    decreases entries.len(),
{
    if entries.len() > 0 {
        let e2 = entries.drop_last();
        assert(distinct_keys(e2));
        lemma_assoc_entries(e2);
        let m = assoc_map(entries);
        let last = entries.last();
        assert(m == assoc_map(e2).insert(last.0, last.1 as nat));
        assert forall|k: K| #[trigger] m.dom().contains(k) implies exists|j: int|
            0 <= j < entries.len() && (#[trigger] entries[j]).0 == k by {
            if k == last.0 {
                assert(entries[entries.len() - 1].0 == k);
            } else {
                assert(assoc_map(e2).dom().contains(k));
                let j = choose|j: int| 0 <= j < e2.len() && (#[trigger] e2[j]).0 == k;
                assert(entries[j].0 == k);
            }
        }
        assert forall|k: K| (exists|j: int| 0 <= j < entries.len() && (#[trigger] entries[j]).0 == k)
            implies m.dom().contains(k) by {
            let j = choose|j: int| 0 <= j < entries.len() && (#[trigger] entries[j]).0 == k;
            if j < entries.len() - 1 {
                assert(e2[j].0 == k);
                assert(assoc_map(e2).dom().contains(k));
            }
        }
        assert forall|j: int| 0 <= j < entries.len() implies m.dom().contains(
            (#[trigger] entries[j]).0,
        ) && m[entries[j].0] == entries[j].1 as nat by {
            if j < entries.len() - 1 {
                assert(e2[j] == entries[j]);
                assert(assoc_map(e2).dom().contains(e2[j].0));
                assert(assoc_map(e2)[e2[j].0] == e2[j].1 as nat);
                assert(entries[j].0 != last.0);
            }
        }
    }
}

/// A duplicate-free table denotes a map with one association per entry.
pub proof fn lemma_assoc_len<K>(entries: Seq<(K, usize)>)
    requires
        distinct_keys(entries),
    ensures
        assoc_map(entries).dom().finite(),
        assoc_map(entries).dom().len() == entries.len(),
    decreases entries.len(),
{
    if entries.len() == 0 {
        assert(assoc_map(entries).dom() =~= Set::<K>::empty());
    } else {
        let e2 = entries.drop_last();
        lemma_assoc_len(e2);
        lemma_assoc_entries(e2);
        let last = entries.last();
        assert(!assoc_map(e2).dom().contains(last.0)) by {
            if assoc_map(e2).dom().contains(last.0) {
                let j = choose|j: int| 0 <= j < e2.len() && (#[trigger] e2[j]).0 == last.0;
                assert(entries[j].0 == entries[entries.len() - 1].0);
            }
        }
        assert(assoc_map(entries).dom() =~= assoc_map(e2).dom().insert(last.0));
        vstd::set::axiom_set_insert_len(assoc_map(e2).dom(), last.0);
    }
}

/// No single count exceeds the table's total.
pub proof fn lemma_sum_ge_entry<K>(entries: Seq<(K, usize)>, j: int)
    requires
        0 <= j < entries.len(),
    ensures
        entries[j].1 <= sum_counts(entries),
    decreases entries.len(),
{
    if j < entries.len() - 1 {
        lemma_sum_ge_entry(entries.drop_last(), j);
    }
}

/// A table of strictly positive counts sums to at least its length.
pub proof fn lemma_sum_ge_len<K>(entries: Seq<(K, usize)>)
    requires
        counts_positive(entries),
    ensures
        entries.len() <= sum_counts(entries),
    decreases entries.len(),
{
    if entries.len() > 0 {
        lemma_sum_ge_len(entries.drop_last());
    }
}

/// Replacing the count at one entry replaces one association of the
/// denoted map and adjusts the total accordingly.
pub proof fn lemma_assoc_update<K>(entries: Seq<(K, usize)>, j: int, c: usize)
    requires
        distinct_keys(entries),
        0 <= j < entries.len(),
    ensures
        distinct_keys(entries.update(j, (entries[j].0, c))),
        assoc_map(entries.update(j, (entries[j].0, c))) == assoc_map(entries).insert(
            entries[j].0,
            c as nat,
        ),
        sum_counts(entries.update(j, (entries[j].0, c))) + entries[j].1 == sum_counts(entries) + c,
    decreases entries.len(),
{
    let updated = entries.update(j, (entries[j].0, c));
    let e2 = entries.drop_last();
    if j == entries.len() - 1 {
        assert(updated.drop_last() =~= e2);
        assert(assoc_map(e2).insert(entries[j].0, entries[j].1 as nat).insert(entries[j].0, c as nat)
            =~= assoc_map(e2).insert(entries[j].0, c as nat));
    } else {
        lemma_assoc_update(e2, j, c);
        assert(updated.drop_last() =~= e2.update(j, (e2[j].0, c)));
        assert(updated.last() == entries.last());
        let k = entries[j].0;
        let lastk = entries.last().0;
        let lastv = entries.last().1;
        assert(k != lastk);
        assert(assoc_map(e2).insert(k, c as nat).insert(lastk, lastv as nat) =~= assoc_map(
            e2,
        ).insert(lastk, lastv as nat).insert(k, c as nat));
    }
}

/// Appending a fresh entry extends the denoted map and the total.
pub proof fn lemma_assoc_push<K>(entries: Seq<(K, usize)>, p: (K, usize))
    ensures
        assoc_map(entries.push(p)) == assoc_map(entries).insert(p.0, p.1 as nat),
        sum_counts(entries.push(p)) == sum_counts(entries) + p.1,
{
    assert(entries.push(p).drop_last() =~= entries);
}

// ------------------------------------------------------------------
// The abstract state of a collector
// ------------------------------------------------------------------

/// The abstract state of a frequency collector: one marginal count table
/// per tuple position, the total number of observations at each position,
/// the joint count table, and the total number of observations.
#[verifier::ext_equal]
pub ghost struct CollectorModel {
    pub arity: nat,
    pub event_freqs: Seq<Map<usize, nat>>,
    pub event_sums: Seq<nat>,
    pub joint_freqs: Map<Seq<usize>, nat>,
    pub joint_sum: nat,
}

/// A collector that has observed nothing.
pub open spec fn empty_model(arity: nat) -> CollectorModel {
    CollectorModel {
        arity,
        event_freqs: Seq::new(arity, |i: int| Map::empty()),
        event_sums: Seq::new(arity, |i: int| 0nat),
        joint_freqs: Map::empty(),
        joint_sum: 0,
    }
}

/// The state `m` with one observation of the tuple `t` added: each
/// position's count for its symbol rises by one, as do all totals and the
/// tuple's joint count.
pub open spec fn step_model(m: CollectorModel, t: Seq<usize>) -> CollectorModel {
    CollectorModel {
        arity: m.arity,
        event_freqs: Seq::new(
            m.arity,
            |i: int| m.event_freqs[i].insert(t[i], count_in(m.event_freqs[i], t[i]) + 1),
        ),
        event_sums: Seq::new(m.arity, |i: int| m.event_sums[i] + 1),
        joint_freqs: m.joint_freqs.insert(t, count_in(m.joint_freqs, t) + 1),
        joint_sum: m.joint_sum + 1,
    }
}

/// The state after observing every tuple of `h` in order, starting empty.
pub open spec fn run_model(arity: nat, h: Seq<Seq<usize>>) -> CollectorModel
    decreases h.len(),
{
    if h.len() == 0 {
        empty_model(arity)
    } else {
        step_model(run_model(arity, h.drop_last()), h.last())
    }
}

/// How often symbol `s` occurs at position `i` among the tuples of `h`.
pub open spec fn marginal_count(h: Seq<Seq<usize>>, i: int, s: usize) -> nat
    decreases h.len(),
{
    if h.len() == 0 {
        0
    } else {
        marginal_count(h.drop_last(), i, s) + if h.last()[i] == s {
            1nat
        } else {
            0nat
        }
    }
}

/// How often the tuple `t` occurs in `h`.
pub open spec fn joint_count(h: Seq<Seq<usize>>, t: Seq<usize>) -> nat
    decreases h.len(),
{
    if h.len() == 0 {
        0
    } else {
        joint_count(h.drop_last(), t) + if h.last() == t {
            1nat
        } else {
            0nat
        }
    }
}

/// Counting never lowers a count: one observation raises the observed
/// tuple's counts by one, leaves every other count in place, and raises
/// every total by one.
pub proof fn lemma_step_monotone(m: CollectorModel, t: Seq<usize>)
    ensures
        step_model(m, t).arity == m.arity,
        step_model(m, t).joint_sum == m.joint_sum + 1,
        forall|i: int|
            0 <= i < m.arity ==> #[trigger] step_model(m, t).event_sums[i] == m.event_sums[i] + 1,
        forall|i: int, s: usize|
            0 <= i < m.arity ==> #[trigger] count_in(step_model(m, t).event_freqs[i], s)
                == count_in(m.event_freqs[i], s) + if t[i] == s {
                    1nat
                } else {
                    0nat
                },
        forall|u: Seq<usize>|
            #[trigger] count_in(step_model(m, t).joint_freqs, u) == count_in(m.joint_freqs, u)
                + if u == t {
                    1nat
                } else {
                    0nat
                },
{
    assert forall|i: int, s: usize| 0 <= i < m.arity implies #[trigger] count_in(
        step_model(m, t).event_freqs[i],
        s,
    ) == count_in(m.event_freqs[i], s) + if t[i] == s {
        1nat
    } else {
        0nat
    } by {
        assert(step_model(m, t).event_freqs[i] == m.event_freqs[i].insert(
            t[i],
            count_in(m.event_freqs[i], t[i]) + 1,
        ));
    }
}

/// Marginal and joint consistency: after any sequence of observations,
/// every marginal count equals the number of observed tuples carrying that
/// symbol at that position, every positional total and the joint total
/// equal the number of observations, and every joint count equals the
/// number of times its tuple was observed.
pub proof fn lemma_run_consistency(arity: nat, h: Seq<Seq<usize>>)
    ensures
        run_model(arity, h).arity == arity,
        run_model(arity, h).event_freqs.len() == arity,
        run_model(arity, h).event_sums.len() == arity,
        run_model(arity, h).joint_sum == h.len(),
        forall|i: int| 0 <= i < arity ==> run_model(arity, h).event_sums[i] == h.len(),
        forall|i: int, s: usize|
            0 <= i < arity ==> #[trigger] count_in(run_model(arity, h).event_freqs[i], s)
                == marginal_count(h, i, s),
        forall|t: Seq<usize>|
            count_in(run_model(arity, h).joint_freqs, t) == #[trigger] joint_count(h, t),
    decreases h.len(),
{
    if h.len() > 0 {
        let h2 = h.drop_last();
        lemma_run_consistency(arity, h2);
        let prev = run_model(arity, h2);
        let cur = run_model(arity, h);
        let t = h.last();
        assert forall|i: int, s: usize| 0 <= i < arity implies #[trigger] count_in(
            cur.event_freqs[i],
            s,
        ) == marginal_count(h, i, s) by {
            assert(cur.event_freqs[i] == prev.event_freqs[i].insert(
                t[i],
                count_in(prev.event_freqs[i], t[i]) + 1,
            ));
            assert(count_in(prev.event_freqs[i], s) == marginal_count(h2, i, s));
        }
        assert forall|u: Seq<usize>| true implies count_in(cur.joint_freqs, u)
            == #[trigger] joint_count(h, u) by {
            assert(count_in(prev.joint_freqs, u) == joint_count(h2, u));
        }
    }
}

// ------------------------------------------------------------------
// The executable collector
// ------------------------------------------------------------------

/// The joint table's entries with keys taken as abstract sequences.
pub open spec fn tuple_entries(entries: Seq<(Vec<usize>, usize)>) -> Seq<(Seq<usize>, usize)> {
    entries.map(|_j: int, e: (Vec<usize>, usize)| (e.0@, e.1))
}

/// Whether two tuples hold the same symbols in the same order.
fn tuples_equal(a: &Vec<usize>, b: &Vec<usize>) -> (r: bool)
    ensures
        r == (a@ == b@),
{
    let n: usize = a.len();
    if n != b.len() {
        return false;
    }
    let mut j: usize = 0;
    while j < n
        invariant
            j <= n,
            n == a@.len(),
            n == b@.len(),
            forall|p: int| 0 <= p < j ==> a@[p] == b@[p],
        decreases n - j,
    {
        if a[j] != b[j] {
            return false;
        }
        j += 1;
    }
    proof {
        assert(a@ =~= b@);
    }
    true
}

/// A fresh tuple holding the same symbols.
fn copy_tuple(t: &Vec<usize>) -> (r: Vec<usize>)
    ensures
        r@ == t@,
{
    let n: usize = t.len();
    let mut r: Vec<usize> = Vec::new();
    let mut j: usize = 0;
    while j < n
        invariant
            j <= n,
            n == t@.len(),
            r@.len() == j,
            forall|p: int| 0 <= p < j ==> r@[p] == t@[p],
        decreases n - j,
    {
        r.push(t[j]);
        j += 1;
    }
    proof {
        assert(r@ =~= t@);
    }
    r
}

/// Raise `key`'s count by one, entering it at one on first sight.
fn bump_count(entries: &mut Vec<(usize, usize)>, key: usize)
    requires
        distinct_keys(old(entries)@),
        counts_positive(old(entries)@),
        sum_counts(old(entries)@) < usize::MAX as nat,
    ensures
        distinct_keys(final(entries)@),
        counts_positive(final(entries)@),
        sum_counts(final(entries)@) == sum_counts(old(entries)@) + 1,
        assoc_map(final(entries)@) == assoc_map(old(entries)@).insert(
            key,
            count_in(assoc_map(old(entries)@), key) + 1,
        ),
{
    let n: usize = entries.len();
    let mut j: usize = 0;
    while j < n
        invariant
            j <= n,
            n == entries@.len(),
            entries@ == old(entries)@,
            distinct_keys(entries@),
            counts_positive(entries@),
            sum_counts(entries@) < usize::MAX as nat,
            forall|p: int| 0 <= p < j ==> (#[trigger] entries@[p]).0 != key,
        decreases n - j,
    {
        if entries[j].0 == key {
            let c: usize = entries[j].1;
            proof {
                lemma_sum_ge_entry(entries@, j as int);
                lemma_assoc_entries(entries@);
                lemma_assoc_update(entries@, j as int, (c + 1) as usize);
            }
            entries[j] = (key, c + 1);
            proof {
                assert(entries@ == old(entries)@.update(j as int, (key, (c + 1) as usize)));
                assert(count_in(assoc_map(old(entries)@), key) == c);
                assert forall|p: int| 0 <= p < entries@.len() implies 1 <= (
                #[trigger] entries@[p]).1 by {
                    if p != j {
                        assert(entries@[p] == old(entries)@[p]);
                    }
                }
            }
            return;
        }
        j += 1;
    }
    proof {
        lemma_assoc_entries(entries@);
        assert(!assoc_map(entries@).dom().contains(key));
        lemma_assoc_push(entries@, (key, 1));
    }
    entries.push((key, 1));
    proof {
        assert forall|j1: int, j2: int| 0 <= j1 < j2 < entries@.len() implies (
        #[trigger] entries@[j1]).0 != (#[trigger] entries@[j2]).0 by {
            if j2 < entries@.len() - 1 {
                assert(old(entries)@[j1] == entries@[j1]);
                assert(old(entries)@[j2] == entries@[j2]);
            } else {
                assert(old(entries)@[j1] == entries@[j1]);
            }
        }
        assert forall|p: int| 0 <= p < entries@.len() implies 1 <= (#[trigger] entries@[p]).1 by {
            if p < entries@.len() - 1 {
                assert(old(entries)@[p] == entries@[p]);
            }
        }
    }
}

/// Raise the joint count of `key` by one, entering it at one on first
/// sight.
fn bump_joint(entries: &mut Vec<(Vec<usize>, usize)>, key: &Vec<usize>)
    requires
        distinct_keys(tuple_entries(old(entries)@)),
        counts_positive(tuple_entries(old(entries)@)),
        sum_counts(tuple_entries(old(entries)@)) < usize::MAX as nat,
    ensures
        distinct_keys(tuple_entries(final(entries)@)),
        counts_positive(tuple_entries(final(entries)@)),
        sum_counts(tuple_entries(final(entries)@)) == sum_counts(tuple_entries(old(entries)@)) + 1,
        assoc_map(tuple_entries(final(entries)@)) == assoc_map(
            tuple_entries(old(entries)@),
        ).insert(key@, count_in(assoc_map(tuple_entries(old(entries)@)), key@) + 1),
        old(entries)@.len() <= final(entries)@.len() <= old(entries)@.len() + 1,
        forall|p: int|
            0 <= p < final(entries)@.len() ==> (#[trigger] tuple_entries(final(entries)@)[p]).0
                == (if p < old(entries)@.len() {
                    tuple_entries(old(entries)@)[p].0
                } else {
                    key@
                }),
{
    let ghost olds = tuple_entries(old(entries)@);
    let n: usize = entries.len();
    let mut j: usize = 0;
    while j < n
        invariant
            j <= n,
            n == entries@.len(),
            entries@ == old(entries)@,
            olds == tuple_entries(old(entries)@),
            distinct_keys(olds),
            counts_positive(olds),
            sum_counts(olds) < usize::MAX as nat,
            forall|p: int| 0 <= p < j ==> (#[trigger] olds[p]).0 != key@,
        decreases n - j,
    {
        if tuples_equal(&entries[j].0, key) {
            let c: usize = entries[j].1;
            proof {
                assert(olds[j as int] == (entries@[j as int].0@, entries@[j as int].1));
                assert(olds[j as int].0 == key@);
                assert(olds[j as int].1 == c);
                lemma_sum_ge_entry(olds, j as int);
                lemma_assoc_entries(olds);
                lemma_assoc_update(olds, j as int, (c + 1) as usize);
            }
            let fresh = copy_tuple(key);
            entries[j] = (fresh, c + 1);
            proof {
                assert(tuple_entries(entries@) =~= olds.update(j as int, (key@, (c + 1) as usize)));
                assert(count_in(assoc_map(olds), key@) == c);
                assert forall|p: int| 0 <= p < entries@.len() implies 1 <= (
                #[trigger] tuple_entries(entries@)[p]).1 by {
                    if p != j {
                        assert(tuple_entries(entries@)[p] == olds[p]);
                    }
                }
            }
            return;
        }
        proof {
            assert(olds[j as int].0 == entries@[j as int].0@);
        }
        j += 1;
    }
    proof {
        lemma_assoc_entries(olds);
        assert(!assoc_map(olds).dom().contains(key@));
        lemma_assoc_push(olds, (key@, 1));
    }
    let fresh = copy_tuple(key);
    entries.push((fresh, 1));
    proof {
        assert(tuple_entries(entries@) =~= olds.push((key@, 1usize)));
        assert forall|j1: int, j2: int|
            0 <= j1 < j2 < tuple_entries(entries@).len() implies (
        #[trigger] tuple_entries(entries@)[j1]).0 != (#[trigger] tuple_entries(entries@)[j2]).0 by {
            if j2 < olds.len() {
                assert(tuple_entries(entries@)[j1] == olds[j1]);
                assert(tuple_entries(entries@)[j2] == olds[j2]);
            } else {
                assert(tuple_entries(entries@)[j1] == olds[j1]);
                assert(tuple_entries(entries@)[j2] == (key@, 1usize));
            }
        }
        assert forall|p: int| 0 <= p < tuple_entries(entries@).len() implies 1 <= (
        #[trigger] tuple_entries(entries@)[p]).1 by {
            if p < olds.len() {
                assert(tuple_entries(entries@)[p] == olds[p]);
            }
        }
    }
}

/// A frequency collector for fixed-arity tuples of interned symbols.
///
/// It keeps one marginal count table per tuple position, the total number
/// of observations at each position, a joint count table over whole
/// tuples, and the total number of observations.
pub struct TupleCollector {
    arity: usize,
    event_freqs: Vec<Vec<(usize, usize)>>,
    event_sums: Vec<usize>,
    joint_freqs: Vec<(Vec<usize>, usize)>,
    joint_sum: usize,
}

impl View for TupleCollector {
    type V = CollectorModel;

    closed spec fn view(&self) -> CollectorModel {
        CollectorModel {
            arity: self.arity as nat,
            event_freqs: Seq::new(
                self.arity as nat,
                |i: int| assoc_map(self.event_freqs@[i]@),
            ),
            event_sums: self.event_sums@.map(|_i: int, v: usize| v as nat),
            joint_freqs: assoc_map(self.joint_entries()),
            joint_sum: self.joint_sum as nat,
        }
    }
}

impl TupleCollector {
    /// The joint table as the sequence of its entries, in insertion order.
    pub closed spec fn joint_entries(&self) -> Seq<(Seq<usize>, usize)> {
        tuple_entries(self.joint_freqs@)
    }

    /// The collector's internal consistency: tables are duplicate-free,
    /// every stored count is positive, each positional total equals both
    /// its table's sum and the number of observations, every joint key has
    /// the collector's arity, and the joint table sums to at most the
    /// number of observations (less after pruning).
    pub closed spec fn wf(&self) -> bool {
        &&& self.event_freqs@.len() == self.arity
        &&& self.event_sums@.len() == self.arity
        &&& forall|i: int|
            0 <= i < self.arity ==> distinct_keys((#[trigger] self.event_freqs@[i])@)
        &&& forall|i: int|
            0 <= i < self.arity ==> counts_positive((#[trigger] self.event_freqs@[i])@)
        &&& forall|i: int|
            0 <= i < self.arity ==> sum_counts((#[trigger] self.event_freqs@[i])@)
                == self.event_sums@[i]
        &&& forall|i: int| 0 <= i < self.arity ==> (#[trigger] self.event_sums@[i]) == self.joint_sum
        &&& distinct_keys(self.joint_entries())
        &&& counts_positive(self.joint_entries())
        &&& forall|j: int|
            0 <= j < self.joint_entries().len() ==> (#[trigger] self.joint_entries()[j]).0.len()
                == self.arity
        &&& sum_counts(self.joint_entries()) <= self.joint_sum
    }

    /// An empty collector for tuples of length `arity`.
    pub fn new(arity: usize) -> (c: TupleCollector)
        ensures
            c.wf(),
            c@ == empty_model(arity as nat),
    {
        let mut event_freqs: Vec<Vec<(usize, usize)>> = Vec::new();
        let mut event_sums: Vec<usize> = Vec::new();
        let mut i: usize = 0;
        while i < arity
            invariant
                i <= arity,
                event_freqs@.len() == i,
                event_sums@.len() == i,
                forall|p: int| 0 <= p < i ==> (#[trigger] event_freqs@[p])@.len() == 0,
                forall|p: int| 0 <= p < i ==> (#[trigger] event_sums@[p]) == 0,
            decreases arity - i,
        {
            event_freqs.push(Vec::new());
            event_sums.push(0);
            i += 1;
        }
        let c = TupleCollector {
            arity,
            event_freqs,
            event_sums,
            joint_freqs: Vec::new(),
            joint_sum: 0,
        };
        proof {
            let e = empty_model(arity as nat);
            assert(c.joint_entries().len() == 0);
            assert forall|p: int| 0 <= p < arity implies #[trigger] c@.event_freqs[p]
                == e.event_freqs[p] by {
                assert(c.event_freqs@[p]@.len() == 0);
                assert(assoc_map(c.event_freqs@[p]@) =~= Map::<usize, nat>::empty());
            }
            assert(c@.event_freqs =~= e.event_freqs);
            assert(c@.event_sums =~= e.event_sums);
            assert(c@.joint_freqs =~= e.joint_freqs);
            assert(c@ =~= e);
        }
        c
    }

    /// Record one observation of `tuple`, which must have the collector's
    /// arity: every positional count of its symbols, every positional
    /// total, its joint count and the joint total each rise by one.
    pub fn count_tuple(&mut self, tuple: Vec<usize>)
        requires
            old(self).wf(),
            tuple@.len() == old(self)@.arity,
            old(self)@.joint_sum < usize::MAX as nat,
        ensures
            final(self).wf(),
            final(self)@ == step_model(old(self)@, tuple@),
    {
        let arity = self.arity;
        let mut i: usize = 0;
        while i < arity
            invariant
                i <= arity,
                arity == self.arity,
                self.arity == old(self).arity,
                tuple@.len() == arity,
                self.joint_freqs@ == old(self).joint_freqs@,
                self.joint_sum == old(self).joint_sum,
                old(self).wf(),
                old(self)@.joint_sum < usize::MAX as nat,
                self.event_freqs@.len() == arity,
                self.event_sums@.len() == arity,
                forall|p: int|
                    i <= p < arity ==> #[trigger] self.event_freqs@[p]
                        == old(self).event_freqs@[p],
                forall|p: int|
                    i <= p < arity ==> #[trigger] self.event_sums@[p] == old(
                        self,
                    ).event_sums@[p],
                forall|p: int|
                    0 <= p < i ==> distinct_keys((#[trigger] self.event_freqs@[p])@)
                        && counts_positive(self.event_freqs@[p]@) && sum_counts(
                        self.event_freqs@[p]@,
                    ) == sum_counts(old(self).event_freqs@[p]@) + 1 && assoc_map(
                        self.event_freqs@[p]@,
                    ) == assoc_map(old(self).event_freqs@[p]@).insert(
                        tuple@[p],
                        count_in(assoc_map(old(self).event_freqs@[p]@), tuple@[p]) + 1,
                    ),
                forall|p: int|
                    0 <= p < i ==> #[trigger] self.event_sums@[p] == old(self).event_sums@[p]
                        + 1,
            decreases arity - i,
        {
            let s: usize = tuple[i];
            proof {
                assert(old(self).event_sums@[i as int] == old(self).joint_sum);
                assert(sum_counts(old(self).event_freqs@[i as int]@) == old(
                    self,
                ).event_sums@[i as int]);
            }
            bump_count(&mut self.event_freqs[i], s);
            let prev: usize = self.event_sums[i];
            self.event_sums[i] = prev + 1;
            i += 1;
        }
        proof {
            assert(sum_counts(self.joint_entries()) <= old(self)@.joint_sum);
        }
        bump_joint(&mut self.joint_freqs, &tuple);
        self.joint_sum = self.joint_sum + 1;
        proof {
            let m0 = old(self)@;
            let m1 = self@;
            let st = step_model(m0, tuple@);
            assert forall|p: int| 0 <= p < arity implies #[trigger] m1.event_freqs[p]
                == st.event_freqs[p] by {
                assert(m1.event_freqs[p] == assoc_map(self.event_freqs@[p]@));
                assert(m0.event_freqs[p] == assoc_map(old(self).event_freqs@[p]@));
            }
            assert(m1.event_freqs =~= st.event_freqs);
            assert(m1.event_sums =~= st.event_sums);
            assert(m1.joint_freqs == st.joint_freqs);
            assert(m1 =~= st);
            // well-formedness of the new state
            assert forall|p: int| 0 <= p < arity implies #[trigger] self.event_sums@[p]
                == self.joint_sum by {}
            assert forall|j: int| 0 <= j < self.joint_entries().len() implies (
            #[trigger] self.joint_entries()[j]).0.len() == self.arity by {
                if j < old(self).joint_entries().len() {
                    assert(self.joint_entries()[j].0 == old(self).joint_entries()[j].0);
                }
            }
        }
    }

    /// Remove every joint entry whose count is strictly below
    /// `min_joint_freq`. The marginal tables, the positional totals and
    /// the joint total keep reflecting the whole corpus: only joint
    /// entries disappear.
    pub fn prune(&mut self, min_joint_freq: usize)
        requires
            old(self).wf(),
        ensures
            final(self).wf(),
            final(self)@.arity == old(self)@.arity,
            final(self)@.event_freqs == old(self)@.event_freqs,
            final(self)@.event_sums == old(self)@.event_sums,
            final(self)@.joint_sum == old(self)@.joint_sum,
            forall|t: Seq<usize>|
                #[trigger] final(self)@.joint_freqs.dom().contains(t)
                    <==> (old(self)@.joint_freqs.dom().contains(t)
                        && old(self)@.joint_freqs[t] >= min_joint_freq as nat),
            forall|t: Seq<usize>|
                final(self)@.joint_freqs.dom().contains(t)
                    ==> #[trigger] final(self)@.joint_freqs[t] == old(self)@.joint_freqs[t],
    {
        let ghost alle = self.joint_entries();
        let n: usize = self.joint_freqs.len();
        let mut kept: Vec<(Vec<usize>, usize)> = Vec::new();
        let mut j: usize = 0;
        proof {
            lemma_assoc_entries(alle);
        }
        while j < n
            invariant
                j <= n,
                n == self.joint_freqs@.len(),
                *self == *old(self),
                alle == self.joint_entries(),
                self.wf(),
                distinct_keys(tuple_entries(kept@)),
                counts_positive(tuple_entries(kept@)),
                sum_counts(tuple_entries(kept@)) <= sum_counts(alle.take(j as int)),
                forall|p: int|
                    0 <= p < kept@.len() ==> (#[trigger] tuple_entries(kept@)[p]).0.len()
                        == self.arity,
                forall|t: Seq<usize>|
                    #[trigger] assoc_map(tuple_entries(kept@)).dom().contains(t)
                        <==> (assoc_map(alle.take(j as int)).dom().contains(t)
                            && assoc_map(alle.take(j as int))[t] >= min_joint_freq as nat),
                forall|t: Seq<usize>|
                    assoc_map(tuple_entries(kept@)).dom().contains(t)
                        ==> #[trigger] assoc_map(tuple_entries(kept@))[t] == assoc_map(
                        alle.take(j as int),
                    )[t],
            decreases n - j,
        {
            let ghost pre = alle.take(j as int);
            let ghost post = alle.take(j as int + 1);
            let ghost keptpre = tuple_entries(kept@);
            proof {
                assert(post.drop_last() =~= pre);
                assert(post.last() == alle[j as int]);
                assert(assoc_map(post) == assoc_map(pre).insert(
                    alle[j as int].0,
                    alle[j as int].1 as nat,
                ));
                assert(distinct_keys(pre));
                lemma_assoc_entries(pre);
                assert(!assoc_map(pre).dom().contains(alle[j as int].0)) by {
                    if assoc_map(pre).dom().contains(alle[j as int].0) {
                        let q = choose|q: int|
                            0 <= q < pre.len() && (#[trigger] pre[q]).0 == alle[j as int].0;
                        assert(alle[q].0 == alle[j as int].0);
                    }
                }
                assert(sum_counts(post) == sum_counts(pre) + alle[j as int].1);
            }
            let c: usize = self.joint_freqs[j].1;
            proof {
                assert(alle[j as int] == (self.joint_freqs@[j as int].0@, c));
            }
            if c >= min_joint_freq {
                let key = copy_tuple(&self.joint_freqs[j].0);
                kept.push((key, c));
                proof {
                    assert(tuple_entries(kept@) =~= keptpre.push((alle[j as int].0, c)));
                    lemma_assoc_push(keptpre, (alle[j as int].0, c));
                    lemma_assoc_entries(keptpre);
                    assert(!assoc_map(keptpre).dom().contains(alle[j as int].0)) by {
                        if assoc_map(keptpre).dom().contains(alle[j as int].0) {
                            assert(assoc_map(pre).dom().contains(alle[j as int].0));
                        }
                    }
                    assert forall|j1: int, j2: int|
                        0 <= j1 < j2 < tuple_entries(kept@).len() implies (
                    #[trigger] tuple_entries(kept@)[j1]).0 != (
                    #[trigger] tuple_entries(kept@)[j2]).0 by {
                        if j2 < keptpre.len() {
                            assert(tuple_entries(kept@)[j1] == keptpre[j1]);
                            assert(tuple_entries(kept@)[j2] == keptpre[j2]);
                        } else {
                            assert(tuple_entries(kept@)[j1] == keptpre[j1]);
                            lemma_assoc_entries(keptpre);
                            assert(assoc_map(keptpre).dom().contains(keptpre[j1].0));
                        }
                    }
                    assert forall|p: int|
                        0 <= p < tuple_entries(kept@).len() implies 1 <= (
                    #[trigger] tuple_entries(kept@)[p]).1 && tuple_entries(kept@)[p].0.len()
                        == self.arity by {
                        if p < keptpre.len() {
                            assert(tuple_entries(kept@)[p] == keptpre[p]);
                        } else {
                            assert(tuple_entries(kept@)[p] == (alle[j as int].0, c));
                            assert(1 <= alle[j as int].1);
                        }
                    }
                }
            } else {
                proof {
                    assert forall|t: Seq<usize>|
                        #[trigger] assoc_map(tuple_entries(kept@)).dom().contains(t)
                            <==> (assoc_map(post).dom().contains(t) && assoc_map(post)[t]
                                >= min_joint_freq as nat) by {
                        if t == alle[j as int].0 {
                            assert(assoc_map(post)[t] == alle[j as int].1 as nat);
                            assert(alle[j as int].1 < min_joint_freq);
                            if assoc_map(tuple_entries(kept@)).dom().contains(t) {
                                assert(assoc_map(pre).dom().contains(t));
                            }
                        }
                    }
                }
            }
            j += 1;
        }
        proof {
            assert(alle.take(n as int) =~= alle);
        }
        self.joint_freqs = kept;
        proof {
            assert(self@.event_freqs =~= old(self)@.event_freqs);
            assert(self@.event_sums == old(self)@.event_sums);
        }
    }

    /// Record one observation given by reference; the tuple must have the
    /// collector's arity.
    pub fn count(&mut self, tuple: &Vec<usize>)
        requires
            old(self).wf(),
            tuple@.len() == old(self)@.arity,
            old(self)@.joint_sum < usize::MAX as nat,
        ensures
            final(self).wf(),
            final(self)@ == step_model(old(self)@, tuple@),
    {
        let t = copy_tuple(tuple);
        self.count_tuple(t);
    }

    /// The fixed tuple length this collector was created with.
    pub fn arity(&self) -> (r: usize)
        ensures
            r as nat == self@.arity,
    {
        self.arity
    }

    /// The total number of observations.
    pub fn joint_sum(&self) -> (r: usize)
        ensures
            r as nat == self@.joint_sum,
    {
        self.joint_sum
    }

    /// The total number of observations at position `i`.
    pub fn event_sum(&self, i: usize) -> (r: usize)
        requires
            self.wf(),
            i < self@.arity,
        ensures
            r as nat == self@.event_sums[i as int],
    {
        self.event_sums[i]
    }

    /// How many distinct symbols have been seen at position `i`.
    pub fn event_distinct(&self, i: usize) -> (r: usize)
        requires
            self.wf(),
            i < self@.arity,
        ensures
            r as nat == self@.event_freqs[i as int].dom().len(),
    {
        proof {
            lemma_assoc_len(self.event_freqs@[i as int]@);
        }
        self.event_freqs[i].len()
    }

    /// How many distinct tuples the joint table currently holds.
    pub fn joint_distinct(&self) -> (r: usize)
        requires
            self.wf(),
        ensures
            r as nat == self@.joint_freqs.dom().len(),
    {
        proof {
            lemma_assoc_len(self.joint_entries());
        }
        self.joint_freqs.len()
    }

    /// How often symbol `s` has been seen at position `i`; zero if never.
    pub fn event_freq(&self, i: usize, s: usize) -> (r: usize)
        requires
            self.wf(),
            i < self@.arity,
        ensures
            r as nat == count_in(self@.event_freqs[i as int], s),
    {
        let entries = &self.event_freqs[i];
        let n: usize = entries.len();
        let mut j: usize = 0;
        while j < n
            invariant
                j <= n,
                n == entries@.len(),
                self.wf(),
                i < self@.arity,
                distinct_keys(entries@),
                entries@ == self.event_freqs@[i as int]@,
                forall|p: int| 0 <= p < j ==> (#[trigger] entries@[p]).0 != s,
            decreases n - j,
        {
            if entries[j].0 == s {
                proof {
                    lemma_assoc_entries(entries@);
                    assert(entries@[j as int].0 == s);
                    assert(assoc_map(entries@).dom().contains(s));
                    assert(count_in(assoc_map(entries@), s) == entries@[j as int].1 as nat);
                    assert(self@.event_freqs[i as int] == assoc_map(entries@));
                }
                return entries[j].1;
            }
            j += 1;
        }
        proof {
            lemma_assoc_entries(entries@);
            assert(!assoc_map(entries@).dom().contains(s));
        }
        0
    }

    /// How often `tuple` has been observed; zero if never, or if its
    /// entry was pruned away.
    pub fn joint_freq(&self, tuple: &Vec<usize>) -> (r: usize)
        requires
            self.wf(),
        ensures
            r as nat == count_in(self@.joint_freqs, tuple@),
    {
        let ghost alle = self.joint_entries();
        let n: usize = self.joint_freqs.len();
        let mut j: usize = 0;
        while j < n
            invariant
                j <= n,
                n == self.joint_freqs@.len(),
                alle == self.joint_entries(),
                distinct_keys(alle),
                forall|p: int| 0 <= p < j ==> (#[trigger] alle[p]).0 != tuple@,
            decreases n - j,
        {
            if tuples_equal(&self.joint_freqs[j].0, tuple) {
                proof {
                    lemma_assoc_entries(alle);
                    assert(alle[j as int].0 == tuple@);
                    assert(assoc_map(alle)[tuple@] == alle[j as int].1 as nat);
                }
                return self.joint_freqs[j].1;
            }
            proof {
                assert(alle[j as int].0 == self.joint_freqs@[j as int].0@);
            }
            j += 1;
        }
        proof {
            lemma_assoc_entries(alle);
            assert(!assoc_map(alle).dom().contains(tuple@));
        }
        0
    }

    /// Score every distinct tuple the joint table still holds: for each,
    /// its tuple, its joint frequency, and the score parts the given
    /// measure derives for it. Each tuple appears exactly once; the order
    /// is the joint table's and carries no meaning.
    pub fn iter<M: MutualInformation>(&self, measure: &M) -> (r: Vec<(Vec<usize>, usize, ScoreParts)>)
        requires
            self.wf(),
            self@.joint_sum < sum_limit(),
        ensures
            r@.len() == self@.joint_freqs.dom().len(),
            r@.len() == self.joint_entries().len(),
            forall|j: int|
                0 <= j < r@.len() ==> ((#[trigger] r@[j]).0@, r@[j].1) == self.joint_entries()[j],
            forall|j: int|
                0 <= j < r@.len() ==> {
                    &&& self@.joint_freqs.dom().contains((#[trigger] r@[j]).0@)
                    &&& r@[j].1 as nat == self@.joint_freqs[r@[j].0@]
                    &&& r@[j].0@.len() == self@.arity
                    &&& r@[j].2@ == measure.spec_score(r@[j].0@, self@)
                },
            forall|j1: int, j2: int| 0 <= j1 < j2 < r@.len() ==> (#[trigger] r@[j1]).0@ != (
            #[trigger] r@[j2]).0@,
            forall|t: Seq<usize>|
                #[trigger] self@.joint_freqs.dom().contains(t) ==> exists|j: int|
                    0 <= j < r@.len() && (#[trigger] r@[j]).0@ == t,
    {
        let ghost alle = self.joint_entries();
        proof {
            lemma_assoc_len(alle);
            lemma_assoc_entries(alle);
        }
        let n: usize = self.joint_freqs.len();
        let mut r: Vec<(Vec<usize>, usize, ScoreParts)> = Vec::new();
        let mut j: usize = 0;
        while j < n
            invariant
                j <= n,
                n == self.joint_freqs@.len(),
                self.wf(),
                self@.joint_sum < sum_limit(),
                alle == self.joint_entries(),
                r@.len() == j,
                forall|p: int|
                    0 <= p < j ==> ((#[trigger] r@[p]).0@, r@[p].1) == alle[p]
                        && r@[p].2@ == measure.spec_score(alle[p].0, self@),
            decreases n - j,
        {
            proof {
                lemma_assoc_entries(alle);
                assert(alle[j as int] == (self.joint_freqs@[j as int].0@, self.joint_freqs@[j as int].1));
            }
            let tuple = copy_tuple(&self.joint_freqs[j].0);
            let freq: usize = self.joint_freqs[j].1;
            let parts = measure.mutual_information(&tuple, self);
            r.push((tuple, freq, parts));
            j += 1;
        }
        proof {
            lemma_assoc_len(alle);
            lemma_assoc_entries(alle);
            assert forall|p: int| 0 <= p < r@.len() implies {
                &&& self@.joint_freqs.dom().contains((#[trigger] r@[p]).0@)
                &&& r@[p].1 as nat == self@.joint_freqs[r@[p].0@]
                &&& r@[p].0@.len() == self@.arity
            } by {
                assert((r@[p].0@, r@[p].1) == alle[p]);
                assert(assoc_map(alle).dom().contains(alle[p].0));
                assert(assoc_map(alle)[alle[p].0] == alle[p].1 as nat);
            }
            assert forall|t: Seq<usize>|
                #[trigger] self@.joint_freqs.dom().contains(t) implies exists|j2: int|
                0 <= j2 < r@.len() && (#[trigger] r@[j2]).0@ == t by {
                let q = choose|q: int| 0 <= q < alle.len() && (#[trigger] alle[q]).0 == t;
                assert(r@[q].0@ == t);
            }
        }
        r
    }

    /// Every quantity a measure reads is bounded by the number of
    /// observations, and every joint key has the collector's arity.
    pub proof fn lemma_bounds(&self)
        requires
            self.wf(),
        ensures
            self@.event_freqs.len() == self@.arity,
            self@.event_sums.len() == self@.arity,
            forall|i: int| 0 <= i < self@.arity ==> #[trigger] self@.event_sums[i] == self@.joint_sum,
            forall|i: int|
                0 <= i < self@.arity ==> (#[trigger] self@.event_freqs[i]).dom().finite()
                    && self@.event_freqs[i].dom().len() <= self@.joint_sum,
            forall|i: int, s: usize|
                0 <= i < self@.arity ==> #[trigger] count_in(self@.event_freqs[i], s)
                    <= self@.joint_sum,
            self@.joint_freqs.dom().finite(),
            self@.joint_freqs.dom().len() <= self@.joint_sum,
            forall|t: Seq<usize>| #[trigger] count_in(self@.joint_freqs, t) <= self@.joint_sum,
            forall|t: Seq<usize>|
                #[trigger] self@.joint_freqs.dom().contains(t) ==> t.len() == self@.arity
                    && 1 <= self@.joint_freqs[t],
    {
        assert forall|i: int|
            0 <= i < self@.arity implies (#[trigger] self@.event_freqs[i]).dom().finite()
            && self@.event_freqs[i].dom().len() <= self@.joint_sum by {
            let e = self.event_freqs@[i]@;
            lemma_assoc_len(e);
            lemma_sum_ge_len(e);
        }
        assert forall|i: int, s: usize| 0 <= i < self@.arity implies #[trigger] count_in(
            self@.event_freqs[i],
            s,
        ) <= self@.joint_sum by {
            let e = self.event_freqs@[i]@;
            lemma_assoc_entries(e);
            if assoc_map(e).dom().contains(s) {
                let q = choose|q: int| 0 <= q < e.len() && (#[trigger] e[q]).0 == s;
                lemma_sum_ge_entry(e, q);
            }
        }
        let alle = self.joint_entries();
        lemma_assoc_len(alle);
        lemma_sum_ge_len(alle);
        lemma_assoc_entries(alle);
        assert forall|t: Seq<usize>| #[trigger] count_in(self@.joint_freqs, t)
            <= self@.joint_sum by {
            if assoc_map(alle).dom().contains(t) {
                let q = choose|q: int| 0 <= q < alle.len() && (#[trigger] alle[q]).0 == t;
                lemma_sum_ge_entry(alle, q);
            }
        }
        assert forall|t: Seq<usize>| #[trigger] self@.joint_freqs.dom().contains(t) implies t.len()
            == self@.arity && 1 <= self@.joint_freqs[t] by {
            let q = choose|q: int| 0 <= q < alle.len() && (#[trigger] alle[q]).0 == t;
            assert(1 <= alle[q].1);
        }
    }
}

} // verus!
