//! The entry catalog: an ordered, uniquely-keyed store of decoded
//! scans.
//!
//! An entry is a sequence of samples keyed by `(label, sequence)`,
//! where the label names the source and the sequence is the zero-based
//! block position within it.  The catalog preserves insertion order
//! for listing and supports a combine operation that concatenates
//! several entries and sorts the result by (angle, range).
//!
//! The store itself is an insertion-order-preserving map from the
//! `indexmap` crate; the handful of calls into it stand behind trusted
//! wrappers whose contracts speak of [`map_entries`], the mathematical
//! contents of the map.

use vstd::prelude::*;
use vstd::relations::{sorted_by, total_ordering};
use vstd::seq_lib::{
    group_to_multiset_ensures, lemma_multiset_commutative, lemma_sorted_unique,
};
use indexmap::IndexMap;

verus! {

/// One polar sample: `(angle, range)`, both fixed-point millionths
/// (radians and meters).  A range of zero marks a "no return" sample.
pub type Sample = (i64, i64);

/// A catalog key: the source label and the block sequence number.
pub type EntryKey = (String, u32);

/// The mathematical image of a key.
pub open spec fn kview(k: EntryKey) -> (Seq<char>, u32) {
    (k.0@, k.1)
}

/// The mathematical images of a key list.
pub open spec fn kviews(ks: Seq<EntryKey>) -> Seq<(Seq<char>, u32)> {
    ks.map_values(|k: EntryKey| kview(k))
}

pub proof fn lemma_kviews_index(ks: Seq<EntryKey>, i: int)
    requires
        0 <= i < ks.len(),
    ensures
        kviews(ks).len() == ks.len(),
        kviews(ks)[i] == kview(ks[i]),
{
}

/// The declared shape of the outside map type this module stores its
/// entries in.
#[verifier::external_type_specification]
#[verifier::external_body]
#[verifier::reject_recursive_types(K)]
#[verifier::reject_recursive_types(V)]
#[verifier::reject_recursive_types(S)]
pub struct ExIndexMap<K, V, S>(IndexMap<K, V, S>);

/// What the map holds: its key/value pairs in insertion order.  The
/// trusted wrappers below say how each call changes or reads it.
pub uninterp spec fn map_entries(m: IndexMap<EntryKey, Vec<Sample>>) -> Seq<
    ((Seq<char>, u32), Seq<Sample>),
>;

/// Index of the first entry with key `k`, or `-1`.
pub open spec fn find_key(es: Seq<((Seq<char>, u32), Seq<Sample>)>, k: (Seq<char>, u32)) -> int
    decreases es.len(),
{
    if es.len() == 0 {
        -1
    } else if es[0].0 == k {
        0
    } else {
        let r = find_key(es.drop_first(), k);
        if r == -1 {
            -1
        } else {
            1 + r
        }
    }
}

/// Whether some entry has key `k`.
pub open spec fn has_key(es: Seq<((Seq<char>, u32), Seq<Sample>)>, k: (Seq<char>, u32)) -> bool {
    find_key(es, k) >= 0
}

pub proof fn lemma_find_key(es: Seq<((Seq<char>, u32), Seq<Sample>)>, k: (Seq<char>, u32))
    ensures
        -1 <= find_key(es, k) < es.len(),
        find_key(es, k) >= 0 ==> es[find_key(es, k)].0 == k,
        find_key(es, k) == -1 ==> forall|i: int| 0 <= i < es.len() ==> (#[trigger] es[i]).0 != k,
        find_key(es, k) >= 0 ==> forall|i: int|
            0 <= i < find_key(es, k) ==> (#[trigger] es[i]).0 != k,
    decreases es.len(),
{
    if es.len() > 0 && es[0].0 != k {
        lemma_find_key(es.drop_first(), k);
        assert forall|i: int| 1 <= i < es.len() implies es.drop_first()[i - 1] == es[i] by {}
    }
}

/// The entry list after storing `v` under `k`: an existing key keeps
/// its position and receives the new value, a new key is appended.
pub open spec fn spec_insert(
    es: Seq<((Seq<char>, u32), Seq<Sample>)>,
    k: (Seq<char>, u32),
    v: Seq<Sample>,
) -> Seq<((Seq<char>, u32), Seq<Sample>)> {
    let i = find_key(es, k);
    if i >= 0 {
        es.update(i, (k, v))
    } else {
        es.push((k, v))
    }
}

/// No two entries share a key.
pub open spec fn distinct_keys(es: Seq<((Seq<char>, u32), Seq<Sample>)>) -> bool {
    forall|i: int, j: int| 0 <= i < j < es.len() ==> (#[trigger] es[i]).0 != (#[trigger] es[j]).0
}

pub proof fn lemma_spec_insert_distinct(
    es: Seq<((Seq<char>, u32), Seq<Sample>)>,
    k: (Seq<char>, u32),
    v: Seq<Sample>,
)
    requires
        distinct_keys(es),
    ensures
        distinct_keys(spec_insert(es, k, v)),
{
    lemma_find_key(es, k);
    let f = find_key(es, k);
    if f >= 0 {
        let r = es.update(f, (k, v));
        assert forall|i: int, j: int| 0 <= i < j < r.len() implies r[i].0 != r[j].0 by {
            assert(es[i].0 != es[j].0);
        }
    } else {
        let r = es.push((k, v));
        assert forall|i: int, j: int| 0 <= i < j < r.len() implies r[i].0 != r[j].0 by {
            if j < es.len() {
                assert(es[i].0 != es[j].0);
            } else {
                assert(es[i].0 != k);
            }
        }
    }
}

/// Relies on `indexmap::IndexMap::new`: creates an empty map.
#[verifier::external_body]
fn imap_new() -> (m: IndexMap<EntryKey, Vec<Sample>>)
    ensures
        map_entries(m) == Seq::<((Seq<char>, u32), Seq<Sample>)>::empty(),
{
    IndexMap::new()
}

/// Relies on `indexmap::IndexMap::len`: the number of entries.
#[verifier::external_body]
fn imap_len(m: &IndexMap<EntryKey, Vec<Sample>>) -> (n: usize)
    ensures
        n == map_entries(*m).len(),
{
    m.len()
}

/// Relies on `indexmap::IndexMap::contains_key`: whether an entry with
/// an equal key exists.
#[verifier::external_body]
fn imap_contains(m: &IndexMap<EntryKey, Vec<Sample>>, k: &EntryKey) -> (r: bool)
    ensures
        r == has_key(map_entries(*m), kview(*k)),
{
    m.contains_key(k)
}

/// Relies on `indexmap::IndexMap::get`: the value stored under an
/// equal key, if any.
#[verifier::external_body]
fn imap_get<'a>(m: &'a IndexMap<EntryKey, Vec<Sample>>, k: &EntryKey) -> (r: Option<
    &'a Vec<Sample>,
>)
    ensures
        match r {
            Some(v) => has_key(map_entries(*m), kview(*k)) && v@ == map_entries(*m)[find_key(
                map_entries(*m),
                kview(*k),
            )].1,
            None => !has_key(map_entries(*m), kview(*k)),
        },
{
    m.get(k)
}

/// Relies on `indexmap::IndexMap::insert`: an existing key keeps its
/// place in the order and its value is replaced; a new key is
/// appended, last in order.
#[verifier::external_body]
fn imap_insert(m: &mut IndexMap<EntryKey, Vec<Sample>>, k: EntryKey, v: Vec<Sample>)
    ensures
        map_entries(*final(m)) == spec_insert(map_entries(*old(m)), kview(k), v@),
{
    m.insert(k, v);
}

/// Relies on `indexmap::IndexMap::get_index`: the pair at a position,
/// positions following insertion order.
#[verifier::external_body]
fn imap_get_index<'a>(m: &'a IndexMap<EntryKey, Vec<Sample>>, i: usize) -> (r: (
    &'a EntryKey,
    &'a Vec<Sample>,
))
    requires
        i < map_entries(*m).len(),
    ensures
        kview(*r.0) == map_entries(*m)[i as int].0,
        r.1@ == map_entries(*m)[i as int].1,
{
    let (k, v) = m.get_index(i).unwrap();
    (k, v)
}

/// An error of the catalog's combine operation.
#[derive(Debug)]
pub enum CatalogError {
    /// The target key already exists.
    DuplicateKey(String, u32),
    /// A source key was not found; carries that key.
    MissingSource(String, u32),
}

/// Ascending (angle, range) order on samples.
pub open spec fn sample_le(a: Sample, b: Sample) -> bool {
    a.0 < b.0 || (a.0 == b.0 && a.1 <= b.1)
}

/// The (angle, range) order as a relation value.
pub open spec fn sample_order() -> spec_fn(Sample, Sample) -> bool {
    |a: Sample, b: Sample| sample_le(a, b)
}

/// A sample sequence in ascending (angle, range) order.
pub open spec fn sorted_samples(s: Seq<Sample>) -> bool {
    sorted_by(s, sample_order())
}

pub proof fn lemma_sample_le_total()
    ensures
        total_ordering(sample_order()),
{
    let r = sample_order();
    assert forall|a: Sample| #[trigger] r(a, a) by {}
    assert forall|a: Sample, b: Sample| #[trigger] r(a, b) && #[trigger] r(b, a) implies a == b by {}
    assert forall|a: Sample, b: Sample, c: Sample|
        #[trigger] r(a, b) && #[trigger] r(b, c) implies r(a, c) by {}
    assert forall|a: Sample, b: Sample| #![trigger r(a, b)] r(a, b) || r(b, a) by {}
}

/// Executable (angle, range) comparison.
pub fn sample_le_exec(a: &Sample, b: &Sample) -> (r: bool)
    ensures
        r == sample_le(*a, *b),
{
    a.0 < b.0 || (a.0 == b.0 && a.1 <= b.1)
}

/// Sorts samples ascending by angle, ties by range, by insertion into
/// an output vector.  The result is the unique sorted arrangement of
/// the input's samples.
pub fn sort_samples(v: &Vec<Sample>) -> (r: Vec<Sample>)
    ensures
        sorted_samples(r@),
        r@.to_multiset() == v@.to_multiset(),
        r@.len() == v@.len(),
{
    broadcast use group_to_multiset_ensures;

    let mut r: Vec<Sample> = Vec::new();
    let mut k: usize = 0;
    proof {
        assert(v@.take(0) =~= Seq::<Sample>::empty());
        assert(r@.to_multiset() =~= v@.take(0).to_multiset());
    }
    while k < v.len()
        invariant
            0 <= k <= v@.len(),
            r@.len() == k,
            sorted_samples(r@),
            r@.to_multiset() == v@.take(k as int).to_multiset(),
        decreases v@.len() - k,
    {
        let x = v[k];
        // find the first element strictly greater than x
        let mut p: usize = 0;
        while p < r.len() && sample_le_exec(&r[p], &x)
            invariant
                0 <= p <= r@.len(),
                forall|q: int| 0 <= q < p ==> sample_le(#[trigger] r@[q], x),
            decreases r@.len() - p,
        {
            p = p + 1;
        }
        let ghost old_r = r@;
        proof {
            let leq = sample_order();
            let after = old_r.insert(p as int, x);
            // the loop above stopped at the first element above x, so
            // inserting there keeps the order
            assert forall|a: int, b: int| 0 <= a < b < after.len() implies leq(
                after[a],
                after[b],
            ) by {
                if b < p {
                    assert(after[a] == old_r[a] && after[b] == old_r[b]);
                    assert(leq(old_r[a], old_r[b]));
                } else if b == p {
                    assert(after[a] == old_r[a] && after[b] == x);
                    assert(sample_le(old_r[a], x));
                } else if a == p {
                    assert(after[a] == x && after[b] == old_r[b - 1]);
                    assert(!sample_le(old_r[p as int], x));
                    if b - 1 > p {
                        assert(leq(old_r[p as int], old_r[b - 1]));
                    }
                } else if a < p {
                    assert(after[a] == old_r[a] && after[b] == old_r[b - 1]);
                    assert(leq(old_r[a], old_r[b - 1]));
                } else {
                    assert(after[a] == old_r[a - 1] && after[b] == old_r[b - 1]);
                    assert(leq(old_r[a - 1], old_r[b - 1]));
                }
            }
        }
        r.insert(p, x);
        proof {
            vstd::seq_lib::to_multiset_insert(old_r, p as int, x);
            vstd::seq_lib::to_multiset_build(v@.take(k as int), v@[k as int]);
            assert(v@.take(k as int + 1) =~= v@.take(k as int).push(v@[k as int]));
        }
        k = k + 1;
    }
    proof {
        assert(v@.take(k as int) =~= v@);
    }
    r
}

/// The samples stored under `k`.
pub open spec fn value_of(es: Seq<((Seq<char>, u32), Seq<Sample>)>, k: (Seq<char>, u32)) -> Seq<
    Sample,
> {
    es[find_key(es, k)].1
}

/// The concatenation of the values under `ks`, in order.
pub open spec fn concat_values(
    es: Seq<((Seq<char>, u32), Seq<Sample>)>,
    ks: Seq<(Seq<char>, u32)>,
) -> Seq<Sample>
    decreases ks.len(),
{
    if ks.len() == 0 {
        Seq::empty()
    } else {
        concat_values(es, ks.drop_last()) + value_of(es, ks.last())
    }
}

pub proof fn lemma_concat_values_snoc(
    es: Seq<((Seq<char>, u32), Seq<Sample>)>,
    ks: Seq<(Seq<char>, u32)>,
    i: int,
)
    requires
        0 <= i < ks.len(),
    ensures
        concat_values(es, ks.take(i + 1)) == concat_values(es, ks.take(i)) + value_of(es, ks[i]),
{
    assert(ks.take(i + 1).drop_last() =~= ks.take(i));
    assert(ks.take(i + 1).last() == ks[i]);
}

/// Index of the first key of `ks` absent from `es`, or `-1`.
pub open spec fn first_missing(
    es: Seq<((Seq<char>, u32), Seq<Sample>)>,
    ks: Seq<(Seq<char>, u32)>,
) -> int
    decreases ks.len(),
{
    if ks.len() == 0 {
        -1
    } else if !has_key(es, ks[0]) {
        0
    } else {
        let r = first_missing(es, ks.drop_first());
        if r == -1 {
            -1
        } else {
            1 + r
        }
    }
}

pub proof fn lemma_first_missing(
    es: Seq<((Seq<char>, u32), Seq<Sample>)>,
    ks: Seq<(Seq<char>, u32)>,
)
    ensures
        -1 <= first_missing(es, ks) < ks.len(),
        first_missing(es, ks) == -1 <==> (forall|i: int|
            0 <= i < ks.len() ==> has_key(es, #[trigger] ks[i])),
        first_missing(es, ks) >= 0 ==> !has_key(es, ks[first_missing(es, ks)]) && (forall|j: int|
            0 <= j < first_missing(es, ks) ==> has_key(es, #[trigger] ks[j])),
    decreases ks.len(),
{
    if ks.len() > 0 && has_key(es, ks[0]) {
        lemma_first_missing(es, ks.drop_first());
        assert forall|i: int| 1 <= i < ks.len() implies ks.drop_first()[i - 1] == ks[i] by {}
    }
}

/// The catalog of decoded entries, in insertion order with unique
/// keys.
pub struct Catalog {
    map: IndexMap<EntryKey, Vec<Sample>>,
}

impl View for Catalog {
    type V = Seq<((Seq<char>, u32), Seq<Sample>)>;

    closed spec fn view(&self) -> Seq<((Seq<char>, u32), Seq<Sample>)> {
        map_entries(self.map)
    }
}

impl Catalog {
    /// The catalog's invariant: keys are unique.
    pub open spec fn wf(&self) -> bool {
        distinct_keys(self@)
    }

    /// An empty catalog.
    pub fn new() -> (c: Catalog)
        ensures
            c@ == Seq::<((Seq<char>, u32), Seq<Sample>)>::empty(),
            c.wf(),
    {
        let c = Catalog { map: imap_new() };
        c
    }

    /// Number of entries.
    pub fn len(&self) -> (n: usize)
        ensures
            n == self@.len(),
    {
        imap_len(&self.map)
    }

    /// Whether `k` is a key of the catalog.
    pub fn contains(&self, k: &EntryKey) -> (r: bool)
        ensures
            r == has_key(self@, kview(*k)),
    {
        imap_contains(&self.map, k)
    }

    /// The samples stored under `k`, if any.
    pub fn get(&self, k: &EntryKey) -> (r: Option<&Vec<Sample>>)
        ensures
            match r {
                Some(v) => has_key(self@, kview(*k)) && v@ == self@[find_key(
                    self@,
                    kview(*k),
                )].1,
                None => !has_key(self@, kview(*k)),
            },
    {
        imap_get(&self.map, k)
    }

    /// The entry at position `i`, in insertion order.
    pub fn at(&self, i: usize) -> (r: (&EntryKey, &Vec<Sample>))
        requires
            i < self@.len(),
        ensures
            kview(*r.0) == self@[i as int].0,
            r.1@ == self@[i as int].1,
    {
        imap_get_index(&self.map, i)
    }

    /// Every entry as an owned (key, samples) pair, in insertion
    /// order.
    pub fn iterate(&self) -> (r: Vec<(EntryKey, Vec<Sample>)>)
        ensures
            r@.len() == self@.len(),
            forall|i: int|
                0 <= i < r@.len() ==> kview((#[trigger] r@[i]).0) == self@[i].0 && r@[i].1@
                    == self@[i].1,
    {
        let mut r: Vec<(EntryKey, Vec<Sample>)> = Vec::new();
        let n = self.len();
        let mut i: usize = 0;
        while i < n
            invariant
                0 <= i <= n == self@.len(),
                r@.len() == i,
                forall|j: int|
                    0 <= j < i ==> kview((#[trigger] r@[j]).0) == self@[j].0 && r@[j].1@
                        == self@[j].1,
            decreases n - i,
        {
            let (k, v) = self.at(i);
            let key: EntryKey = (k.0.clone(), k.1);
            let mut vs: Vec<Sample> = Vec::new();
            let mut j: usize = 0;
            while j < v.len()
                invariant
                    0 <= j <= v@.len(),
                    vs@ == v@.take(j as int),
                decreases v@.len() - j,
            {
                vs.push(v[j]);
                proof {
                    assert(v@.take(j as int + 1) =~= v@.take(j as int).push(v@[j as int]));
                }
                j = j + 1;
            }
            proof {
                assert(v@.take(v@.len() as int) =~= v@);
            }
            r.push((key, vs));
            i = i + 1;
        }
        r
    }

    /// Stores `v` under `k`: replaces in place when the key exists,
    /// appends otherwise.
    pub fn insert(&mut self, k: EntryKey, v: Vec<Sample>)
        requires
            old(self).wf(),
        ensures
            final(self)@ == spec_insert(old(self)@, kview(k), v@),
            final(self).wf(),
    {
        proof {
            lemma_spec_insert_distinct(self@, kview(k), v@);
        }
        imap_insert(&mut self.map, k, v);
    }

    /// Combines the entries named by `sources` into a new entry under
    /// `target`: their samples are concatenated in the order the
    /// sources are named and sorted ascending by (angle, range).
    /// Samples are fixed-point integers, so the order is total and the
    /// sort can never be derailed by an unordered value.
    ///
    /// Fails without touching the catalog when `target` already
    /// exists, or when a source is missing (the error names the first
    /// missing key).
    pub fn combine(&mut self, target: EntryKey, sources: &Vec<EntryKey>) -> (r: Result<
        (),
        CatalogError,
    >)
        requires
            old(self).wf(),
        ensures
            final(self).wf(),
            ({
                let ks = kviews(sources@);
                match r {
                    Ok(()) => {
                        let merged = final(self)@.last().1;
                        &&& !has_key(old(self)@, kview(target))
                        &&& first_missing(old(self)@, ks) == -1
                        &&& final(self)@ == old(self)@.push((kview(target), merged))
                        &&& sorted_samples(merged)
                        &&& merged.to_multiset() == concat_values(old(self)@, ks).to_multiset()
                    },
                    Err(CatalogError::DuplicateKey(l, n)) => {
                        &&& has_key(old(self)@, kview(target))
                        &&& (l@, n) == kview(target)
                        &&& final(self)@ == old(self)@
                    },
                    Err(CatalogError::MissingSource(l, n)) => {
                        &&& !has_key(old(self)@, kview(target))
                        &&& first_missing(old(self)@, ks) >= 0
                        &&& (l@, n) == ks[first_missing(old(self)@, ks)]
                        &&& final(self)@ == old(self)@
                    },
                }
            }),
    {
        let ghost ks = kviews(sources@);
        if self.contains(&target) {
            return Err(CatalogError::DuplicateKey(target.0.clone(), target.1));
        }
        let mut combined: Vec<Sample> = Vec::new();
        let mut i: usize = 0;
        proof {
            assert(ks.take(0) =~= Seq::<(Seq<char>, u32)>::empty());
            assert(combined@ =~= concat_values(self@, ks.take(0)));
        }
        while i < sources.len()
            invariant
                *self == *old(self),
                old(self).wf(),
                !has_key(old(self)@, kview(target)),
                0 <= i <= sources@.len(),
                ks == kviews(sources@),
                combined@ == concat_values(self@, ks.take(i as int)),
                forall|j: int| 0 <= j < i ==> has_key(self@, #[trigger] ks[j]),
            decreases sources@.len() - i,
        {
            let key = &sources[i];
            match self.get(key) {
                Some(vs) => {
                    let ghost before = combined@;
                    let mut j: usize = 0;
                    while j < vs.len()
                        invariant
                            0 <= j <= vs@.len(),
                            combined@ == before + vs@.take(j as int),
                        decreases vs@.len() - j,
                    {
                        combined.push(vs[j]);
                        proof {
                            assert(before + vs@.take(j as int + 1) =~= (before + vs@.take(
                                j as int,
                            )).push(vs@[j as int]));
                        }
                        j = j + 1;
                    }
                    proof {
                        assert(vs@.take(vs@.len() as int) =~= vs@);
                        lemma_kviews_index(sources@, i as int);
                        lemma_concat_values_snoc(self@, ks, i as int);
                        assert(value_of(self@, ks[i as int]) == vs@);
                    }
                },
                None => {
                    proof {
                        lemma_first_missing(self@, ks);
                        lemma_kviews_index(sources@, i as int);
                        assert(!has_key(self@, ks[i as int]));
                        assert(first_missing(self@, ks) == i as int);
                    }
                    return Err(CatalogError::MissingSource(key.0.clone(), key.1));
                },
            }
            i = i + 1;
        }
        proof {
            assert(ks.take(i as int) =~= ks);
            lemma_first_missing(self@, ks);
        }
        let merged = sort_samples(&combined);
        proof {
            lemma_find_key(self@, kview(target));
        }
        self.insert(target, merged);
        Ok(())
    }
}

/// Combining exactly two entries concatenates their sample lists.
/// Together with [`lemma_combine_order_irrelevant`], the entry
/// [`Catalog::combine`] builds from entries holding `s1` and `s2` is
/// the one sorted arrangement of `s1` and `s2` together, the same
/// whichever source is named first.
pub proof fn lemma_concat_two(
    es: Seq<((Seq<char>, u32), Seq<Sample>)>,
    k1: (Seq<char>, u32),
    k2: (Seq<char>, u32),
)
    ensures
        concat_values(es, seq![k1, k2]) == value_of(es, k1) + value_of(es, k2),
{
    let ks = seq![k1, k2];
    assert(ks.drop_last() =~= seq![k1]);
    assert(ks.last() == k2);
    assert(seq![k1].drop_last() =~= Seq::<(Seq<char>, u32)>::empty());
    assert(seq![k1].last() == k1);
    assert(concat_values(es, Seq::<(Seq<char>, u32)>::empty()) == Seq::<Sample>::empty());
    assert(concat_values(es, seq![k1]) == Seq::<Sample>::empty() + value_of(es, k1));
    assert(Seq::<Sample>::empty() + value_of(es, k1) =~= value_of(es, k1));
    assert(concat_values(es, ks) == concat_values(es, seq![k1]) + value_of(es, k2));
}

/// The canonical-order law of [`Catalog::combine`]: a combined entry
/// does not depend on the order its sources were named in.  Combining
/// entries with samples `s1` and `s2` in either order yields the same
/// sequence, because both results are sorted arrangements of the same
/// sample multiset.
pub proof fn lemma_combine_order_irrelevant(
    s1: Seq<Sample>,
    s2: Seq<Sample>,
    r12: Seq<Sample>,
    r21: Seq<Sample>,
)
    requires
        sorted_samples(r12),
        r12.to_multiset() == (s1 + s2).to_multiset(),
        sorted_samples(r21),
        r21.to_multiset() == (s2 + s1).to_multiset(),
    ensures
        r12 == r21,
{
    broadcast use vstd::multiset::group_multiset_axioms;

    lemma_multiset_commutative(s1, s2);
    lemma_multiset_commutative(s2, s1);
    assert(s1.to_multiset().add(s2.to_multiset()) =~= s2.to_multiset().add(s1.to_multiset()));
    lemma_sample_le_total();
    lemma_sorted_unique(r12, r21, sample_order());
}

/// Sorted sequences with the same samples are equal: the output of
/// [`Catalog::combine`] is determined by the multiset of its inputs.
pub proof fn lemma_sorted_samples_unique(s1: Seq<Sample>, s2: Seq<Sample>)
    requires
        sorted_samples(s1),
        sorted_samples(s2),
        s1.to_multiset() == s2.to_multiset(),
    ensures
        s1 == s2,
{
    lemma_sample_le_total();
    lemma_sorted_unique(s1, s2, sample_order());
}

} // verus!
