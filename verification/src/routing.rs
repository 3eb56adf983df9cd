//! The routing table: an ordered pair of barcode indices mapped to an opaque
//! destination path, with unique keys.

use vstd::prelude::*;

use crate::bytes::{bytes_eq, clone_bytes, lemma_bytes_deep_view};

verus! {

broadcast use lemma_bytes_deep_view;

/// An ordered pair (first, second) of barcode indices, taken from the two
/// elements of a record's `bc` tag in their stored order; no normalization.
#[derive(Clone, Copy, PartialEq, Eq, Structural, Debug)]
pub struct BarcodePair {
    pub first: u16,
    pub second: u16,
}

/// One routing-table entry: a barcode pair and the destination it routes to.
/// A destination path is an opaque byte string, compared by structural equality.
pub struct RouteEntry {
    pub pair: BarcodePair,
    pub path: Vec<u8>,
}

/// Spec-level value of a routing-table entry.
#[verifier::ext_equal]
pub struct RouteEntryV {
    pub pair: BarcodePair,
    pub path: Seq<u8>,
}

impl View for RouteEntry {
    type V = RouteEntryV;

    open spec fn view(&self) -> RouteEntryV {
        RouteEntryV { pair: self.pair, path: self.path@ }
    }
}

impl DeepView for RouteEntry {
    type V = RouteEntryV;

    open spec fn deep_view(&self) -> RouteEntryV {
        self.view()
    }
}

/// The destination of the first entry keyed by `pair`, if any.
pub open spec fn spec_lookup(entries: Seq<RouteEntryV>, pair: BarcodePair) -> Option<Seq<u8>>
    decreases entries.len(),
{
    if entries.len() == 0 {
        None
    } else if entries.first().pair == pair {
        Some(entries.first().path)
    } else {
        spec_lookup(entries.drop_first(), pair)
    }
}

/// The distinct destination paths of the table, in first-occurrence order.
pub open spec fn spec_dests(entries: Seq<RouteEntryV>) -> Seq<Seq<u8>>
    decreases entries.len(),
{
    if entries.len() == 0 {
        Seq::empty()
    } else {
        let d = spec_dests(entries.drop_last());
        if d.contains(entries.last().path) {
            d
        } else {
            d.push(entries.last().path)
        }
    }
}

/// A mapping from barcode pairs to destination paths. Keys are unique; values
/// need not be. Pairs not present are implicitly dropped by the router.
pub struct RoutingTable {
    entries: Vec<RouteEntry>,
}

impl View for RoutingTable {
    type V = Seq<RouteEntryV>;

    closed spec fn view(&self) -> Seq<RouteEntryV> {
        self.entries.deep_view()
    }
}

impl RoutingTable {
    /// The table's keys are pairwise distinct.
    pub open spec fn wf(&self) -> bool {
        forall|i: int, j: int|
            0 <= i < j < self@.len() ==> self@[i].pair != self@[j].pair
    }

    /// An empty table.
    pub fn new() -> (t: RoutingTable)
        ensures
            t@ == Seq::<RouteEntryV>::empty(),
            t.wf(),
    {
        let t = RoutingTable { entries: Vec::new() };
        proof {
            assert(t@ =~= Seq::<RouteEntryV>::empty());
        }
        t
    }

    /// The position of the first entry keyed by `pair`, if any.
    fn find_pair(&self, pair: BarcodePair) -> (r: Option<usize>)
        ensures
            match r {
                Some(k) => {
                    &&& 0 <= k < self@.len()
                    &&& self@[k as int].pair == pair
                    &&& forall|j: int| 0 <= j < k ==> self@[j].pair != pair
                },
                None => forall|j: int| 0 <= j < self@.len() ==> self@[j].pair != pair,
            },
    {
        let mut i: usize = 0;
        while i < self.entries.len()
            invariant
                i <= self.entries.len(),
                self@.len() == self.entries.len(),
                forall|j: int| 0 <= j < i ==> self@[j].pair != pair,
                forall|j: int|
                    0 <= j < self.entries.len() ==> self@[j] == self.entries[j]@,
            decreases self.entries.len() - i,
        {
            let e = &self.entries[i];
            if e.pair.first == pair.first && e.pair.second == pair.second {
                assert(self@[i as int].pair == pair);
                return Some(i);
            }
            i = i + 1;
        }
        None
    }

    /// Adds a route from `pair` to `path`; replaces the destination when the
    /// pair is already mapped, so that keys stay unique.
    pub fn add_route(&mut self, pair: BarcodePair, path: Vec<u8>)
        requires
            old(self).wf(),
        ensures
            final(self).wf(),
            spec_lookup(final(self)@, pair) == Some(path@),
            forall|q: BarcodePair|
                q != pair ==> #[trigger] spec_lookup(final(self)@, q) == spec_lookup(
                    old(self)@,
                    q,
                ),
    {
        let entry = RouteEntry { pair, path };
        match self.find_pair(pair) {
            Some(k) => {
                let ghost pre = self@;
                self.entries.set(k, entry);
                proof {
                    assert(self@ =~~= pre.update(k as int, entry@));
                    assert(forall|m: int| 0 <= m < pre.len() ==> self@[m].pair == pre[m].pair);
                    lemma_lookup_update(pre, self@, k as int, pair);
                }
            },
            None => {
                let ghost pre = self@;
                self.entries.push(entry);
                proof {
                    assert(self@ =~~= pre.push(entry@));
                    lemma_lookup_push(pre, entry@, pair);
                }
            },
        }
    }

    /// The destination for `pair`, if the table maps it.
    pub fn lookup(&self, pair: BarcodePair) -> (r: Option<Vec<u8>>)
        ensures
            match r {
                Some(p) => spec_lookup(self@, pair) == Some(p@),
                None => spec_lookup(self@, pair) is None,
            },
    {
        proof {
            lemma_lookup_is_first_match(self@, pair);
        }
        match self.find_pair(pair) {
            Some(k) => Some(clone_bytes(&self.entries[k].path)),
            None => None,
        }
    }

    /// The distinct destination paths, in first-occurrence order.
    pub fn destinations(&self) -> (r: Vec<Vec<u8>>)
        ensures
            r.deep_view() == spec_dests(self@),
    {
        let mut r: Vec<Vec<u8>> = Vec::new();
        proof {
            assert(r.deep_view() =~~= spec_dests(self@.subrange(0, 0)));
        }
        let mut i: usize = 0;
        while i < self.entries.len()
            invariant
                i <= self.entries.len(),
                self@.len() == self.entries.len(),
                forall|j: int|
                    0 <= j < self.entries.len() ==> self@[j] == self.entries[j]@,
                r.deep_view() == spec_dests(self@.subrange(0, i as int)),
            decreases self.entries.len() - i,
        {
            let ghost pre = r.deep_view();
            let p = &self.entries[i].path;
            let mut seen = false;
            let mut j: usize = 0;
            while j < r.len()
                invariant
                    j <= r.len(),
                    r.deep_view() == pre,
                    r.deep_view().len() == r.len(),
                    forall|m: int| 0 <= m < r.len() ==> r.deep_view()[m] == r[m]@,
                    seen == exists|m: int| 0 <= m < j && r.deep_view()[m] == p@,
                decreases r.len() - j,
            {
                if bytes_eq(&r[j], p) {
                    assert(r.deep_view()[j as int] == p@);
                    seen = true;
                    j = r.len();
                } else {
                    j = j + 1;
                }
            }
            assert(seen == pre.contains(p@));
            if !seen {
                let c = clone_bytes(p);
                r.push(c);
                proof {
                    assert(r.deep_view() =~~= pre.push(p@));
                }
            }
            proof {
                assert(self@.subrange(0, i + 1 as int).drop_last() =~= self@.subrange(
                    0,
                    i as int,
                ));
                assert(self@.subrange(0, i + 1 as int).last() == self@[i as int]);
            }
            i = i + 1;
        }
        proof {
            assert(self@.subrange(0, self@.len() as int) =~= self@);
        }
        r
    }

    /// The number of routes in the table.
    pub fn len(&self) -> (n: usize)
        ensures
            n == self@.len(),
    {
        self.entries.len()
    }
}

/// `spec_lookup` returns the destination of the first entry keyed by the pair.
pub proof fn lemma_lookup_is_first_match(entries: Seq<RouteEntryV>, pair: BarcodePair)
    ensures
        forall|k: int|
            0 <= k < entries.len() && entries[k].pair == pair && (forall|j: int|
                0 <= j < k ==> entries[j].pair != pair) ==> spec_lookup(entries, pair) == Some(
                entries[k].path,
            ),
        (forall|j: int| 0 <= j < entries.len() ==> entries[j].pair != pair) ==> spec_lookup(
            entries,
            pair,
        ) is None,
    decreases entries.len(),
{
    if entries.len() > 0 {
        lemma_lookup_is_first_match(entries.drop_first(), pair);
        assert forall|k: int|
            0 <= k < entries.len() && entries[k].pair == pair && (forall|j: int|
                0 <= j < k ==> entries[j].pair != pair) implies spec_lookup(entries, pair) == Some(
            entries[k].path,
        ) by {
            if entries.first().pair != pair {
                assert(k >= 1);
                let tail = entries.drop_first();
                assert(tail[k - 1].pair == pair);
                assert(forall|j: int| 0 <= j < k - 1 ==> tail[j].pair != pair);
            }
        }
    }
}

/// Updating the entry at the first position keyed by `pair` updates the lookup
/// for `pair` alone.
proof fn lemma_lookup_update(
    pre: Seq<RouteEntryV>,
    post: Seq<RouteEntryV>,
    k: int,
    pair: BarcodePair,
)
    requires
        0 <= k < pre.len(),
        post.len() == pre.len(),
        post[k].pair == pair,
        forall|j: int| 0 <= j < pre.len() && j != k ==> post[j] == pre[j],
        forall|j: int| 0 <= j < k ==> pre[j].pair != pair,
        pre[k].pair == pair,
    ensures
        spec_lookup(post, pair) == Some(post[k].path),
        forall|q: BarcodePair|
            q != pair ==> #[trigger] spec_lookup(post, q) == spec_lookup(pre, q),
    decreases pre.len(),
{
    if k == 0 {
        assert forall|q: BarcodePair| q != pair implies #[trigger] spec_lookup(post, q)
            == spec_lookup(pre, q) by {
            assert(post.drop_first() =~= pre.drop_first());
        }
    } else {
        lemma_lookup_update(pre.drop_first(), post.drop_first(), k - 1, pair);
        assert(post.first() == pre.first());
        assert(post.drop_first()[k - 1].pair == pair);
        assert forall|q: BarcodePair| q != pair implies #[trigger] spec_lookup(post, q)
            == spec_lookup(pre, q) by {
            if pre.first().pair != q {
                assert(spec_lookup(post, q) == spec_lookup(post.drop_first(), q));
                assert(spec_lookup(pre, q) == spec_lookup(pre.drop_first(), q));
            }
        }
    }
}

/// Appending an entry whose pair is new leaves other lookups unchanged and
/// maps the new pair to the appended destination.
proof fn lemma_lookup_push(pre: Seq<RouteEntryV>, e: RouteEntryV, pair: BarcodePair)
    requires
        e.pair == pair,
        forall|j: int| 0 <= j < pre.len() ==> pre[j].pair != pair,
    ensures
        spec_lookup(pre.push(e), pair) == Some(e.path),
        forall|q: BarcodePair|
            q != pair ==> #[trigger] spec_lookup(pre.push(e), q) == spec_lookup(pre, q),
    decreases pre.len(),
{
    if pre.len() == 0 {
        assert(pre.push(e).first() == e);
        assert forall|q: BarcodePair| q != pair implies #[trigger] spec_lookup(pre.push(e), q)
            == spec_lookup(pre, q) by {
            assert(pre.push(e).drop_first() =~= Seq::<RouteEntryV>::empty());
            assert(spec_lookup(pre.push(e).drop_first(), q) is None);
            assert(spec_lookup(pre, q) is None);
        }
    } else {
        lemma_lookup_push(pre.drop_first(), e, pair);
        assert(pre.push(e).first() == pre.first());
        assert(pre.push(e).drop_first() =~= pre.drop_first().push(e));
        assert forall|q: BarcodePair| q != pair implies #[trigger] spec_lookup(pre.push(e), q)
            == spec_lookup(pre, q) by {
            if pre.first().pair != q {
                assert(spec_lookup(pre.push(e), q) == spec_lookup(pre.drop_first().push(e), q));
                assert(spec_lookup(pre, q) == spec_lookup(pre.drop_first(), q));
            }
        }
    }
}

/// A destination returned by a lookup is among the table's destinations.
pub proof fn lemma_lookup_in_dests(entries: Seq<RouteEntryV>, pair: BarcodePair)
    requires
        spec_lookup(entries, pair) is Some,
    ensures
        spec_dests(entries).contains(spec_lookup(entries, pair).unwrap()),
    decreases entries.len(),
{
    lemma_lookup_is_first_match(entries, pair);
    let p = spec_lookup(entries, pair).unwrap();
    assert(exists|j: int| 0 <= j < entries.len() && entries[j].path == p) by {
        lemma_lookup_some_entry(entries, pair);
    }
    lemma_dests_complete(entries);
}

/// A successful lookup names the destination of some entry.
proof fn lemma_lookup_some_entry(entries: Seq<RouteEntryV>, pair: BarcodePair)
    requires
        spec_lookup(entries, pair) is Some,
    ensures
        exists|j: int|
            0 <= j < entries.len() && entries[j].path == spec_lookup(entries, pair).unwrap(),
    decreases entries.len(),
{
    if entries.len() > 0 && entries.first().pair != pair {
        lemma_lookup_some_entry(entries.drop_first(), pair);
        let p = spec_lookup(entries, pair).unwrap();
        let j = choose|j: int|
            0 <= j < entries.drop_first().len() && entries.drop_first()[j].path == p;
        assert(entries[j + 1].path == p);
    }
}

/// The destination list holds exactly the paths of the table's entries, once each.
pub proof fn lemma_dests_complete(entries: Seq<RouteEntryV>)
    ensures
        forall|p: Seq<u8>|
            #[trigger] spec_dests(entries).contains(p) <==> exists|j: int|
                0 <= j < entries.len() && entries[j].path == p,
        forall|i: int, j: int|
            0 <= i < j < spec_dests(entries).len() ==> spec_dests(entries)[i] != spec_dests(
                entries,
            )[j],
    decreases entries.len(),
{
    if entries.len() > 0 {
        lemma_dests_complete(entries.drop_last());
        let d = spec_dests(entries.drop_last());
        assert forall|p: Seq<u8>| #[trigger] spec_dests(entries).contains(p) implies exists|j: int|
            0 <= j < entries.len() && entries[j].path == p by {
            if d.contains(p) {
                let j = choose|j: int|
                    0 <= j < entries.drop_last().len() && entries.drop_last()[j].path == p;
                assert(entries[j].path == p);
            } else {
                assert(entries[entries.len() - 1].path == p);
            }
        }
        assert forall|p: Seq<u8>|
            (exists|j: int|
                0 <= j < entries.len() && entries[j].path == p) implies #[trigger] spec_dests(
            entries,
        ).contains(p) by {
            let j = choose|j: int| 0 <= j < entries.len() && entries[j].path == p;
            if j < entries.len() - 1 {
                assert(entries.drop_last()[j].path == p);
                assert(d.contains(p));
                if !d.contains(entries.last().path) {
                    assert(spec_dests(entries)[choose|m: int|
                        0 <= m < d.len() && d[m] == p] == p);
                }
            } else {
                if d.contains(entries.last().path) {
                    assert(spec_dests(entries).contains(p));
                } else {
                    assert(spec_dests(entries).last() == p);
                }
            }
        }
    }
}

} // verus!
