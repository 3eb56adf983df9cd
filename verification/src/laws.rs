//! The laws of the demultiplexer, stated over the pipeline's specification
//! and proved once for every input.

use vstd::prelude::*;
use vstd::multiset::Multiset;

use crate::header::{
    callao_id, lemma_find_program, spec_has_program, spec_provenance_entry, spec_with_provenance,
    HeaderV,
};
use crate::pipeline::{lemma_route_target_in_dests, spec_demux};
use crate::pool::OutputBamV;
use crate::record::{BcTagV, TaggedRecordV};
use crate::router::{
    routed_pred, routes_pred, spec_is_routed, spec_pair_of, spec_route, spec_routes_to,
    DispositionV,
};
use crate::routing::{
    lemma_dests_complete, lemma_lookup_in_dests, spec_dests, spec_lookup, BarcodePair,
    RouteEntryV,
};

verus! {

/// Whether `a` is a subsequence of `b`: `a` is `b` with zero or more elements
/// removed, order kept.
pub open spec fn is_subsequence<A>(a: Seq<A>, b: Seq<A>) -> bool
    decreases b.len(),
{
    if a.len() == 0 {
        true
    } else if b.len() == 0 {
        false
    } else if a.last() == b.last() {
        is_subsequence(a.drop_last(), b.drop_last())
    } else {
        is_subsequence(a, b.drop_last())
    }
}

/// Dropping the last element of a subsequence leaves a subsequence.
proof fn lemma_subsequence_drop_last<A>(a: Seq<A>, b: Seq<A>)
    requires
        a.len() > 0,
        is_subsequence(a, b),
    ensures
        is_subsequence(a.drop_last(), b),
    decreases b.len(),
{
    let a1 = a.drop_last();
    if a1.len() == 0 {
    } else if a.last() == b.last() {
        if a1.last() == b.last() {
            lemma_subsequence_drop_last(a1, b.drop_last());
        }
    } else {
        lemma_subsequence_drop_last(a, b.drop_last());
        if a1.last() == b.last() {
            lemma_subsequence_drop_last(a1, b.drop_last());
        }
    }
}

/// Extending the right-hand sequence keeps a subsequence a subsequence.
proof fn lemma_subsequence_extend<A>(a: Seq<A>, b: Seq<A>, x: A)
    requires
        is_subsequence(a, b),
    ensures
        is_subsequence(a, b.push(x)),
{
    if a.len() > 0 {
        assert(b.push(x).last() == x);
        assert(b.push(x).drop_last() =~= b);
        if a.last() == x {
            lemma_subsequence_drop_last(a, b);
        }
    }
}

/// What a filter keeps is a subsequence of the input.
pub proof fn lemma_filter_is_subsequence<A>(s: Seq<A>, pred: spec_fn(A) -> bool)
    ensures
        is_subsequence(s.filter(pred), s),
    decreases s.len(),
{
    reveal(Seq::filter);
    if s.len() == 0 {
    } else {
        let dl = s.drop_last();
        lemma_filter_is_subsequence(dl, pred);
        if pred(s.last()) {
            assert(s.filter(pred) == dl.filter(pred).push(s.last()));
            assert(s.filter(pred).drop_last() =~= dl.filter(pred));
            assert(s.filter(pred).last() == s.last());
        } else {
            assert(s.filter(pred) == dl.filter(pred));
            lemma_subsequence_extend(dl.filter(pred), dl, s.last());
            assert(dl.push(s.last()) =~= s);
        }
    }
}

/// Order preservation: in every output file, the records appear in input
/// order; each file's record sequence is a subsequence of the input.
pub proof fn lemma_order_preserved(entries: Seq<RouteEntryV>, recs: Seq<TaggedRecordV>)
    ensures
        forall|k: int|
            0 <= k < spec_demux(entries, recs).len() ==> is_subsequence(
                #[trigger] spec_demux(entries, recs)[k].records,
                recs,
            ),
{
    assert forall|k: int| 0 <= k < spec_demux(entries, recs).len() implies is_subsequence(
        #[trigger] spec_demux(entries, recs)[k].records,
        recs,
    ) by {
        lemma_filter_is_subsequence(recs, routes_pred(entries, spec_dests(entries)[k]));
    }
}

/// All the records of all the output files, as one multiset.
pub open spec fn spec_output_multiset(outs: Seq<OutputBamV>) -> Multiset<TaggedRecordV>
    decreases outs.len(),
{
    if outs.len() == 0 {
        Multiset::empty()
    } else {
        spec_output_multiset(outs.drop_last()).add(outs.last().records.to_multiset())
    }
}

/// Pushing one record onto the records of exactly one output file adds
/// exactly that record to the combined multiset.
proof fn lemma_output_multiset_one_push(
    a: Seq<OutputBamV>,
    b: Seq<OutputBamV>,
    k0: int,
    r: TaggedRecordV,
)
    requires
        a.len() == b.len(),
        0 <= k0 < a.len(),
        b[k0].records == a[k0].records.push(r),
        forall|j: int| 0 <= j < a.len() && j != k0 ==> b[j] == a[j],
    ensures
        spec_output_multiset(b) =~= spec_output_multiset(a).insert(r),
    decreases a.len(),
{
    broadcast use vstd::seq_lib::group_to_multiset_ensures;

    if k0 == a.len() - 1 {
        assert(b.drop_last() =~= a.drop_last());
        assert(b.last().records.to_multiset() =~= a.last().records.to_multiset().insert(r));
    } else {
        lemma_output_multiset_one_push(a.drop_last(), b.drop_last(), k0, r);
        assert(b.last() == a.last());
    }
}

/// When no output file changes, the combined multiset does not change.
proof fn lemma_output_multiset_congruence(a: Seq<OutputBamV>, b: Seq<OutputBamV>)
    requires
        a.len() == b.len(),
        forall|j: int| 0 <= j < a.len() ==> a[j].records == b[j].records,
    ensures
        spec_output_multiset(a) == spec_output_multiset(b),
    decreases a.len(),
{
    if a.len() > 0 {
        lemma_output_multiset_congruence(a.drop_last(), b.drop_last());
    }
}

/// Conservation: the multiset union of the records across all output files
/// equals the multiset of input records whose `bc` tag is a two-element
/// unsigned 16-bit array with a pair present in the routing table. No routed
/// record is lost or duplicated, and nothing else is written.
pub proof fn lemma_conservation(entries: Seq<RouteEntryV>, recs: Seq<TaggedRecordV>)
    ensures
        spec_output_multiset(spec_demux(entries, recs)) == recs.filter(
            routed_pred(entries),
        ).to_multiset(),
        forall|r: TaggedRecordV|
            #[trigger] routed_pred(entries)(r) <==> (exists|p: BarcodePair|
                spec_pair_of(r.tag) == Some(p) && spec_lookup(entries, p) is Some),
    decreases recs.len(),
{
    assert forall|r: TaggedRecordV| #[trigger] routed_pred(entries)(r) <==> (exists|
        p: BarcodePair,
    |
        spec_pair_of(r.tag) == Some(p) && spec_lookup(entries, p) is Some) by {
        match r.tag {
            BcTagV::U16Array(a) => {
                if a.len() == 2 {
                    let pr = BarcodePair { first: a[0], second: a[1] };
                    assert(spec_pair_of(r.tag) == Some(pr));
                    if spec_lookup(entries, pr) is Some {
                        assert(spec_is_routed(r, entries));
                    }
                }
            },
            _ => {},
        }
    }
    reveal(Seq::filter);
    broadcast use vstd::seq_lib::group_to_multiset_ensures;

    let outs = spec_demux(entries, recs);
    let dests = spec_dests(entries);
    lemma_dests_complete(entries);
    if recs.len() == 0 {
        assert(forall|j: int|
            0 <= j < outs.len() ==> (#[trigger] outs[j].records) == Seq::<
                TaggedRecordV,
            >::empty());
        lemma_output_multiset_empty(outs);
        assert(recs.filter(routed_pred(entries)) == Seq::<TaggedRecordV>::empty());
        assert(Seq::<TaggedRecordV>::empty().to_multiset() =~= Multiset::<
            TaggedRecordV,
        >::empty());
    } else {
        let s0 = recs.drop_last();
        let r = recs.last();
        lemma_conservation(entries, s0);
        let prev = spec_demux(entries, s0);
        assert(recs.filter(routed_pred(entries)) == (if routed_pred(entries)(r) {
            s0.filter(routed_pred(entries)).push(r)
        } else {
            s0.filter(routed_pred(entries))
        }));
        crate::pipeline::lemma_demux_step(entries, recs, recs.len() - 1);
        assert(recs.subrange(0, recs.len() as int) =~= recs);
        assert(recs.subrange(0, recs.len() - 1) =~= s0);
        if spec_is_routed(r, entries) {
            lemma_route_target_in_dests(r.tag, entries);
            let p = choose|p: Seq<u8>| spec_route(r.tag, entries) == DispositionV::Route(p);
            assert(spec_dests(entries).contains(p));
            let k0 = choose|k: int| 0 <= k < dests.len() && dests[k] == p;
            assert forall|k: int| 0 <= k < outs.len() && k != k0 implies outs[k] == prev[k] by {
                assert(dests[k] != p);
                assert(!spec_routes_to(r, entries, dests[k]));
            }
            assert(outs[k0].records == prev[k0].records.push(r));
            lemma_output_multiset_one_push(prev, outs, k0, r);
            assert(routed_pred(entries)(r));
            assert(spec_output_multiset(outs) =~= spec_output_multiset(prev).insert(r));
        } else {
            assert forall|k: int| 0 <= k < outs.len() implies outs[k].records
                == prev[k].records by {
                assert(!spec_routes_to(r, entries, dests[k]));
            }
            lemma_output_multiset_congruence(prev, outs);
            assert(!routed_pred(entries)(r));
        }
    }
}

/// A run of output files that all hold no records holds no records at all.
proof fn lemma_output_multiset_empty(outs: Seq<OutputBamV>)
    requires
        forall|j: int|
            0 <= j < outs.len() ==> (#[trigger] outs[j].records) == Seq::<TaggedRecordV>::empty(),
    ensures
        spec_output_multiset(outs) =~= Multiset::<TaggedRecordV>::empty(),
    decreases outs.len(),
{
    broadcast use vstd::seq_lib::group_to_multiset_ensures;

    if outs.len() > 0 {
        lemma_output_multiset_empty(outs.drop_last());
        assert(outs.last().records.to_multiset().len() == 0);
        assert(outs.last().records.to_multiset() =~= Multiset::<TaggedRecordV>::empty());
    }
}

/// Provenance: when the header does not already hold a "callao" entry, the
/// edited header is the input header with exactly one program-group entry
/// appended: identifier and name "callao", the given version and command
/// line, and the last prior entry as predecessor when one exists. Every
/// other header field is unchanged.
pub proof fn lemma_provenance_appended(h: HeaderV, cli_cmd: Seq<u8>, version: Seq<u8>)
    requires
        !spec_has_program(h.programs, callao_id()),
    ensures
        spec_with_provenance(h, cli_cmd, version).other == h.other,
        spec_with_provenance(h, cli_cmd, version).programs == h.programs.push(
            spec_provenance_entry(h, cli_cmd, version),
        ),
        spec_provenance_entry(h, cli_cmd, version).id == callao_id(),
        spec_provenance_entry(h, cli_cmd, version).name == callao_id(),
        spec_provenance_entry(h, cli_cmd, version).version == version,
        spec_provenance_entry(h, cli_cmd, version).command_line == cli_cmd,
        spec_provenance_entry(h, cli_cmd, version).prev_id == (if h.programs.len() > 0 {
            Some(h.programs.last().id)
        } else {
            None::<Seq<u8>>
        }),
{
    lemma_find_program(h.programs, callao_id());
}

/// Collapse: when two different pairs map to the same destination path,
/// exactly one output file carries that path, and it holds the records of
/// both pairs (and of any other pair mapped there), in input order.
pub proof fn lemma_collapse(
    entries: Seq<RouteEntryV>,
    recs: Seq<TaggedRecordV>,
    p1: BarcodePair,
    p2: BarcodePair,
    path: Seq<u8>,
)
    requires
        p1 != p2,
        spec_lookup(entries, p1) == Some(path),
        spec_lookup(entries, p2) == Some(path),
    ensures
        exists|k: int|
            0 <= k < spec_demux(entries, recs).len() && (#[trigger] spec_demux(
                entries,
                recs,
            )[k].path) == path,
        forall|k1: int, k2: int|
            0 <= k1 < spec_demux(entries, recs).len() && 0 <= k2 < spec_demux(
                entries,
                recs,
            ).len() && spec_demux(entries, recs)[k1].path == path && spec_demux(
                entries,
                recs,
            )[k2].path == path ==> k1 == k2,
        forall|k: int|
            0 <= k < spec_demux(entries, recs).len() && (#[trigger] spec_demux(
                entries,
                recs,
            )[k].path) == path ==> spec_demux(entries, recs)[k].records == recs.filter(
                routes_pred(entries, path),
            ),
        forall|r: TaggedRecordV|
            (#[trigger] spec_pair_of(r.tag)) == Some(p1) || spec_pair_of(r.tag) == Some(p2)
                ==> spec_routes_to(r, entries, path),
{
    lemma_lookup_in_dests(entries, p1);
    lemma_dests_complete(entries);
    let dests = spec_dests(entries);
    assert(dests.contains(path));
    let k0 = choose|k: int| 0 <= k < dests.len() && dests[k] == path;
    assert(spec_demux(entries, recs)[k0].path == path);
}

/// Determinism: two runs given the same header, command line, version,
/// routing table and records produce the same edited header and the same
/// output files. Any difference between two otherwise identical runs lies
/// below this model, in the byte-level encoder.
pub proof fn lemma_deterministic(
    h: HeaderV,
    cli_cmd: Seq<u8>,
    version: Seq<u8>,
    entries: Seq<RouteEntryV>,
    recs: Seq<TaggedRecordV>,
    first_run: (HeaderV, Seq<OutputBamV>),
    second_run: (HeaderV, Seq<OutputBamV>),
)
    requires
        first_run.0 == spec_with_provenance(h, cli_cmd, version),
        first_run.1 == spec_demux(entries, recs),
        second_run.0 == spec_with_provenance(h, cli_cmd, version),
        second_run.1 == spec_demux(entries, recs),
    ensures
        first_run == second_run,
{
}

} // verus!
