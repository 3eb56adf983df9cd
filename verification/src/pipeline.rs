//! The pipeline driver: warn when the upstream demultiplexer is absent from
//! the header, record this run's provenance, open one writer per distinct
//! destination, route every record in arrival order, then drain the writers.

use vstd::prelude::*;

use crate::header::{
    add_program_tag, has_lima, lima_id, spec_has_program, spec_with_provenance, HeaderModel,
};
use crate::pool::{OutputBam, OutputBamV, WriterPool};
use crate::record::{BcTagV, TaggedRecord, TaggedRecordV, clone_record};
use crate::router::{
    route_record, routes_pred, spec_route, spec_routes_to, Disposition, DispositionV,
};
use crate::routing::{
    lemma_dests_complete, lemma_lookup_in_dests, spec_dests, BarcodePair, RouteEntryV,
    RoutingTable,
};

verus! {

/// The records every output file receives: for each destination, in order,
/// the input records routed to it.
pub open spec fn spec_demux(entries: Seq<RouteEntryV>, recs: Seq<TaggedRecordV>) -> Seq<
    OutputBamV,
> {
    Seq::new(
        spec_dests(entries).len(),
        |k: int| OutputBamV {
            path: spec_dests(entries)[k],
            records: recs.filter(routes_pred(entries, spec_dests(entries)[k])),
        },
    )
}

/// Extending the input by one record extends, for each destination, exactly
/// the records of the one file the record routes to.
pub proof fn lemma_demux_step(entries: Seq<RouteEntryV>, recs: Seq<TaggedRecordV>, i: int)
    requires
        0 <= i < recs.len(),
    ensures
        forall|k: int|
            0 <= k < spec_dests(entries).len() ==> #[trigger] spec_demux(
                entries,
                recs.subrange(0, i + 1),
            )[k].records == (if spec_routes_to(recs[i], entries, spec_dests(entries)[k]) {
                spec_demux(entries, recs.subrange(0, i))[k].records.push(recs[i])
            } else {
                spec_demux(entries, recs.subrange(0, i))[k].records
            }),
{
    let s1 = recs.subrange(0, i + 1);
    let s0 = recs.subrange(0, i);
    assert(s1.drop_last() =~= s0);
    assert(s1.last() == recs[i]);
    assert forall|k: int| 0 <= k < spec_dests(entries).len() implies #[trigger] spec_demux(
        entries,
        s1,
    )[k].records == (if spec_routes_to(recs[i], entries, spec_dests(entries)[k]) {
        spec_demux(entries, s0)[k].records.push(recs[i])
    } else {
        spec_demux(entries, s0)[k].records
    }) by {
        reveal(Seq::filter);
        let pred = |r: TaggedRecordV| spec_routes_to(r, entries, spec_dests(entries)[k]);
        assert(spec_demux(entries, s1)[k].records == s1.filter(pred));
        assert(spec_demux(entries, s0)[k].records == s0.filter(pred));
        assert(s1.filter(pred) == (if pred(s1.last()) {
            s1.drop_last().filter(pred).push(s1.last())
        } else {
            s1.drop_last().filter(pred)
        }));
    }
}

/// The disposition Route names a destination of the table.
pub proof fn lemma_route_target_in_dests(tag: BcTagV, entries: Seq<RouteEntryV>)
    ensures
        forall|p: Seq<u8>|
            spec_route(tag, entries) == DispositionV::Route(p) ==> #[trigger] spec_dests(
                entries,
            ).contains(p),
{
    match tag {
        BcTagV::U16Array(a) => {
            if a.len() == 2 {
                let pair = BarcodePair { first: a[0], second: a[1] };
                if crate::routing::spec_lookup(entries, pair) is Some {
                    lemma_lookup_in_dests(entries, pair);
                }
            }
        },
        _ => {},
    }
}

/// What one run of the pipeline produces.
pub struct PipelineOutput {
    /// The provenance-augmented header, shared by every output file and
    /// emitted there before any record.
    pub header: HeaderModel,
    /// True when the input header lacked a "lima" program group; the caller
    /// warns and processing continues.
    pub missing_lima_warning: bool,
    /// One output file per distinct destination path of the table.
    pub outputs: Vec<OutputBam>,
}

/// Runs the pipeline over the decoded input: checks provenance, records this
/// run in the header, opens one writer per distinct destination of the table,
/// routes every record in arrival order, and drains the writers.
///
/// Each output file holds exactly the input records whose `bc` pair the table
/// maps to its path, in input order; records with a missing or malformed tag
/// or an unmapped pair appear in no output.
pub fn run_pipeline(
    header: HeaderModel,
    cli_cmd: &Vec<u8>,
    version: &Vec<u8>,
    records: &Vec<TaggedRecord>,
    table: &RoutingTable,
) -> (out: PipelineOutput)
    ensures
        out.missing_lima_warning == !spec_has_program(header@.programs, lima_id()),
        out.header@ == spec_with_provenance(header@, cli_cmd@, version@),
        out.outputs.deep_view() == spec_demux(table@, records.deep_view()),
{
    let missing_lima_warning = !has_lima(&header);
    let mut h = header;
    add_program_tag(&mut h, cli_cmd, version);
    let mut pool = WriterPool::build(h, table);
    proof {
        lemma_dests_complete(table@);
        assert(pool.files.deep_view() =~~= spec_demux(
            table@,
            records.deep_view().subrange(0, 0),
        )) by {
            reveal(Seq::filter);
        }
    }
    let mut i: usize = 0;
    while i < records.len()
        invariant
            i <= records.len(),
            pool.is_open,
            pool.wf(),
            pool.header@ == spec_with_provenance(header@, cli_cmd@, version@),
            pool.files.deep_view() == spec_demux(
                table@,
                records.deep_view().subrange(0, i as int),
            ),
        decreases records.len() - i,
    {
        let rec = &records[i];
        let ghost rv = records.deep_view()[i as int];
        let ghost pre = pool.files.deep_view();
        proof {
            lemma_demux_step(table@, records.deep_view(), i as int);
            lemma_route_target_in_dests(rv.tag, table@);
        }
        match route_record(&rec.tag, table) {
            Disposition::Route(p) => {
                let c = clone_record(rec);
                let hit = pool.write_record(&p, c);
                proof {
                    assert(c@ == rv);
                    assert(spec_route(rv.tag, table@) == DispositionV::Route(p@));
                    assert(spec_dests(table@).contains(p@));
                    assert(forall|k: int|
                        0 <= k < spec_dests(table@).len() ==> #[trigger] pre[k].path
                            == spec_dests(table@)[k]);
                    // the pool was built from the table's destinations, so the
                    // target writer exists
                    let k0 = choose|k: int|
                        0 <= k < spec_dests(table@).len() && spec_dests(table@)[k] == p@;
                    assert(pre[k0].path == p@);
                    assert(hit);
                    assert(pool.files.deep_view() =~~= spec_demux(
                        table@,
                        records.deep_view().subrange(0, i + 1 as int),
                    ));
                }
            },
            Disposition::MissingTag => {
                proof {
                    assert(pool.files.deep_view() =~~= spec_demux(
                        table@,
                        records.deep_view().subrange(0, i + 1 as int),
                    ));
                }
            },
            Disposition::WrongSubtype => {
                proof {
                    assert(pool.files.deep_view() =~~= spec_demux(
                        table@,
                        records.deep_view().subrange(0, i + 1 as int),
                    ));
                }
            },
            Disposition::BadLength(_n) => {
                // the caller may report the anomalous length at debug level;
                // the record is dropped either way
                proof {
                    assert(pool.files.deep_view() =~~= spec_demux(
                        table@,
                        records.deep_view().subrange(0, i + 1 as int),
                    ));
                }
            },
            Disposition::Unrouted => {
                proof {
                    assert(pool.files.deep_view() =~~= spec_demux(
                        table@,
                        records.deep_view().subrange(0, i + 1 as int),
                    ));
                }
            },
        }
        i = i + 1;
    }
    proof {
        assert(records.deep_view().subrange(0, records.len() as int) =~= records.deep_view());
    }
    let (header_out, outputs) = pool.drain();
    PipelineOutput { header: header_out, missing_lima_warning, outputs }
}

} // verus!
