//! The writer pool: one output file per distinct destination path, sharing
//! one header, written in arrival order, drained exactly once at shutdown.

use vstd::prelude::*;

use crate::bytes::{bytes_eq, clone_bytes, lemma_bytes_deep_view};
use crate::header::HeaderModel;
use crate::record::{TaggedRecord, TaggedRecordV};
use crate::routing::{spec_dests, RoutingTable};

verus! {

broadcast use lemma_bytes_deep_view;

/// One output file: its destination path and the records routed to it, in
/// arrival order. The shared header precedes the records in the file; the
/// pool holds it once for all files.
#[derive(Debug, PartialEq, Eq)]
pub struct OutputBam {
    pub path: Vec<u8>,
    pub records: Vec<TaggedRecord>,
}

/// Spec-level value of an output file.
#[verifier::ext_equal]
pub struct OutputBamV {
    pub path: Seq<u8>,
    pub records: Seq<TaggedRecordV>,
}

impl View for OutputBam {
    type V = OutputBamV;

    open spec fn view(&self) -> OutputBamV {
        OutputBamV { path: self.path@, records: self.records.deep_view() }
    }
}

impl DeepView for OutputBam {
    type V = OutputBamV;

    open spec fn deep_view(&self) -> OutputBamV {
        self.view()
    }
}

/// One empty output file per destination, in destination order.
pub open spec fn spec_empty_outputs(dests: Seq<Seq<u8>>) -> Seq<OutputBamV> {
    Seq::new(
        dests.len(),
        |k: int| OutputBamV { path: dests[k], records: Seq::empty() },
    )
}

/// The pool of open writers: the shared header, one output file per distinct
/// destination path. Writers are created open and drained exactly once; a
/// drained pool takes no further records.
pub struct WriterPool {
    /// The provenance-augmented header, emitted first to every output file.
    pub header: HeaderModel,
    /// The output files, one per distinct destination path.
    pub files: Vec<OutputBam>,
    /// Whether the writers still accept records; cleared by `drain`.
    pub is_open: bool,
}

impl WriterPool {
    /// The pool's destination paths are pairwise distinct.
    pub open spec fn wf(&self) -> bool {
        forall|i: int, j: int|
            0 <= i < j < self.files.deep_view().len() ==> self.files.deep_view()[i].path
                != self.files.deep_view()[j].path
    }

    /// Opens one writer per distinct destination of the table, each holding
    /// the shared header and no records yet.
    pub fn build(header: HeaderModel, table: &RoutingTable) -> (pool: WriterPool)
        ensures
            pool.header == header,
            pool.is_open,
            pool.files.deep_view() == spec_empty_outputs(spec_dests(table@)),
            pool.wf(),
    {
        let dests = table.destinations();
        let mut files: Vec<OutputBam> = Vec::new();
        let mut i: usize = 0;
        while i < dests.len()
            invariant
                i <= dests.len(),
                dests.deep_view().len() == dests.len(),
                files.deep_view() == spec_empty_outputs(dests.deep_view().subrange(0, i as int)),
            decreases dests.len() - i,
        {
            let f = OutputBam { path: clone_bytes(&dests[i]), records: Vec::new() };
            proof {
                assert(f@.records =~= Seq::<TaggedRecordV>::empty());
                assert(f@.path == dests.deep_view()[i as int]);
            }
            let ghost pre = files.deep_view();
            files.push(f);
            proof {
                assert(files.deep_view() =~~= pre.push(f@));
                assert(pre.push(f@) =~~= spec_empty_outputs(
                    dests.deep_view().subrange(0, i + 1 as int),
                ));
            }
            i = i + 1;
        }
        proof {
            assert(dests.deep_view().subrange(0, dests.len() as int) =~= dests.deep_view());
        }
        let pool = WriterPool { header, files, is_open: true };
        proof {
            crate::routing::lemma_dests_complete(table@);
            assert(pool.files.deep_view() =~~= spec_empty_outputs(spec_dests(table@)));
        }
        pool
    }

    /// Writes one record to the writer bound to `path`, if the pool has one;
    /// every other writer is untouched. Reports whether a writer was found.
    pub fn write_record(&mut self, path: &Vec<u8>, rec: TaggedRecord) -> (hit: bool)
        requires
            old(self).wf(),
            old(self).is_open,
        ensures
            final(self).header == old(self).header,
            final(self).is_open,
            final(self).wf(),
            final(self).files.deep_view().len() == old(self).files.deep_view().len(),
            hit == exists|k: int|
                0 <= k < old(self).files.deep_view().len() && old(self).files.deep_view()[k].path
                    == path@,
            forall|k: int|
                0 <= k < old(self).files.deep_view().len() && old(self).files.deep_view()[k].path
                    == path@ ==> final(self).files.deep_view()[k] == (OutputBamV {
                    path: old(self).files.deep_view()[k].path,
                    records: old(self).files.deep_view()[k].records.push(rec@),
                }),
            forall|k: int|
                0 <= k < old(self).files.deep_view().len() && old(self).files.deep_view()[k].path
                    != path@ ==> final(self).files.deep_view()[k] == old(
                    self,
                ).files.deep_view()[k],
    {
        let ghost pre = self.files.deep_view();
        let ghost pre_header = self.header;
        let mut i: usize = 0;
        while i < self.files.len()
            invariant
                i <= self.files.len(),
                self.files.deep_view() == pre,
                self.header == pre_header,
                self.is_open,
                pre.len() == self.files.len(),
                forall|j: int| 0 <= j < i ==> pre[j].path != path@,
            decreases self.files.len() - i,
        {
            if bytes_eq(&self.files[i].path, path) {
                proof {
                    assert(pre[i as int].path == path@);
                }
                let mut f = self.files.remove(i);
                f.records.push(rec);
                let ghost fv = f.deep_view();
                self.files.insert(i, f);
                proof {
                    assert(fv.records =~= pre[i as int].records.push(rec@));
                    assert(fv =~~= (OutputBamV {
                        path: pre[i as int].path,
                        records: pre[i as int].records.push(rec@),
                    }));
                    assert(self.files.deep_view() =~~= pre.update(i as int, fv));
                }
                return true;
            }
            i = i + 1;
        }
        false
    }

    /// Drains the pool: flushes and finalizes every writer. The pool takes no
    /// records after this; the output files are returned as written.
    pub fn drain(self) -> (out: (HeaderModel, Vec<OutputBam>))
        ensures
            out.0 == self.header,
            out.1.deep_view() == self.files.deep_view(),
    {
        let WriterPool { header, files, is_open: _ } = self;
        (header, files)
    }
}

} // verus!
