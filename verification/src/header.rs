//! The header model: the parts of the file header that this library reads or
//! writes. The ordered collection of program-group entries is held as plain
//! values; every other header field passes through as opaque bytes.

use vstd::prelude::*;

use crate::bytes::{bytes_eq, clone_bytes};

verus! {

/// One program-group entry of the header: the provenance record of one tool
/// that touched the file.
#[derive(Debug, PartialEq, Eq)]
pub struct ProgramEntry {
    /// The entry's identifier, unique within the header.
    pub id: Vec<u8>,
    /// The program's name.
    pub name: Vec<u8>,
    /// The program's version string.
    pub version: Vec<u8>,
    /// The command line that invoked the program.
    pub command_line: Vec<u8>,
    /// The identifier of the predecessor entry, if any.
    pub prev_id: Option<Vec<u8>>,
}

/// Spec-level value of a program-group entry.
#[verifier::ext_equal]
pub struct ProgramEntryV {
    pub id: Seq<u8>,
    pub name: Seq<u8>,
    pub version: Seq<u8>,
    pub command_line: Seq<u8>,
    pub prev_id: Option<Seq<u8>>,
}

impl View for ProgramEntry {
    type V = ProgramEntryV;

    open spec fn view(&self) -> ProgramEntryV {
        ProgramEntryV {
            id: self.id@,
            name: self.name@,
            version: self.version@,
            command_line: self.command_line@,
            prev_id: match &self.prev_id {
                Some(p) => Some(p@),
                None => None,
            },
        }
    }
}

impl DeepView for ProgramEntry {
    type V = ProgramEntryV;

    open spec fn deep_view(&self) -> ProgramEntryV {
        self.view()
    }
}

/// The header of a file: its program-group entries in order, and the rest of
/// the header, which this library never alters.
#[derive(Debug, PartialEq, Eq)]
pub struct HeaderModel {
    /// Every header field other than the program groups, as opaque bytes.
    pub other: Vec<u8>,
    /// The program-group entries, in insertion order.
    pub programs: Vec<ProgramEntry>,
}

/// Spec-level value of a header.
#[verifier::ext_equal]
pub struct HeaderV {
    pub other: Seq<u8>,
    pub programs: Seq<ProgramEntryV>,
}

impl View for HeaderModel {
    type V = HeaderV;

    open spec fn view(&self) -> HeaderV {
        HeaderV { other: self.other@, programs: self.programs.deep_view() }
    }
}

/// The identifier under which this program records itself in the header:
/// the ASCII bytes of "callao".
pub open spec fn callao_id() -> Seq<u8> {
    seq![99u8, 97u8, 108u8, 108u8, 97u8, 111u8]
}

/// The identifier of the upstream demultiplexer whose presence makes the `bc`
/// tag meaningful: the ASCII bytes of "lima".
pub open spec fn lima_id() -> Seq<u8> {
    seq![108u8, 105u8, 109u8, 97u8]
}

/// The identifier "callao" as a byte string.
pub fn callao_id_bytes() -> (r: Vec<u8>)
    ensures
        r@ == callao_id(),
{
    let r = vec![99u8, 97u8, 108u8, 108u8, 97u8, 111u8];
    proof {
        assert(r@ =~= callao_id());
    }
    r
}

/// The identifier "lima" as a byte string.
pub fn lima_id_bytes() -> (r: Vec<u8>)
    ensures
        r@ == lima_id(),
{
    let r = vec![108u8, 105u8, 109u8, 97u8];
    proof {
        assert(r@ =~= lima_id());
    }
    r
}

/// The position of the first program entry with this identifier, or the
/// number of entries when none has it.
pub open spec fn spec_find_program(programs: Seq<ProgramEntryV>, id: Seq<u8>) -> int
    decreases programs.len(),
{
    if programs.len() == 0 {
        0
    } else if programs.first().id == id {
        0
    } else {
        1 + spec_find_program(programs.drop_first(), id)
    }
}

/// Whether some program entry carries this identifier.
pub open spec fn spec_has_program(programs: Seq<ProgramEntryV>, id: Seq<u8>) -> bool {
    spec_find_program(programs, id) < programs.len()
}

/// `spec_find_program` names the first entry with the identifier, if any.
pub proof fn lemma_find_program(programs: Seq<ProgramEntryV>, id: Seq<u8>)
    ensures
        0 <= spec_find_program(programs, id) <= programs.len(),
        forall|j: int| 0 <= j < spec_find_program(programs, id) ==> programs[j].id != id,
        spec_has_program(programs, id) ==> programs[spec_find_program(programs, id)].id == id,
    decreases programs.len(),
{
    if programs.len() > 0 && programs.first().id != id {
        lemma_find_program(programs.drop_first(), id);
        let k = spec_find_program(programs, id);
        assert forall|j: int| 0 <= j < k implies programs[j].id != id by {
            if j >= 1 {
                assert(programs[j] == programs.drop_first()[j - 1]);
            }
        }
        if spec_has_program(programs, id) {
            assert(programs[k] == programs.drop_first()[k - 1]);
        }
    }
}

/// The program-group entry this run appends: name and identifier "callao",
/// the build version, the caller's command line, and the identifier of the
/// last entry already present as predecessor, if any.
pub open spec fn spec_provenance_entry(h: HeaderV, cli_cmd: Seq<u8>, version: Seq<u8>)
    -> ProgramEntryV {
    ProgramEntryV {
        id: callao_id(),
        name: callao_id(),
        version: version,
        command_line: cli_cmd,
        prev_id: if h.programs.len() > 0 {
            Some(h.programs.last().id)
        } else {
            None
        },
    }
}

/// The header after this run records itself: the new entry is inserted under
/// "callao", overwriting an entry already so named, appended otherwise; every
/// other field is unchanged.
pub open spec fn spec_with_provenance(h: HeaderV, cli_cmd: Seq<u8>, version: Seq<u8>) -> HeaderV {
    let e = spec_provenance_entry(h, cli_cmd, version);
    let k = spec_find_program(h.programs, callao_id());
    HeaderV {
        other: h.other,
        programs: if k < h.programs.len() {
            h.programs.update(k, e)
        } else {
            h.programs.push(e)
        },
    }
}

/// Whether the header records the upstream demultiplexer "lima". When it does
/// not, the caller warns and continues.
pub fn has_lima(h: &HeaderModel) -> (r: bool)
    ensures
        r == spec_has_program(h@.programs, lima_id()),
{
    let id = lima_id_bytes();
    match find_program(&h.programs, &id) {
        Some(_) => true,
        None => false,
    }
}

/// The position of the first program entry with identifier `id`, if any.
fn find_program(programs: &Vec<ProgramEntry>, id: &Vec<u8>) -> (r: Option<usize>)
    ensures
        ({
            let k = spec_find_program(programs.deep_view(), id@);
            match r {
                Some(i) => i == k && k < programs.len() && programs.deep_view()[k].id == id@,
                None => k == programs.len(),
            }
        }),
{
    proof {
        lemma_find_program(programs.deep_view(), id@);
    }
    let ghost k = spec_find_program(programs.deep_view(), id@);
    let mut i: usize = 0;
    while i < programs.len()
        invariant
            i <= programs.len(),
            programs.deep_view().len() == programs.len(),
            forall|j: int|
                0 <= j < programs.len() ==> programs.deep_view()[j] == #[trigger] programs[j]@,
            forall|j: int| 0 <= j < i ==> programs.deep_view()[j].id != id@,
            k == spec_find_program(programs.deep_view(), id@),
            0 <= k <= programs.len(),
            forall|j: int| 0 <= j < k ==> programs.deep_view()[j].id != id@,
            k < programs.len() ==> programs.deep_view()[k].id == id@,
        decreases programs.len() - i,
    {
        if bytes_eq(&programs[i].id, id) {
            proof {
                assert(programs.deep_view()[i as int].id == id@);
                if k < i {
                    assert(programs.deep_view()[k].id != id@);
                }
                if i < k {
                    assert(programs.deep_view()[i as int].id != id@);
                }
                assert(i == k);
            }
            return Some(i);
        }
        i = i + 1;
    }
    None
}

/// Records this run in the header: builds the provenance entry and inserts it
/// under "callao", overwriting an entry already so named, appending otherwise.
/// Nothing else in the header changes.
pub fn add_program_tag(h: &mut HeaderModel, cli_cmd: &Vec<u8>, version: &Vec<u8>)
    ensures
        final(h)@ == spec_with_provenance(old(h)@, cli_cmd@, version@),
{
    let id = callao_id_bytes();
    let prev_id = if h.programs.len() > 0 {
        Some(clone_bytes(&h.programs[h.programs.len() - 1].id))
    } else {
        None
    };
    let entry = ProgramEntry {
        id: callao_id_bytes(),
        name: id,
        version: clone_bytes(version),
        command_line: clone_bytes(cli_cmd),
        prev_id,
    };
    proof {
        assert(h@.programs.len() > 0 ==> h@.programs.last() == h.programs[h.programs.len()
            - 1]@);
        assert(entry@ =~= spec_provenance_entry(h@, cli_cmd@, version@));
    }
    let ghost pre = h@;
    let cid = callao_id_bytes();
    match find_program(&h.programs, &cid) {
        Some(i) => {
            h.programs.set(i, entry);
            proof {
                assert(h@.programs =~~= pre.programs.update(i as int, entry@));
                assert(h@ =~~= spec_with_provenance(pre, cli_cmd@, version@));
            }
        },
        None => {
            h.programs.push(entry);
            proof {
                assert(h@.programs =~~= pre.programs.push(entry@));
                assert(h@ =~~= spec_with_provenance(pre, cli_cmd@, version@));
            }
        },
    }
}

/// A copy of a header.
pub fn clone_header(h: &HeaderModel) -> (c: HeaderModel)
    ensures
        c@ == h@,
{
    let mut programs: Vec<ProgramEntry> = Vec::new();
    let mut i: usize = 0;
    while i < h.programs.len()
        invariant
            i <= h.programs.len(),
            programs.deep_view() == h.programs.deep_view().subrange(0, i as int),
        decreases h.programs.len() - i,
    {
        let e = &h.programs[i];
        let c = ProgramEntry {
            id: clone_bytes(&e.id),
            name: clone_bytes(&e.name),
            version: clone_bytes(&e.version),
            command_line: clone_bytes(&e.command_line),
            prev_id: match &e.prev_id {
                Some(p) => Some(clone_bytes(p)),
                None => None,
            },
        };
        proof {
            assert(c@ =~= e@);
        }
        let ghost pre_dv = programs.deep_view();
        programs.push(c);
        proof {
            assert(programs.deep_view() =~~= pre_dv.push(c@));
            assert(programs.deep_view() =~~= h.programs.deep_view().subrange(0, i + 1 as int));
        }
        i = i + 1;
    }
    proof {
        assert(h.programs.deep_view().subrange(0, h.programs.len() as int)
            =~= h.programs.deep_view());
    }
    let c = HeaderModel { other: clone_bytes(&h.other), programs };
    proof {
        assert(c@ =~~= h@);
    }
    c
}

} // verus!
