//! The per-record data the router reads: the parsed content of the `bc`
//! auxiliary field, plus the record's encoded payload, which flows through
//! the router unaltered.

use vstd::prelude::*;

use crate::bytes::clone_bytes;

verus! {

/// Parsed content of a record's `bc` auxiliary field.
#[derive(Debug, PartialEq, Eq)]
pub enum BcTag {
    /// The record has no `bc` field.
    Missing,
    /// `bc` is present but is not an array of unsigned 16-bit integers.
    WrongSubtype,
    /// `bc` is an array of unsigned 16-bit integers with these elements, in
    /// their stored order (a well-formed tag has exactly two).
    U16Array(Vec<u16>),
}

/// Spec-level value of a `bc` field.
#[verifier::ext_equal]
pub enum BcTagV {
    Missing,
    WrongSubtype,
    U16Array(Seq<u16>),
}

impl View for BcTag {
    type V = BcTagV;

    open spec fn view(&self) -> BcTagV {
        match self {
            BcTag::Missing => BcTagV::Missing,
            BcTag::WrongSubtype => BcTagV::WrongSubtype,
            BcTag::U16Array(v) => BcTagV::U16Array(v@),
        }
    }
}

impl DeepView for BcTag {
    type V = BcTagV;

    open spec fn deep_view(&self) -> BcTagV {
        self.view()
    }
}

/// One alignment record, as the router sees it: its `bc` tag and its encoded
/// payload, opaque to the routing logic.
#[derive(Debug, PartialEq, Eq)]
pub struct TaggedRecord {
    pub tag: BcTag,
    pub payload: Vec<u8>,
}

/// Spec-level value of a record.
#[verifier::ext_equal]
pub struct TaggedRecordV {
    pub tag: BcTagV,
    pub payload: Seq<u8>,
}

impl View for TaggedRecord {
    type V = TaggedRecordV;

    open spec fn view(&self) -> TaggedRecordV {
        TaggedRecordV { tag: self.tag@, payload: self.payload@ }
    }
}

impl DeepView for TaggedRecord {
    type V = TaggedRecordV;

    open spec fn deep_view(&self) -> TaggedRecordV {
        self.view()
    }
}

/// A copy of a `bc` tag value.
pub fn clone_tag(t: &BcTag) -> (r: BcTag)
    ensures
        r@ == t@,
{
    match t {
        BcTag::Missing => BcTag::Missing,
        BcTag::WrongSubtype => BcTag::WrongSubtype,
        BcTag::U16Array(v) => {
            let mut c: Vec<u16> = Vec::new();
            let mut i: usize = 0;
            while i < v.len()
                invariant
                    i <= v.len(),
                    c@ == v@.subrange(0, i as int),
                decreases v.len() - i,
            {
                c.push(v[i]);
                proof {
                    assert(c@ =~= v@.subrange(0, i + 1 as int));
                }
                i = i + 1;
            }
            proof {
                assert(v@.subrange(0, v@.len() as int) =~= v@);
            }
            BcTag::U16Array(c)
        },
    }
}

/// A copy of a record.
pub fn clone_record(r: &TaggedRecord) -> (c: TaggedRecord)
    ensures
        c@ == r@,
{
    TaggedRecord { tag: clone_tag(&r.tag), payload: clone_bytes(&r.payload) }
}

} // verus!
