//! The per-record routing decision: read the `bc` tag, form the barcode pair,
//! look it up in the routing table.

use vstd::prelude::*;

use crate::record::{BcTag, BcTagV, TaggedRecordV};
use crate::routing::{spec_lookup, BarcodePair, RouteEntryV, RoutingTable};

verus! {

/// What becomes of one record.
#[derive(Debug, PartialEq, Eq)]
pub enum Disposition {
    /// The record is written to this destination path.
    Route(Vec<u8>),
    /// The record has no `bc` field: dropped silently.
    MissingTag,
    /// The `bc` field is not an array of unsigned 16-bit integers: dropped.
    WrongSubtype,
    /// The `bc` array does not have exactly two elements: dropped, and the
    /// offending length is reported for a diagnostic.
    BadLength(usize),
    /// The pair is not in the routing table: dropped silently.
    Unrouted,
}

/// Spec-level value of a disposition.
#[verifier::ext_equal]
pub enum DispositionV {
    Route(Seq<u8>),
    MissingTag,
    WrongSubtype,
    BadLength(nat),
    Unrouted,
}

impl View for Disposition {
    type V = DispositionV;

    open spec fn view(&self) -> DispositionV {
        match self {
            Disposition::Route(p) => DispositionV::Route(p@),
            Disposition::MissingTag => DispositionV::MissingTag,
            Disposition::WrongSubtype => DispositionV::WrongSubtype,
            Disposition::BadLength(n) => DispositionV::BadLength(*n as nat),
            Disposition::Unrouted => DispositionV::Unrouted,
        }
    }
}

/// The disposition of a record whose `bc` field reads `tag`, under the routing
/// table `entries`: a missing or malformed tag is dropped, a well-formed pair
/// is routed to the table's destination when the table maps it.
pub open spec fn spec_route(tag: BcTagV, entries: Seq<RouteEntryV>) -> DispositionV {
    match tag {
        BcTagV::Missing => DispositionV::MissingTag,
        BcTagV::WrongSubtype => DispositionV::WrongSubtype,
        BcTagV::U16Array(a) => if a.len() != 2 {
            DispositionV::BadLength(a.len())
        } else {
            match spec_lookup(entries, BarcodePair { first: a[0], second: a[1] }) {
                Some(p) => DispositionV::Route(p),
                None => DispositionV::Unrouted,
            }
        },
    }
}

/// A record routes to `path` when its tag is a two-element pair that the
/// table maps to `path`.
pub open spec fn spec_routes_to(r: TaggedRecordV, entries: Seq<RouteEntryV>, path: Seq<u8>) -> bool {
    spec_route(r.tag, entries) == DispositionV::Route(path)
}

/// A record is routed somewhere when its tag is a two-element pair present in
/// the table.
pub open spec fn spec_is_routed(r: TaggedRecordV, entries: Seq<RouteEntryV>) -> bool {
    spec_route(r.tag, entries) is Route
}

/// The records that route to `path`, as a predicate on records.
pub open spec fn routes_pred(entries: Seq<RouteEntryV>, path: Seq<u8>) -> spec_fn(
    TaggedRecordV,
) -> bool {
    |r: TaggedRecordV| spec_routes_to(r, entries, path)
}

/// The records that route anywhere, as a predicate on records.
pub open spec fn routed_pred(entries: Seq<RouteEntryV>) -> spec_fn(TaggedRecordV) -> bool {
    |r: TaggedRecordV| spec_is_routed(r, entries)
}

/// The barcode pair of a well-formed `bc` tag: a two-element array of
/// unsigned 16-bit integers, in stored order.
pub open spec fn spec_pair_of(tag: BcTagV) -> Option<BarcodePair> {
    match tag {
        BcTagV::U16Array(a) => if a.len() == 2 {
            Some(BarcodePair { first: a[0], second: a[1] })
        } else {
            None
        },
        _ => None,
    }
}

/// Decides the disposition of one record from its `bc` tag and the table.
pub fn route_record(tag: &BcTag, table: &RoutingTable) -> (d: Disposition)
    ensures
        d@ == spec_route(tag@, table@),
{
    match tag {
        BcTag::Missing => Disposition::MissingTag,
        BcTag::WrongSubtype => Disposition::WrongSubtype,
        BcTag::U16Array(a) => {
            if a.len() != 2 {
                Disposition::BadLength(a.len())
            } else {
                let pair = BarcodePair { first: a[0], second: a[1] };
                match table.lookup(pair) {
                    Some(p) => Disposition::Route(p),
                    None => Disposition::Unrouted,
                }
            }
        },
    }
}

} // verus!
