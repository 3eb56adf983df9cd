//! Component-level behavior: the routing table, the router, the header
//! provenance editor and the writer pool.

use callao::header::{add_program_tag, has_lima, HeaderModel, ProgramEntry};
use callao::pool::WriterPool;
use callao::record::{BcTag, TaggedRecord};
use callao::router::{route_record, Disposition};
use callao::routing::{BarcodePair, RoutingTable};

fn pair(first: u16, second: u16) -> BarcodePair {
    BarcodePair { first, second }
}

fn entry(id: &[u8], prev: Option<&[u8]>) -> ProgramEntry {
    ProgramEntry {
        id: id.to_vec(),
        name: id.to_vec(),
        version: b"0".to_vec(),
        command_line: b"x".to_vec(),
        prev_id: prev.map(|p| p.to_vec()),
    }
}

#[test]
fn lookup_finds_added_route() {
    let mut table = RoutingTable::new();
    table.add_route(pair(3, 4), b"out.bam".to_vec());
    assert_eq!(table.lookup(pair(3, 4)), Some(b"out.bam".to_vec()));
    assert_eq!(table.lookup(pair(4, 3)), None);
}

#[test]
fn add_route_overwrites_same_pair() {
    let mut table = RoutingTable::new();
    table.add_route(pair(1, 2), b"old".to_vec());
    table.add_route(pair(1, 2), b"new".to_vec());
    assert_eq!(table.len(), 1);
    assert_eq!(table.lookup(pair(1, 2)), Some(b"new".to_vec()));
}

#[test]
fn destinations_are_distinct_in_first_occurrence_order() {
    let mut table = RoutingTable::new();
    table.add_route(pair(0, 1), b"A".to_vec());
    table.add_route(pair(1, 0), b"A".to_vec());
    table.add_route(pair(0, 2), b"B".to_vec());
    let dests = table.destinations();
    assert_eq!(dests, vec![b"A".to_vec(), b"B".to_vec()]);
}

#[test]
fn route_record_routes_known_pair() {
    let mut table = RoutingTable::new();
    table.add_route(pair(0, 1), b"A".to_vec());
    let d = route_record(&BcTag::U16Array(vec![0, 1]), &table);
    assert_eq!(d, Disposition::Route(b"A".to_vec()));
}

#[test]
fn route_record_drops_missing_tag() {
    let table = RoutingTable::new();
    assert_eq!(route_record(&BcTag::Missing, &table), Disposition::MissingTag);
}

#[test]
fn route_record_drops_wrong_subtype() {
    let table = RoutingTable::new();
    assert_eq!(route_record(&BcTag::WrongSubtype, &table), Disposition::WrongSubtype);
}

#[test]
fn route_record_reports_bad_length() {
    let mut table = RoutingTable::new();
    table.add_route(pair(0, 1), b"A".to_vec());
    let d = route_record(&BcTag::U16Array(vec![0, 1, 2]), &table);
    assert_eq!(d, Disposition::BadLength(3));
    let d = route_record(&BcTag::U16Array(vec![7]), &table);
    assert_eq!(d, Disposition::BadLength(1));
}

#[test]
fn route_record_drops_unrouted_pair() {
    let mut table = RoutingTable::new();
    table.add_route(pair(0, 1), b"A".to_vec());
    assert_eq!(route_record(&BcTag::U16Array(vec![9, 9]), &table), Disposition::Unrouted);
}

#[test]
fn pair_order_matters() {
    let mut table = RoutingTable::new();
    table.add_route(pair(0, 1), b"A".to_vec());
    assert_eq!(route_record(&BcTag::U16Array(vec![1, 0]), &table), Disposition::Unrouted);
}

#[test]
fn add_program_tag_appends_with_predecessor() {
    let mut h = HeaderModel {
        other: b"rest".to_vec(),
        programs: vec![entry(b"lima", None)],
    };
    add_program_tag(&mut h, &b"callao --split".to_vec(), &b"1.2.3".to_vec());
    assert_eq!(h.other, b"rest".to_vec());
    assert_eq!(h.programs.len(), 2);
    let added = &h.programs[1];
    assert_eq!(added.id, b"callao".to_vec());
    assert_eq!(added.name, b"callao".to_vec());
    assert_eq!(added.version, b"1.2.3".to_vec());
    assert_eq!(added.command_line, b"callao --split".to_vec());
    assert_eq!(added.prev_id, Some(b"lima".to_vec()));
}

#[test]
fn add_program_tag_on_empty_header_has_no_predecessor() {
    let mut h = HeaderModel { other: Vec::new(), programs: Vec::new() };
    add_program_tag(&mut h, &b"cmd".to_vec(), &b"1".to_vec());
    assert_eq!(h.programs.len(), 1);
    assert_eq!(h.programs[0].prev_id, None);
}

#[test]
fn add_program_tag_overwrites_existing_callao() {
    let mut h = HeaderModel {
        other: Vec::new(),
        programs: vec![entry(b"callao", None), entry(b"lima", None)],
    };
    add_program_tag(&mut h, &b"again".to_vec(), &b"2".to_vec());
    assert_eq!(h.programs.len(), 2);
    assert_eq!(h.programs[0].id, b"callao".to_vec());
    assert_eq!(h.programs[0].command_line, b"again".to_vec());
    assert_eq!(h.programs[0].prev_id, Some(b"lima".to_vec()));
    assert_eq!(h.programs[1].id, b"lima".to_vec());
}

#[test]
fn has_lima_looks_for_the_identifier() {
    let with = HeaderModel { other: Vec::new(), programs: vec![entry(b"lima", None)] };
    let without = HeaderModel { other: Vec::new(), programs: vec![entry(b"other", None)] };
    assert!(has_lima(&with));
    assert!(!has_lima(&without));
}

#[test]
fn pool_opens_one_writer_per_distinct_path() {
    let mut table = RoutingTable::new();
    table.add_route(pair(0, 1), b"A".to_vec());
    table.add_route(pair(1, 1), b"B".to_vec());
    table.add_route(pair(2, 2), b"A".to_vec());
    let header = HeaderModel { other: Vec::new(), programs: Vec::new() };
    let pool = WriterPool::build(header, &table);
    assert_eq!(pool.files.len(), 2);
    assert_eq!(pool.files[0].path, b"A".to_vec());
    assert_eq!(pool.files[1].path, b"B".to_vec());
    assert!(pool.files.iter().all(|f| f.records.is_empty()));
    assert!(pool.is_open);
}

#[test]
fn pool_writes_to_the_matching_file_only() {
    let mut table = RoutingTable::new();
    table.add_route(pair(0, 1), b"A".to_vec());
    table.add_route(pair(0, 2), b"B".to_vec());
    let header = HeaderModel { other: Vec::new(), programs: Vec::new() };
    let mut pool = WriterPool::build(header, &table);
    let r = TaggedRecord { tag: BcTag::U16Array(vec![0, 1]), payload: vec![9] };
    let hit = pool.write_record(&b"B".to_vec(), r);
    assert!(hit);
    assert_eq!(pool.files[0].records.len(), 0);
    assert_eq!(pool.files[1].records.len(), 1);
    let miss = pool.write_record(
        &b"C".to_vec(),
        TaggedRecord { tag: BcTag::Missing, payload: vec![1] },
    );
    assert!(!miss);
}

#[test]
fn drain_returns_files_as_written() {
    let mut table = RoutingTable::new();
    table.add_route(pair(0, 1), b"A".to_vec());
    let header = HeaderModel { other: b"h".to_vec(), programs: Vec::new() };
    let mut pool = WriterPool::build(header, &table);
    pool.write_record(
        &b"A".to_vec(),
        TaggedRecord { tag: BcTag::U16Array(vec![0, 1]), payload: vec![5] },
    );
    let (header_out, files) = pool.drain();
    assert_eq!(header_out.other, b"h".to_vec());
    assert_eq!(files.len(), 1);
    assert_eq!(files[0].records[0].payload, vec![5u8]);
}
