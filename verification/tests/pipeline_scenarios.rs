//! End-to-end scenarios: the pipeline run over small inputs.

use callao::header::{HeaderModel, ProgramEntry};
use callao::pipeline::run_pipeline;
use callao::record::{BcTag, TaggedRecord};
use callao::routing::{BarcodePair, RoutingTable};

fn pair(first: u16, second: u16) -> BarcodePair {
    BarcodePair { first, second }
}

fn rec(first: u16, second: u16, payload: u8) -> TaggedRecord {
    TaggedRecord { tag: BcTag::U16Array(vec![first, second]), payload: vec![payload] }
}

fn lima_header() -> HeaderModel {
    HeaderModel {
        other: b"hd".to_vec(),
        programs: vec![ProgramEntry {
            id: b"lima".to_vec(),
            name: b"lima".to_vec(),
            version: b"2.0".to_vec(),
            command_line: b"lima in.bam".to_vec(),
            prev_id: None,
        }],
    }
}

fn payloads(records: &[TaggedRecord]) -> Vec<Vec<u8>> {
    records.iter().map(|r| r.payload.clone()).collect()
}

#[test]
fn fan_out() {
    let mut table = RoutingTable::new();
    table.add_route(pair(0, 1), b"A".to_vec());
    table.add_route(pair(0, 2), b"B".to_vec());
    let records = vec![rec(0, 1, 1), rec(0, 2, 2), rec(0, 1, 3)];
    let out = run_pipeline(lima_header(), &b"callao run".to_vec(), &b"1.0".to_vec(), &records, &table);
    assert_eq!(out.outputs.len(), 2);
    assert_eq!(out.outputs[0].path, b"A".to_vec());
    assert_eq!(payloads(&out.outputs[0].records), vec![vec![1u8], vec![3u8]]);
    assert_eq!(out.outputs[1].path, b"B".to_vec());
    assert_eq!(payloads(&out.outputs[1].records), vec![vec![2u8]]);
}

#[test]
fn collapse_two_pairs_one_file() {
    let mut table = RoutingTable::new();
    table.add_route(pair(0, 1), b"A".to_vec());
    table.add_route(pair(1, 0), b"A".to_vec());
    let records = vec![rec(0, 1, 1), rec(1, 0, 2), rec(0, 1, 3)];
    let out = run_pipeline(lima_header(), &b"c".to_vec(), &b"1.0".to_vec(), &records, &table);
    assert_eq!(out.outputs.len(), 1);
    assert_eq!(out.outputs[0].path, b"A".to_vec());
    assert_eq!(payloads(&out.outputs[0].records), vec![vec![1u8], vec![2u8], vec![3u8]]);
}

#[test]
fn drop_unroutable() {
    let mut table = RoutingTable::new();
    table.add_route(pair(0, 1), b"A".to_vec());
    let records = vec![rec(0, 1, 1), rec(9, 9, 2), rec(0, 1, 3)];
    let out = run_pipeline(lima_header(), &b"c".to_vec(), &b"1.0".to_vec(), &records, &table);
    assert_eq!(out.outputs.len(), 1);
    assert_eq!(payloads(&out.outputs[0].records), vec![vec![1u8], vec![3u8]]);
}

#[test]
fn malformed_tag_length_three() {
    let mut table = RoutingTable::new();
    table.add_route(pair(0, 1), b"A".to_vec());
    let odd = TaggedRecord { tag: BcTag::U16Array(vec![0, 1, 2]), payload: vec![2] };
    let records = vec![rec(0, 1, 1), odd, rec(0, 1, 3)];
    let out = run_pipeline(lima_header(), &b"c".to_vec(), &b"1.0".to_vec(), &records, &table);
    assert_eq!(out.outputs.len(), 1);
    assert_eq!(payloads(&out.outputs[0].records), vec![vec![1u8], vec![3u8]]);
}

#[test]
fn missing_bc_dropped() {
    let mut table = RoutingTable::new();
    table.add_route(pair(0, 1), b"A".to_vec());
    let records = vec![
        TaggedRecord { tag: BcTag::Missing, payload: vec![1] },
        rec(0, 1, 2),
    ];
    let out = run_pipeline(lima_header(), &b"c".to_vec(), &b"1.0".to_vec(), &records, &table);
    assert_eq!(out.outputs.len(), 1);
    assert_eq!(payloads(&out.outputs[0].records), vec![vec![2u8]]);
}

#[test]
fn wrong_subtype_dropped() {
    let mut table = RoutingTable::new();
    table.add_route(pair(0, 1), b"A".to_vec());
    let records = vec![
        TaggedRecord { tag: BcTag::WrongSubtype, payload: vec![1] },
        rec(0, 1, 2),
    ];
    let out = run_pipeline(lima_header(), &b"c".to_vec(), &b"1.0".to_vec(), &records, &table);
    assert_eq!(payloads(&out.outputs[0].records), vec![vec![2u8]]);
}

#[test]
fn empty_input_writes_header_only() {
    let mut table = RoutingTable::new();
    table.add_route(pair(0, 1), b"A".to_vec());
    let records: Vec<TaggedRecord> = Vec::new();
    let out = run_pipeline(lima_header(), &b"c".to_vec(), &b"1.0".to_vec(), &records, &table);
    assert_eq!(out.outputs.len(), 1);
    assert_eq!(out.outputs[0].path, b"A".to_vec());
    assert!(out.outputs[0].records.is_empty());
    assert_eq!(out.header.programs.last().unwrap().id, b"callao".to_vec());
}

#[test]
fn empty_table_yields_no_outputs() {
    let table = RoutingTable::new();
    let records = vec![rec(0, 1, 1)];
    let out = run_pipeline(lima_header(), &b"c".to_vec(), &b"1.0".to_vec(), &records, &table);
    assert!(out.outputs.is_empty());
}

#[test]
fn provenance_warning_without_lima() {
    let mut table = RoutingTable::new();
    table.add_route(pair(0, 1), b"A".to_vec());
    let bare = HeaderModel { other: b"hd".to_vec(), programs: Vec::new() };
    let out = run_pipeline(bare, &b"cmd".to_vec(), &b"1.0".to_vec(), &vec![rec(0, 1, 1)], &table);
    assert!(out.missing_lima_warning);
    assert_eq!(out.header.programs.len(), 1);
    assert_eq!(out.header.programs[0].id, b"callao".to_vec());
    assert_eq!(payloads(&out.outputs[0].records), vec![vec![1u8]]);
}

#[test]
fn no_warning_with_lima() {
    let mut table = RoutingTable::new();
    table.add_route(pair(0, 1), b"A".to_vec());
    let out = run_pipeline(lima_header(), &b"cmd".to_vec(), &b"1.0".to_vec(), &Vec::new(), &table);
    assert!(!out.missing_lima_warning);
}

#[test]
fn same_input_same_output() {
    let mut table = RoutingTable::new();
    table.add_route(pair(0, 1), b"A".to_vec());
    table.add_route(pair(2, 3), b"B".to_vec());
    let records = vec![rec(0, 1, 1), rec(2, 3, 2), rec(0, 1, 3)];
    let first = run_pipeline(lima_header(), &b"c".to_vec(), &b"1.0".to_vec(), &records, &table);
    let second = run_pipeline(lima_header(), &b"c".to_vec(), &b"1.0".to_vec(), &records, &table);
    assert_eq!(first.header, second.header);
    assert_eq!(first.outputs, second.outputs);
    assert_eq!(first.missing_lima_warning, second.missing_lima_warning);
}

#[test]
fn conservation_across_outputs() {
    let mut table = RoutingTable::new();
    table.add_route(pair(0, 1), b"A".to_vec());
    table.add_route(pair(0, 2), b"B".to_vec());
    let records = vec![
        rec(0, 1, 1),
        rec(0, 2, 2),
        TaggedRecord { tag: BcTag::Missing, payload: vec![3] },
        rec(9, 9, 4),
        rec(0, 1, 5),
    ];
    let out = run_pipeline(lima_header(), &b"c".to_vec(), &b"1.0".to_vec(), &records, &table);
    let mut written: Vec<Vec<u8>> = Vec::new();
    for file in &out.outputs {
        written.extend(payloads(&file.records));
    }
    written.sort();
    assert_eq!(written, vec![vec![1u8], vec![2u8], vec![5u8]]);
}
