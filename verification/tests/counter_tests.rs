use nal_unit_parser::parse;
use nal_unit_parser::NalUnitCount;
use nal_unit_parser::NalUnitParser;
use nal_unit_parser::NalUnitType;

#[test]
fn sum_of_counts_equals_number_of_parsed_units() {
    // A stream with five valid units and one invalid one: the table's total
    // is exactly the number of units that parsed.
    let stream: [u8; 26] = [
        0x00, 0x00, 0x01, 0x67, 0x01, 0x00, 0x00, 0x01, 0x68, 0x02, 0x00, 0x00, 0x01, 0x65,
        0x03, 0x00, 0x00, 0x01, 0x85, 0x04, 0x00, 0x00, 0x01, 0x41, 0x00, 0x06,
    ];
    let mut parser = NalUnitParser::new();
    let mut counter = NalUnitCount::new();
    let mut parsed: u64 = 0;
    for event in parser.push(&stream) {
        if let Ok(unit) = event {
            counter.update(&unit);
            parsed += 1;
        }
    }
    if let Some(Ok(unit)) = parser.finish() {
        counter.update(&unit);
        parsed += 1;
    }
    assert_eq!(parsed, 4);
    assert_eq!(counter.total(), parsed);
    let by_type = counter.count(NalUnitType::Sps)
        + counter.count(NalUnitType::Pps)
        + counter.count(NalUnitType::Slice);
    assert_eq!(by_type, parsed);
}

#[test]
fn duplicate_units_count_again() {
    // The same unit bytes appearing twice increment the same count twice:
    // counting does not deduplicate.
    let stream: [u8; 12] = [
        0x00, 0x00, 0x01, 0x65, 0xAA, 0x07, 0x00, 0x00, 0x01, 0x65, 0xAA, 0x07,
    ];
    let units = parse(&stream);
    assert_eq!(units.len(), 2);
    let mut counter = NalUnitCount::new();
    for unit in &units {
        counter.update(unit);
    }
    assert_eq!(counter.count(NalUnitType::Slice), 2);
    assert_eq!(counter.total(), 2);
}

#[test]
fn update_groups_all_slice_kinds_and_keeps_other_codes_apart() {
    let parser = NalUnitParser::new();
    let mut counter = NalUnitCount::new();
    // Type codes 1 and 5 both land in the Slice bucket.
    counter.update(&parser.parse(&[0x41]).unwrap());
    counter.update(&parser.parse(&[0x65]).unwrap());
    // Types 6 and 9 stay apart as Other(6) and Other(9).
    counter.update(&parser.parse(&[0x06]).unwrap());
    counter.update(&parser.parse(&[0x09]).unwrap());
    assert_eq!(counter.count(NalUnitType::Slice), 2);
    assert_eq!(counter.count(NalUnitType::Other(6)), 1);
    assert_eq!(counter.count(NalUnitType::Other(9)), 1);
    assert_eq!(counter.count(NalUnitType::Other(7)), 0);
    assert_eq!(counter.count(NalUnitType::Sps), 0);
    assert_eq!(counter.total(), 4);
}

#[test]
fn format_renders_counts_in_insertion_order() {
    let parser = NalUnitParser::new();
    let mut counter = NalUnitCount::new();
    assert_eq!(counter.format(), "");
    counter.update(&parser.parse(&[0x67]).unwrap());
    assert_eq!(counter.format(), "Sps: 1");
    counter.update(&parser.parse(&[0x68]).unwrap());
    counter.update(&parser.parse(&[0x65]).unwrap());
    counter.update(&parser.parse(&[0x61]).unwrap());
    counter.update(&parser.parse(&[0x06]).unwrap());
    assert_eq!(counter.format(), "Sps: 1, Pps: 1, Slice: 2, Other(6): 1");
}

#[test]
fn format_renders_multi_digit_counts() {
    let parser = NalUnitParser::new();
    let mut counter = NalUnitCount::new();
    for _ in 0..12 {
        counter.update(&parser.parse(&[0x65]).unwrap());
    }
    assert_eq!(counter.format(), "Slice: 12");
    counter.update(&parser.parse(&[0x1F]).unwrap());
    assert_eq!(counter.format(), "Slice: 12, Other(31): 1");
}

#[test]
fn format_does_not_mutate() {
    let parser = NalUnitParser::new();
    let mut counter = NalUnitCount::new();
    counter.update(&parser.parse(&[0x67]).unwrap());
    let first = counter.format();
    let second = counter.format();
    assert_eq!(first, second);
    assert_eq!(counter.total(), 1);
}

#[test]
fn whole_pipeline_snapshot() {
    let stream: [u8; 18] = [
        0x00, 0x00, 0x01, 0x67, 0xAA, 0xBB, 0x00, 0x00, 0x01, 0x68, 0xCC, 0x00, 0x00, 0x00,
        0x01, 0x65, 0xDD, 0xEE,
    ];
    let mut counter = NalUnitCount::new();
    for unit in parse(&stream) {
        counter.update(&unit);
    }
    assert_eq!(counter.total(), 3);
    assert_eq!(counter.format(), "Sps: 1, Pps: 1, Slice: 1");
}
