use nal_unit_parser::parse;
use nal_unit_parser::IdrPolicy;
use nal_unit_parser::NalUnit;
use nal_unit_parser::NalUnitParser;
use nal_unit_parser::NalUnitType;
use nal_unit_parser::ValidationError;

fn unit_sig(unit: &NalUnit) -> (NalUnitType, Vec<u8>) {
    (unit.to_type(), unit.payload().clone())
}

fn event_sig(event: &Result<NalUnit, ValidationError>) -> Result<(NalUnitType, Vec<u8>), ValidationError> {
    match event {
        Ok(unit) => Ok(unit_sig(unit)),
        Err(e) => Err(*e),
    }
}

fn run_whole(input: &[u8]) -> Vec<Result<(NalUnitType, Vec<u8>), ValidationError>> {
    let mut parser = NalUnitParser::new();
    let mut sigs: Vec<Result<(NalUnitType, Vec<u8>), ValidationError>> = Vec::new();
    for event in parser.push(input) {
        sigs.push(event_sig(&event));
    }
    if let Some(event) = parser.finish() {
        sigs.push(event_sig(&event));
    }
    sigs
}

fn run_chunked(input: &[u8], chunk_len: usize) -> Vec<Result<(NalUnitType, Vec<u8>), ValidationError>> {
    let mut parser = NalUnitParser::new();
    let mut sigs: Vec<Result<(NalUnitType, Vec<u8>), ValidationError>> = Vec::new();
    let mut start: usize = 0;
    while start < input.len() {
        let end: usize = (start + chunk_len).min(input.len());
        for event in parser.push(&input[start..end]) {
            sigs.push(event_sig(&event));
        }
        start = end;
    }
    if let Some(event) = parser.finish() {
        sigs.push(event_sig(&event));
    }
    sigs
}

const MIXED_STREAM: [u8; 18] = [
    0x00, 0x00, 0x01, 0x67, 0xAA, 0xBB, 0x00, 0x00, 0x01, 0x68, 0xCC, 0x00, 0x00, 0x00, 0x01,
    0x65, 0xDD, 0xEE,
];

#[test]
fn ordered_push_and_finish_yield_three_units() {
    let mut parser = NalUnitParser::new();
    let events = parser.push(&MIXED_STREAM);
    assert_eq!(events.len(), 2);
    let first = events[0].as_ref().expect("first unit must parse");
    assert_eq!(first.to_type(), NalUnitType::Sps);
    assert_eq!(first.payload(), &vec![0xAA, 0xBB]);
    let second = events[1].as_ref().expect("second unit must parse");
    assert_eq!(second.to_type(), NalUnitType::Pps);
    assert_eq!(second.payload(), &vec![0xCC]);
    let last = parser.finish().expect("a candidate is open at end of stream");
    let third = last.as_ref().expect("final unit must parse");
    assert_eq!(third.to_type(), NalUnitType::Slice);
    assert_eq!(third.payload(), &vec![0xDD, 0xEE]);
}

#[test]
fn one_shot_parse_yields_three_units() {
    let units = parse(&MIXED_STREAM);
    let sigs: Vec<(NalUnitType, Vec<u8>)> = units.iter().map(unit_sig).collect();
    assert_eq!(
        sigs,
        vec![
            (NalUnitType::Sps, vec![0xAA, 0xBB]),
            (NalUnitType::Pps, vec![0xCC]),
            (NalUnitType::Slice, vec![0xDD, 0xEE]),
        ]
    );
}

#[test]
fn chunk_boundaries_do_not_change_the_events() {
    let whole = run_whole(&MIXED_STREAM);
    for chunk_len in 1..=MIXED_STREAM.len() {
        assert_eq!(run_chunked(&MIXED_STREAM, chunk_len), whole);
    }
    let mut parser = NalUnitParser::new();
    let mut split_everywhere: Vec<Result<(NalUnitType, Vec<u8>), ValidationError>> = Vec::new();
    for byte in MIXED_STREAM.iter() {
        for event in parser.push(&[*byte]) {
            split_everywhere.push(event_sig(&event));
        }
    }
    if let Some(event) = parser.finish() {
        split_everywhere.push(event_sig(&event));
    }
    assert_eq!(split_everywhere, whole);
}

#[test]
fn chunk_boundaries_do_not_change_the_events_with_errors() {
    // 0x85 sets the forbidden bit; 0x05 is an IDR slice with nal_ref_idc 0.
    let stream: [u8; 16] = [
        0x00, 0x00, 0x01, 0x85, 0x11, 0x00, 0x00, 0x01, 0x05, 0x22, 0x00, 0x00, 0x01, 0x67,
        0x33, 0x44,
    ];
    let whole = run_whole(&stream);
    assert_eq!(
        whole,
        vec![
            Err(ValidationError::ForbiddenZeroBit),
            Err(ValidationError::IdrRefIdcZero),
            Ok((NalUnitType::Sps, vec![0x33, 0x44])),
        ]
    );
    for chunk_len in 1..=stream.len() {
        assert_eq!(run_chunked(&stream, chunk_len), whole);
    }
}

#[test]
fn finish_without_open_candidate_is_idempotent() {
    let mut parser = NalUnitParser::new();
    assert!(parser.finish().is_none());
    assert!(parser.finish().is_none());

    let mut parser = NalUnitParser::new();
    parser.push(&MIXED_STREAM);
    assert!(parser.finish().is_some());
    assert!(parser.finish().is_none());
}

#[test]
fn lone_four_byte_start_code_yields_no_units() {
    let mut parser = NalUnitParser::new();
    let events = parser.push(&[0x00, 0x00, 0x00, 0x01]);
    assert!(events.is_empty());
    assert!(parser.finish().is_none());
    assert!(parse(&[0x00, 0x00, 0x00, 0x01]).is_empty());
}

#[test]
fn header_byte_classification() {
    let parser = NalUnitParser::new();
    let sps = parser.parse(&[0x07]).expect("type 7 is a valid SPS");
    assert_eq!(sps.to_type(), NalUnitType::Sps);
    let pps = parser.parse(&[0x08]).expect("type 8 is a valid PPS");
    assert_eq!(pps.to_type(), NalUnitType::Pps);
    let idr = parser.parse(&[0x65]).expect("an IDR slice with ref_idc 3 is valid");
    assert_eq!(idr.to_type(), NalUnitType::Slice);
    assert_eq!(
        parser.parse(&[0x05]).map(|u| u.to_type()),
        Err(ValidationError::IdrRefIdcZero),
        "an IDR slice with ref_idc 0 must be dropped under the default policy"
    );
    assert_eq!(
        parser.parse(&[0x85]).map(|u| u.to_type()),
        Err(ValidationError::ForbiddenZeroBit)
    );
    let sei = parser.parse(&[0x06, 0x01]).expect("type 6 is valid");
    assert_eq!(sei.to_type(), NalUnitType::Other(6));
    assert_eq!(sei.payload(), &vec![0x01]);
    let zero = parser.parse(&[0x00]).expect("type 0 is valid");
    assert_eq!(zero.to_type(), NalUnitType::Other(0));
    let thirty_one = parser.parse(&[0x1F]).expect("type 31 is valid");
    assert_eq!(thirty_one.to_type(), NalUnitType::Other(31));
    let non_idr = parser.parse(&[0x41, 0x9A]).expect("type 1 is a valid slice");
    assert_eq!(non_idr.to_type(), NalUnitType::Slice);
}

#[test]
fn permissive_policy_keeps_idr_without_ref_idc() {
    let parser = NalUnitParser::with_policy(IdrPolicy::Permit);
    let unit = parser.parse(&[0x05, 0x99]).expect("permitted under the permissive policy");
    assert_eq!(unit.to_type(), NalUnitType::Slice);
    assert_eq!(unit.payload(), &vec![0x99]);
    // The forbidden bit is rejected under every policy.
    assert_eq!(
        parser.parse(&[0x85]).map(|u| u.to_type()),
        Err(ValidationError::ForbiddenZeroBit)
    );
}

#[test]
fn invalid_unit_in_stream_resynchronizes() {
    // A corrupt unit between two valid ones: scanning resumes at the next
    // start code and the neighbours are unaffected.
    let stream: [u8; 12] = [
        0x00, 0x00, 0x01, 0x68, 0x10, 0x00, 0x00, 0x01, 0xFF, 0x00, 0x00, 0x01,
    ];
    let mut parser = NalUnitParser::new();
    let mut sigs: Vec<Result<(NalUnitType, Vec<u8>), ValidationError>> = Vec::new();
    for event in parser.push(&stream) {
        sigs.push(event_sig(&event));
    }
    for event in parser.push(&[0x67, 0x55]) {
        sigs.push(event_sig(&event));
    }
    if let Some(event) = parser.finish() {
        sigs.push(event_sig(&event));
    }
    assert_eq!(
        sigs,
        vec![
            Ok((NalUnitType::Pps, vec![0x10])),
            Err(ValidationError::ForbiddenZeroBit),
            Ok((NalUnitType::Sps, vec![0x55])),
        ]
    );
}

#[test]
fn empty_candidate_between_start_codes_is_silent() {
    // Two consecutive start codes delimit an empty candidate: no unit and
    // no error is reported for it.
    let units = parse(&[0x00, 0x00, 0x01, 0x00, 0x00, 0x01, 0x67]);
    let sigs: Vec<(NalUnitType, Vec<u8>)> = units.iter().map(unit_sig).collect();
    assert_eq!(sigs, vec![(NalUnitType::Sps, vec![])]);
}

#[test]
fn bytes_before_the_first_start_code_are_ignored() {
    let units = parse(&[0xAA, 0xBB, 0x00, 0x00, 0x01, 0x67, 0x01]);
    let sigs: Vec<(NalUnitType, Vec<u8>)> = units.iter().map(unit_sig).collect();
    assert_eq!(sigs, vec![(NalUnitType::Sps, vec![0x01])]);
    assert!(parse(&[0xAA, 0xBB]).is_empty());
    assert!(parse(&[]).is_empty());
}

#[test]
fn a_single_leading_zero_is_not_a_start_code() {
    // `00 01` alone does not delimit a unit; the real start code later does.
    let units = parse(&[0x00, 0x01, 0x00, 0x00, 0x01, 0x67, 0x02]);
    let sigs: Vec<(NalUnitType, Vec<u8>)> = units.iter().map(unit_sig).collect();
    assert_eq!(sigs, vec![(NalUnitType::Sps, vec![0x02])]);
}

#[test]
fn zero_run_before_next_start_code_is_not_payload() {
    // The two zeros that precede the next start code belong to it, not to
    // the unit they follow, however many there are.
    let units = parse(&[
        0x00, 0x00, 0x01, 0x67, 0x9F, 0x00, 0x00, 0x00, 0x00, 0x01, 0x68,
    ]);
    let sigs: Vec<(NalUnitType, Vec<u8>)> = units.iter().map(unit_sig).collect();
    assert_eq!(
        sigs,
        vec![(NalUnitType::Sps, vec![0x9F]), (NalUnitType::Pps, vec![])]
    );
}

#[test]
fn unescaped_zeros_inside_a_payload_are_kept() {
    // A lone zero, or a zero pair broken by a non-one byte, stays payload.
    let units = parse(&[0x00, 0x00, 0x01, 0x67, 0x00, 0x02, 0x00, 0x00, 0x03]);
    let sigs: Vec<(NalUnitType, Vec<u8>)> = units.iter().map(unit_sig).collect();
    assert_eq!(sigs, vec![(NalUnitType::Sps, vec![0x00, 0x02, 0x00, 0x00, 0x03])]);
}

#[test]
fn trailing_zeros_at_end_of_stream_stay_in_the_final_unit() {
    // With no following start code to claim them, zero bytes at the very
    // end of the stream are part of the flushed unit's payload.
    let units = parse(&[0x00, 0x00, 0x01, 0x67, 0x00, 0x00]);
    let sigs: Vec<(NalUnitType, Vec<u8>)> = units.iter().map(unit_sig).collect();
    assert_eq!(sigs, vec![(NalUnitType::Sps, vec![0x00, 0x00])]);
}
