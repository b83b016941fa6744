//! The incremental Annex-B start-code scanner.
//!
//! The framer consumes byte chunks of arbitrary size and emits a completed
//! NAL unit (or a per-unit validation error) whenever the next start-code
//! prefix makes the previous unit's extent known.  A start code is a run of
//! at least two `0x00` bytes followed by `0x01`; extra leading zero bytes are
//! tolerated and never counted as payload.  Because the last unit of a stream
//! is only delimited by the end of input, [`NalUnitParser::finish`] flushes
//! the currently open candidate, if any.

use vstd::prelude::*;

use crate::nal::spec_decode;
use crate::nal::IdrPolicy;
use crate::nal::NalUnit;
use crate::nal::NalUnitModel;
use crate::nal::ValidationError;

verus! {

/// The mathematical state of the scanner: whether a start code has been seen
/// yet, the bytes accumulated since the last start code (trailing zero bytes
/// included), and the length of the current run of trailing `0x00` bytes.
pub ghost struct ScanState {
    pub started: bool,
    pub buf: Seq<u8>,
    pub zero_run: nat,
}

/// The scanner's initial state: no start code seen, nothing buffered.
pub open spec fn scan_init() -> ScanState {
    ScanState { started: false, buf: Seq::empty(), zero_run: 0 }
}

/// Whether the byte `b`, arriving in state `s`, completes a start-code
/// prefix: it is `0x01` and at least two `0x00` bytes precede it.
pub open spec fn spec_is_start(s: ScanState, b: u8) -> bool {
    b == 0x01 && s.zero_run >= 2
}

/// The scanner state after consuming one byte.  A zero byte is buffered and
/// extends the zero run; a byte that completes a start code opens a fresh
/// candidate; any other byte is buffered as candidate content and resets the
/// zero run.
pub open spec fn spec_step(s: ScanState, b: u8) -> ScanState {
    if b == 0x00 {
        ScanState { started: s.started, buf: s.buf.push(b), zero_run: s.zero_run + 1 }
    } else if spec_is_start(s, b) {
        ScanState { started: true, buf: Seq::empty(), zero_run: 0 }
    } else {
        ScanState { started: s.started, buf: s.buf.push(b), zero_run: 0 }
    }
}

/// The raw bytes of the candidate that the byte `b` completes, if any: a
/// start code must fire, a previous start code must have been seen, and the
/// candidate must hold at least one byte once the zero-run padding that
/// belongs to the new start code is stripped.  An empty candidate (two
/// consecutive start codes) is discarded silently.
pub open spec fn spec_step_emits(s: ScanState, b: u8) -> Option<Seq<u8>> {
    if spec_is_start(s, b) && s.started && s.buf.len() > s.zero_run {
        Some(s.buf.take(s.buf.len() - s.zero_run))
    } else {
        None
    }
}

/// The event, if any, that consuming `b` in state `s` produces: the completed
/// candidate's decoded unit, or its validation error.
pub open spec fn spec_step_event(policy: IdrPolicy, s: ScanState, b: u8) -> Option<
    Result<NalUnitModel, ValidationError>,
> {
    match spec_step_emits(s, b) {
        Some(raw) => Some(spec_decode(policy, raw)),
        None => None,
    }
}

/// The scanner state after consuming a whole byte sequence.
pub open spec fn scan_state(s: ScanState, bytes: Seq<u8>) -> ScanState
    decreases bytes.len(),
{
    if bytes.len() == 0 {
        s
    } else {
        scan_state(spec_step(s, bytes[0]), bytes.skip(1))
    }
}

/// The ordered events that consuming a whole byte sequence produces.
pub open spec fn scan_events(policy: IdrPolicy, s: ScanState, bytes: Seq<u8>) -> Seq<
    Result<NalUnitModel, ValidationError>,
>
    decreases bytes.len(),
{
    if bytes.len() == 0 {
        Seq::empty()
    } else {
        (match spec_step_event(policy, s, bytes[0]) {
            Some(e) => seq![e],
            None => Seq::empty(),
        }) + scan_events(policy, spec_step(s, bytes[0]), bytes.skip(1))
    }
}

/// The event, if any, that an end-of-stream flush produces in state `s`: the
/// currently open candidate is decoded whole if a start code was seen and at
/// least one byte followed it.  The state after a flush is always
/// [`scan_init`], so a second flush produces nothing.
pub open spec fn spec_finish_event(policy: IdrPolicy, s: ScanState) -> Option<
    Result<NalUnitModel, ValidationError>,
> {
    if s.started && s.buf.len() > 0 {
        Some(spec_decode(policy, s.buf))
    } else {
        None
    }
}

/// The events of one scanner step, as a sequence: empty when the byte emits
/// nothing, a singleton when it completes a candidate.
pub open spec fn spec_step_events(policy: IdrPolicy, s: ScanState, b: u8) -> Seq<
    Result<NalUnitModel, ValidationError>,
> {
    match spec_step_event(policy, s, b) {
        Some(e) => seq![e],
        None => Seq::empty(),
    }
}

/// Chunk-boundary invariance, two chunks: scanning a concatenation reaches
/// the same state, and emits the same events in the same order, as scanning
/// the first chunk and then the second from the state the first one left.
pub proof fn lemma_scan_concat(policy: IdrPolicy, s: ScanState, a: Seq<u8>, b: Seq<u8>)
    ensures
        scan_state(s, a + b) == scan_state(scan_state(s, a), b),
        scan_events(policy, s, a + b) == scan_events(policy, s, a) + scan_events(
            policy,
            scan_state(s, a),
            b,
        ),
    decreases a.len(),
{
    if a.len() == 0 {
        assert(a + b =~= b);
        assert(scan_events(policy, s, a) + scan_events(policy, scan_state(s, a), b) =~= scan_events(
            policy,
            s,
            b,
        ));
    } else {
        let s1 = spec_step(s, a[0]);
        assert((a + b)[0] == a[0]);
        assert((a + b).skip(1) =~= a.skip(1) + b);
        lemma_scan_concat(policy, s1, a.skip(1), b);
        assert(scan_events(policy, s, a + b) =~= scan_events(policy, s, a) + scan_events(
            policy,
            scan_state(s, a),
            b,
        ));
    }
}

/// Scanning one more byte after a sequence is one scanner step from the
/// state the sequence reached, and appends that step's events.
pub proof fn lemma_scan_snoc(policy: IdrPolicy, s: ScanState, bytes: Seq<u8>, b: u8)
    ensures
        scan_state(s, bytes.push(b)) == spec_step(scan_state(s, bytes), b),
        scan_events(policy, s, bytes.push(b)) == scan_events(policy, s, bytes)
            + spec_step_events(policy, scan_state(s, bytes), b),
{
    let one = seq![b];
    assert(bytes.push(b) =~= bytes + one);
    lemma_scan_concat(policy, s, bytes, one);
    let s2 = scan_state(s, bytes);
    let s3 = spec_step(s2, b);
    assert(one.skip(1) =~= Seq::<u8>::empty());
    assert(one[0] == b);
    assert(scan_state(s2, one) == scan_state(s3, one.skip(1)));
    assert(scan_state(s3, Seq::<u8>::empty()) == s3);
    assert(scan_events(policy, s3, Seq::<u8>::empty()) == Seq::<
        Result<NalUnitModel, ValidationError>,
    >::empty());
    assert(scan_events(policy, s2, one) =~= spec_step_events(policy, s2, b));
}

/// The model of one emitted event: a decoded unit or its validation error.
pub open spec fn event_model(e: Result<NalUnit, ValidationError>) -> Result<
    NalUnitModel,
    ValidationError,
> {
    match e {
        Ok(u) => Ok(u.model()),
        Err(err) => Err(err),
    }
}

/// The models of a sequence of emitted events.
pub open spec fn events_model(evs: Seq<Result<NalUnit, ValidationError>>) -> Seq<
    Result<NalUnitModel, ValidationError>,
> {
    evs.map_values(|e: Result<NalUnit, ValidationError>| event_model(e))
}

/// The model of an optional emitted event.
pub open spec fn opt_event_model(e: Option<Result<NalUnit, ValidationError>>) -> Option<
    Result<NalUnitModel, ValidationError>,
> {
    match e {
        Some(ev) => Some(event_model(ev)),
        None => None,
    }
}

/// The models of a sequence of decoded units.
pub open spec fn units_model(units: Seq<NalUnit>) -> Seq<NalUnitModel> {
    units.map_values(|u: NalUnit| u.model())
}

/// The incremental scanner.  One instance serves one stream: feed it byte
/// chunks with [`push`](NalUnitParser::push), then flush the final unit with
/// [`finish`](NalUnitParser::finish) when the byte source is exhausted.
pub struct NalUnitParser {
    started: bool,
    zero_run: usize,
    buf: Vec<u8>,
    policy: IdrPolicy,
}

impl NalUnitParser {
    /// The zero run counts trailing `0x00` bytes of the buffer, so it can
    /// never exceed the buffer's length.
    #[verifier::type_invariant]
    spec fn wf(self) -> bool {
        self.zero_run <= self.buf@.len()
    }

    /// The scanner state this parser currently holds.
    pub closed spec fn state(self) -> ScanState {
        ScanState { started: self.started, buf: self.buf@, zero_run: self.zero_run as nat }
    }

    /// The policy this parser applies to IDR slices with `nal_ref_idc == 0`.
    pub closed spec fn spec_policy(self) -> IdrPolicy {
        self.policy
    }

    /// A fresh parser with the default policy: IDR slices with
    /// `nal_ref_idc == 0` are rejected.
    pub fn new() -> (parser: Self)
        ensures
            parser.state() == scan_init(),
            parser.spec_policy() == IdrPolicy::Reject,
    {
        NalUnitParser { started: false, zero_run: 0, buf: Vec::new(), policy: IdrPolicy::Reject }
    }

    /// A fresh parser with the given IDR policy.
    pub fn with_policy(policy: IdrPolicy) -> (parser: Self)
        ensures
            parser.state() == scan_init(),
            parser.spec_policy() == policy,
    {
        NalUnitParser { started: false, zero_run: 0, buf: Vec::new(), policy }
    }

    /// Consumes one chunk of the stream and returns the events it produces,
    /// in order: a decoded unit for every candidate that a start code
    /// completed and validation accepted, a validation error for every one
    /// it rejected.  Chunks may split start codes and headers at any byte
    /// boundary: the parser carries its state across calls, so a sequence of
    /// `push` calls emits exactly the events of one `push` of the
    /// concatenation.
    pub fn push(&mut self, bytes: &[u8]) -> (events: Vec<Result<NalUnit, ValidationError>>)
        ensures
            final(self).state() == scan_state(old(self).state(), bytes@),
            final(self).spec_policy() == old(self).spec_policy(),
            events_model(events@) == scan_events(
                old(self).spec_policy(),
                old(self).state(),
                bytes@,
            ),
    {
        proof {
            use_type_invariant(&*self);
        }
        let mut events: Vec<Result<NalUnit, ValidationError>> = Vec::new();
        let n: usize = bytes.len();
        let mut i: usize = 0;
        while i < n
            invariant
                n == bytes@.len(),
                i <= n,
                self.wf(),
                self.spec_policy() == old(self).spec_policy(),
                self.state() == scan_state(old(self).state(), bytes@.take(i as int)),
                events_model(events@) == scan_events(
                    old(self).spec_policy(),
                    old(self).state(),
                    bytes@.take(i as int),
                ),
            decreases n - i,
        {
            let b: u8 = *vstd::slice::slice_index_get(bytes, i);
            let ghost s_pre = self.state();
            let ghost evs_pre = events@;
            proof {
                assert(bytes@.take(i as int).push(b) =~= bytes@.take(i + 1 as int));
                lemma_scan_snoc(old(self).spec_policy(), old(self).state(), bytes@.take(i as int), b);
            }
            if b == 0x00 {
                let pending: usize = self.zero_run;
                self.zero_run = 0;
                let mut work: Vec<u8> = Vec::new();
                std::mem::swap(&mut work, &mut self.buf);
                work.push(b);
                let grown: usize = work.len();
                self.buf = work;
                proof {
                    assert(pending < grown);
                }
                self.zero_run = pending + 1;
            } else if b == 0x01 && self.zero_run >= 2 {
                if self.started && self.buf.len() > self.zero_run {
                    let end: usize = self.buf.len() - self.zero_run;
                    let raw: &[u8] = vstd::slice::slice_subrange(self.buf.as_slice(), 0, end);
                    let ev = decode_candidate(self.policy, raw);
                    events.push(ev);
                }
                self.started = true;
                self.zero_run = 0;
                let mut cleared: Vec<u8> = Vec::new();
                std::mem::swap(&mut cleared, &mut self.buf);
            } else {
                self.zero_run = 0;
                let mut work: Vec<u8> = Vec::new();
                std::mem::swap(&mut work, &mut self.buf);
                work.push(b);
                self.buf = work;
            }
            proof {
                assert(self.state() == spec_step(s_pre, b));
                assert(events_model(events@) =~= events_model(evs_pre) + spec_step_events(
                    old(self).spec_policy(),
                    s_pre,
                    b,
                ));
            }
            i = i + 1;
        }
        proof {
            assert(bytes@.take(n as int) =~= bytes@);
        }
        events
    }

    /// Flushes the stream's final unit.  If a start code was seen and at
    /// least one byte followed it, the open candidate is decoded as the last
    /// unit (or rejected with its validation error); otherwise nothing is
    /// produced.  The parser is left in its initial state, so a second
    /// `finish` with no intervening input produces nothing: the operation is
    /// idempotent.
    pub fn finish(&mut self) -> (event: Option<Result<NalUnit, ValidationError>>)
        ensures
            final(self).state() == scan_init(),
            final(self).spec_policy() == old(self).spec_policy(),
            opt_event_model(event) == spec_finish_event(old(self).spec_policy(), old(self).state()),
    {
        proof {
            use_type_invariant(&*self);
        }
        let event: Option<Result<NalUnit, ValidationError>> = if self.started && self.buf.len()
            > 0 {
            Some(decode_candidate(self.policy, self.buf.as_slice()))
        } else {
            None
        };
        self.started = false;
        self.zero_run = 0;
        let mut cleared: Vec<u8> = Vec::new();
        std::mem::swap(&mut cleared, &mut self.buf);
        proof {
            assert(self.state() == scan_init());
        }
        event
    }

    /// Validates and classifies one completed candidate unit under this
    /// parser's policy.  `raw` is the candidate's raw bytes: the header byte
    /// followed by the payload, with no start-code prefix.
    pub fn parse(&self, raw: &[u8]) -> (r: Result<NalUnit, ValidationError>)
        requires
            raw@.len() >= 1,
        ensures
            event_model(r) == spec_decode(self.spec_policy(), raw@),
    {
        decode_candidate(self.policy, raw)
    }
}

/// An end-of-stream flush with no open candidate produces no unit, and a
/// flush always leaves the scanner in its initial state — so a second flush
/// with no input in between produces nothing: `finish` is idempotent.
pub proof fn lemma_finish_idempotent(policy: IdrPolicy)
    ensures
        spec_finish_event(policy, scan_init()) is None,
{
}

/// The scanner state after consuming a sequence of chunks, one `push` each.
pub open spec fn scan_state_chunks(s: ScanState, chunks: Seq<Seq<u8>>) -> ScanState
    decreases chunks.len(),
{
    if chunks.len() == 0 {
        s
    } else {
        scan_state_chunks(scan_state(s, chunks[0]), chunks.skip(1))
    }
}

/// The ordered events of consuming a sequence of chunks, one `push` each.
pub open spec fn scan_events_chunks(policy: IdrPolicy, s: ScanState, chunks: Seq<Seq<u8>>) -> Seq<
    Result<NalUnitModel, ValidationError>,
>
    decreases chunks.len(),
{
    if chunks.len() == 0 {
        Seq::empty()
    } else {
        scan_events(policy, s, chunks[0]) + scan_events_chunks(
            policy,
            scan_state(s, chunks[0]),
            chunks.skip(1),
        )
    }
}

/// Chunk-boundary invariance: however a byte stream is cut into chunks, the
/// sequence of `push` calls on the chunks reaches the same scanner state,
/// and emits the same events in the same order, as a single `push` of the
/// whole stream.
pub proof fn lemma_chunking_invariance(policy: IdrPolicy, s: ScanState, chunks: Seq<Seq<u8>>)
    ensures
        scan_state_chunks(s, chunks) == scan_state(s, chunks.flatten()),
        scan_events_chunks(policy, s, chunks) == scan_events(policy, s, chunks.flatten()),
    decreases chunks.len(),
{
    if chunks.len() == 0 {
        assert(chunks.flatten() =~= Seq::<u8>::empty());
    } else {
        let first = chunks[0];
        let rest = chunks.skip(1);
        assert(chunks.flatten() == first + rest.flatten()) by {
            assert(chunks.first() == first);
            assert(chunks.drop_first() =~= rest);
        }
        lemma_chunking_invariance(policy, scan_state(s, first), rest);
        lemma_scan_concat(policy, s, first, rest.flatten());
    }
}

/// The decoded units among a sequence of events, the errors left out.
pub open spec fn ok_units(evs: Seq<Result<NalUnitModel, ValidationError>>) -> Seq<NalUnitModel>
    decreases evs.len(),
{
    if evs.len() == 0 {
        Seq::empty()
    } else {
        (match evs[0] {
            Ok(u) => seq![u],
            Err(_) => Seq::empty(),
        }) + ok_units(evs.skip(1))
    }
}

/// What [`parse`] returns for a whole stream: every unit that framing and
/// validation accept, under the default policy, the end-of-stream flush
/// included.
pub open spec fn spec_parse(bytes: Seq<u8>) -> Seq<NalUnitModel> {
    ok_units(scan_events(IdrPolicy::Reject, scan_init(), bytes)) + (match spec_finish_event(
        IdrPolicy::Reject,
        scan_state(scan_init(), bytes),
    ) {
        Some(Ok(u)) => seq![u],
        _ => Seq::empty(),
    })
}

/// Parses a complete Annex-B stream in one call: frames `buf` from its
/// start, flushes the final unit, and returns the units that validation
/// accepted under the default policy, in stream order.  Units that fail
/// validation, and empty candidates between consecutive start codes, are
/// dropped silently.
pub fn parse(buf: &[u8]) -> (units: Vec<NalUnit>)
    ensures
        units_model(units@) == spec_parse(buf@),
{
    let mut parser = NalUnitParser::new();
    let mut events = parser.push(buf);
    let last = parser.finish();
    let ghost all_events = events_model(events@);
    let mut units: Vec<NalUnit> = Vec::new();
    while events.len() > 0
        invariant
            units_model(units@) + ok_units(events_model(events@)) == ok_units(all_events),
        decreases events.len(),
    {
        let ghost evs_pre = events_model(events@);
        let ghost units_pre = units@;
        let event = events.remove(0);
        proof {
            assert(events_model(events@) =~= evs_pre.skip(1));
        }
        match event {
            Ok(u) => {
                units.push(u);
                proof {
                    assert(units_model(units@) =~= units_model(units_pre) + seq![u.model()]);
                    assert(units_model(units@) + ok_units(events_model(events@)) =~= ok_units(
                        all_events,
                    ));
                }
            },
            Err(_) => {
                proof {
                    assert(units_model(units@) + ok_units(events_model(events@)) =~= ok_units(
                        all_events,
                    ));
                }
            },
        }
    }
    proof {
        assert(events_model(events@) =~= Seq::<Result<NalUnitModel, ValidationError>>::empty());
        assert(ok_units(events_model(events@)) == Seq::<NalUnitModel>::empty());
    }
    match last {
        Some(Ok(u)) => {
            let ghost units_pre = units@;
            units.push(u);
            proof {
                assert(units_model(units@) =~= units_model(units_pre) + seq![u.model()]);
                assert(units_model(units@) =~= spec_parse(buf@));
            }
        },
        _ => {
            proof {
                assert(units_model(units@) =~= spec_parse(buf@));
            }
        },
    }
    units
}

/// Validates and classifies one completed candidate unit: checks the
/// `forbidden_zero_bit`, applies the IDR policy, and copies the payload out.
fn decode_candidate(policy: IdrPolicy, raw: &[u8]) -> (r: Result<NalUnit, ValidationError>)
    requires
        raw@.len() >= 1,
    ensures
        event_model(r) == spec_decode(policy, raw@),
{
    let header = *vstd::slice::slice_index_get(raw, 0);
    let forbidden_zero_bit = (header & 0x80) >> 7;
    let nal_ref_idc = (header & 0x60) >> 5;
    let nal_unit_type = header & 0x1f;

    if forbidden_zero_bit == 1 {
        return Err(ValidationError::ForbiddenZeroBit);
    }
    if nal_ref_idc == 0 && nal_unit_type == 5 && matches!(policy, IdrPolicy::Reject) {
        return Err(ValidationError::IdrRefIdcZero);
    }

    let payload = vstd::slice::slice_to_vec(vstd::slice::slice_subrange(raw, 1, raw.len()));
    proof {
        assert(payload@ =~= raw@.skip(1));
    }
    let unit = if 1 <= nal_unit_type && nal_unit_type <= 5 {
        NalUnit::Slice(payload)
    } else if nal_unit_type == 7 {
        NalUnit::Sps(payload)
    } else if nal_unit_type == 8 {
        NalUnit::Pps(payload)
    } else {
        NalUnit::Other(nal_unit_type, payload)
    };
    Ok(unit)
}

} // verus!
