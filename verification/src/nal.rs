//! NAL unit records, their semantic types, and header validation.

use vstd::prelude::*;

verus! {

/// The semantic category of a NAL unit, collapsed to the granularity the
/// counter needs: every slice kind (type codes 1 through 5, IDR or not) is
/// `Slice`, sequence parameter sets are `Sps`, picture parameter sets are
/// `Pps`, and every other 5-bit type code keeps its raw value in `Other`.
#[derive(Debug, Clone, Copy, PartialEq, Eq, Structural, Hash)]
pub enum NalUnitType {
    Slice,
    Sps,
    Pps,
    Other(u8),
}

/// A recoverable per-unit validation failure.  Neither error is fatal to the
/// stream: the framer drops the offending unit and resynchronizes at the next
/// start code.
#[derive(Debug, Clone, Copy, PartialEq, Eq, Structural, Hash)]
pub enum ValidationError {
    /// The header's most significant bit (`forbidden_zero_bit`) was 1.
    ForbiddenZeroBit,
    /// An IDR slice (type code 5) carried `nal_ref_idc == 0`, which the
    /// H.264 specification forbids.
    IdrRefIdcZero,
}

/// What to do with an IDR slice whose `nal_ref_idc` field is 0.  `Reject` is
/// the default and drops the unit as a [`ValidationError::IdrRefIdcZero`];
/// `Permit` passes it through as an ordinary slice.
#[derive(Debug, Clone, Copy, PartialEq, Eq, Structural, Hash)]
pub enum IdrPolicy {
    Reject,
    Permit,
}

/// A classified NAL unit.  The payload is the unit's body: everything after
/// the one-byte header, excluding the start-code prefix that delimited the
/// unit.  Each unit owns a copy of its payload bytes.
#[derive(Debug)]
pub enum NalUnit {
    Slice(Vec<u8>),
    Sps(Vec<u8>),
    Pps(Vec<u8>),
    Other(u8, Vec<u8>),
}

/// The mathematical model of a [`NalUnit`]: its semantic type and the
/// sequence of payload bytes.
pub ghost struct NalUnitModel {
    pub nal_type: NalUnitType,
    pub payload: Seq<u8>,
}

/// The `forbidden_zero_bit` field of a header byte: bit 7.
pub open spec fn spec_forbidden_bit(header: u8) -> u8 {
    (header & 0x80) >> 7
}

/// The `nal_ref_idc` field of a header byte: bits 6 and 5.
pub open spec fn spec_ref_idc(header: u8) -> u8 {
    (header & 0x60) >> 5
}

/// The `nal_unit_type` field of a header byte: bits 4 through 0.
pub open spec fn spec_unit_code(header: u8) -> u8 {
    header & 0x1f
}

/// Total classification of a 5-bit type code: codes 1 through 5 are `Slice`,
/// 7 is `Sps`, 8 is `Pps`, and everything else is `Other` with the raw code.
pub open spec fn spec_classify(code: u8) -> NalUnitType {
    if 1 <= code && code <= 5 {
        NalUnitType::Slice
    } else if code == 7 {
        NalUnitType::Sps
    } else if code == 8 {
        NalUnitType::Pps
    } else {
        NalUnitType::Other(code)
    }
}

/// Validation and classification of one completed candidate unit, whose raw
/// bytes are the header followed by the payload.  A set `forbidden_zero_bit`
/// is always an error; an IDR slice with `nal_ref_idc == 0` is an error
/// exactly under [`IdrPolicy::Reject`].
pub open spec fn spec_decode(policy: IdrPolicy, raw: Seq<u8>) -> Result<
    NalUnitModel,
    ValidationError,
>
    recommends
        raw.len() >= 1,
{
    let header = raw[0];
    if spec_forbidden_bit(header) == 1 {
        Err(ValidationError::ForbiddenZeroBit)
    } else if spec_ref_idc(header) == 0 && spec_unit_code(header) == 5 && policy
        == IdrPolicy::Reject {
        Err(ValidationError::IdrRefIdcZero)
    } else {
        Ok(NalUnitModel { nal_type: spec_classify(spec_unit_code(header)), payload: raw.skip(1) })
    }
}

impl NalUnit {
    /// The semantic type of this unit, as a specification-level value.
    pub open spec fn spec_type(self) -> NalUnitType {
        match self {
            NalUnit::Slice(_) => NalUnitType::Slice,
            NalUnit::Sps(_) => NalUnitType::Sps,
            NalUnit::Pps(_) => NalUnitType::Pps,
            NalUnit::Other(t, _) => NalUnitType::Other(t),
        }
    }

    /// The payload bytes of this unit, as a specification-level sequence.
    pub open spec fn spec_payload(self) -> Seq<u8> {
        match self {
            NalUnit::Slice(p) => p@,
            NalUnit::Sps(p) => p@,
            NalUnit::Pps(p) => p@,
            NalUnit::Other(_, p) => p@,
        }
    }

    /// The mathematical model of this unit.
    pub open spec fn model(self) -> NalUnitModel {
        NalUnitModel { nal_type: self.spec_type(), payload: self.spec_payload() }
    }

    /// The semantic type of this unit.
    pub fn to_type(&self) -> (t: NalUnitType)
        ensures
            t == self.spec_type(),
    {
        match self {
            NalUnit::Slice(_) => NalUnitType::Slice,
            NalUnit::Sps(_) => NalUnitType::Sps,
            NalUnit::Pps(_) => NalUnitType::Pps,
            NalUnit::Other(t, _) => NalUnitType::Other(*t),
        }
    }

    /// The payload bytes of this unit.
    pub fn payload(&self) -> (p: &Vec<u8>)
        ensures
            p@ == self.spec_payload(),
    {
        match self {
            NalUnit::Slice(p) => p,
            NalUnit::Sps(p) => p,
            NalUnit::Pps(p) => p,
            NalUnit::Other(_, p) => p,
        }
    }
}

} // verus!
