//! The size-unit tag carried by persisted cache records.

use vstd::prelude::*;

verus! {

/// Scaling tag stored in a cache record.  The variants split into a decimal
/// family (scale factors are powers of 1000) and a binary family (powers of
/// 1024).  Writers always emit `Bytes`; the other tags exist so that records
/// written with a scaled magnitude are still read back correctly.
#[derive(Debug, Clone, Copy, PartialEq, Eq, Structural)]
pub enum SizeUnit {
    Bytes,
    Kilobytes,
    Megabytes,
    Gigabytes,
    Terabytes,
    Kibibytes,
    Mebibytes,
    Gibibytes,
    Tebibytes,
}

impl SizeUnit {
    /// The 16-bit on-disk tag: the family in the high byte, the magnitude
    /// order in the low byte.
    pub open spec fn spec_to_u16(self) -> u16 {
        match self {
            SizeUnit::Bytes => 0x0001,
            SizeUnit::Kilobytes => 0x0002,
            SizeUnit::Megabytes => 0x0003,
            SizeUnit::Gigabytes => 0x0004,
            SizeUnit::Terabytes => 0x0005,
            SizeUnit::Kibibytes => 0x0101,
            SizeUnit::Mebibytes => 0x0102,
            SizeUnit::Gibibytes => 0x0103,
            SizeUnit::Tebibytes => 0x0104,
        }
    }

    pub fn to_u16(&self) -> (v: u16)
        ensures
            v == self.spec_to_u16(),
    {
        match self {
            SizeUnit::Bytes => 0x0001,
            SizeUnit::Kilobytes => 0x0002,
            SizeUnit::Megabytes => 0x0003,
            SizeUnit::Gigabytes => 0x0004,
            SizeUnit::Terabytes => 0x0005,
            SizeUnit::Kibibytes => 0x0101,
            SizeUnit::Mebibytes => 0x0102,
            SizeUnit::Gibibytes => 0x0103,
            SizeUnit::Tebibytes => 0x0104,
        }
    }

    /// Which tag values decode, and to what: exactly the nine values produced
    /// by `spec_to_u16`.
    pub open spec fn spec_from_u16(value: u16) -> Option<SizeUnit> {
        if value == 0x0001 {
            Some(SizeUnit::Bytes)
        } else if value == 0x0002 {
            Some(SizeUnit::Kilobytes)
        } else if value == 0x0003 {
            Some(SizeUnit::Megabytes)
        } else if value == 0x0004 {
            Some(SizeUnit::Gigabytes)
        } else if value == 0x0005 {
            Some(SizeUnit::Terabytes)
        } else if value == 0x0101 {
            Some(SizeUnit::Kibibytes)
        } else if value == 0x0102 {
            Some(SizeUnit::Mebibytes)
        } else if value == 0x0103 {
            Some(SizeUnit::Gibibytes)
        } else if value == 0x0104 {
            Some(SizeUnit::Tebibytes)
        } else {
            None
        }
    }

    pub fn from_u16(value: u16) -> (r: Option<SizeUnit>)
        ensures
            r == Self::spec_from_u16(value),
    {
        if value == 0x0001 {
            Some(SizeUnit::Bytes)
        } else if value == 0x0002 {
            Some(SizeUnit::Kilobytes)
        } else if value == 0x0003 {
            Some(SizeUnit::Megabytes)
        } else if value == 0x0004 {
            Some(SizeUnit::Gigabytes)
        } else if value == 0x0005 {
            Some(SizeUnit::Terabytes)
        } else if value == 0x0101 {
            Some(SizeUnit::Kibibytes)
        } else if value == 0x0102 {
            Some(SizeUnit::Mebibytes)
        } else if value == 0x0103 {
            Some(SizeUnit::Gibibytes)
        } else if value == 0x0104 {
            Some(SizeUnit::Tebibytes)
        } else {
            None
        }
    }

    /// Multiplier that turns a stored magnitude into bytes.
    pub open spec fn spec_scale(self) -> u64 {
        match self {
            SizeUnit::Bytes => 1,
            SizeUnit::Kilobytes => 1000,
            SizeUnit::Megabytes => 1_000_000,
            SizeUnit::Gigabytes => 1_000_000_000,
            SizeUnit::Terabytes => 1_000_000_000_000,
            SizeUnit::Kibibytes => 1024,
            SizeUnit::Mebibytes => 1_048_576,
            SizeUnit::Gibibytes => 1_073_741_824,
            SizeUnit::Tebibytes => 1_099_511_627_776,
        }
    }

    pub fn unit_scale(&self) -> (s: u64)
        ensures
            s == self.spec_scale(),
    {
        match self {
            SizeUnit::Bytes => 1,
            SizeUnit::Kilobytes => 1000,
            SizeUnit::Megabytes => 1_000_000,
            SizeUnit::Gigabytes => 1_000_000_000,
            SizeUnit::Terabytes => 1_000_000_000_000,
            SizeUnit::Kibibytes => 1024,
            SizeUnit::Mebibytes => 1_048_576,
            SizeUnit::Gibibytes => 1_073_741_824,
            SizeUnit::Tebibytes => 1_099_511_627_776,
        }
    }
}

/// Every unit survives a trip through its on-disk tag.
pub proof fn lemma_unit_tag_round_trip(u: SizeUnit)
    ensures
        SizeUnit::spec_from_u16(u.spec_to_u16()) == Some(u),
{
}

} // verus!
