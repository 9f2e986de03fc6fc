//! Byte counts as people read them: bytes, KiB, MiB or GiB.
use vstd::prelude::*;

verus! {

/// A byte count with the unit it is shown in. Each variant holds the count
/// in bytes; it is shown divided by 1024 once per step above bytes, with two
/// decimals.
pub enum HumanReadableSize {
    Bytes(u64),
    KiBytes(u64),
    MiBytes(u64),
    GiBytes(u64),
}

/// The unit a byte count is shown in: bytes below 1 KiB, KiB below 1 MiB,
/// MiB below 1 GiB, GiB from there on.
pub open spec fn human_readable_size_of(v: u64) -> HumanReadableSize {
    if v < 1024 {
        HumanReadableSize::Bytes(v)
    } else if v < 1024 * 1024 {
        HumanReadableSize::KiBytes(v)
    } else if v < 1024 * 1024 * 1024 {
        HumanReadableSize::MiBytes(v)
    } else {
        HumanReadableSize::GiBytes(v)
    }
}

impl From<u64> for HumanReadableSize {
    fn from(v: u64) -> (r: Self) {
        if v < 1024 {
            HumanReadableSize::Bytes(v)
        } else if v < 1024 * 1024 {
            HumanReadableSize::KiBytes(v)
        } else if v < 1024 * 1024 * 1024 {
            HumanReadableSize::MiBytes(v)
        } else {
            HumanReadableSize::GiBytes(v)
        }
    }
}

impl vstd::std_specs::convert::FromSpecImpl<u64> for HumanReadableSize {
    open spec fn obeys_from_spec() -> bool {
        true
    }

    open spec fn from_spec(v: u64) -> HumanReadableSize {
        human_readable_size_of(v)
    }
}

impl HumanReadableSize {
    /// The byte count.
    pub fn bytes(&self) -> (r: u64)
        ensures
            r == match *self {
                HumanReadableSize::Bytes(v) => v,
                HumanReadableSize::KiBytes(v) => v,
                HumanReadableSize::MiBytes(v) => v,
                HumanReadableSize::GiBytes(v) => v,
            },
    {
        match self {
            HumanReadableSize::Bytes(v) => *v,
            HumanReadableSize::KiBytes(v) => *v,
            HumanReadableSize::MiBytes(v) => *v,
            HumanReadableSize::GiBytes(v) => *v,
        }
    }
}

/// A count keeps its value whatever unit it is shown in, and the unit is
/// bytes below 1024, KiB below 1024 * 1024, MiB below 1024 * 1024 * 1024
/// and GiB from there on.
pub proof fn law_size_keeps_count(v: u64)
    ensures
        match human_readable_size_of(v) {
            HumanReadableSize::Bytes(x) => x == v,
            HumanReadableSize::KiBytes(x) => x == v,
            HumanReadableSize::MiBytes(x) => x == v,
            HumanReadableSize::GiBytes(x) => x == v,
        },
        (human_readable_size_of(v) is Bytes) <==> v < 1024,
        (human_readable_size_of(v) is KiBytes) <==> 1024 <= v < 1024 * 1024,
        (human_readable_size_of(v) is MiBytes) <==> 1024 * 1024 <= v < 1024 * 1024 * 1024,
        (human_readable_size_of(v) is GiBytes) <==> 1024 * 1024 * 1024 <= v,
{
}

/// The unit grows with the count: a larger count is never shown in a smaller
/// unit.
pub proof fn law_unit_monotone(a: u64, b: u64)
    requires
        a <= b,
    ensures
        human_readable_size_of(b) is Bytes ==> human_readable_size_of(a) is Bytes,
        human_readable_size_of(b) is KiBytes ==> human_readable_size_of(a) is Bytes || human_readable_size_of(a) is KiBytes,
        human_readable_size_of(a) is GiBytes ==> human_readable_size_of(b) is GiBytes,
{
}

} // verus!
