//! Run summary: the display unit chosen by magnitude with binary
//! multipliers, the displayed quantity in hundredths of that unit, and the
//! division-guarded means (file size, duration per file).

use vstd::prelude::*;

verus! {

/// One binary kilobyte.
pub const KILO: u64 = 1024;

/// One binary megabyte.
pub const MEGA: u64 = 1024 * 1024;

/// One binary gigabyte.
pub const GIGA: u64 = 1024 * 1024 * 1024;

/// The unit a byte total is reported in.
#[derive(Debug, PartialEq, Eq, Structural, Clone, Copy)]
pub enum ByteUnit {
    Bytes,
    Kilobytes,
    Megabytes,
    Gigabytes,
}

/// The unit a byte total belongs to: bytes up to one kilobyte, kilobytes
/// up to one megabyte, megabytes up to one gigabyte, gigabytes beyond.
pub open spec fn unit_of(total: u64) -> ByteUnit {
    if total <= KILO {
        ByteUnit::Bytes
    } else if total <= MEGA {
        ByteUnit::Kilobytes
    } else if total <= GIGA {
        ByteUnit::Megabytes
    } else {
        ByteUnit::Gigabytes
    }
}

/// How many bytes one step of a unit holds.
pub open spec fn divisor_of(unit: ByteUnit) -> u64 {
    match unit {
        ByteUnit::Bytes => 1,
        ByteUnit::Kilobytes => KILO,
        ByteUnit::Megabytes => MEGA,
        ByteUnit::Gigabytes => GIGA,
    }
}

/// Select the display unit for a byte total.
pub fn select_unit(total: u64) -> (unit: ByteUnit)
    ensures
        unit == unit_of(total),
{
    if total <= KILO {
        ByteUnit::Bytes
    } else if total <= MEGA {
        ByteUnit::Kilobytes
    } else if total <= GIGA {
        ByteUnit::Megabytes
    } else {
        ByteUnit::Gigabytes
    }
}

/// The byte total scaled to its own display unit, in hundredths of a
/// unit, so 2048 bytes display as 200 hundredths of a kilobyte.
pub fn display_hundredths(total: u64) -> (h: u64)
    ensures
        h == total as int * 100 / divisor_of(unit_of(total)) as int,
{
    let unit = select_unit(total);
    let divisor: u64 = match unit {
        ByteUnit::Bytes => 1,
        ByteUnit::Kilobytes => KILO,
        ByteUnit::Megabytes => MEGA,
        ByteUnit::Gigabytes => GIGA,
    };
    let wide: u128 = (total as u128) * 100 / (divisor as u128);
    proof {
        assert(total as int * 100 / divisor_of(unit_of(total)) as int <= u64::MAX) by (nonlinear_arith)
            requires
                divisor == divisor_of(unit_of(total)),
                divisor >= 1,
                total <= u64::MAX,
                total > GIGA ==> divisor == GIGA,
        ;
        assert(wide == total as int * 100 / divisor as int);
    }
    wide as u64
}

/// The mean of a total over a count, guarded against an empty run: `None`
/// exactly when nothing was counted, so no division by zero and no mean
/// line for a run that copied nothing.
pub fn checked_mean(total: u64, count: u64) -> (m: Option<u64>)
    ensures
        count == 0 ==> m is None,
        count > 0 ==> m == Some((total as int / count as int) as u64),
{
    if count == 0 {
        None
    } else {
        Some(total / count)
    }
}

} // verus!
