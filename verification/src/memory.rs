//! The memory monitor's reading of `/proc/meminfo`.
use vstd::prelude::*;
use crate::fields::{colon_field, colon_field_of};
use crate::text::{chars_of, digits_in, digits_value, lines, lines_spec, only_digits};

verus! {

/// Why `/proc/meminfo` gives no reading.
#[derive(Clone, Copy, Debug, PartialEq, Eq, Structural)]
pub enum MemInfoError {
    /// No `MemTotal` line.
    MissingTotal,
    /// No `MemAvailable` line.
    MissingAvailable,
    /// The total's digits exceed `u64::MAX`.
    TotalTooLarge,
    /// The available amount's digits exceed `u64::MAX`.
    AvailableTooLarge,
    /// More is available than there is in total.
    AvailableExceedsTotal,
}

/// The total and the used amount (total minus available), in the unit of the
/// file (kB): each value is the number its digits form, other characters
/// such as the unit ignored.
pub open spec fn mem_info_spec(text: Seq<char>) -> Result<(u64, u64), MemInfoError> {
    let ls = lines_spec(text);
    match colon_field(ls, "MemTotal"@) {
        None => Err(MemInfoError::MissingTotal),
        Some(t) => match colon_field(ls, "MemAvailable"@) {
            None => Err(MemInfoError::MissingAvailable),
            Some(f) => {
                let tv = digits_value(only_digits(t));
                let fv = digits_value(only_digits(f));
                if tv > u64::MAX {
                    Err(MemInfoError::TotalTooLarge)
                } else if fv > u64::MAX {
                    Err(MemInfoError::AvailableTooLarge)
                } else if fv > tv {
                    Err(MemInfoError::AvailableExceedsTotal)
                } else {
                    Ok((tv as u64, (tv - fv) as u64))
                }
            },
        },
    }
}

/// Reads `[total, used]` from the text of `/proc/meminfo`.
pub fn info(text: &str) -> (r: Result<[u64; 2], MemInfoError>)
    ensures
        match r {
            Ok(a) => mem_info_spec(text@) == Ok::<(u64, u64), MemInfoError>((a[0], a[1])),
            Err(e) => mem_info_spec(text@) == Err::<(u64, u64), MemInfoError>(e),
        },
{
    let ls = lines(&chars_of(text));
    let t = match colon_field_of(&ls, &chars_of("MemTotal")) {
        Some(t) => t,
        None => return Err(MemInfoError::MissingTotal),
    };
    let f = match colon_field_of(&ls, &chars_of("MemAvailable")) {
        Some(f) => f,
        None => return Err(MemInfoError::MissingAvailable),
    };
    let tv = match digits_in(&t) {
        Some(v) => v,
        None => return Err(MemInfoError::TotalTooLarge),
    };
    let fv = match digits_in(&f) {
        Some(v) => v,
        None => return Err(MemInfoError::AvailableTooLarge),
    };
    if fv > tv {
        return Err(MemInfoError::AvailableExceedsTotal);
    }
    Ok([tv, tv - fv])
}

} // verus!
