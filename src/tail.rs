//! How many lines or bytes `tail` shows, and from where.
use vstd::prelude::*;
use vstd::string::StringExecFns;
use crate::decimal::{i64_text, int_digits, parse_i64_text, i64_string};

verus! {

/// A count as `tail` takes it: `+0` means the whole input; a positive
/// number counts from the start, a negative one from the end.
#[derive(Debug, Clone, Copy, PartialEq, Eq, Structural)]
pub enum TakeValue {
    PlusZero,
    TakeNum(i64),
}

impl TakeValue {
    /// The count as it is written back: `+0`, or the signed number.
    pub fn to_string(&self) -> (r: String)
        ensures
            *self == TakeValue::PlusZero ==> r@ == "+0"@,
            self matches TakeValue::TakeNum(n) ==> r@ == int_digits(n as int),
    {
        match self {
            TakeValue::PlusZero => String::from_str("+0"),
            TakeValue::TakeNum(n) => i64_string(*n),
        }
    }
}

/// The count that a written argument stands for: a number with a leading
/// `+` counts from the start (`+0` is the whole input); any other number
/// counts from the end, whatever its sign.
pub open spec fn take_value_of(s: Seq<char>) -> Option<TakeValue> {
    match i64_text(s) {
        None => None,
        Some(n) => if s.len() > 0 && s[0] == '+' {
            if n == 0 {
                Some(TakeValue::PlusZero)
            } else {
                Some(TakeValue::TakeNum(n))
            }
        } else if n > 0 {
            Some(TakeValue::TakeNum(-n as i64))
        } else {
            Some(TakeValue::TakeNum(n))
        },
    }
}

/// Reads a count argument; text that is not an `i64` comes back as the error.
pub fn parse_num(val: &str) -> (r: Result<TakeValue, String>)
    ensures
        take_value_of(val@) matches Some(v) ==> r == Ok::<TakeValue, String>(v),
        take_value_of(val@) is None ==> (r matches Err(e) && e@ == val@),
{
    let cs = crate::text::chars_of(val);
    let plus = cs.len() > 0 && cs[0] == '+';
    match parse_i64_text(val) {
        None => Err(String::from_str(val)),
        Some(n) => {
            if plus {
                if n == 0 {
                    Ok(TakeValue::PlusZero)
                } else {
                    Ok(TakeValue::TakeNum(n))
                }
            } else if n > 0 {
                Ok(TakeValue::TakeNum(-n))
            } else {
                Ok(TakeValue::TakeNum(n))
            }
        },
    }
}

/// The zero-based index of the first line (or byte) to show out of `total`,
/// or `None` where nothing is shown.
pub open spec fn start_index(take: TakeValue, total: i64) -> Option<u64> {
    if total == 0 {
        None
    } else {
        match take {
            TakeValue::PlusZero => Some(0),
            TakeValue::TakeNum(t) => if t == 0 {
                None
            } else if t > total {
                None
            } else if t > 0 {
                Some((t - 1) as u64)
            } else if t + total < 0 {
                Some(0)
            } else {
                Some((t + total) as u64)
            },
        }
    }
}

/// Where showing starts: `+N` starts at line `N` (one-based) if there is one,
/// `-N` starts `N` from the end, or at the start where the input is shorter.
pub fn get_start_index(take_val: &TakeValue, total: i64) -> (r: Option<u64>)
    ensures
        r == start_index(*take_val, total),
{
    if total == 0 {
        return None;
    }
    match take_val {
        TakeValue::PlusZero => Some(0),
        TakeValue::TakeNum(take) => {
            let take = *take;
            if take == 0 {
                None
            } else if take > total {
                None
            } else if take > 0 {
                Some((take - 1) as u64)
            } else {
                let sum: i128 = take as i128 + total as i128;
                if sum < 0 {
                    Some(0)
                } else {
                    Some(sum as u64)
                }
            }
        },
    }
}

} // verus!
