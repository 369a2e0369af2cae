use vstd::prelude::*;

verus! {

/// The number of decimal digits of `d` (one for zero).
pub open spec fn digit_count(d: nat) -> nat
    decreases d,
{
    if d < 10 {
        1
    } else {
        1 + digit_count(d / 10)
    }
}

/// How many zeros stand between the decimal point and the fraction digits
/// `decimals` when a value is printed with `precision` places: enough to
/// fill `precision` digits, none where `decimals` already has that many.
/// `None` where no fraction is printed (a precision outside `1..=5`).
pub open spec fn zeros_spec(precision: u8, decimals: u32) -> Option<u32> {
    if 1 <= precision <= 5 {
        if digit_count(decimals as nat) < precision {
            Some((precision - digit_count(decimals as nat)) as u32)
        } else {
            Some(0)
        }
    } else {
        None
    }
}

/// The number of zeros that pad the fraction digits `decimals` printed with
/// `precision` places.
pub fn fraction_zeros(precision: u8, decimals: u32) -> (r: Option<u32>)
    ensures
        r == zeros_spec(precision, decimals),
{
    if precision < 1 || precision > 5 {
        return None;
    }
    // The digits of `decimals`, counted up to five.
    let digits: u8 = if decimals < 10 {
        1
    } else if decimals < 100 {
        2
    } else if decimals < 1000 {
        3
    } else if decimals < 10000 {
        4
    } else {
        5
    };
    proof {
        reveal_with_fuel(digit_count, 6);
        assert(digits < 5 ==> digit_count(decimals as nat) == digits);
        assert(digits == 5 ==> digit_count(decimals as nat) >= 5);
    }
    if digits < precision {
        Some((precision - digits) as u32)
    } else {
        Some(0)
    }
}

} // verus!
