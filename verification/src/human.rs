use crate::text::push_char;
use vstd::prelude::*;

verus! {

/// The bytes of one unit of display, 1024 * 1024 * 1024.
pub const GIB: u128 = 1073741824;

/// The first whole number that a 64-bit float cannot tell from its
/// neighbour: 2 to the power 53.
pub const EXACT_LIMIT: u128 = 9007199254740992;

/// `n` over `unit`, rounded to the nearest whole number, a tie going to the
/// even one.
pub open spec fn round_half_even(n: nat, unit: nat) -> nat {
    let q = n / unit;
    let r = n % unit;
    if 2 * r > unit || (2 * r == unit && q % 2 == 1) {
        q + 1
    } else {
        q
    }
}

/// The power of two by which `size` has to be scaled down to fit in 53 bits,
/// tried from `unit` upward, in at most `tries` doublings.
pub open spec fn float_unit(size: nat, unit: nat, tries: nat) -> nat
    decreases tries,
{
    if tries == 0 || size / unit < EXACT_LIMIT as nat {
        unit
    } else {
        float_unit(size, 2 * unit, (tries - 1) as nat)
    }
}

/// The whole number that a byte count becomes as a 64-bit float: itself
/// while it fits in 53 bits, else the nearest multiple of the power of two
/// that makes it fit, a tie going to the even multiple.
pub open spec fn as_float(size: nat) -> nat {
    let unit = float_unit(size, 1, 12);
    round_half_even(size, unit) * unit
}

/// A byte count in hundredths of a unit of display, through the float that
/// the count becomes, rounded to the nearest hundredth, a tie going to the
/// even one.
pub open spec fn gb_hundredths(size: nat) -> nat {
    round_half_even(as_float(size) * 100, GIB as nat)
}

/// The character of one decimal digit.
pub open spec fn digit_char(d: nat) -> char {
    if d == 0 {
        '0'
    } else if d == 1 {
        '1'
    } else if d == 2 {
        '2'
    } else if d == 3 {
        '3'
    } else if d == 4 {
        '4'
    } else if d == 5 {
        '5'
    } else if d == 6 {
        '6'
    } else if d == 7 {
        '7'
    } else if d == 8 {
        '8'
    } else {
        '9'
    }
}

/// A whole number in decimal digits, without leading zeros.
pub open spec fn decimal(n: nat) -> Seq<char>
    decreases n,
{
    if n < 10 {
        seq![digit_char(n)]
    } else {
        decimal(n / 10).push(digit_char(n % 10))
    }
}

/// A byte count as it is displayed: units with two decimals, then `GB`.
pub open spec fn size_text(size: nat) -> Seq<char> {
    let h = gb_hundredths(size);
    decimal(h / 100) + seq!['.', digit_char((h % 100) / 10), digit_char(h % 10), 'G', 'B']
}

fn digit(d: u128) -> (c: char)
    requires
        d < 10,
    ensures
        c == digit_char(d as nat),
{
    if d == 0 {
        '0'
    } else if d == 1 {
        '1'
    } else if d == 2 {
        '2'
    } else if d == 3 {
        '3'
    } else if d == 4 {
        '4'
    } else if d == 5 {
        '5'
    } else if d == 6 {
        '6'
    } else if d == 7 {
        '7'
    } else if d == 8 {
        '8'
    } else {
        '9'
    }
}

/// Appends `n` in decimal digits.
pub fn push_decimal(text: &mut String, n: u128)
    ensures
        final(text)@ == old(text)@ + decimal(n as nat),
    decreases n,
{
    if n >= 10 {
        push_decimal(text, n / 10);
    }
    push_char(text, digit(n % 10));
    assert(final(text)@ =~= old(text)@ + decimal(n as nat));
}

fn rounded(n: u128, unit: u128) -> (q: u128)
    requires
        unit > 0,
        n <= u128::MAX / 4,
    ensures
        q == round_half_even(n as nat, unit as nat),
{
    let q: u128 = n / unit;
    let r: u128 = n % unit;
    assert(r < unit && q <= n) by (nonlinear_arith)
        requires
            q == n / unit,
            r == n % unit,
            unit > 0,
    ;
    if r > unit - r || (r == unit - r && q % 2 == 1) {
        q + 1
    } else {
        q
    }
}

/// The hundredths of a unit of display that `size` bytes come to.
pub fn hundredths(size: u64) -> (h: u128)
    ensures
        h == gb_hundredths(size as nat),
{
    let wide: u128 = size as u128;
    let mut unit: u128 = 1;
    let mut tries: u32 = 12;
    while tries > 0 && wide / unit >= EXACT_LIMIT
        invariant
            0 < unit <= 4096,
            wide == size,
            float_unit(size as nat, 1, 12) == float_unit(size as nat, unit as nat, tries as nat),
        decreases tries,
    {
        assert(unit < 2048) by (nonlinear_arith)
            requires
                wide / unit >= 9007199254740992,
                wide < 0x1_0000_0000_0000_0000,
                unit > 0,
        ;
        unit = unit * 2;
        tries = tries - 1;
    }
    let q = rounded(wide, unit);
    assert(q * unit <= 2 * wide + unit) by (nonlinear_arith)
        requires
            q <= wide / unit + 1,
            unit > 0,
    ;
    let float: u128 = q * unit;
    rounded(float * 100, GIB)
}

/// A byte count as it is displayed.
pub fn human_size(size: u64) -> (text: String)
    ensures
        text@ == size_text(size as nat),
{
    let h = hundredths(size);
    let mut text = String::new();
    push_decimal(&mut text, h / 100);
    push_char(&mut text, '.');
    push_char(&mut text, digit((h % 100) / 10));
    push_char(&mut text, digit(h % 10));
    push_char(&mut text, 'G');
    push_char(&mut text, 'B');
    assert(text@ =~= size_text(size as nat));
    text
}

} // verus!
