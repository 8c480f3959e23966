use vstd::prelude::*;
use vstd::string::*;

verus! {

/// One kibibyte.
pub const KIB: usize = 1024;

/// One mebibyte.
pub const MIB: usize = 1048576;

/// One gibibyte.
pub const GIB: usize = 1073741824;

/// The largest byte count the formatter accepts: 100 GiB.
pub open spec fn max_bytes() -> nat {
    100 * (GIB as nat)
}

/// The decimal digit character for `d`.
pub open spec fn digit_char(d: nat) -> char {
    (('0' as u32) + d) as char
}

/// An ASCII decimal digit.
pub open spec fn is_digit(c: char) -> bool {
    '0' <= c && c <= '9'
}

/// The usual decimal rendering of `n`: no leading zeros, `"0"` for zero.
pub open spec fn dec_text(n: nat) -> Seq<char>
    decreases n,
{
    if n < 10 {
        seq![digit_char(n)]
    } else {
        dec_text(n / 10).push(digit_char(n % 10))
    }
}

pub open spec fn is_binary_unit(unit: nat) -> bool {
    unit == KIB || unit == MIB || unit == GIB
}

/// `bytes / unit` counted in hundredths and rounded to the nearest integer,
/// a tie going to the even neighbour.
pub open spec fn rounded_hundredths(bytes: nat, unit: nat) -> nat {
    let h = (100 * bytes) / unit;
    let r = (100 * bytes) % unit;
    if 2 * r > unit || (2 * r == unit && h % 2 == 1) {
        h + 1
    } else {
        h
    }
}

/// The quantity shown for `bytes` in the given binary unit: whole units,
/// tenths digit and hundredths digit of the rounded hundredths.
pub open spec fn quantity(bytes: nat, unit: nat) -> (nat, nat, nat) {
    let v = rounded_hundredths(bytes, unit);
    (v / 100, (v / 10) % 10, v % 10)
}

/// `"<whole>.<d1><d2><suffix>"` for `bytes` in the given binary unit.
pub open spec fn binary_text(bytes: nat, unit: nat, suffix: Seq<char>) -> Seq<char> {
    let q = quantity(bytes, unit);
    dec_text(q.0) + seq!['.', digit_char(q.1), digit_char(q.2)] + suffix
}

/// The unit that `bytes` is shown in: the largest of GiB, MiB, KiB that it
/// reaches, else plain bytes.
pub open spec fn tier_unit(bytes: nat) -> nat {
    if bytes >= GIB {
        GIB as nat
    } else if bytes >= MIB {
        MIB as nat
    } else if bytes >= KIB {
        KIB as nat
    } else {
        1
    }
}

/// The human-readable text for a byte count.
pub open spec fn size_text(bytes: nat) -> Seq<char> {
    if bytes >= GIB {
        binary_text(bytes, GIB as nat, seq!['G', 'i', 'B'])
    } else if bytes >= MIB {
        binary_text(bytes, MIB as nat, seq!['M', 'i', 'B'])
    } else if bytes >= KIB {
        binary_text(bytes, KIB as nat, seq!['K', 'i', 'B'])
    } else {
        dec_text(bytes).push('B')
    }
}

/// What the text for `bytes` shows, counted in hundredths of its unit
/// (plain bytes show whole numbers).
pub open spec fn shown_hundredths(bytes: nat) -> nat {
    if bytes < KIB {
        100 * bytes
    } else {
        let q = quantity(bytes, tier_unit(bytes));
        100 * q.0 + 10 * q.1 + q.2
    }
}

/// Every character of a decimal rendering is a digit, and only zero starts
/// with `'0'`.
proof fn lemma_dec_text_digits(n: nat)
    ensures
        dec_text(n).len() >= 1,
        forall|i: int| 0 <= i < dec_text(n).len() ==> is_digit(#[trigger] dec_text(n)[i]),
        dec_text(n)[0] == '0' ==> n == 0,
    decreases n,
{
    if n >= 10 {
        lemma_dec_text_digits(n / 10);
        let t = dec_text(n / 10);
        assert forall|i: int| 0 <= i < dec_text(n).len() implies is_digit(#[trigger] dec_text(n)[i]) by {
            if i < t.len() {
                assert(dec_text(n)[i] == t[i]);
            }
        }
        assert(dec_text(n)[0] == t[0]);
    }
}

/// The digits of the quantity put back together give the rounded hundredths.
proof fn lemma_quantity_value(bytes: nat, unit: nat)
    requires
        unit > 0,
    ensures
        ({
            let q = quantity(bytes, unit);
            100 * q.0 + 10 * q.1 + q.2 == rounded_hundredths(bytes, unit)
        }),
{
}

/// Hundredths of `bytes / unit` split into the whole units and the hundredths
/// of the remainder.
proof fn lemma_split_hundredths(bytes: nat, unit: nat)
    requires
        unit > 0,
    ensures
        (100 * bytes) / unit == 100 * (bytes / unit) + (100 * (bytes % unit)) / unit,
        (100 * bytes) % unit == (100 * (bytes % unit)) % unit,
        (100 * (bytes % unit)) / unit < 100,
{
    let w = bytes / unit;
    let r = bytes % unit;
    vstd::arithmetic::div_mod::lemma_fundamental_div_mod(bytes as int, unit as int);
    assert(100 * bytes == (100 * w) * unit + 100 * r) by (nonlinear_arith)
        requires
            bytes == unit * w + r,
    ;
    vstd::arithmetic::div_mod::lemma_hoist_over_denominator(
        (100 * r) as int,
        (100 * w) as int,
        unit as nat,
    );
    vstd::arithmetic::div_mod::lemma_mod_multiples_vanish(
        (100 * w) as int,
        (100 * r) as int,
        unit as int,
    );
    assert((100 * r) / unit < 100) by (nonlinear_arith)
        requires
            r < unit,
            unit > 0,
    ;
}

/// The rounded hundredths are the whole units, in hundredths, plus the
/// rounded hundredths of the remainder, which are at most one hundred.
proof fn lemma_rounded_split(bytes: nat, unit: nat)
    requires
        unit > 0,
    ensures
        rounded_hundredths(bytes, unit) == 100 * (bytes / unit) + rounded_hundredths(
            bytes % unit,
            unit,
        ),
        rounded_hundredths(bytes % unit, unit) <= 100,
{
    lemma_split_hundredths(bytes, unit);
    vstd::arithmetic::div_mod::lemma_mod_bound(bytes as int, unit as int);
    vstd::arithmetic::div_mod::lemma_small_mod((bytes % unit) as nat, unit as nat);
}

/// Reading the digits off the rounded hundredths, a full hundred carried into
/// the whole units.
proof fn lemma_carry_digits(bytes: nat, unit: nat, whole: nat, frac: nat)
    requires
        rounded_hundredths(bytes, unit) == 100 * whole + frac,
        frac <= 100,
    ensures
        frac < 100 ==> quantity(bytes, unit) == (whole, frac / 10, frac % 10),
        frac == 100 ==> quantity(bytes, unit) == (whole + 1, 0nat, 0nat),
{
}

/// The integer part of the text never starts with a zero digit, unless it is
/// the single digit zero.
pub proof fn lemma_no_leading_zero(bytes: nat)
    ensures
        size_text(bytes).len() >= 2,
        size_text(bytes)[0] == '0' ==> !is_digit(size_text(bytes)[1]),
{
    let unit = tier_unit(bytes);
    if bytes >= KIB {
        let q = quantity(bytes, unit);
        lemma_split_hundredths(bytes, unit);
        assert(bytes / unit >= 1) by {
            vstd::arithmetic::div_mod::lemma_div_is_ordered(unit as int, bytes as int, unit as int);
            vstd::arithmetic::div_mod::lemma_div_by_self(unit as int);
        }
        lemma_dec_text_digits(q.0);
        assert(size_text(bytes)[0] == dec_text(q.0)[0]);
    } else {
        lemma_dec_text_digits(bytes);
        if size_text(bytes)[0] == '0' {
            assert(bytes == 0);
            assert(size_text(bytes)[1] == 'B');
        }
    }
}

/// Every text in a binary unit holds exactly one `'.'`, followed by exactly
/// two digits and then the unit suffix.
pub proof fn lemma_two_fraction_digits(bytes: nat)
    requires
        bytes >= KIB,
    ensures
        ({
            let s = size_text(bytes);
            let k = s.len() - 6;
            &&& k >= 1
            &&& s[k] == '.'
            &&& is_digit(s[k + 1])
            &&& is_digit(s[k + 2])
            &&& s.subrange(k + 3, s.len() as int) == seq!['K', 'i', 'B'] || s.subrange(
                k + 3,
                s.len() as int,
            ) == seq!['M', 'i', 'B'] || s.subrange(k + 3, s.len() as int) == seq!['G', 'i', 'B']
            &&& forall|i: int| 0 <= i < s.len() && i != k ==> s[i] != '.'
        }),
{
    let unit = tier_unit(bytes);
    let q = quantity(bytes, unit);
    let s = size_text(bytes);
    let d = dec_text(q.0);
    lemma_dec_text_digits(q.0);
    let suffix = s.subrange(d.len() + 3int, s.len() as int);
    assert(s.len() == d.len() + 6);
    assert(suffix =~= seq!['K', 'i', 'B'] || suffix =~= seq!['M', 'i', 'B'] || suffix =~= seq![
        'G',
        'i',
        'B',
    ]);
    assert forall|i: int| 0 <= i < s.len() && i != d.len() implies s[i] != '.' by {
        if i < d.len() {
            assert(s[i] == d[i]);
            assert(is_digit(d[i]));
        }
    }
}

/// Within one unit, a larger byte count never shows a smaller value.
pub proof fn lemma_monotonic(b1: nat, b2: nat)
    requires
        b1 < b2,
        tier_unit(b1) == tier_unit(b2),
    ensures
        shown_hundredths(b1) <= shown_hundredths(b2),
{
    if b1 >= KIB {
        let unit = tier_unit(b1);
        lemma_quantity_value(b1, unit);
        lemma_quantity_value(b2, unit);
        let h1 = (100 * b1) / unit;
        let h2 = (100 * b2) / unit;
        vstd::arithmetic::div_mod::lemma_div_is_ordered((100 * b1) as int, (100 * b2) as int, unit as int);
        vstd::arithmetic::div_mod::lemma_fundamental_div_mod((100 * b1) as int, unit as int);
        vstd::arithmetic::div_mod::lemma_fundamental_div_mod((100 * b2) as int, unit as int);
        if h1 == h2 {
            assert((100 * b1) % unit < (100 * b2) % unit);
        }
    }
}

/// The shown value is `bytes` divided by its unit, in hundredths, rounded to
/// the nearest hundredth: it is off from the exact quotient by at most half a
/// hundredth, and by exactly half only when it is even.
pub proof fn lemma_nearest_hundredth(bytes: nat)
    ensures
        ({
            let unit = tier_unit(bytes);
            let s = shown_hundredths(bytes);
            &&& 2 * (s * unit) <= 200 * bytes + unit
            &&& 200 * bytes <= 2 * (s * unit) + unit
            &&& (2 * (s * unit) == 200 * bytes + unit || 200 * bytes == 2 * (s * unit) + unit)
                ==> s % 2 == 0
        }),
{
    if bytes >= KIB {
        let unit = tier_unit(bytes);
        let h = (100 * bytes) / unit;
        let r = (100 * bytes) % unit;
        lemma_quantity_value(bytes, unit);
        vstd::arithmetic::div_mod::lemma_fundamental_div_mod((100 * bytes) as int, unit as int);
        assert((h + 1) * unit == h * unit + unit) by (nonlinear_arith);
        assert(h * unit == unit * h) by (nonlinear_arith);
    }
}

/// Renders a single decimal digit as its ASCII byte.
pub fn convert_to_numeric_char(a: usize) -> (r: u8)
    requires
        a < 10,
    ensures
        r == 48 + a,
        r as char == digit_char(a as nat),
{
    match a {
        0 => 48,
        1 => 49,
        2 => 50,
        3 => 51,
        4 => 52,
        5 => 53,
        6 => 54,
        7 => 55,
        8 => 56,
        _ => 57,
    }
}

/// Relies on std's `String::push`: appends the character at the end.
#[verifier::external_body]
fn push_char(s: &mut String, c: char)
    ensures
        final(s)@ == old(s)@.push(c),
{
    s.push(c);
}

/// Appends the decimal rendering of `n`.
fn push_decimal(s: &mut String, n: usize)
    ensures
        final(s)@ == old(s)@ + dec_text(n as nat),
    decreases n,
{
    let ghost start = s@;
    if n >= 10 {
        push_decimal(s, n / 10);
    }
    push_char(s, convert_to_numeric_char(n % 10) as char);
    assert(s@ =~= start + dec_text(n as nat));
}

/// Splits `bytes` into the whole units, tenths digit and hundredths digit shown
/// for it in `unit`, the hundredths rounded half to even.
fn prepare(bytes: usize, unit: usize) -> (r: (usize, usize, usize))
    requires
        is_binary_unit(unit as nat),
        bytes < 1024 * unit,
    ensures
        r.0 == quantity(bytes as nat, unit as nat).0,
        r.1 == quantity(bytes as nat, unit as nat).1,
        r.2 == quantity(bytes as nat, unit as nat).2,
        r.0 <= 1024,
        r.1 < 10,
        r.2 < 10,
{
    proof {
        lemma_rounded_split(bytes as nat, unit as nat);
        assert(bytes / unit < 1024) by (nonlinear_arith)
            requires
                bytes < 1024 * unit,
                unit > 0,
        ;
    }
    let n = bytes / unit;
    let rest = bytes % unit;
    // the remainder in hundredths of the unit, rounded half to even
    let unit_wide = unit as u64;
    let scaled_rest = rest as u64 * 100;
    let hundredths = scaled_rest / unit_wide;
    let below = scaled_rest % unit_wide;
    let frac = if 2 * below > unit_wide || (2 * below == unit_wide && hundredths % 2 == 1) {
        hundredths + 1
    } else {
        hundredths
    };
    proof {
        assert(frac == rounded_hundredths(rest as nat, unit as nat));
        lemma_carry_digits(bytes as nat, unit as nat, n as nat, frac as nat);
    }
    // carry a full hundred hundredths into the whole part
    let (frac, n) = if frac >= 100 {
        (frac - 100, n + 1)
    } else {
        (frac, n)
    };
    let frac = frac as usize;
    (n, frac / 10, frac % 10)
}

/// Renders `bytes` in a binary unit: `"<whole>.<d1><d2><suffix>"`.
fn render_binary(bytes: usize, unit: usize, suffix: &str) -> (r: String)
    requires
        is_binary_unit(unit as nat),
        bytes < 1024 * unit,
    ensures
        r@ == binary_text(bytes as nat, unit as nat, suffix@),
{
    let (n, rest_1, rest_2) = prepare(bytes, unit);
    let mut s = String::new();
    push_decimal(&mut s, n);
    push_char(&mut s, '.');
    push_char(&mut s, convert_to_numeric_char(rest_1) as char);
    push_char(&mut s, convert_to_numeric_char(rest_2) as char);
    s.append(suffix);
    assert(s@ =~= binary_text(bytes as nat, unit as nat, suffix@));
    s
}

/// Formats a byte count in binary units: `"<n>B"` below one KiB, otherwise the
/// largest of KiB, MiB, GiB that the count reaches, with two fractional digits.
pub fn pretty_size(bytes: usize) -> (r: String)
    requires
        bytes <= max_bytes(),
    ensures
        r@ == size_text(bytes as nat),
{
    if bytes >= GIB {
        proof {
            reveal_strlit("GiB");
        }
        render_binary(bytes, GIB, "GiB")
    } else if bytes >= MIB {
        proof {
            reveal_strlit("MiB");
        }
        render_binary(bytes, MIB, "MiB")
    } else if bytes >= KIB {
        proof {
            reveal_strlit("KiB");
        }
        render_binary(bytes, KIB, "KiB")
    } else {
        let mut s = String::new();
        push_decimal(&mut s, bytes);
        push_char(&mut s, 'B');
        assert(s@ =~= size_text(bytes as nat));
        s
    }
}

} // verus!
