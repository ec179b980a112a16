use vstd::prelude::*;

verus! {

pub const KILOBYTE: u64 = 1_000;

pub const MEGABYTE: u64 = 1_000_000;

pub const GIGABYTE: u64 = 1_000_000_000;

/// The character of a decimal digit.
pub open spec fn digit_char(d: nat) -> char {
    if d == 0 {
        '0'
    } else if d == 1 {
        '1'
    } else if d == 2 {
        '2'
    } else if d == 3 {
        '3'
    } else if d == 4 {
        '4'
    } else if d == 5 {
        '5'
    } else if d == 6 {
        '6'
    } else if d == 7 {
        '7'
    } else if d == 8 {
        '8'
    } else {
        '9'
    }
}

/// `n` in decimal, without leading zeros.
pub open spec fn decimal(n: nat) -> Seq<char>
    decreases n,
{
    if n < 10 {
        seq![digit_char(n)]
    } else {
        decimal(n / 10).push(digit_char(n % 10))
    }
}

/// `amount / unit` rounded to the nearest hundredth (halves round up), counted in hundredths.
pub open spec fn hundredths(amount: nat, unit: nat) -> nat {
    ((amount * 100 + unit / 2) / unit) as nat
}

/// A count of hundredths written with two decimals, as `12.05`.
pub open spec fn two_decimals(h: nat) -> Seq<char> {
    decimal(h / 100) + seq!['.', digit_char((h % 100) / 10), digit_char(h % 10)]
}

/// How `format_memory` writes an amount of memory: whole megabytes by default;
/// with human-readable units, two decimals of the largest unit it reaches, or
/// plain bytes below a kilobyte.
pub open spec fn memory_text(bytes: u64, human_readable: bool) -> Seq<char> {
    if !human_readable {
        decimal((bytes / MEGABYTE) as nat)
    } else if bytes >= GIGABYTE {
        two_decimals(hundredths(bytes as nat, GIGABYTE as nat)) + " GB"@
    } else if bytes >= MEGABYTE {
        two_decimals(hundredths(bytes as nat, MEGABYTE as nat)) + " MB"@
    } else if bytes >= KILOBYTE {
        two_decimals(hundredths(bytes as nat, KILOBYTE as nat)) + " KB"@
    } else {
        decimal(bytes as nat) + " B"@
    }
}

fn digit_text(d: u128) -> (r: &'static str)
    requires
        d < 10,
    ensures
        r@ == seq![digit_char(d as nat)],
{
    proof {
        reveal_strlit("0");
        reveal_strlit("1");
        reveal_strlit("2");
        reveal_strlit("3");
        reveal_strlit("4");
        reveal_strlit("5");
        reveal_strlit("6");
        reveal_strlit("7");
        reveal_strlit("8");
        reveal_strlit("9");
    }
    if d == 0 {
        "0"
    } else if d == 1 {
        "1"
    } else if d == 2 {
        "2"
    } else if d == 3 {
        "3"
    } else if d == 4 {
        "4"
    } else if d == 5 {
        "5"
    } else if d == 6 {
        "6"
    } else if d == 7 {
        "7"
    } else if d == 8 {
        "8"
    } else {
        "9"
    }
}

/// `n` in decimal.
pub fn decimal_text(n: u128) -> (r: String)
    ensures
        r@ == decimal(n as nat),
    decreases n,
{
    if n < 10 {
        String::from_str(digit_text(n))
    } else {
        let mut s = decimal_text(n / 10);
        s.append(digit_text(n % 10));
        s
    }
}

/// `amount / unit` with two decimals.
fn scaled_text(amount: u64, unit: u64) -> (r: String)
    requires
        unit > 0,
    ensures
        r@ == two_decimals(hundredths(amount as nat, unit as nat)),
{
    let h: u128 = (amount as u128 * 100 + unit as u128 / 2) / unit as u128;
    assert(h == hundredths(amount as nat, unit as nat));
    hundredths_text(h)
}

/// A count of hundredths with two decimals.
fn hundredths_text(h: u128) -> (r: String)
    ensures
        r@ == two_decimals(h as nat),
{
    let mut s = decimal_text(h / 100);
    proof {
        reveal_strlit(".");
    }
    s.append(".");
    s.append(digit_text((h % 100) / 10));
    s.append(digit_text(h % 10));
    assert(s@ =~= two_decimals(h as nat));
    s
}

/// Formats an amount of memory: whole megabytes by default; with
/// human-readable units, two decimals of GB, MB or KB, or plain bytes below a
/// kilobyte (decimal units, halves rounding up).
pub fn format_memory(bytes: u64, human_readable: bool) -> (r: String)
    ensures
        r@ == memory_text(bytes, human_readable),
{
    if !human_readable {
        return decimal_text((bytes / MEGABYTE) as u128);
    }
    if bytes >= GIGABYTE {
        scaled_text(bytes, GIGABYTE).concat(" GB")
    } else if bytes >= MEGABYTE {
        scaled_text(bytes, MEGABYTE).concat(" MB")
    } else if bytes >= KILOBYTE {
        scaled_text(bytes, KILOBYTE).concat(" KB")
    } else {
        decimal_text(bytes as u128).concat(" B")
    }
}

/// A CPU share in hundredths of a percent, written as a percentage with two
/// decimals and a sign when negative, as `-0.25%`.
pub open spec fn percent_text(centi: int) -> Seq<char> {
    if centi < 0 {
        seq!['-'] + two_decimals((-centi) as nat) + seq!['%']
    } else {
        two_decimals(centi as nat) + seq!['%']
    }
}

/// Formats a CPU share given in hundredths of a percent.
pub fn format_percent(centi: i128) -> (r: String)
    ensures
        r@ == percent_text(centi as int),
{
    proof {
        reveal_strlit("-");
        reveal_strlit("%");
    }
    if centi < 0 {
        let magnitude: u128 = (-(centi + 1)) as u128 + 1;
        let mut s = String::from_str("-");
        let digits = hundredths_text(magnitude);
        s.append(digits.as_str());
        s.append("%");
        assert(s@ =~= percent_text(centi as int));
        s
    } else {
        let mut s = hundredths_text(centi as u128);
        s.append("%");
        assert(s@ =~= percent_text(centi as int));
        s
    }
}

} // verus!
