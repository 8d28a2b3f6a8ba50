use vstd::prelude::*;
use crate::schema::{TypeKind, is_int, is_float};
use crate::text::{decimal, decimal_string};

verus! {

/// One cell of a column. Floats are held as their decimal text; dates as
/// days since 1970-01-01, datetimes as milliseconds since the Unix epoch.
#[derive(Debug, Clone, PartialEq)]
pub enum Value {
    Null,
    Bool(bool),
    Int(i64),
    Float(String),
    Text(String),
    Date(i32),
    Datetime(i64),
    Binary(Vec<u8>),
}

/// A cell as the contracts see it.
pub enum ValueModel {
    Null,
    Bool(bool),
    Int(int),
    Float(Seq<char>),
    Text(Seq<char>),
    Date(int),
    Datetime(int),
    Binary(Seq<u8>),
}

impl View for Value {
    type V = ValueModel;

    open spec fn view(&self) -> ValueModel {
        match self {
            Value::Null => ValueModel::Null,
            Value::Bool(b) => ValueModel::Bool(*b),
            Value::Int(i) => ValueModel::Int(*i as int),
            Value::Float(t) => ValueModel::Float(t@),
            Value::Text(t) => ValueModel::Text(t@),
            Value::Date(d) => ValueModel::Date(*d as int),
            Value::Datetime(m) => ValueModel::Datetime(*m as int),
            Value::Binary(b) => ValueModel::Binary(b@),
        }
    }
}

/// Range of each integer type.
pub open spec fn int_min(t: TypeKind) -> int {
    match t {
        TypeKind::I8 => -0x80,
        TypeKind::I16 => -0x8000,
        TypeKind::I32 => -0x8000_0000,
        _ => -0x8000_0000_0000_0000,
    }
}

pub open spec fn int_max(t: TypeKind) -> int {
    match t {
        TypeKind::I8 => 0x7f,
        TypeKind::I16 => 0x7fff,
        TypeKind::I32 => 0x7fff_ffff,
        _ => 0x7fff_ffff_ffff_ffff,
    }
}

/// Significand bits of a float type: 24 for F32, 53 for F64.
pub open spec fn float_precision(t: TypeKind) -> nat {
    if t is F32 {
        24
    } else {
        53
    }
}

pub open spec fn pow2n(k: nat) -> nat
    decreases k,
{
    if k == 0 {
        1
    } else {
        2 * pow2n((k - 1) as nat)
    }
}

/// Number of binary digits of `m`.
pub open spec fn bit_len(m: nat) -> nat
    decreases m,
{
    if m == 0 {
        0
    } else {
        1 + bit_len(m / 2)
    }
}

/// `m` rounded to `p` significant bits, to nearest, ties to even: the value
/// a float with a `p`-bit significand holds for it.
pub open spec fn round_magnitude(m: nat, p: nat) -> nat {
    let b = bit_len(m);
    if b <= p {
        m
    } else {
        let step = pow2n((b - p) as nat);
        let q = m / step;
        let r = m % step;
        if 2 * r < step || (2 * r == step && q % 2 == 0) {
            q * step
        } else {
            (q + 1) * step
        }
    }
}

/// A value belongs to a column type: null belongs to every type, an integer
/// to the integer types whose range holds it.
pub open spec fn fits(v: ValueModel, t: TypeKind) -> bool {
    match v {
        ValueModel::Null => true,
        ValueModel::Bool(_) => t is Bool,
        ValueModel::Int(i) => is_int(t) && int_min(t) <= i <= int_max(t),
        ValueModel::Float(_) => is_float(t),
        ValueModel::Text(_) => t is Utf8,
        ValueModel::Date(_) => t is Date,
        ValueModel::Datetime(_) => t is Datetime,
        ValueModel::Binary(_) => t is Binary,
    }
}

/// An integer in base 10, with a leading `-` when negative.
pub open spec fn int_text(i: int) -> Seq<char> {
    if i < 0 {
        seq!['-'] + decimal((-i) as nat)
    } else {
        decimal(i as nat)
    }
}

pub open spec fn pad2(n: int) -> Seq<char> {
    if n < 10 {
        seq!['0'] + decimal(n as nat)
    } else {
        decimal(n as nat)
    }
}

pub open spec fn pad3(n: int) -> Seq<char> {
    if n < 10 {
        seq!['0', '0'] + decimal(n as nat)
    } else if n < 100 {
        seq!['0'] + decimal(n as nat)
    } else {
        decimal(n as nat)
    }
}

/// A year in four digits when it has at most four, else in full.
pub open spec fn year_text(y: int) -> Seq<char> {
    if 0 <= y < 10 {
        seq!['0', '0', '0'] + decimal(y as nat)
    } else if 10 <= y < 100 {
        seq!['0', '0'] + decimal(y as nat)
    } else if 100 <= y < 1000 {
        seq!['0'] + decimal(y as nat)
    } else {
        int_text(y)
    }
}

/// Eras of 400 years added so that every day handled here counts from a
/// nonnegative origin.
pub open spec fn era_shift() -> int {
    1_000_000
}

/// The proleptic Gregorian (year, month, day) of a day number, counted from
/// 1970-01-01, by eras of 146097 days.
pub open spec fn civil_from_days(days: int) -> (int, int, int) {
    let z = days + 719468 + era_shift() * 146097;
    let era = z / 146097;
    let doe = z - era * 146097;
    let yoe = (doe - doe / 1460 + doe / 36524 - doe / 146096) / 365;
    let doy = doe - (365 * yoe + yoe / 4 - yoe / 100);
    let mp = (5 * doy + 2) / 153;
    let d = doy - (153 * mp + 2) / 5 + 1;
    let m = if mp < 10 {
        mp + 3
    } else {
        mp - 9
    };
    let y = yoe + (era - era_shift()) * 400;
    (if m <= 2 {
        y + 1
    } else {
        y
    }, m, d)
}

/// ISO-8601 date text of a day number.
pub open spec fn date_text(days: int) -> Seq<char> {
    let (y, m, d) = civil_from_days(days);
    year_text(y) + seq!['-'] + pad2(m) + seq!['-'] + pad2(d)
}

pub open spec fn millis_per_day() -> int {
    86_400_000
}

/// ISO-8601 UTC text of a millisecond timestamp; the milliseconds appear
/// only when they are not zero.
pub open spec fn datetime_text(ms: int) -> Seq<char> {
    let days = ms / millis_per_day();
    let rem = ms - days * millis_per_day();
    let secs = rem / 1000;
    let milli = rem % 1000;
    date_text(days) + seq!['T'] + pad2(secs / 3600) + seq![':'] + pad2((secs % 3600) / 60) + seq![
        ':',
    ] + pad2(secs % 60) + (if milli == 0 {
        Seq::<char>::empty()
    } else {
        seq!['.'] + pad3(milli)
    }) + seq!['Z']
}

pub open spec fn hex_digit(n: int) -> char {
    if n < 10 {
        crate::text::digit_char(n as nat)
    } else if n == 10 {
        'a'
    } else if n == 11 {
        'b'
    } else if n == 12 {
        'c'
    } else if n == 13 {
        'd'
    } else if n == 14 {
        'e'
    } else {
        'f'
    }
}

/// Two lowercase hexadecimal digits per byte.
pub open spec fn hex_text(b: Seq<u8>) -> Seq<char>
    decreases b.len(),
{
    if b.len() == 0 {
        Seq::empty()
    } else {
        hex_text(b.drop_last()) + seq![hex_digit((b.last() / 16) as int), hex_digit((b.last() % 16) as int)]
    }
}

/// The canonical textual form of a value.
pub open spec fn text_of(v: ValueModel) -> Seq<char> {
    match v {
        ValueModel::Null => Seq::empty(),
        ValueModel::Bool(b) => if b {
            seq!['t', 'r', 'u', 'e']
        } else {
            seq!['f', 'a', 'l', 's', 'e']
        },
        ValueModel::Int(i) => int_text(i),
        ValueModel::Float(x) => x,
        ValueModel::Text(x) => x,
        ValueModel::Date(d) => date_text(d),
        ValueModel::Datetime(ms) => datetime_text(ms),
        ValueModel::Binary(b) => hex_text(b),
    }
}

fn int_string(i: i64) -> (r: String)
    ensures
        r@ == int_text(i as int),
{
    if i < 0 {
        let mag: u64 = if i == i64::MIN {
            0x8000_0000_0000_0000
        } else {
            (-i) as u64
        };
        let mut s = String::from_str("-");
        proof {
            reveal_strlit("-");
        }
        s.append(decimal_string(mag).as_str());
        s
    } else {
        decimal_string(i as u64)
    }
}

fn pad2_string(n: u64) -> (r: String)
    requires
        n < 100,
    ensures
        r@ == pad2(n as int),
{
    if n < 10 {
        let mut s = String::from_str("0");
        proof {
            reveal_strlit("0");
        }
        s.append(decimal_string(n).as_str());
        s
    } else {
        decimal_string(n)
    }
}

fn pad3_string(n: u64) -> (r: String)
    requires
        n < 1000,
    ensures
        r@ == pad3(n as int),
{
    proof {
        reveal_strlit("0");
        reveal_strlit("00");
    }
    if n < 10 {
        let mut s = String::from_str("00");
        s.append(decimal_string(n).as_str());
        s
    } else if n < 100 {
        let mut s = String::from_str("0");
        s.append(decimal_string(n).as_str());
        s
    } else {
        decimal_string(n)
    }
}

fn year_string(y: i64) -> (r: String)
    ensures
        r@ == year_text(y as int),
{
    proof {
        reveal_strlit("0");
        reveal_strlit("00");
        reveal_strlit("000");
    }
    if 0 <= y && y < 10 {
        let mut s = String::from_str("000");
        s.append(decimal_string(y as u64).as_str());
        s
    } else if 10 <= y && y < 100 {
        let mut s = String::from_str("00");
        s.append(decimal_string(y as u64).as_str());
        s
    } else if 100 <= y && y < 1000 {
        let mut s = String::from_str("0");
        s.append(decimal_string(y as u64).as_str());
        s
    } else {
        int_string(y)
    }
}

/// Date text of a day number; any day within a few hundred million years of
/// the epoch.
fn date_string(days: i64) -> (r: String)
    requires
        -120_000_000_000 <= days <= 120_000_000_000,
    ensures
        r@ == date_text(days as int),
{
    let z: u64 = (days + 719468 + 1_000_000 * 146097) as u64;
    let era: u64 = z / 146097;
    let doe: u64 = z - era * 146097;
    assert(doe < 146097);
    let yoe: u64 = (doe - doe / 1460 + doe / 36524 - doe / 146096) / 365;
    assert(yoe <= 399);
    assert(365 * yoe + yoe / 4 - yoe / 100 <= doe) by (nonlinear_arith)
        requires
            yoe == (doe - doe / 1460 + doe / 36524 - doe / 146096) / 365,
            doe < 146097,
    ;
    let doy: u64 = doe - (365 * yoe + yoe / 4 - yoe / 100);
    assert(doy <= 365) by (nonlinear_arith)
        requires
            yoe == (doe - doe / 1460 + doe / 36524 - doe / 146096) / 365,
            doe < 146097,
            doy == doe - (365 * yoe + yoe / 4 - yoe / 100),
    ;
    let mp: u64 = (5 * doy + 2) / 153;
    assert(mp <= 11);
    assert((153 * mp + 2) / 5 <= doy) by (nonlinear_arith)
        requires
            mp == (5 * doy + 2) / 153,
    ;
    let d: u64 = doy - (153 * mp + 2) / 5 + 1;
    assert(d <= 31) by (nonlinear_arith)
        requires
            mp == (5 * doy + 2) / 153,
            d == doy - (153 * mp + 2) / 5 + 1,
    ;
    let m: u64 = if mp < 10 {
        mp + 3
    } else {
        mp - 9
    };
    let y0: i64 = yoe as i64 + (era as i64 - 1_000_000) * 400;
    let y: i64 = if m <= 2 {
        y0 + 1
    } else {
        y0
    };
    let mut s = year_string(y);
    proof {
        reveal_strlit("-");
    }
    s.append("-");
    s.append(pad2_string(m).as_str());
    s.append("-");
    s.append(pad2_string(d).as_str());
    s
}

fn datetime_string(ms: i64) -> (r: String)
    ensures
        r@ == datetime_text(ms as int),
{
    let k: i128 = 110_000_000_000;
    let z: u128 = (ms as i128 + k * 86_400_000) as u128;
    let q: u128 = z / 86_400_000;
    let rem: u128 = z % 86_400_000;
    let days: i64 = (q as i128 - k) as i64;
    assert(days as int == ms as int / millis_per_day() && rem as int == ms as int - days as int
        * millis_per_day()) by (nonlinear_arith)
        requires
            z == ms as int + 110_000_000_000 * 86_400_000,
            q == z / 86_400_000,
            rem == z % 86_400_000,
            days == q - 110_000_000_000,
    ;
    let secs: u64 = (rem / 1000) as u64;
    let milli: u64 = (rem % 1000) as u64;
    let mut s = date_string(days);
    proof {
        reveal_strlit("T");
        reveal_strlit(":");
        reveal_strlit(".");
        reveal_strlit("Z");
    }
    s.append("T");
    s.append(pad2_string(secs / 3600).as_str());
    s.append(":");
    s.append(pad2_string((secs % 3600) / 60).as_str());
    s.append(":");
    s.append(pad2_string(secs % 60).as_str());
    if milli != 0 {
        s.append(".");
        s.append(pad3_string(milli).as_str());
    }
    s.append("Z");
    assert(s@ =~= datetime_text(ms as int));
    s
}

fn hex_digit_str(n: u8) -> (r: &'static str)
    requires
        n < 16,
    ensures
        r@ == seq![hex_digit(n as int)],
{
    proof {
        reveal_strlit("0");
        reveal_strlit("1");
        reveal_strlit("2");
        reveal_strlit("3");
        reveal_strlit("4");
        reveal_strlit("5");
        reveal_strlit("6");
        reveal_strlit("7");
        reveal_strlit("8");
        reveal_strlit("9");
        reveal_strlit("a");
        reveal_strlit("b");
        reveal_strlit("c");
        reveal_strlit("d");
        reveal_strlit("e");
        reveal_strlit("f");
    }
    match n {
        0 => "0",
        1 => "1",
        2 => "2",
        3 => "3",
        4 => "4",
        5 => "5",
        6 => "6",
        7 => "7",
        8 => "8",
        9 => "9",
        10 => "a",
        11 => "b",
        12 => "c",
        13 => "d",
        14 => "e",
        _ => "f",
    }
}

fn hex_string(b: &Vec<u8>) -> (r: String)
    ensures
        r@ == hex_text(b@),
{
    let mut s = String::new();
    let mut i: usize = 0;
    while i < b.len()
        invariant
            i <= b@.len(),
            s@ == hex_text(b@.subrange(0, i as int)),
        decreases b@.len() - i,
    {
        assert(b@.subrange(0, i + 1).drop_last() =~= b@.subrange(0, i as int));
        s.append(hex_digit_str(b[i] / 16));
        s.append(hex_digit_str(b[i] % 16));
        i += 1;
    }
    assert(b@.subrange(0, b@.len() as int) =~= b@);
    s
}

/// The canonical textual form of a value: `true`/`false`, integers in base
/// 10, floats as written, ISO-8601 dates and UTC datetimes, bytes in hex.
pub fn value_text(v: &Value) -> (r: String)
    ensures
        r@ == text_of(v@),
{
    proof {
        reveal_strlit("true");
        reveal_strlit("false");
    }
    match v {
        Value::Null => String::new(),
        Value::Bool(b) => if *b {
            String::from_str("true")
        } else {
            String::from_str("false")
        },
        Value::Int(i) => int_string(*i),
        Value::Float(x) => x.clone(),
        Value::Text(x) => x.clone(),
        Value::Date(d) => date_string(*d as i64),
        Value::Datetime(ms) => datetime_string(*ms),
        Value::Binary(b) => hex_string(b),
    }
}

} // verus!
