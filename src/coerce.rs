use vstd::prelude::*;
use crate::parse::{
    bool_of_text, date_of_text, datetime_of_text, i64_of_text, is_float_text, parse_bool, parse_date,
    parse_datetime, parse_i64, is_float_str,
};
use crate::schema::{TypeKind, is_int, is_float};
use crate::value::{Value, ValueModel, fits, float_precision, pow2n, bit_len, round_magnitude, int_max, int_min, int_text, millis_per_day, text_of, value_text};

verus! {

pub open spec fn int_in_range(i: int, t: TypeKind) -> bool {
    int_min(t) <= i <= int_max(t)
}

/// An integer cast to a float type: its magnitude rounded to the type's
/// precision, written as an integer and `.0`.
pub open spec fn int_as_float(i: int, t: TypeKind) -> Option<ValueModel> {
    let m = round_magnitude((if i < 0 { -i } else { i }) as nat, float_precision(t));
    Some(
        ValueModel::Float(
            (if i < 0 {
                seq!['-']
            } else {
                Seq::empty()
            }) + crate::text::decimal(m) + seq!['.', '0'],
        ),
    )
}

proof fn lemma_bit_len_bound(m: nat, k: nat)
    requires
        m < pow2n(k),
    ensures
        bit_len(m) <= k,
    decreases k,
{
    if m > 0 {
        assert(k > 0);
        lemma_bit_len_bound(m / 2, (k - 1) as nat);
    }
}

proof fn lemma_pow2n_mono(a: nat, b: nat)
    requires
        a <= b,
    ensures
        pow2n(a) <= pow2n(b),
    decreases b,
{
    if a < b {
        lemma_pow2n_mono(a, (b - 1) as nat);
    }
}

/// `m` rounded to `p` significant bits.
fn round_magnitude_exec(m: u64, p: u64) -> (r: u128)
    requires
        1 <= p <= 53,
    ensures
        r == round_magnitude(m as nat, p as nat),
{
    let mut b: u64 = 0;
    let mut cur: u64 = m;
    proof {
        assert(pow2n(64) == 0x1_0000_0000_0000_0000) by {
            reveal_with_fuel(pow2n, 65);
        }
        lemma_bit_len_bound(m as nat, 64);
    }
    while cur > 0
        invariant
            b + bit_len(cur as nat) == bit_len(m as nat),
            bit_len(m as nat) <= 64,
        decreases cur,
    {
        cur = cur / 2;
        b = b + 1;
    }
    if b <= p {
        return m as u128;
    }
    let k = b - p;
    let mut step: u128 = 1;
    let mut j: u64 = 0;
    proof {
        assert(pow2n(63) == 0x8000_0000_0000_0000) by {
            reveal_with_fuel(pow2n, 64);
        }
    }
    while j < k
        invariant
            j <= k <= 63,
            step == pow2n(j as nat),
        decreases k - j,
    {
        proof {
            lemma_pow2n_mono(j as nat, 62);
            assert(pow2n(62) == 0x4000_0000_0000_0000) by {
                reveal_with_fuel(pow2n, 63);
            }
        }
        step = step * 2;
        j = j + 1;
    }
    assert(step > 0) by {
        lemma_pow2n_mono(0, k as nat);
    }
    proof {
        lemma_pow2n_mono(k as nat, 63);
    }
    let q = (m as u128) / step;
    let r = (m as u128) % step;
    assert(q * step <= m) by (nonlinear_arith)
        requires
            q == m as int / step as int,
            step > 0,
    ;
    if 2 * r < step || (2 * r == step && q % 2 == 0) {
        q * step
    } else {
        assert((q + 1) * step <= m as int + step) by (nonlinear_arith)
            requires
                q * step <= m,
        ;
        (q + 1) * step
    }
}

/// Coerces a value to a column type. `None` is a loss: the value does not
/// survive in that type (out of range, unparseable, or no conversion
/// between the two).
pub open spec fn coerce(v: ValueModel, to: TypeKind) -> Option<ValueModel> {
    if v is Null {
        Some(ValueModel::Null)
    } else if to is Utf8 {
        Some(ValueModel::Text(text_of(v)))
    } else {
        match v {
            ValueModel::Bool(b) => if to is Bool {
                Some(v)
            } else if is_int(to) {
                Some(ValueModel::Int(if b { 1 } else { 0 }))
            } else if is_float(to) {
                Some(ValueModel::Float(if b { seq!['1', '.', '0'] } else { seq!['0', '.', '0'] }))
            } else {
                None
            },
            ValueModel::Int(i) => if is_int(to) {
                if int_in_range(i, to) {
                    Some(v)
                } else {
                    None
                }
            } else if is_float(to) {
                int_as_float(i, to)
            } else {
                None
            },
            ValueModel::Float(x) => if is_float(to) {
                Some(v)
            } else {
                None
            },
            ValueModel::Text(x) => if to is Bool {
                match bool_of_text(x) {
                    Some(b) => Some(ValueModel::Bool(b)),
                    None => None,
                }
            } else if is_int(to) {
                match i64_of_text(x) {
                    Some(i) => if int_in_range(i as int, to) {
                        Some(ValueModel::Int(i as int))
                    } else {
                        None
                    },
                    None => None,
                }
            } else if is_float(to) {
                if is_float_text(x) {
                    Some(ValueModel::Float(x))
                } else {
                    None
                }
            } else if to is Date {
                match date_of_text(x) {
                    Some(d) => if i32::MIN <= d <= i32::MAX {
                        Some(ValueModel::Date(d))
                    } else {
                        None
                    },
                    None => None,
                }
            } else if to is Datetime {
                match datetime_of_text(x) {
                    Some(ms) => Some(ValueModel::Datetime(ms)),
                    None => None,
                }
            } else {
                None
            },
            ValueModel::Date(d) => if to is Date {
                Some(v)
            } else if to is Datetime {
                Some(ValueModel::Datetime(d * millis_per_day()))
            } else {
                None
            },
            ValueModel::Datetime(_) => if to is Datetime {
                Some(v)
            } else {
                None
            },
            ValueModel::Binary(_) => if to is Binary {
                Some(v)
            } else {
                None
            },
            ValueModel::Null => Some(v),
        }
    }
}

pub open spec fn opt_view(r: Option<Value>) -> Option<ValueModel> {
    match r {
        Some(v) => Some(v@),
        None => None,
    }
}

fn int_range_exec(t: TypeKind) -> (r: (i64, i64))
    requires
        is_int(t),
    ensures
        r.0 == int_min(t),
        r.1 == int_max(t),
{
    match t {
        TypeKind::I8 => (-0x80, 0x7f),
        TypeKind::I16 => (-0x8000, 0x7fff),
        TypeKind::I32 => (-0x8000_0000, 0x7fff_ffff),
        _ => (i64::MIN, i64::MAX),
    }
}

fn is_int_type(t: TypeKind) -> (r: bool)
    ensures
        r == is_int(t),
{
    matches!(t, TypeKind::I8 | TypeKind::I16 | TypeKind::I32 | TypeKind::I64)
}

fn is_float_type(t: TypeKind) -> (r: bool)
    ensures
        r == is_float(t),
{
    matches!(t, TypeKind::F32 | TypeKind::F64)
}

fn int_to_float(i: i64, t: TypeKind) -> (r: Option<Value>)
    requires
        is_float(t),
    ensures
        opt_view(r) == int_as_float(i as int, t),
{
    let p: u64 = if t == TypeKind::F32 {
        24
    } else {
        53
    };
    let mag: u64 = if i == i64::MIN {
        0x8000_0000_0000_0000
    } else if i < 0 {
        (-i) as u64
    } else {
        i as u64
    };
    let m = round_magnitude_exec(mag, p);
    proof {
        reveal_strlit(".0");
        reveal_strlit("-");
    }
    let mut s = if i < 0 {
        String::from_str("-")
    } else {
        String::new()
    };
    s.append(crate::text::decimal_string_wide(m).as_str());
    s.append(".0");
    assert(s@ =~= (if i < 0 {
        seq!['-']
    } else {
        Seq::empty()
    }) + crate::text::decimal(m as nat) + seq!['.', '0']);
    Some(Value::Float(s))
}

/// Coerces a value to a column type, or `None` where it is lost.
pub fn coerce_value(v: &Value, to: TypeKind) -> (r: Option<Value>)
    ensures
        opt_view(r) == coerce(v@, to),
{
    proof {
        reveal_strlit("1.0");
        reveal_strlit("0.0");
        assert("1.0"@ =~= seq!['1', '.', '0']);
        assert("0.0"@ =~= seq!['0', '.', '0']);
    }
    if let Value::Null = v {
        return Some(Value::Null);
    }
    if to == TypeKind::Utf8 {
        return Some(Value::Text(value_text(v)));
    }
    match v {
        Value::Bool(b) => {
            if to == TypeKind::Bool {
                Some(Value::Bool(*b))
            } else if is_int_type(to) {
                let i: i64 = if *b {
                    1
                } else {
                    0
                };
                Some(Value::Int(i))
            } else if is_float_type(to) {
                let text = if *b {
                    String::from_str("1.0")
                } else {
                    String::from_str("0.0")
                };
                assert(text@ == if *b { seq!['1', '.', '0'] } else { seq!['0', '.', '0'] });
                Some(Value::Float(text))
            } else {
                None
            }
        },
        Value::Int(i) => {
            if is_int_type(to) {
                let (lo, hi) = int_range_exec(to);
                if lo <= *i && *i <= hi {
                    Some(Value::Int(*i))
                } else {
                    None
                }
            } else if is_float_type(to) {
                int_to_float(*i, to)
            } else {
                None
            }
        },
        Value::Float(x) => {
            if is_float_type(to) {
                Some(Value::Float(x.clone()))
            } else {
                None
            }
        },
        Value::Text(x) => {
            if to == TypeKind::Bool {
                match parse_bool(x.as_str()) {
                    Some(b) => Some(Value::Bool(b)),
                    None => None,
                }
            } else if is_int_type(to) {
                match parse_i64(x.as_str()) {
                    Some(i) => {
                        let (lo, hi) = int_range_exec(to);
                        if lo <= i && i <= hi {
                            Some(Value::Int(i))
                        } else {
                            None
                        }
                    },
                    None => None,
                }
            } else if is_float_type(to) {
                if is_float_str(x.as_str()) {
                    Some(Value::Float(x.clone()))
                } else {
                    None
                }
            } else if to == TypeKind::Date {
                match parse_date(x.as_str()) {
                    Some(d) => if i32::MIN as i64 <= d && d <= i32::MAX as i64 {
                        Some(Value::Date(d as i32))
                    } else {
                        None
                    },
                    None => None,
                }
            } else if to == TypeKind::Datetime {
                match parse_datetime(x.as_str()) {
                    Some(ms) => Some(Value::Datetime(ms)),
                    None => None,
                }
            } else {
                None
            }
        },
        Value::Date(d) => {
            if to == TypeKind::Date {
                Some(Value::Date(*d))
            } else if to == TypeKind::Datetime {
                Some(Value::Datetime((*d as i64) * 86_400_000))
            } else {
                None
            }
        },
        Value::Datetime(ms) => {
            if to == TypeKind::Datetime {
                Some(Value::Datetime(*ms))
            } else {
                None
            }
        },
        Value::Binary(b) => {
            if to == TypeKind::Binary {
                Some(Value::Binary(b.clone()))
            } else {
                None
            }
        },
        Value::Null => Some(Value::Null),
    }
}

/// What coercion gives belongs to the target type.
pub proof fn lemma_coerce_fits(v: ValueModel, t: TypeKind)
    ensures
        coerce(v, t) matches Some(w) ==> fits(w, t),
{
}

} // verus!
