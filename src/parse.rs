use vstd::prelude::*;

verus! {

pub open spec fn is_digit(c: char) -> bool {
    '0' <= c && c <= '9'
}

pub open spec fn digit_value(c: char) -> int {
    (c as u32) - ('0' as u32)
}

pub open spec fn all_digits(s: Seq<char>) -> bool {
    forall|i: int| 0 <= i < s.len() ==> is_digit(#[trigger] s[i])
}

/// The number that a run of decimal digits writes.
pub open spec fn digits_value(s: Seq<char>) -> int
    decreases s.len(),
{
    if s.len() == 0 {
        0
    } else {
        digits_value(s.drop_last()) * 10 + digit_value(s.last())
    }
}

pub open spec fn is_sign(c: char) -> bool {
    c == '+' || c == '-'
}

/// The integer that text writes in base 10: an optional sign, then one or
/// more digits.
pub open spec fn int_text_value(s: Seq<char>) -> Option<int> {
    if s.len() > 0 && is_sign(s[0]) {
        let d = s.drop_first();
        if d.len() > 0 && all_digits(d) {
            Some(if s[0] == '-' { -digits_value(d) } else { digits_value(d) })
        } else {
            None
        }
    } else if s.len() > 0 && all_digits(s) {
        Some(digits_value(s))
    } else {
        None
    }
}

/// The text as a 64-bit integer, when it writes one in range.
pub open spec fn i64_of_text(s: Seq<char>) -> Option<i64> {
    match int_text_value(s) {
        Some(v) => if i64::MIN <= v <= i64::MAX {
            Some(v as i64)
        } else {
            None
        },
        None => None,
    }
}

proof fn lemma_digits_value_nonneg(s: Seq<char>)
    requires
        all_digits(s),
    ensures
        digits_value(s) >= 0,
    decreases s.len(),
{
    if s.len() > 0 {
        lemma_digits_value_nonneg(s.drop_last());
    }
}

proof fn lemma_digits_value_grows(s: Seq<char>, k: int)
    requires
        all_digits(s),
        0 <= k <= s.len(),
    ensures
        digits_value(s.subrange(0, k)) <= digits_value(s),
    decreases s.len(),
{
    if k < s.len() {
        assert(s.drop_last().subrange(0, k) =~= s.subrange(0, k));
        lemma_digits_value_grows(s.drop_last(), k);
        lemma_digits_value_nonneg(s.drop_last());
    } else {
        assert(s.subrange(0, k) =~= s);
    }
}

/// Reads the digits of `s` from position `start` on, as long as the value
/// stays at most `limit`.
fn digits_upto(s: &str, start: usize, limit: u64) -> (r: Option<u64>)
    requires
        start <= s@.len(),
    ensures
        all_digits(s@.subrange(start as int, s@.len() as int)) && digits_value(
            s@.subrange(start as int, s@.len() as int),
        ) <= limit ==> r == Some(digits_value(s@.subrange(start as int, s@.len() as int)) as u64),
        !(all_digits(s@.subrange(start as int, s@.len() as int)) && digits_value(
            s@.subrange(start as int, s@.len() as int),
        ) <= limit) ==> r is None,
{
    let n = s.unicode_len();
    let ghost full = s@.subrange(start as int, n as int);
    let mut acc: u64 = 0;
    let mut i: usize = start;
    assert(s@.subrange(start as int, start as int) =~= Seq::<char>::empty());
    while i < n
        invariant
            start <= i <= n == s@.len(),
            full == s@.subrange(start as int, n as int),
            all_digits(s@.subrange(start as int, i as int)),
            acc == digits_value(s@.subrange(start as int, i as int)),
            acc <= limit,
        decreases n - i,
    {
        let c = s.get_char(i);
        let ghost pre = s@.subrange(start as int, i as int);
        let ghost next = s@.subrange(start as int, i + 1);
        assert(next.drop_last() =~= pre);
        assert(next.last() == c);
        if !('0' <= c && c <= '9') {
            assert(full[i - start] == c);
            return None;
        }
        let d = (c as u32 - '0' as u32) as u64;
        if d > limit || acc > (limit - d) / 10 {
            proof {
                assert(all_digits(next)) by {
                    assert forall|k: int| 0 <= k < next.len() implies is_digit(#[trigger] next[k]) by {
                        if k < pre.len() {
                            assert(next[k] == pre[k]);
                        }
                    }
                }
                assert(digits_value(next) > limit) by (nonlinear_arith)
                    requires
                        digits_value(next) == acc * 10 + d,
                        d > limit || acc > (limit - d) / 10,
                        d <= 9,
                        acc >= 0,
                ;
                if all_digits(full) {
                    assert(full.subrange(0, (i + 1 - start) as int) =~= next);
                    lemma_digits_value_grows(full, (i + 1 - start) as int);
                }
            }
            return None;
        }
        assert(acc * 10 + d <= limit) by (nonlinear_arith)
            requires
                acc <= (limit - d) / 10,
                d <= limit,
        ;
        acc = acc * 10 + d;
        assert(all_digits(next)) by {
            assert forall|k: int| 0 <= k < next.len() implies is_digit(#[trigger] next[k]) by {
                if k < pre.len() {
                    assert(next[k] == pre[k]);
                }
            }
        }
        i += 1;
    }
    Some(acc)
}

/// The text as a 64-bit integer: an optional sign and one or more digits,
/// in range.
pub fn parse_i64(s: &str) -> (r: Option<i64>)
    ensures
        r == i64_of_text(s@),
{
    let n = s.unicode_len();
    if n == 0 {
        return None;
    }
    let c = s.get_char(0);
    if c == '+' || c == '-' {
        if n == 1 {
            return None;
        }
        let neg = c == '-';
        let limit: u64 = if neg {
            0x8000_0000_0000_0000
        } else {
            0x7fff_ffff_ffff_ffff
        };
        let ghost d = s@.drop_first();
        assert(s@.subrange(1, n as int) =~= d);
        match digits_upto(s, 1, limit) {
            Some(v) => {
                proof {
                    lemma_digits_value_nonneg(d);
                }
                if neg {
                    if v == 0x8000_0000_0000_0000 {
                        Some(i64::MIN)
                    } else {
                        Some(-(v as i64))
                    }
                } else {
                    Some(v as i64)
                }
            },
            None => {
                proof {
                    if all_digits(d) {
                        lemma_digits_value_nonneg(d);
                    }
                }
                None
            },
        }
    } else {
        assert(s@.subrange(0, n as int) =~= s@);
        match digits_upto(s, 0, 0x7fff_ffff_ffff_ffff) {
            Some(v) => {
                assert(all_digits(s@) && digits_value(s@) <= 0x7fff_ffff_ffff_ffff);
                proof {
                    lemma_digits_value_nonneg(s@);
                }
                Some(v as i64)
            },
            None => {
                proof {
                    if all_digits(s@) {
                        lemma_digits_value_nonneg(s@);
                    }
                }
                None
            },
        }
    }
}

/// `true` or `false`, exactly.
pub open spec fn bool_of_text(s: Seq<char>) -> Option<bool> {
    if s == seq!['t', 'r', 'u', 'e'] {
        Some(true)
    } else if s == seq!['f', 'a', 'l', 's', 'e'] {
        Some(false)
    } else {
        None
    }
}

pub fn parse_bool(s: &str) -> (r: Option<bool>)
    ensures
        r == bool_of_text(s@),
{
    proof {
        reveal_strlit("true");
        reveal_strlit("false");
        assert("true"@ =~= seq!['t', 'r', 'u', 'e']);
        assert("false"@ =~= seq!['f', 'a', 'l', 's', 'e']);
    }
    if crate::schema::str_eq(s, "true") {
        Some(true)
    } else if crate::schema::str_eq(s, "false") {
        Some(false)
    } else {
        None
    }
}

/// States of the decimal float syntax: start, after a sign, in the integer
/// digits, at a point after digits, at a point with no digits before it, in
/// the fraction digits, after the exponent mark, after its sign, in its
/// digits.
pub open spec fn float_step(st: u8, c: char) -> Option<u8> {
    if is_digit(c) {
        if st <= 2 {
            Some(2)
        } else if st <= 5 {
            Some(5)
        } else if st <= 8 {
            Some(8)
        } else {
            None
        }
    } else if is_sign(c) {
        if st == 0 {
            Some(1)
        } else if st == 6 {
            Some(7)
        } else {
            None
        }
    } else if c == '.' {
        if st <= 1 {
            Some(4)
        } else if st == 2 {
            Some(3)
        } else {
            None
        }
    } else if c == 'e' || c == 'E' {
        if st == 2 || st == 3 || st == 5 {
            Some(6)
        } else {
            None
        }
    } else {
        None
    }
}

pub open spec fn float_accepting(st: u8) -> bool {
    st == 2 || st == 3 || st == 5 || st == 8
}

pub open spec fn float_run(s: Seq<char>, i: int, st: u8) -> bool
    decreases s.len() - i,
{
    if i >= s.len() {
        float_accepting(st)
    } else {
        match float_step(st, s[i]) {
            Some(next) => float_run(s, i + 1, next),
            None => false,
        }
    }
}

/// Decimal float text: an optional sign, digits with an optional point
/// (with a digit on at least one side), and an optional exponent.
pub open spec fn is_float_text(s: Seq<char>) -> bool {
    float_run(s, 0, 0)
}

fn float_step_exec(st: u8, c: char) -> (r: Option<u8>)
    ensures
        r == float_step(st, c),
{
    if '0' <= c && c <= '9' {
        if st <= 2 {
            Some(2)
        } else if st <= 5 {
            Some(5)
        } else if st <= 8 {
            Some(8)
        } else {
            None
        }
    } else if c == '+' || c == '-' {
        if st == 0 {
            Some(1)
        } else if st == 6 {
            Some(7)
        } else {
            None
        }
    } else if c == '.' {
        if st <= 1 {
            Some(4)
        } else if st == 2 {
            Some(3)
        } else {
            None
        }
    } else if c == 'e' || c == 'E' {
        if st == 2 || st == 3 || st == 5 {
            Some(6)
        } else {
            None
        }
    } else {
        None
    }
}

/// Whether the text is a decimal float.
pub fn is_float_str(s: &str) -> (r: bool)
    ensures
        r == is_float_text(s@),
{
    let n = s.unicode_len();
    let mut st: u8 = 0;
    let mut i: usize = 0;
    while i < n
        invariant
            i <= n == s@.len(),
            float_run(s@, 0, 0) == float_run(s@, i as int, st),
        decreases n - i,
    {
        match float_step_exec(st, s.get_char(i)) {
            Some(next) => {
                st = next;
            },
            None => {
                return false;
            },
        }
        i += 1;
    }
    st == 2 || st == 3 || st == 5 || st == 8
}

pub open spec fn digits_at(s: Seq<char>, i: int, k: int) -> bool {
    forall|j: int| i <= j < i + k ==> is_digit(#[trigger] s[j])
}

pub open spec fn num2(s: Seq<char>, i: int) -> int {
    digit_value(s[i]) * 10 + digit_value(s[i + 1])
}

pub open spec fn num4(s: Seq<char>, i: int) -> int {
    num2(s, i) * 100 + num2(s, i + 2)
}

pub open spec fn is_leap(y: int) -> bool {
    (y % 4 == 0 && y % 100 != 0) || y % 400 == 0
}

pub open spec fn days_in_month(y: int, m: int) -> int {
    if m == 2 {
        if is_leap(y) {
            29
        } else {
            28
        }
    } else if m == 4 || m == 6 || m == 9 || m == 11 {
        30
    } else {
        31
    }
}

/// Day number (from 1970-01-01) of a proleptic Gregorian date.
pub open spec fn days_from_civil(y: int, m: int, d: int) -> int {
    let yy = if m <= 2 {
        y - 1
    } else {
        y
    };
    let era = yy / 400;
    let yoe = yy - era * 400;
    let mp = if m > 2 {
        m - 3
    } else {
        m + 9
    };
    let doy = (153 * mp + 2) / 5 + d - 1;
    let doe = yoe * 365 + yoe / 4 - yoe / 100 + doy;
    era * 146097 + doe - 719468
}

/// A date written `YYYY-MM-DD`, as its day number.
pub open spec fn date_of_text(s: Seq<char>) -> Option<int> {
    if s.len() >= 10 && s[4] == '-' && s[7] == '-' && digits_at(s, 0, 4) && digits_at(s, 5, 2)
        && digits_at(s, 8, 2) {
        let y = num4(s, 0);
        let m = num2(s, 5);
        let d = num2(s, 8);
        if 1 <= m <= 12 && 1 <= d <= days_in_month(y, m) && s.len() == 10 {
            Some(days_from_civil(y, m, d))
        } else {
            None
        }
    } else {
        None
    }
}

/// A UTC datetime written `YYYY-MM-DDTHH:MM:SS` (or with a space for `T`),
/// optionally ending in `Z`, as milliseconds since the Unix epoch.
pub open spec fn datetime_of_text(s: Seq<char>) -> Option<int> {
    if (s.len() == 19 || (s.len() == 20 && s[19] == 'Z')) && (s[10] == 'T' || s[10] == ' ')
        && s[13] == ':' && s[16] == ':' && digits_at(s, 11, 2) && digits_at(s, 14, 2) && digits_at(
        s,
        17,
        2,
    ) {
        match date_of_text(s.subrange(0, 10)) {
            Some(days) => {
                let h = num2(s, 11);
                let mi = num2(s, 14);
                let sec = num2(s, 17);
                if h < 24 && mi < 60 && sec < 60 {
                    Some(days * 86_400_000 + (h * 3600 + mi * 60 + sec) * 1000)
                } else {
                    None
                }
            },
            None => None,
        }
    } else {
        None
    }
}

fn digits_at_exec(s: &str, i: usize, k: usize) -> (r: bool)
    requires
        i + k <= s@.len(),
    ensures
        r == digits_at(s@, i as int, k as int),
{
    let n = s.unicode_len();
    let end = i + k;
    let mut j: usize = i;
    while j < end
        invariant
            n == s@.len(),
            end == i + k,
            i <= j <= i + k <= s@.len(),
            forall|x: int| i <= x < j ==> is_digit(#[trigger] s@[x]),
        decreases end - j,
    {
        let c = s.get_char(j);
        if !('0' <= c && c <= '9') {
            return false;
        }
        j += 1;
    }
    true
}

fn num2_exec(s: &str, i: usize) -> (r: i64)
    requires
        i + 2 <= s@.len(),
        digits_at(s@, i as int, 2),
    ensures
        r == num2(s@, i as int),
        0 <= r < 100,
{
    // the length, a usize, bounds the indices below
    let _len = s.unicode_len();
    let a = s.get_char(i);
    let b = s.get_char(i + 1);
    assert(is_digit(s@[i as int]) && is_digit(s@[i + 1]));
    ((a as u32 - '0' as u32) * 10 + (b as u32 - '0' as u32)) as i64
}

fn days_from_civil_exec(y: i64, m: i64, d: i64) -> (r: i64)
    requires
        0 <= y < 10000,
        1 <= m <= 12,
        1 <= d <= 31,
    ensures
        r == days_from_civil(y as int, m as int, d as int),
{
    let yy: i64 = if m <= 2 {
        y - 1
    } else {
        y
    };
    let era: i64 = (yy + 400) / 400 - 1;
    assert(era == yy as int / 400);
    let yoe: i64 = yy - era * 400;
    let mp: i64 = if m > 2 {
        m - 3
    } else {
        m + 9
    };
    let doy: i64 = (153 * mp + 2) / 5 + d - 1;
    let doe: i64 = yoe * 365 + yoe / 4 - yoe / 100 + doy;
    era * 146097 + doe - 719468
}

/// The day number of a `YYYY-MM-DD` date.
pub fn parse_date(s: &str) -> (r: Option<i64>)
    ensures
        match date_of_text(s@) {
            Some(d) => r == Some(d as i64) && d == r->Some_0 as int,
            None => r is None,
        },
{
    let n = s.unicode_len();
    if n != 10 {
        return None;
    }
    if s.get_char(4) != '-' || s.get_char(7) != '-' || !digits_at_exec(s, 0, 4) || !digits_at_exec(s, 5, 2)
        || !digits_at_exec(s, 8, 2) {
        return None;
    }
    assert(digits_at(s@, 0, 2) && digits_at(s@, 2, 2));
    let y = num2_exec(s, 0) * 100 + num2_exec(s, 2);
    let m = num2_exec(s, 5);
    let d = num2_exec(s, 8);
    if m < 1 || m > 12 || d < 1 {
        return None;
    }
    let leap = (y % 4 == 0 && y % 100 != 0) || y % 400 == 0;
    let dim: i64 = if m == 2 {
        if leap {
            29
        } else {
            28
        }
    } else if m == 4 || m == 6 || m == 9 || m == 11 {
        30
    } else {
        31
    };
    if d > dim {
        return None;
    }
    Some(days_from_civil_exec(y, m, d))
}

/// The milliseconds since the Unix epoch of a UTC datetime text.
pub fn parse_datetime(s: &str) -> (r: Option<i64>)
    ensures
        match datetime_of_text(s@) {
            Some(ms) => r == Some(ms as i64) && ms == r->Some_0 as int,
            None => r is None,
        },
{
    let n = s.unicode_len();
    if !(n == 19 || (n == 20 && s.get_char(19) == 'Z')) {
        return None;
    }
    let sep = s.get_char(10);
    if !(sep == 'T' || sep == ' ') || s.get_char(13) != ':' || s.get_char(16) != ':' || !digits_at_exec(s, 11, 2)
        || !digits_at_exec(s, 14, 2) || !digits_at_exec(s, 17, 2) {
        return None;
    }
    let date = s.substring_char(0, 10);
    match parse_date(date) {
        Some(days) => {
            let h = num2_exec(s, 11);
            let mi = num2_exec(s, 14);
            let sec = num2_exec(s, 17);
            if h < 24 && mi < 60 && sec < 60 {
                Some(days * 86_400_000 + (h * 3600 + mi * 60 + sec) * 1000)
            } else {
                None
            }
        },
        None => None,
    }
}

} // verus!
