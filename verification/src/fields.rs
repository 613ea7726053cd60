//! The shared field decoders: eight-digit dates, clock times that may run
//! past midnight, and the grammar of numeric text for coordinates.

use vstd::prelude::*;
use vstd::string::StrSliceExecFns;
use crate::date::Date;
use crate::error::{LoadError, LoadErrorV};
use crate::text::{
    all_digits, digits_val, lemma_digits_val_bound, lemma_digits_val_nonneg, parse_u32, pow10,
    spec_parse_uint,
};

verus! {

/// The date that an eight-digit year-month-day cell denotes, or `None`
/// where the text is not eight digits or not a real calendar date.
pub open spec fn spec_parse_date(s: Seq<char>) -> Option<Date> {
    if s.len() == 8 && all_digits(s) {
        let d = Date {
            year: digits_val(s.take(4)) as u16,
            month: digits_val(s.subrange(4, 6)) as u8,
            day: digits_val(s.subrange(6, 8)) as u8,
        };
        if d.valid() {
            Some(d)
        } else {
            None
        }
    } else {
        None
    }
}

/// Parses fixed eight-digit year-month-day text into a date.
pub fn parse_date(s: &str) -> (r: Option<Date>)
    ensures
        r == spec_parse_date(s@),
{
    let n = s.unicode_len();
    if n != 8 {
        return None;
    }
    let mut i: usize = 0;
    while i < 8
        invariant
            n == s@.len(),
            n == 8,
            i <= 8,
            forall|j: int| 0 <= j < i ==> crate::text::is_digit(#[trigger] s@[j]),
        decreases 8 - i,
    {
        let u = s.get_char(i) as u32;
        if u < 48 || u > 57 {
            proof {
                assert(!all_digits(s@));
            }
            return None;
        }
        i = i + 1;
    }
    proof {
        assert(all_digits(s@));
        reveal_with_fuel(pow10, 5);
        assert(all_digits(s@.take(4)));
        assert(all_digits(s@.subrange(4, 6)));
        assert(all_digits(s@.subrange(6, 8)));
        lemma_digits_val_bound(s@.take(4));
        lemma_digits_val_bound(s@.subrange(4, 6));
        lemma_digits_val_bound(s@.subrange(6, 8));
    }
    let ys = s.substring_char(0, 4);
    let ms = s.substring_char(4, 6);
    let ds = s.substring_char(6, 8);
    proof {
        assert(ys@ =~= s@.take(4));
        assert(ms@ =~= s@.subrange(4, 6));
        assert(ds@ =~= s@.subrange(6, 8));
    }
    let y = match parse_u32(ys) {
        Some(v) => v,
        None => {
            return None;
        },
    };
    let m = match parse_u32(ms) {
        Some(v) => v,
        None => {
            return None;
        },
    };
    let d = match parse_u32(ds) {
        Some(v) => v,
        None => {
            return None;
        },
    };
    if m < 1 || m > 12 {
        return None;
    }
    let dim = Date::days_in_month(y as u16, m as u8);
    if d < 1 || d > dim as u32 {
        return None;
    }
    Some(Date { year: y as u16, month: m as u8, day: d as u8 })
}

/// The index of the first occurrence of `c`, or -1 where there is none.
pub open spec fn spec_find(s: Seq<char>, c: char) -> int
    decreases s.len(),
{
    if s.len() == 0 {
        -1
    } else if s[0] == c {
        0
    } else {
        let r = spec_find(s.skip(1), c);
        if r < 0 {
            -1
        } else {
            r + 1
        }
    }
}

pub proof fn lemma_find_props(s: Seq<char>, c: char)
    ensures
        spec_find(s, c) == -1 ==> forall|j: int| 0 <= j < s.len() ==> s[j] != c,
        spec_find(s, c) >= 0 ==> spec_find(s, c) < s.len() && s[spec_find(s, c)] == c && forall|
            j: int,
        | 0 <= j < spec_find(s, c) ==> s[j] != c,
    decreases s.len(),
{
    if s.len() > 0 && s[0] != c {
        lemma_find_props(s.skip(1), c);
        assert(forall|j: int| 1 <= j < s.len() ==> s[j] == s.skip(1)[j - 1]);
    }
}

/// Finds the first occurrence of `c` in `s` at or after position `from`.
fn find_char(s: &str, from: usize, c: char) -> (r: Option<usize>)
    requires
        from <= s@.len(),
    ensures
        match r {
            Some(i) => from <= i < s@.len() && i - from == spec_find(s@.skip(from as int), c),
            None => spec_find(s@.skip(from as int), c) == -1,
        },
{
    let n = s.unicode_len();
    let mut i: usize = from;
    while i < n
        invariant
            n == s@.len(),
            from <= i <= n,
            forall|j: int| from <= j < i ==> s@[j] != c,
        decreases n - i,
    {
        if s.get_char(i) == c {
            proof {
                let t = s@.skip(from as int);
                lemma_find_props(t, c);
                assert(t[i - from] == s@[i as int]);
                assert(forall|j: int| 0 <= j < i - from ==> t[j] == s@[from + j]);
                let r = spec_find(t, c);
                if r == -1 {
                    assert(t[i - from] != c);
                } else {
                    if r < i - from {
                        assert(s@[from + r] != c);
                        assert(t[r] == s@[from + r]);
                    }
                    if r > i - from {
                        assert(t[i - from] != c);
                    }
                }
            }
            return Some(i);
        }
        i = i + 1;
    }
    proof {
        let t = s@.skip(from as int);
        lemma_find_props(t, c);
        let r = spec_find(t, c);
        if r >= 0 {
            assert(t[r] == s@[from + r]);
        }
    }
    None
}

/// The seconds that clock-time text "H:MM:SS" denotes: the hour component
/// is unbounded, so values past midnight can be expressed. Components
/// beyond the third are ignored; fewer than three components, a component
/// that is not all digits, or a total that does not fit 32 bits is a
/// decode failure.
pub open spec fn spec_parse_time(s: Seq<char>) -> Option<u32> {
    let i1 = spec_find(s, ':');
    if i1 < 0 {
        None
    } else {
        let rest1 = s.skip(i1 + 1);
        let i2 = spec_find(rest1, ':');
        if i2 < 0 {
            None
        } else {
            let rest2 = rest1.skip(i2 + 1);
            let i3 = spec_find(rest2, ':');
            let third = if i3 < 0 {
                rest2
            } else {
                rest2.take(i3)
            };
            let h = spec_parse_uint(s.take(i1), u32::MAX as int);
            let m = spec_parse_uint(rest1.take(i2), u32::MAX as int);
            let sec = spec_parse_uint(third, u32::MAX as int);
            if h is Some && m is Some && sec is Some {
                let total = h->Some_0 * 3600 + m->Some_0 * 60 + sec->Some_0;
                if total <= u32::MAX {
                    Some(total as u32)
                } else {
                    None
                }
            } else {
                None
            }
        }
    }
}

/// Parses clock-time text into seconds since midnight of the service day.
pub fn parse_time(s: &str) -> (r: Result<u32, LoadError>)
    ensures
        match r {
            Ok(t) => spec_parse_time(s@) == Some(t),
            Err(e) => spec_parse_time(s@) is None && e@ == LoadErrorV::Value(s@),
        },
{
    let n = s.unicode_len();
    proof {
        assert(s@.skip(0) =~= s@);
    }
    let i1 = match find_char(s, 0, ':') {
        Some(i) => i,
        None => {
            return Err(LoadError::Value(s.to_owned()));
        },
    };
    let ghost rest1 = s@.skip(i1 + 1);
    let i2 = match find_char(s, i1 + 1, ':') {
        Some(i) => i,
        None => {
            return Err(LoadError::Value(s.to_owned()));
        },
    };
    let ghost rest2 = s@.skip(i2 + 1);
    proof {
        assert(rest1.skip((i2 - i1 - 1) + 1) =~= rest2);
    }
    let i3 = find_char(s, i2 + 1, ':');
    let hs = s.substring_char(0, i1);
    let ms = s.substring_char(i1 + 1, i2);
    let ss = match i3 {
        Some(i) => s.substring_char(i2 + 1, i),
        None => s.substring_char(i2 + 1, n),
    };
    proof {
        assert(hs@ =~= s@.take(i1 as int));
        assert(ms@ =~= rest1.take(i2 - i1 - 1));
        match i3 {
            Some(i) => {
                assert(ss@ =~= rest2.take(i - i2 - 1));
            },
            None => {
                assert(ss@ =~= rest2);
            },
        }
    }
    let h = match parse_u32(hs) {
        Some(v) => v,
        None => {
            return Err(LoadError::Value(s.to_owned()));
        },
    };
    let m = match parse_u32(ms) {
        Some(v) => v,
        None => {
            return Err(LoadError::Value(s.to_owned()));
        },
    };
    let sec = match parse_u32(ss) {
        Some(v) => v,
        None => {
            return Err(LoadError::Value(s.to_owned()));
        },
    };
    proof {
        lemma_digits_val_nonneg(hs@);
        lemma_digits_val_nonneg(ms@);
        lemma_digits_val_nonneg(ss@);
    }
    let total: u64 = (h as u64) * 3600 + (m as u64) * 60 + (sec as u64);
    if total > 0xFFFF_FFFF {
        return Err(LoadError::Value(s.to_owned()));
    }
    Ok(total as u32)
}

pub open spec fn match_ci(c: char, lower: char) -> bool {
    c == lower || c as u32 + 32 == lower as u32
}

pub open spec fn seq_match_ci(s: Seq<char>, t: Seq<char>) -> bool {
    s.len() == t.len() && forall|i: int| 0 <= i < s.len() ==> match_ci(#[trigger] s[i], t[i])
}

/// The non-numeric words that numeric text may spell, in any letter case:
/// infinity (short or long) and not-a-number.
pub open spec fn is_special_float_word(s: Seq<char>) -> bool {
    seq_match_ci(s, seq!['i', 'n', 'f']) || seq_match_ci(
        s,
        seq!['i', 'n', 'f', 'i', 'n', 'i', 't', 'y'],
    ) || seq_match_ci(s, seq!['n', 'a', 'n'])
}

/// The text with one leading plus or minus sign removed.
pub open spec fn strip_sign(s: Seq<char>) -> Seq<char> {
    if s.len() > 0 && (s[0] == '+' || s[0] == '-') {
        s.skip(1)
    } else {
        s
    }
}

/// Digits with at most one decimal point somewhere among them; at least
/// one digit in all.
pub open spec fn is_mantissa(s: Seq<char>) -> bool {
    let i = spec_find(s, '.');
    if i < 0 {
        s.len() > 0 && all_digits(s)
    } else {
        all_digits(s.take(i)) && all_digits(s.skip(i + 1)) && s.len() > 1
    }
}

pub open spec fn is_exponent_part(s: Seq<char>) -> bool {
    let b = strip_sign(s);
    b.len() > 0 && all_digits(b)
}

/// The index of the first exponent marker, lower or upper case.
pub open spec fn spec_find_exp(s: Seq<char>) -> int
    decreases s.len(),
{
    if s.len() == 0 {
        -1
    } else if s[0] == 'e' || s[0] == 'E' {
        0
    } else {
        let r = spec_find_exp(s.skip(1));
        if r < 0 {
            -1
        } else {
            r + 1
        }
    }
}

pub proof fn lemma_find_exp_props(s: Seq<char>)
    ensures
        spec_find_exp(s) == -1 ==> forall|j: int| 0 <= j < s.len() ==> s[j] != 'e' && s[j] != 'E',
        spec_find_exp(s) >= 0 ==> spec_find_exp(s) < s.len() && (s[spec_find_exp(s)] == 'e'
            || s[spec_find_exp(s)] == 'E') && forall|j: int| 0 <= j < spec_find_exp(s) ==> s[j]
            != 'e' && s[j] != 'E',
    decreases s.len(),
{
    if s.len() > 0 && s[0] != 'e' && s[0] != 'E' {
        lemma_find_exp_props(s.skip(1));
        assert(forall|j: int| 1 <= j < s.len() ==> s[j] == s.skip(1)[j - 1]);
    }
}

/// A mantissa, optionally followed by an exponent marker and a signed
/// all-digit exponent.
pub open spec fn is_number_text(s: Seq<char>) -> bool {
    let i = spec_find_exp(s);
    if i < 0 {
        is_mantissa(s)
    } else {
        is_mantissa(s.take(i)) && is_exponent_part(s.skip(i + 1))
    }
}

/// Whether a cell's text is well-shaped numeric text: an optional sign,
/// then either a special word or a number with optional exponent. This is
/// the shape the coordinate and distance columns must decode under; the
/// text itself is what the model keeps.
pub open spec fn spec_is_float_text(s: Seq<char>) -> bool {
    let b = strip_sign(s);
    is_special_float_word(b) || is_number_text(b)
}

fn match_ci_exec(c: char, lower: char) -> (r: bool)
    ensures
        r == match_ci(c, lower),
{
    c == lower || (c as u32) + 32 == (lower as u32)
}

fn all_digits_str(s: &str, from: usize, to: usize) -> (r: bool)
    requires
        from <= to <= s@.len(),
    ensures
        r == all_digits(s@.subrange(from as int, to as int)),
{
    let mut i: usize = from;
    while i < to
        invariant
            from <= i <= to <= s@.len(),
            forall|j: int| from <= j < i ==> crate::text::is_digit(#[trigger] s@[j]),
        decreases to - i,
    {
        let u = s.get_char(i) as u32;
        if u < 48 || u > 57 {
            proof {
                assert(s@.subrange(from as int, to as int)[i - from] == s@[i as int]);
            }
            return false;
        }
        i = i + 1;
    }
    proof {
        let t = s@.subrange(from as int, to as int);
        assert(forall|j: int| 0 <= j < t.len() ==> t[j] == s@[from + j]);
    }
    true
}

fn is_special_word_exec(s: &str) -> (r: bool)
    ensures
        r == is_special_float_word(s@),
{
    let n = s.unicode_len();
    if n == 3 {
        let inf = match_ci_exec(s.get_char(0), 'i') && match_ci_exec(s.get_char(1), 'n')
            && match_ci_exec(s.get_char(2), 'f');
        let nan = match_ci_exec(s.get_char(0), 'n') && match_ci_exec(s.get_char(1), 'a')
            && match_ci_exec(s.get_char(2), 'n');
        proof {
            let t = seq!['i', 'n', 'f'];
            let u = seq!['n', 'a', 'n'];
            assert(inf == seq_match_ci(s@, t)) by {
                if inf {
                    assert(forall|i: int| 0 <= i < 3 ==> match_ci(#[trigger] s@[i], t[i])) by {
                        assert(match_ci(s@[0], t[0]));
                        assert(match_ci(s@[1], t[1]));
                        assert(match_ci(s@[2], t[2]));
                    }
                }
            }
            assert(nan == seq_match_ci(s@, u)) by {
                if nan {
                    assert(forall|i: int| 0 <= i < 3 ==> match_ci(#[trigger] s@[i], u[i])) by {
                        assert(match_ci(s@[0], u[0]));
                        assert(match_ci(s@[1], u[1]));
                        assert(match_ci(s@[2], u[2]));
                    }
                }
            }
            assert(!seq_match_ci(s@, seq!['i', 'n', 'f', 'i', 'n', 'i', 't', 'y']));
        }
        inf || nan
    } else if n == 8 {
        let w = match_ci_exec(s.get_char(0), 'i') && match_ci_exec(s.get_char(1), 'n')
            && match_ci_exec(s.get_char(2), 'f') && match_ci_exec(s.get_char(3), 'i')
            && match_ci_exec(s.get_char(4), 'n') && match_ci_exec(s.get_char(5), 'i')
            && match_ci_exec(s.get_char(6), 't') && match_ci_exec(s.get_char(7), 'y');
        proof {
            let t = seq!['i', 'n', 'f', 'i', 'n', 'i', 't', 'y'];
            assert(w == seq_match_ci(s@, t)) by {
                if w {
                    assert(forall|i: int| 0 <= i < 8 ==> match_ci(#[trigger] s@[i], t[i])) by {
                        assert(match_ci(s@[0], t[0]));
                        assert(match_ci(s@[1], t[1]));
                        assert(match_ci(s@[2], t[2]));
                        assert(match_ci(s@[3], t[3]));
                        assert(match_ci(s@[4], t[4]));
                        assert(match_ci(s@[5], t[5]));
                        assert(match_ci(s@[6], t[6]));
                        assert(match_ci(s@[7], t[7]));
                    }
                }
            }
            assert(!seq_match_ci(s@, seq!['i', 'n', 'f']));
            assert(!seq_match_ci(s@, seq!['n', 'a', 'n']));
        }
        w
    } else {
        proof {
            assert(!seq_match_ci(s@, seq!['i', 'n', 'f']));
            assert(!seq_match_ci(s@, seq!['n', 'a', 'n']));
            assert(!seq_match_ci(s@, seq!['i', 'n', 'f', 'i', 'n', 'i', 't', 'y']));
        }
        false
    }
}

/// Finds the first exponent marker at or after `from`.
fn find_exp_char(s: &str, from: usize) -> (r: Option<usize>)
    requires
        from <= s@.len(),
    ensures
        match r {
            Some(i) => from <= i < s@.len() && i - from == spec_find_exp(s@.skip(from as int)),
            None => spec_find_exp(s@.skip(from as int)) == -1,
        },
{
    let n = s.unicode_len();
    let mut i: usize = from;
    while i < n
        invariant
            n == s@.len(),
            from <= i <= n,
            forall|j: int| from <= j < i ==> s@[j] != 'e' && s@[j] != 'E',
        decreases n - i,
    {
        let c = s.get_char(i);
        if c == 'e' || c == 'E' {
            proof {
                let t = s@.skip(from as int);
                lemma_find_exp_props(t);
                assert(t[i - from] == s@[i as int]);
                assert(forall|j: int| 0 <= j < i - from ==> t[j] == s@[from + j]);
                let r = spec_find_exp(t);
                if r >= 0 && r < i - from {
                    assert(s@[from + r] != 'e' && s@[from + r] != 'E');
                    assert(t[r] == s@[from + r]);
                }
            }
            return Some(i);
        }
        i = i + 1;
    }
    proof {
        let t = s@.skip(from as int);
        lemma_find_exp_props(t);
        let r = spec_find_exp(t);
        if r >= 0 {
            assert(t[r] == s@[from + r]);
        }
    }
    None
}

/// Checks the mantissa shape over `s[from..to]`.
fn is_mantissa_exec(s: &str, from: usize, to: usize) -> (r: bool)
    requires
        from <= to <= s@.len(),
    ensures
        r == is_mantissa(s@.subrange(from as int, to as int)),
{
    let ghost t = s@.subrange(from as int, to as int);
    let dot = find_char_range(s, from, to, '.');
    match dot {
        Some(i) => {
            proof {
                assert(t.take(i - from) =~= s@.subrange(from as int, i as int));
                assert(t.skip(i - from + 1) =~= s@.subrange(i + 1, to as int));
            }
            all_digits_str(s, from, i) && all_digits_str(s, i + 1, to) && to - from > 1
        },
        None => to > from && all_digits_str(s, from, to),
    }
}

/// Finds the first occurrence of `c` in `s[from..to]`, reported relative
/// to the whole text.
fn find_char_range(s: &str, from: usize, to: usize, c: char) -> (r: Option<usize>)
    requires
        from <= to <= s@.len(),
    ensures
        match r {
            Some(i) => from <= i < to && i - from == spec_find(
                s@.subrange(from as int, to as int),
                c,
            ),
            None => spec_find(s@.subrange(from as int, to as int), c) == -1,
        },
{
    let ghost t = s@.subrange(from as int, to as int);
    let mut i: usize = from;
    while i < to
        invariant
            from <= i <= to <= s@.len(),
            t == s@.subrange(from as int, to as int),
            forall|j: int| from <= j < i ==> s@[j] != c,
        decreases to - i,
    {
        if s.get_char(i) == c {
            proof {
                lemma_find_props(t, c);
                assert(t[i - from] == s@[i as int]);
                assert(forall|j: int| 0 <= j < i - from ==> t[j] == s@[from + j]);
                let r = spec_find(t, c);
                if r >= 0 && r < i - from {
                    assert(t[r] == s@[from + r]);
                }
                if r == -1 {
                    assert(t[i - from] != c);
                }
            }
            return Some(i);
        }
        i = i + 1;
    }
    proof {
        lemma_find_props(t, c);
        let r = spec_find(t, c);
        if r >= 0 {
            assert(t[r] == s@[from + r]);
        }
    }
    None
}

/// Whether a cell's text is well-shaped numeric text.
pub fn is_float_text(s: &str) -> (r: bool)
    ensures
        r == spec_is_float_text(s@),
{
    let n = s.unicode_len();
    let start: usize = if n > 0 && (s.get_char(0) == '+' || s.get_char(0) == '-') {
        1
    } else {
        0
    };
    let ghost b = strip_sign(s@);
    proof {
        assert(b =~= s@.subrange(start as int, n as int));
    }
    let body = s.substring_char(start, n);
    if is_special_word_exec(body) {
        return true;
    }
    // number shape: mantissa, optional exponent
    let e = find_exp_char(body, 0);
    proof {
        assert(body@.skip(0) =~= body@);
    }
    match e {
        Some(i) => {
            let bn = body.unicode_len();
            proof {
                assert(body@.subrange(0, i as int) =~= body@.take(i as int));
            }
            if !is_mantissa_exec(body, 0, i) {
                return false;
            }
            // exponent part: optional sign, then digits
            let es: usize = if i + 1 < bn && (body.get_char(i + 1) == '+' || body.get_char(i + 1)
                == '-') {
                i + 2
            } else {
                i + 1
            };
            let ghost ep = body@.skip(i + 1);
            proof {
                assert(strip_sign(ep) =~= body@.subrange(es as int, bn as int));
            }
            es < bn && all_digits_str(body, es, bn)
        },
        None => {
            proof {
                assert(body@.subrange(0, n - start) =~= body@);
            }
            is_mantissa_exec(body, 0, n - start)
        },
    }
}

} // verus!
