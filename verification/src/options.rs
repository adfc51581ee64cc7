//! Option values: the fixed-point numbers used for sampling parameters, the
//! untyped values that arrive in a default-option map, and the coercions
//! from untyped values to each target type.
use vstd::prelude::*;

verus! {

use crate::chars::str_to_chars;
use crate::numerals::{
    all_digits,
    digits_val,
    first_dot_of,
    lemma_first_dot_at,
    lemma_first_dot_none,
    padded_digits,
    parse_digit_run,
    plain_digits,
    pow10,
    push_frac3,
    push_u64_plain,
};

/// A decimal number held exactly, in thousandths. Sampling parameters such
/// as temperature are carried this way so that merging and persistence work
/// on plain integers.
#[derive(Debug, Clone, Copy, PartialEq, Eq, Hash, Structural)]
pub struct Milli {
    pub thousandths: i64,
}

/// The largest whole-unit magnitude a decimal text may denote: any fraction
/// then still fits in an `i64` count of thousandths.
pub const MAX_DECIMAL_UNITS: u64 = 9_223_372_036_854_774;

/// A value from a default-option map, as it arrives from configuration:
/// a piece of text, a number, or a flag.
#[derive(Debug, Clone)]
pub enum UntypedValue {
    Text(String),
    Num(Milli),
    Truth(bool),
}

pub ghost enum UntypedValueV {
    Text(Seq<char>),
    Num(Milli),
    Truth(bool),
}

impl View for UntypedValue {
    type V = UntypedValueV;

    open spec fn view(&self) -> UntypedValueV {
        match self {
            UntypedValue::Text(s) => UntypedValueV::Text(s@),
            UntypedValue::Num(m) => UntypedValueV::Num(*m),
            UntypedValue::Truth(b) => UntypedValueV::Truth(*b),
        }
    }
}

impl UntypedValue {
    /// A copy that denotes the same value.
    pub fn cloned(&self) -> (r: Self)
        ensures
            r@ == self@,
    {
        match self {
            UntypedValue::Text(s) => UntypedValue::Text(s.clone()),
            UntypedValue::Num(m) => UntypedValue::Num(*m),
            UntypedValue::Truth(b) => UntypedValue::Truth(*b),
        }
    }
}

/// The target a recognized option key coerces to.
#[derive(Debug, Clone, Copy, PartialEq, Eq, Structural)]
pub enum TargetKind {
    Unsigned32,
    Signed32,
    Unsigned8,
    FixedPoint,
    StopText,
}

/// A recognized option key whose value could not be coerced to the key's
/// target type; fatal to the whole merge.
#[derive(Debug, Clone)]
pub struct ConfigCoercionError {
    pub key: String,
    pub expected: TargetKind,
}

/// The text rendering of a fixed-point value: optional minus sign, the whole
/// units, a dot, and exactly three fraction digits.
pub open spec fn milli_text(m: Milli) -> Seq<char> {
    let mag = if m.thousandths >= 0 {
        m.thousandths as int
    } else {
        -(m.thousandths as int)
    };
    let sign: Seq<char> = if m.thousandths < 0 {
        seq!['-']
    } else {
        Seq::empty()
    };
    sign + plain_digits(mag / 1000) + seq!['.'] + padded_digits(mag % 1000, 3)
}

/// Append the text rendering of a fixed-point value.
pub fn push_milli(out: &mut Vec<char>, m: Milli)
    ensures
        final(out)@ == old(out)@ + milli_text(m),
{
    let ghost pre = out@;
    let mag: u64 = if m.thousandths < 0 {
        out.push('-');
        (-(m.thousandths as i128)) as u64
    } else {
        m.thousandths as u64
    };
    push_u64_plain(out, mag / 1000);
    out.push('.');
    push_frac3(out, mag % 1000);
    assert(out@ =~= pre + milli_text(m));
}

/// The text a value contributes to a stop sequence: text is taken as is,
/// numbers and flags by their renderings.
pub open spec fn sp_stop_text(v: UntypedValueV) -> Seq<char> {
    match v {
        UntypedValueV::Text(s) => s,
        UntypedValueV::Num(m) => milli_text(m),
        UntypedValueV::Truth(b) => if b {
            "true"@
        } else {
            "false"@
        },
    }
}

pub fn stop_text(v: &UntypedValue) -> (r: Vec<char>)
    ensures
        r@ == sp_stop_text(v@),
{
    match v {
        UntypedValue::Text(s) => str_to_chars(s.as_str()),
        UntypedValue::Num(m) => {
            let mut out: Vec<char> = Vec::new();
            push_milli(&mut out, *m);
            out
        },
        UntypedValue::Truth(b) => {
            if *b {
                str_to_chars("true")
            } else {
                str_to_chars("false")
            }
        },
    }
}

/// A nonempty run of digits, read as a number.
pub open spec fn sp_unsigned_text(s: Seq<char>) -> Option<int> {
    if s.len() > 0 && all_digits(s) {
        Some(digits_val(s))
    } else {
        None
    }
}

/// An unsigned decimal text, read as a count of thousandths: either plain
/// digits, or digits, a dot, and one to three fraction digits.
pub open spec fn sp_decimal_mag(s: Seq<char>) -> Option<int> {
    let d = first_dot_of(s);
    if d < 0 {
        match sp_unsigned_text(s) {
            Some(n) => if n <= MAX_DECIMAL_UNITS {
                Some(n * 1000)
            } else {
                None
            },
            None => None,
        }
    } else {
        let ip = s.take(d);
        let fp = s.skip(d + 1);
        if ip.len() > 0 && all_digits(ip) && 1 <= fp.len() <= 3 && all_digits(fp)
            && digits_val(ip) <= MAX_DECIMAL_UNITS {
            Some(digits_val(ip) * 1000 + digits_val(fp) * pow10((3 - fp.len()) as nat))
        } else {
            None
        }
    }
}

/// A signed decimal text, read as a count of thousandths.
pub open spec fn sp_decimal_text(s: Seq<char>) -> Option<i64> {
    if s.len() > 0 && s[0] == '-' {
        match sp_decimal_mag(s.skip(1)) {
            Some(n) => Some((-n) as i64),
            None => None,
        }
    } else {
        match sp_decimal_mag(s) {
            Some(n) => Some(n as i64),
            None => None,
        }
    }
}

pub open spec fn sp_coerce_u32(v: UntypedValueV) -> Option<u32> {
    match v {
        UntypedValueV::Text(s) => match sp_unsigned_text(s) {
            Some(n) => if n <= u32::MAX {
                Some(n as u32)
            } else {
                None
            },
            None => None,
        },
        UntypedValueV::Num(m) => if m.thousandths % 1000 == 0 && 0 <= m.thousandths
            && m.thousandths / 1000 <= u32::MAX {
            Some((m.thousandths / 1000) as u32)
        } else {
            None
        },
        UntypedValueV::Truth(_) => None,
    }
}

pub open spec fn sp_coerce_u8(v: UntypedValueV) -> Option<u8> {
    match v {
        UntypedValueV::Text(s) => match sp_unsigned_text(s) {
            Some(n) => if n <= u8::MAX {
                Some(n as u8)
            } else {
                None
            },
            None => None,
        },
        UntypedValueV::Num(m) => if m.thousandths % 1000 == 0 && 0 <= m.thousandths
            && m.thousandths / 1000 <= u8::MAX {
            Some((m.thousandths / 1000) as u8)
        } else {
            None
        },
        UntypedValueV::Truth(_) => None,
    }
}

pub open spec fn sp_coerce_i32(v: UntypedValueV) -> Option<i32> {
    match v {
        UntypedValueV::Text(s) => if s.len() > 0 && s[0] == '-' {
            match sp_unsigned_text(s.skip(1)) {
                Some(n) => if n <= 0x8000_0000 {
                    Some((-n) as i32)
                } else {
                    None
                },
                None => None,
            }
        } else {
            match sp_unsigned_text(s) {
                Some(n) => if n <= i32::MAX {
                    Some(n as i32)
                } else {
                    None
                },
                None => None,
            }
        },
        UntypedValueV::Num(m) => if m.thousandths % 1000 == 0 && i32::MIN <= m.thousandths / 1000
            <= i32::MAX {
            Some((m.thousandths / 1000) as i32)
        } else {
            None
        },
        UntypedValueV::Truth(_) => None,
    }
}

pub open spec fn sp_coerce_milli(v: UntypedValueV) -> Option<Milli> {
    match v {
        UntypedValueV::Text(s) => match sp_decimal_text(s) {
            Some(n) => Some(Milli { thousandths: n }),
            None => None,
        },
        UntypedValueV::Num(m) => Some(m),
        UntypedValueV::Truth(_) => None,
    }
}

/// Read a nonempty digit run of at most `max` from a whole text.
fn parse_unsigned_chars(cs: &Vec<char>, from: usize, max: u64) -> (r: Option<u64>)
    requires
        from <= cs@.len(),
    ensures
        match r {
            Some(n) => cs@.len() - from > 0 && all_digits(cs@.skip(from as int)) && digits_val(
                cs@.skip(from as int),
            ) == n && n <= max,
            None => !(cs@.len() - from > 0 && all_digits(cs@.skip(from as int)) && digits_val(
                cs@.skip(from as int),
            ) <= max),
        },
{
    let n = cs.len();
    if n == from {
        return None;
    }
    proof {
        assert(cs@.skip(from as int) =~= cs@.subrange(from as int, cs@.len() as int));
    }
    parse_digit_run(cs, from, n, max)
}

pub fn coerce_u32(v: &UntypedValue) -> (r: Option<u32>)
    ensures
        r == sp_coerce_u32(v@),
{
    match v {
        UntypedValue::Text(s) => {
            let cs = str_to_chars(s.as_str());
            proof {
                assert(cs@.skip(0) =~= cs@);
            }
            match parse_unsigned_chars(&cs, 0, u32::MAX as u64) {
                Some(n) => Some(n as u32),
                None => None,
            }
        },
        UntypedValue::Num(m) => {
            if m.thousandths % 1000 == 0 && 0 <= m.thousandths && m.thousandths / 1000
                <= u32::MAX as i64 {
                Some((m.thousandths / 1000) as u32)
            } else {
                None
            }
        },
        UntypedValue::Truth(_) => None,
    }
}

pub fn coerce_u8(v: &UntypedValue) -> (r: Option<u8>)
    ensures
        r == sp_coerce_u8(v@),
{
    match v {
        UntypedValue::Text(s) => {
            let cs = str_to_chars(s.as_str());
            proof {
                assert(cs@.skip(0) =~= cs@);
            }
            match parse_unsigned_chars(&cs, 0, u8::MAX as u64) {
                Some(n) => Some(n as u8),
                None => None,
            }
        },
        UntypedValue::Num(m) => {
            if m.thousandths % 1000 == 0 && 0 <= m.thousandths && m.thousandths / 1000
                <= u8::MAX as i64 {
                Some((m.thousandths / 1000) as u8)
            } else {
                None
            }
        },
        UntypedValue::Truth(_) => None,
    }
}

pub fn coerce_i32(v: &UntypedValue) -> (r: Option<i32>)
    ensures
        r == sp_coerce_i32(v@),
{
    match v {
        UntypedValue::Text(s) => {
            let cs = str_to_chars(s.as_str());
            if cs.len() > 0 && cs[0] == '-' {
                match parse_unsigned_chars(&cs, 1, 0x8000_0000u64) {
                    Some(n) => Some((-(n as i64)) as i32),
                    None => None,
                }
            } else {
                proof {
                    assert(cs@.skip(0) =~= cs@);
                }
                match parse_unsigned_chars(&cs, 0, i32::MAX as u64) {
                    Some(n) => Some(n as i32),
                    None => None,
                }
            }
        },
        UntypedValue::Num(m) => {
            if m.thousandths % 1000 == 0 && i32::MIN as i64 <= m.thousandths / 1000
                && m.thousandths / 1000 <= i32::MAX as i64 {
                Some((m.thousandths / 1000) as i32)
            } else {
                None
            }
        },
        UntypedValue::Truth(_) => None,
    }
}

/// Read an unsigned decimal text from `from` on, as thousandths.
fn parse_decimal_mag(cs: &Vec<char>, from: usize) -> (r: Option<u64>)
    requires
        from <= cs@.len(),
    ensures
        match r {
            Some(n) => sp_decimal_mag(cs@.skip(from as int)) == Some(n as int) && n
                <= 9_223_372_036_854_774_999u64,
            None => sp_decimal_mag(cs@.skip(from as int)) is None,
        },
{
    let ghost t = cs@.skip(from as int);
    let n = cs.len();
    let mut j: usize = from;
    while j < n && cs[j] != '.'
        invariant
            from <= j <= n,
            n == cs@.len(),
            t =~= cs@.skip(from as int),
            forall|k: int| from <= k < j ==> cs@[k] != '.',
        decreases n - j,
    {
        j = j + 1;
    }
    if j == n {
        // no dot anywhere
        proof {
            assert(forall|k: int| 0 <= k < t.len() ==> t[k] != '.');
            lemma_first_dot_none(t);
        }
        match parse_unsigned_chars(cs, from, MAX_DECIMAL_UNITS) {
            Some(u) => Some(u * 1000),
            None => None,
        }
    } else {
        // first dot at j
        proof {
            assert(t[j - from] == '.');
            assert(forall|k: int| 0 <= k < j - from ==> t[k] != '.');
            lemma_first_dot_at(t, j - from);
        }
        let ghost ip = t.take(j - from);
        let ghost fp = t.skip(j - from + 1);
        proof {
            assert(ip =~= cs@.subrange(from as int, j as int));
            assert(fp =~= cs@.subrange(j as int + 1, n as int));
        }
        if j == from {
            return None;
        }
        let fplen = n - (j + 1);
        if fplen < 1 || fplen > 3 {
            return None;
        }
        let units = match parse_digit_run(cs, from, j, MAX_DECIMAL_UNITS) {
            Some(u) => u,
            None => {
                return None;
            },
        };
        let frac = match parse_digit_run(cs, j + 1, n, 999) {
            Some(f) => f,
            None => {
                proof {
                    if all_digits(fp) {
                        crate::numerals::lemma_digits_val_bound(fp);
                        crate::numerals::lemma_pow10_units();
                        assert(digits_val(fp) < pow10(fp.len() as nat));
                        assert(digits_val(fp) <= 999);
                    }
                }
                return None;
            },
        };
        let scale: u64 = if fplen == 1 {
            100
        } else if fplen == 2 {
            10
        } else {
            1
        };
        proof {
            crate::numerals::lemma_pow10_units();
            crate::numerals::lemma_digits_val_bound(fp);
            assert(scale == pow10((3 - fp.len()) as nat));
            assert(digits_val(fp) < pow10(fp.len() as nat));
            if fplen == 1 {
                assert(frac <= 9);
                assert(frac * 100 <= 900);
            } else if fplen == 2 {
                assert(frac <= 99);
                assert(frac * 10 <= 990);
            } else {
                assert(frac * 1 <= 999);
            }
            assert(frac * scale <= 999);
        }
        Some(units * 1000 + frac * scale)
    }
}

pub fn coerce_milli(v: &UntypedValue) -> (r: Option<Milli>)
    ensures
        r == sp_coerce_milli(v@),
{
    match v {
        UntypedValue::Text(s) => {
            let cs = str_to_chars(s.as_str());
            if cs.len() > 0 && cs[0] == '-' {
                match parse_decimal_mag(&cs, 1) {
                    Some(n) => Some(Milli { thousandths: -(n as i64) }),
                    None => None,
                }
            } else {
                proof {
                    assert(cs@.skip(0) =~= cs@);
                }
                match parse_decimal_mag(&cs, 0) {
                    Some(n) => Some(Milli { thousandths: n as i64 }),
                    None => None,
                }
            }
        },
        UntypedValue::Num(m) => Some(*m),
        UntypedValue::Truth(_) => None,
    }
}

} // verus!
