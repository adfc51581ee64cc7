//! Decimal digit strings: the fixed-width numerals used by the persisted
//! experiment representation, and variable-width numerals used by the wire
//! format, together with the facts that connect rendering and reading back.
use vstd::prelude::*;

verus! {

use vstd::arithmetic::div_mod::{
    lemma_div_denominator,
    lemma_fundamental_div_mod,
    lemma_small_mod,
};

pub open spec fn is_digit(c: char) -> bool {
    '0' <= c && c <= '9'
}

pub open spec fn digit_val(c: char) -> int {
    c as int - '0' as int
}

pub open spec fn digit_char(d: int) -> char {
    if d == 0 {
        '0'
    } else if d == 1 {
        '1'
    } else if d == 2 {
        '2'
    } else if d == 3 {
        '3'
    } else if d == 4 {
        '4'
    } else if d == 5 {
        '5'
    } else if d == 6 {
        '6'
    } else if d == 7 {
        '7'
    } else if d == 8 {
        '8'
    } else {
        '9'
    }
}

pub open spec fn all_digits(s: Seq<char>) -> bool {
    forall|i: int| 0 <= i < s.len() ==> is_digit(#[trigger] s[i])
}

/// The integer denoted by a digit string, most significant digit first.
pub open spec fn digits_val(s: Seq<char>) -> int
    decreases s.len(),
{
    if s.len() == 0 {
        0
    } else {
        digits_val(s.drop_last()) * 10 + digit_val(s.last())
    }
}

pub open spec fn pow10(k: nat) -> int
    decreases k,
{
    if k == 0 {
        1
    } else {
        10 * pow10((k - 1) as nat)
    }
}

/// A value rendered as exactly `w` decimal digits, zero padded at the front.
pub open spec fn padded_digits(n: int, w: nat) -> Seq<char> {
    Seq::new(w, |i: int| digit_char((n / pow10((w - 1 - i) as nat)) % 10))
}

pub proof fn lemma_pow10_pos(k: nat)
    ensures
        pow10(k) >= 1,
    decreases k,
{
    if k > 0 {
        lemma_pow10_pos((k - 1) as nat);
    }
}

pub proof fn lemma_digit_char_val(d: int)
    requires
        0 <= d < 10,
    ensures
        is_digit(digit_char(d)),
        digit_val(digit_char(d)) == d,
{
}

/// Reading back a fixed-width rendering gives the value back, as long as the
/// value fits in the width.
pub proof fn lemma_padded_digits_val(n: int, w: nat)
    requires
        0 <= n < pow10(w),
    ensures
        padded_digits(n, w).len() == w,
        all_digits(padded_digits(n, w)),
        digits_val(padded_digits(n, w)) == n,
    decreases w,
{
    let s = padded_digits(n, w);
    assert forall|i: int| 0 <= i < w implies is_digit(#[trigger] s[i]) by {
        let p = pow10((w - 1 - i) as nat);
        lemma_pow10_pos((w - 1 - i) as nat);
        lemma_fundamental_div_mod(n / p, 10);
        lemma_digit_char_val((n / p) % 10);
    }
    if w == 0 {
        assert(n == 0);
    } else {
        let w1 = (w - 1) as nat;
        let m = n / 10;
        lemma_fundamental_div_mod(n, 10);
        assert(0 <= m < pow10(w1)) by {
            lemma_pow10_pos(w1);
            assert(pow10(w) == 10 * pow10(w1));
        }
        lemma_padded_digits_val(m, w1);
        let prev = padded_digits(m, w1);
        assert(s.drop_last() =~= prev) by {
            assert forall|i: int| 0 <= i < w1 implies s.drop_last()[i] == prev[i] by {
                let k = (w1 - 1 - i) as nat;
                lemma_pow10_pos(k);
                lemma_div_denominator(n, 10, pow10(k));
                assert((n / 10) / pow10(k) == n / (10 * pow10(k)));
                assert(pow10((w - 1 - i) as nat) == 10 * pow10(k));
            }
        }
        assert(s.last() == digit_char((n / pow10(0)) % 10));
        assert(n / pow10(0) == n);
        lemma_digit_char_val(n % 10);
        assert(digits_val(s) == digits_val(prev) * 10 + digit_val(s.last()));
        assert(digits_val(s) == m * 10 + n % 10);
    }
}

/// Values below the capacity of a width are distinguished by their rendering;
/// in particular any digit string of that width with that value reads back
/// uniquely, which `digits_val` expresses directly.
pub proof fn lemma_digits_val_bound(s: Seq<char>)
    requires
        all_digits(s),
    ensures
        0 <= digits_val(s) < pow10(s.len()),
    decreases s.len(),
{
    if s.len() == 0 {
    } else {
        lemma_digits_val_bound(s.drop_last());
        assert(is_digit(s.last()));
        assert(0 <= digit_val(s.last()) < 10);
    }
}

pub open spec fn u64_max() -> int {
    0xffff_ffff_ffff_ffff
}

pub open spec fn fixed_width() -> nat {
    20
}

/// Every `u64` fits in the fixed width.
pub proof fn lemma_u64_fits()
    ensures
        u64_max() < pow10(fixed_width()),
{
    reveal_with_fuel(pow10, 21);
    assert(pow10(20) == 100_000_000_000_000_000_000);
}

/// The fixed-width numeral of a `u64`.
pub open spec fn enc_u64(n: u64) -> Seq<char> {
    padded_digits(n as int, fixed_width())
}

pub proof fn lemma_enc_u64(n: u64)
    ensures
        enc_u64(n).len() == fixed_width(),
        all_digits(enc_u64(n)),
        digits_val(enc_u64(n)) == n,
{
    lemma_u64_fits();
    lemma_padded_digits_val(n as int, fixed_width());
}

fn digit_to_char(d: u64) -> (c: char)
    requires
        d < 10,
    ensures
        c == digit_char(d as int),
{
    if d == 0 {
        '0'
    } else if d == 1 {
        '1'
    } else if d == 2 {
        '2'
    } else if d == 3 {
        '3'
    } else if d == 4 {
        '4'
    } else if d == 5 {
        '5'
    } else if d == 6 {
        '6'
    } else if d == 7 {
        '7'
    } else if d == 8 {
        '8'
    } else {
        '9'
    }
}

fn char_to_digit(c: char) -> (r: Option<u64>)
    ensures
        r is Some <==> is_digit(c),
        r is Some ==> r->0 == digit_val(c) && r->0 < 10,
{
    let n = c as u32;
    if 48 <= n && n <= 57 {
        assert('0' <= c && c <= '9');
        Some((n - 48) as u64)
    } else {
        assert(!('0' <= c && c <= '9'));
        None
    }
}

/// Append the fixed-width numeral of `n`.
pub fn push_u64(out: &mut Vec<char>, n: u64)
    ensures
        final(out)@ == old(out)@ + enc_u64(n),
{
    let ghost w = fixed_width();
    let mut tmp: Vec<char> = Vec::new();
    let mut m: u64 = n;
    let mut j: usize = 0;
    while j < 20
        invariant
            j <= 20,
            m == n as int / pow10(j as nat),
            tmp@.len() == j,
            forall|k: int|
                0 <= k < j ==> tmp@[k] == digit_char(
                    (n as int / pow10(k as nat)) % 10,
                ),
        decreases 20 - j,
    {
        proof {
            lemma_pow10_pos(j as nat);
            lemma_fundamental_div_mod(m as int, 10);
            lemma_div_denominator(n as int, pow10(j as nat), 10);
            assert(pow10((j + 1) as nat) == 10 * pow10(j as nat));
            assert(m as int / 10 == n as int / pow10((j + 1) as nat));
        }
        let d = m % 10;
        tmp.push(digit_to_char(d));
        proof {
            assert(d == (n as int / pow10(j as nat)) % 10);
        }
        m = m / 10;
        j = j + 1;
    }
    let mut i: usize = 0;
    let ghost base = out@;
    while i < 20
        invariant
            i <= 20,
            tmp@.len() == 20,
            forall|k: int|
                0 <= k < 20 ==> tmp@[k] == digit_char(
                    (n as int / pow10(k as nat)) % 10,
                ),
            out@ =~= base + enc_u64(n).take(i as int),
        decreases 20 - i,
    {
        out.push(tmp[20 - 1 - i]);
        i = i + 1;
        proof {
            assert(enc_u64(n)[i - 1] == digit_char(
                (n as int / pow10((20 - (i - 1) - 1) as nat)) % 10,
            ));
            assert(out@ =~= base + enc_u64(n).take(i as int));
        }
    }
    proof {
        assert(enc_u64(n).take(20) =~= enc_u64(n));
    }
}

/// Read a fixed-width numeral at `pos`; `None` when the text there is not
/// twenty digits denoting a value that fits in a `u64`.
pub open spec fn sp_u64(s: Seq<char>, pos: int) -> Option<(u64, int)> {
    let w = fixed_width() as int;
    if pos + w <= s.len() && all_digits(s.subrange(pos, pos + w)) && digits_val(
        s.subrange(pos, pos + w),
    ) <= u64_max() {
        Some((digits_val(s.subrange(pos, pos + w)) as u64, pos + w))
    } else {
        None
    }
}

/// A fixed-width numeral reads back to the value it was rendered from.
pub proof fn lemma_sp_u64_round(s: Seq<char>, pos: int, n: u64)
    requires
        0 <= pos,
        pos + fixed_width() <= s.len(),
        s.subrange(pos, pos + fixed_width() as int) =~= enc_u64(n),
    ensures
        sp_u64(s, pos) == Some((n, pos + fixed_width() as int)),
{
    lemma_enc_u64(n);
}

/// Read a fixed-width numeral in executable code.
pub fn parse_u64(v: &Vec<char>, pos: usize) -> (r: Option<(u64, usize)>)
    requires
        pos <= v@.len(),
    ensures
        match r {
            Some(p) => sp_u64(v@, pos as int) == Some((p.0, p.1 as int)),
            None => sp_u64(v@, pos as int) is None,
        },
{
    let vlen = v.len();
    if vlen - pos < 20 {
        return None;
    }
    let ghost sub = v@.subrange(pos as int, pos as int + 20);
    let mut acc: u64 = 0;
    let mut i: usize = 0;
    while i < 20
        invariant
            i <= 20,
            pos + 20 <= vlen,
            vlen == v@.len(),
            sub =~= v@.subrange(pos as int, pos as int + 20),
            all_digits(sub.take(i as int)),
            acc == digits_val(sub.take(i as int)),
        decreases 20 - i,
    {
        let c = v[pos + i];
        assert(c == sub[i as int]);
        match char_to_digit(c) {
            None => {
                assert(!is_digit(sub[i as int]));
                assert(!all_digits(sub));
                return None;
            },
            Some(d) => {
                proof {
                    lemma_digits_val_bound(sub.take(i as int));
                    let t = sub.take(i as int + 1);
                    assert(t.drop_last() =~= sub.take(i as int));
                    assert(t.last() == sub[i as int]);
                    assert(digits_val(t) == acc * 10 + digit_val(sub[i as int]));
                }
                let q = (u64::MAX - d) / 10;
                proof {
                    lemma_fundamental_div_mod((u64::MAX - d) as int, 10);
                }
                if acc > q {
                    proof {
                        assert(acc * 10 >= (q + 1) * 10) by (nonlinear_arith)
                            requires
                                acc >= q + 1,
                        ;
                        assert(acc * 10 + d > u64_max());
                        if all_digits(sub) {
                            lemma_digits_prefix_monotonic(sub, i as int + 1);
                            assert(digits_val(sub) > u64_max());
                        }
                    }
                    return None;
                }
                proof {
                    assert(acc * 10 <= q * 10) by (nonlinear_arith)
                        requires
                            0 <= acc <= q,
                    ;
                    assert(acc * 10 + d <= u64::MAX);
                }
                acc = acc * 10 + d;
                i = i + 1;
            },
        }
    }
    proof {
        assert(sub.take(20) =~= sub);
    }
    Some((acc, pos + 20))
}

pub open spec fn i64_mag(x: i64) -> u64 {
    (if x >= 0 {
        x as int
    } else {
        -(x as int)
    }) as u64
}

/// A signed value: an explicit sign character, then the fixed-width numeral
/// of the magnitude.
pub open spec fn enc_i64(x: i64) -> Seq<char> {
    seq![if x < 0 { '-' } else { '+' }] + enc_u64(i64_mag(x))
}

pub open spec fn sp_i64(s: Seq<char>, pos: int) -> Option<(i64, int)> {
    if 0 <= pos < s.len() && (s[pos] == '+' || s[pos] == '-') {
        match sp_u64(s, pos + 1) {
            Some((m, p)) => if s[pos] == '-' {
                if m <= 0x8000_0000_0000_0000u64 {
                    Some(((-(m as int)) as i64, p))
                } else {
                    None
                }
            } else {
                if m <= i64::MAX as u64 {
                    Some((m as i64, p))
                } else {
                    None
                }
            },
            None => None,
        }
    } else {
        None
    }
}

/// A signed numeral reads back to the value it was rendered from.
pub proof fn lemma_sp_i64_round(s: Seq<char>, pos: int, x: i64)
    requires
        0 <= pos,
        pos + enc_i64(x).len() <= s.len(),
        s.subrange(pos, pos + enc_i64(x).len() as int) =~= enc_i64(x),
    ensures
        enc_i64(x).len() == 1 + fixed_width(),
        sp_i64(s, pos) == Some((x, pos + 1 + fixed_width() as int)),
{
    lemma_enc_u64(i64_mag(x));
    let e = enc_i64(x);
    assert(s[pos] == e[0]);
    assert(s.subrange(pos + 1, pos + 21) =~= e.subrange(1, 21));
    assert(e.subrange(1, 21) =~= enc_u64(i64_mag(x)));
    lemma_sp_u64_round(s, pos + 1, i64_mag(x));
    if x < 0 {
        assert(s[pos] == '-');
        assert(i64_mag(x) <= 0x8000_0000_0000_0000u64);
        assert(-(i64_mag(x) as int) == x as int);
    } else {
        assert(s[pos] == '+');
    }
}

/// Append the signed numeral of `x`.
pub fn push_i64(out: &mut Vec<char>, x: i64)
    ensures
        final(out)@ == old(out)@ + enc_i64(x),
{
    let ghost pre = out@;
    if x < 0 {
        out.push('-');
        let mag = (-(x as i128)) as u64;
        assert(mag == i64_mag(x));
        push_u64(out, mag);
    } else {
        out.push('+');
        push_u64(out, x as u64);
    }
    assert(out@ =~= pre + enc_i64(x));
}

/// Read a signed numeral in executable code.
pub fn parse_i64(v: &Vec<char>, pos: usize) -> (r: Option<(i64, usize)>)
    requires
        pos <= v@.len(),
    ensures
        match r {
            Some(p) => sp_i64(v@, pos as int) == Some((p.0, p.1 as int)),
            None => sp_i64(v@, pos as int) is None,
        },
{
    if pos >= v.len() {
        return None;
    }
    let c = v[pos];
    if c != '+' && c != '-' {
        return None;
    }
    match parse_u64(v, pos + 1) {
        None => None,
        Some((m, p)) => {
            if c == '-' {
                if m <= 0x8000_0000_0000_0000u64 {
                    let x: i64 = (-(m as i128)) as i64;
                    assert(x as int == -(m as int));
                    Some((x, p))
                } else {
                    None
                }
            } else {
                if m <= i64::MAX as u64 {
                    Some((m as i64, p))
                } else {
                    None
                }
            }
        },
    }
}

/// The ordinary decimal numeral of a nonnegative value: no padding, no
/// leading zeros.
pub open spec fn plain_digits(n: int) -> Seq<char>
    decreases n,
{
    if n < 10 {
        seq![digit_char(n)]
    } else {
        plain_digits(n / 10) + seq![digit_char(n % 10)]
    }
}

/// Append the ordinary decimal numeral of `n`.
pub fn push_u64_plain(out: &mut Vec<char>, n: u64)
    ensures
        final(out)@ == old(out)@ + plain_digits(n as int),
    decreases n,
{
    let ghost pre = out@;
    if n < 10 {
        out.push(digit_to_char(n));
    } else {
        proof {
            lemma_fundamental_div_mod(n as int, 10);
        }
        push_u64_plain(out, n / 10);
        out.push(digit_to_char(n % 10));
        assert(out@ =~= pre + plain_digits(n as int));
    }
}

/// Read a run of digits as a value of at most `max`; `None` when a character
/// in the range is no digit or the value is too large.
pub fn parse_digit_run(v: &Vec<char>, from: usize, to: usize, max: u64) -> (r: Option<
    u64,
>)
    requires
        from <= to <= v@.len(),
    ensures
        match r {
            Some(n) => all_digits(v@.subrange(from as int, to as int)) && digits_val(
                v@.subrange(from as int, to as int),
            ) == n && n <= max,
            None => !(all_digits(v@.subrange(from as int, to as int)) && digits_val(
                v@.subrange(from as int, to as int),
            ) <= max),
        },
{
    let ghost sub = v@.subrange(from as int, to as int);
    let mut acc: u64 = 0;
    let mut i: usize = from;
    while i < to
        invariant
            from <= i <= to <= v@.len(),
            sub =~= v@.subrange(from as int, to as int),
            all_digits(sub.take(i - from)),
            acc == digits_val(sub.take(i - from)),
            acc <= max,
        decreases to - i,
    {
        let c = v[i];
        assert(c == sub[i - from]);
        match char_to_digit(c) {
            None => {
                assert(!is_digit(sub[i - from]));
                return None;
            },
            Some(d) => {
                proof {
                    lemma_digits_val_bound(sub.take(i - from));
                    let t = sub.take(i - from + 1);
                    assert(t.drop_last() =~= sub.take(i - from));
                    assert(t.last() == sub[i - from]);
                    assert(digits_val(t) == acc * 10 + digit_val(sub[i - from]));
                }
                let q = (u64::MAX - d) / 10;
                proof {
                    lemma_fundamental_div_mod((u64::MAX - d) as int, 10);
                }
                if acc > q {
                    proof {
                        assert(acc * 10 >= (q + 1) * 10) by (nonlinear_arith)
                            requires
                                acc >= q + 1,
                        ;
                        assert(acc * 10 + digit_val(sub[i - from]) > max);
                        if all_digits(sub) {
                            lemma_digits_prefix_monotonic(sub, i - from + 1);
                        }
                    }
                    return None;
                }
                proof {
                    assert(acc * 10 <= q * 10) by (nonlinear_arith)
                        requires
                            0 <= acc <= q,
                    ;
                }
                let next = acc * 10 + d;
                if next > max {
                    proof {
                        if all_digits(sub) {
                            lemma_digits_prefix_monotonic(sub, i - from + 1);
                        }
                    }
                    return None;
                }
                acc = next;
                i = i + 1;
            },
        }
    }
    proof {
        assert(sub.take(to - from) =~= sub);
    }
    Some(acc)
}

pub proof fn lemma_pow10_units()
    ensures
        pow10(0) == 1,
        pow10(1) == 10,
        pow10(2) == 100,
        pow10(3) == 1000,
{
    reveal_with_fuel(pow10, 4);
}

/// Append exactly three digits, zero padded.
pub fn push_frac3(out: &mut Vec<char>, f: u64)
    requires
        f < 1000,
    ensures
        final(out)@ == old(out)@ + padded_digits(f as int, 3),
{
    let ghost pre = out@;
    out.push(digit_to_char(f / 100));
    out.push(digit_to_char((f / 10) % 10));
    out.push(digit_to_char(f % 10));
    proof {
        lemma_pow10_units();
        lemma_small_mod((f / 100) as nat, 10);
        assert(padded_digits(f as int, 3) =~= seq![
            digit_char(((f as int) / 100) % 10),
            digit_char(((f as int) / 10) % 10),
            digit_char((f as int) % 10),
        ]);
        assert(out@ =~= pre + padded_digits(f as int, 3));
    }
}

/// The index of the first dot in a text, or a negative value when there is
/// none.
pub open spec fn first_dot_of(s: Seq<char>) -> int
    decreases s.len(),
{
    if s.len() == 0 {
        -1
    } else if s[0] == '.' {
        0
    } else {
        let r = first_dot_of(s.skip(1));
        if r < 0 {
            -1
        } else {
            r + 1
        }
    }
}

pub proof fn lemma_first_dot_none(s: Seq<char>)
    requires
        forall|k: int| 0 <= k < s.len() ==> s[k] != '.',
    ensures
        first_dot_of(s) < 0,
    decreases s.len(),
{
    if s.len() > 0 {
        let t = s.skip(1);
        assert(forall|k: int| 0 <= k < t.len() ==> t[k] == s[k + 1] && s[k + 1] != '.');
        lemma_first_dot_none(t);
    }
}

pub proof fn lemma_first_dot_at(s: Seq<char>, i: int)
    requires
        0 <= i < s.len(),
        s[i] == '.',
        forall|k: int| 0 <= k < i ==> s[k] != '.',
    ensures
        first_dot_of(s) == i,
    decreases i,
{
    if i > 0 {
        let t = s.skip(1);
        assert(t[i - 1] == s[i]);
        assert(forall|k: int| 0 <= k < i - 1 ==> t[k] == s[k + 1] && s[k + 1] != '.');
        lemma_first_dot_at(t, i - 1);
    }
}

/// A longer digit string denotes at least as much as any of its prefixes.
pub proof fn lemma_digits_prefix_monotonic(s: Seq<char>, k: int)
    requires
        all_digits(s),
        0 <= k <= s.len(),
    ensures
        digits_val(s) >= digits_val(s.take(k)),
    decreases s.len() - k,
{
    if k < s.len() {
        lemma_digits_prefix_monotonic(s, k + 1);
        let t = s.take(k + 1);
        assert(t.drop_last() =~= s.take(k));
        assert(is_digit(t.last()));
        lemma_digits_val_bound(s.take(k));
    } else {
        assert(s.take(k) =~= s);
    }
}

} // verus!
