//! The persisted representation of an experiment: a flat text of
//! length-prefixed fields and fixed-width numerals, written and read back by
//! verified code, with reading proved to undo writing.
use vstd::prelude::*;

verus! {

use crate::chars::{chars_to_string, str_to_chars};
use crate::config::{
    BaseConfig,
    BaseConfigV,
    OptionEntry,
    OptionEntryV,
    RunParameters,
    RunParametersV,
};
use crate::dispatch::{GenerationResult, GenerationResultV};
use crate::numerals::{
    enc_i64,
    enc_u64,
    lemma_enc_u64,
    lemma_sp_i64_round,
    lemma_sp_u64_round,
    parse_i64,
    parse_u64,
    push_i64,
    push_u64,
    sp_i64,
    sp_u64,
};
use crate::options::{Milli, UntypedValue, UntypedValueV};

/// Splitting a known subrange of a text into its two halves.
pub proof fn lemma_subrange_split(s: Seq<char>, pos: int, a: Seq<char>, b: Seq<char>)
    requires
        0 <= pos,
        pos + a.len() + b.len() <= s.len(),
        s.subrange(pos, pos + a.len() + b.len()) =~= a + b,
    ensures
        s.subrange(pos, pos + a.len()) =~= a,
        s.subrange(pos + a.len(), pos + a.len() + b.len()) =~= b,
{
    assert forall|i: int| 0 <= i < a.len() implies s.subrange(pos, pos + a.len() as int)[i] == a[i]
        by {
        assert(s.subrange(pos, pos + a.len() + b.len())[i] == (a + b)[i]);
    }
    assert forall|i: int|
        0 <= i < b.len() implies s.subrange(
        pos + a.len(),
        pos + a.len() + b.len(),
    )[i] == b[i] by {
        assert(s.subrange(pos, pos + a.len() + b.len())[a.len() + i] == (a + b)[a.len() + i]);
    }
}

/// A piece of text: its length as a fixed-width numeral, then its
/// characters.
pub open spec fn enc_text(s: Seq<char>) -> Seq<char> {
    enc_u64(s.len() as u64) + s
}

pub open spec fn sp_text(s: Seq<char>, pos: int) -> Option<(Seq<char>, int)> {
    match sp_u64(s, pos) {
        Some((n, p)) => if p + n <= s.len() {
            Some((s.subrange(p, p + n), p + n))
        } else {
            None
        },
        None => None,
    }
}

pub proof fn lemma_sp_text_round(s: Seq<char>, pos: int, t: Seq<char>)
    requires
        0 <= pos,
        t.len() <= u64::MAX,
        pos + enc_text(t).len() <= s.len(),
        s.subrange(pos, pos + enc_text(t).len()) =~= enc_text(t),
    ensures
        enc_text(t).len() == 20 + t.len(),
        sp_text(s, pos) == Some((t, pos + 20 + t.len())),
{
    let n = t.len() as u64;
    lemma_enc_u64(n);
    lemma_subrange_split(s, pos, enc_u64(n), t);
    lemma_sp_u64_round(s, pos, n);
    assert(s.subrange(pos + 20, pos + 20 + t.len()) =~= t);
}

/// Append a piece of text.
pub fn push_text(out: &mut Vec<char>, s: &str)
    ensures
        final(out)@ == old(out)@ + enc_text(s@),
        s@.len() <= u64::MAX,
{
    let ghost pre = out@;
    let mut cs = str_to_chars(s);
    let n = cs.len();
    push_u64(out, n as u64);
    out.append(&mut cs);
    assert(out@ =~= pre + enc_text(s@));
}

/// Read a piece of text.
pub fn parse_text(v: &Vec<char>, pos: usize) -> (r: Option<(String, usize)>)
    requires
        pos <= v@.len(),
    ensures
        match r {
            Some(p) => sp_text(v@, pos as int) matches Some(q) && p.0@ == q.0 && p.1 as int == q.1
                && pos <= p.1 <= v@.len(),
            None => sp_text(v@, pos as int) is None,
        },
{
    match parse_u64(v, pos) {
        None => None,
        Some((n, p)) => {
            let vlen = v.len();
            if n > (vlen - p) as u64 {
                return None;
            }
            let m = n as usize;
            let mut sub: Vec<char> = Vec::new();
            let mut i: usize = 0;
            while i < m
                invariant
                    i <= m,
                    p + m <= vlen,
                    vlen == v@.len(),
                    sub@ =~= v@.subrange(p as int, p as int + i as int),
                decreases m - i,
            {
                sub.push(v[p + i]);
                assert(sub@ =~= v@.subrange(p as int, p as int + i as int + 1));
                i = i + 1;
            }
            let text = chars_to_string(&sub);
            Some((text, p + m))
        },
    }
}

/// A `u32` is carried as the fixed-width numeral of its value.
pub open spec fn sp_u32(s: Seq<char>, pos: int) -> Option<(u32, int)> {
    match sp_u64(s, pos) {
        Some((n, p)) => if n <= u32::MAX as u64 {
            Some((n as u32, p))
        } else {
            None
        },
        None => None,
    }
}

pub fn parse_u32(v: &Vec<char>, pos: usize) -> (r: Option<(u32, usize)>)
    requires
        pos <= v@.len(),
    ensures
        match r {
            Some(p) => sp_u32(v@, pos as int) == Some((p.0, p.1 as int)),
            None => sp_u32(v@, pos as int) is None,
        },
{
    match parse_u64(v, pos) {
        None => None,
        Some((n, p)) => if n <= u32::MAX as u64 {
            Some((n as u32, p))
        } else {
            None
        },
    }
}

/// A `u8` is carried as the fixed-width numeral of its value.
pub open spec fn sp_u8(s: Seq<char>, pos: int) -> Option<(u8, int)> {
    match sp_u64(s, pos) {
        Some((n, p)) => if n <= u8::MAX as u64 {
            Some((n as u8, p))
        } else {
            None
        },
        None => None,
    }
}

pub fn parse_u8(v: &Vec<char>, pos: usize) -> (r: Option<(u8, usize)>)
    requires
        pos <= v@.len(),
    ensures
        match r {
            Some(p) => sp_u8(v@, pos as int) == Some((p.0, p.1 as int)),
            None => sp_u8(v@, pos as int) is None,
        },
{
    match parse_u64(v, pos) {
        None => None,
        Some((n, p)) => if n <= u8::MAX as u64 {
            Some((n as u8, p))
        } else {
            None
        },
    }
}

/// An `i32` is carried as the signed numeral of its value.
pub open spec fn sp_i32(s: Seq<char>, pos: int) -> Option<(i32, int)> {
    match sp_i64(s, pos) {
        Some((x, p)) => if i32::MIN <= x <= i32::MAX {
            Some((x as i32, p))
        } else {
            None
        },
        None => None,
    }
}

pub fn parse_i32(v: &Vec<char>, pos: usize) -> (r: Option<(i32, usize)>)
    requires
        pos <= v@.len(),
    ensures
        match r {
            Some(p) => sp_i32(v@, pos as int) == Some((p.0, p.1 as int)),
            None => sp_i32(v@, pos as int) is None,
        },
{
    match parse_i64(v, pos) {
        None => None,
        Some((x, p)) => if i32::MIN as i64 <= x && x <= i32::MAX as i64 {
            Some((x as i32, p))
        } else {
            None
        },
    }
}

/// A `Milli` is carried as the signed numeral of its thousandths.
pub open spec fn sp_milli(s: Seq<char>, pos: int) -> Option<(Milli, int)> {
    match sp_i64(s, pos) {
        Some((x, p)) => Some((Milli { thousandths: x }, p)),
        None => None,
    }
}

pub fn parse_milli(v: &Vec<char>, pos: usize) -> (r: Option<(Milli, usize)>)
    requires
        pos <= v@.len(),
    ensures
        match r {
            Some(p) => sp_milli(v@, pos as int) == Some((p.0, p.1 as int)),
            None => sp_milli(v@, pos as int) is None,
        },
{
    match parse_i64(v, pos) {
        None => None,
        Some((x, p)) => Some((Milli { thousandths: x }, p)),
    }
}

/// An untyped value: a tag character, then its payload.
pub open spec fn enc_value(v: UntypedValueV) -> Seq<char> {
    match v {
        UntypedValueV::Text(s) => seq!['t'] + enc_text(s),
        UntypedValueV::Num(m) => seq!['n'] + enc_i64(m.thousandths),
        UntypedValueV::Truth(b) => seq!['b', if b { '1' } else { '0' }],
    }
}

pub open spec fn value_fits(v: UntypedValueV) -> bool {
    match v {
        UntypedValueV::Text(s) => s.len() <= u64::MAX,
        _ => true,
    }
}

pub open spec fn sp_value(s: Seq<char>, pos: int) -> Option<(UntypedValueV, int)> {
    if 0 <= pos < s.len() {
        if s[pos] == 't' {
            match sp_text(s, pos + 1) {
                Some((t, p)) => Some((UntypedValueV::Text(t), p)),
                None => None,
            }
        } else if s[pos] == 'n' {
            match sp_i64(s, pos + 1) {
                Some((x, p)) => Some((UntypedValueV::Num(Milli { thousandths: x }), p)),
                None => None,
            }
        } else if s[pos] == 'b' {
            if pos + 1 < s.len() && (s[pos + 1] == '1' || s[pos + 1] == '0') {
                Some((UntypedValueV::Truth(s[pos + 1] == '1'), pos + 2))
            } else {
                None
            }
        } else {
            None
        }
    } else {
        None
    }
}

pub proof fn lemma_sp_value_round(s: Seq<char>, pos: int, v: UntypedValueV)
    requires
        0 <= pos,
        value_fits(v),
        pos + enc_value(v).len() <= s.len(),
        s.subrange(pos, pos + enc_value(v).len()) =~= enc_value(v),
    ensures
        sp_value(s, pos) == Some((v, pos + enc_value(v).len())),
{
    let e = enc_value(v);
    assert(s[pos] == e[0]);
    match v {
        UntypedValueV::Text(t) => {
            lemma_subrange_split(s, pos, seq!['t'], enc_text(t));
            lemma_sp_text_round(s, pos + 1, t);
        },
        UntypedValueV::Num(m) => {
            lemma_subrange_split(s, pos, seq!['n'], enc_i64(m.thousandths));
            lemma_sp_i64_round(s, pos + 1, m.thousandths);
        },
        UntypedValueV::Truth(b) => {
            assert(s[pos + 1] == e[1]);
        },
    }
}

/// Append an untyped value.
pub fn push_value(out: &mut Vec<char>, v: &UntypedValue)
    ensures
        final(out)@ == old(out)@ + enc_value(v@),
        value_fits(v@),
{
    let ghost pre = out@;
    match v {
        UntypedValue::Text(s) => {
            out.push('t');
            push_text(out, s.as_str());
        },
        UntypedValue::Num(m) => {
            out.push('n');
            push_i64(out, m.thousandths);
        },
        UntypedValue::Truth(b) => {
            out.push('b');
            out.push(if *b {
                '1'
            } else {
                '0'
            });
        },
    }
    assert(out@ =~= pre + enc_value(v@));
}

/// Read an untyped value.
pub fn parse_value(v: &Vec<char>, pos: usize) -> (r: Option<(UntypedValue, usize)>)
    requires
        pos <= v@.len(),
    ensures
        match r {
            Some(p) => sp_value(v@, pos as int) matches Some(q) && p.0@ == q.0 && p.1 as int == q.1
                && pos <= p.1 <= v@.len(),
            None => sp_value(v@, pos as int) is None,
        },
{
    if pos >= v.len() {
        return None;
    }
    let c = v[pos];
    if c == 't' {
        match parse_text(v, pos + 1) {
            Some((t, p)) => Some((UntypedValue::Text(t), p)),
            None => None,
        }
    } else if c == 'n' {
        match parse_i64(v, pos + 1) {
            Some((x, p)) => {
                proof {
                    sp_i64_end(v@, pos as int + 1);
                }
                Some((UntypedValue::Num(Milli { thousandths: x }), p))
            },
            None => None,
        }
    } else if c == 'b' {
        if pos + 1 < v.len() {
            let d = v[pos + 1];
            if d == '1' || d == '0' {
                Some((UntypedValue::Truth(d == '1'), pos + 2))
            } else {
                None
            }
        } else {
            None
        }
    } else {
        None
    }
}

/// A read position never runs past the end of the text.
proof fn sp_i64_end(s: Seq<char>, pos: int)
    ensures
        sp_i64(s, pos) matches Some(p) ==> pos <= p.1 <= s.len(),
{
}

/// One default-option entry: its key, then its value.
pub open spec fn enc_entry(e: OptionEntryV) -> Seq<char> {
    enc_text(e.key) + enc_value(e.value)
}

pub open spec fn entry_fits(e: OptionEntryV) -> bool {
    e.key.len() <= u64::MAX && value_fits(e.value)
}

pub open spec fn sp_entry(s: Seq<char>, pos: int) -> Option<(OptionEntryV, int)> {
    match sp_text(s, pos) {
        Some((k, p)) => match sp_value(s, p) {
            Some((v, p2)) => Some((OptionEntryV { key: k, value: v }, p2)),
            None => None,
        },
        None => None,
    }
}

pub proof fn lemma_sp_entry_round(s: Seq<char>, pos: int, e: OptionEntryV)
    requires
        0 <= pos,
        entry_fits(e),
        pos + enc_entry(e).len() <= s.len(),
        s.subrange(pos, pos + enc_entry(e).len()) =~= enc_entry(e),
    ensures
        sp_entry(s, pos) == Some((e, pos + enc_entry(e).len())),
{
    lemma_subrange_split(s, pos, enc_text(e.key), enc_value(e.value));
    lemma_sp_text_round(s, pos, e.key);
    lemma_sp_value_round(s, pos + enc_text(e.key).len(), e.value);
}

pub fn push_entry(out: &mut Vec<char>, e: &OptionEntry)
    ensures
        final(out)@ == old(out)@ + enc_entry(e@),
        entry_fits(e@),
{
    let ghost pre = out@;
    push_text(out, e.key.as_str());
    push_value(out, &e.value);
    assert(out@ =~= pre + enc_entry(e@));
}

pub fn parse_entry(v: &Vec<char>, pos: usize) -> (r: Option<(OptionEntry, usize)>)
    requires
        pos <= v@.len(),
    ensures
        match r {
            Some(p) => sp_entry(v@, pos as int) matches Some(q) && p.0@ == q.0 && p.1 as int == q.1
                && pos <= p.1 <= v@.len(),
            None => sp_entry(v@, pos as int) is None,
        },
{
    match parse_text(v, pos) {
        None => None,
        Some((k, p)) => match parse_value(v, p) {
            None => None,
            Some((val, p2)) => Some((OptionEntry { key: k, value: val }, p2)),
        },
    }
}

/// The body of an entry list: each entry in order.
pub open spec fn enc_entries_body(d: Seq<OptionEntryV>) -> Seq<char>
    decreases d.len(),
{
    if d.len() == 0 {
        Seq::empty()
    } else {
        enc_entry(d[0]) + enc_entries_body(d.skip(1))
    }
}

/// An entry list: its length, then its body.
pub open spec fn enc_entries(d: Seq<OptionEntryV>) -> Seq<char> {
    enc_u64(d.len() as u64) + enc_entries_body(d)
}

pub open spec fn entries_fit(d: Seq<OptionEntryV>) -> bool {
    d.len() <= u64::MAX && forall|i: int| 0 <= i < d.len() ==> entry_fits(#[trigger] d[i])
}

pub proof fn lemma_enc_entries_body_snoc(d: Seq<OptionEntryV>, e: OptionEntryV)
    ensures
        enc_entries_body(d.push(e)) == enc_entries_body(d) + enc_entry(e),
    decreases d.len(),
{
    if d.len() == 0 {
        assert(d.push(e)[0] == e);
        assert(d.push(e).skip(1) =~= Seq::<OptionEntryV>::empty());
        assert(enc_entries_body(Seq::<OptionEntryV>::empty()) == Seq::<char>::empty());
        assert(enc_entries_body(d.push(e)) =~= enc_entries_body(d) + enc_entry(e));
    } else {
        assert(d.push(e)[0] == d[0]);
        assert(d.push(e).skip(1) =~= d.skip(1).push(e));
        lemma_enc_entries_body_snoc(d.skip(1), e);
        assert(enc_entries_body(d.push(e)) =~= enc_entries_body(d) + enc_entry(e));
    }
}

pub open spec fn sp_entries_body(s: Seq<char>, pos: int, count: nat) -> Option<
    (Seq<OptionEntryV>, int),
>
    decreases count,
{
    if count == 0 {
        Some((Seq::empty(), pos))
    } else {
        match sp_entry(s, pos) {
            Some((e, p)) => match sp_entries_body(s, p, (count - 1) as nat) {
                Some((rest, p2)) => Some((seq![e] + rest, p2)),
                None => None,
            },
            None => None,
        }
    }
}

pub open spec fn sp_entries(s: Seq<char>, pos: int) -> Option<(Seq<OptionEntryV>, int)> {
    match sp_u64(s, pos) {
        Some((n, p)) => sp_entries_body(s, p, n as nat),
        None => None,
    }
}

pub proof fn lemma_sp_entries_body_round(s: Seq<char>, pos: int, d: Seq<OptionEntryV>)
    requires
        0 <= pos,
        forall|i: int| 0 <= i < d.len() ==> entry_fits(#[trigger] d[i]),
        pos + enc_entries_body(d).len() <= s.len(),
        s.subrange(pos, pos + enc_entries_body(d).len()) =~= enc_entries_body(d),
    ensures
        sp_entries_body(s, pos, d.len()) == Some((d, pos + enc_entries_body(d).len())),
    decreases d.len(),
{
    if d.len() > 0 {
        let e0 = enc_entry(d[0]);
        let rest = enc_entries_body(d.skip(1));
        lemma_subrange_split(s, pos, e0, rest);
        lemma_sp_entry_round(s, pos, d[0]);
        assert(forall|i: int|
            0 <= i < d.skip(1).len() ==> entry_fits(#[trigger] d.skip(1)[i]) && d.skip(1)[i] == d[i
                + 1]);
        lemma_sp_entries_body_round(s, pos + e0.len(), d.skip(1));
        assert(seq![d[0]] + d.skip(1) =~= d);
    }
}

pub proof fn lemma_sp_entries_round(s: Seq<char>, pos: int, d: Seq<OptionEntryV>)
    requires
        0 <= pos,
        entries_fit(d),
        pos + enc_entries(d).len() <= s.len(),
        s.subrange(pos, pos + enc_entries(d).len()) =~= enc_entries(d),
    ensures
        sp_entries(s, pos) == Some((d, pos + enc_entries(d).len())),
{
    lemma_subrange_split(s, pos, enc_u64(d.len() as u64), enc_entries_body(d));
    lemma_sp_u64_round(s, pos, d.len() as u64);
    lemma_sp_entries_body_round(s, pos + 20, d);
}

/// Append an entry list.
pub fn push_entries(out: &mut Vec<char>, entries: &Vec<OptionEntry>)
    ensures
        final(out)@ == old(out)@ + enc_entries(crate::config::entries_v(entries@)),
        entries_fit(crate::config::entries_v(entries@)),
{
    let ghost pre = out@;
    let ghost dv = crate::config::entries_v(entries@);
    let n = entries.len();
    push_u64(out, n as u64);
    let mut i: usize = 0;
    while i < n
        invariant
            i <= n,
            n == entries@.len(),
            dv == crate::config::entries_v(entries@),
            dv.len() == n,
            forall|j: int| 0 <= j < n ==> dv[j] == #[trigger] entries@[j]@,
            out@ == pre + enc_u64(n as u64) + enc_entries_body(dv.take(i as int)),
            forall|j: int| 0 <= j < i ==> entry_fits(#[trigger] dv[j]),
        decreases n - i,
    {
        push_entry(out, &entries[i]);
        proof {
            lemma_enc_entries_body_snoc(dv.take(i as int), dv[i as int]);
            assert(dv.take(i as int).push(dv[i as int]) =~= dv.take(i as int + 1));
            assert(out@ =~= pre + enc_u64(n as u64) + enc_entries_body(dv.take(i as int + 1)));
        }
        i = i + 1;
    }
    proof {
        assert(dv.take(n as int) =~= dv);
        assert(out@ =~= pre + enc_entries(dv));
    }
}

/// Read an entry list.
pub fn parse_entries(v: &Vec<char>, pos: usize) -> (r: Option<(Vec<OptionEntry>, usize)>)
    requires
        pos <= v@.len(),
    ensures
        match r {
            Some(p) => sp_entries(v@, pos as int) matches Some(q) && crate::config::entries_v(
                p.0@,
            ) == q.0 && p.1 as int == q.1 && pos <= p.1 <= v@.len(),
            None => sp_entries(v@, pos as int) is None,
        },
{
    match parse_u64(v, pos) {
        None => None,
        Some((n, p0)) => {
            let mut acc: Vec<OptionEntry> = Vec::new();
            let mut k: u64 = 0;
            let mut cur: usize = p0;
            proof {
                assert(crate::config::entries_v(acc@) =~= Seq::<OptionEntryV>::empty());
            }
            while k < n
                invariant
                    k <= n,
                    pos <= p0 <= cur <= v@.len(),
                    sp_u64(v@, pos as int) == Some((n, p0 as int)),
                    (match sp_entries_body(v@, cur as int, (n - k) as nat) {
                        Some(q) => sp_entries_body(v@, p0 as int, n as nat) == Some(
                            (crate::config::entries_v(acc@) + q.0, q.1),
                        ),
                        None => sp_entries_body(v@, p0 as int, n as nat) is None,
                    }),
                decreases n - k,
            {
                match parse_entry(v, cur) {
                    None => {
                        return None;
                    },
                    Some((e, p2)) => {
                        let ghost accv = crate::config::entries_v(acc@);
                        acc.push(e);
                        proof {
                            assert(crate::config::entries_v(acc@) =~= accv.push(e@));
                        }
                        cur = p2;
                        k = k + 1;
                        proof {
                            let sb = sp_entries_body(v@, cur as int, (n - k) as nat);
                            if sb is Some {
                                let q0 = sb.unwrap().0;
                                assert(accv.push(e@) + q0 =~= accv + (seq![e@] + q0));
                            }
                        }
                    },
                }
            }
            proof {
                assert(sp_entries_body(v@, cur as int, 0) == Some(
                    (Seq::<OptionEntryV>::empty(), cur as int),
                ));
                assert(crate::config::entries_v(acc@) + Seq::<OptionEntryV>::empty()
                    =~= crate::config::entries_v(acc@));
            }
            Some((acc, cur))
        },
    }
}

pub proof fn lemma_sp_u32_round(s: Seq<char>, pos: int, x: u32)
    requires
        0 <= pos,
        pos + 20 <= s.len(),
        s.subrange(pos, pos + 20) =~= enc_u64(x as u64),
    ensures
        sp_u32(s, pos) == Some((x, pos + 20)),
{
    lemma_sp_u64_round(s, pos, x as u64);
}

pub proof fn lemma_sp_u8_round(s: Seq<char>, pos: int, x: u8)
    requires
        0 <= pos,
        pos + 20 <= s.len(),
        s.subrange(pos, pos + 20) =~= enc_u64(x as u64),
    ensures
        sp_u8(s, pos) == Some((x, pos + 20)),
{
    lemma_sp_u64_round(s, pos, x as u64);
}

pub proof fn lemma_sp_i32_round(s: Seq<char>, pos: int, x: i32)
    requires
        0 <= pos,
        pos + 21 <= s.len(),
        s.subrange(pos, pos + 21) =~= enc_i64(x as i64),
    ensures
        sp_i32(s, pos) == Some((x, pos + 21)),
{
    lemma_sp_i64_round(s, pos, x as i64);
}

pub proof fn lemma_sp_milli_round(s: Seq<char>, pos: int, m: Milli)
    requires
        0 <= pos,
        pos + 21 <= s.len(),
        s.subrange(pos, pos + 21) =~= enc_i64(m.thousandths),
    ensures
        sp_milli(s, pos) == Some((m, pos + 21)),
{
    lemma_sp_i64_round(s, pos, m.thousandths);
}

/// One run's parameters, field by field in a fixed order.
pub open spec fn enc_params(p: RunParametersV) -> Seq<char> {
    enc_text(p.experiment_uuid) + enc_text(p.model) + enc_text(p.prompt) + enc_text(p.system_prompt)
        + enc_i64(p.temperature.thousandths) + enc_i64(p.repeat_penalty.thousandths) + enc_u64(
        p.top_k as u64,
    ) + enc_i64(p.top_p.thousandths) + enc_i64(p.repeat_last_n as i64) + enc_i64(
        p.tfs_z.thousandths,
    ) + enc_u64(p.mirostat as u64) + enc_i64(p.mirostat_tau.thousandths) + enc_i64(
        p.mirostat_eta.thousandths,
    ) + enc_i64(p.seed as i64)
}

pub open spec fn params_fit(p: RunParametersV) -> bool {
    p.experiment_uuid.len() <= u64::MAX && p.model.len() <= u64::MAX && p.prompt.len() <= u64::MAX
        && p.system_prompt.len() <= u64::MAX
}

pub open spec fn sp_params(s: Seq<char>, pos: int) -> Option<(RunParametersV, int)> {
    match sp_text(s, pos) {
        Some((experiment_uuid, p1)) => match sp_text(s, p1) {
            Some((model, p2)) => match sp_text(s, p2) {
                Some((prompt, p3)) => match sp_text(s, p3) {
                    Some((system_prompt, p4)) => match sp_milli(s, p4) {
                        Some((temperature, p5)) => match sp_milli(s, p5) {
                            Some((repeat_penalty, p6)) => match sp_u32(s, p6) {
                                Some((top_k, p7)) => match sp_milli(s, p7) {
                                    Some((top_p, p8)) => match sp_i32(s, p8) {
                                        Some((repeat_last_n, p9)) => match sp_milli(s, p9) {
                                            Some((tfs_z, p10)) => match sp_u8(s, p10) {
                                                Some((mirostat, p11)) => match sp_milli(s, p11) {
                                                    Some((mirostat_tau, p12)) => match sp_milli(
                                                        s,
                                                        p12,
                                                    ) {
                                                        Some((mirostat_eta, p13)) => match sp_i32(
                                                            s,
                                                            p13,
                                                        ) {
                                                            Some((seed, p14)) => Some(
                                                                (
                                                                    RunParametersV {
                                                                        experiment_uuid,
                                                                        model,
                                                                        prompt,
                                                                        system_prompt,
                                                                        temperature,
                                                                        repeat_penalty,
                                                                        top_k,
                                                                        top_p,
                                                                        repeat_last_n,
                                                                        tfs_z,
                                                                        mirostat,
                                                                        mirostat_tau,
                                                                        mirostat_eta,
                                                                        seed,
                                                                    },
                                                                    p14,
                                                                ),
                                                            ),
                                                            None => None,
                                                        },
                                                        None => None,
                                                    },
                                                    None => None,
                                                },
                                                None => None,
                                            },
                                            None => None,
                                        },
                                        None => None,
                                    },
                                    None => None,
                                },
                                None => None,
                            },
                            None => None,
                        },
                        None => None,
                    },
                    None => None,
                },
                None => None,
            },
            None => None,
        },
        None => None,
    }
}

#[verifier::spinoff_prover]
#[verifier::rlimit(100)]
pub proof fn lemma_sp_params_round(s: Seq<char>, pos: int, p: RunParametersV)
    requires
        0 <= pos,
        params_fit(p),
        pos + enc_params(p).len() <= s.len(),
        s.subrange(pos, pos + enc_params(p).len()) =~= enc_params(p),
    ensures
        sp_params(s, pos) == Some((p, pos + enc_params(p).len())),
{
    let e1 = enc_text(p.experiment_uuid);
    let e2 = enc_text(p.model);
    let e3 = enc_text(p.prompt);
    let e4 = enc_text(p.system_prompt);
    let e5 = enc_i64(p.temperature.thousandths);
    let e6 = enc_i64(p.repeat_penalty.thousandths);
    let e7 = enc_u64(p.top_k as u64);
    let e8 = enc_i64(p.top_p.thousandths);
    let e9 = enc_i64(p.repeat_last_n as i64);
    let e10 = enc_i64(p.tfs_z.thousandths);
    let e11 = enc_u64(p.mirostat as u64);
    let e12 = enc_i64(p.mirostat_tau.thousandths);
    let e13 = enc_i64(p.mirostat_eta.thousandths);
    let e14 = enc_i64(p.seed as i64);
    let t14 = e14;
    let t13 = e13 + t14;
    let t12 = e12 + t13;
    let t11 = e11 + t12;
    let t10 = e10 + t11;
    let t9 = e9 + t10;
    let t8 = e8 + t9;
    let t7 = e7 + t8;
    let t6 = e6 + t7;
    let t5 = e5 + t6;
    let t4 = e4 + t5;
    let t3 = e3 + t4;
    let t2 = e2 + t3;
    assert(enc_params(p) =~= e1 + t2);
    let p1 = pos + e1.len();
    lemma_subrange_split(s, pos, e1, t2);
    lemma_sp_text_round(s, pos, p.experiment_uuid);
    let p2 = p1 + e2.len();
    lemma_subrange_split(s, p1, e2, t3);
    lemma_sp_text_round(s, p1, p.model);
    let p3 = p2 + e3.len();
    lemma_subrange_split(s, p2, e3, t4);
    lemma_sp_text_round(s, p2, p.prompt);
    let p4 = p3 + e4.len();
    lemma_subrange_split(s, p3, e4, t5);
    lemma_sp_text_round(s, p3, p.system_prompt);
    let p5 = p4 + e5.len();
    lemma_subrange_split(s, p4, e5, t6);
    lemma_sp_milli_round(s, p4, p.temperature);
    let p6 = p5 + e6.len();
    lemma_subrange_split(s, p5, e6, t7);
    lemma_sp_milli_round(s, p5, p.repeat_penalty);
    let p7 = p6 + e7.len();
    lemma_subrange_split(s, p6, e7, t8);
    lemma_sp_u32_round(s, p6, p.top_k);
    let p8 = p7 + e8.len();
    lemma_subrange_split(s, p7, e8, t9);
    lemma_sp_milli_round(s, p7, p.top_p);
    let p9 = p8 + e9.len();
    lemma_subrange_split(s, p8, e9, t10);
    lemma_sp_i32_round(s, p8, p.repeat_last_n);
    let p10 = p9 + e10.len();
    lemma_subrange_split(s, p9, e10, t11);
    lemma_sp_milli_round(s, p9, p.tfs_z);
    let p11 = p10 + e11.len();
    lemma_subrange_split(s, p10, e11, t12);
    lemma_sp_u8_round(s, p10, p.mirostat);
    let p12 = p11 + e12.len();
    lemma_subrange_split(s, p11, e12, t13);
    lemma_sp_milli_round(s, p11, p.mirostat_tau);
    let p13 = p12 + e13.len();
    lemma_subrange_split(s, p12, e13, t14);
    lemma_sp_milli_round(s, p12, p.mirostat_eta);
    lemma_sp_i32_round(s, p13, p.seed);
}

/// Append one run's parameters.
pub fn push_params(out: &mut Vec<char>, p: &RunParameters)
    ensures
        final(out)@ == old(out)@ + enc_params(p@),
        params_fit(p@),
{
    let ghost pre = out@;
    push_text(out, p.experiment_uuid.as_str());
    push_text(out, p.model.as_str());
    push_text(out, p.prompt.as_str());
    push_text(out, p.system_prompt.as_str());
    push_i64(out, p.temperature.thousandths);
    push_i64(out, p.repeat_penalty.thousandths);
    push_u64(out, p.top_k as u64);
    push_i64(out, p.top_p.thousandths);
    push_i64(out, p.repeat_last_n as i64);
    push_i64(out, p.tfs_z.thousandths);
    push_u64(out, p.mirostat as u64);
    push_i64(out, p.mirostat_tau.thousandths);
    push_i64(out, p.mirostat_eta.thousandths);
    push_i64(out, p.seed as i64);
    assert(out@ =~= pre + enc_params(p@));
}

/// Read one run's parameters.
pub fn parse_params(v: &Vec<char>, pos: usize) -> (r: Option<(RunParameters, usize)>)
    requires
        pos <= v@.len(),
    ensures
        match r {
            Some(p) => sp_params(v@, pos as int) matches Some(q) && p.0@ == q.0 && p.1 as int == q.1
                && pos <= p.1 <= v@.len(),
            None => sp_params(v@, pos as int) is None,
        },
{
    let (experiment_uuid, p1) = match parse_text(v, pos) {
        Some(x) => x,
        None => {
            return None;
        },
    };
    let (model, p2) = match parse_text(v, p1) {
        Some(x) => x,
        None => {
            return None;
        },
    };
    let (prompt, p3) = match parse_text(v, p2) {
        Some(x) => x,
        None => {
            return None;
        },
    };
    let (system_prompt, p4) = match parse_text(v, p3) {
        Some(x) => x,
        None => {
            return None;
        },
    };
    let (temperature, p5) = match parse_milli(v, p4) {
        Some(x) => x,
        None => {
            return None;
        },
    };
    let (repeat_penalty, p6) = match parse_milli(v, p5) {
        Some(x) => x,
        None => {
            return None;
        },
    };
    let (top_k, p7) = match parse_u32(v, p6) {
        Some(x) => x,
        None => {
            return None;
        },
    };
    let (top_p, p8) = match parse_milli(v, p7) {
        Some(x) => x,
        None => {
            return None;
        },
    };
    let (repeat_last_n, p9) = match parse_i32(v, p8) {
        Some(x) => x,
        None => {
            return None;
        },
    };
    let (tfs_z, p10) = match parse_milli(v, p9) {
        Some(x) => x,
        None => {
            return None;
        },
    };
    let (mirostat, p11) = match parse_u8(v, p10) {
        Some(x) => x,
        None => {
            return None;
        },
    };
    let (mirostat_tau, p12) = match parse_milli(v, p11) {
        Some(x) => x,
        None => {
            return None;
        },
    };
    let (mirostat_eta, p13) = match parse_milli(v, p12) {
        Some(x) => x,
        None => {
            return None;
        },
    };
    let (seed, p14) = match parse_i32(v, p13) {
        Some(x) => x,
        None => {
            return None;
        },
    };
    Some(
        (
            RunParameters {
                experiment_uuid,
                model,
                prompt,
                system_prompt,
                temperature,
                repeat_penalty,
                top_k,
                top_p,
                repeat_last_n,
                tfs_z,
                mirostat,
                mirostat_tau,
                mirostat_eta,
                seed,
            },
            p14,
        ),
    )
}

/// What one completed generation reported, field by field.
pub open spec fn enc_result(g: GenerationResultV) -> Seq<char> {
    enc_text(g.response) + enc_u64(g.total_duration) + enc_u64(g.load_duration) + enc_u64(
        g.prompt_eval_count,
    ) + enc_u64(g.prompt_eval_duration) + enc_u64(g.eval_count) + enc_u64(g.eval_duration)
}

pub open spec fn result_fits(g: GenerationResultV) -> bool {
    g.response.len() <= u64::MAX
}

pub open spec fn sp_result(s: Seq<char>, pos: int) -> Option<(GenerationResultV, int)> {
    match sp_text(s, pos) {
        Some((response, p1)) => match sp_u64(s, p1) {
            Some((total_duration, p2)) => match sp_u64(s, p2) {
                Some((load_duration, p3)) => match sp_u64(s, p3) {
                    Some((prompt_eval_count, p4)) => match sp_u64(s, p4) {
                        Some((prompt_eval_duration, p5)) => match sp_u64(s, p5) {
                            Some((eval_count, p6)) => match sp_u64(s, p6) {
                                Some((eval_duration, p7)) => Some(
                                    (
                                        GenerationResultV {
                                            response,
                                            total_duration,
                                            load_duration,
                                            prompt_eval_count,
                                            prompt_eval_duration,
                                            eval_count,
                                            eval_duration,
                                        },
                                        p7,
                                    ),
                                ),
                                None => None,
                            },
                            None => None,
                        },
                        None => None,
                    },
                    None => None,
                },
                None => None,
            },
            None => None,
        },
        None => None,
    }
}

pub proof fn lemma_sp_result_round(s: Seq<char>, pos: int, g: GenerationResultV)
    requires
        0 <= pos,
        result_fits(g),
        pos + enc_result(g).len() <= s.len(),
        s.subrange(pos, pos + enc_result(g).len()) =~= enc_result(g),
    ensures
        sp_result(s, pos) == Some((g, pos + enc_result(g).len())),
{
    let e1 = enc_text(g.response);
    let e2 = enc_u64(g.total_duration);
    let e3 = enc_u64(g.load_duration);
    let e4 = enc_u64(g.prompt_eval_count);
    let e5 = enc_u64(g.prompt_eval_duration);
    let e6 = enc_u64(g.eval_count);
    let e7 = enc_u64(g.eval_duration);
    let t7 = e7;
    let t6 = e6 + t7;
    let t5 = e5 + t6;
    let t4 = e4 + t5;
    let t3 = e3 + t4;
    let t2 = e2 + t3;
    assert(enc_result(g) =~= e1 + t2);
    let p1 = pos + e1.len();
    lemma_subrange_split(s, pos, e1, t2);
    lemma_sp_text_round(s, pos, g.response);
    let p2 = p1 + e2.len();
    lemma_subrange_split(s, p1, e2, t3);
    lemma_sp_u64_round(s, p1, g.total_duration);
    let p3 = p2 + e3.len();
    lemma_subrange_split(s, p2, e3, t4);
    lemma_sp_u64_round(s, p2, g.load_duration);
    let p4 = p3 + e4.len();
    lemma_subrange_split(s, p3, e4, t5);
    lemma_sp_u64_round(s, p3, g.prompt_eval_count);
    let p5 = p4 + e5.len();
    lemma_subrange_split(s, p4, e5, t6);
    lemma_sp_u64_round(s, p4, g.prompt_eval_duration);
    let p6 = p5 + e6.len();
    lemma_subrange_split(s, p5, e6, t7);
    lemma_sp_u64_round(s, p5, g.eval_count);
    lemma_sp_u64_round(s, p6, g.eval_duration);
}

/// Append what one completed generation reported.
pub fn push_result(out: &mut Vec<char>, g: &GenerationResult)
    ensures
        final(out)@ == old(out)@ + enc_result(g@),
        result_fits(g@),
{
    let ghost pre = out@;
    push_text(out, g.response.as_str());
    push_u64(out, g.total_duration);
    push_u64(out, g.load_duration);
    push_u64(out, g.prompt_eval_count);
    push_u64(out, g.prompt_eval_duration);
    push_u64(out, g.eval_count);
    push_u64(out, g.eval_duration);
    assert(out@ =~= pre + enc_result(g@));
}

/// Read what one completed generation reported.
pub fn parse_result(v: &Vec<char>, pos: usize) -> (r: Option<(GenerationResult, usize)>)
    requires
        pos <= v@.len(),
    ensures
        match r {
            Some(p) => sp_result(v@, pos as int) matches Some(q) && p.0@ == q.0 && p.1 as int == q.1
                && pos <= p.1 <= v@.len(),
            None => sp_result(v@, pos as int) is None,
        },
{
    let (response, p1) = match parse_text(v, pos) {
        Some(x) => x,
        None => {
            return None;
        },
    };
    let (total_duration, p2) = match parse_u64(v, p1) {
        Some(x) => x,
        None => {
            return None;
        },
    };
    let (load_duration, p3) = match parse_u64(v, p2) {
        Some(x) => x,
        None => {
            return None;
        },
    };
    let (prompt_eval_count, p4) = match parse_u64(v, p3) {
        Some(x) => x,
        None => {
            return None;
        },
    };
    let (prompt_eval_duration, p5) = match parse_u64(v, p4) {
        Some(x) => x,
        None => {
            return None;
        },
    };
    let (eval_count, p6) = match parse_u64(v, p5) {
        Some(x) => x,
        None => {
            return None;
        },
    };
    let (eval_duration, p7) = match parse_u64(v, p6) {
        Some(x) => x,
        None => {
            return None;
        },
    };
    Some(
        (
            GenerationResult {
                response,
                total_duration,
                load_duration,
                prompt_eval_count,
                prompt_eval_duration,
                eval_count,
                eval_duration,
            },
            p7,
        ),
    )
}

/// One sampled generation: the parameters it ran with, and what came back.
#[derive(Debug, Clone)]
pub struct InferenceRecord {
    pub parameters: RunParameters,
    pub result: GenerationResult,
}

pub ghost struct InferenceRecordV {
    pub parameters: RunParametersV,
    pub result: GenerationResultV,
}

impl View for InferenceRecord {
    type V = InferenceRecordV;

    open spec fn view(&self) -> InferenceRecordV {
        InferenceRecordV { parameters: self.parameters@, result: self.result@ }
    }
}

/// The views of a sequence of inference records.
pub open spec fn records_v(s: Seq<InferenceRecord>) -> Seq<InferenceRecordV> {
    Seq::new(s.len(), |i: int| s[i]@)
}

pub open spec fn enc_record(r: InferenceRecordV) -> Seq<char> {
    enc_params(r.parameters) + enc_result(r.result)
}

pub open spec fn record_fits(r: InferenceRecordV) -> bool {
    params_fit(r.parameters) && result_fits(r.result)
}

pub open spec fn sp_record(s: Seq<char>, pos: int) -> Option<(InferenceRecordV, int)> {
    match sp_params(s, pos) {
        Some((parameters, p1)) => match sp_result(s, p1) {
            Some((result, p2)) => Some((InferenceRecordV { parameters, result }, p2)),
            None => None,
        },
        None => None,
    }
}

pub proof fn lemma_sp_record_round(s: Seq<char>, pos: int, r: InferenceRecordV)
    requires
        0 <= pos,
        record_fits(r),
        pos + enc_record(r).len() <= s.len(),
        s.subrange(pos, pos + enc_record(r).len()) =~= enc_record(r),
    ensures
        sp_record(s, pos) == Some((r, pos + enc_record(r).len())),
{
    lemma_subrange_split(s, pos, enc_params(r.parameters), enc_result(r.result));
    lemma_sp_params_round(s, pos, r.parameters);
    lemma_sp_result_round(s, pos + enc_params(r.parameters).len(), r.result);
}

pub fn push_record(out: &mut Vec<char>, r: &InferenceRecord)
    ensures
        final(out)@ == old(out)@ + enc_record(r@),
        record_fits(r@),
{
    let ghost pre = out@;
    push_params(out, &r.parameters);
    push_result(out, &r.result);
    assert(out@ =~= pre + enc_record(r@));
}

pub fn parse_record(v: &Vec<char>, pos: usize) -> (r: Option<(InferenceRecord, usize)>)
    requires
        pos <= v@.len(),
    ensures
        match r {
            Some(p) => sp_record(v@, pos as int) matches Some(q) && p.0@ == q.0 && p.1 as int == q.1
                && pos <= p.1 <= v@.len(),
            None => sp_record(v@, pos as int) is None,
        },
{
    match parse_params(v, pos) {
        None => None,
        Some((parameters, p1)) => match parse_result(v, p1) {
            None => None,
            Some((result, p2)) => Some((InferenceRecord { parameters, result }, p2)),
        },
    }
}

/// The body of a record list: each record in order.
pub open spec fn enc_records_body(rs: Seq<InferenceRecordV>) -> Seq<char>
    decreases rs.len(),
{
    if rs.len() == 0 {
        Seq::empty()
    } else {
        enc_record(rs[0]) + enc_records_body(rs.skip(1))
    }
}

/// A record list: its length, then its body.
pub open spec fn enc_records(rs: Seq<InferenceRecordV>) -> Seq<char> {
    enc_u64(rs.len() as u64) + enc_records_body(rs)
}

pub open spec fn records_fit(rs: Seq<InferenceRecordV>) -> bool {
    rs.len() <= u64::MAX && forall|i: int| 0 <= i < rs.len() ==> record_fits(#[trigger] rs[i])
}

pub proof fn lemma_enc_records_body_snoc(rs: Seq<InferenceRecordV>, r: InferenceRecordV)
    ensures
        enc_records_body(rs.push(r)) == enc_records_body(rs) + enc_record(r),
    decreases rs.len(),
{
    if rs.len() == 0 {
        assert(rs.push(r)[0] == r);
        assert(rs.push(r).skip(1) =~= Seq::<InferenceRecordV>::empty());
        assert(enc_records_body(Seq::<InferenceRecordV>::empty()) == Seq::<char>::empty());
        assert(enc_records_body(rs.push(r)) =~= enc_records_body(rs) + enc_record(r));
    } else {
        assert(rs.push(r)[0] == rs[0]);
        assert(rs.push(r).skip(1) =~= rs.skip(1).push(r));
        lemma_enc_records_body_snoc(rs.skip(1), r);
        assert(enc_records_body(rs.push(r)) =~= enc_records_body(rs) + enc_record(r));
    }
}

pub open spec fn sp_records_body(s: Seq<char>, pos: int, count: nat) -> Option<
    (Seq<InferenceRecordV>, int),
>
    decreases count,
{
    if count == 0 {
        Some((Seq::empty(), pos))
    } else {
        match sp_record(s, pos) {
            Some((r, p)) => match sp_records_body(s, p, (count - 1) as nat) {
                Some((rest, p2)) => Some((seq![r] + rest, p2)),
                None => None,
            },
            None => None,
        }
    }
}

pub open spec fn sp_records(s: Seq<char>, pos: int) -> Option<(Seq<InferenceRecordV>, int)> {
    match sp_u64(s, pos) {
        Some((n, p)) => sp_records_body(s, p, n as nat),
        None => None,
    }
}

#[verifier::spinoff_prover]
#[verifier::rlimit(100)]
pub proof fn lemma_sp_records_body_round(s: Seq<char>, pos: int, rs: Seq<InferenceRecordV>)
    requires
        0 <= pos,
        forall|i: int| 0 <= i < rs.len() ==> record_fits(#[trigger] rs[i]),
        pos + enc_records_body(rs).len() <= s.len(),
        s.subrange(pos, pos + enc_records_body(rs).len()) =~= enc_records_body(rs),
    ensures
        sp_records_body(s, pos, rs.len()) == Some((rs, pos + enc_records_body(rs).len())),
    decreases rs.len(),
{
    if rs.len() > 0 {
        let e0 = enc_record(rs[0]);
        let rest = enc_records_body(rs.skip(1));
        lemma_subrange_split(s, pos, e0, rest);
        lemma_sp_record_round(s, pos, rs[0]);
        assert(forall|i: int|
            0 <= i < rs.skip(1).len() ==> record_fits(#[trigger] rs.skip(1)[i]) && rs.skip(1)[i]
                == rs[i + 1]);
        lemma_sp_records_body_round(s, pos + e0.len(), rs.skip(1));
        assert(seq![rs[0]] + rs.skip(1) =~= rs);
    }
}

pub proof fn lemma_sp_records_round(s: Seq<char>, pos: int, rs: Seq<InferenceRecordV>)
    requires
        0 <= pos,
        records_fit(rs),
        pos + enc_records(rs).len() <= s.len(),
        s.subrange(pos, pos + enc_records(rs).len()) =~= enc_records(rs),
    ensures
        sp_records(s, pos) == Some((rs, pos + enc_records(rs).len())),
{
    lemma_subrange_split(s, pos, enc_u64(rs.len() as u64), enc_records_body(rs));
    lemma_sp_u64_round(s, pos, rs.len() as u64);
    lemma_sp_records_body_round(s, pos + 20, rs);
}

/// Append a record list.
pub fn push_records(out: &mut Vec<char>, records: &Vec<InferenceRecord>)
    ensures
        final(out)@ == old(out)@ + enc_records(records_v(records@)),
        records_fit(records_v(records@)),
{
    let ghost pre = out@;
    let ghost rv = records_v(records@);
    let n = records.len();
    push_u64(out, n as u64);
    let mut i: usize = 0;
    while i < n
        invariant
            i <= n,
            n == records@.len(),
            rv == records_v(records@),
            rv.len() == n,
            forall|j: int| 0 <= j < n ==> rv[j] == #[trigger] records@[j]@,
            out@ == pre + enc_u64(n as u64) + enc_records_body(rv.take(i as int)),
            forall|j: int| 0 <= j < i ==> record_fits(#[trigger] rv[j]),
        decreases n - i,
    {
        push_record(out, &records[i]);
        proof {
            lemma_enc_records_body_snoc(rv.take(i as int), rv[i as int]);
            assert(rv.take(i as int).push(rv[i as int]) =~= rv.take(i as int + 1));
            assert(out@ =~= pre + enc_u64(n as u64) + enc_records_body(rv.take(i as int + 1)));
        }
        i = i + 1;
    }
    proof {
        assert(rv.take(n as int) =~= rv);
        assert(out@ =~= pre + enc_records(rv));
    }
}

/// Read a record list.
pub fn parse_records(v: &Vec<char>, pos: usize) -> (r: Option<(Vec<InferenceRecord>, usize)>)
    requires
        pos <= v@.len(),
    ensures
        match r {
            Some(p) => sp_records(v@, pos as int) matches Some(q) && records_v(p.0@) == q.0 && p.1
                as int == q.1 && pos <= p.1 <= v@.len(),
            None => sp_records(v@, pos as int) is None,
        },
{
    match parse_u64(v, pos) {
        None => None,
        Some((n, p0)) => {
            let mut acc: Vec<InferenceRecord> = Vec::new();
            let mut k: u64 = 0;
            let mut cur: usize = p0;
            proof {
                assert(records_v(acc@) =~= Seq::<InferenceRecordV>::empty());
            }
            while k < n
                invariant
                    k <= n,
                    pos <= p0 <= cur <= v@.len(),
                    sp_u64(v@, pos as int) == Some((n, p0 as int)),
                    (match sp_records_body(v@, cur as int, (n - k) as nat) {
                        Some(q) => sp_records_body(v@, p0 as int, n as nat) == Some(
                            (records_v(acc@) + q.0, q.1),
                        ),
                        None => sp_records_body(v@, p0 as int, n as nat) is None,
                    }),
                decreases n - k,
            {
                match parse_record(v, cur) {
                    None => {
                        return None;
                    },
                    Some((rec, p2)) => {
                        let ghost accv = records_v(acc@);
                        acc.push(rec);
                        proof {
                            assert(records_v(acc@) =~= accv.push(rec@));
                        }
                        cur = p2;
                        k = k + 1;
                        proof {
                            let sb = sp_records_body(v@, cur as int, (n - k) as nat);
                            if sb is Some {
                                let q0 = sb.unwrap().0;
                                assert(accv.push(rec@) + q0 =~= accv + (seq![rec@] + q0));
                            }
                        }
                    },
                }
            }
            proof {
                assert(sp_records_body(v@, cur as int, 0) == Some(
                    (Seq::<InferenceRecordV>::empty(), cur as int),
                ));
                assert(records_v(acc@) + Seq::<InferenceRecordV>::empty() =~= records_v(acc@));
            }
            Some((acc, cur))
        },
    }
}

/// A configuration snapshot, field by field.
pub open spec fn enc_config(c: BaseConfigV) -> Seq<char> {
    enc_text(c.server_url) + enc_u64(c.request_timeout) + enc_text(c.system_prompt) + enc_entries(
        c.default_options,
    )
}

pub open spec fn config_fits(c: BaseConfigV) -> bool {
    c.server_url.len() <= u64::MAX && c.system_prompt.len() <= u64::MAX && entries_fit(
        c.default_options,
    )
}

pub open spec fn sp_config(s: Seq<char>, pos: int) -> Option<(BaseConfigV, int)> {
    match sp_text(s, pos) {
        Some((server_url, p1)) => match sp_u64(s, p1) {
            Some((request_timeout, p2)) => match sp_text(s, p2) {
                Some((system_prompt, p3)) => match sp_entries(s, p3) {
                    Some((default_options, p4)) => Some(
                        (
                            BaseConfigV {
                                server_url,
                                request_timeout,
                                system_prompt,
                                default_options,
                            },
                            p4,
                        ),
                    ),
                    None => None,
                },
                None => None,
            },
            None => None,
        },
        None => None,
    }
}

pub proof fn lemma_sp_config_round(s: Seq<char>, pos: int, c: BaseConfigV)
    requires
        0 <= pos,
        config_fits(c),
        pos + enc_config(c).len() <= s.len(),
        s.subrange(pos, pos + enc_config(c).len()) =~= enc_config(c),
    ensures
        sp_config(s, pos) == Some((c, pos + enc_config(c).len())),
{
    let e1 = enc_text(c.server_url);
    let e2 = enc_u64(c.request_timeout);
    let e3 = enc_text(c.system_prompt);
    let e4 = enc_entries(c.default_options);
    let t4 = e4;
    let t3 = e3 + t4;
    let t2 = e2 + t3;
    assert(enc_config(c) =~= e1 + t2);
    let p1 = pos + e1.len();
    lemma_subrange_split(s, pos, e1, t2);
    lemma_sp_text_round(s, pos, c.server_url);
    let p2 = p1 + e2.len();
    lemma_subrange_split(s, p1, e2, t3);
    lemma_sp_u64_round(s, p1, c.request_timeout);
    let p3 = p2 + e3.len();
    lemma_subrange_split(s, p2, e3, t4);
    lemma_sp_text_round(s, p2, c.system_prompt);
    lemma_sp_entries_round(s, p3, c.default_options);
}

pub fn push_config(out: &mut Vec<char>, c: &BaseConfig)
    ensures
        final(out)@ == old(out)@ + enc_config(c@),
        config_fits(c@),
{
    let ghost pre = out@;
    push_text(out, c.server_url.as_str());
    push_u64(out, c.request_timeout);
    push_text(out, c.system_prompt.as_str());
    push_entries(out, &c.default_options);
    assert(out@ =~= pre + enc_config(c@));
}

pub fn parse_config(v: &Vec<char>, pos: usize) -> (r: Option<(BaseConfig, usize)>)
    requires
        pos <= v@.len(),
    ensures
        match r {
            Some(p) => sp_config(v@, pos as int) matches Some(q) && p.0@ == q.0 && p.1 as int == q.1
                && pos <= p.1 <= v@.len(),
            None => sp_config(v@, pos as int) is None,
        },
{
    let (server_url, p1) = match parse_text(v, pos) {
        Some(x) => x,
        None => {
            return None;
        },
    };
    let (request_timeout, p2) = match parse_u64(v, p1) {
        Some(x) => x,
        None => {
            return None;
        },
    };
    let (system_prompt, p3) = match parse_text(v, p2) {
        Some(x) => x,
        None => {
            return None;
        },
    };
    let (default_options, p4) = match parse_entries(v, p3) {
        Some(x) => x,
        None => {
            return None;
        },
    };
    Some((BaseConfig { server_url, request_timeout, system_prompt, default_options }, p4))
}

/// The persisted document of one experiment: its identifier, the time it
/// was created, the configuration it ran under, and every inference in
/// order.
#[derive(Debug, Clone)]
pub struct ExperimentDoc {
    pub experiment_uuid: String,
    pub datetime: String,
    pub config: BaseConfig,
    pub inferences: Vec<InferenceRecord>,
}

pub ghost struct ExperimentDocV {
    pub experiment_uuid: Seq<char>,
    pub datetime: Seq<char>,
    pub config: BaseConfigV,
    pub inferences: Seq<InferenceRecordV>,
}

impl View for ExperimentDoc {
    type V = ExperimentDocV;

    open spec fn view(&self) -> ExperimentDocV {
        ExperimentDocV {
            experiment_uuid: self.experiment_uuid@,
            datetime: self.datetime@,
            config: self.config@,
            inferences: records_v(self.inferences@),
        }
    }
}

pub open spec fn enc_doc(d: ExperimentDocV) -> Seq<char> {
    enc_text(d.experiment_uuid) + enc_text(d.datetime) + enc_config(d.config) + enc_records(
        d.inferences,
    )
}

pub open spec fn doc_fits(d: ExperimentDocV) -> bool {
    d.experiment_uuid.len() <= u64::MAX && d.datetime.len() <= u64::MAX && config_fits(d.config)
        && records_fit(d.inferences)
}

pub open spec fn sp_doc(s: Seq<char>, pos: int) -> Option<(ExperimentDocV, int)> {
    match sp_text(s, pos) {
        Some((experiment_uuid, p1)) => match sp_text(s, p1) {
            Some((datetime, p2)) => match sp_config(s, p2) {
                Some((config, p3)) => match sp_records(s, p3) {
                    Some((inferences, p4)) => Some(
                        (ExperimentDocV { experiment_uuid, datetime, config, inferences }, p4),
                    ),
                    None => None,
                },
                None => None,
            },
            None => None,
        },
        None => None,
    }
}

/// A document with one more inference at the end of its sequence.
pub open spec fn appended_doc(d: ExperimentDocV, rec: InferenceRecordV) -> ExperimentDocV {
    ExperimentDocV { inferences: d.inferences.push(rec), ..d }
}

/// What a whole contents text denotes: a document filling it exactly.
#[verifier::opaque]
pub open spec fn sp_doc_full(s: Seq<char>) -> Option<ExperimentDocV> {
    match sp_doc(s, 0) {
        Some((d, p)) => if p == s.len() {
            Some(d)
        } else {
            None
        },
        None => None,
    }
}

#[verifier::spinoff_prover]
#[verifier::rlimit(100)]
pub proof fn lemma_sp_doc_round(s: Seq<char>, pos: int, d: ExperimentDocV)
    requires
        0 <= pos,
        doc_fits(d),
        pos + enc_doc(d).len() <= s.len(),
        s.subrange(pos, pos + enc_doc(d).len()) =~= enc_doc(d),
    ensures
        sp_doc(s, pos) == Some((d, pos + enc_doc(d).len())),
{
    let e1 = enc_text(d.experiment_uuid);
    let e2 = enc_text(d.datetime);
    let e3 = enc_config(d.config);
    let e4 = enc_records(d.inferences);
    let t4 = e4;
    let t3 = e3 + t4;
    let t2 = e2 + t3;
    assert(enc_doc(d) =~= e1 + t2);
    let p1 = pos + e1.len();
    lemma_subrange_split(s, pos, e1, t2);
    lemma_sp_text_round(s, pos, d.experiment_uuid);
    let p2 = p1 + e2.len();
    lemma_subrange_split(s, p1, e2, t3);
    lemma_sp_text_round(s, p1, d.datetime);
    let p3 = p2 + e3.len();
    lemma_subrange_split(s, p2, e3, t4);
    lemma_sp_config_round(s, p2, d.config);
    lemma_sp_records_round(s, p3, d.inferences);
}

/// Reading a written document gives the document back: the round trip over
/// the persisted representation.
pub proof fn lemma_doc_round_trip(d: ExperimentDocV)
    requires
        doc_fits(d),
    ensures
        sp_doc_full(enc_doc(d)) == Some(d),
{
    reveal(sp_doc_full);
    let s = enc_doc(d);
    assert(s.subrange(0, s.len() as int) =~= s);
    lemma_sp_doc_round(s, 0, d);
}

/// Write a document to its persisted text.
pub fn doc_to_contents(d: &ExperimentDoc) -> (r: String)
    ensures
        r@ == enc_doc(d@),
        doc_fits(d@),
{
    let mut out: Vec<char> = Vec::new();
    push_text(&mut out, d.experiment_uuid.as_str());
    push_text(&mut out, d.datetime.as_str());
    push_config(&mut out, &d.config);
    push_records(&mut out, &d.inferences);
    proof {
        assert(out@ =~= enc_doc(d@));
    }
    chars_to_string(&out)
}

/// Read a document back from its persisted text; `None` when the text is
/// not exactly a written document.
pub fn contents_to_doc(s: &str) -> (r: Option<ExperimentDoc>)
    ensures
        match r {
            Some(d) => sp_doc_full(s@) matches Some(q) && d@ == q,
            None => sp_doc_full(s@) is None,
        },
{
    proof {
        reveal(sp_doc_full);
    }
    let v = str_to_chars(s);
    let (experiment_uuid, p1) = match parse_text(&v, 0) {
        Some(x) => x,
        None => {
            return None;
        },
    };
    let (datetime, p2) = match parse_text(&v, p1) {
        Some(x) => x,
        None => {
            return None;
        },
    };
    let (config, p3) = match parse_config(&v, p2) {
        Some(x) => x,
        None => {
            return None;
        },
    };
    let (inferences, p4) = match parse_records(&v, p3) {
        Some(x) => x,
        None => {
            return None;
        },
    };
    if p4 != v.len() {
        return None;
    }
    Some(ExperimentDoc { experiment_uuid, datetime, config, inferences })
}

} // verus!
