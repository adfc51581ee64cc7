//! The wire request: one generation request rendered as a JSON body, with
//! streaming disabled, carrying the model, the prompt, the system prompt
//! and the merged options.
use vstd::prelude::*;

verus! {

use crate::chars::{chars_to_string, str_to_chars};
use crate::config::{MergedOptions, MergedOptionsV};
use crate::numerals::{digit_char, plain_digits, push_u64_plain};
use crate::options::{milli_text, push_milli};

pub open spec fn hex_char(d: int) -> char {
    if d < 10 {
        digit_char(d)
    } else if d == 10 {
        'a'
    } else if d == 11 {
        'b'
    } else if d == 12 {
        'c'
    } else if d == 13 {
        'd'
    } else if d == 14 {
        'e'
    } else {
        'f'
    }
}

/// How one character stands inside a JSON string literal.
pub open spec fn esc_char(c: char) -> Seq<char> {
    if c == '"' {
        seq!['\\', '"']
    } else if c == '\\' {
        seq!['\\', '\\']
    } else if c == '\n' {
        seq!['\\', 'n']
    } else if c == '\r' {
        seq!['\\', 'r']
    } else if c == '\t' {
        seq!['\\', 't']
    } else if (c as int) < 32 {
        seq!['\\', 'u', '0', '0', hex_char(c as int / 16), hex_char(c as int % 16)]
    } else {
        seq![c]
    }
}

pub open spec fn json_escaped(s: Seq<char>) -> Seq<char>
    decreases s.len(),
{
    if s.len() == 0 {
        Seq::empty()
    } else {
        esc_char(s[0]) + json_escaped(s.skip(1))
    }
}

pub proof fn lemma_json_escaped_snoc(s: Seq<char>, c: char)
    ensures
        json_escaped(s.push(c)) == json_escaped(s) + esc_char(c),
    decreases s.len(),
{
    if s.len() == 0 {
        assert(s.push(c)[0] == c);
        assert(s.push(c).skip(1) =~= Seq::<char>::empty());
        assert(json_escaped(Seq::<char>::empty()) == Seq::<char>::empty());
        assert(json_escaped(s.push(c)) =~= json_escaped(s) + esc_char(c));
    } else {
        assert(s.push(c)[0] == s[0]);
        assert(s.push(c).skip(1) =~= s.skip(1).push(c));
        lemma_json_escaped_snoc(s.skip(1), c);
        assert(json_escaped(s.push(c)) =~= json_escaped(s) + esc_char(c));
    }
}

/// A JSON string literal: quoted, with every character escaped as needed.
pub open spec fn json_str(s: Seq<char>) -> Seq<char> {
    seq!['"'] + json_escaped(s) + seq!['"']
}

fn hex_char_exec(d: u32) -> (c: char)
    requires
        d < 16,
    ensures
        c == hex_char(d as int),
{
    if d == 0 {
        '0'
    } else if d == 1 {
        '1'
    } else if d == 2 {
        '2'
    } else if d == 3 {
        '3'
    } else if d == 4 {
        '4'
    } else if d == 5 {
        '5'
    } else if d == 6 {
        '6'
    } else if d == 7 {
        '7'
    } else if d == 8 {
        '8'
    } else if d == 9 {
        '9'
    } else if d == 10 {
        'a'
    } else if d == 11 {
        'b'
    } else if d == 12 {
        'c'
    } else if d == 13 {
        'd'
    } else if d == 14 {
        'e'
    } else {
        'f'
    }
}

/// Append one character in its escaped form.
fn push_escaped_char(out: &mut Vec<char>, c: char)
    ensures
        final(out)@ == old(out)@ + esc_char(c),
{
    let ghost pre = out@;
    if c == '"' {
        out.push('\\');
        out.push('"');
    } else if c == '\\' {
        out.push('\\');
        out.push('\\');
    } else if c == '\n' {
        out.push('\\');
        out.push('n');
    } else if c == '\r' {
        out.push('\\');
        out.push('r');
    } else if c == '\t' {
        out.push('\\');
        out.push('t');
    } else {
        let n = c as u32;
        if n < 32 {
            out.push('\\');
            out.push('u');
            out.push('0');
            out.push('0');
            out.push(hex_char_exec(n / 16));
            out.push(hex_char_exec(n % 16));
        } else {
            out.push(c);
        }
    }
    assert(out@ =~= pre + esc_char(c));
}

/// Append a JSON string literal.
pub fn push_json_str(out: &mut Vec<char>, s: &str)
    ensures
        final(out)@ == old(out)@ + json_str(s@),
{
    let ghost pre = out@;
    out.push('"');
    let cs = str_to_chars(s);
    let n = cs.len();
    let mut i: usize = 0;
    proof {
        assert(json_escaped(cs@.take(0)) =~= Seq::<char>::empty());
    }
    while i < n
        invariant
            i <= n,
            n == cs@.len(),
            cs@ == s@,
            out@ == pre + seq!['"'] + json_escaped(cs@.take(i as int)),
        decreases n - i,
    {
        push_escaped_char(out, cs[i]);
        proof {
            lemma_json_escaped_snoc(cs@.take(i as int), cs@[i as int]);
            assert(cs@.take(i as int).push(cs@[i as int]) =~= cs@.take(i as int + 1));
        }
        i = i + 1;
    }
    out.push('"');
    proof {
        assert(cs@.take(n as int) =~= cs@);
        assert(out@ =~= pre + json_str(s@));
    }
}

/// A nonnegative JSON number.
pub open spec fn json_u64(n: int) -> Seq<char> {
    plain_digits(n)
}

/// A signed JSON number.
pub open spec fn json_i64(x: int) -> Seq<char> {
    if x < 0 {
        seq!['-'] + plain_digits(-x)
    } else {
        plain_digits(x)
    }
}

/// Append a signed JSON number.
pub fn push_json_i64(out: &mut Vec<char>, x: i64)
    ensures
        final(out)@ == old(out)@ + json_i64(x as int),
{
    let ghost pre = out@;
    if x < 0 {
        out.push('-');
        let mag = (-(x as i128)) as u64;
        push_u64_plain(out, mag);
    } else {
        push_u64_plain(out, x as u64);
    }
    assert(out@ =~= pre + json_i64(x as int));
}

/// The text an optional unsigned field contributes: nothing when absent.
pub open spec fn opt_u32_field(name: Seq<char>, x: Option<u32>) -> Seq<char> {
    match x {
        Some(v) => name + json_u64(v as int) + ","@,
        None => Seq::<char>::empty(),
    }
}

/// The text an optional signed field contributes: nothing when absent.
pub open spec fn opt_i32_field(name: Seq<char>, x: Option<i32>) -> Seq<char> {
    match x {
        Some(v) => name + json_i64(v as int) + ","@,
        None => Seq::<char>::empty(),
    }
}

/// The text the stop-sequence list contributes: nothing when absent, else
/// a one-element array.
pub open spec fn stop_field(x: Option<Seq<Seq<char>>>) -> Seq<char> {
    match x {
        Some(ss) => "\"stop\":["@ + (if ss.len() > 0 {
            json_str(ss[0])
        } else {
            Seq::<char>::empty()
        }) + "],"@,
        None => Seq::<char>::empty(),
    }
}

/// The merged options as one JSON object: each default-only field when
/// present, then every mandatory sampling field.
pub open spec fn options_json(m: MergedOptionsV) -> Seq<char> {
    "{"@ + opt_u32_field("\"num_ctx\":"@, m.num_ctx) + opt_u32_field("\"num_gqa\":"@, m.num_gqa)
        + opt_u32_field("\"num_gpu\":"@, m.num_gpu) + opt_u32_field(
        "\"num_thread\":"@,
        m.num_thread,
    ) + opt_i32_field("\"num_predict\":"@, m.num_predict) + stop_field(m.stop)
        + "\"temperature\":"@ + milli_text(m.temperature) + ",\"repeat_penalty\":"@ + milli_text(
        m.repeat_penalty,
    ) + ",\"top_k\":"@ + json_u64(m.top_k as int) + ",\"top_p\":"@ + milli_text(m.top_p)
        + ",\"repeat_last_n\":"@ + json_i64(m.repeat_last_n as int) + ",\"tfs_z\":"@ + milli_text(
        m.tfs_z,
    ) + ",\"mirostat\":"@ + json_u64(m.mirostat as int) + ",\"mirostat_tau\":"@ + milli_text(
        m.mirostat_tau,
    ) + ",\"mirostat_eta\":"@ + milli_text(m.mirostat_eta) + ",\"seed\":"@ + json_i64(
        m.seed as int,
    ) + "}"@
}

/// The whole request body: model, prompt, system prompt, streaming
/// disabled, and the options object.
pub open spec fn request_json(model: Seq<char>, prompt: Seq<char>, m: MergedOptionsV) -> Seq<
    char,
> {
    "{\"model\":"@ + json_str(model) + ",\"prompt\":"@ + json_str(prompt) + ",\"system\":"@
        + json_str(m.system_prompt) + ",\"stream\":false,\"options\":"@ + options_json(m) + "}"@
}

/// Append a string slice as it stands.
fn push_raw(out: &mut Vec<char>, s: &str)
    ensures
        final(out)@ == old(out)@ + s@,
{
    let mut cs = str_to_chars(s);
    out.append(&mut cs);
}

/// Append an optional unsigned field.
fn push_opt_u32_field(out: &mut Vec<char>, name: &str, x: &Option<u32>)
    ensures
        final(out)@ == old(out)@ + opt_u32_field(name@, *x),
{
    let ghost pre = out@;
    match x {
        Some(v) => {
            push_raw(out, name);
            push_u64_plain(out, *v as u64);
            push_raw(out, ",");
            assert(out@ =~= pre + opt_u32_field(name@, *x));
        },
        None => {
            assert(out@ =~= pre + opt_u32_field(name@, *x));
        },
    }
}

/// Append an optional signed field.
fn push_opt_i32_field(out: &mut Vec<char>, name: &str, x: &Option<i32>)
    ensures
        final(out)@ == old(out)@ + opt_i32_field(name@, *x),
{
    let ghost pre = out@;
    match x {
        Some(v) => {
            push_raw(out, name);
            push_json_i64(out, *v as i64);
            push_raw(out, ",");
            assert(out@ =~= pre + opt_i32_field(name@, *x));
        },
        None => {
            assert(out@ =~= pre + opt_i32_field(name@, *x));
        },
    }
}

/// Append the stop-sequence field.
fn push_stop_field(out: &mut Vec<char>, x: &Option<Vec<String>>)
    ensures
        final(out)@ == old(out)@ + stop_field(
            match x {
                Some(v) => Some(v.deep_view()),
                None => None,
            },
        ),
{
    let ghost pre = out@;
    match x {
        Some(ss) => {
            push_raw(out, "\"stop\":[");
            if ss.len() > 0 {
                push_json_str(out, ss[0].as_str());
                proof {
                    assert(ss.deep_view()[0] == ss@[0]@);
                }
            }
            push_raw(out, "],");
            assert(out@ =~= pre + stop_field(Some(ss.deep_view())));
        },
        None => {
            assert(out@ =~= pre + stop_field(None));
        },
    }
}

/// Render the one generation request sent to the endpoint: the body the
/// dispatcher posts, with streaming disabled.
#[verifier::rlimit(100)]
pub fn request_body(model: &str, prompt: &str, opts: &MergedOptions) -> (r: String)
    ensures
        r@ == request_json(model@, prompt@, opts@),
{
    let mut out: Vec<char> = Vec::new();
    proof {
        assert(Seq::<char>::empty() + "{\"model\":"@ =~= "{\"model\":"@);
    }
    push_raw(&mut out, "{\"model\":");
    push_json_str(&mut out, model);
    push_raw(&mut out, ",\"prompt\":");
    push_json_str(&mut out, prompt);
    push_raw(&mut out, ",\"system\":");
    push_json_str(&mut out, opts.system_prompt.as_str());
    push_raw(&mut out, ",\"stream\":false,\"options\":");
    let mut oj: Vec<char> = Vec::new();
    proof {
        assert(Seq::<char>::empty() + "{"@ =~= "{"@);
    }
    push_raw(&mut oj, "{");
    push_opt_u32_field(&mut oj, "\"num_ctx\":", &opts.num_ctx);
    push_opt_u32_field(&mut oj, "\"num_gqa\":", &opts.num_gqa);
    push_opt_u32_field(&mut oj, "\"num_gpu\":", &opts.num_gpu);
    push_opt_u32_field(&mut oj, "\"num_thread\":", &opts.num_thread);
    push_opt_i32_field(&mut oj, "\"num_predict\":", &opts.num_predict);
    push_stop_field(&mut oj, &opts.stop);
    push_raw(&mut oj, "\"temperature\":");
    push_milli(&mut oj, opts.temperature);
    push_raw(&mut oj, ",\"repeat_penalty\":");
    push_milli(&mut oj, opts.repeat_penalty);
    push_raw(&mut oj, ",\"top_k\":");
    push_u64_plain(&mut oj, opts.top_k as u64);
    push_raw(&mut oj, ",\"top_p\":");
    push_milli(&mut oj, opts.top_p);
    push_raw(&mut oj, ",\"repeat_last_n\":");
    push_json_i64(&mut oj, opts.repeat_last_n as i64);
    push_raw(&mut oj, ",\"tfs_z\":");
    push_milli(&mut oj, opts.tfs_z);
    push_raw(&mut oj, ",\"mirostat\":");
    push_u64_plain(&mut oj, opts.mirostat as u64);
    push_raw(&mut oj, ",\"mirostat_tau\":");
    push_milli(&mut oj, opts.mirostat_tau);
    push_raw(&mut oj, ",\"mirostat_eta\":");
    push_milli(&mut oj, opts.mirostat_eta);
    push_raw(&mut oj, ",\"seed\":");
    push_json_i64(&mut oj, opts.seed as i64);
    push_raw(&mut oj, "}");
    proof {
        assert(oj@ == options_json(opts@));
    }
    out.append(&mut oj);
    push_raw(&mut out, "}");
    proof {
        assert(out@ == request_json(model@, prompt@, opts@));
    }
    chars_to_string(&out)
}

} // verus!
