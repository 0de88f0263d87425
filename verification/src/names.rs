//! Identifiers and file names: prompt file names, provider ids, instruction templates,
//! SQL column selection and the recognisers for managed files.

use vstd::prelude::*;
use crate::text::{char_is_ascii_alnum, chars_eq, chars_of, concat_str, copy_str, ends_with, ends_with_exec, is_ascii_alnum, lower_chars, lower_seq, replace_char, replace_char_chars, str_eq, string_of, strings_view, trim, trim_char, trim_char_chars, trim_chars, trim_end_str, trim_end_str_chars, trim_str};
use crate::error::CodexxError;

verus! {

/// The characters that a slug keeps as they are; `extra` also keeps `_` and `-`.
pub open spec fn slug_keeps(c: char, extra: bool) -> bool {
    is_ascii_alnum(c) || (extra && (c == '_' || c == '-'))
}

/// One step of the slug scan: kept characters are copied, any other character becomes a
/// single `-` unless the previous step already wrote one for a dropped character.
pub open spec fn slug_step(st: (Seq<char>, bool), c: char, extra: bool) -> (Seq<char>, bool) {
    if slug_keeps(c, extra) {
        (st.0.push(c), false)
    } else if !st.1 {
        (st.0.push('-'), true)
    } else {
        st
    }
}

/// The slug scan over `s`: the text written and whether the last step wrote a dash for a
/// dropped character.
pub open spec fn slug_scan(s: Seq<char>, extra: bool) -> (Seq<char>, bool)
    decreases s.len(),
{
    if s.len() == 0 {
        (Seq::empty(), false)
    } else {
        slug_step(slug_scan(s.drop_last(), extra), s.last(), extra)
    }
}

/// Lower-cased, slugged, with leading and trailing dashes removed.
pub open spec fn slug(s: Seq<char>, extra: bool) -> Seq<char> {
    trim_char(slug_scan(lower_seq(s), extra).0, '-')
}

fn slug_exec(v: &[char], extra: bool) -> (r: Vec<char>)
    ensures
        r@ == slug(v@, extra),
{
    let low = lower_chars(v);
    let mut out: Vec<char> = Vec::new();
    let mut last_dash = false;
    for i in 0..low.len()
        invariant
            (out@, last_dash) == slug_scan(low@.take(i as int), extra),
    {
        let ch = low[i];
        assert(low@.take(i + 1).drop_last() =~= low@.take(i as int));
        if char_is_ascii_alnum(ch) || (extra && (ch == '_' || ch == '-')) {
            out.push(ch);
            last_dash = false;
        } else if !last_dash {
            out.push('-');
            last_dash = true;
        }
    }
    assert(low@.take(low@.len() as int) =~= low@);
    trim_char_chars(out.as_slice(), '-')
}

/// The file name a saved prompt is written to: the trimmed input without its `.md`
/// suffixes (or `fallback` when that leaves nothing), slugged, plus `.md`.
pub open spec fn prompt_filename_spec(input: Seq<char>, fallback: Seq<char>) -> Seq<char> {
    let raw = trim_end_str(trim(input), seq!['.', 'm', 'd']);
    let base = if raw.len() == 0 { fallback } else { raw };
    let out = slug(base, true);
    let stem = if out.len() == 0 { seq!['c','u','s','t','o','m','-','p','r','o','m','p','t'] } else { out };
    stem + seq!['.', 'm', 'd']
}

pub fn normalize_prompt_filename(input: &str, fallback: &str) -> (r: String)
    ensures
        r@ == prompt_filename_spec(input@, fallback@),
{
    let v = chars_of(input);
    let t = trim_chars(v.as_slice());
    let md = vec!['.', 'm', 'd'];
    let raw = trim_end_str_chars(t.as_slice(), md.as_slice());
    let base = if raw.len() == 0 { chars_of(fallback) } else { raw };
    let out = slug_exec(base.as_slice(), true);
    let mut stem = if out.len() == 0 {
        vec!['c','u','s','t','o','m','-','p','r','o','m','p','t']
    } else {
        out
    };
    stem.push('.');
    stem.push('m');
    stem.push('d');
    let r = string_of(stem.as_slice());
    assert(r@ =~= prompt_filename_spec(input@, fallback@));
    r
}

/// The decimal digits of `n`.
pub open spec fn digits(n: nat) -> Seq<char>
    decreases n,
{
    if n < 10 {
        seq![digit_char(n)]
    } else {
        digits(n / 10).push(digit_char(n % 10))
    }
}

pub open spec fn digit_char(d: nat) -> char {
    (d + 48) as char
}

/// `i64`'s decimal text as `Display` writes it.
pub open spec fn decimal(n: int) -> Seq<char> {
    if n < 0 {
        seq!['-'] + digits((-n) as nat)
    } else {
        digits(n as nat)
    }
}

fn push_digits(m: u64, out: &mut Vec<char>)
    ensures
        final(out)@ == old(out)@ + digits(m as nat),
    decreases m,
{
    if m >= 10 {
        push_digits(m / 10, out);
    }
    let d: u64 = m % 10;
    let b: u8 = (d as u8) + 48;
    out.push(b as char);
    assert(digits(m as nat) == (if m < 10 { seq![digit_char(m as nat)] } else { digits((m / 10) as nat).push(digit_char((m % 10) as nat)) }));
}

/// Decimal text of a `u64`.
pub fn digits_text(n: u64) -> (r: Vec<char>)
    ensures
        r@ == digits(n as nat),
{
    let mut out: Vec<char> = Vec::new();
    push_digits(n, &mut out);
    assert(out@ =~= digits(n as nat));
    out
}

/// Decimal text of an `i64`.
pub fn decimal_text(n: i64) -> (r: Vec<char>)
    ensures
        r@ == decimal(n as int),
{
    let mut out: Vec<char> = Vec::new();
    if n < 0 {
        out.push('-');
        let m: u64 = (-(n as i128)) as u64;
        push_digits(m, &mut out);
    } else {
        push_digits(n as u64, &mut out);
    }
    assert(out@ =~= decimal(n as int));
    out
}

/// A provider id derived from free text; when nothing usable remains it is
/// `provider-<now_ms>`.
pub open spec fn sanitize_id_spec(input: Seq<char>, now_ms: int) -> Seq<char> {
    let out = slug(trim(input), false);
    if out.len() == 0 {
        seq!['p','r','o','v','i','d','e','r','-'] + decimal(now_ms)
    } else {
        out
    }
}

/// The local clock in milliseconds since the epoch (`chrono::Local::now().timestamp_millis()`).
/// It reads the clock, so nothing is stated of it.
#[verifier::external_body]
pub(crate) fn now_millis() -> (r: i64) {
    chrono::Local::now().timestamp_millis()
}

/// A provider id derived from free text, falling back on the clock (see `sanitize_id_spec`).
pub fn sanitize_id(input: &str) -> (r: String)
    ensures
        exists|now: i64| r@ == sanitize_id_spec(input@, now as int),
{
    let now = now_millis();
    sanitize_id_at(input, now)
}

/// `sanitize_id` at a given clock reading (milliseconds since the epoch).
pub fn sanitize_id_at(input: &str, now_ms: i64) -> (r: String)
    ensures
        r@ == sanitize_id_spec(input@, now_ms as int),
{
    let v = chars_of(input);
    let t = trim_chars(v.as_slice());
    let out = slug_exec(t.as_slice(), false);
    if out.len() == 0 {
        let mut p = vec!['p','r','o','v','i','d','e','r','-'];
        let mut d = decimal_text(now_ms);
        p.append(&mut d);
        let r = string_of(p.as_slice());
        assert(r@ =~= sanitize_id_spec(input@, now_ms as int));
        r
    } else {
        string_of(out.as_slice())
    }
}


/// File name of the GPT-5.5 instruction template.
pub const INSTRUCTION_FILENAME: &'static str = "gpt5.5-unrestricted.md";
/// Relative reference to the GPT-5.5 instruction template, as `config.toml` holds it.
pub const INSTRUCTION_RELATIVE: &'static str = "./gpt5.5-unrestricted.md";
/// File name of the GPT-5.4 instruction template.
pub const INSTRUCTION_54_FILENAME: &'static str = "gpt5.4-unrestricted.md";
/// Relative reference to the GPT-5.4 instruction template.
pub const INSTRUCTION_54_RELATIVE: &'static str = "./gpt5.4-unrestricted.md";

/// Which built-in instruction text a template carries.
#[derive(Clone, Copy, Debug, PartialEq, Eq, Structural)]
pub enum InstructionKind {
    Gpt55,
    Gpt54,
}

/// The template that an id names: `gpt5.4-unrestricted`, or `gpt5.5-unrestricted` (also for
/// an empty id), after trimming; any other id is refused.
pub open spec fn template_spec(id: Seq<char>) -> Option<InstructionKind> {
    let t = trim(id);
    if t == "gpt5.4-unrestricted"@ {
        Some(InstructionKind::Gpt54)
    } else if t == "gpt5.5-unrestricted"@ || t.len() == 0 {
        Some(InstructionKind::Gpt55)
    } else {
        None
    }
}

/// The file name, the relative reference and the text of an instruction template.
pub fn instruction_template(template_id: &str) -> (r: Result<
    (&'static str, &'static str, InstructionKind),
    CodexxError,
>)
    ensures
        match template_spec(template_id@) {
            Some(InstructionKind::Gpt54) => r matches Ok((f, rel, k)) && f@ == INSTRUCTION_54_FILENAME@
                && rel@ == INSTRUCTION_54_RELATIVE@ && k == InstructionKind::Gpt54,
            Some(InstructionKind::Gpt55) => r matches Ok((f, rel, k)) && f@ == INSTRUCTION_FILENAME@
                && rel@ == INSTRUCTION_RELATIVE@ && k == InstructionKind::Gpt55,
            None => r matches Err(CodexxError::Config(m)) && m@ == "未知指令提示词模板: "@ + trim(
                template_id@,
            ),
        },
{
    let t = trim_str(template_id);
    let ts = t.as_str();
    if str_eq(ts, "gpt5.4-unrestricted") {
        Ok((INSTRUCTION_54_FILENAME, INSTRUCTION_54_RELATIVE, InstructionKind::Gpt54))
    } else if str_eq(ts, "gpt5.5-unrestricted") || ts.is_empty() {
        proof {
            reveal_strlit("gpt5.4-unrestricted");
            reveal_strlit("gpt5.5-unrestricted");
        }
        Ok((INSTRUCTION_FILENAME, INSTRUCTION_RELATIVE, InstructionKind::Gpt55))
    } else {
        Err(CodexxError::Config(concat_str("未知指令提示词模板: ", ts)))
    }
}

/// A `model_instructions_file` value that points at one of the managed template files.
pub open spec fn is_managed_spec(v: Seq<char>) -> bool {
    exists|f: Seq<char>|
        (f == INSTRUCTION_FILENAME@ || f == INSTRUCTION_54_FILENAME@) && {
            ||| v == seq!['.', '/'] + f
            ||| v == f
            ||| ends_with(v, seq!['/'] + f)
            ||| ends_with(v, seq!['\\'] + f)
        }
}

fn refers_to(v: &[char], f: &str) -> (r: bool)
    ensures
        r == {
            ||| v@ == seq!['.', '/'] + f@
            ||| v@ == f@
            ||| ends_with(v@, seq!['/'] + f@)
            ||| ends_with(v@, seq!['\\'] + f@)
        },
{
    let fv = chars_of(f);
    let mut dot = vec!['.', '/'];
    let mut a = chars_of(f);
    dot.append(&mut a);
    let mut slash = vec!['/'];
    let mut b = chars_of(f);
    slash.append(&mut b);
    let mut back = vec!['\\'];
    let mut c = chars_of(f);
    back.append(&mut c);
    assert(dot@ =~= seq!['.', '/'] + f@);
    assert(slash@ =~= seq!['/'] + f@);
    assert(back@ =~= seq!['\\'] + f@);
    chars_eq(v, dot.as_slice()) || chars_eq(v, fv.as_slice()) || ends_with_exec(v, slash.as_slice())
        || ends_with_exec(v, back.as_slice())
}

/// Whether a `model_instructions_file` value is one of the managed template files.
pub fn is_managed_instruction_value(value: &str) -> (r: bool)
    ensures
        r == is_managed_spec(value@),
{
    let v = chars_of(value);
    let a = refers_to(v.as_slice(), INSTRUCTION_FILENAME);
    let b = refers_to(v.as_slice(), INSTRUCTION_54_FILENAME);
    if a {
        assert(is_managed_spec(value@) ==> true);
    }
    if !a && !b {
        assert forall|f: Seq<char>|
            (f == INSTRUCTION_FILENAME@ || f == INSTRUCTION_54_FILENAME@) implies !({
                ||| value@ == seq!['.', '/'] + f
                ||| value@ == f
                ||| ends_with(value@, seq!['/'] + f)
                ||| ends_with(value@, seq!['\\'] + f)
            }) by {}
    }
    a || b
}

/// `name` with every `"` doubled, in double quotes, when `cols` names it; else `fallback`.
pub open spec fn select_column_spec(cols: Seq<Seq<char>>, name: Seq<char>, fallback: Seq<char>) -> Seq<char> {
    if cols.contains(name) {
        seq!['"'] + replace_char(name, '"', seq!['"', '"']) + seq!['"']
    } else {
        fallback
    }
}

/// Whether `items` holds `s`.
pub fn contains_string(items: &Vec<String>, s: &str) -> (r: bool)
    ensures
        r == strings_view(items@).contains(s@),
{
    for i in 0..items.len()
        invariant
            forall|k: int| 0 <= k < i ==> items@[k]@ != s@,
    {
        if str_eq(items[i].as_str(), s) {
            assert(strings_view(items@)[i as int] == s@);
            return true;
        }
    }
    assert forall|k: int| 0 <= k < strings_view(items@).len() implies strings_view(items@)[k] != s@ by {}
    false
}

/// The SQL text that selects column `name` from a table with columns `cols`, or `fallback`
/// when the table has no such column.
pub fn sql_select_column(cols: &Vec<String>, name: &str, fallback: &str) -> (r: String)
    ensures
        r@ == select_column_spec(strings_view(cols@), name@, fallback@),
{
    if contains_string(cols, name) {
        let v = chars_of(name);
        let q = vec!['"', '"'];
        let mut body = replace_char_chars(v.as_slice(), '"', q.as_slice());
        let mut out: Vec<char> = vec!['"'];
        out.append(&mut body);
        out.push('"');
        let r = string_of(out.as_slice());
        assert(r@ =~= select_column_spec(strings_view(cols@), name@, fallback@));
        r
    } else {
        copy_str(fallback)
    }
}

} // verus!
