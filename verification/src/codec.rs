//! A verified JSON reader and writer for the persisted registry.
//!
//! `Json` is the document tree the executable code builds; `JVal` is its
//! mathematical shadow, over which encoding and parsing are specified. The
//! writer emits a compact canonical form (no whitespace, every control
//! character escaped), and the parser accepts exactly that form; parsing what
//! was written gives back the same tree (see `lemma_parse_enc_jval`).

use vstd::prelude::*;

verus! {

/// A JSON document tree. Numbers are a sign and a 64-bit magnitude.
#[derive(Debug, PartialEq)]
pub enum Json {
    Null,
    Bool(bool),
    Num { neg: bool, mag: u64 },
    Str(String),
    Arr(Vec<Json>),
    Obj(Vec<(String, Json)>),
}

/// The mathematical shadow of a `Json` tree.
pub enum JVal {
    Null,
    Bool(bool),
    Num { neg: bool, mag: u64 },
    Str(Seq<char>),
    Arr(Seq<JVal>),
    Obj(Seq<(Seq<char>, JVal)>),
}

/// The shadow of a document tree.
pub open spec fn jview(j: Json) -> JVal
    decreases j,
{
    match j {
        Json::Null => JVal::Null,
        Json::Bool(b) => JVal::Bool(b),
        Json::Num { neg, mag } => JVal::Num { neg, mag },
        Json::Str(s) => JVal::Str(s@),
        Json::Arr(elems) => JVal::Arr(jview_list(elems@)),
        Json::Obj(props) => JVal::Obj(jview_props(props@)),
    }
}

/// The shadows of a sequence of trees.
pub open spec fn jview_list(s: Seq<Json>) -> Seq<JVal>
    decreases s,
{
    if s.len() == 0 {
        Seq::empty()
    } else {
        seq![jview(s[0])] + jview_list(s.drop_first())
    }
}

/// The shadows of a sequence of keyed trees.
pub open spec fn jview_props(s: Seq<(String, Json)>) -> Seq<(Seq<char>, JVal)>
    decreases s,
{
    if s.len() == 0 {
        Seq::empty()
    } else {
        seq![(s[0].0@, jview(s[0].1))] + jview_props(s.drop_first())
    }
}

/// Shadowing keeps lengths and maps elements pointwise.
pub proof fn lemma_jview_list_index(s: Seq<Json>, i: int)
    ensures
        jview_list(s).len() == s.len(),
        0 <= i < s.len() ==> jview_list(s)[i] == jview(s[i]),
    decreases s.len(),
{
    if s.len() > 0 {
        lemma_jview_list_index(s.drop_first(), i - 1);
    }
}

/// Shadowing keeps lengths and maps keyed elements pointwise.
pub proof fn lemma_jview_props_index(s: Seq<(String, Json)>, i: int)
    ensures
        jview_props(s).len() == s.len(),
        0 <= i < s.len() ==> jview_props(s)[i] == (s[i].0@, jview(s[i].1)),
    decreases s.len(),
{
    if s.len() > 0 {
        lemma_jview_props_index(s.drop_first(), i - 1);
    }
}

/// Canonical well-formedness: a negative number never has magnitude zero.
pub open spec fn jval_wf(v: JVal) -> bool
    decreases v,
{
    match v {
        JVal::Num { neg, mag } => !neg || mag >= 1,
        JVal::Arr(elems) => jlist_wf(elems),
        JVal::Obj(props) => jprops_wf(props),
        _ => true,
    }
}

/// Well-formedness of every element.
pub open spec fn jlist_wf(s: Seq<JVal>) -> bool
    decreases s,
{
    if s.len() == 0 {
        true
    } else {
        jval_wf(s[0]) && jlist_wf(s.drop_first())
    }
}

/// Well-formedness of every keyed element.
pub open spec fn jprops_wf(s: Seq<(Seq<char>, JVal)>) -> bool
    decreases s,
{
    if s.len() == 0 {
        true
    } else {
        jval_wf(s[0].1) && jprops_wf(s.drop_first())
    }
}

/// The number of nodes of a shadow tree; parsing fuel is measured by it.
pub open spec fn jval_size(v: JVal) -> nat
    decreases v,
{
    match v {
        JVal::Arr(elems) => 1 + jlist_size(elems),
        JVal::Obj(props) => 1 + jprops_size(props),
        _ => 1,
    }
}

/// The fuel a sequence of elements consumes.
pub open spec fn jlist_size(s: Seq<JVal>) -> nat
    decreases s,
{
    if s.len() == 0 {
        0
    } else {
        jval_size(s[0]) + 1 + jlist_size(s.drop_first())
    }
}

/// The fuel a sequence of keyed elements consumes.
pub open spec fn jprops_size(s: Seq<(Seq<char>, JVal)>) -> nat
    decreases s,
{
    if s.len() == 0 {
        0
    } else {
        jval_size(s[0].1) + 1 + jprops_size(s.drop_first())
    }
}

/// Whether `c` is a decimal digit.
pub open spec fn spec_is_digit(c: char) -> bool {
    48 <= c as u32 <= 57
}

/// The digit character for `d`.
pub open spec fn digit_char(d: int) -> char
    recommends
        0 <= d <= 9,
{
    ((48 + d) as u8) as char
}

/// The numeric value of a digit character.
pub open spec fn digit_val(c: char) -> int {
    c as u32 - 48
}

/// The decimal rendering of `n`, most significant digit first.
pub open spec fn spec_dec_u64(n: u64) -> Seq<char>
    decreases n,
{
    if n < 10 {
        seq![digit_char(n as int)]
    } else {
        spec_dec_u64((n / 10) as u64).push(digit_char((n % 10) as int))
    }
}

/// The value of a digit string, most significant digit first.
pub open spec fn digits_val(ds: Seq<char>) -> int
    decreases ds.len(),
{
    if ds.len() == 0 {
        0
    } else {
        digits_val(ds.drop_last()) * 10 + digit_val(ds.last())
    }
}

/// Whether every character is a digit.
pub open spec fn all_digits(ds: Seq<char>) -> bool {
    forall|i: int| 0 <= i < ds.len() ==> spec_is_digit(#[trigger] ds[i])
}

/// The decimal rendering of `n` is a non-empty digit string whose value is
/// `n`.
pub proof fn lemma_dec_u64_digits(n: u64)
    ensures
        spec_dec_u64(n).len() >= 1,
        all_digits(spec_dec_u64(n)),
        digits_val(spec_dec_u64(n)) == n,
    decreases n,
{
    if n < 10 {
        assert(spec_dec_u64(n) =~= seq![digit_char(n as int)]);
        assert(digit_char(n as int) as u32 == 48 + n);
        assert(seq![digit_char(n as int)].drop_last() =~= Seq::<char>::empty());
        assert(seq![digit_char(n as int)].last() == digit_char(n as int));
        assert(digits_val(Seq::<char>::empty()) == 0);
        assert(digits_val(spec_dec_u64(n)) == digit_val(digit_char(n as int)));
    } else {
        lemma_dec_u64_digits((n / 10) as u64);
        let ds = spec_dec_u64((n / 10) as u64);
        let d = digit_char((n % 10) as int);
        assert(d as u32 == 48 + (n % 10));
        assert(spec_dec_u64(n) == ds.push(d));
        assert(ds.push(d).drop_last() =~= ds);
        assert(ds.push(d).last() == d);
        assert(digits_val(spec_dec_u64(n)) == digits_val(ds) * 10 + digit_val(d));
        assert((n / 10) * 10 + (n % 10) == n) by (nonlinear_arith);
        assert forall|i: int| 0 <= i < ds.push(d).len() implies spec_is_digit(
            #[trigger] ds.push(d)[i],
        ) by {
            if i < ds.len() {
                assert(ds.push(d)[i] == ds[i]);
            }
        }
    }
}

/// The escape of one character in a string literal.
pub open spec fn esc_char(c: char) -> Seq<char> {
    if c == '"' {
        seq!['\\', '"']
    } else if c == '\\' {
        seq!['\\', '\\']
    } else if (c as u32) < 32 {
        seq!['\\', 'u', '0', '0', hex_char((c as u32 / 16) as int), hex_char((c as u32 % 16) as int)]
    } else {
        seq![c]
    }
}

/// The hexadecimal digit character for `d`.
pub open spec fn hex_char(d: int) -> char
    recommends
        0 <= d <= 15,
{
    if d < 10 {
        digit_char(d)
    } else {
        ((87 + d) as u8) as char
    }
}

/// The escaped body of a string literal.
pub open spec fn esc(s: Seq<char>) -> Seq<char>
    decreases s.len(),
{
    if s.len() == 0 {
        Seq::empty()
    } else {
        esc_char(s[0]) + esc(s.drop_first())
    }
}

/// Escaping one more character on the right.
pub proof fn lemma_esc_snoc(s: Seq<char>, c: char)
    ensures
        esc(s.push(c)) == esc(s) + esc_char(c),
    decreases s.len(),
{
    if s.len() == 0 {
        assert(s.push(c).drop_first() =~= s);
        assert(s.push(c)[0] == c);
        assert(esc(s.push(c)) == esc_char(c) + esc(s));
        assert(esc_char(c) + Seq::<char>::empty() =~= esc_char(c));
        assert(Seq::<char>::empty() + esc_char(c) =~= esc_char(c));
    } else {
        assert(s.push(c).drop_first() =~= s.drop_first().push(c));
        assert(s.push(c)[0] == s[0]);
        lemma_esc_snoc(s.drop_first(), c);
        assert(esc_char(s[0]) + (esc(s.drop_first()) + esc_char(c)) =~= (esc_char(s[0]) + esc(
            s.drop_first(),
        )) + esc_char(c));
    }
}

/// The compact canonical text of a shadow tree.
pub open spec fn enc_jval(v: JVal) -> Seq<char>
    decreases v,
{
    match v {
        JVal::Null => seq!['n', 'u', 'l', 'l'],
        JVal::Bool(b) => if b {
            seq!['t', 'r', 'u', 'e']
        } else {
            seq!['f', 'a', 'l', 's', 'e']
        },
        JVal::Num { neg, mag } => if neg {
            seq!['-'] + spec_dec_u64(mag)
        } else {
            spec_dec_u64(mag)
        },
        JVal::Str(s) => seq!['"'] + esc(s) + seq!['"'],
        JVal::Arr(elems) => seq!['['] + enc_list(elems) + seq![']'],
        JVal::Obj(props) => seq!['{'] + enc_props(props) + seq!['}'],
    }
}

/// The comma-separated texts of the elements.
pub open spec fn enc_list(l: Seq<JVal>) -> Seq<char>
    decreases l,
{
    if l.len() == 0 {
        Seq::empty()
    } else if l.len() == 1 {
        enc_jval(l[0])
    } else {
        enc_jval(l[0]) + seq![','] + enc_list(l.drop_first())
    }
}

/// The comma-separated `"key":value` texts of the keyed elements.
pub open spec fn enc_props(p: Seq<(Seq<char>, JVal)>) -> Seq<char>
    decreases p,
{
    if p.len() == 0 {
        Seq::empty()
    } else {
        (seq!['"'] + esc(p[0].0) + seq!['"', ':'] + enc_jval(p[0].1)) + (if p.len() == 1 {
            Seq::<char>::empty()
        } else {
            seq![','] + enc_props(p.drop_first())
        })
    }
}

/// Append the decimal rendering of `n`.
pub fn write_u64(n: u64, out: &mut Vec<char>)
    ensures
        final(out)@ == old(out)@ + spec_dec_u64(n),
    decreases n,
{
    if n < 10 {
        out.push(((48 + n) as u8) as char);
        proof {
            assert(final(out)@ =~= old(out)@ + spec_dec_u64(n));
        }
    } else {
        write_u64(n / 10, out);
        out.push(((48 + (n % 10)) as u8) as char);
        proof {
            assert(final(out)@ =~= old(out)@ + spec_dec_u64(n));
        }
    }
}

/// Append one escaped character of a string literal.
fn write_escaped_char(c: char, out: &mut Vec<char>)
    ensures
        final(out)@ == old(out)@ + esc_char(c),
{
    if c == '"' {
        out.push('\\');
        out.push('"');
        proof {
            assert(final(out)@ =~= old(out)@ + esc_char(c));
        }
    } else if c == '\\' {
        out.push('\\');
        out.push('\\');
        proof {
            assert(final(out)@ =~= old(out)@ + esc_char(c));
        }
    } else if (c as u32) < 32 {
        let x = c as u32;
        out.push('\\');
        out.push('u');
        out.push('0');
        out.push('0');
        let h1 = x / 16;
        let h2 = x % 16;
        out.push(if h1 < 10 {
            ((48 + h1) as u8) as char
        } else {
            ((87 + h1) as u8) as char
        });
        out.push(if h2 < 10 {
            ((48 + h2) as u8) as char
        } else {
            ((87 + h2) as u8) as char
        });
        proof {
            assert(final(out)@ =~= old(out)@ + esc_char(c));
        }
    } else {
        out.push(c);
        proof {
            assert(final(out)@ =~= old(out)@ + esc_char(c));
        }
    }
}

/// Append a quoted, escaped string literal.
fn write_string_literal(s: &String, out: &mut Vec<char>)
    ensures
        final(out)@ == old(out)@ + seq!['"'] + esc(s@) + seq!['"'],
{
    let chars = crate::strutil::str_to_chars(s.as_str());
    out.push('"');
    let mut i: usize = 0;
    proof {
        assert(s@.take(0) =~= Seq::<char>::empty());
        assert(esc(s@.take(0)) =~= Seq::<char>::empty());
        assert(out@ =~= old(out)@ + seq!['"'] + esc(s@.take(0)));
    }
    while i < chars.len()
        invariant
            i <= chars@.len(),
            chars@ == s@,
            out@ == old(out)@ + seq!['"'] + esc(s@.take(i as int)),
        decreases chars@.len() - i,
    {
        write_escaped_char(chars[i], out);
        proof {
            lemma_esc_snoc(s@.take(i as int), s@[i as int]);
            assert(s@.take(i as int).push(s@[i as int]) =~= s@.take(i as int + 1));
            assert(out@ =~= old(out)@ + seq!['"'] + esc(s@.take(i as int + 1)));
        }
        i += 1;
    }
    proof {
        assert(s@.take(chars@.len() as int) =~= s@);
    }
    out.push('"');
    proof {
        assert(out@ =~= old(out)@ + seq!['"'] + esc(s@) + seq!['"']);
    }
}

/// Append the compact canonical text of a tree.
pub fn write_json(j: &Json, out: &mut Vec<char>)
    ensures
        final(out)@ == old(out)@ + enc_jval(jview(*j)),
    decreases *j, 0int,
{
    match j {
        Json::Null => {
            out.push('n');
            out.push('u');
            out.push('l');
            out.push('l');
            proof {
                assert(out@ =~= old(out)@ + enc_jval(jview(*j)));
            }
        },
        Json::Bool(b) => {
            if *b {
                out.push('t');
                out.push('r');
                out.push('u');
                out.push('e');
            } else {
                out.push('f');
                out.push('a');
                out.push('l');
                out.push('s');
                out.push('e');
            }
            proof {
                assert(out@ =~= old(out)@ + enc_jval(jview(*j)));
            }
        },
        Json::Num { neg, mag } => {
            if *neg {
                out.push('-');
            }
            write_u64(*mag, out);
            proof {
                assert(out@ =~= old(out)@ + enc_jval(jview(*j)));
            }
        },
        Json::Str(s) => {
            write_string_literal(s, out);
            proof {
                assert(out@ =~= old(out)@ + enc_jval(jview(*j)));
            }
        },
        Json::Arr(elems) => {
            out.push('[');
            write_json_list(elems, 0, out);
            out.push(']');
            proof {
                assert(elems@.skip(0) =~= elems@);
                assert(out@ =~= old(out)@ + enc_jval(jview(*j)));
            }
        },
        Json::Obj(props) => {
            out.push('{');
            write_json_props(props, 0, out);
            out.push('}');
            proof {
                assert(props@.skip(0) =~= props@);
                assert(out@ =~= old(out)@ + enc_jval(jview(*j)));
            }
        },
    }
}

/// Append the comma-separated texts of `elems[from..]`.
fn write_json_list(elems: &Vec<Json>, from: usize, out: &mut Vec<char>)
    requires
        from <= elems@.len(),
    ensures
        final(out)@ == old(out)@ + enc_list(jview_list(elems@.skip(from as int))),
    decreases elems@, elems@.len() - from, 1int,
{
    proof {
        lemma_jview_list_index(elems@.skip(from as int), 0);
    }
    if from < elems.len() {
        proof {
            assert(elems@.skip(from as int)[0] == elems@[from as int]);
            assert(elems@.skip(from as int).drop_first() =~= elems@.skip(from as int + 1));
        }
        write_json(&elems[from], out);
        if from + 1 < elems.len() {
            out.push(',');
            write_json_list(elems, from + 1, out);
            proof {
                lemma_jview_list_index(elems@.skip(from as int + 1), 0);
                let l = jview_list(elems@.skip(from as int));
                assert(l.drop_first() == jview_list(elems@.skip(from as int + 1))) by {
                    assert(l == seq![jview(elems@[from as int])] + jview_list(
                        elems@.skip(from as int + 1),
                    ));
                    assert(l.drop_first() =~= jview_list(elems@.skip(from as int + 1)));
                }
                assert(l[0] == jview(elems@[from as int]));
                assert(l.len() == elems@.skip(from as int).len());
                assert(out@ =~= old(out)@ + enc_list(jview_list(elems@.skip(from as int))));
            }
        } else {
            proof {
                assert(jview_list(elems@.skip(from as int)).len() == 1);
                assert(out@ =~= old(out)@ + enc_list(jview_list(elems@.skip(from as int))));
            }
        }
    } else {
        proof {
            assert(elems@.skip(from as int) =~= Seq::<Json>::empty());
            assert(out@ =~= old(out)@ + enc_list(jview_list(elems@.skip(from as int))));
        }
    }
}

/// Append the comma-separated `"key":value` texts of `props[from..]`.
fn write_json_props(props: &Vec<(String, Json)>, from: usize, out: &mut Vec<char>)
    requires
        from <= props@.len(),
    ensures
        final(out)@ == old(out)@ + enc_props(jview_props(props@.skip(from as int))),
    decreases props@, props@.len() - from, 1int,
{
    proof {
        lemma_jview_props_index(props@.skip(from as int), 0);
    }
    if from < props.len() {
        proof {
            assert(props@.skip(from as int)[0] == props@[from as int]);
            assert(props@.skip(from as int).drop_first() =~= props@.skip(from as int + 1));
        }
        write_string_literal(&props[from].0, out);
        out.push(':');
        write_json(&props[from].1, out);
        if from + 1 < props.len() {
            out.push(',');
            write_json_props(props, from + 1, out);
            proof {
                lemma_jview_props_index(props@.skip(from as int + 1), 0);
                let l = jview_props(props@.skip(from as int));
                assert(l.drop_first() == jview_props(props@.skip(from as int + 1))) by {
                    assert(l == seq![(props@[from as int].0@, jview(props@[from as int].1))]
                        + jview_props(props@.skip(from as int + 1)));
                    assert(l.drop_first() =~= jview_props(props@.skip(from as int + 1)));
                }
                assert(l[0] == (props@[from as int].0@, jview(props@[from as int].1)));
                assert(l.len() == props@.skip(from as int).len());
                assert(out@ =~= old(out)@ + enc_props(jview_props(props@.skip(from as int))));
            }
        } else {
            proof {
                assert(jview_props(props@.skip(from as int)).len() == 1);
                assert(out@ =~= old(out)@ + enc_props(jview_props(props@.skip(from as int))));
            }
        }
    } else {
        proof {
            assert(props@.skip(from as int) =~= Seq::<(String, Json)>::empty());
            assert(out@ =~= old(out)@ + enc_props(jview_props(props@.skip(from as int))));
        }
    }
}

/// Whether `lit` occurs in `s` at position `i`.
pub open spec fn matches_at(s: Seq<char>, i: int, lit: Seq<char>) -> bool {
    0 <= i && i + lit.len() <= s.len() && s.subrange(i, i + lit.len() as int) == lit
}

/// Whether `c` is a lower-case hexadecimal digit.
pub open spec fn spec_is_hex(c: char) -> bool {
    spec_is_digit(c) || 97 <= c as u32 <= 102
}

/// The numeric value of a hexadecimal digit character.
pub open spec fn hex_val(c: char) -> int {
    if spec_is_digit(c) {
        digit_val(c)
    } else {
        c as u32 - 87
    }
}

/// Where the run of digits starting at `i` ends.
pub open spec fn spec_digit_run_end(s: Seq<char>, i: int) -> int
    decreases s.len() - i,
{
    if 0 <= i < s.len() && spec_is_digit(s[i]) {
        spec_digit_run_end(s, i + 1)
    } else {
        i
    }
}

/// Parse the digit run at `i`: its value as a `u64`, or nothing when there
/// is no digit or the value overflows.
pub open spec fn sparse_digits(s: Seq<char>, i: int) -> Option<(u64, int)> {
    let e = spec_digit_run_end(s, i);
    if e == i {
        None
    } else {
        let v = digits_val(s.subrange(i, e));
        if v > u64::MAX {
            None
        } else {
            Some(((v as u64), e))
        }
    }
}

/// Prepend a character to a string-parse result.
pub open spec fn cons_str(c: char, rest: Option<(Seq<char>, int)>) -> Option<(Seq<char>, int)> {
    match rest {
        Some(t) => Some((seq![c] + t.0, t.1)),
        None => None,
    }
}

/// Parse the body of a string literal from `i` up to its closing quote:
/// the unescaped characters and the position after the quote.
pub open spec fn sparse_string(s: Seq<char>, i: int) -> Option<(Seq<char>, int)>
    decreases s.len() - i,
{
    if i < 0 || i >= s.len() {
        None
    } else if s[i] == '"' {
        Some((Seq::empty(), i + 1))
    } else if s[i] == '\\' {
        if i + 1 >= s.len() {
            None
        } else if s[i + 1] == '"' {
            cons_str('"', sparse_string(s, i + 2))
        } else if s[i + 1] == '\\' {
            cons_str('\\', sparse_string(s, i + 2))
        } else if s[i + 1] == 'u' {
            if i + 5 >= s.len() {
                None
            } else if s[i + 2] == '0' && s[i + 3] == '0' && spec_is_hex(s[i + 4]) && spec_is_hex(
                s[i + 5],
            ) && hex_val(s[i + 4]) * 16 + hex_val(s[i + 5]) < 32 {
                cons_str(
                    (((hex_val(s[i + 4]) * 16 + hex_val(s[i + 5])) as u8) as char),
                    sparse_string(s, i + 6),
                )
            } else {
                None
            }
        } else {
            None
        }
    } else if (s[i] as u32) < 32 {
        None
    } else {
        cons_str(s[i], sparse_string(s, i + 1))
    }
}

/// Parse one value at `i`, with `fuel` bounding the nesting the parser will
/// enter: the value and the position after it.
pub open spec fn sparse_jval(s: Seq<char>, i: int, fuel: nat) -> Option<(JVal, int)>
    decreases fuel,
{
    if fuel == 0 || i < 0 || i >= s.len() {
        None
    } else {
        let c = s[i];
        if c == 'n' {
            if matches_at(s, i, seq!['n', 'u', 'l', 'l']) {
                Some((JVal::Null, i + 4))
            } else {
                None
            }
        } else if c == 't' {
            if matches_at(s, i, seq!['t', 'r', 'u', 'e']) {
                Some((JVal::Bool(true), i + 4))
            } else {
                None
            }
        } else if c == 'f' {
            if matches_at(s, i, seq!['f', 'a', 'l', 's', 'e']) {
                Some((JVal::Bool(false), i + 5))
            } else {
                None
            }
        } else if c == '"' {
            match sparse_string(s, i + 1) {
                Some(t) => Some((JVal::Str(t.0), t.1)),
                None => None,
            }
        } else if c == '-' {
            match sparse_digits(s, i + 1) {
                Some(t) => if t.0 == 0 {
                    None
                } else {
                    Some((JVal::Num { neg: true, mag: t.0 }, t.1))
                },
                None => None,
            }
        } else if spec_is_digit(c) {
            match sparse_digits(s, i) {
                Some(t) => Some((JVal::Num { neg: false, mag: t.0 }, t.1)),
                None => None,
            }
        } else if c == '[' {
            if i + 1 < s.len() && s[i + 1] == ']' {
                Some((JVal::Arr(Seq::empty()), i + 2))
            } else {
                match sparse_list(s, i + 1, (fuel - 1) as nat) {
                    Some(t) => Some((JVal::Arr(t.0), t.1)),
                    None => None,
                }
            }
        } else if c == '{' {
            if i + 1 < s.len() && s[i + 1] == '}' {
                Some((JVal::Obj(Seq::empty()), i + 2))
            } else {
                match sparse_props(s, i + 1, (fuel - 1) as nat) {
                    Some(t) => Some((JVal::Obj(t.0), t.1)),
                    None => None,
                }
            }
        } else {
            None
        }
    }
}

/// Parse the elements of a non-empty array from `i` through the closing
/// bracket.
pub open spec fn sparse_list(s: Seq<char>, i: int, fuel: nat) -> Option<(Seq<JVal>, int)>
    decreases fuel,
{
    if fuel == 0 {
        None
    } else {
        match sparse_jval(s, i, (fuel - 1) as nat) {
            Some(t) => if t.1 < s.len() && s[t.1] == ',' {
                match sparse_list(s, t.1 + 1, (fuel - 1) as nat) {
                    Some(u) => Some((seq![t.0] + u.0, u.1)),
                    None => None,
                }
            } else if t.1 < s.len() && s[t.1] == ']' {
                Some((seq![t.0], t.1 + 1))
            } else {
                None
            },
            None => None,
        }
    }
}

/// Parse the members of a non-empty object from `i` through the closing
/// brace.
pub open spec fn sparse_props(s: Seq<char>, i: int, fuel: nat) -> Option<
    (Seq<(Seq<char>, JVal)>, int),
>
    decreases fuel,
{
    if fuel == 0 || i < 0 || i >= s.len() || s[i] != '"' {
        None
    } else {
        match sparse_string(s, i + 1) {
            Some(k) => if k.1 < s.len() && s[k.1] == ':' {
                match sparse_jval(s, k.1 + 1, (fuel - 1) as nat) {
                    Some(t) => if t.1 < s.len() && s[t.1] == ',' {
                        match sparse_props(s, t.1 + 1, (fuel - 1) as nat) {
                            Some(u) => Some((seq![(k.0, t.0)] + u.0, u.1)),
                            None => None,
                        }
                    } else if t.1 < s.len() && s[t.1] == '}' {
                        Some((seq![(k.0, t.0)], t.1 + 1))
                    } else {
                        None
                    },
                    None => None,
                }
            } else {
                None
            },
            None => None,
        }
    }
}

/// One more digit on the right of a digit string.
pub proof fn lemma_digits_val_snoc(s: Seq<char>, i: int, p: int)
    requires
        0 <= i <= p < s.len(),
    ensures
        digits_val(s.subrange(i, p + 1)) == digits_val(s.subrange(i, p)) * 10 + digit_val(s[p]),
{
    assert(s.subrange(i, p + 1).drop_last() =~= s.subrange(i, p));
    assert(s.subrange(i, p + 1).last() == s[p]);
}

/// Digit strings have non-negative values.
pub proof fn lemma_digits_val_nonneg(ds: Seq<char>)
    requires
        all_digits(ds),
    ensures
        digits_val(ds) >= 0,
    decreases ds.len(),
{
    if ds.len() > 0 {
        assert(forall|t: int|
            0 <= t < ds.drop_last().len() ==> spec_is_digit(#[trigger] ds.drop_last()[t]));
        lemma_digits_val_nonneg(ds.drop_last());
        assert(spec_is_digit(ds.last()));
        assert(digit_val(ds.last()) >= 0);
    }
}

/// A digit run's prefix value never exceeds the whole run's value.
pub proof fn lemma_digits_val_prefix_le(s: Seq<char>, i: int, p: int, e: int)
    requires
        0 <= i <= p <= e <= s.len(),
        forall|t: int| i <= t < e ==> spec_is_digit(#[trigger] s[t]),
    ensures
        digits_val(s.subrange(i, p)) <= digits_val(s.subrange(i, e)),
    decreases e - p,
{
    if p < e {
        lemma_digits_val_snoc(s, i, p);
        assert(forall|t: int|
            0 <= t < s.subrange(i, p).len() ==> spec_is_digit(#[trigger] s.subrange(i, p)[t]));
        lemma_digits_val_nonneg(s.subrange(i, p));
        assert(digit_val(s[p]) >= 0);
        lemma_digits_val_prefix_le(s, i, p + 1, e);
    }
}

/// Where a digit run ends: within bounds, all digits before, none at the
/// end.
pub proof fn lemma_digit_run_end_bounds(s: Seq<char>, i: int)
    requires
        0 <= i <= s.len(),
    ensures
        i <= spec_digit_run_end(s, i) <= s.len(),
        forall|t: int| i <= t < spec_digit_run_end(s, i) ==> spec_is_digit(#[trigger] s[t]),
        spec_digit_run_end(s, i) < s.len() ==> !spec_is_digit(s[spec_digit_run_end(s, i)]),
    decreases s.len() - i,
{
    if i < s.len() && spec_is_digit(s[i]) {
        lemma_digit_run_end_bounds(s, i + 1);
    }
}

/// Whether `c` is a decimal digit.
fn is_digit_exec(c: char) -> (r: bool)
    ensures
        r == spec_is_digit(c),
{
    let x = c as u32;
    48 <= x && x <= 57
}

/// Parse the digit run at `i`.
fn parse_digits(s: &Vec<char>, i: usize) -> (r: Option<(u64, usize)>)
    requires
        i <= s@.len(),
    ensures
        match r {
            Some(t) => sparse_digits(s@, i as int) == Some((t.0, t.1 as int)) && i < t.1
                <= s@.len(),
            None => sparse_digits(s@, i as int) is None,
        },
{
    proof {
        lemma_digit_run_end_bounds(s@, i as int);
    }
    let ghost e = spec_digit_run_end(s@, i as int);
    if i >= s.len() || !is_digit_exec(s[i]) {
        proof {
            assert(e == i);
        }
        return None;
    }
    let mut pos: usize = i;
    let mut acc: u64 = 0;
    proof {
        assert(s@.subrange(i as int, i as int) =~= Seq::<char>::empty());
    }
    while pos < s.len() && is_digit_exec(s[pos])
        invariant
            i <= pos <= e <= s@.len(),
            e == spec_digit_run_end(s@, i as int),
            forall|t: int| i <= t < e ==> spec_is_digit(#[trigger] s@[t]),
            e < s@.len() ==> !spec_is_digit(s@[e]),
            acc == digits_val(s@.subrange(i as int, pos as int)),
            pos < e ==> spec_is_digit(s@[pos as int]),
            i < e,
        decreases s@.len() - pos,
    {
        let d = (s[pos] as u32 - 48) as u64;
        proof {
            assert(d == digit_val(s@[pos as int]));
            lemma_digits_val_snoc(s@, i as int, pos as int);
        }
        if acc > (u64::MAX - d) / 10 {
            proof {
                assert(acc * 10 + d > u64::MAX) by (nonlinear_arith)
                    requires
                        acc > (u64::MAX - d) / 10,
                        0 <= d <= 9,
                ;
                assert(digits_val(s@.subrange(i as int, pos as int + 1)) > u64::MAX);
                lemma_digits_val_prefix_le(s@, i as int, pos as int + 1, e);
                assert(digits_val(s@.subrange(i as int, e)) > u64::MAX);
            }
            return None;
        }
        proof {
            assert(acc * 10 + d <= u64::MAX) by (nonlinear_arith)
                requires
                    acc <= (u64::MAX - d) / 10,
                    0 <= d <= 9,
            ;
        }
        acc = acc * 10 + d;
        pos += 1;
    }
    proof {
        assert(pos == e) by {
            if pos < e {
                assert(spec_is_digit(s@[pos as int]));
            }
        }
        assert(digits_val(s@.subrange(i as int, e)) == acc);
    }
    Some((acc, pos))
}

/// Whether `c` is a lower-case hexadecimal digit, with its value.
fn hex_digit_exec(c: char) -> (r: Option<u32>)
    ensures
        match r {
            Some(v) => spec_is_hex(c) && v == hex_val(c) && v < 16,
            None => !spec_is_hex(c),
        },
{
    let x = c as u32;
    if 48 <= x && x <= 57 {
        Some(x - 48)
    } else if 97 <= x && x <= 102 {
        Some(x - 87)
    } else {
        None
    }
}

/// Parse the body of a string literal at `i` up to its closing quote.
fn parse_string(s: &Vec<char>, i: usize) -> (r: Option<(String, usize)>)
    requires
        i <= s@.len(),
    ensures
        match r {
            Some(t) => sparse_string(s@, i as int) == Some((t.0@, t.1 as int)) && i < t.1
                <= s@.len(),
            None => sparse_string(s@, i as int) is None,
        },
{
    let mut cur: Vec<char> = Vec::new();
    let mut pos: usize = i;
    proof {
        assert(cur@ =~= Seq::<char>::empty());
        lemma_sparse_string_advances(s@, i as int);
        let r0 = sparse_string(s@, i as int);
        match r0 {
            Option::Some(t) => {
                assert(Seq::<char>::empty() + t.0 =~= t.0);
            },
            Option::None => {},
        }
    }
    loop
        invariant
            i <= pos <= s@.len(),
            (match sparse_string(s@, pos as int) {
                Some(t) => sparse_string(s@, i as int) == Some((cur@ + t.0, t.1)) && pos < t.1,
                None => sparse_string(s@, i as int) is None,
            }),
        decreases s@.len() - pos,
    {
        if pos >= s.len() {
            return None;
        }
        let c = s[pos];
        if c == '"' {
            proof {
                assert(sparse_string(s@, pos as int) == Some((
                    Seq::<char>::empty(),
                    pos as int + 1,
                )));
                assert(cur@ + Seq::<char>::empty() =~= cur@);
            }
            let lit = crate::strutil::chars_to_string(&cur);
            return Some((lit, pos + 1));
        } else if c == '\\' {
            if s.len() - pos < 2 {
                return None;
            }
            let c2 = s[pos + 1];
            if c2 == '"' {
                let ghost cur0 = cur@;
                cur.push('"');
                proof {
                    lemma_parse_string_step(s@, i as int, pos as int, cur0, '"', pos as int + 2);
                }
                pos = pos + 2;
            } else if c2 == '\\' {
                let ghost cur0 = cur@;
                cur.push('\\');
                proof {
                    lemma_parse_string_step(s@, i as int, pos as int, cur0, '\\', pos as int + 2);
                }
                pos = pos + 2;
            } else if c2 == 'u' {
                if s.len() - pos < 6 {
                    return None;
                }
                if !(s[pos + 2] == '0' && s[pos + 3] == '0') {
                    return None;
                }
                let h1 = match hex_digit_exec(s[pos + 4]) {
                    Some(v) => v,
                    None => {
                        return None;
                    },
                };
                let h2 = match hex_digit_exec(s[pos + 5]) {
                    Some(v) => v,
                    None => {
                        return None;
                    },
                };
                let code = h1 * 16 + h2;
                if code >= 32 {
                    return None;
                }
                let ghost cur0 = cur@;
                let decoded = (code as u8) as char;
                cur.push(decoded);
                proof {
                    assert(decoded == (((hex_val(s@[pos as int + 4]) * 16 + hex_val(
                        s@[pos as int + 5],
                    )) as u8) as char));
                    lemma_parse_string_step(s@, i as int, pos as int, cur0, decoded, pos as int + 6);
                }
                pos = pos + 6;
            } else {
                return None;
            }
        } else if (c as u32) < 32 {
            return None;
        } else {
            let ghost cur0 = cur@;
            cur.push(c);
            proof {
                lemma_parse_string_step(s@, i as int, pos as int, cur0, c, pos as int + 1);
            }
            pos = pos + 1;
        }
    }
}

/// One consuming step of the string-literal parser keeps the continuation
/// relation: if parsing at `pos` is the character `c` followed by parsing at
/// `next`, the collected prefix may absorb `c`.
proof fn lemma_parse_string_step(
    s: Seq<char>,
    i: int,
    pos: int,
    cur0: Seq<char>,
    c: char,
    next: int,
)
    requires
        sparse_string(s, pos) == cons_str(c, sparse_string(s, next)),
        pos < next,
        (match sparse_string(s, pos) {
            Some(t) => sparse_string(s, i) == Some((cur0 + t.0, t.1)) && pos < t.1,
            None => sparse_string(s, i) is None,
        }),
    ensures
        (match sparse_string(s, next) {
            Some(t) => sparse_string(s, i) == Some((cur0.push(c) + t.0, t.1)) && next < t.1,
            None => sparse_string(s, i) is None,
        }),
{
    match sparse_string(s, next) {
        Some(t) => {
            assert(sparse_string(s, pos) == Some((seq![c] + t.0, t.1)));
            assert(cur0 + (seq![c] + t.0) =~= cur0.push(c) + t.0);
            lemma_sparse_string_advances(s, next);
        },
        None => {},
    }
}

/// A successful string parse always moves forward.
proof fn lemma_sparse_string_advances(s: Seq<char>, i: int)
    ensures
        sparse_string(s, i) matches Some(t) ==> i < t.1 <= s.len(),
    decreases s.len() - i,
{
    if 0 <= i < s.len() {
        if i + 1 <= s.len() {
            lemma_sparse_string_advances(s, i + 1);
        }
        if i + 2 <= s.len() {
            lemma_sparse_string_advances(s, i + 2);
        }
        if i + 6 <= s.len() {
            lemma_sparse_string_advances(s, i + 6);
        }
    }
}


/// Parse one value at `i`, with `fuel` bounding the nesting entered.
pub fn parse_jval(s: &Vec<char>, i: usize, fuel: usize) -> (r: Option<(Json, usize)>)
    requires
        i <= s@.len(),
    ensures
        match r {
            Some(t) => sparse_jval(s@, i as int, fuel as nat) == Some((jview(t.0), t.1 as int))
                && i < t.1 <= s@.len(),
            None => sparse_jval(s@, i as int, fuel as nat) is None,
        },
    decreases fuel, 0int,
{
    if fuel == 0 || i >= s.len() {
        return None;
    }
    let c = s[i];
    if c == 'n' {
        if s.len() - i >= 4 && s[i + 1] == 'u' && s[i + 2] == 'l' && s[i + 3] == 'l' {
            proof {
                assert(s@.subrange(i as int, i as int + 4) =~= seq!['n', 'u', 'l', 'l']);
            }
            Some((Json::Null, i + 4))
        } else {
            proof {
                if matches_at(s@, i as int, seq!['n', 'u', 'l', 'l']) {
                    assert(s@.subrange(i as int, i as int + 4)[1] == s@[i as int + 1]);
                    assert(s@.subrange(i as int, i as int + 4)[2] == s@[i as int + 2]);
                    assert(s@.subrange(i as int, i as int + 4)[3] == s@[i as int + 3]);
                }
            }
            None
        }
    } else if c == 't' {
        if s.len() - i >= 4 && s[i + 1] == 'r' && s[i + 2] == 'u' && s[i + 3] == 'e' {
            proof {
                assert(s@.subrange(i as int, i as int + 4) =~= seq!['t', 'r', 'u', 'e']);
            }
            Some((Json::Bool(true), i + 4))
        } else {
            proof {
                if matches_at(s@, i as int, seq!['t', 'r', 'u', 'e']) {
                    assert(s@.subrange(i as int, i as int + 4)[1] == s@[i as int + 1]);
                    assert(s@.subrange(i as int, i as int + 4)[2] == s@[i as int + 2]);
                    assert(s@.subrange(i as int, i as int + 4)[3] == s@[i as int + 3]);
                }
            }
            None
        }
    } else if c == 'f' {
        if s.len() - i >= 5 && s[i + 1] == 'a' && s[i + 2] == 'l' && s[i + 3] == 's' && s[i + 4]
            == 'e' {
            proof {
                assert(s@.subrange(i as int, i as int + 5) =~= seq!['f', 'a', 'l', 's', 'e']);
            }
            Some((Json::Bool(false), i + 5))
        } else {
            proof {
                if matches_at(s@, i as int, seq!['f', 'a', 'l', 's', 'e']) {
                    assert(s@.subrange(i as int, i as int + 5)[1] == s@[i as int + 1]);
                    assert(s@.subrange(i as int, i as int + 5)[2] == s@[i as int + 2]);
                    assert(s@.subrange(i as int, i as int + 5)[3] == s@[i as int + 3]);
                    assert(s@.subrange(i as int, i as int + 5)[4] == s@[i as int + 4]);
                }
            }
            None
        }
    } else if c == '"' {
        match parse_string(s, i + 1) {
            Some((lit, j)) => Some((Json::Str(lit), j)),
            None => None,
        }
    } else if c == '-' {
        match parse_digits(s, i + 1) {
            Some((mag, j)) => {
                if mag == 0 {
                    None
                } else {
                    Some((Json::Num { neg: true, mag }, j))
                }
            },
            None => None,
        }
    } else if is_digit_exec(c) {
        match parse_digits(s, i) {
            Some((mag, j)) => Some((Json::Num { neg: false, mag }, j)),
            None => None,
        }
    } else if c == '[' {
        if i + 1 < s.len() && s[i + 1] == ']' {
            let elems: Vec<Json> = Vec::new();
            proof {
                assert(elems@ =~= Seq::<Json>::empty());
                assert(jview_list(elems@) =~= Seq::<JVal>::empty());
            }
            Some((Json::Arr(elems), i + 2))
        } else {
            match parse_list(s, i + 1, fuel - 1) {
                Some((elems, j)) => Some((Json::Arr(elems), j)),
                None => None,
            }
        }
    } else if c == '{' {
        if i + 1 < s.len() && s[i + 1] == '}' {
            let props: Vec<(String, Json)> = Vec::new();
            proof {
                assert(props@ =~= Seq::<(String, Json)>::empty());
                assert(jview_props(props@) =~= Seq::<(Seq<char>, JVal)>::empty());
            }
            Some((Json::Obj(props), i + 2))
        } else {
            match parse_props(s, i + 1, fuel - 1) {
                Some((props, j)) => Some((Json::Obj(props), j)),
                None => None,
            }
        }
    } else {
        None
    }
}

/// Parse the elements of a non-empty array at `i` through the closing
/// bracket.
fn parse_list(s: &Vec<char>, i: usize, fuel: usize) -> (r: Option<(Vec<Json>, usize)>)
    requires
        i <= s@.len(),
    ensures
        match r {
            Some(t) => sparse_list(s@, i as int, fuel as nat) == Some((
                jview_list(t.0@),
                t.1 as int,
            )) && i < t.1 <= s@.len(),
            None => sparse_list(s@, i as int, fuel as nat) is None,
        },
    decreases fuel, 1int,
{
    if fuel == 0 {
        return None;
    }
    match parse_jval(s, i, fuel - 1) {
        None => None,
        Some((v, j)) => {
            if j < s.len() && s[j] == ',' {
                match parse_list(s, j + 1, fuel - 1) {
                    None => None,
                    Some((mut rest, k)) => {
                        let ghost rest0 = rest@;
                        rest.insert(0, v);
                        proof {
                            assert(rest@ =~= seq![rest@[0]] + rest0);
                            assert(rest@.drop_first() =~= rest0);
                            assert(jview_list(rest@) == seq![jview(rest@[0])] + jview_list(
                                rest0,
                            ));
                        }
                        Some((rest, k))
                    },
                }
            } else if j < s.len() && s[j] == ']' {
                let mut elems: Vec<Json> = Vec::new();
                elems.push(v);
                proof {
                    assert(elems@.drop_first() =~= Seq::<Json>::empty());
                    assert(jview_list(elems@) == seq![jview(elems@[0])] + jview_list(
                        Seq::<Json>::empty(),
                    ));
                    assert(seq![jview(elems@[0])] + jview_list(Seq::<Json>::empty()) =~= seq![
                        jview(elems@[0]),
                    ]);
                }
                Some((elems, j + 1))
            } else {
                None
            }
        },
    }
}

/// Parse the members of a non-empty object at `i` through the closing
/// brace.
fn parse_props(s: &Vec<char>, i: usize, fuel: usize) -> (r: Option<(Vec<(String, Json)>, usize)>)
    requires
        i <= s@.len(),
    ensures
        match r {
            Some(t) => sparse_props(s@, i as int, fuel as nat) == Some((
                jview_props(t.0@),
                t.1 as int,
            )) && i < t.1 <= s@.len(),
            None => sparse_props(s@, i as int, fuel as nat) is None,
        },
    decreases fuel, 1int,
{
    if fuel == 0 || i >= s.len() {
        return None;
    }
    if s[i] != '"' {
        return None;
    }
    match parse_string(s, i + 1) {
        None => None,
        Some((key, j)) => {
            if !(j < s.len() && s[j] == ':') {
                return None;
            }
            match parse_jval(s, j + 1, fuel - 1) {
                None => None,
                Some((v, k)) => {
                    if k < s.len() && s[k] == ',' {
                        match parse_props(s, k + 1, fuel - 1) {
                            None => None,
                            Some((mut rest, m)) => {
                                let ghost rest0 = rest@;
                                rest.insert(0, (key, v));
                                proof {
                                    assert(rest@ =~= seq![rest@[0]] + rest0);
                                    assert(rest@.drop_first() =~= rest0);
                                    assert(jview_props(rest@) == seq![
                                        (rest@[0].0@, jview(rest@[0].1)),
                                    ] + jview_props(rest0));
                                }
                                Some((rest, m))
                            },
                        }
                    } else if k < s.len() && s[k] == '}' {
                        let mut props: Vec<(String, Json)> = Vec::new();
                        props.push((key, v));
                        proof {
                            assert(props@.drop_first() =~= Seq::<(String, Json)>::empty());
                            assert(jview_props(props@) == seq![(props@[0].0@, jview(props@[0].1))]
                                + jview_props(Seq::<(String, Json)>::empty()));
                            assert(seq![(props@[0].0@, jview(props@[0].1))] + jview_props(
                                Seq::<(String, Json)>::empty(),
                            ) =~= seq![(props@[0].0@, jview(props@[0].1))]);
                        }
                        Some((props, k + 1))
                    } else {
                        None
                    }
                },
            }
        },
    }
}

/// Parse a whole document: succeeds exactly when the text is one value with
/// nothing after it.
pub fn decode_json(s: &str) -> (r: Option<Json>)
    requires
        s@.len() < usize::MAX,
    ensures
        match r {
            Some(j) => sparse_jval(s@, 0, (s@.len() + 1) as nat) == Some((
                jview(j),
                s@.len() as int,
            )),
            None => (match sparse_jval(s@, 0, (s@.len() + 1) as nat) {
                Some(t) => t.1 != s@.len(),
                None => true,
            }),
        },
{
    let chars = crate::strutil::str_to_chars(s);
    let fuel = chars.len() + 1;
    match parse_jval(&chars, 0, fuel) {
        Some((j, n)) => {
            if n == chars.len() {
                Some(j)
            } else {
                None
            }
        },
        None => None,
    }
}


/// Hexadecimal digit characters decode to their value.
proof fn lemma_hex_char_props(d: int)
    requires
        0 <= d <= 15,
    ensures
        spec_is_hex(hex_char(d)),
        hex_val(hex_char(d)) == d,
{
    if d < 10 {
        assert(hex_char(d) as u32 == 48 + d);
    } else {
        assert(hex_char(d) as u32 == 87 + d);
    }
}

/// A digit run bounded by a non-digit ends exactly there.
proof fn lemma_digit_run_end_exact(s: Seq<char>, i: int, e: int)
    requires
        0 <= i <= e <= s.len(),
        forall|t: int| i <= t < e ==> spec_is_digit(#[trigger] s[t]),
        e == s.len() || !spec_is_digit(s[e]),
    ensures
        spec_digit_run_end(s, i) == e,
    decreases e - i,
{
    if i < e {
        lemma_digit_run_end_exact(s, i + 1, e);
    }
}

/// Parsing the decimal rendering of `n` gives back `n`, provided what
/// follows does not begin with a digit.
proof fn lemma_parse_enc_digits(n: u64, pre: Seq<char>, rest: Seq<char>)
    requires
        rest.len() == 0 || !spec_is_digit(rest[0]),
    ensures
        sparse_digits(pre + spec_dec_u64(n) + rest, pre.len() as int) == Some((
            n,
            pre.len() + spec_dec_u64(n).len() as int,
        )),
{
    let t = pre + spec_dec_u64(n) + rest;
    let i = pre.len() as int;
    let e = i + spec_dec_u64(n).len() as int;
    lemma_dec_u64_digits(n);
    assert(forall|p: int| i <= p < e ==> spec_is_digit(#[trigger] t[p])) by {
        assert(forall|p: int|
            i <= p < e ==> #[trigger] t[p] == spec_dec_u64(n)[p - i]);
    }
    assert(e == t.len() || !spec_is_digit(t[e])) by {
        if e < t.len() {
            assert(t[e] == rest[0]);
        }
    }
    lemma_digit_run_end_exact(t, i, e);
    assert(t.subrange(i, e) =~= spec_dec_u64(n));
}

/// A control character survives the trip through its code point.
proof fn lemma_low_char_roundtrip(c: char)
    requires
        (c as u32) < 32,
    ensures
        (((c as u32) as u8) as char) == c,
{
}

/// Parsing an escaped, quoted string body gives back the string.
#[verifier::rlimit(100)]
proof fn lemma_parse_enc_string(str: Seq<char>, pre: Seq<char>, rest: Seq<char>)
    ensures
        sparse_string(pre + esc(str) + seq!['"'] + rest, pre.len() as int) == Some((
            str,
            pre.len() + esc(str).len() as int + 1,
        )),
    decreases str.len(),
{
    let t = pre + esc(str) + seq!['"'] + rest;
    let i = pre.len() as int;
    if str.len() == 0 {
        assert(esc(str) =~= Seq::<char>::empty());
        assert(t[i] == '"');
        assert(str =~= Seq::<char>::empty());
    } else {
        let c = str[0];
        let str1 = str.drop_first();
        assert(esc(str) == esc_char(c) + esc(str1));
        let pre1 = pre + esc_char(c);
        assert(t =~= pre1 + esc(str1) + seq!['"'] + rest);
        lemma_parse_enc_string(str1, pre1, rest);
        assert(seq![c] + str1 =~= str);
        if c == '"' {
            assert(t[i] == '\\');
            assert(t[i + 1] == '"');
            assert(pre1.len() == i + 2);
            assert(sparse_string(t, i) == cons_str('"', sparse_string(t, i + 2)));
        } else if c == '\\' {
            assert(t[i] == '\\');
            assert(t[i + 1] == '\\');
            assert(pre1.len() == i + 2);
            assert(sparse_string(t, i) == cons_str('\\', sparse_string(t, i + 2)));
        } else if (c as u32) < 32 {
            let h1 = (c as u32 / 16) as int;
            let h2 = (c as u32 % 16) as int;
            lemma_hex_char_props(h1);
            lemma_hex_char_props(h2);
            assert(t[i] == '\\');
            assert(t[i + 1] == 'u');
            assert(t[i + 2] == '0');
            assert(t[i + 3] == '0');
            assert(t[i + 4] == hex_char(h1));
            assert(t[i + 5] == hex_char(h2));
            assert(i + 5 < t.len());
            assert(h1 * 16 + h2 == c as u32) by (nonlinear_arith)
                requires
                    h1 == (c as u32 / 16) as int,
                    h2 == (c as u32 % 16) as int,
            ;
            assert(hex_val(t[i + 4]) * 16 + hex_val(t[i + 5]) == c as u32);
            lemma_low_char_roundtrip(c);
            assert((((hex_val(t[i + 4]) * 16 + hex_val(t[i + 5])) as u8) as char) == c);
            assert(pre1.len() == i + 6);
            assert(sparse_string(t, i) == cons_str(c, sparse_string(t, i + 6)));
        } else {
            assert(esc_char(c) =~= seq![c]);
            assert(t[i] == c);
            assert(pre1.len() == i + 1);
            assert(sparse_string(t, i) == cons_str(c, sparse_string(t, i + 1)));
        }
    }
}

/// The first character of a value's text marks its kind; in particular it is
/// never a separator or a closing bracket.
proof fn lemma_enc_first_char(v: JVal)
    ensures
        enc_jval(v).len() >= 1,
        enc_jval(v)[0] == 'n' || enc_jval(v)[0] == 't' || enc_jval(v)[0] == 'f' || enc_jval(v)[0]
            == '"' || enc_jval(v)[0] == '-' || spec_is_digit(enc_jval(v)[0]) || enc_jval(v)[0]
            == '[' || enc_jval(v)[0] == '{',
{
    match v {
        JVal::Num { neg, mag } => {
            lemma_dec_u64_digits(mag);
            if neg {
                assert(enc_jval(v)[0] == '-');
            } else {
                assert(enc_jval(v)[0] == spec_dec_u64(mag)[0]);
            }
        },
        _ => {},
    }
}

/// The text of a tree has at least as many characters as the tree has nodes.
proof fn lemma_enc_ge_size(v: JVal)
    ensures
        enc_jval(v).len() >= jval_size(v),
    decreases v,
{
    match v {
        JVal::Num { neg, mag } => {
            lemma_dec_u64_digits(mag);
        },
        JVal::Arr(elems) => {
            if elems.len() > 0 {
                lemma_enc_list_ge_size(elems);
            }
        },
        JVal::Obj(props) => {
            if props.len() > 0 {
                lemma_enc_props_ge_size(props);
            }
        },
        _ => {},
    }
}

/// Element texts and separators cover the elements' fuel, save one.
proof fn lemma_enc_list_ge_size(elems: Seq<JVal>)
    requires
        elems.len() >= 1,
    ensures
        enc_list(elems).len() + 1 >= jlist_size(elems),
    decreases elems,
{
    lemma_enc_ge_size(elems[0]);
    if elems.len() > 1 {
        lemma_enc_list_ge_size(elems.drop_first());
        assert(enc_list(elems).len() == enc_jval(elems[0]).len() + 1 + enc_list(
            elems.drop_first(),
        ).len());
    } else {
        assert(elems.drop_first().len() == 0);
        assert(jlist_size(elems.drop_first()) == 0);
        assert(enc_list(elems) == enc_jval(elems[0]));
    }
}

/// Member texts and separators cover the members' fuel, save one.
proof fn lemma_enc_props_ge_size(props: Seq<(Seq<char>, JVal)>)
    requires
        props.len() >= 1,
    ensures
        enc_props(props).len() + 1 >= jprops_size(props),
    decreases props,
{
    lemma_enc_ge_size(props[0].1);
    let head = seq!['"'] + esc(props[0].0) + seq!['"', ':'] + enc_jval(props[0].1);
    if props.len() > 1 {
        lemma_enc_props_ge_size(props.drop_first());
        assert(enc_props(props) == head + (seq![','] + enc_props(props.drop_first())));
        assert(enc_props(props).len() >= enc_jval(props[0].1).len() + 1 + enc_props(
            props.drop_first(),
        ).len());
    } else {
        assert(props.drop_first().len() == 0);
        assert(jprops_size(props.drop_first()) == 0);
        assert(enc_props(props) == head + Seq::<char>::empty());
        assert(enc_props(props).len() >= enc_jval(props[0].1).len());
    }
}

/// Parsing the text of a well-formed tree gives back the tree: the core of
/// the persistence round trip. `rest` may not begin with a digit (the text
/// of a number must end where the number does).
#[verifier::rlimit(100)]
pub proof fn lemma_parse_enc_jval(v: JVal, pre: Seq<char>, rest: Seq<char>, fuel: nat)
    requires
        jval_wf(v),
        fuel >= jval_size(v),
        rest.len() == 0 || !spec_is_digit(rest[0]),
    ensures
        sparse_jval(pre + enc_jval(v) + rest, pre.len() as int, fuel) == Some((
            v,
            pre.len() + enc_jval(v).len() as int,
        )),
    decreases fuel, 0int,
{
    let t = pre + enc_jval(v) + rest;
    let i = pre.len() as int;
    lemma_enc_first_char(v);
    assert(t[i] == enc_jval(v)[0]);
    assert(i < t.len());
    match v {
        JVal::Null => {
            assert(t.subrange(i, i + 4) =~= seq!['n', 'u', 'l', 'l']);
            assert(matches_at(t, i, seq!['n', 'u', 'l', 'l']));
        },
        JVal::Bool(b) => {
            if b {
                assert(t.subrange(i, i + 4) =~= seq!['t', 'r', 'u', 'e']);
                assert(matches_at(t, i, seq!['t', 'r', 'u', 'e']));
            } else {
                assert(t.subrange(i, i + 5) =~= seq!['f', 'a', 'l', 's', 'e']);
                assert(matches_at(t, i, seq!['f', 'a', 'l', 's', 'e']));
            }
        },
        JVal::Num { neg, mag } => {
            lemma_dec_u64_digits(mag);
            if neg {
                assert(t[i] == '-');
                assert(t =~= (pre + seq!['-']) + spec_dec_u64(mag) + rest);
                lemma_parse_enc_digits(mag, pre + seq!['-'], rest);
                assert(mag >= 1);
            } else {
                assert(spec_is_digit(t[i]));
                assert(t[i] != 'n' && t[i] != 't' && t[i] != 'f' && t[i] != '"' && t[i] != '-');
                lemma_parse_enc_digits(mag, pre, rest);
            }
        },
        JVal::Str(str) => {
            assert(t[i] == '"');
            assert(t =~= (pre + seq!['"']) + esc(str) + seq!['"'] + rest);
            lemma_parse_enc_string(str, pre + seq!['"'], rest);
        },
        JVal::Arr(elems) => {
            assert(t[i] == '[');
            if elems.len() == 0 {
                assert(enc_list(elems) =~= Seq::<char>::empty());
                assert(t[i + 1] == ']');
                assert(elems =~= Seq::<JVal>::empty());
            } else {
                lemma_enc_first_char(elems[0]);
                assert(enc_list(elems)[0] == enc_jval(elems[0])[0]);
                assert(t[i + 1] == enc_list(elems)[0]);
                assert(t[i + 1] != ']');
                assert(t =~= (pre + seq!['[']) + enc_list(elems) + seq![']'] + rest);
                lemma_parse_enc_list(elems, pre + seq!['['], rest, (fuel - 1) as nat);
            }
        },
        JVal::Obj(props) => {
            assert(t[i] == '{');
            if props.len() == 0 {
                assert(enc_props(props) =~= Seq::<char>::empty());
                assert(t[i + 1] == '}');
                assert(props =~= Seq::<(Seq<char>, JVal)>::empty());
            } else {
                assert(enc_props(props)[0] == '"');
                assert(t[i + 1] == '"');
                assert(t[i + 1] != '}');
                assert(t =~= (pre + seq!['{']) + enc_props(props) + seq!['}'] + rest);
                lemma_parse_enc_props(props, pre + seq!['{'], rest, (fuel - 1) as nat);
            }
        },
    }
}

/// Parsing the element texts of a non-empty array gives back the elements.
#[verifier::rlimit(100)]
proof fn lemma_parse_enc_list(elems: Seq<JVal>, pre: Seq<char>, rest: Seq<char>, fuel: nat)
    requires
        elems.len() >= 1,
        jlist_wf(elems),
        fuel >= jlist_size(elems),
    ensures
        sparse_list(pre + enc_list(elems) + seq![']'] + rest, pre.len() as int, fuel) == Some((
            elems,
            pre.len() + enc_list(elems).len() as int + 1,
        )),
    decreases fuel, 2int,
{
    let t = pre + enc_list(elems) + seq![']'] + rest;
    let i = pre.len() as int;
    let v0 = elems[0];
    if elems.len() == 1 {
        assert(enc_list(elems) == enc_jval(v0));
        assert(t =~= pre + enc_jval(v0) + (seq![']'] + rest));
        lemma_parse_enc_jval(v0, pre, seq![']'] + rest, (fuel - 1) as nat);
        let j = i + enc_jval(v0).len();
        assert(t[j] == ']');
        assert(t[j] != ',');
        assert(seq![v0] =~= elems);
    } else {
        assert(enc_list(elems) == enc_jval(v0) + seq![','] + enc_list(elems.drop_first()));
        let mid = pre + enc_jval(v0) + seq![','];
        assert(t =~= pre + enc_jval(v0) + (seq![','] + enc_list(elems.drop_first()) + seq![']']
            + rest));
        lemma_parse_enc_jval(
            v0,
            pre,
            seq![','] + enc_list(elems.drop_first()) + seq![']'] + rest,
            (fuel - 1) as nat,
        );
        let j = i + enc_jval(v0).len();
        assert(t[j] == ',');
        assert(t =~= mid + enc_list(elems.drop_first()) + seq![']'] + rest);
        lemma_parse_enc_list(elems.drop_first(), mid, rest, (fuel - 1) as nat);
        assert(seq![v0] + elems.drop_first() =~= elems);
    }
}

/// Parsing one `"key":value` member's text: the key, the colon, the value
/// and the character after it.
#[verifier::rlimit(100)]
proof fn lemma_parse_enc_prop_head(
    key: Seq<char>,
    v0: JVal,
    pre: Seq<char>,
    tail: Seq<char>,
    fuel: nat,
)
    requires
        jval_wf(v0),
        fuel >= jval_size(v0),
        tail.len() >= 1,
        !spec_is_digit(tail[0]),
    ensures
        ({
            let t = pre + (seq!['"'] + esc(key) + seq!['"', ':'] + enc_jval(v0)) + tail;
            let keyend = pre.len() + 2 + esc(key).len() as int;
            let j = keyend + 1 + enc_jval(v0).len() as int;
            &&& t[pre.len() as int] == '"'
            &&& sparse_string(t, pre.len() + 1 as int) == Some((key, keyend))
            &&& t[keyend] == ':'
            &&& sparse_jval(t, keyend + 1 as int, fuel) == Some((v0, j))
            &&& j < t.len() && t[j] == tail[0]
        }),
    decreases fuel, 1int,
{
    let t = pre + (seq!['"'] + esc(key) + seq!['"', ':'] + enc_jval(v0)) + tail;
    let keyend = pre.len() + 2 + esc(key).len() as int;
    let j = keyend + 1 + enc_jval(v0).len() as int;
    assert(t =~= (pre + seq!['"']) + esc(key) + seq!['"'] + (seq![':'] + enc_jval(v0) + tail));
    lemma_parse_enc_string(key, pre + seq!['"'], seq![':'] + enc_jval(v0) + tail);
    assert(t[keyend] == ':');
    assert(t =~= (pre + seq!['"'] + esc(key) + seq!['"', ':']) + enc_jval(v0) + tail);
    lemma_parse_enc_jval(v0, pre + seq!['"'] + esc(key) + seq!['"', ':'], tail, fuel);
    assert(t[j] == tail[0]);
    assert(t[pre.len() as int] == '"');
}

/// Parsing the member texts of a non-empty object gives back the members.
#[verifier::rlimit(100)]
proof fn lemma_parse_enc_props(
    props: Seq<(Seq<char>, JVal)>,
    pre: Seq<char>,
    rest: Seq<char>,
    fuel: nat,
)
    requires
        props.len() >= 1,
        jprops_wf(props),
        fuel >= jprops_size(props),
    ensures
        sparse_props(pre + enc_props(props) + seq!['}'] + rest, pre.len() as int, fuel) == Some((
            props,
            pre.len() + enc_props(props).len() as int + 1,
        )),
    decreases fuel, 2int,
{
    let t = pre + enc_props(props) + seq!['}'] + rest;
    let i = pre.len() as int;
    let key = props[0].0;
    let v0 = props[0].1;
    let head = seq!['"'] + esc(key) + seq!['"', ':'] + enc_jval(v0);
    let keyend = pre.len() + 2 + esc(key).len() as int;
    let j = keyend + 1 + enc_jval(v0).len() as int;
    if props.len() == 1 {
        assert(enc_props(props) == head + Seq::<char>::empty());
        assert(enc_props(props) =~= head);
        assert(t =~= pre + head + (seq!['}'] + rest));
        lemma_parse_enc_prop_head(key, v0, pre, seq!['}'] + rest, (fuel - 1) as nat);
        assert(t[j] == '}');
        assert(t[j] != ',');
        assert(seq![(key, v0)] =~= props);
    } else {
        assert(enc_props(props) == head + (seq![','] + enc_props(props.drop_first())));
        assert(t =~= pre + head + (seq![','] + enc_props(props.drop_first()) + seq!['}'] + rest));
        lemma_parse_enc_prop_head(
            key,
            v0,
            pre,
            seq![','] + enc_props(props.drop_first()) + seq!['}'] + rest,
            (fuel - 1) as nat,
        );
        assert(t[j] == ',');
        let mid = pre + head + seq![','];
        assert(t =~= mid + enc_props(props.drop_first()) + seq!['}'] + rest);
        lemma_parse_enc_props(props.drop_first(), mid, rest, (fuel - 1) as nat);
        assert(seq![(key, v0)] + props.drop_first() =~= props);
    }
}

/// Decoding what was encoded gives back the same tree: the persistence
/// round trip at the document level.
pub proof fn lemma_decode_encode(v: JVal)
    requires
        jval_wf(v),
    ensures
        sparse_jval(enc_jval(v), 0, (enc_jval(v).len() + 1) as nat) == Some((
            v,
            enc_jval(v).len() as int,
        )),
{
    lemma_enc_ge_size(v);
    assert(Seq::<char>::empty() + enc_jval(v) + Seq::<char>::empty() =~= enc_jval(v));
    lemma_parse_enc_jval(
        v,
        Seq::<char>::empty(),
        Seq::<char>::empty(),
        (enc_jval(v).len() + 1) as nat,
    );
}


/// The decimal rendering of `n`, as a string.
pub fn u64_to_string(n: u64) -> (r: String)
    ensures
        r@ == spec_dec_u64(n),
{
    let mut out: Vec<char> = Vec::new();
    write_u64(n, &mut out);
    proof {
        assert(out@ =~= spec_dec_u64(n));
    }
    crate::strutil::chars_to_string(&out)
}

/// The compact canonical text of a tree, as a string.
pub fn encode_json(j: &Json) -> (r: String)
    ensures
        r@ == enc_jval(jview(*j)),
{
    let mut out: Vec<char> = Vec::new();
    write_json(j, &mut out);
    proof {
        assert(out@ =~= enc_jval(jview(*j)));
    }
    crate::strutil::chars_to_string(&out)
}

} // verus!
