//! A small JSON document model with a verified compact encoder.
//!
//! Envelopes travel as JSON text frames; this module holds the value
//! tree that the codec encodes and decodes. Numbers are kept as their
//! source lexemes so that a document survives a decode/encode pass
//! unchanged and no floating point enters the library.

use vstd::prelude::*;

verus! {

broadcast use {vstd::string::group_string_axioms, vstd::std_specs::vec::group_vec_axioms,
    vstd::seq::group_seq_axioms, vstd::utf8::char_u32_cast};

/// A JSON document. `Num` holds the number's lexeme verbatim.
pub enum JsonValue {
    Null,
    Bool(bool),
    Num(String),
    Str(String),
    Arr(Vec<JsonValue>),
    Obj(Vec<(String, JsonValue)>),
}

/// The mathematical shape of a JSON document.
pub enum Json {
    Null,
    Bool(bool),
    Num(Seq<char>),
    Str(Seq<char>),
    Arr(Seq<Json>),
    Obj(Seq<(Seq<char>, Json)>),
}

/// The document a `JsonValue` stands for.
pub open spec fn jv(v: JsonValue) -> Json
    decreases v,
{
    match v {
        JsonValue::Null => Json::Null,
        JsonValue::Bool(b) => Json::Bool(b),
        JsonValue::Num(s) => Json::Num(s@),
        JsonValue::Str(s) => Json::Str(s@),
        JsonValue::Arr(es) => Json::Arr(jv_seq(es@)),
        JsonValue::Obj(ps) => Json::Obj(jv_pairs(ps@)),
    }
}

pub open spec fn jv_seq(es: Seq<JsonValue>) -> Seq<Json>
    decreases es,
{
    if es.len() == 0 {
        Seq::empty()
    } else {
        jv_seq(es.drop_last()).push(jv(es.last()))
    }
}

pub open spec fn jv_pairs(ps: Seq<(String, JsonValue)>) -> Seq<(Seq<char>, Json)>
    decreases ps,
{
    if ps.len() == 0 {
        Seq::empty()
    } else {
        jv_pairs(ps.drop_last()).push((ps.last().0@, jv(ps.last().1)))
    }
}

pub proof fn lemma_jv_seq(es: Seq<JsonValue>)
    ensures
        jv_seq(es).len() == es.len(),
        forall|i: int| 0 <= i < es.len() ==> jv_seq(es)[i] == jv(es[i]),
    decreases es.len(),
{
    if es.len() > 0 {
        lemma_jv_seq(es.drop_last());
    }
}

pub proof fn lemma_jv_pairs(ps: Seq<(String, JsonValue)>)
    ensures
        jv_pairs(ps).len() == ps.len(),
        forall|i: int| 0 <= i < ps.len() ==> jv_pairs(ps)[i] == (ps[i].0@, jv(ps[i].1)),
    decreases ps.len(),
{
    if ps.len() > 0 {
        lemma_jv_pairs(ps.drop_last());
    }
}

// ---------------------------------------------------------------------------
// Number lexemes
// ---------------------------------------------------------------------------

pub open spec fn digit(c: char) -> bool {
    '0' <= c && c <= '9'
}

/// Every character that can occur inside a JSON number.
pub open spec fn num_char(c: char) -> bool {
    digit(c) || c == '-' || c == '+' || c == '.' || c == 'e' || c == 'E'
}

/// First index at or after `i` that does not hold a digit.
pub open spec fn digit_run_end(t: Seq<char>, i: int) -> int
    decreases t.len() - i,
    when 0 <= i <= t.len()
{
    if i < t.len() && digit(t[i]) {
        digit_run_end(t, i + 1)
    } else {
        i
    }
}

/// Exponent part of the number grammar: end of input, or `e`/`E`, an
/// optional sign, and one or more digits running to the end.
pub open spec fn num_exp_ok(t: Seq<char>, i: int) -> bool {
    if i == t.len() {
        true
    } else if 0 <= i < t.len() && (t[i] == 'e' || t[i] == 'E') {
        let k = if i + 1 < t.len() && (t[i + 1] == '+' || t[i + 1] == '-') {
            i + 2
        } else {
            i + 1
        };
        digit_run_end(t, k) > k && digit_run_end(t, k) == t.len()
    } else {
        false
    }
}

/// Fraction part of the number grammar: optional `.` with one or more
/// digits, then the exponent part.
pub open spec fn num_frac_ok(t: Seq<char>, i: int) -> bool {
    if i == t.len() {
        true
    } else if 0 <= i < t.len() && t[i] == '.' {
        digit_run_end(t, i + 1) > i + 1 && num_exp_ok(t, digit_run_end(t, i + 1))
    } else {
        num_exp_ok(t, i)
    }
}

/// The JSON number grammar: optional minus, an integer part without a
/// leading zero, optional fraction, optional exponent.
pub open spec fn num_lexeme_wf(t: Seq<char>) -> bool {
    let i0: int = if t.len() > 0 && t[0] == '-' {
        1
    } else {
        0
    };
    &&& i0 < t.len()
    &&& digit(t[i0])
    &&& num_frac_ok(t, if t[i0] == '0' { i0 + 1 } else { digit_run_end(t, i0) })
}

pub proof fn lemma_digit_run(t: Seq<char>, i: int)
    requires
        0 <= i <= t.len(),
    ensures
        i <= digit_run_end(t, i) <= t.len(),
        forall|k: int| i <= k < digit_run_end(t, i) ==> digit(t[k]),
        digit_run_end(t, i) == t.len() || !digit(t[digit_run_end(t, i)]),
    decreases t.len() - i,
{
    if i < t.len() && digit(t[i]) {
        lemma_digit_run(t, i + 1);
    }
}

/// A well-formed number lexeme is non-empty, starts with a digit or a
/// minus, and holds only number characters.
pub proof fn lemma_num_wf_chars(t: Seq<char>)
    requires
        num_lexeme_wf(t),
    ensures
        t.len() > 0,
        digit(t[0]) || t[0] == '-',
        forall|k: int| 0 <= k < t.len() ==> num_char(t[k]),
{
    let i0: int = if t[0] == '-' {
        1
    } else {
        0
    };
    lemma_digit_run(t, i0);
    let i1: int = if t[i0] == '0' {
        i0 + 1
    } else {
        digit_run_end(t, i0)
    };
    assert(forall|k: int| i0 <= k < i1 ==> digit(t[k]));
    assert(num_frac_ok(t, i1));
    lemma_num_tail_chars_frac(t, i1);
}

proof fn lemma_num_tail_chars_frac(t: Seq<char>, i: int)
    requires
        0 <= i <= t.len(),
        num_frac_ok(t, i),
    ensures
        forall|k: int| i <= k < t.len() ==> num_char(t[k]),
{
    if i == t.len() {
    } else if t[i] == '.' {
        let j = digit_run_end(t, i + 1);
        lemma_digit_run(t, i + 1);
        lemma_num_tail_chars_exp(t, j);
    } else {
        lemma_num_tail_chars_exp(t, i);
    }
}

proof fn lemma_num_tail_chars_exp(t: Seq<char>, i: int)
    requires
        0 <= i <= t.len(),
        num_exp_ok(t, i),
    ensures
        forall|k: int| i <= k < t.len() ==> num_char(t[k]),
{
    if i == t.len() {
    } else {
        let k = if i + 1 < t.len() && (t[i + 1] == '+' || t[i + 1] == '-') {
            i + 2
        } else {
            i + 1
        };
        lemma_digit_run(t, k);
    }
}

// ---------------------------------------------------------------------------
// String escaping
// ---------------------------------------------------------------------------

/// The lower-case hexadecimal digit for a value below sixteen.
pub open spec fn hex16(n: int) -> char {
    if n == 0 { '0' } else if n == 1 { '1' } else if n == 2 { '2' } else if n == 3 { '3' }
    else if n == 4 { '4' } else if n == 5 { '5' } else if n == 6 { '6' } else if n == 7 { '7' }
    else if n == 8 { '8' } else if n == 9 { '9' } else if n == 10 { 'a' } else if n == 11 { 'b' }
    else if n == 12 { 'c' } else if n == 13 { 'd' } else if n == 14 { 'e' } else { 'f' }
}

/// How one character is written inside a JSON string.
pub open spec fn esc_char(c: char) -> Seq<char> {
    if c == '"' {
        seq!['\\', '"']
    } else if c == '\\' {
        seq!['\\', '\\']
    } else if c == '\n' {
        seq!['\\', 'n']
    } else if c == '\r' {
        seq!['\\', 'r']
    } else if c == '\t' {
        seq!['\\', 't']
    } else if c == '\u{8}' {
        seq!['\\', 'b']
    } else if c == '\u{c}' {
        seq!['\\', 'f']
    } else if (c as u32) < 0x20 {
        seq!['\\', 'u', '0', '0', hex16((c as u32) as int / 16), hex16((c as u32) as int % 16)]
    } else {
        seq![c]
    }
}

/// A string's body between its quotes.
pub open spec fn esc_str(t: Seq<char>) -> Seq<char>
    decreases t.len(),
{
    if t.len() == 0 {
        Seq::empty()
    } else {
        esc_char(t[0]) + esc_str(t.drop_first())
    }
}

/// Appending a character appends its escape.
pub proof fn lemma_esc_str_push(t: Seq<char>, c: char)
    ensures
        esc_str(t.push(c)) == esc_str(t) + esc_char(c),
    decreases t.len(),
{
    if t.len() == 0 {
        assert(t.push(c).len() == 1);
        assert(t.push(c)[0] == c);
        assert(t.push(c).drop_first() =~= Seq::<char>::empty());
        assert(esc_str(t.push(c)) == esc_char(c) + esc_str(Seq::<char>::empty()));
        assert(esc_char(c) + Seq::<char>::empty() =~= esc_char(c));
        assert(esc_str(t) + esc_char(c) =~= esc_char(c));
    } else {
        assert(t.push(c)[0] == t[0]);
        assert(t.push(c).drop_first() =~= t.drop_first().push(c));
        lemma_esc_str_push(t.drop_first(), c);
        assert(esc_str(t.push(c)) == esc_char(t[0]) + (esc_str(t.drop_first()) + esc_char(c)));
        assert(esc_str(t.push(c)) =~= esc_str(t) + esc_char(c));
    }
}

// ---------------------------------------------------------------------------
// The compact encoding
// ---------------------------------------------------------------------------

/// The compact text of a document: no whitespace, fields in the order
/// the document lists them.
pub open spec fn enc(j: Json) -> Seq<char>
    decreases j, 0int,
{
    match j {
        Json::Null => "null"@,
        Json::Bool(b) => if b {
            "true"@
        } else {
            "false"@
        },
        Json::Num(t) => t,
        Json::Str(t) => seq!['"'] + esc_str(t) + seq!['"'],
        Json::Arr(es) => seq!['['] + enc_elems(es, 0) + seq![']'],
        Json::Obj(ps) => seq!['{'] + enc_members(ps, 0) + seq!['}'],
    }
}

/// The elements of an array from index `i` on, comma-separated.
pub open spec fn enc_elems(es: Seq<Json>, i: int) -> Seq<char>
    decreases es, es.len() - i,
    when 0 <= i
{
    if i >= es.len() {
        Seq::empty()
    } else if i + 1 == es.len() {
        enc(es[i])
    } else {
        enc(es[i]) + seq![','] + enc_elems(es, i + 1)
    }
}

/// The members of an object from index `i` on, comma-separated.
pub open spec fn enc_members(ps: Seq<(Seq<char>, Json)>, i: int) -> Seq<char>
    decreases ps, ps.len() - i,
    when 0 <= i
{
    if i >= ps.len() {
        Seq::empty()
    } else if i + 1 == ps.len() {
        enc_member(ps[i])
    } else {
        enc_member(ps[i]) + seq![','] + enc_members(ps, i + 1)
    }
}

/// One `"key":value` member.
pub open spec fn enc_member(p: (Seq<char>, Json)) -> Seq<char>
    decreases p, 0int,
{
    seq!['"'] + esc_str(p.0) + seq!['"', ':'] + enc(p.1)
}

/// Which documents the encoder and decoder round-trip: every number
/// lexeme follows the JSON number grammar.
pub open spec fn json_wf(j: Json) -> bool
    decreases j,
{
    match j {
        Json::Null => true,
        Json::Bool(_) => true,
        Json::Num(t) => num_lexeme_wf(t),
        Json::Str(_) => true,
        Json::Arr(es) => forall|i: int| 0 <= i < es.len() ==> json_wf(#[trigger] es[i]),
        Json::Obj(ps) => forall|i: int| 0 <= i < ps.len() ==> json_wf(#[trigger] ps[i].1),
    }
}

// ---------------------------------------------------------------------------
// Executable encoder
// ---------------------------------------------------------------------------

/// Relies on `String::push`: appends exactly one character.
#[verifier::external_body]
pub fn push_char(s: &mut String, c: char)
    ensures
        final(s)@ == old(s)@.push(c),
{
    s.push(c);
}

/// The lower-case hexadecimal digit of `n`.
fn hex16_exec(n: u32) -> (c: char)
    requires
        n < 16,
    ensures
        c == hex16(n as int),
{
    match n {
        0 => '0', 1 => '1', 2 => '2', 3 => '3',
        4 => '4', 5 => '5', 6 => '6', 7 => '7',
        8 => '8', 9 => '9', 10 => 'a', 11 => 'b',
        12 => 'c', 13 => 'd', 14 => 'e', _ => 'f',
    }
}

/// Writes one string character in its escaped form.
fn push_esc_char(out: &mut String, c: char)
    ensures
        final(out)@ == old(out)@ + esc_char(c),
{
    if c == '"' {
        push_char(out, '\\');
        push_char(out, '"');
        assert(out@ =~= old(out)@ + esc_char(c));
    } else if c == '\\' {
        push_char(out, '\\');
        push_char(out, '\\');
        assert(out@ =~= old(out)@ + esc_char(c));
    } else if c == '\n' {
        push_char(out, '\\');
        push_char(out, 'n');
        assert(out@ =~= old(out)@ + esc_char(c));
    } else if c == '\r' {
        push_char(out, '\\');
        push_char(out, 'r');
        assert(out@ =~= old(out)@ + esc_char(c));
    } else if c == '\t' {
        push_char(out, '\\');
        push_char(out, 't');
        assert(out@ =~= old(out)@ + esc_char(c));
    } else if c == '\u{8}' {
        push_char(out, '\\');
        push_char(out, 'b');
        assert(out@ =~= old(out)@ + esc_char(c));
    } else if c == '\u{c}' {
        push_char(out, '\\');
        push_char(out, 'f');
        assert(out@ =~= old(out)@ + esc_char(c));
    } else if (c as u32) < 0x20 {
        let n: u32 = c as u32;
        push_char(out, '\\');
        push_char(out, 'u');
        push_char(out, '0');
        push_char(out, '0');
        push_char(out, hex16_exec(n / 16));
        push_char(out, hex16_exec(n % 16));
        assert(out@ =~= old(out)@ + esc_char(c));
    } else {
        push_char(out, c);
        assert(out@ =~= old(out)@ + esc_char(c));
    }
}

/// Writes a quoted, escaped JSON string.
fn push_json_string(out: &mut String, s: &str)
    ensures
        final(out)@ == old(out)@ + seq!['"'] + esc_str(s@) + seq!['"'],
{
    let ghost base: Seq<char> = out@;
    push_char(out, '"');
    let n = s.unicode_len();
    let mut i: usize = 0;
    while i < n
        invariant
            n == s@.len(),
            0 <= i <= n,
            out@ == base.push('"') + esc_str(s@.subrange(0, i as int)),
        decreases n - i,
    {
        let c = s.get_char(i);
        push_esc_char(out, c);
        proof {
            assert(s@.subrange(0, i + 1 as int) =~= s@.subrange(0, i as int).push(s@[i as int]));
            lemma_esc_str_push(s@.subrange(0, i as int), s@[i as int]);
        }
        i += 1;
    }
    push_char(out, '"');
    proof {
        assert(s@.subrange(0, n as int) =~= s@);
        assert(out@ =~= old(out)@ + seq!['"'] + esc_str(s@) + seq!['"']);
    }
}

/// Writes the compact text of `v` onto `out`.
pub fn enc_into(v: &JsonValue, out: &mut String)
    ensures
        final(out)@ == old(out)@ + enc(jv(*v)),
    decreases *v,
{
    match v {
        JsonValue::Null => {
            out.append("null");
        },
        JsonValue::Bool(b) => {
            if *b {
                out.append("true");
            } else {
                out.append("false");
            }
        },
        JsonValue::Num(t) => {
            out.append(t.as_str());
        },
        JsonValue::Str(t) => {
            push_json_string(out, t.as_str());
        },
        JsonValue::Arr(es) => {
            let ghost base: Seq<char> = out@;
            proof {
                lemma_jv_seq(es@);
            }
            push_char(out, '[');
            let n = es.len();
            let mut i: usize = 0;
            while i < n
                invariant
                    n == es@.len(),
                    0 <= i <= n,
                    jv_seq(es@).len() == n,
                    forall|k: int| 0 <= k < n ==> jv_seq(es@)[k] == jv(es@[k]),
                    *v == JsonValue::Arr(*es),
                    i == 0 ==> out@ == base.push('['),
                    i > 0 ==> out@ == base.push('[') + enc_elems_upto(jv_seq(es@), i as int),
                decreases n - i,
            {
                if i > 0 {
                    push_char(out, ',');
                }
                proof {
                    assert(*es == v->Arr_0);
                    assert(decreases_to!(*v => v->Arr_0));
                    assert(decreases_to!(v->Arr_0 => v->Arr_0@));
                    assert(decreases_to!(v->Arr_0@ => v->Arr_0@[i as int]));
                    assert(decreases_to!(*v => es@[i as int]));
                }
                enc_into(&es[i], out);
                proof {
                    lemma_enc_elems_upto(jv_seq(es@), i as int);
                    assert(out@ =~= base.push('[') + enc_elems_upto(jv_seq(es@), i + 1 as int));
                }
                i += 1;
            }
            push_char(out, ']');
            proof {
                lemma_enc_elems_upto_all(jv_seq(es@));
                assert(out@ =~= old(out)@ + enc(jv(*v)));
            }
        },
        JsonValue::Obj(ps) => {
            let ghost base: Seq<char> = out@;
            proof {
                lemma_jv_pairs(ps@);
            }
            push_char(out, '{');
            let n = ps.len();
            let mut i: usize = 0;
            while i < n
                invariant
                    n == ps@.len(),
                    0 <= i <= n,
                    jv_pairs(ps@).len() == n,
                    forall|k: int| 0 <= k < n ==> jv_pairs(ps@)[k] == (ps@[k].0@, jv(ps@[k].1)),
                    *v == JsonValue::Obj(*ps),
                    i == 0 ==> out@ == base.push('{'),
                    i > 0 ==> out@ == base.push('{') + enc_members_upto(jv_pairs(ps@), i as int),
                decreases n - i,
            {
                if i > 0 {
                    push_char(out, ',');
                }
                push_json_string(out, ps[i].0.as_str());
                push_char(out, ':');
                proof {
                    assert(*ps == v->Obj_0);
                    assert(decreases_to!(*v => v->Obj_0));
                    assert(decreases_to!(v->Obj_0 => v->Obj_0@));
                    assert(decreases_to!(v->Obj_0@ => v->Obj_0@[i as int]));
                    assert(decreases_to!(ps@[i as int] => ps@[i as int].1));
                    assert(decreases_to!(*v => ps@[i as int].1));
                }
                enc_into(&ps[i].1, out);
                proof {
                    lemma_enc_members_upto(jv_pairs(ps@), i as int);
                    assert(out@ =~= base.push('{') + enc_members_upto(jv_pairs(ps@), i + 1 as int));
                }
                i += 1;
            }
            push_char(out, '}');
            proof {
                lemma_enc_members_upto_all(jv_pairs(ps@));
                assert(out@ =~= old(out)@ + enc(jv(*v)));
            }
        },
    }
}

/// The first `i` elements of an array body, comma-separated.
pub open spec fn enc_elems_upto(es: Seq<Json>, i: int) -> Seq<char>
    decreases i,
    when 0 <= i <= es.len()
{
    if i <= 0 {
        Seq::empty()
    } else if i == 1 {
        enc(es[0])
    } else {
        enc_elems_upto(es, i - 1) + seq![','] + enc(es[i - 1])
    }
}

/// The first `i` members of an object body, comma-separated.
pub open spec fn enc_members_upto(ps: Seq<(Seq<char>, Json)>, i: int) -> Seq<char>
    decreases i,
    when 0 <= i <= ps.len()
{
    if i <= 0 {
        Seq::empty()
    } else if i == 1 {
        enc_member(ps[0])
    } else {
        enc_members_upto(ps, i - 1) + seq![','] + enc_member(ps[i - 1])
    }
}

proof fn lemma_enc_elems_upto(es: Seq<Json>, i: int)
    requires
        0 <= i < es.len(),
    ensures
        i == 0 ==> enc_elems_upto(es, 1) == enc(es[0]),
        i > 0 ==> enc_elems_upto(es, i + 1) == enc_elems_upto(es, i) + seq![','] + enc(es[i]),
{
}

proof fn lemma_enc_members_upto(ps: Seq<(Seq<char>, Json)>, i: int)
    requires
        0 <= i < ps.len(),
    ensures
        i == 0 ==> enc_members_upto(ps, 1) == enc_member(ps[0]),
        i > 0 ==> enc_members_upto(ps, i + 1) == enc_members_upto(ps, i) + seq![','] + enc_member(
            ps[i],
        ),
{
}

proof fn lemma_enc_elems_bridge(es: Seq<Json>, i: int)
    requires
        1 <= i <= es.len(),
    ensures
        enc_elems(es, 0) == enc_elems_upto(es, i) + (if i < es.len() {
            seq![','] + enc_elems(es, i)
        } else {
            Seq::<char>::empty()
        }),
    decreases i,
{
    if i == 1 {
        if es.len() == 1 {
            assert(enc_elems(es, 0) =~= enc_elems_upto(es, 1) + Seq::<char>::empty());
        } else {
            assert(enc_elems(es, 0) =~= enc_elems_upto(es, 1) + (seq![','] + enc_elems(es, 1)));
        }
    } else {
        lemma_enc_elems_bridge(es, i - 1);
        if i < es.len() {
            assert(enc_elems(es, 0) =~= enc_elems_upto(es, i) + (seq![','] + enc_elems(es, i)));
        } else {
            assert(enc_elems(es, 0) =~= enc_elems_upto(es, i) + Seq::<char>::empty());
        }
    }
}

/// The whole body equals the suffix form used by the decoder proofs.
proof fn lemma_enc_elems_upto_all(es: Seq<Json>)
    ensures
        enc_elems_upto(es, es.len() as int) == enc_elems(es, 0),
{
    if es.len() == 0 {
    } else {
        lemma_enc_elems_bridge(es, es.len() as int);
        assert(enc_elems_upto(es, es.len() as int) =~= enc_elems_upto(es, es.len() as int)
            + Seq::<char>::empty());
    }
}

proof fn lemma_enc_members_bridge(ps: Seq<(Seq<char>, Json)>, i: int)
    requires
        1 <= i <= ps.len(),
    ensures
        enc_members(ps, 0) == enc_members_upto(ps, i) + (if i < ps.len() {
            seq![','] + enc_members(ps, i)
        } else {
            Seq::<char>::empty()
        }),
    decreases i,
{
    if i == 1 {
        if ps.len() == 1 {
            assert(enc_members(ps, 0) =~= enc_members_upto(ps, 1) + Seq::<char>::empty());
        } else {
            assert(enc_members(ps, 0) =~= enc_members_upto(ps, 1) + (seq![','] + enc_members(
                ps,
                1,
            )));
        }
    } else {
        lemma_enc_members_bridge(ps, i - 1);
        if i < ps.len() {
            assert(enc_members(ps, 0) =~= enc_members_upto(ps, i) + (seq![','] + enc_members(
                ps,
                i,
            )));
        } else {
            assert(enc_members(ps, 0) =~= enc_members_upto(ps, i) + Seq::<char>::empty());
        }
    }
}

proof fn lemma_enc_members_upto_all(ps: Seq<(Seq<char>, Json)>)
    ensures
        enc_members_upto(ps, ps.len() as int) == enc_members(ps, 0),
{
    if ps.len() == 0 {
    } else {
        lemma_enc_members_bridge(ps, ps.len() as int);
        assert(enc_members_upto(ps, ps.len() as int) =~= enc_members_upto(ps, ps.len() as int)
            + Seq::<char>::empty());
    }
}

// ---------------------------------------------------------------------------
// The decoder, as a mathematical recursive-descent parser
// ---------------------------------------------------------------------------

pub open spec fn ws(c: char) -> bool {
    c == ' ' || c == '\n' || c == '\t' || c == '\r'
}

/// First index at or after `i` that holds no whitespace.
pub open spec fn skip_ws(s: Seq<char>, i: int) -> int
    decreases s.len() - i,
    when 0 <= i <= s.len()
{
    if i < s.len() && ws(s[i]) {
        skip_ws(s, i + 1)
    } else {
        i
    }
}

/// First index at or after `i` that holds no number character.
pub open spec fn num_run_end(s: Seq<char>, i: int) -> int
    decreases s.len() - i,
    when 0 <= i <= s.len()
{
    if i < s.len() && num_char(s[i]) {
        num_run_end(s, i + 1)
    } else {
        i
    }
}

pub open spec fn is_hex(c: char) -> bool {
    digit(c) || ('a' <= c && c <= 'f') || ('A' <= c && c <= 'F')
}

/// The value of one hexadecimal digit.
pub open spec fn hex_val(c: char) -> int {
    if digit(c) {
        c as u32 - '0' as u32
    } else if 'a' <= c && c <= 'f' {
        10 + (c as u32 - 'a' as u32)
    } else {
        10 + (c as u32 - 'A' as u32)
    }
}

/// What a single-character escape stands for.
pub open spec fn unesc(c: char) -> Option<char> {
    if c == '"' {
        Some('"')
    } else if c == '\\' {
        Some('\\')
    } else if c == '/' {
        Some('/')
    } else if c == 'b' {
        Some('\u{8}')
    } else if c == 'f' {
        Some('\u{c}')
    } else if c == 'n' {
        Some('\n')
    } else if c == 'r' {
        Some('\r')
    } else if c == 't' {
        Some('\t')
    } else {
        None
    }
}

/// Parses a string's body after the opening quote; yields the content
/// and the position after the closing quote.
pub open spec fn parse_string_body(s: Seq<char>, i: int) -> Option<(Seq<char>, int)>
    decreases s.len() - i, 0int,
    when 0 <= i <= s.len()
{
    if i >= s.len() {
        None
    } else if s[i] == '"' {
        Some((Seq::empty(), i + 1))
    } else if s[i] == '\\' {
        if i + 1 >= s.len() {
            None
        } else if s[i + 1] == 'u' {
            if i + 6 <= s.len() && is_hex(s[i + 2]) && is_hex(s[i + 3]) && is_hex(s[i + 4])
                && is_hex(s[i + 5]) {
                let n = hex_val(s[i + 2]) * 4096 + hex_val(s[i + 3]) * 256 + hex_val(s[i + 4]) * 16
                    + hex_val(s[i + 5]);
                if 0xD800 <= n < 0xE000 {
                    None
                } else {
                    match parse_string_body(s, i + 6) {
                        Some((t, k)) => Some((seq![(n as u32) as char] + t, k)),
                        None => None,
                    }
                }
            } else {
                None
            }
        } else {
            match unesc(s[i + 1]) {
                Some(d) => match parse_string_body(s, i + 2) {
                    Some((t, k)) => Some((seq![d] + t, k)),
                    None => None,
                },
                None => None,
            }
        }
    } else if (s[i] as u32) < 0x20 {
        None
    } else {
        match parse_string_body(s, i + 1) {
            Some((t, k)) => Some((seq![s[i]] + t, k)),
            None => None,
        }
    }
}

/// Parses one JSON value starting at `i`, leading whitespace allowed.
pub open spec fn parse_value(s: Seq<char>, i: int) -> Option<(Json, int)>
    decreases s.len() - i, 2int,
    when 0 <= i <= s.len()
{
    let j = skip_ws(s, i);
    if !(i <= j && j < s.len()) {
        None
    } else if s[j] == 'n' {
        if j + 4 <= s.len() && s.subrange(j, j + 4) == "null"@ {
            Some((Json::Null, j + 4))
        } else {
            None
        }
    } else if s[j] == 't' {
        if j + 4 <= s.len() && s.subrange(j, j + 4) == "true"@ {
            Some((Json::Bool(true), j + 4))
        } else {
            None
        }
    } else if s[j] == 'f' {
        if j + 5 <= s.len() && s.subrange(j, j + 5) == "false"@ {
            Some((Json::Bool(false), j + 5))
        } else {
            None
        }
    } else if s[j] == '"' {
        match parse_string_body(s, j + 1) {
            Some((t, k)) => Some((Json::Str(t), k)),
            None => None,
        }
    } else if s[j] == '[' {
        let k = skip_ws(s, j + 1);
        if j + 1 <= k && k < s.len() && s[k] == ']' {
            Some((Json::Arr(Seq::empty()), k + 1))
        } else {
            match parse_elems(s, j + 1) {
                Some((es, k2)) => Some((Json::Arr(es), k2)),
                None => None,
            }
        }
    } else if s[j] == '{' {
        let k = skip_ws(s, j + 1);
        if j + 1 <= k && k < s.len() && s[k] == '}' {
            Some((Json::Obj(Seq::empty()), k + 1))
        } else {
            match parse_members(s, j + 1) {
                Some((ps, k2)) => Some((Json::Obj(ps), k2)),
                None => None,
            }
        }
    } else if s[j] == '-' || digit(s[j]) {
        let e = num_run_end(s, j);
        if j <= e <= s.len() && num_lexeme_wf(s.subrange(j, e)) {
            Some((Json::Num(s.subrange(j, e)), e))
        } else {
            None
        }
    } else {
        None
    }
}

/// Parses the elements of a non-empty array, starting after `[` or a
/// comma; yields the elements and the position after `]`.
pub open spec fn parse_elems(s: Seq<char>, i: int) -> Option<(Seq<Json>, int)>
    decreases s.len() - i, 3int,
    when 0 <= i <= s.len()
{
    match parse_value(s, i) {
        Some((v, k)) => {
            if !(i < k && k <= s.len()) {
                None
            } else {
                let k2 = skip_ws(s, k);
                if !(k <= k2 && k2 < s.len()) {
                    None
                } else if s[k2] == ',' {
                    match parse_elems(s, k2 + 1) {
                        Some((es, k3)) => Some((seq![v] + es, k3)),
                        None => None,
                    }
                } else if s[k2] == ']' {
                    Some((seq![v], k2 + 1))
                } else {
                    None
                }
            }
        },
        None => None,
    }
}

/// Parses the members of a non-empty object, starting after `{` or a
/// comma; yields the members and the position after `}`.
pub open spec fn parse_members(s: Seq<char>, i: int) -> Option<(Seq<(Seq<char>, Json)>, int)>
    decreases s.len() - i, 3int,
    when 0 <= i <= s.len()
{
    let j = skip_ws(s, i);
    if !(i <= j && j < s.len() && s[j] == '"') {
        None
    } else {
        match parse_string_body(s, j + 1) {
            Some((key, k)) => {
                if !(j + 1 <= k && k <= s.len()) {
                    None
                } else {
                    let k2 = skip_ws(s, k);
                    if !(k <= k2 && k2 < s.len() && s[k2] == ':') {
                        None
                    } else {
                        match parse_value(s, k2 + 1) {
                            Some((v, m)) => {
                                if !(k2 + 1 <= m && m <= s.len()) {
                                    None
                                } else {
                                    let m2 = skip_ws(s, m);
                                    if !(m <= m2 && m2 < s.len()) {
                                        None
                                    } else if s[m2] == ',' {
                                        match parse_members(s, m2 + 1) {
                                            Some((ps, k3)) => Some((seq![(key, v)] + ps, k3)),
                                            None => None,
                                        }
                                    } else if s[m2] == '}' {
                                        Some((seq![(key, v)], m2 + 1))
                                    } else {
                                        None
                                    }
                                }
                            },
                            None => None,
                        }
                    }
                }
            },
            None => None,
        }
    }
}

/// Decodes a whole text: one value, with only whitespace around it.
pub open spec fn dec(s: Seq<char>) -> Option<Json> {
    match parse_value(s, 0) {
        Some((v, k)) => if 0 <= k <= s.len() && skip_ws(s, k) == s.len() {
            Some(v)
        } else {
            None
        },
        None => None,
    }
}


// ---------------------------------------------------------------------------
// The decoder inverts the encoder
// ---------------------------------------------------------------------------

proof fn lemma_hex16_val(m: int)
    requires
        0 <= m < 16,
    ensures
        hex_val(hex16(m)) == m,
        is_hex(hex16(m)),
{
}

/// The first character of an encoding: never whitespace, never a
/// closing bracket, comma or colon.
proof fn lemma_enc_first(j: Json)
    requires
        json_wf(j),
    ensures
        enc(j).len() > 0,
        !ws(enc(j)[0]),
        enc(j)[0] != ']',
        enc(j)[0] != '}',
        enc(j)[0] != ',',
        enc(j)[0] != ':',
{
    match j {
        Json::Null => {
            reveal_strlit("null");
        },
        Json::Bool(b) => {
            reveal_strlit("true");
            reveal_strlit("false");
        },
        Json::Num(t) => {
            lemma_num_wf_chars(t);
        },
        Json::Str(t) => {
            assert(enc(j)[0] == '"');
        },
        Json::Arr(es) => {
            assert(enc(j)[0] == '[');
        },
        Json::Obj(ps) => {
            assert(enc(j)[0] == '{');
        },
    }
}

/// A run of number characters bounded on the right stops exactly at
/// the bound.
proof fn lemma_num_run_exact(s: Seq<char>, i: int, ln: int)
    requires
        0 <= i,
        0 <= ln,
        i + ln <= s.len(),
        forall|k: int| 0 <= k < ln ==> num_char(#[trigger] s[i + k]),
        i + ln == s.len() || !num_char(s[i + ln]),
    ensures
        num_run_end(s, i) == i + ln,
    decreases ln,
{
    if ln == 0 {
    } else {
        assert(num_char(s[i + 0]));
        assert forall|k: int| 0 <= k < ln - 1 implies num_char(#[trigger] s[(i + 1) + k]) by {
            assert(num_char(s[i + (k + 1)]));
        }
        lemma_num_run_exact(s, i + 1, ln - 1);
    }
}

/// Parsing an escaped string body with its closing quote yields the
/// original text.
proof fn lemma_parse_esc(t: Seq<char>, s: Seq<char>, i: int)
    requires
        0 <= i,
        i + esc_str(t).len() + 1 <= s.len(),
        s.subrange(i, i + esc_str(t).len() as int) == esc_str(t),
        s[i + esc_str(t).len()] == '"',
    ensures
        parse_string_body(s, i) == Some((t, i + esc_str(t).len() + 1)),
    decreases t.len(),
{
    if t.len() == 0 {
        assert(s[i] == '"');
        assert(t =~= Seq::<char>::empty());
    } else {
        let c = t[0];
        let e = esc_char(c);
        let rest = esc_str(t.drop_first());
        assert(esc_str(t) == e + rest);
        assert forall|m: int| 0 <= m < esc_str(t).len() implies #[trigger] s[i + m] == esc_str(
            t,
        )[m] by {
            assert(s.subrange(i, i + esc_str(t).len() as int)[m] == esc_str(t)[m]);
        }
        assert forall|m: int| 0 <= m < e.len() implies #[trigger] s[i + m] == e[m] by {
            assert((e + rest)[m] == e[m]);
        }
        assert(s[i + 0] == e[0]);
        assert(s[i] == e[0]);
        let i2 = i + e.len();
        assert(s.subrange(i2, i2 + rest.len() as int) =~= rest) by {
            assert forall|m: int| 0 <= m < rest.len() implies s.subrange(
                i2,
                i2 + rest.len() as int,
            )[m] == rest[m] by {
                assert(s[i + (e.len() + m)] == esc_str(t)[e.len() + m]);
                assert((e + rest)[e.len() + m] == rest[m]);
            }
        }
        assert(s[i2 + rest.len()] == '"');
        lemma_parse_esc(t.drop_first(), s, i2);
        if c == '"' {
            assert(s[i] == '\\' && s[i + 1] == '"');
            assert(seq!['"'] + t.drop_first() =~= t);
        } else if c == '\\' {
            assert(s[i] == '\\' && s[i + 1] == '\\');
            assert(seq!['\\'] + t.drop_first() =~= t);
        } else if c == '\n' {
            assert(s[i] == '\\' && s[i + 1] == 'n');
            assert(seq!['\n'] + t.drop_first() =~= t);
        } else if c == '\r' {
            assert(s[i] == '\\' && s[i + 1] == 'r');
            assert(seq!['\r'] + t.drop_first() =~= t);
        } else if c == '\t' {
            assert(s[i] == '\\' && s[i + 1] == 't');
            assert(seq!['\t'] + t.drop_first() =~= t);
        } else if c == '\u{8}' {
            assert(s[i] == '\\' && s[i + 1] == 'b');
            assert(seq!['\u{8}'] + t.drop_first() =~= t);
        } else if c == '\u{c}' {
            assert(s[i] == '\\' && s[i + 1] == 'f');
            assert(seq!['\u{c}'] + t.drop_first() =~= t);
        } else if (c as u32) < 0x20 {
            let hi = (c as u32) as int / 16;
            let lo = (c as u32) as int % 16;
            assert(s[i] == '\\' && s[i + 1] == 'u' && s[i + 2] == '0' && s[i + 3] == '0');
            assert(s[i + 4] == hex16(hi) && s[i + 5] == hex16(lo));
            lemma_hex16_val(hi);
            lemma_hex16_val(lo);
            assert(hex_val(s[i + 2]) == 0 && hex_val(s[i + 3]) == 0);
            let n = hex_val(s[i + 2]) * 4096 + hex_val(s[i + 3]) * 256 + hex_val(s[i + 4]) * 16
                + hex_val(s[i + 5]);
            assert(n == c as u32) by {
                vstd::arithmetic::div_mod::lemma_fundamental_div_mod((c as u32) as int, 16);
            }
            assert((n as u32) as char == c) by {
                assert(n as u32 == c as u32);
                vstd::utf8::char_u32_cast(c, n as u32);
            }
            assert(seq![c] + t.drop_first() =~= t);
        } else {
            assert(e == seq![c]);
            assert(s[i] == c);
            assert(s[i] != '"' && s[i] != '\\' && (s[i] as u32) >= 0x20);
            assert(seq![c] + t.drop_first() =~= t);
        }
    }
}


/// Parsing the encoding of any element suffix of an array, with the
/// closing bracket behind it, yields exactly those elements.
proof fn lemma_parse_elems_enc(es: Seq<Json>, k: int, s: Seq<char>, i: int)
    requires
        0 <= k < es.len(),
        forall|m: int| 0 <= m < es.len() ==> json_wf(#[trigger] es[m]),
        0 <= i,
        i + enc_elems(es, k).len() + 1 <= s.len(),
        s.subrange(i, i + enc_elems(es, k).len() as int) == enc_elems(es, k),
        s[i + enc_elems(es, k).len()] == ']',
    ensures
        parse_elems(s, i) == Some(
            (es.subrange(k, es.len() as int), i + enc_elems(es, k).len() + 1),
        ),
    decreases es, es.len() - k,
{
    let body = enc_elems(es, k);
    let e0 = enc(es[k]);
    assert(json_wf(es[k]));
    lemma_enc_first(es[k]);
    assert forall|m: int| 0 <= m < body.len() implies #[trigger] s[i + m] == body[m] by {
        assert(s.subrange(i, i + body.len() as int)[m] == body[m]);
    }
    assert(s.subrange(i, i + e0.len() as int) =~= e0) by {
        assert forall|m: int| 0 <= m < e0.len() implies s.subrange(i, i + e0.len() as int)[m]
            == e0[m] by {
            assert(s[i + m] == body[m]);
        }
    }
    if k + 1 == es.len() {
        assert(body == e0);
        lemma_parse_enc(es[k], s, i);
        let p = i + e0.len();
        assert(s[p] == ']');
        assert(skip_ws(s, p) == p);
        assert(seq![es[k]] =~= es.subrange(k, es.len() as int));
    } else {
        let rest = enc_elems(es, k + 1);
        assert(body == e0 + seq![','] + rest);
        let p = i + e0.len();
        assert(s[i + e0.len()] == body[e0.len() as int]);
        assert(body[e0.len() as int] == ',');
        lemma_parse_enc(es[k], s, i);
        assert(skip_ws(s, p) == p);
        let i2 = p + 1;
        assert(s.subrange(i2, i2 + rest.len() as int) =~= rest) by {
            assert forall|m: int| 0 <= m < rest.len() implies s.subrange(
                i2,
                i2 + rest.len() as int,
            )[m] == rest[m] by {
                assert(s[i + (e0.len() + 1 + m)] == body[e0.len() + 1 + m]);
                assert(body[e0.len() + 1 + m] == rest[m]);
            }
        }
        assert(i2 + rest.len() == i + body.len());
        assert(s[i2 + rest.len()] == ']');
        lemma_parse_elems_enc(es, k + 1, s, i2);
        assert(seq![es[k]] + es.subrange(k + 1, es.len() as int) =~= es.subrange(
            k,
            es.len() as int,
        ));
    }
}

/// Parsing the encoding of any member suffix of an object, with the
/// closing brace behind it, yields exactly those members.
proof fn lemma_parse_members_enc(ps: Seq<(Seq<char>, Json)>, k: int, s: Seq<char>, i: int)
    requires
        0 <= k < ps.len(),
        forall|m: int| 0 <= m < ps.len() ==> json_wf(#[trigger] ps[m].1),
        0 <= i,
        i + enc_members(ps, k).len() + 1 <= s.len(),
        s.subrange(i, i + enc_members(ps, k).len() as int) == enc_members(ps, k),
        s[i + enc_members(ps, k).len()] == '}',
    ensures
        parse_members(s, i) == Some(
            (ps.subrange(k, ps.len() as int), i + enc_members(ps, k).len() + 1),
        ),
    decreases ps, ps.len() - k,
{
    let body = enc_members(ps, k);
    let key = ps[k].0;
    let ek = esc_str(key);
    let ev = enc(ps[k].1);
    let m0 = enc_member(ps[k]);
    assert(m0 == seq!['"'] + ek + seq!['"', ':'] + ev);
    assert(m0.len() == ek.len() + ev.len() + 3);
    assert(json_wf(ps[k].1));
    lemma_enc_first(ps[k].1);
    assert forall|m: int| 0 <= m < body.len() implies #[trigger] s[i + m] == body[m] by {
        assert(s.subrange(i, i + body.len() as int)[m] == body[m]);
    }
    assert forall|m: int| 0 <= m < m0.len() implies #[trigger] s[i + m] == m0[m] by {
        if k + 1 == ps.len() {
            assert(body == m0);
        } else {
            assert(body == m0 + seq![','] + enc_members(ps, k + 1));
            assert(body[m] == m0[m]);
        }
    }
    assert(s[i + 0] == m0[0]);
    assert(s[i] == '"');
    assert(skip_ws(s, i) == i);
    // the escaped key with its closing quote
    assert(s.subrange(i + 1, i + 1 + ek.len() as int) =~= ek) by {
        assert forall|m: int| 0 <= m < ek.len() implies s.subrange(
            i + 1,
            i + 1 + ek.len() as int,
        )[m] == ek[m] by {
            assert(s[i + (1 + m)] == m0[1 + m]);
            assert(m0[1 + m] == ek[m]);
        }
    }
    let ekl = ek.len() as int;
    assert(s[i + (1 + ekl)] == m0[1 + ekl]);
    assert(m0[1 + ekl] == '"');
    lemma_parse_esc(key, s, i + 1);
    let pc = i + 2 + ekl;
    assert(s[i + (2 + ekl)] == m0[2 + ekl]);
    assert(m0[2 + ekl] == ':');
    assert(skip_ws(s, pc) == pc);
    // the value
    let pv = pc + 1;
    assert(s.subrange(pv, pv + ev.len() as int) =~= ev) by {
        assert forall|m: int| 0 <= m < ev.len() implies s.subrange(
            pv,
            pv + ev.len() as int,
        )[m] == ev[m] by {
            assert(s[i + (3 + ek.len() + m)] == m0[3 + ek.len() as int + m]);
            assert(m0[3 + ek.len() as int + m] == ev[m]);
        }
    }
    let pe = pv + ev.len();
    assert(pe == i + m0.len());
    if k + 1 == ps.len() {
        assert(body == m0);
        assert(s[pe] == '}');
        lemma_parse_enc(ps[k].1, s, pv);
        assert(skip_ws(s, pe) == pe);
        assert(seq![(key, ps[k].1)] =~= ps.subrange(k, ps.len() as int)) by {
            assert(ps[k] == (ps[k].0, ps[k].1));
        }
    } else {
        let rest = enc_members(ps, k + 1);
        assert(body == m0 + seq![','] + rest);
        assert(s[i + m0.len()] == body[m0.len() as int]);
        assert(body[m0.len() as int] == ',');
        lemma_parse_enc(ps[k].1, s, pv);
        assert(skip_ws(s, pe) == pe);
        let i2 = pe + 1;
        assert(s.subrange(i2, i2 + rest.len() as int) =~= rest) by {
            assert forall|m: int| 0 <= m < rest.len() implies s.subrange(
                i2,
                i2 + rest.len() as int,
            )[m] == rest[m] by {
                assert(s[i + (m0.len() + 1 + m)] == body[m0.len() + 1 + m]);
                assert(body[m0.len() + 1 + m] == rest[m]);
            }
        }
        assert(i2 + rest.len() == i + body.len());
        assert(s[i2 + rest.len()] == '}');
        lemma_parse_members_enc(ps, k + 1, s, i2);
        assert(seq![(key, ps[k].1)] + ps.subrange(k + 1, ps.len() as int) =~= ps.subrange(
            k,
            ps.len() as int,
        )) by {
            assert(ps[k] == (ps[k].0, ps[k].1));
        }
    }
}

/// Parsing an encoding embedded in a larger text, with no number
/// character immediately behind it, yields the encoded document.
pub proof fn lemma_parse_enc(j: Json, s: Seq<char>, i: int)
    requires
        json_wf(j),
        0 <= i,
        i + enc(j).len() <= s.len(),
        s.subrange(i, i + enc(j).len() as int) == enc(j),
        i + enc(j).len() == s.len() || !num_char(s[i + enc(j).len()]),
    ensures
        parse_value(s, i) == Some((j, i + enc(j).len() as int)),
    decreases j, 0int,
{
    let ln = enc(j).len() as int;
    assert forall|m: int| 0 <= m < ln implies #[trigger] s[i + m] == enc(j)[m] by {
        assert(s.subrange(i, i + ln)[m] == enc(j)[m]);
    }
    lemma_enc_first(j);
    assert(s[i + 0] == enc(j)[0]);
    assert(s[i] == enc(j)[0]);
    assert(skip_ws(s, i) == i);
    match j {
        Json::Null => {
            reveal_strlit("null");
            assert(s[i] == 'n');
            assert(s.subrange(i, i + 4) == "null"@);
        },
        Json::Bool(b) => {
            reveal_strlit("null");
            reveal_strlit("true");
            reveal_strlit("false");
            if b {
                assert(s[i] == 't');
                assert(s.subrange(i, i + 4) == "true"@);
            } else {
                assert(s[i] == 'f');
                assert(s.subrange(i, i + 5) == "false"@);
            }
        },
        Json::Str(t) => {
            assert(s[i] == '"');
            assert(s.subrange(i + 1, i + 1 + esc_str(t).len() as int) =~= esc_str(t)) by {
                assert forall|m: int| 0 <= m < esc_str(t).len() implies s.subrange(
                    i + 1,
                    i + 1 + esc_str(t).len() as int,
                )[m] == esc_str(t)[m] by {
                    assert(s[i + (1 + m)] == enc(j)[1 + m]);
                    assert(enc(j)[1 + m] == esc_str(t)[m]);
                }
            }
            assert(s[i + (1 + esc_str(t).len())] == enc(j)[1 + esc_str(t).len() as int]);
            assert(enc(j)[1 + esc_str(t).len() as int] == '"');
            lemma_parse_esc(t, s, i + 1);
        },
        Json::Num(t) => {
            lemma_num_wf_chars(t);
            assert(enc(j) == t);
            assert(s[i] == t[0]);
            assert forall|m: int| 0 <= m < t.len() implies num_char(#[trigger] s[i + m]) by {
                assert(s[i + m] == t[m]);
            }
            lemma_num_run_exact(s, i, t.len() as int);
            assert(s.subrange(i, i + t.len() as int) == t);
        },
        Json::Arr(es) => {
            assert(s[i] == '[');
            if es.len() == 0 {
                assert(enc(j) =~= seq!['[', ']']);
                assert(s[i + 1] == ']');
                assert(skip_ws(s, i + 1) == i + 1);
                assert(Seq::<Json>::empty() =~= es);
                assert(Json::Arr(Seq::<Json>::empty()) == j);
            } else {
                let body = enc_elems(es, 0);
                assert(json_wf(es[0]));
                lemma_enc_first(es[0]);
                assert(body[0] == enc(es[0])[0]);
                assert(s[i + 1] == enc(j)[1]);
                assert(enc(j)[1] == body[0]);
                assert(skip_ws(s, i + 1) == i + 1);
                assert(s[i + 1] != ']');
                assert(s.subrange(i + 1, i + 1 + body.len() as int) =~= body) by {
                    assert forall|m: int| 0 <= m < body.len() implies s.subrange(
                        i + 1,
                        i + 1 + body.len() as int,
                    )[m] == body[m] by {
                        assert(s[i + (1 + m)] == enc(j)[1 + m]);
                        assert(enc(j)[1 + m] == body[m]);
                    }
                }
                assert(s[i + (1 + body.len())] == enc(j)[1 + body.len() as int]);
                assert(enc(j)[1 + body.len() as int] == ']');
                lemma_parse_elems_enc(es, 0, s, i + 1);
                assert(es.subrange(0, es.len() as int) =~= es);
            }
        },
        Json::Obj(ps) => {
            assert(s[i] == '{');
            if ps.len() == 0 {
                assert(enc(j) =~= seq!['{', '}']);
                assert(s[i + 1] == '}');
                assert(skip_ws(s, i + 1) == i + 1);
                assert(Seq::<(Seq<char>, Json)>::empty() =~= ps);
                assert(Json::Obj(Seq::<(Seq<char>, Json)>::empty()) == j);
            } else {
                let body = enc_members(ps, 0);
                assert(json_wf(ps[0].1));
                assert(enc_member(ps[0])[0] == '"');
                assert(body[0] == '"');
                assert(s[i + 1] == enc(j)[1]);
                assert(enc(j)[1] == body[0]);
                assert(skip_ws(s, i + 1) == i + 1);
                assert(s[i + 1] != '}');
                assert(s.subrange(i + 1, i + 1 + body.len() as int) =~= body) by {
                    assert forall|m: int| 0 <= m < body.len() implies s.subrange(
                        i + 1,
                        i + 1 + body.len() as int,
                    )[m] == body[m] by {
                        assert(s[i + (1 + m)] == enc(j)[1 + m]);
                        assert(enc(j)[1 + m] == body[m]);
                    }
                }
                assert(s[i + (1 + body.len())] == enc(j)[1 + body.len() as int]);
                assert(enc(j)[1 + body.len() as int] == '}');
                lemma_parse_members_enc(ps, 0, s, i + 1);
                assert(ps.subrange(0, ps.len() as int) =~= ps);
            }
        },
    }
}

/// Decoding the encoding of a well-formed document gives it back.
pub proof fn lemma_json_round_trip(j: Json)
    requires
        json_wf(j),
    ensures
        dec(enc(j)) == Some(j),
{
    let s = enc(j);
    assert(s.subrange(0, s.len() as int) =~= s);
    lemma_parse_enc(j, s, 0);
    assert(skip_ws(s, s.len() as int) == s.len());
}


// ---------------------------------------------------------------------------
// Executable decoder
// ---------------------------------------------------------------------------

fn ws_exec(c: char) -> (r: bool)
    ensures
        r == ws(c),
{
    c == ' ' || c == '\n' || c == '\t' || c == '\r'
}

fn digit_exec(c: char) -> (r: bool)
    ensures
        r == digit(c),
{
    '0' <= c && c <= '9'
}

fn num_char_exec(c: char) -> (r: bool)
    ensures
        r == num_char(c),
{
    digit_exec(c) || c == '-' || c == '+' || c == '.' || c == 'e' || c == 'E'
}

fn is_hex_exec(c: char) -> (r: bool)
    ensures
        r == is_hex(c),
{
    digit_exec(c) || ('a' <= c && c <= 'f') || ('A' <= c && c <= 'F')
}

fn hex_val_exec(c: char) -> (r: u32)
    requires
        is_hex(c),
    ensures
        r as int == hex_val(c),
        r < 16,
{
    if '0' <= c && c <= '9' {
        c as u32 - '0' as u32
    } else if 'a' <= c && c <= 'f' {
        10 + (c as u32 - 'a' as u32)
    } else {
        10 + (c as u32 - 'A' as u32)
    }
}

fn unesc_exec(c: char) -> (r: Option<char>)
    ensures
        r == unesc(c),
{
    if c == '"' {
        Some('"')
    } else if c == '\\' {
        Some('\\')
    } else if c == '/' {
        Some('/')
    } else if c == 'b' {
        Some('\u{8}')
    } else if c == 'f' {
        Some('\u{c}')
    } else if c == 'n' {
        Some('\n')
    } else if c == 'r' {
        Some('\r')
    } else if c == 't' {
        Some('\t')
    } else {
        None
    }
}

/// Relies on `char::from_u32`: the scalar value with this code.
#[verifier::external_body]
fn char_from_code(n: u32) -> (c: char)
    requires
        n < 0xD800 || (0xE000 <= n && n <= 0x10FFFF),
    ensures
        c as u32 == n,
{
    char::from_u32(n).unwrap_or(' ')
}

fn skip_ws_exec(s: &Vec<char>, i: usize) -> (r: usize)
    requires
        i <= s.len(),
    ensures
        r as int == skip_ws(s@, i as int),
        i <= r <= s.len(),
{
    let mut j = i;
    while j < s.len() && ws_exec(s[j])
        invariant
            i <= j <= s.len(),
            skip_ws(s@, i as int) == skip_ws(s@, j as int),
        decreases s.len() - j,
    {
        j += 1;
    }
    j
}

fn num_run_end_exec(s: &Vec<char>, i: usize) -> (r: usize)
    requires
        i <= s.len(),
    ensures
        r as int == num_run_end(s@, i as int),
        i <= r <= s.len(),
{
    let mut j = i;
    while j < s.len() && num_char_exec(s[j])
        invariant
            i <= j <= s.len(),
            num_run_end(s@, i as int) == num_run_end(s@, j as int),
        decreases s.len() - j,
    {
        j += 1;
    }
    j
}

fn digit_run_end_exec(t: &Vec<char>, i: usize) -> (r: usize)
    requires
        i <= t.len(),
    ensures
        r as int == digit_run_end(t@, i as int),
        i <= r <= t.len(),
{
    let mut j = i;
    while j < t.len() && digit_exec(t[j])
        invariant
            i <= j <= t.len(),
            digit_run_end(t@, i as int) == digit_run_end(t@, j as int),
        decreases t.len() - j,
    {
        j += 1;
    }
    j
}

fn num_exp_ok_exec(t: &Vec<char>, i: usize) -> (r: bool)
    requires
        i <= t.len(),
    ensures
        r == num_exp_ok(t@, i as int),
{
    if i == t.len() {
        true
    } else if t[i] == 'e' || t[i] == 'E' {
        let k: usize = if i + 1 < t.len() && (t[i + 1] == '+' || t[i + 1] == '-') {
            i + 2
        } else {
            i + 1
        };
        let j = digit_run_end_exec(t, k);
        j > k && j == t.len()
    } else {
        false
    }
}

fn num_frac_ok_exec(t: &Vec<char>, i: usize) -> (r: bool)
    requires
        i <= t.len(),
    ensures
        r == num_frac_ok(t@, i as int),
{
    if i == t.len() {
        true
    } else if t[i] == '.' {
        let j = digit_run_end_exec(t, i + 1);
        j > i + 1 && num_exp_ok_exec(t, j)
    } else {
        num_exp_ok_exec(t, i)
    }
}

/// Checks a number lexeme against the JSON number grammar.
pub fn num_lexeme_ok(t: &Vec<char>) -> (r: bool)
    ensures
        r == num_lexeme_wf(t@),
{
    let i0: usize = if t.len() > 0 && t[0] == '-' {
        1
    } else {
        0
    };
    if i0 >= t.len() {
        return false;
    }
    if !digit_exec(t[i0]) {
        return false;
    }
    let i1: usize = if t[i0] == '0' {
        i0 + 1
    } else {
        digit_run_end_exec(t, i0)
    };
    num_frac_ok_exec(t, i1)
}

/// Parses a string body after the opening quote; on success yields
/// the content and the position after the closing quote.
fn parse_string_body_exec(s: &Vec<char>, i: usize) -> (r: Option<(String, usize)>)
    requires
        i <= s.len(),
    ensures
        match r {
            Some(p) => parse_string_body(s@, i as int) == Some((p.0@, p.1 as int)) && p.1
                <= s.len(),
            None => parse_string_body(s@, i as int) is None,
        },
{
    let mut acc = String::new();
    let mut cur = i;
    loop
        invariant
            i <= cur <= s.len(),
            forall|t: Seq<char>, k: int|
                parse_string_body(s@, cur as int) == Some::<(Seq<char>, int)>((t, k))
                    ==> parse_string_body(s@, i as int) == Some::<(Seq<char>, int)>((acc@ + t, k)),
            parse_string_body(s@, cur as int) is None ==> parse_string_body(
                s@,
                i as int,
            ) is None,
        decreases s.len() - cur,
    {
        if cur >= s.len() {
            return None;
        }
        let c = s[cur];
        if c == '"' {
            proof {
                assert(acc@ + Seq::<char>::empty() =~= acc@);
            }
            return Some((acc, cur + 1));
        } else if c == '\\' {
            if cur + 1 >= s.len() {
                return None;
            }
            let c2 = s[cur + 1];
            if c2 == 'u' {
                if s.len() - cur >= 6 && is_hex_exec(s[cur + 2]) && is_hex_exec(s[cur + 3])
                    && is_hex_exec(s[cur + 4]) && is_hex_exec(s[cur + 5]) {
                    let n: u32 = hex_val_exec(s[cur + 2]) * 4096 + hex_val_exec(s[cur + 3]) * 256
                        + hex_val_exec(s[cur + 4]) * 16 + hex_val_exec(s[cur + 5]);
                    if 0xD800 <= n && n < 0xE000 {
                        return None;
                    }
                    let d = char_from_code(n);
                    let ghost prev = acc@;
                    push_char(&mut acc, d);
                    proof {
                        assert(forall|t: Seq<char>, k: int|
                            parse_string_body(s@, cur + 6 as int) == Some::<(Seq<char>, int)>(
                                (t, k),
                            ) ==> prev + (seq![d] + t) =~= acc@ + t);
                    }
                    cur = cur + 6;
                } else {
                    return None;
                }
            } else {
                match unesc_exec(c2) {
                    Some(d) => {
                        let ghost prev = acc@;
                        push_char(&mut acc, d);
                        proof {
                            assert(forall|t: Seq<char>, k: int|
                                parse_string_body(s@, cur + 2 as int) == Some::<(Seq<char>, int)>(
                                    (t, k),
                                ) ==> prev + (seq![d] + t) =~= acc@ + t);
                        }
                        cur = cur + 2;
                    },
                    None => {
                        return None;
                    },
                }
            }
        } else if (c as u32) < 0x20 {
            return None;
        } else {
            let ghost prev = acc@;
            push_char(&mut acc, c);
            proof {
                assert(forall|t: Seq<char>, k: int|
                    parse_string_body(s@, cur + 1 as int) == Some::<(Seq<char>, int)>((t, k))
                        ==> prev + (seq![c] + t) =~= acc@ + t);
            }
            cur = cur + 1;
        }
    }
}


/// Copies a string slice into a vector of its characters.
pub fn str_to_chars(s: &str) -> (r: Vec<char>)
    ensures
        r@ == s@,
{
    let n = s.unicode_len();
    let mut r: Vec<char> = Vec::new();
    let mut i: usize = 0;
    while i < n
        invariant
            n == s@.len(),
            0 <= i <= n,
            r@ =~= s@.subrange(0, i as int),
        decreases n - i,
    {
        r.push(s.get_char(i));
        proof {
            assert(s@.subrange(0, i + 1 as int) =~= s@.subrange(0, i as int).push(s@[i as int]));
        }
        i += 1;
    }
    proof {
        assert(s@.subrange(0, n as int) =~= s@);
    }
    r
}

/// Collects a vector of characters into a string.
pub fn chars_to_string(v: &Vec<char>) -> (r: String)
    ensures
        r@ == v@,
{
    let mut out = String::new();
    let mut i: usize = 0;
    while i < v.len()
        invariant
            0 <= i <= v.len(),
            out@ =~= v@.subrange(0, i as int),
        decreases v.len() - i,
    {
        push_char(&mut out, v[i]);
        proof {
            assert(v@.subrange(0, i + 1 as int) =~= v@.subrange(0, i as int).push(v@[i as int]));
        }
        i += 1;
    }
    proof {
        assert(v@.subrange(0, v.len() as int) =~= v@);
    }
    out
}

/// Parses one JSON value; yields the document and the end position.
#[verifier::rlimit(60)]
fn parse_value_exec(s: &Vec<char>, i: usize) -> (r: Option<(JsonValue, usize)>)
    requires
        i <= s.len(),
    ensures
        match r {
            Some(p) => parse_value(s@, i as int) == Some((jv(p.0), p.1 as int)) && p.1 <= s.len(),
            None => parse_value(s@, i as int) is None,
        },
    decreases s.len() - i,
{
    let j = skip_ws_exec(s, i);
    if j >= s.len() {
        return None;
    }
    let c = s[j];
    if c == 'n' {
        if s.len() - j >= 4 && s[j + 1] == 'u' && s[j + 2] == 'l' && s[j + 3] == 'l' {
            proof {
                reveal_strlit("null");
                assert(s@.subrange(j as int, j as int + 4) =~= "null"@);
            }
            Some((JsonValue::Null, j + 4))
        } else {
            proof {
                reveal_strlit("null");
                if j as int + 4 <= s@.len() && s@.subrange(j as int, j as int + 4) == "null"@ {
                    assert(s@[j as int + 1] == s@.subrange(j as int, j as int + 4)[1]);
                    assert(s@[j as int + 2] == s@.subrange(j as int, j as int + 4)[2]);
                    assert(s@[j as int + 3] == s@.subrange(j as int, j as int + 4)[3]);
                    assert(false);
                }
            }
            None
        }
    } else if c == 't' {
        if s.len() - j >= 4 && s[j + 1] == 'r' && s[j + 2] == 'u' && s[j + 3] == 'e' {
            proof {
                reveal_strlit("true");
                assert(s@.subrange(j as int, j as int + 4) =~= "true"@);
            }
            Some((JsonValue::Bool(true), j + 4))
        } else {
            proof {
                reveal_strlit("true");
                if j as int + 4 <= s@.len() && s@.subrange(j as int, j as int + 4) == "true"@ {
                    assert(s@[j as int + 1] == s@.subrange(j as int, j as int + 4)[1]);
                    assert(s@[j as int + 2] == s@.subrange(j as int, j as int + 4)[2]);
                    assert(s@[j as int + 3] == s@.subrange(j as int, j as int + 4)[3]);
                    assert(false);
                }
            }
            None
        }
    } else if c == 'f' {
        if s.len() - j >= 5 && s[j + 1] == 'a' && s[j + 2] == 'l' && s[j + 3] == 's' && s[j + 4]
            == 'e' {
            proof {
                reveal_strlit("false");
                assert(s@.subrange(j as int, j as int + 5) =~= "false"@);
            }
            Some((JsonValue::Bool(false), j + 5))
        } else {
            proof {
                reveal_strlit("false");
                if j as int + 5 <= s@.len() && s@.subrange(j as int, j as int + 5) == "false"@ {
                    assert(s@[j as int + 1] == s@.subrange(j as int, j as int + 5)[1]);
                    assert(s@[j as int + 2] == s@.subrange(j as int, j as int + 5)[2]);
                    assert(s@[j as int + 3] == s@.subrange(j as int, j as int + 5)[3]);
                    assert(s@[j as int + 4] == s@.subrange(j as int, j as int + 5)[4]);
                    assert(false);
                }
            }
            None
        }
    } else if c == '"' {
        match parse_string_body_exec(s, j + 1) {
            Some((t, k)) => Some((JsonValue::Str(t), k)),
            None => None,
        }
    } else if c == '[' {
        let k0 = skip_ws_exec(s, j + 1);
        if k0 < s.len() && s[k0] == ']' {
            proof {
                assert(jv_seq(Seq::<JsonValue>::empty()) =~= Seq::<Json>::empty());
            }
            return Some((JsonValue::Arr(Vec::new()), k0 + 1));
        }
        let mut acc: Vec<JsonValue> = Vec::new();
        let mut cur = j + 1;
        loop
            invariant
                i <= j < s.len(),
                j + 1 <= cur <= s.len(),
                s@[j as int] == '[',
                skip_ws(s@, i as int) == j,
                !(skip_ws(s@, j + 1 as int) < s@.len() && s@[skip_ws(s@, j + 1 as int)] == ']'),
                forall|es2: Seq<Json>, k2: int|
                    parse_elems(s@, cur as int) == Some::<(Seq<Json>, int)>((es2, k2))
                        ==> parse_elems(s@, j + 1 as int) == Some::<(Seq<Json>, int)>(
                        (jv_seq(acc@) + es2, k2),
                    ),
                parse_elems(s@, cur as int) is None ==> parse_elems(s@, j + 1 as int) is None,
            decreases s.len() - cur,
        {
            match parse_value_exec(s, cur) {
                Some((v, k)) => {
                    if k <= cur {
                        return None;
                    }
                    let k2 = skip_ws_exec(s, k);
                    if k2 >= s.len() {
                        return None;
                    }
                    if s[k2] == ',' {
                        let ghost prev = acc@;
                        acc.push(v);
                        proof {
                            assert(jv_seq(acc@) =~= jv_seq(prev).push(jv(v))) by {
                                assert(acc@.drop_last() =~= prev);
                            }
                            assert(forall|es2: Seq<Json>, k3: int|
                                parse_elems(s@, k2 + 1 as int) == Some::<(Seq<Json>, int)>(
                                    (es2, k3),
                                ) ==> jv_seq(prev) + (seq![jv(v)] + es2) =~= jv_seq(acc@) + es2);
                        }
                        cur = k2 + 1;
                    } else if s[k2] == ']' {
                        let ghost prev = acc@;
                        acc.push(v);
                        proof {
                            assert(jv_seq(acc@) =~= jv_seq(prev).push(jv(v))) by {
                                assert(acc@.drop_last() =~= prev);
                            }
                            assert(jv_seq(prev) + seq![jv(v)] =~= jv_seq(acc@));
                            assert(parse_elems(s@, cur as int) == Some::<(Seq<Json>, int)>(
                                (seq![jv(v)], k2 + 1 as int),
                            ));
                            assert(parse_elems(s@, j + 1 as int) == Some::<(Seq<Json>, int)>(
                                (jv_seq(acc@), k2 + 1 as int),
                            ));
                            assert(parse_value(s@, i as int) == Some::<(Json, int)>(
                                (Json::Arr(jv_seq(acc@)), k2 + 1 as int),
                            ));
                        }
                        return Some((JsonValue::Arr(acc), k2 + 1));
                    } else {
                        return None;
                    }
                },
                None => {
                    return None;
                },
            }
        }
    } else if c == '{' {
        let k0 = skip_ws_exec(s, j + 1);
        if k0 < s.len() && s[k0] == '}' {
            proof {
                assert(jv_pairs(Seq::<(String, JsonValue)>::empty()) =~= Seq::<(
                    Seq<char>,
                    Json,
                )>::empty());
            }
            return Some((JsonValue::Obj(Vec::new()), k0 + 1));
        }
        let mut acc: Vec<(String, JsonValue)> = Vec::new();
        let mut cur = j + 1;
        loop
            invariant
                i <= j < s.len(),
                j + 1 <= cur <= s.len(),
                s@[j as int] == '{',
                skip_ws(s@, i as int) == j,
                !(skip_ws(s@, j + 1 as int) < s@.len() && s@[skip_ws(s@, j + 1 as int)] == '}'),
                forall|ps2: Seq<(Seq<char>, Json)>, k2: int|
                    parse_members(s@, cur as int) == Some::<(Seq<(Seq<char>, Json)>, int)>(
                        (ps2, k2),
                    ) ==> parse_members(s@, j + 1 as int) == Some::<(Seq<(Seq<char>, Json)>, int)>(
                        (jv_pairs(acc@) + ps2, k2),
                    ),
                parse_members(s@, cur as int) is None ==> parse_members(s@, j + 1 as int) is None,
            decreases s.len() - cur,
        {
            let m = skip_ws_exec(s, cur);
            if m >= s.len() {
                return None;
            }
            if s[m] != '"' {
                return None;
            }
            match parse_string_body_exec(s, m + 1) {
                Some((key, k)) => {
                    if k < m + 1 {
                        return None;
                    }
                    let k2 = skip_ws_exec(s, k);
                    if k2 >= s.len() {
                        return None;
                    }
                    if s[k2] != ':' {
                        return None;
                    }
                    match parse_value_exec(s, k2 + 1) {
                        Some((v, m3)) => {
                            if m3 < k2 + 1 {
                                return None;
                            }
                            let m4 = skip_ws_exec(s, m3);
                            if m4 >= s.len() {
                                return None;
                            }
                            if s[m4] == ',' {
                                let ghost prev = acc@;
                                let ghost kv = (key@, jv(v));
                                acc.push((key, v));
                                proof {
                                    assert(jv_pairs(acc@) =~= jv_pairs(prev).push(kv)) by {
                                        assert(acc@.drop_last() =~= prev);
                                    }
                                    assert(forall|ps2: Seq<(Seq<char>, Json)>, k3: int|
                                        parse_members(s@, m4 + 1 as int) == Some::<(
                                            Seq<(Seq<char>, Json)>,
                                            int,
                                        )>((ps2, k3)) ==> jv_pairs(prev) + (seq![kv] + ps2)
                                            =~= jv_pairs(acc@) + ps2);
                                }
                                cur = m4 + 1;
                            } else if s[m4] == '}' {
                                let ghost prev = acc@;
                                let ghost kv = (key@, jv(v));
                                acc.push((key, v));
                                proof {
                                    assert(jv_pairs(acc@) =~= jv_pairs(prev).push(kv)) by {
                                        assert(acc@.drop_last() =~= prev);
                                    }
                                    assert(jv_pairs(prev) + seq![kv] =~= jv_pairs(acc@));
                                    assert(parse_members(s@, cur as int) == Some::<(
                                        Seq<(Seq<char>, Json)>,
                                        int,
                                    )>((seq![kv], m4 + 1 as int)));
                                    assert(parse_members(s@, j + 1 as int) == Some::<(
                                        Seq<(Seq<char>, Json)>,
                                        int,
                                    )>((jv_pairs(acc@), m4 + 1 as int)));
                                    assert(parse_value(s@, i as int) == Some::<(Json, int)>(
                                        (Json::Obj(jv_pairs(acc@)), m4 + 1 as int),
                                    ));
                                }
                                return Some((JsonValue::Obj(acc), m4 + 1));
                            } else {
                                return None;
                            }
                        },
                        None => {
                            return None;
                        },
                    }
                },
                None => {
                    return None;
                },
            }
        }
    } else if c == '-' || digit_exec(c) {
        let e = num_run_end_exec(s, j);
        let mut lex: Vec<char> = Vec::new();
        let mut p = j;
        while p < e
            invariant
                j <= p <= e <= s.len(),
                lex@ =~= s@.subrange(j as int, p as int),
            decreases e - p,
        {
            lex.push(s[p]);
            proof {
                assert(s@.subrange(j as int, p + 1 as int) =~= s@.subrange(
                    j as int,
                    p as int,
                ).push(s@[p as int]));
            }
            p += 1;
        }
        if num_lexeme_ok(&lex) {
            let t = chars_to_string(&lex);
            Some((JsonValue::Num(t), e))
        } else {
            None
        }
    } else {
        None
    }
}

/// Decodes a JSON text: `Some` exactly when the text holds one valid
/// document with only whitespace around it.
pub fn json_decode_str(s: &str) -> (r: Option<JsonValue>)
    ensures
        match r {
            Some(v) => dec(s@) == Some(jv(v)),
            None => dec(s@) is None,
        },
{
    let cs = str_to_chars(s);
    match parse_value_exec(&cs, 0) {
        Some((v, k)) => {
            let k2 = skip_ws_exec(&cs, k);
            if k2 == cs.len() {
                Some(v)
            } else {
                None
            }
        },
        None => None,
    }
}

/// Encodes a document as compact JSON text.
pub fn json_encode(v: &JsonValue) -> (r: String)
    ensures
        r@ == enc(jv(*v)),
{
    let mut out = String::new();
    enc_into(v, &mut out);
    out
}


// ---------------------------------------------------------------------------
// Decimal lexemes for unsigned integers
// ---------------------------------------------------------------------------

/// The decimal digit character for a value below ten.
pub open spec fn dec_digit(n: int) -> char {
    if n == 0 { '0' } else if n == 1 { '1' } else if n == 2 { '2' } else if n == 3 { '3' }
    else if n == 4 { '4' } else if n == 5 { '5' } else if n == 6 { '6' } else if n == 7 { '7' }
    else if n == 8 { '8' } else { '9' }
}

/// The decimal spelling of a non-negative integer.
pub open spec fn u64_dec(n: int) -> Seq<char>
    decreases n,
    when n >= 0
{
    if n < 10 {
        seq![dec_digit(n)]
    } else {
        u64_dec(n / 10).push(dec_digit(n % 10))
    }
}

/// The numeric value of a digit string.
pub open spec fn dec_val(t: Seq<char>) -> int
    decreases t.len(),
{
    if t.len() == 0 {
        0
    } else {
        dec_val(t.drop_last()) * 10 + (t.last() as u32 - '0' as u32)
    }
}

/// A decimal spelling is all digits, has no leading zero, and its
/// value is the spelled number.
pub proof fn lemma_u64_dec(n: int)
    requires
        n >= 0,
    ensures
        u64_dec(n).len() >= 1,
        forall|k: int| 0 <= k < u64_dec(n).len() ==> digit(#[trigger] u64_dec(n)[k]),
        u64_dec(n)[0] != '0' || n == 0,
        dec_val(u64_dec(n)) == n,
    decreases n,
{
    if n < 10 {
        assert(u64_dec(n) =~= seq![dec_digit(n)]);
        let t = u64_dec(n);
        assert(t.drop_last() =~= Seq::<char>::empty());
        assert(dec_val(Seq::<char>::empty()) == 0);
        assert(t.last() == dec_digit(n));
        assert((dec_digit(n) as u32 - '0' as u32) == n);
        assert(dec_val(t) == dec_val(t.drop_last()) * 10 + (t.last() as u32 - '0' as u32));
        assert(dec_val(t) == n);
    } else {
        lemma_u64_dec(n / 10);
        let t = u64_dec(n);
        let h = u64_dec(n / 10);
        assert(t == h.push(dec_digit(n % 10)));
        assert(t.drop_last() =~= h);
        assert(t.last() == dec_digit(n % 10));
        assert(dec_val(t) == dec_val(h) * 10 + (dec_digit(n % 10) as u32 - '0' as u32));
        assert((dec_digit(n % 10) as u32 - '0' as u32) == n % 10);
        vstd::arithmetic::div_mod::lemma_fundamental_div_mod(n, 10);
        vstd::arithmetic::div_mod::lemma_div_non_zero(n, 10);
        assert(n / 10 >= 1);
        assert(t[0] == h[0]);
        assert(h[0] != '0');
        assert(dec_val(t) == n);
    }
}

/// A decimal spelling is a well-formed JSON number lexeme.
pub proof fn lemma_u64_dec_wf(n: int)
    requires
        n >= 0,
    ensures
        num_lexeme_wf(u64_dec(n)),
{
    lemma_u64_dec(n);
    let t = u64_dec(n);
    assert(digit(t[0]));
    if t[0] == '0' {
        if n >= 10 {
            lemma_u64_dec(n / 10);
            assert(t[0] == u64_dec(n / 10)[0]);
            assert(n / 10 == 0 || t[0] != '0');
            assert(n / 10 >= 1) by {
                vstd::arithmetic::div_mod::lemma_fundamental_div_mod(n, 10);
            }
        }
        assert(n == 0);
        assert(t =~= seq!['0']);
        assert(num_frac_ok(t, 1));
    } else {
        lemma_digit_run_full(t, 0);
        assert(num_frac_ok(t, t.len() as int));
    }
}

proof fn lemma_digit_run_full(t: Seq<char>, i: int)
    requires
        0 <= i <= t.len(),
        forall|k: int| 0 <= k < t.len() ==> digit(#[trigger] t[k]),
    ensures
        digit_run_end(t, i) == t.len(),
    decreases t.len() - i,
{
    if i < t.len() {
        lemma_digit_run_full(t, i + 1);
    }
}

/// Writes the decimal spelling of `n`.
pub fn u64_to_dec(n: u64) -> (r: String)
    ensures
        r@ == u64_dec(n as int),
    decreases n,
{
    let d: char = match n % 10 {
        0 => '0', 1 => '1', 2 => '2', 3 => '3', 4 => '4',
        5 => '5', 6 => '6', 7 => '7', 8 => '8', _ => '9',
    };
    if n < 10 {
        let mut out = String::new();
        push_char(&mut out, d);
        proof {
            assert(out@ =~= seq![dec_digit(n as int)]);
        }
        out
    } else {
        let mut out = u64_to_dec(n / 10);
        push_char(&mut out, d);
        out
    }
}

/// Reads a decimal spelling of at most eighteen digits.
pub fn dec_to_u64(t: &Vec<char>) -> (r: Option<u64>)
    ensures
        r is Some <==> (1 <= t@.len() <= 18 && (forall|k: int|
            0 <= k < t@.len() ==> digit(#[trigger] t@[k]))),
        r is Some ==> r.unwrap() as int == dec_val(t@),
{
    if t.len() < 1 || t.len() > 18 {
        return None;
    }
    let mut acc: u64 = 0;
    let mut i: usize = 0;
    while i < t.len()
        invariant
            0 <= i <= t.len(),
            t.len() <= 18,
            forall|k: int| 0 <= k < i ==> digit(#[trigger] t@[k]),
            acc as int == dec_val(t@.subrange(0, i as int)),
            (acc as int) < pow10(i as int),
        decreases t.len() - i,
    {
        let c = t[i];
        if !digit_exec(c) {
            return None;
        }
        proof {
            lemma_pow10_mono(i as int, 17);
            assert(pow10(17) == 100000000000000000) by {
                reveal_with_fuel(pow10, 19);
            }
            assert((acc as int) * 10 + 9 < pow10(i + 1 as int));
        }
        acc = acc * 10 + (c as u32 as u64 - 48);
        proof {
            assert(t@.subrange(0, i + 1 as int).drop_last() =~= t@.subrange(0, i as int));
        }
        i += 1;
    }
    proof {
        assert(t@.subrange(0, t@.len() as int) =~= t@);
    }
    Some(acc)
}

/// Ten to the `k`.
pub open spec fn pow10(k: int) -> int
    decreases k,
    when k >= 0
{
    if k <= 0 {
        1
    } else {
        10 * pow10(k - 1)
    }
}

proof fn lemma_pow10_mono(a: int, b: int)
    requires
        0 <= a <= b,
    ensures
        pow10(a) <= pow10(b),
    decreases b - a,
{
    if a < b {
        lemma_pow10_mono(a, b - 1);
        assert(pow10(b) == 10 * pow10(b - 1));
        assert(pow10(b - 1) >= 1) by {
            lemma_pow10_pos(b - 1);
        }
    }
}

proof fn lemma_pow10_pos(k: int)
    requires
        0 <= k,
    ensures
        pow10(k) >= 1,
    decreases k,
{
    if k > 0 {
        lemma_pow10_pos(k - 1);
    }
}


/// First value bound to `key` in an object's members.
pub open spec fn obj_get(ps: Seq<(Seq<char>, Json)>, key: Seq<char>) -> Option<Json>
    decreases ps.len(),
{
    if ps.len() == 0 {
        None
    } else if ps[0].0 == key {
        Some(ps[0].1)
    } else {
        obj_get(ps.drop_first(), key)
    }
}


/// A deep copy of a document.
pub fn json_clone(v: &JsonValue) -> (r: JsonValue)
    ensures
        jv(r) == jv(*v),
    decreases *v,
{
    match v {
        JsonValue::Null => JsonValue::Null,
        JsonValue::Bool(b) => JsonValue::Bool(*b),
        JsonValue::Num(t) => JsonValue::Num(t.clone()),
        JsonValue::Str(t) => JsonValue::Str(t.clone()),
        JsonValue::Arr(es) => {
            let mut out: Vec<JsonValue> = Vec::new();
            let n = es.len();
            let mut i: usize = 0;
            proof {
                lemma_jv_seq(es@);
            }
            while i < n
                invariant
                    n == es@.len(),
                    0 <= i <= n,
                    *v == JsonValue::Arr(*es),
                    jv_seq(es@).len() == n,
                    forall|k: int| 0 <= k < n ==> jv_seq(es@)[k] == jv(es@[k]),
                    out@.len() == i,
                    forall|k: int| 0 <= k < i ==> jv(#[trigger] out@[k]) == jv_seq(es@)[k],
                decreases n - i,
            {
                proof {
                    assert(*es == v->Arr_0);
                    assert(decreases_to!(*v => v->Arr_0));
                    assert(decreases_to!(v->Arr_0 => v->Arr_0@));
                    assert(decreases_to!(v->Arr_0@ => v->Arr_0@[i as int]));
                    assert(decreases_to!(*v => es@[i as int]));
                }
                let c = json_clone(&es[i]);
                out.push(c);
                i += 1;
            }
            let r = JsonValue::Arr(out);
            proof {
                lemma_jv_seq(out@);
                assert(jv_seq(out@) =~= jv_seq(es@));
            }
            r
        },
        JsonValue::Obj(ps) => {
            let mut out: Vec<(String, JsonValue)> = Vec::new();
            let n = ps.len();
            let mut i: usize = 0;
            proof {
                lemma_jv_pairs(ps@);
            }
            while i < n
                invariant
                    n == ps@.len(),
                    0 <= i <= n,
                    *v == JsonValue::Obj(*ps),
                    jv_pairs(ps@).len() == n,
                    forall|k: int| 0 <= k < n ==> jv_pairs(ps@)[k] == (ps@[k].0@, jv(ps@[k].1)),
                    out@.len() == i,
                    forall|k: int|
                        0 <= k < i ==> (#[trigger] out@[k].0@, jv(out@[k].1)) == jv_pairs(ps@)[k],
                decreases n - i,
            {
                proof {
                    assert(*ps == v->Obj_0);
                    assert(decreases_to!(*v => v->Obj_0));
                    assert(decreases_to!(v->Obj_0 => v->Obj_0@));
                    assert(decreases_to!(v->Obj_0@ => v->Obj_0@[i as int]));
                    assert(decreases_to!(ps@[i as int] => ps@[i as int].1));
                    assert(decreases_to!(*v => ps@[i as int].1));
                }
                let c = json_clone(&ps[i].1);
                let k = ps[i].0.clone();
                out.push((k, c));
                i += 1;
            }
            let r = JsonValue::Obj(out);
            proof {
                lemma_jv_pairs(out@);
                assert(jv_pairs(out@) =~= jv_pairs(ps@));
            }
            r
        },
    }
}


proof fn lemma_u64_dec_len_k(n: int, k: int)
    requires
        1 <= k,
        0 <= n < pow10(k),
    ensures
        u64_dec(n).len() <= k,
    decreases k,
{
    if n < 10 {
    } else {
        assert(pow10(k) == 10 * pow10(k - 1));
        vstd::arithmetic::div_mod::lemma_fundamental_div_mod(n, 10);
        assert(n / 10 < pow10(k - 1)) by {
            if n / 10 >= pow10(k - 1) {
                assert(n >= 10 * pow10(k - 1));
            }
        }
        assert(k >= 2) by {
            lemma_pow10_pos(k - 1);
            if k == 1 {
                assert(pow10(1) == 10);
            }
        }
        lemma_u64_dec_len_k(n / 10, k - 1);
    }
}

/// A number below ten to the eighteenth has at most eighteen digits.
pub proof fn lemma_u64_dec_len(n: int)
    requires
        0 <= n < 1000000000000000000,
    ensures
        u64_dec(n).len() <= 18,
{
    assert(pow10(18) == 1000000000000000000) by {
        reveal_with_fuel(pow10, 20);
    }
    lemma_u64_dec_len_k(n, 18);
}

} // verus!
