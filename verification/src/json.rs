//! The JSON wire format: the value model, a serializer whose output is
//! pinned character by character, and a total recursive-descent parser
//! whose result equals a spec-level reading of the same grammar.
//!
//! The grammar is the subset the exchange's envelopes and bodies use:
//! `null`, `true`, `false`, plain decimal numbers (no exponents), strings
//! with the escapes `\" \\ \n \r \t`, arrays and objects. Numbers carry a
//! sign, mantissa and scale, so quantities survive a round trip exactly.

use crate::decimal::Decimal;
use vstd::prelude::*;
use vstd::string::StringSliceAdditionalSpecFns;

verus! {

/// The mathematical model of a JSON value.
pub enum JsonVal {
    NullV,
    BoolV(bool),
    NumV(Decimal),
    StrV(Seq<char>),
    ArrV(Seq<JsonVal>),
    ObjV(Seq<(Seq<char>, JsonVal)>),
}

/// A JSON value as executable data.
#[derive(Debug)]
pub enum Json {
    Null,
    Bool(bool),
    Num(Decimal),
    Str(String),
    Arr(Vec<Json>),
    Obj(Vec<(String, Json)>),
}

/// The model of an executable JSON value.
pub open spec fn jview(j: Json) -> JsonVal
    decreases j,
{
    match j {
        Json::Null => JsonVal::NullV,
        Json::Bool(b) => JsonVal::BoolV(b),
        Json::Num(d) => JsonVal::NumV(d),
        Json::Str(s) => JsonVal::StrV(s@),
        Json::Arr(v) => JsonVal::ArrV(jview_els(v@)),
        Json::Obj(m) => JsonVal::ObjV(jview_mems(m@)),
    }
}

/// The models of an array's elements.
pub open spec fn jview_els(els: Seq<Json>) -> Seq<JsonVal>
    decreases els,
{
    if els.len() == 0 {
        Seq::empty()
    } else {
        jview_els(els.drop_last()).push(jview(els.last()))
    }
}

/// The models of an object's members.
pub open spec fn jview_mems(ms: Seq<(String, Json)>) -> Seq<(Seq<char>, JsonVal)>
    decreases ms,
{
    if ms.len() == 0 {
        Seq::empty()
    } else {
        jview_mems(ms.drop_last()).push((ms.last().0@, jview(ms.last().1)))
    }
}

pub proof fn lemma_jview_els(els: Seq<Json>)
    ensures
        jview_els(els).len() == els.len(),
        forall|i: int| 0 <= i < els.len() ==> jview_els(els)[i] == jview(#[trigger] els[i]),
    decreases els.len(),
{
    if els.len() > 0 {
        lemma_jview_els(els.drop_last());
        assert forall|i: int| 0 <= i < els.len() implies jview_els(els)[i] == jview(
            #[trigger] els[i],
        ) by {
            if i < els.len() - 1 {
                assert(els.drop_last()[i] == els[i]);
                assert(jview_els(els)[i] == jview_els(els.drop_last())[i]);
            } else {
                assert(els.last() == els[i]);
            }
        }
    }
}

pub proof fn lemma_jview_mems(ms: Seq<(String, Json)>)
    ensures
        jview_mems(ms).len() == ms.len(),
        forall|i: int|
            0 <= i < ms.len() ==> jview_mems(ms)[i] == ((#[trigger] ms[i]).0@, jview(ms[i].1)),
    decreases ms.len(),
{
    if ms.len() > 0 {
        lemma_jview_mems(ms.drop_last());
        assert forall|i: int| 0 <= i < ms.len() implies jview_mems(ms)[i] == ((#[trigger] ms[i]).0@,
        jview(ms[i].1)) by {
            if i < ms.len() - 1 {
                assert(ms.drop_last()[i] == ms[i]);
                assert(jview_mems(ms)[i] == jview_mems(ms.drop_last())[i]);
            } else {
                assert(ms.last() == ms[i]);
            }
        }
    }
}

/// The first value bound to `key` in an object's members.
pub open spec fn obj_get(ms: Seq<(Seq<char>, JsonVal)>, key: Seq<char>) -> Option<JsonVal>
    decreases ms.len(),
{
    if ms.len() == 0 {
        None
    } else if ms[0].0 == key {
        Some(ms[0].1)
    } else {
        obj_get(ms.drop_first(), key)
    }
}

/// Looks up the first value bound to `key` in an object's members.
pub fn obj_lookup<'a>(ms: &'a Vec<(String, Json)>, key: &str) -> (r: Option<&'a Json>)
    ensures
        match r {
            Some(j) => obj_get(jview_mems(ms@), key@) == Some(jview(*j)),
            None => obj_get(jview_mems(ms@), key@) == None::<JsonVal>,
        },
{
    let ghost mv = jview_mems(ms@);
    proof {
        lemma_jview_mems(ms@);
        assert(mv.skip(0) =~= mv);
    }
    let mut i: usize = 0;
    while i < ms.len()
        invariant
            i <= ms.len(),
            mv == jview_mems(ms@),
            mv.len() == ms@.len(),
            forall|k: int| 0 <= k < ms@.len() ==> mv[k] == ((#[trigger] ms@[k]).0@, jview(ms@[k].1)),
            obj_get(mv, key@) == obj_get(mv.skip(i as int), key@),
        decreases ms.len() - i,
    {
        proof {
            assert(mv.skip(i as int)[0] == mv[i as int]);
            assert(mv.skip(i as int).drop_first() =~= mv.skip(i + 1));
        }
        if str_eq(ms[i].0.as_str(), key) {
            return Some(&ms[i].1);
        }
        i = i + 1;
    }
    proof {
        assert(mv.skip(ms@.len() as int).len() == 0);
    }
    None
}

/// Whether two string slices hold the same characters.
pub fn str_eq(a: &str, b: &str) -> (r: bool)
    ensures
        r == (a@ == b@),
{
    let av = a.as_bytes();
    let bv = b.as_bytes();
    let r = slice_eq(av, bv);
    proof {
        if a@ == b@ {
            assert(a.spec_bytes() =~= b.spec_bytes());
        }
        if av@ == bv@ {
            vstd::utf8::encode_utf8_decode_utf8(a@);
            vstd::utf8::encode_utf8_decode_utf8(b@);
        }
    }
    r
}

fn slice_eq(a: &[u8], b: &[u8]) -> (r: bool)
    ensures
        r == (a@ == b@),
{
    if a.len() != b.len() {
        proof {
            assert(a@.len() != b@.len());
        }
        return false;
    }
    let mut i: usize = 0;
    while i < a.len()
        invariant
            i <= a.len(),
            a@.len() == b@.len(),
            forall|k: int| 0 <= k < i ==> a@[k] == b@[k],
        decreases a.len() - i,
    {
        if a[i] != b[i] {
            return false;
        }
        i = i + 1;
    }
    proof {
        assert(a@ =~= b@);
    }
    true
}

// ------------------------------------------------------------------
// Serialization
// ------------------------------------------------------------------
/// How one character is written inside a JSON string literal.
pub open spec fn esc_char(c: char) -> Seq<char> {
    if c == '"' {
        seq!['\\', '"']
    } else if c == '\\' {
        seq!['\\', '\\']
    } else if c == '\n' {
        seq!['\\', 'n']
    } else if c == '\r' {
        seq!['\\', 'r']
    } else if c == '\t' {
        seq!['\\', 't']
    } else {
        seq![c]
    }
}

/// The escaped body of a JSON string literal.
pub open spec fn esc_str(s: Seq<char>) -> Seq<char>
    decreases s.len(),
{
    if s.len() == 0 {
        Seq::empty()
    } else {
        esc_str(s.drop_last()) + esc_char(s.last())
    }
}

/// A JSON string literal: quote, escaped body, quote.
pub open spec fn ser_str(s: Seq<char>) -> Seq<char> {
    seq!['"'] + esc_str(s) + seq!['"']
}

/// Parts joined with commas.
pub open spec fn join_comma(parts: Seq<Seq<char>>) -> Seq<char>
    decreases parts.len(),
{
    if parts.len() == 0 {
        Seq::empty()
    } else if parts.len() == 1 {
        parts[0]
    } else {
        join_comma(parts.drop_last()) + seq![','] + parts.last()
    }
}

/// The serialized text of a JSON value: compact, no whitespace, object
/// members in the order they are held.
pub open spec fn jser(v: JsonVal) -> Seq<char>
    decreases v,
{
    match v {
        JsonVal::NullV => "null"@,
        JsonVal::BoolV(b) => if b {
            "true"@
        } else {
            "false"@
        },
        JsonVal::NumV(d) => crate::decimal::spec_fmt_dec(d),
        JsonVal::StrV(s) => ser_str(s),
        JsonVal::ArrV(els) => seq!['['] + join_comma(jser_parts(els)) + seq![']'],
        JsonVal::ObjV(ms) => seq!['{'] + join_comma(jser_mem_parts(ms)) + seq!['}'],
    }
}

/// The serialized texts of an array's elements.
pub open spec fn jser_parts(els: Seq<JsonVal>) -> Seq<Seq<char>>
    decreases els,
{
    if els.len() == 0 {
        Seq::empty()
    } else {
        jser_parts(els.drop_last()).push(jser(els.last()))
    }
}

/// The serialized texts of an object's members, each `"key":value`.
pub open spec fn jser_mem_parts(ms: Seq<(Seq<char>, JsonVal)>) -> Seq<Seq<char>>
    decreases ms,
{
    if ms.len() == 0 {
        Seq::empty()
    } else {
        jser_mem_parts(ms.drop_last()).push(ser_str(ms.last().0) + seq![':'] + jser(ms.last().1))
    }
}

pub proof fn lemma_jser_parts(els: Seq<JsonVal>)
    ensures
        jser_parts(els).len() == els.len(),
        forall|i: int| 0 <= i < els.len() ==> jser_parts(els)[i] == jser(#[trigger] els[i]),
    decreases els.len(),
{
    if els.len() > 0 {
        lemma_jser_parts(els.drop_last());
        assert forall|i: int| 0 <= i < els.len() implies jser_parts(els)[i] == jser(
            #[trigger] els[i],
        ) by {
            if i < els.len() - 1 {
                assert(els.drop_last()[i] == els[i]);
                assert(jser_parts(els)[i] == jser_parts(els.drop_last())[i]);
            } else {
                assert(els.last() == els[i]);
            }
        }
    }
}

pub proof fn lemma_jser_mem_parts(ms: Seq<(Seq<char>, JsonVal)>)
    ensures
        jser_mem_parts(ms).len() == ms.len(),
        forall|i: int|
            0 <= i < ms.len() ==> jser_mem_parts(ms)[i] == ser_str((#[trigger] ms[i]).0)
                + seq![':'] + jser(ms[i].1),
    decreases ms.len(),
{
    if ms.len() > 0 {
        lemma_jser_mem_parts(ms.drop_last());
        assert forall|i: int| 0 <= i < ms.len() implies jser_mem_parts(ms)[i] == ser_str(
            (#[trigger] ms[i]).0,
        ) + seq![':'] + jser(ms[i].1) by {
            if i < ms.len() - 1 {
                assert(ms.drop_last()[i] == ms[i]);
                assert(jser_mem_parts(ms)[i] == jser_mem_parts(ms.drop_last())[i]);
            } else {
                assert(ms.last() == ms[i]);
            }
        }
    }
}

/// Well-formedness of a JSON value: every number is in range.
pub open spec fn jwf(v: JsonVal) -> bool
    decreases v,
{
    match v {
        JsonVal::NullV => true,
        JsonVal::BoolV(_) => true,
        JsonVal::NumV(d) => d.wf(),
        JsonVal::StrV(_) => true,
        JsonVal::ArrV(els) => jwf_els(els),
        JsonVal::ObjV(ms) => jwf_mems(ms),
    }
}

/// Well-formedness of an array's elements.
pub open spec fn jwf_els(els: Seq<JsonVal>) -> bool
    decreases els,
{
    if els.len() == 0 {
        true
    } else {
        jwf_els(els.drop_last()) && jwf(els.last())
    }
}

/// Well-formedness of an object's members' values.
pub open spec fn jwf_mems(ms: Seq<(Seq<char>, JsonVal)>) -> bool
    decreases ms,
{
    if ms.len() == 0 {
        true
    } else {
        jwf_mems(ms.drop_last()) && jwf(ms.last().1)
    }
}

pub proof fn lemma_jwf_els(els: Seq<JsonVal>)
    ensures
        jwf_els(els) <==> (forall|i: int| 0 <= i < els.len() ==> jwf(#[trigger] els[i])),
    decreases els.len(),
{
    if els.len() > 0 {
        lemma_jwf_els(els.drop_last());
        if jwf_els(els) {
            assert forall|i: int| 0 <= i < els.len() implies jwf(#[trigger] els[i]) by {
                if i < els.len() - 1 {
                    assert(els.drop_last()[i] == els[i]);
                } else {
                    assert(els.last() == els[i]);
                }
            }
        }
        if forall|i: int| 0 <= i < els.len() ==> jwf(#[trigger] els[i]) {
            assert forall|i: int| 0 <= i < els.drop_last().len() implies jwf(
                #[trigger] els.drop_last()[i],
            ) by {
                assert(els.drop_last()[i] == els[i]);
            }
            assert(jwf(els.last()));
        }
    }
}

pub proof fn lemma_jwf_mems(ms: Seq<(Seq<char>, JsonVal)>)
    ensures
        jwf_mems(ms) <==> (forall|i: int| 0 <= i < ms.len() ==> jwf((#[trigger] ms[i]).1)),
    decreases ms.len(),
{
    if ms.len() > 0 {
        lemma_jwf_mems(ms.drop_last());
        if jwf_mems(ms) {
            assert forall|i: int| 0 <= i < ms.len() implies jwf((#[trigger] ms[i]).1) by {
                if i < ms.len() - 1 {
                    assert(ms.drop_last()[i] == ms[i]);
                } else {
                    assert(ms.last() == ms[i]);
                }
            }
        }
        if forall|i: int| 0 <= i < ms.len() ==> jwf((#[trigger] ms[i]).1) {
            assert forall|i: int| 0 <= i < ms.drop_last().len() implies jwf(
                (#[trigger] ms.drop_last()[i]).1,
            ) by {
                assert(ms.drop_last()[i] == ms[i]);
            }
            assert(jwf(ms.last().1));
        }
    }
}

/// Writes a JSON string literal, with its quotes.
fn write_str_literal(s: &str, out: &mut Vec<char>)
    ensures
        final(out)@ == old(out)@ + ser_str(s@),
{
    out.push('"');
    let n = s.unicode_len();
    let mut i: usize = 0;
    while i < n
        invariant
            i <= n,
            n == s@.len(),
            out@ == old(out)@ + seq!['"'] + esc_str(s@.subrange(0, i as int)),
        decreases n - i,
    {
        let c = s.get_char(i);
        if c == '"' {
            out.push('\\');
            out.push('"');
        } else if c == '\\' {
            out.push('\\');
            out.push('\\');
        } else if c == '\n' {
            out.push('\\');
            out.push('n');
        } else if c == '\r' {
            out.push('\\');
            out.push('r');
        } else if c == '\t' {
            out.push('\\');
            out.push('t');
        } else {
            out.push(c);
        }
        proof {
            let cur = s@.subrange(0, i + 1);
            assert(cur.drop_last() =~= s@.subrange(0, i as int));
            assert(cur.last() == s@[i as int]);
            assert(out@ =~= old(out)@ + seq!['"'] + esc_str(cur));
        }
        i = i + 1;
    }
    out.push('"');
    proof {
        assert(s@.subrange(0, s@.len() as int) =~= s@);
        assert(out@ =~= old(out)@ + ser_str(s@));
    }
}

/// Writes the serialized text of `j` onto `out`.
pub fn write_json(j: &Json, out: &mut Vec<char>)
    requires
        jwf(jview(*j)),
    ensures
        final(out)@ == old(out)@ + jser(jview(*j)),
    decreases *j,
{
    match j {
        Json::Null => {
            out.push('n');
            out.push('u');
            out.push('l');
            out.push('l');
            proof {
                reveal_strlit("null");
                assert(out@ =~= old(out)@ + jser(jview(*j)));
            }
        },
        Json::Bool(b) => {
            if *b {
                out.push('t');
                out.push('r');
                out.push('u');
                out.push('e');
                proof {
                    reveal_strlit("true");
                    assert(out@ =~= old(out)@ + jser(jview(*j)));
                }
            } else {
                out.push('f');
                out.push('a');
                out.push('l');
                out.push('s');
                out.push('e');
                proof {
                    reveal_strlit("false");
                    assert(out@ =~= old(out)@ + jser(jview(*j)));
                }
            }
        },
        Json::Num(d) => {
            let mut cs = crate::decimal::fmt_dec(d);
            out.append(&mut cs);
        },
        Json::Str(s) => {
            write_str_literal(s.as_str(), out);
        },
        Json::Arr(v) => {
            let ghost ev = jview_els(v@);
            let ghost parts = jser_parts(ev);
            proof {
                lemma_jview_els(v@);
                lemma_jser_parts(ev);
            }
            out.push('[');
            let mut i: usize = 0;
            while i < v.len()
                invariant
                    i <= v.len(),
                    ev == jview_els(v@),
                    parts == jser_parts(ev),
                    parts.len() == v@.len(),
                    ev.len() == v@.len(),
                    forall|k: int| 0 <= k < v@.len() ==> ev[k] == jview(#[trigger] v@[k]),
                    forall|k: int| 0 <= k < ev.len() ==> #[trigger] parts[k] == jser(ev[k]),
                    out@ == old(out)@ + seq!['['] + join_comma(parts.subrange(0, i as int)),
                    jwf(jview(*j)),
                    j == Json::Arr(*v),
                decreases v.len() - i,
            {
                if i > 0 {
                    out.push(',');
                }
                proof {
                    assert(jview(*j) == JsonVal::ArrV(ev));
                    assert(jwf_els(ev));
                    lemma_jwf_els(ev);
                    assert(jwf(ev[i as int]));
                    assert(jwf(jview(v@[i as int])));
                }
                write_json(&v[i], out);
                proof {
                    let cur = parts.subrange(0, i + 1);
                    assert(cur.drop_last() =~= parts.subrange(0, i as int));
                    assert(cur.last() == parts[i as int]);
                    assert(parts[i as int] == jser(jview(v@[i as int])));
                    assert(out@ =~= old(out)@ + seq!['['] + join_comma(cur));
                }
                i = i + 1;
            }
            out.push(']');
            proof {
                assert(parts.subrange(0, parts.len() as int) =~= parts);
                assert(out@ =~= old(out)@ + jser(jview(*j)));
            }
        },
        Json::Obj(m) => {
            let ghost mv = jview_mems(m@);
            let ghost parts = jser_mem_parts(mv);
            proof {
                lemma_jview_mems(m@);
                lemma_jser_mem_parts(mv);
            }
            out.push('{');
            let mut i: usize = 0;
            while i < m.len()
                invariant
                    i <= m.len(),
                    mv == jview_mems(m@),
                    parts == jser_mem_parts(mv),
                    parts.len() == m@.len(),
                    mv.len() == m@.len(),
                    forall|k: int|
                        0 <= k < m@.len() ==> mv[k] == ((#[trigger] m@[k]).0@, jview(m@[k].1)),
                    forall|k: int|
                        0 <= k < mv.len() ==> #[trigger] parts[k] == ser_str(mv[k].0) + seq![':']
                            + jser(mv[k].1),
                    out@ == old(out)@ + seq!['{'] + join_comma(parts.subrange(0, i as int)),
                    jwf(jview(*j)),
                    j == Json::Obj(*m),
                decreases m.len() - i,
            {
                if i > 0 {
                    out.push(',');
                }
                proof {
                    assert(jview(*j) == JsonVal::ObjV(mv));
                    assert(jwf_mems(mv));
                    lemma_jwf_mems(mv);
                    assert(jwf(mv[i as int].1));
                    assert(jwf(jview(m@[i as int].1)));
                }
                write_str_literal(m[i].0.as_str(), out);
                out.push(':');
                write_json(&m[i].1, out);
                proof {
                    let cur = parts.subrange(0, i + 1);
                    assert(cur.drop_last() =~= parts.subrange(0, i as int));
                    assert(cur.last() == parts[i as int]);
                    assert(parts[i as int] == ser_str(mv[i as int].0) + seq![':'] + jser(
                        mv[i as int].1,
                    ));
                    assert(out@ =~= old(out)@ + seq!['{'] + join_comma(cur));
                }
                i = i + 1;
            }
            out.push('}');
            proof {
                assert(parts.subrange(0, parts.len() as int) =~= parts);
                assert(out@ =~= old(out)@ + jser(jview(*j)));
            }
        },
    }
}

/// The serialized text of `j`, as characters.
pub fn json_to_chars(j: &Json) -> (r: Vec<char>)
    requires
        jwf(jview(*j)),
    ensures
        r@ == jser(jview(*j)),
{
    let mut out: Vec<char> = Vec::new();
    write_json(j, &mut out);
    out
}

} // verus!
