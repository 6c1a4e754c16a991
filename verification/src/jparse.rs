//! Parsing the JSON wire format: a total recursive-descent parser over
//! characters. The grammar it accepts is written down once, as spec
//! functions, and the executable parser is proved to return exactly what
//! the spec functions read, input by input.

use crate::decimal::{spec_parse_dec, Decimal};
use crate::json::{jview, jview_els, jview_mems, lemma_jview_els, lemma_jview_mems, Json, JsonVal};
use crate::text::{chars_to_string, is_digit_char, str_to_chars};
use vstd::prelude::*;

verus! {

/// JSON whitespace.
pub open spec fn is_ws(c: char) -> bool {
    c == ' ' || c == '\t' || c == '\n' || c == '\r'
}

/// The index of the first non-whitespace character at or after `i`.
pub open spec fn skip_ws(s: Seq<char>, i: int) -> int
    decreases s.len() - i,
{
    if 0 <= i < s.len() && is_ws(s[i]) {
        skip_ws(s, i + 1)
    } else {
        i
    }
}

/// `skip_ws`, clamped to never move backwards.
pub open spec fn wsmax(s: Seq<char>, i: int) -> int {
    let w = skip_ws(s, i);
    if w < i {
        i
    } else {
        w
    }
}

/// What an escape character after a backslash stands for.
pub open spec fn unesc(c: char) -> Option<char> {
    if c == '"' {
        Some('"')
    } else if c == '\\' {
        Some('\\')
    } else if c == 'n' {
        Some('\n')
    } else if c == 'r' {
        Some('\r')
    } else if c == 't' {
        Some('\t')
    } else {
        None
    }
}

/// Reads a string literal's body from just after the opening quote to its
/// closing quote: the decoded characters and the index after the quote.
pub open spec fn jparse_str_body(s: Seq<char>, i: int) -> Option<(Seq<char>, int)>
    decreases s.len() - i,
{
    if !(0 <= i < s.len()) {
        None
    } else if s[i] == '"' {
        Some((Seq::empty(), i + 1))
    } else if s[i] == '\\' {
        if i + 1 < s.len() {
            match unesc(s[i + 1]) {
                Some(c) => match jparse_str_body(s, i + 2) {
                    Some((rest, j)) => Some((seq![c] + rest, j)),
                    None => None,
                },
                None => None,
            }
        } else {
            None
        }
    } else {
        match jparse_str_body(s, i + 1) {
            Some((rest, j)) => Some((seq![s[i]] + rest, j)),
            None => None,
        }
    }
}

/// A character that can appear in a number token.
pub open spec fn is_num_char(c: char) -> bool {
    is_digit_char(c) || c == '-' || c == '.'
}

/// The index just after the number token starting at `i`.
pub open spec fn num_end(s: Seq<char>, i: int) -> int
    decreases s.len() - i,
{
    if 0 <= i < s.len() && is_num_char(s[i]) {
        num_end(s, i + 1)
    } else {
        i
    }
}

/// Whether `p` occurs in `s` at position `i`.
pub open spec fn has_prefix(s: Seq<char>, i: int, p: Seq<char>) -> bool {
    0 <= i && i + p.len() <= s.len() && s.subrange(i, i + p.len()) == p
}

/// Reads one JSON value at or after `i`, skipping leading whitespace:
/// the value and the index just after it.
pub open spec fn jparse_value(s: Seq<char>, i: int) -> Option<(JsonVal, int)>
    decreases s.len() - i, 0int,
{
    let w = wsmax(s, i);
    if !(w < s.len()) {
        None
    } else if s[w] == '"' {
        match jparse_str_body(s, w + 1) {
            Some((cs, j)) => Some((JsonVal::StrV(cs), j)),
            None => None,
        }
    } else if s[w] == '{' {
        match jparse_members(s, w + 1, true) {
            Some((ms, j)) => Some((JsonVal::ObjV(ms), j)),
            None => None,
        }
    } else if s[w] == '[' {
        match jparse_elements(s, w + 1, true) {
            Some((els, j)) => Some((JsonVal::ArrV(els), j)),
            None => None,
        }
    } else if s[w] == 'n' {
        if has_prefix(s, w, "null"@) {
            Some((JsonVal::NullV, w + 4))
        } else {
            None
        }
    } else if s[w] == 't' {
        if has_prefix(s, w, "true"@) {
            Some((JsonVal::BoolV(true), w + 4))
        } else {
            None
        }
    } else if s[w] == 'f' {
        if has_prefix(s, w, "false"@) {
            Some((JsonVal::BoolV(false), w + 5))
        } else {
            None
        }
    } else if is_digit_char(s[w]) || s[w] == '-' {
        let e = num_end(s, w);
        match spec_parse_dec(s.subrange(w, e)) {
            Some(d) => Some((JsonVal::NumV(d), e)),
            None => None,
        }
    } else {
        None
    }
}

/// Reads an object's members from just after `{` (or after a comma when
/// `first` is false) to the closing `}`.
pub open spec fn jparse_members(s: Seq<char>, i: int, first: bool) -> Option<
    (Seq<(Seq<char>, JsonVal)>, int),
>
    decreases s.len() - i, 1int,
{
    let w = wsmax(s, i);
    if !(w < s.len()) {
        None
    } else if first && s[w] == '}' {
        Some((Seq::empty(), w + 1))
    } else if s[w] == '"' {
        match jparse_str_body(s, w + 1) {
            Some((key, j0)) => {
                let j1 = if j0 > w + 1 {
                    j0
                } else {
                    w + 2
                };
                let w2 = wsmax(s, j1);
                if w2 < s.len() && s[w2] == ':' {
                    match jparse_value(s, w2 + 1) {
                        Some((v, j2)) => {
                            let j3 = if j2 > w2 + 1 {
                                j2
                            } else {
                                w2 + 2
                            };
                            let w3 = wsmax(s, j3);
                            if w3 < s.len() && s[w3] == ',' {
                                match jparse_members(s, w3 + 1, false) {
                                    Some((rest, j4)) => Some((seq![(key, v)] + rest, j4)),
                                    None => None,
                                }
                            } else if w3 < s.len() && s[w3] == '}' {
                                Some((seq![(key, v)], w3 + 1))
                            } else {
                                None
                            }
                        },
                        None => None,
                    }
                } else {
                    None
                }
            },
            None => None,
        }
    } else {
        None
    }
}

/// Reads an array's elements from just after `[` (or after a comma when
/// `first` is false) to the closing `]`.
pub open spec fn jparse_elements(s: Seq<char>, i: int, first: bool) -> Option<(Seq<JsonVal>, int)>
    decreases s.len() - i, 1int,
{
    let w = wsmax(s, i);
    if !(w < s.len()) {
        None
    } else if first && s[w] == ']' {
        Some((Seq::empty(), w + 1))
    } else {
        match jparse_value(s, i) {
            Some((v, j)) => {
                let j1 = if j > i {
                    j
                } else {
                    i + 1
                };
                let w2 = wsmax(s, j1);
                if w2 < s.len() && s[w2] == ',' {
                    match jparse_elements(s, w2 + 1, false) {
                        Some((rest, j2)) => Some((seq![v] + rest, j2)),
                        None => None,
                    }
                } else if w2 < s.len() && s[w2] == ']' {
                    Some((seq![v], w2 + 1))
                } else {
                    None
                }
            },
            None => None,
        }
    }
}

/// What parsing a whole text yields: one value, with nothing but
/// whitespace around it.
pub open spec fn spec_parse_json(s: Seq<char>) -> Option<JsonVal> {
    match jparse_value(s, 0) {
        Some((v, j)) => {
            if wsmax(s, j) == s.len() {
                Some(v)
            } else {
                None
            }
        },
        None => None,
    }
}

// ------------------------------------------------------------------
// The executable parser
// ------------------------------------------------------------------
/// The model of an executable parse result.
pub open spec fn val_of(r: Option<(Json, usize)>) -> Option<(JsonVal, int)> {
    match r {
        Some((j, p)) => Some((jview(j), p as int)),
        None => None,
    }
}

spec fn str_of(r: Option<(String, usize)>) -> Option<(Seq<char>, int)> {
    match r {
        Some((cs, p)) => Some((cs@, p as int)),
        None => None,
    }
}

spec fn mems_of(r: Option<(Vec<(String, Json)>, usize)>) -> Option<(Seq<(Seq<char>, JsonVal)>, int)> {
    match r {
        Some((m, p)) => Some((jview_mems(m@), p as int)),
        None => None,
    }
}

spec fn els_of(r: Option<(Vec<Json>, usize)>) -> Option<(Seq<JsonVal>, int)> {
    match r {
        Some((v, p)) => Some((jview_els(v@), p as int)),
        None => None,
    }
}

fn skip_ws_exec(s: &Vec<char>, i: usize) -> (r: usize)
    requires
        i <= s.len(),
    ensures
        r as int == wsmax(s@, i as int),
        i <= r <= s.len(),
{
    let mut j = i;
    while j < s.len() && is_ws_exec(s[j])
        invariant
            i <= j <= s.len(),
            skip_ws(s@, i as int) == skip_ws(s@, j as int),
        decreases s.len() - j,
    {
        j = j + 1;
    }
    j
}

fn is_ws_exec(c: char) -> (r: bool)
    ensures
        r == is_ws(c),
{
    c == ' ' || c == '\t' || c == '\n' || c == '\r'
}

fn is_digit_exec(c: char) -> (r: bool)
    ensures
        r == is_digit_char(c),
{
    c == '0' || c == '1' || c == '2' || c == '3' || c == '4' || c == '5' || c == '6' || c == '7'
        || c == '8' || c == '9'
}

fn num_end_exec(s: &Vec<char>, i: usize) -> (r: usize)
    requires
        i <= s.len(),
    ensures
        r as int == num_end(s@, i as int),
        i <= r <= s.len(),
{
    let mut j = i;
    while j < s.len() && (is_digit_exec(s[j]) || s[j] == '-' || s[j] == '.')
        invariant
            i <= j <= s.len(),
            num_end(s@, i as int) == num_end(s@, j as int),
        decreases s.len() - j,
    {
        j = j + 1;
    }
    j
}

fn copy_range(s: &Vec<char>, from: usize, to: usize) -> (r: Vec<char>)
    requires
        from <= to <= s.len(),
    ensures
        r@ == s@.subrange(from as int, to as int),
{
    let mut r: Vec<char> = Vec::new();
    let mut j = from;
    while j < to
        invariant
            from <= j <= to <= s.len(),
            r@ == s@.subrange(from as int, j as int),
        decreases to - j,
    {
        r.push(s[j]);
        proof {
            assert(s@.subrange(from as int, j + 1) =~= s@.subrange(from as int, j as int).push(
                s@[j as int],
            ));
        }
        j = j + 1;
    }
    r
}

fn parse_str_body(s: &Vec<char>, i: usize) -> (r: Option<(String, usize)>)
    requires
        i <= s.len(),
    ensures
        str_of(r) == jparse_str_body(s@, i as int),
        r matches Some((_, p)) ==> i < p <= s.len(),
{
    let mut acc: Vec<char> = Vec::new();
    let mut j = i;
    loop
        invariant
            i <= j <= s.len(),
            jparse_str_body(s@, i as int) == (match jparse_str_body(s@, j as int) {
                Some((rest, e)) => Some((acc@ + rest, e)),
                None => None::<(Seq<char>, int)>,
            }),
        decreases s.len() - j,
    {
        if j >= s.len() {
            return None;
        }
        let c = s[j];
        if c == '"' {
            proof {
                assert(acc@ + Seq::<char>::empty() =~= acc@);
            }
            let st = chars_to_string(&acc);
            return Some((st, j + 1));
        }
        if c == '\\' {
            if j + 1 >= s.len() {
                return None;
            }
            let e = s[j + 1];
            let u: char;
            if e == '"' {
                u = '"';
            } else if e == '\\' {
                u = '\\';
            } else if e == 'n' {
                u = '\n';
            } else if e == 'r' {
                u = '\r';
            } else if e == 't' {
                u = '\t';
            } else {
                proof {
                    assert(unesc(s@[j + 1]) == None::<char>);
                }
                return None;
            }
            proof {
                assert(unesc(s@[j + 1]) == Some(u));
                let next = jparse_str_body(s@, j + 2);
                if next is Some {
                    let (rest, en) = next->Some_0;
                    assert(jparse_str_body(s@, j as int) == Some((seq![u] + rest, en)));
                    assert(acc@ + (seq![u] + rest) =~= acc@.push(u) + rest);
                }
            }
            acc.push(u);
            j = j + 2;
        } else {
            proof {
                let next = jparse_str_body(s@, j + 1);
                if next is Some {
                    let (rest, en) = next->Some_0;
                    assert(jparse_str_body(s@, j as int) == Some((seq![s@[j as int]] + rest, en)));
                    assert(acc@ + (seq![s@[j as int]] + rest) =~= acc@.push(s@[j as int]) + rest);
                }
            }
            acc.push(c);
            j = j + 1;
        }
    }
}

/// Reads one JSON value at or after `i`.
#[verifier::rlimit(30)]
#[verifier::spinoff_prover]
pub fn parse_value(s: &Vec<char>, i: usize) -> (r: Option<(Json, usize)>)
    requires
        i <= s.len(),
    ensures
        val_of(r) == jparse_value(s@, i as int),
        r matches Some((_, p)) ==> i < p <= s.len(),
    decreases s@.len() - i, 0int,
{
    let w = skip_ws_exec(s, i);
    if w >= s.len() {
        return None;
    }
    let c = s[w];
    if c == '"' {
        match parse_str_body(s, w + 1) {
            Some((st, j)) => Some((Json::Str(st), j)),
            None => None,
        }
    } else if c == '{' {
        match parse_members(s, w + 1, true) {
            Some((ms, j)) => Some((Json::Obj(ms), j)),
            None => None,
        }
    } else if c == '[' {
        match parse_elements(s, w + 1, true) {
            Some((els, j)) => Some((Json::Arr(els), j)),
            None => None,
        }
    } else if c == 'n' {
        proof {
            reveal_strlit("null");
        }
        if s.len() - w >= 4 && s[w + 1] == 'u' && s[w + 2] == 'l' && s[w + 3] == 'l' {
            proof {
                assert(s@.subrange(w as int, w + 4) =~= "null"@);
            }
            Some((Json::Null, w + 4))
        } else {
            proof {
                if has_prefix(s@, w as int, "null"@) {
                    assert(s@.subrange(w as int, w + 4)[1] == s@[w + 1]);
                    assert(s@.subrange(w as int, w + 4)[2] == s@[w + 2]);
                    assert(s@.subrange(w as int, w + 4)[3] == s@[w + 3]);
                }
            }
            None
        }
    } else if c == 't' {
        proof {
            reveal_strlit("true");
        }
        if s.len() - w >= 4 && s[w + 1] == 'r' && s[w + 2] == 'u' && s[w + 3] == 'e' {
            proof {
                assert(s@.subrange(w as int, w + 4) =~= "true"@);
            }
            Some((Json::Bool(true), w + 4))
        } else {
            proof {
                if has_prefix(s@, w as int, "true"@) {
                    assert(s@.subrange(w as int, w + 4)[1] == s@[w + 1]);
                    assert(s@.subrange(w as int, w + 4)[2] == s@[w + 2]);
                    assert(s@.subrange(w as int, w + 4)[3] == s@[w + 3]);
                }
            }
            None
        }
    } else if c == 'f' {
        proof {
            reveal_strlit("false");
        }
        if s.len() - w >= 5 && s[w + 1] == 'a' && s[w + 2] == 'l' && s[w + 3] == 's' && s[w + 4]
            == 'e' {
            proof {
                assert(s@.subrange(w as int, w + 5) =~= "false"@);
            }
            Some((Json::Bool(false), w + 5))
        } else {
            proof {
                if has_prefix(s@, w as int, "false"@) {
                    assert(s@.subrange(w as int, w + 5)[1] == s@[w + 1]);
                    assert(s@.subrange(w as int, w + 5)[2] == s@[w + 2]);
                    assert(s@.subrange(w as int, w + 5)[3] == s@[w + 3]);
                    assert(s@.subrange(w as int, w + 5)[4] == s@[w + 4]);
                }
            }
            None
        }
    } else if is_digit_exec(c) || c == '-' {
        let e = num_end_exec(s, w);
        let span = copy_range(s, w, e);
        match crate::decimal::parse_decimal_chars(&span) {
            Some(d) => Some((Json::Num(d), e)),
            None => None,
        }
    } else {
        None
    }
}

#[verifier::rlimit(30)]
#[verifier::spinoff_prover]
fn parse_members(s: &Vec<char>, i: usize, first: bool) -> (r: Option<(Vec<(String, Json)>, usize)>)
    requires
        i <= s.len(),
    ensures
        mems_of(r) == jparse_members(s@, i as int, first),
        r matches Some((_, p)) ==> i < p <= s.len(),
    decreases s@.len() - i, 1int,
{
    let w = skip_ws_exec(s, i);
    if w >= s.len() {
        return None;
    }
    if first && s[w] == '}' {
        let m: Vec<(String, Json)> = Vec::new();
        proof {
            assert(jview_mems(m@) =~= Seq::<(Seq<char>, JsonVal)>::empty());
        }
        return Some((m, w + 1));
    }
    if s[w] != '"' {
        return None;
    }
    let (key, j0) = match parse_str_body(s, w + 1) {
        Some(p) => p,
        None => {
            return None;
        },
    };
    let j1 = if j0 > w + 1 {
        j0
    } else {
        w + 2
    };
    let w2 = skip_ws_exec(s, j1);
    if w2 >= s.len() {
        return None;
    }
    if s[w2] != ':' {
        return None;
    }
    let (v, j2) = match parse_value(s, w2 + 1) {
        Some(p) => p,
        None => {
            return None;
        },
    };
    let j3 = if j2 > w2 + 1 {
        j2
    } else {
        w2 + 2
    };
    let w3 = skip_ws_exec(s, j3);
    if w3 >= s.len() {
        return None;
    }
    if s[w3] == ',' {
        match parse_members(s, w3 + 1, false) {
            Some((rest, j4)) => {
                let ghost restv = jview_mems(rest@);
                let mut m = rest;
                m.insert(0, (key, v));
                proof {
                    lemma_jview_mems(m@);
                    lemma_jview_mems(rest@);
                    assert(m@.len() == rest@.len() + 1);
                    assert forall|k: int| 0 <= k < m@.len() implies #[trigger] jview_mems(m@)[k]
                        == (seq![(key@, jview(v))] + restv)[k] by {
                        assert(jview_mems(m@)[k] == (m@[k].0@, jview(m@[k].1)));
                        if k > 0 {
                            assert(m@[k] == rest@[k - 1]);
                            assert(jview_mems(rest@)[k - 1] == (rest@[k - 1].0@, jview(
                                rest@[k - 1].1,
                            )));
                        } else {
                            assert(m@[0] == (key, v));
                        }
                    }
                    assert(jview_mems(m@) =~= seq![(key@, jview(v))] + restv);
                }
                Some((m, j4))
            },
            None => None,
        }
    } else if s[w3] == '}' {
        let mut m: Vec<(String, Json)> = Vec::new();
        m.push((key, v));
        proof {
            lemma_jview_mems(m@);
            assert(jview_mems(m@) =~= seq![(key@, jview(v))]);
        }
        Some((m, w3 + 1))
    } else {
        None
    }
}

#[verifier::rlimit(30)]
#[verifier::spinoff_prover]
fn parse_elements(s: &Vec<char>, i: usize, first: bool) -> (r: Option<(Vec<Json>, usize)>)
    requires
        i <= s.len(),
    ensures
        els_of(r) == jparse_elements(s@, i as int, first),
        r matches Some((_, p)) ==> i < p <= s.len(),
    decreases s@.len() - i, 1int,
{
    let w = skip_ws_exec(s, i);
    if w >= s.len() {
        return None;
    }
    if first && s[w] == ']' {
        let m: Vec<Json> = Vec::new();
        proof {
            assert(jview_els(m@) =~= Seq::<JsonVal>::empty());
        }
        return Some((m, w + 1));
    }
    let (v, j) = match parse_value(s, i) {
        Some(p) => p,
        None => {
            return None;
        },
    };
    let j1 = if j > i {
        j
    } else {
        i + 1
    };
    let w2 = skip_ws_exec(s, j1);
    if w2 >= s.len() {
        return None;
    }
    if s[w2] == ',' {
        match parse_elements(s, w2 + 1, false) {
            Some((rest, j2)) => {
                let ghost restv = jview_els(rest@);
                let mut m = rest;
                m.insert(0, v);
                proof {
                    lemma_jview_els(m@);
                    lemma_jview_els(rest@);
                    assert(m@.len() == rest@.len() + 1);
                    assert forall|k: int| 0 <= k < m@.len() implies #[trigger] jview_els(m@)[k]
                        == (seq![jview(v)] + restv)[k] by {
                        assert(jview_els(m@)[k] == jview(m@[k]));
                        if k > 0 {
                            assert(m@[k] == rest@[k - 1]);
                            assert(jview_els(rest@)[k - 1] == jview(rest@[k - 1]));
                        } else {
                            assert(m@[0] == v);
                        }
                    }
                    assert(jview_els(m@) =~= seq![jview(v)] + restv);
                }
                Some((m, j2))
            },
            None => None,
        }
    } else if s[w2] == ']' {
        let mut m: Vec<Json> = Vec::new();
        m.push(v);
        proof {
            lemma_jview_els(m@);
            assert(jview_els(m@) =~= seq![jview(v)]);
        }
        Some((m, w2 + 1))
    } else {
        None
    }
}

/// Parses a whole character sequence as one JSON value.
pub fn parse_json_chars(s: &Vec<char>) -> (r: Option<Json>)
    ensures
        match r {
            Some(j) => spec_parse_json(s@) == Some(jview(j)),
            None => spec_parse_json(s@) == None::<JsonVal>,
        },
{
    match parse_value(s, 0) {
        Some((j, p)) => {
            let w = skip_ws_exec(s, p);
            if w == s.len() {
                Some(j)
            } else {
                None
            }
        },
        None => None,
    }
}

/// Parses a string slice as one JSON value.
pub fn parse_json(s: &str) -> (r: Option<Json>)
    ensures
        match r {
            Some(j) => spec_parse_json(s@) == Some(jview(j)),
            None => spec_parse_json(s@) == None::<JsonVal>,
        },
{
    let v = str_to_chars(s);
    parse_json_chars(&v)
}

} // verus!
