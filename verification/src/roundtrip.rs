//! Round-trip laws: rendering a parsed value tokenizes and parses back
//! to the same tree, and the tokenizer emits no more tokens than the
//! input has non-whitespace characters.
//!
//! The proofs go through well-formedness: every token the tokenizer
//! emits is well formed ([`lemma_tokenize_wf`]), every value the parser
//! builds from well-formed tokens is well formed
//! ([`lemma_parse_value_wf`]), and for well-formed values rendering is
//! inverted exactly by tokenizing ([`lemma_tokenize_of_render`]) and
//! parsing ([`lemma_parse_of_tokens`]).

use crate::error::SpecParseError;
use crate::parser::bump;
use crate::parser::lemma_parse_value_bounds;
use crate::parser::spec_parse;
use crate::parser::spec_parse_array;
use crate::parser::spec_parse_elems;
use crate::parser::spec_parse_members;
use crate::parser::spec_parse_object;
use crate::parser::spec_parse_value;
use crate::token::SpecToken;
use crate::token::TokenParseError;
use crate::token::has_digit;
use crate::token::has_two_dots;
use crate::token::is_digit;
use crate::token::is_num_char;
use crate::token::is_num_start;
use crate::token::is_ws;
use crate::token::lemma_cat_cat;
use crate::token::lemma_cat_cons;
use crate::token::lemma_cat_empty;
use crate::token::lemma_close_quote_bounds;
use crate::token::lemma_num_end_bounds;
use crate::token::lemma_num_end_is;
use crate::token::spec_close_quote;
use crate::token::spec_num_end;
use crate::token::spec_tokenize_at;
use crate::token::tok_cons;
use crate::token::tok_result_cat;
use crate::value::SpecValue;
use crate::value::spec_render;
use crate::value::spec_render_elems;
use crate::value::spec_render_pair;
use crate::value::spec_render_pairs;
use vstd::prelude::*;

verus! {

// ---------------------------------------------------------------------------
// Well-formed tokens
// ---------------------------------------------------------------------------

/// The closing-quote scan, run over a string content alone from
/// position `k`: it must reach the end without finding an unescaped
/// quote and without a dangling final backslash.
pub open spec fn content_scan_ok(c: Seq<char>, k: int) -> bool
    decreases c.len() - k,
{
    if k < 0 || k >= c.len() {
        k == c.len()
    } else if c[k] == '"' {
        false
    } else if c[k] == '\\' {
        k + 1 < c.len() && content_scan_ok(c, k + 2)
    } else {
        content_scan_ok(c, k + 1)
    }
}

/// A string content that re-tokenizes to itself when quoted: no
/// unescaped quote inside, no dangling escape at the end.
pub open spec fn str_content_ok(c: Seq<char>) -> bool {
    content_scan_ok(c, 0)
}

/// A numeral as the tokenizer accepts it: a digit or sign first, digits
/// and at most one dot after, and at least one digit somewhere.
pub open spec fn valid_numeral(x: Seq<char>) -> bool {
    &&& x.len() >= 1
    &&& is_num_start(x[0])
    &&& forall|k: int| 1 <= k < x.len() ==> is_num_char(#[trigger] x[k])
    &&& !has_two_dots(x, 0, x.len() as int)
    &&& has_digit(x, 0, x.len() as int)
}

/// A token whose text payload, if any, is well formed.
pub open spec fn token_wf(t: SpecToken) -> bool {
    match t {
        SpecToken::StringLiteral(c) => str_content_ok(c),
        SpecToken::NumberLiteral(x) => valid_numeral(x),
        _ => true,
    }
}

// ---------------------------------------------------------------------------
// Well-formed values
// ---------------------------------------------------------------------------

/// A value the parser can produce: texts well formed, and the `Empty`
/// sentinel only where the grammar can put it.
pub open spec fn value_wf(v: SpecValue) -> bool
    decreases v, 0int,
{
    match v {
        SpecValue::Null => true,
        SpecValue::Boolean(_) => true,
        SpecValue::Number(x) => valid_numeral(x),
        SpecValue::Str(c) => str_content_ok(c),
        SpecValue::Array(vs) => elems_wf(vs),
        SpecValue::Object(ps) => pairs_wf(ps),
        SpecValue::Empty => true,
    }
}

/// An element list as a parsed array holds it: every element well
/// formed, `Empty` at most as the trailing element of two or more.
pub open spec fn elems_wf(vs: Seq<SpecValue>) -> bool
    decreases vs, 1int,
{
    if vs.len() == 0 {
        true
    } else {
        !(vs[0] is Empty) && elems_tail_wf(vs)
    }
}

/// As [`elems_wf`], except that a single element may be `Empty`: the
/// shape of the list that follows the first comma.
pub open spec fn elems_tail_wf(vs: Seq<SpecValue>) -> bool
    decreases vs, 0int,
{
    if vs.len() == 0 {
        true
    } else if vs.len() == 1 {
        value_wf(vs[0])
    } else {
        value_wf(vs[0]) && !(vs[0] is Empty) && elems_tail_wf(vs.subrange(1, vs.len() as int))
    }
}

/// A member list as a parsed object holds it: keys and values well
/// formed, an `Empty` value at most in the last member.
pub open spec fn pairs_wf(ps: Seq<(Seq<char>, SpecValue)>) -> bool
    decreases ps, 0int,
{
    if ps.len() == 0 {
        true
    } else if ps.len() == 1 {
        str_content_ok(ps[0].0) && value_wf(ps[0].1)
    } else {
        str_content_ok(ps[0].0) && value_wf(ps[0].1) && !(ps[0].1 is Empty) && pairs_wf(
            ps.subrange(1, ps.len() as int),
        )
    }
}

// ---------------------------------------------------------------------------
// The canonical token sequence of a value
// ---------------------------------------------------------------------------

/// The tokens that a value's rendering scans back into.
pub open spec fn spec_tokens_of(v: SpecValue) -> Seq<SpecToken>
    decreases v,
{
    match v {
        SpecValue::Null => seq![SpecToken::Null],
        SpecValue::Boolean(b) => if b {
            seq![SpecToken::True]
        } else {
            seq![SpecToken::False]
        },
        SpecValue::Number(x) => seq![SpecToken::NumberLiteral(x)],
        SpecValue::Str(c) => seq![SpecToken::StringLiteral(c)],
        SpecValue::Array(vs) => seq![SpecToken::LeftBracket] + elems_tokens(vs) + seq![
            SpecToken::RightBracket,
        ],
        SpecValue::Object(ps) => seq![SpecToken::LeftBrace] + pairs_tokens(ps) + seq![
            SpecToken::RightBrace,
        ],
        SpecValue::Empty => Seq::empty(),
    }
}

/// The tokens of an element list, commas included.
pub open spec fn elems_tokens(vs: Seq<SpecValue>) -> Seq<SpecToken>
    decreases vs,
{
    if vs.len() == 0 {
        Seq::empty()
    } else if vs.len() == 1 {
        spec_tokens_of(vs[0])
    } else {
        spec_tokens_of(vs[0]) + seq![SpecToken::Comma] + elems_tokens(
            vs.subrange(1, vs.len() as int),
        )
    }
}

/// The tokens of one member: key, colon, value.
pub open spec fn pair_tokens(p: (Seq<char>, SpecValue)) -> Seq<SpecToken>
    decreases p,
{
    seq![SpecToken::StringLiteral(p.0), SpecToken::Colon] + spec_tokens_of(p.1)
}

/// The tokens of a member list, commas included.
pub open spec fn pairs_tokens(ps: Seq<(Seq<char>, SpecValue)>) -> Seq<SpecToken>
    decreases ps,
{
    if ps.len() == 0 {
        Seq::empty()
    } else if ps.len() == 1 {
        pair_tokens(ps[0])
    } else {
        pair_tokens(ps[0]) + seq![SpecToken::Comma] + pairs_tokens(ps.subrange(1, ps.len() as int))
    }
}

// ---------------------------------------------------------------------------
// Transfer lemmas for the closing-quote scan
// ---------------------------------------------------------------------------

/// A content the scan accepted, re-embedded anywhere with a quote right
/// after it, scans to exactly that quote.
pub proof fn lemma_close_quote_of_content(s: Seq<char>, a: int, b: int, c: Seq<char>, k: int)
    requires
        0 <= k <= c.len(),
        0 <= a,
        b == a + (c.len() - k),
        b < s.len(),
        s.subrange(a, b) == c.subrange(k, c.len() as int),
        s[b] == '"',
        content_scan_ok(c, k),
    ensures
        spec_close_quote(s, a) == Some(b),
    decreases c.len() - k,
{
    if k == c.len() {
    } else {
        assert(s[a] == s.subrange(a, b)[0]);
        assert(s[a] == c[k]);
        if c[k] == '\\' {
            assert(s.subrange(a + 2, b) =~= c.subrange(k + 2, c.len() as int)) by {
                assert(forall|t: int|
                    0 <= t < b - (a + 2) ==> #[trigger] s.subrange(a + 2, b)[t] == s.subrange(
                        a,
                        b,
                    )[t + 2]);
            }
            lemma_close_quote_of_content(s, a + 2, b, c, k + 2);
        } else {
            assert(s.subrange(a + 1, b) =~= c.subrange(k + 1, c.len() as int)) by {
                assert(forall|t: int|
                    0 <= t < b - (a + 1) ==> #[trigger] s.subrange(a + 1, b)[t] == s.subrange(
                        a,
                        b,
                    )[t + 1]);
            }
            lemma_close_quote_of_content(s, a + 1, b, c, k + 1);
        }
    }
}

/// What the closing-quote scan accepts is a well-formed content: the
/// window from `a0` to the quote found, scanned from where the scan
/// stands.
pub proof fn lemma_close_quote_scan_ok(s: Seq<char>, a0: int, a: int)
    requires
        0 <= a0 <= a,
    ensures
        match spec_close_quote(s, a) {
            Some(b) => content_scan_ok(s.subrange(a0, b), a - a0),
            None => true,
        },
    decreases s.len() - a,
{
    lemma_close_quote_bounds(s, a);
    match spec_close_quote(s, a) {
        Some(b) => {
            let c = s.subrange(a0, b);
            if a == b {
            } else {
                assert(c[a - a0] == s[a]);
                if s[a] == '\\' {
                    lemma_close_quote_bounds(s, a + 2);
                    lemma_close_quote_scan_ok(s, a0, a + 2);
                    assert(b >= a + 2);
                    assert(s.subrange(a0, b) == c);
                } else {
                    lemma_close_quote_scan_ok(s, a0, a + 1);
                }
            }
        },
        None => {},
    }
}

// ---------------------------------------------------------------------------
// Tokenizing a rendering
// ---------------------------------------------------------------------------

/// What may follow a rendered value inside a rendered document: a
/// separator, a closing bracket or brace, or the end of the text.
pub open spec fn sep_follows(s: Seq<char>, m: int) -> bool {
    m == s.len() || s[m] == ',' || s[m] == ']' || s[m] == '}'
}

/// One token pulled off the front is one block moved across the seam.
pub proof fn lemma_cons_cat(t: SpecToken, r: Result<Seq<SpecToken>, TokenParseError>)
    ensures
        tok_cons(t, r) == tok_result_cat(seq![t], r),
{
    lemma_cat_empty(tok_cons(t, r));
    lemma_cat_cons(Seq::empty(), t, r);
    assert(Seq::<SpecToken>::empty().push(t) =~= seq![t]);
}

/// The rendering of a well-formed value, embedded at `i` and followed
/// by a separator, tokenizes to exactly the value's tokens and leaves
/// the scan at the separator.
pub proof fn lemma_tokenize_render(v: SpecValue, s: Seq<char>, i: int)
    requires
        value_wf(v),
        0 <= i,
        i + spec_render(v).len() <= s.len(),
        s.subrange(i, i + spec_render(v).len() as int) == spec_render(v),
        sep_follows(s, i + spec_render(v).len() as int),
    ensures
        spec_tokenize_at(s, i) == tok_result_cat(
            spec_tokens_of(v),
            spec_tokenize_at(s, i + spec_render(v).len() as int),
        ),
    decreases v,
{
    let r = spec_render(v);
    let n = r.len() as int;
    let m = i + n;
    assert forall|t: int| 0 <= t < n implies s[i + t] == r[t] by {
        assert(s.subrange(i, m)[t] == s[i + t]);
    }
    match v {
        SpecValue::Null => {
            assert(s[i] == 'n' && s[i + 1] == 'u' && s[i + 2] == 'l' && s[i + 3] == 'l');
            assert(spec_tokenize_at(s, i) == tok_cons(SpecToken::Null, spec_tokenize_at(s, m)));
            lemma_cons_cat(SpecToken::Null, spec_tokenize_at(s, m));
        },
        SpecValue::Boolean(b) => {
            if b {
                assert(s[i] == 't' && s[i + 1] == 'r' && s[i + 2] == 'u' && s[i + 3] == 'e');
                assert(spec_tokenize_at(s, i) == tok_cons(
                    SpecToken::True,
                    spec_tokenize_at(s, m),
                ));
                lemma_cons_cat(SpecToken::True, spec_tokenize_at(s, m));
            } else {
                assert(s[i] == 'f' && s[i + 1] == 'a' && s[i + 2] == 'l' && s[i + 3] == 's' && s[i
                    + 4] == 'e');
                assert(spec_tokenize_at(s, i) == tok_cons(
                    SpecToken::False,
                    spec_tokenize_at(s, m),
                ));
                lemma_cons_cat(SpecToken::False, spec_tokenize_at(s, m));
            }
        },
        SpecValue::Number(x) => {
            assert(s[i] == x[0]);
            assert forall|k: int| i + 1 <= k < m implies is_num_char(s[k]) by {
                assert(s[k] == x[k - i]);
            }
            if m < s.len() {
                assert(!is_num_char(s[m]));
            }
            lemma_num_end_is(s, i + 1, m);
            if has_two_dots(s, i + 1, m) {
                let (j2, k2) = choose|j2: int, k2: int|
                    i + 1 <= j2 < k2 < m && s[j2] == '.' && s[k2] == '.';
                assert(x[j2 - i] == '.' && x[k2 - i] == '.');
                assert(has_two_dots(x, 0, x.len() as int));
            }
            let d = choose|k: int| 0 <= k < x.len() && is_digit(x[k]);
            assert(is_digit(s[i + d]));
            assert(has_digit(s, i, m));
            assert(s.subrange(i, m) == x);
            assert(spec_tokenize_at(s, i) == tok_cons(
                SpecToken::NumberLiteral(x),
                spec_tokenize_at(s, m),
            ));
            lemma_cons_cat(SpecToken::NumberLiteral(x), spec_tokenize_at(s, m));
        },
        SpecValue::Str(c) => {
            assert(s[i] == r[0]);
            assert(r[0] == '"');
            let b = i + 1 + c.len() as int;
            assert(s[b] == r[b - i]);
            assert(r[b - i] == '"');
            assert(s.subrange(i + 1, b) =~= c.subrange(0, c.len() as int)) by {
                assert forall|t: int| 0 <= t < c.len() implies s.subrange(i + 1, b)[t] == c[t] by {
                    assert(s.subrange(i + 1, b)[t] == s[i + 1 + t]);
                    assert(s[i + 1 + t] == r[1 + t]);
                    assert(r[1 + t] == c[t]);
                }
            }
            lemma_close_quote_of_content(s, i + 1, b, c, 0);
            assert(s.subrange(i + 1, b) == c);
            assert(spec_tokenize_at(s, i) == tok_cons(
                SpecToken::StringLiteral(c),
                spec_tokenize_at(s, m),
            ));
            lemma_cons_cat(SpecToken::StringLiteral(c), spec_tokenize_at(s, m));
        },
        SpecValue::Empty => {
            lemma_cat_empty(spec_tokenize_at(s, i));
        },
        SpecValue::Array(vs) => {
            assert(s[i] == r[0]);
            assert(r[0] == '[');
            let er = spec_render_elems(vs);
            let el = er.len() as int;
            assert(s.subrange(i + 1, i + 1 + el) =~= er) by {
                assert forall|t: int| 0 <= t < el implies s.subrange(i + 1, i + 1 + el)[t]
                    == er[t] by {
                    assert(s.subrange(i + 1, i + 1 + el)[t] == s[i + 1 + t]);
                    assert(s[i + 1 + t] == r[1 + t]);
                    assert(r[1 + t] == er[t]);
                }
            }
            assert(s[i + 1 + el] == r[n - 1]);
            assert(r[n - 1] == ']');
            lemma_tokenize_render_elems(vs, s, i + 1);
            assert(s[i + 1 + el] == ']');
            assert(spec_tokenize_at(s, i + 1 + el) == tok_cons(
                SpecToken::RightBracket,
                spec_tokenize_at(s, m),
            ));
            lemma_cons_cat(SpecToken::RightBracket, spec_tokenize_at(s, m));
            lemma_cat_cat(elems_tokens(vs), seq![SpecToken::RightBracket], spec_tokenize_at(s, m));
            assert(spec_tokenize_at(s, i) == tok_cons(
                SpecToken::LeftBracket,
                spec_tokenize_at(s, i + 1),
            ));
            lemma_cons_cat(
                SpecToken::LeftBracket,
                tok_result_cat(
                    elems_tokens(vs) + seq![SpecToken::RightBracket],
                    spec_tokenize_at(s, m),
                ),
            );
            lemma_cat_cat(
                seq![SpecToken::LeftBracket],
                elems_tokens(vs) + seq![SpecToken::RightBracket],
                spec_tokenize_at(s, m),
            );
            assert(seq![SpecToken::LeftBracket] + (elems_tokens(vs) + seq![
                SpecToken::RightBracket,
            ]) =~= spec_tokens_of(v));
        },
        SpecValue::Object(ps) => {
            assert(s[i] == r[0]);
            assert(r[0] == '{');
            let pr = spec_render_pairs(ps);
            let pl = pr.len() as int;
            assert(s.subrange(i + 1, i + 1 + pl) =~= pr) by {
                assert forall|t: int| 0 <= t < pl implies s.subrange(i + 1, i + 1 + pl)[t]
                    == pr[t] by {
                    assert(s.subrange(i + 1, i + 1 + pl)[t] == s[i + 1 + t]);
                    assert(s[i + 1 + t] == r[1 + t]);
                    assert(r[1 + t] == pr[t]);
                }
            }
            assert(s[i + 1 + pl] == r[n - 1]);
            assert(r[n - 1] == '}');
            lemma_tokenize_render_pairs(ps, s, i + 1);
            assert(s[i + 1 + pl] == '}');
            assert(spec_tokenize_at(s, i + 1 + pl) == tok_cons(
                SpecToken::RightBrace,
                spec_tokenize_at(s, m),
            ));
            lemma_cons_cat(SpecToken::RightBrace, spec_tokenize_at(s, m));
            lemma_cat_cat(pairs_tokens(ps), seq![SpecToken::RightBrace], spec_tokenize_at(s, m));
            assert(spec_tokenize_at(s, i) == tok_cons(
                SpecToken::LeftBrace,
                spec_tokenize_at(s, i + 1),
            ));
            lemma_cons_cat(
                SpecToken::LeftBrace,
                tok_result_cat(
                    pairs_tokens(ps) + seq![SpecToken::RightBrace],
                    spec_tokenize_at(s, m),
                ),
            );
            lemma_cat_cat(
                seq![SpecToken::LeftBrace],
                pairs_tokens(ps) + seq![SpecToken::RightBrace],
                spec_tokenize_at(s, m),
            );
            assert(seq![SpecToken::LeftBrace] + (pairs_tokens(ps) + seq![SpecToken::RightBrace])
                =~= spec_tokens_of(v));
        },
    }
}

/// The rendering of a well-formed element list, followed by `]`,
/// tokenizes to the list's tokens.
pub proof fn lemma_tokenize_render_elems(vs: Seq<SpecValue>, s: Seq<char>, i: int)
    requires
        elems_tail_wf(vs),
        0 <= i,
        i + spec_render_elems(vs).len() < s.len(),
        s.subrange(i, i + spec_render_elems(vs).len() as int) == spec_render_elems(vs),
        s[i + spec_render_elems(vs).len() as int] == ']',
    ensures
        spec_tokenize_at(s, i) == tok_result_cat(
            elems_tokens(vs),
            spec_tokenize_at(s, i + spec_render_elems(vs).len() as int),
        ),
    decreases vs,
{
    let er = spec_render_elems(vs);
    let m = i + er.len() as int;
    assert forall|t: int| 0 <= t < er.len() implies s[i + t] == er[t] by {
        assert(s.subrange(i, m)[t] == s[i + t]);
    }
    if vs.len() == 0 {
        lemma_cat_empty(spec_tokenize_at(s, i));
    } else if vs.len() == 1 {
        lemma_tokenize_render(vs[0], s, i);
    } else {
        let r0 = spec_render(vs[0]);
        let l0 = r0.len() as int;
        let tail = vs.subrange(1, vs.len() as int);
        assert(s.subrange(i, i + l0) =~= r0) by {
            assert forall|t: int| 0 <= t < l0 implies s.subrange(i, i + l0)[t] == r0[t] by {
                assert(s.subrange(i, i + l0)[t] == s[i + t]);
                assert(s[i + t] == er[t]);
                assert(er[t] == r0[t]);
            }
        }
        assert(s[i + l0] == er[l0]);
        assert(er[l0] == ',');
        lemma_tokenize_render(vs[0], s, i);
        assert(spec_tokenize_at(s, i + l0) == tok_cons(
            SpecToken::Comma,
            spec_tokenize_at(s, i + l0 + 1),
        ));
        lemma_cons_cat(SpecToken::Comma, spec_tokenize_at(s, i + l0 + 1));
        let tr = spec_render_elems(tail);
        assert(s.subrange(i + l0 + 1, m) =~= tr) by {
            assert forall|t: int| 0 <= t < tr.len() implies s.subrange(i + l0 + 1, m)[t]
                == tr[t] by {
                assert(s.subrange(i + l0 + 1, m)[t] == s[i + l0 + 1 + t]);
                assert(s[i + l0 + 1 + t] == er[l0 + 1 + t]);
                assert(er[l0 + 1 + t] == tr[t]);
            }
        }
        lemma_tokenize_render_elems(tail, s, i + l0 + 1);
        lemma_cat_cat(seq![SpecToken::Comma], elems_tokens(tail), spec_tokenize_at(s, m));
        lemma_cat_cat(
            spec_tokens_of(vs[0]),
            seq![SpecToken::Comma] + elems_tokens(tail),
            spec_tokenize_at(s, m),
        );
        assert(spec_tokens_of(vs[0]) + (seq![SpecToken::Comma] + elems_tokens(tail))
            =~= elems_tokens(vs));
    }
}

/// The rendering of one well-formed member, followed by a separator,
/// tokenizes to key, colon and the value's tokens.
pub proof fn lemma_tokenize_render_pair(p: (Seq<char>, SpecValue), s: Seq<char>, i: int)
    requires
        str_content_ok(p.0),
        value_wf(p.1),
        0 <= i,
        i + spec_render_pair(p).len() <= s.len(),
        s.subrange(i, i + spec_render_pair(p).len() as int) == spec_render_pair(p),
        sep_follows(s, i + spec_render_pair(p).len() as int),
    ensures
        spec_tokenize_at(s, i) == tok_result_cat(
            pair_tokens(p),
            spec_tokenize_at(s, i + spec_render_pair(p).len() as int),
        ),
    decreases p,
{
    let r = spec_render_pair(p);
    let n = r.len() as int;
    let m = i + n;
    let k = p.0;
    let kl = k.len() as int;
    assert forall|t: int| 0 <= t < n implies s[i + t] == r[t] by {
        assert(s.subrange(i, m)[t] == s[i + t]);
    }
    assert(s[i] == r[0]);
    assert(r[0] == '"');
    let b = i + 1 + kl;
    assert(s[b] == r[1 + kl]);
    assert(r[1 + kl] == '"');
    assert(s.subrange(i + 1, b) =~= k.subrange(0, kl)) by {
        assert forall|t: int| 0 <= t < kl implies s.subrange(i + 1, b)[t] == k[t] by {
            assert(s.subrange(i + 1, b)[t] == s[i + 1 + t]);
            assert(s[i + 1 + t] == r[1 + t]);
            assert(r[1 + t] == k[t]);
        }
    }
    lemma_close_quote_of_content(s, i + 1, b, k, 0);
    assert(s.subrange(i + 1, b) == k);
    assert(spec_tokenize_at(s, i) == tok_cons(
        SpecToken::StringLiteral(k),
        spec_tokenize_at(s, b + 1),
    ));
    lemma_cons_cat(SpecToken::StringLiteral(k), spec_tokenize_at(s, b + 1));
    assert(s[b + 1] == r[kl + 2]);
    assert(r[kl + 2] == ':');
    assert(spec_tokenize_at(s, b + 1) == tok_cons(SpecToken::Colon, spec_tokenize_at(s, b + 2)));
    lemma_cons_cat(SpecToken::Colon, spec_tokenize_at(s, b + 2));
    let vr = spec_render(p.1);
    assert(s.subrange(b + 2, m) =~= vr) by {
        assert forall|t: int| 0 <= t < vr.len() implies s.subrange(b + 2, m)[t] == vr[t] by {
            assert(s.subrange(b + 2, m)[t] == s[b + 2 + t]);
            assert(s[b + 2 + t] == r[kl + 3 + t]);
            assert(r[kl + 3 + t] == vr[t]);
        }
    }
    lemma_tokenize_render(p.1, s, b + 2);
    lemma_cat_cat(seq![SpecToken::Colon], spec_tokens_of(p.1), spec_tokenize_at(s, m));
    lemma_cat_cat(
        seq![SpecToken::StringLiteral(k)],
        seq![SpecToken::Colon] + spec_tokens_of(p.1),
        spec_tokenize_at(s, m),
    );
    assert(seq![SpecToken::StringLiteral(k)] + (seq![SpecToken::Colon] + spec_tokens_of(p.1))
        =~= pair_tokens(p));
}

/// The rendering of a well-formed member list, followed by `}`,
/// tokenizes to the list's tokens.
pub proof fn lemma_tokenize_render_pairs(ps: Seq<(Seq<char>, SpecValue)>, s: Seq<char>, i: int)
    requires
        pairs_wf(ps),
        0 <= i,
        i + spec_render_pairs(ps).len() < s.len(),
        s.subrange(i, i + spec_render_pairs(ps).len() as int) == spec_render_pairs(ps),
        s[i + spec_render_pairs(ps).len() as int] == '}',
    ensures
        spec_tokenize_at(s, i) == tok_result_cat(
            pairs_tokens(ps),
            spec_tokenize_at(s, i + spec_render_pairs(ps).len() as int),
        ),
    decreases ps,
{
    let pr = spec_render_pairs(ps);
    let m = i + pr.len() as int;
    assert forall|t: int| 0 <= t < pr.len() implies s[i + t] == pr[t] by {
        assert(s.subrange(i, m)[t] == s[i + t]);
    }
    if ps.len() == 0 {
        lemma_cat_empty(spec_tokenize_at(s, i));
    } else if ps.len() == 1 {
        lemma_tokenize_render_pair(ps[0], s, i);
    } else {
        let r0 = spec_render_pair(ps[0]);
        let l0 = r0.len() as int;
        let tail = ps.subrange(1, ps.len() as int);
        assert(s.subrange(i, i + l0) =~= r0) by {
            assert forall|t: int| 0 <= t < l0 implies s.subrange(i, i + l0)[t] == r0[t] by {
                assert(s.subrange(i, i + l0)[t] == s[i + t]);
                assert(s[i + t] == pr[t]);
                assert(pr[t] == r0[t]);
            }
        }
        assert(s[i + l0] == pr[l0]);
        assert(pr[l0] == ',');
        lemma_tokenize_render_pair(ps[0], s, i);
        assert(spec_tokenize_at(s, i + l0) == tok_cons(
            SpecToken::Comma,
            spec_tokenize_at(s, i + l0 + 1),
        ));
        lemma_cons_cat(SpecToken::Comma, spec_tokenize_at(s, i + l0 + 1));
        let tr = spec_render_pairs(tail);
        assert(s.subrange(i + l0 + 1, m) =~= tr) by {
            assert forall|t: int| 0 <= t < tr.len() implies s.subrange(i + l0 + 1, m)[t]
                == tr[t] by {
                assert(s.subrange(i + l0 + 1, m)[t] == s[i + l0 + 1 + t]);
                assert(s[i + l0 + 1 + t] == pr[l0 + 1 + t]);
                assert(pr[l0 + 1 + t] == tr[t]);
            }
        }
        lemma_tokenize_render_pairs(tail, s, i + l0 + 1);
        lemma_cat_cat(seq![SpecToken::Comma], pairs_tokens(tail), spec_tokenize_at(s, m));
        lemma_cat_cat(
            pair_tokens(ps[0]),
            seq![SpecToken::Comma] + pairs_tokens(tail),
            spec_tokenize_at(s, m),
        );
        assert(pair_tokens(ps[0]) + (seq![SpecToken::Comma] + pairs_tokens(tail)) =~= pairs_tokens(
            ps,
        ));
    }
}

/// Tokenizing the rendering of a well-formed value gives exactly the
/// value's token sequence.
pub proof fn lemma_tokenize_of_render(v: SpecValue)
    requires
        value_wf(v),
    ensures
        spec_tokenize_at(spec_render(v), 0) == Ok::<_, TokenParseError>(spec_tokens_of(v)),
{
    let s = spec_render(v);
    assert(s.subrange(0, s.len() as int) =~= s);
    lemma_tokenize_render(v, s, 0);
    assert(spec_tokenize_at(s, s.len() as int) == Ok::<_, TokenParseError>(
        Seq::<SpecToken>::empty(),
    ));
    assert(spec_tokens_of(v) + Seq::<SpecToken>::empty() =~= spec_tokens_of(v));
}

// ---------------------------------------------------------------------------
// Parsing a value's token sequence
// ---------------------------------------------------------------------------

/// A value other than the sentinel opens with a token that no container
/// closes with.
pub proof fn lemma_first_token_of(v: SpecValue)
    requires
        !(v is Empty),
    ensures
        spec_tokens_of(v).len() >= 1,
        !(spec_tokens_of(v)[0] is RightBracket),
        !(spec_tokens_of(v)[0] is RightBrace),
        !(spec_tokens_of(v)[0] is Comma),
        !(spec_tokens_of(v)[0] is Colon),
{
    match v {
        SpecValue::Array(vs) => {
            assert(spec_tokens_of(v)[0] == SpecToken::LeftBracket);
        },
        SpecValue::Object(ps) => {
            assert(spec_tokens_of(v)[0] == SpecToken::LeftBrace);
        },
        _ => {},
    }
}

/// The token sequence of a well-formed value, embedded at `i`, parses
/// back to exactly that value.  The sentinel's empty token sequence
/// parses to it wherever a closing bracket or brace stands next.
pub proof fn lemma_parse_of_tokens(v: SpecValue, ts: Seq<SpecToken>, i: int)
    requires
        value_wf(v),
        0 <= i,
        i + spec_tokens_of(v).len() <= ts.len(),
        ts.subrange(i, i + spec_tokens_of(v).len() as int) == spec_tokens_of(v),
        v is Empty ==> i < ts.len() && (ts[i] is RightBracket || ts[i] is RightBrace),
    ensures
        spec_parse_value(ts, i) == Ok::<_, SpecParseError>(
            (v, i + spec_tokens_of(v).len() as int),
        ),
    decreases v,
{
    let tv = spec_tokens_of(v);
    let n = tv.len() as int;
    let m = i + n;
    assert forall|t: int| 0 <= t < n implies ts[i + t] == tv[t] by {
        assert(ts.subrange(i, m)[t] == ts[i + t]);
    }
    match v {
        SpecValue::Null => {
            assert(ts[i] == tv[0]);
        },
        SpecValue::Boolean(b) => {
            assert(ts[i] == tv[0]);
        },
        SpecValue::Number(x) => {
            assert(ts[i] == tv[0]);
        },
        SpecValue::Str(c) => {
            assert(ts[i] == tv[0]);
        },
        SpecValue::Empty => {},
        SpecValue::Array(vs) => {
            assert(ts[i] == tv[0]);
            assert(tv[0] == SpecToken::LeftBracket);
            if vs.len() == 0 {
                assert(elems_tokens(vs) == Seq::<SpecToken>::empty());
                assert(ts[i + 1] == tv[1]);
                assert(tv[1] == SpecToken::RightBracket);
                assert(spec_parse_array(ts, i) == Ok::<_, SpecParseError>(
                    (Seq::<SpecValue>::empty(), i + 2),
                ));
                assert(Seq::<SpecValue>::empty() =~= vs);
            } else {
                let et = elems_tokens(vs);
                let el = et.len() as int;
                assert(!(vs[0] is Empty));
                lemma_first_token_of(vs[0]);
                assert(et[0] == spec_tokens_of(vs[0])[0]);
                assert(ts[i + 1] == tv[1]);
                assert(tv[1] == et[0]);
                assert(!(ts[i + 1] is RightBracket));
                assert(ts.subrange(i + 1, i + 1 + el) =~= et) by {
                    assert forall|t: int| 0 <= t < el implies ts.subrange(i + 1, i + 1 + el)[t]
                        == et[t] by {
                        assert(ts.subrange(i + 1, i + 1 + el)[t] == ts[i + 1 + t]);
                        assert(ts[i + 1 + t] == tv[1 + t]);
                        assert(tv[1 + t] == et[t]);
                    }
                }
                assert(ts[i + 1 + el] == tv[n - 1]);
                assert(tv[n - 1] == SpecToken::RightBracket);
                assert(elems_wf(vs));
                lemma_parse_elems_of_tokens(vs, ts, i + 1);
                assert(spec_parse_array(ts, i) == Ok::<_, SpecParseError>((vs, m)));
            }
        },
        SpecValue::Object(ps) => {
            assert(ts[i] == tv[0]);
            assert(tv[0] == SpecToken::LeftBrace);
            let pt = pairs_tokens(ps);
            let pl = pt.len() as int;
            assert(ts.subrange(i + 1, i + 1 + pl) =~= pt) by {
                assert forall|t: int| 0 <= t < pl implies ts.subrange(i + 1, i + 1 + pl)[t]
                    == pt[t] by {
                    assert(ts.subrange(i + 1, i + 1 + pl)[t] == ts[i + 1 + t]);
                    assert(ts[i + 1 + t] == tv[1 + t]);
                    assert(tv[1 + t] == pt[t]);
                }
            }
            assert(ts[i + 1 + pl] == tv[n - 1]);
            assert(tv[n - 1] == SpecToken::RightBrace);
            lemma_parse_members_of_tokens(ps, ts, i + 1);
            assert(spec_parse_object(ts, i) == Ok::<_, SpecParseError>((ps, m)));
        },
    }
}

/// The tokens of a well-formed element list, followed by `]`, parse
/// back to the list, ending just past the bracket.
pub proof fn lemma_parse_elems_of_tokens(vs: Seq<SpecValue>, ts: Seq<SpecToken>, i: int)
    requires
        elems_tail_wf(vs),
        vs.len() >= 1,
        0 <= i,
        i + elems_tokens(vs).len() < ts.len(),
        ts.subrange(i, i + elems_tokens(vs).len() as int) == elems_tokens(vs),
        ts[i + elems_tokens(vs).len() as int] is RightBracket,
    ensures
        spec_parse_elems(ts, i) == Ok::<_, SpecParseError>(
            (vs, i + elems_tokens(vs).len() + 1),
        ),
    decreases vs,
{
    let et = elems_tokens(vs);
    let el = et.len() as int;
    let m = i + el;
    assert forall|t: int| 0 <= t < el implies ts[i + t] == et[t] by {
        assert(ts.subrange(i, m)[t] == ts[i + t]);
    }
    if vs.len() == 1 {
        if vs[0] is Empty {
            assert(spec_tokens_of(vs[0]) == Seq::<SpecToken>::empty());
            assert(el == 0);
        }
        lemma_parse_of_tokens(vs[0], ts, i);
        assert(spec_parse_value(ts, i) == Ok::<_, SpecParseError>((vs[0], m)));
        assert(bump(m, i, ts.len() as int) == m);
        assert(seq![vs[0]] =~= vs);
    } else {
        let t0 = spec_tokens_of(vs[0]);
        let l0 = t0.len() as int;
        let tail = vs.subrange(1, vs.len() as int);
        assert(!(vs[0] is Empty));
        assert(ts.subrange(i, i + l0) =~= t0) by {
            assert forall|t: int| 0 <= t < l0 implies ts.subrange(i, i + l0)[t] == t0[t] by {
                assert(ts.subrange(i, i + l0)[t] == ts[i + t]);
                assert(ts[i + t] == et[t]);
                assert(et[t] == t0[t]);
            }
        }
        lemma_parse_of_tokens(vs[0], ts, i);
        assert(ts[i + l0] == et[l0]);
        assert(et[l0] == SpecToken::Comma);
        assert(bump(i + l0, i, ts.len() as int) == i + l0);
        let tt = elems_tokens(tail);
        assert(ts.subrange(i + l0 + 1, m) =~= tt) by {
            assert forall|t: int| 0 <= t < tt.len() implies ts.subrange(i + l0 + 1, m)[t]
                == tt[t] by {
                assert(ts.subrange(i + l0 + 1, m)[t] == ts[i + l0 + 1 + t]);
                assert(ts[i + l0 + 1 + t] == et[l0 + 1 + t]);
                assert(et[l0 + 1 + t] == tt[t]);
            }
        }
        lemma_parse_elems_of_tokens(tail, ts, i + l0 + 1);
        assert(seq![vs[0]] + tail =~= vs);
    }
}

/// The tokens of a well-formed member list, followed by `}`, parse back
/// to the list, ending just past the brace.
pub proof fn lemma_parse_members_of_tokens(
    ps: Seq<(Seq<char>, SpecValue)>,
    ts: Seq<SpecToken>,
    i: int,
)
    requires
        pairs_wf(ps),
        0 <= i,
        i + pairs_tokens(ps).len() < ts.len(),
        ts.subrange(i, i + pairs_tokens(ps).len() as int) == pairs_tokens(ps),
        ts[i + pairs_tokens(ps).len() as int] is RightBrace,
    ensures
        spec_parse_members(ts, i) == Ok::<_, SpecParseError>(
            (ps, i + pairs_tokens(ps).len() + 1),
        ),
    decreases ps,
{
    let pt = pairs_tokens(ps);
    let pl = pt.len() as int;
    let m = i + pl;
    assert forall|t: int| 0 <= t < pl implies ts[i + t] == pt[t] by {
        assert(ts.subrange(i, m)[t] == ts[i + t]);
    }
    if ps.len() == 0 {
        assert(Seq::<(Seq<char>, SpecValue)>::empty() =~= ps);
    } else {
        let p0 = ps[0];
        let p0t = pair_tokens(p0);
        let vt = spec_tokens_of(p0.1);
        let kl = 2 + vt.len() as int;
        assert(ts[i] == pt[0]);
        assert(pt[0] == p0t[0]);
        assert(p0t[0] == SpecToken::StringLiteral(p0.0));
        assert(ts[i + 1] == pt[1]);
        assert(pt[1] == p0t[1]);
        assert(p0t[1] == SpecToken::Colon);
        assert(ts.subrange(i + 2, i + kl) =~= vt) by {
            assert forall|t: int| 0 <= t < vt.len() implies ts.subrange(i + 2, i + kl)[t]
                == vt[t] by {
                assert(ts.subrange(i + 2, i + kl)[t] == ts[i + 2 + t]);
                assert(ts[i + 2 + t] == pt[2 + t]);
                assert(pt[2 + t] == p0t[2 + t]);
                assert(p0t[2 + t] == vt[t]);
            }
        }
        if ps.len() == 1 {
            if p0.1 is Empty {
                assert(vt == Seq::<SpecToken>::empty());
                assert(i + kl == m);
            }
            lemma_parse_of_tokens(p0.1, ts, i + 2);
            assert(spec_parse_value(ts, i + 2) == Ok::<_, SpecParseError>((p0.1, i + kl)));
            assert(bump(i + kl, i + 2, ts.len() as int) == i + kl);
            assert(ts[m] is RightBrace);
            assert(i + kl == m);
            assert(seq![(p0.0, p0.1)] =~= ps);
        } else {
            let tail = ps.subrange(1, ps.len() as int);
            assert(!(p0.1 is Empty));
            lemma_parse_of_tokens(p0.1, ts, i + 2);
            assert(bump(i + kl, i + 2, ts.len() as int) == i + kl);
            assert(ts[i + kl] == pt[kl]);
            assert(pt[kl] == SpecToken::Comma);
            let tt = pairs_tokens(tail);
            assert(ts.subrange(i + kl + 1, m) =~= tt) by {
                assert forall|t: int| 0 <= t < tt.len() implies ts.subrange(i + kl + 1, m)[t]
                    == tt[t] by {
                    assert(ts.subrange(i + kl + 1, m)[t] == ts[i + kl + 1 + t]);
                    assert(ts[i + kl + 1 + t] == pt[kl + 1 + t]);
                    assert(pt[kl + 1 + t] == tt[t]);
                }
            }
            lemma_parse_members_of_tokens(tail, ts, i + kl + 1);
            assert(seq![(p0.0, p0.1)] + tail =~= ps);
        }
    }
}

/// The token sequence of a well-formed document parses back to it.
pub proof fn lemma_parse_doc_of_tokens(v: SpecValue)
    requires
        value_wf(v),
        v is Object || v is Array,
    ensures
        spec_parse(spec_tokens_of(v)) == Ok::<_, SpecParseError>(v),
{
    let ts = spec_tokens_of(v);
    assert(ts.subrange(0, ts.len() as int) =~= ts);
    lemma_parse_of_tokens(v, ts, 0);
    match v {
        SpecValue::Object(ps) => {
            assert(ts[0] == SpecToken::LeftBrace);
            match spec_parse_object(ts, 0) {
                Ok((ps2, j)) => {
                    assert(spec_parse_value(ts, 0) == Ok::<_, SpecParseError>(
                        (SpecValue::Object(ps2), j),
                    ));
                },
                Err(e) => {
                    assert(spec_parse_value(ts, 0) == Err::<(SpecValue, int), _>(e));
                },
            }
        },
        SpecValue::Array(vs) => {
            assert(ts[0] == SpecToken::LeftBracket);
            match spec_parse_array(ts, 0) {
                Ok((vs2, j)) => {
                    assert(spec_parse_value(ts, 0) == Ok::<_, SpecParseError>(
                        (SpecValue::Array(vs2), j),
                    ));
                },
                Err(e) => {
                    assert(spec_parse_value(ts, 0) == Err::<(SpecValue, int), _>(e));
                },
            }
        },
        _ => {},
    }
}

// ---------------------------------------------------------------------------
// What the tokenizer emits is well formed and comes from the input
// ---------------------------------------------------------------------------

/// A token's text payload, if any, is a contiguous slice of the input.
pub open spec fn token_from(t: SpecToken, s: Seq<char>) -> bool {
    match t {
        SpecToken::StringLiteral(c) => exists|a: int, b: int|
            0 <= a <= b <= s.len() && c == s.subrange(a, b),
        SpecToken::NumberLiteral(x) => exists|a: int, b: int|
            0 <= a <= b <= s.len() && x == s.subrange(a, b),
        _ => true,
    }
}

/// Every token of a sequence satisfies both token properties.
pub open spec fn tokens_good(ts: Seq<SpecToken>, s: Seq<char>) -> bool {
    forall|k: int| 0 <= k < ts.len() ==> token_wf(#[trigger] ts[k]) && token_from(ts[k], s)
}

/// Prepending one good token to good tokens gives good tokens.
proof fn lemma_tokens_good_cons(t: SpecToken, rest: Seq<SpecToken>, s: Seq<char>)
    requires
        token_wf(t),
        token_from(t, s),
        tokens_good(rest, s),
    ensures
        tokens_good(seq![t] + rest, s),
{
    let w = seq![t] + rest;
    assert forall|k: int| 0 <= k < w.len() implies token_wf(#[trigger] w[k]) && token_from(
        w[k],
        s,
    ) by {
        if k == 0 {
            assert(w[0] == t);
        } else {
            assert(w[k] == rest[k - 1]);
        }
    }
}

/// Every token the scan emits is well formed, and its text is a slice
/// of the input.
pub proof fn lemma_tokenize_wf(s: Seq<char>, i: int)
    requires
        0 <= i,
    ensures
        match spec_tokenize_at(s, i) {
            Ok(ts) => tokens_good(ts, s),
            Err(_) => true,
        },
    decreases s.len() - i,
{
    if 0 <= i < s.len() {
        let c = s[i];
        if is_ws(c) {
            lemma_tokenize_wf(s, i + 1);
        } else if c == '{' || c == '}' || c == '[' || c == ']' || c == ',' || c == ':' {
            lemma_tokenize_wf(s, i + 1);
            match spec_tokenize_at(s, i + 1) {
                Ok(rest) => {
                    let t = match c {
                        '{' => SpecToken::LeftBrace,
                        '}' => SpecToken::RightBrace,
                        '[' => SpecToken::LeftBracket,
                        ']' => SpecToken::RightBracket,
                        ',' => SpecToken::Comma,
                        _ => SpecToken::Colon,
                    };
                    lemma_tokens_good_cons(t, rest, s);
                },
                Err(_) => {},
            }
        } else if c == '"' {
            match spec_close_quote(s, i + 1) {
                Some(j) => {
                    lemma_close_quote_bounds(s, i + 1);
                    lemma_close_quote_scan_ok(s, i + 1, i + 1);
                    lemma_tokenize_wf(s, j + 1);
                    let content = s.subrange(i + 1, j);
                    assert(token_from(SpecToken::StringLiteral(content), s)) by {
                        assert(0 <= i + 1 <= j <= s.len() && content == s.subrange(i + 1, j));
                    }
                    match spec_tokenize_at(s, j + 1) {
                        Ok(rest) => {
                            lemma_tokens_good_cons(SpecToken::StringLiteral(content), rest, s);
                        },
                        Err(_) => {},
                    }
                },
                None => {},
            }
        } else if is_num_start(c) {
            let j = spec_num_end(s, i + 1);
            lemma_num_end_bounds(s, i + 1);
            if !has_two_dots(s, i + 1, j) && has_digit(s, i, j) {
                let x = s.subrange(i, j);
                assert(valid_numeral(x)) by {
                    assert(x[0] == s[i]);
                    assert forall|k: int| 1 <= k < x.len() implies is_num_char(#[trigger] x[k]) by {
                        assert(x[k] == s[i + k]);
                    }
                    if has_two_dots(x, 0, x.len() as int) {
                        let (j2, k2) = choose|j2: int, k2: int|
                            0 <= j2 < k2 < x.len() && x[j2] == '.' && x[k2] == '.';
                        assert(j2 >= 1);
                        assert(s[i + j2] == '.' && s[i + k2] == '.');
                        assert(has_two_dots(s, i + 1, j));
                    }
                    let d = choose|k: int| i <= k < j && is_digit(s[k]);
                    assert(x[d - i] == s[d]);
                    assert(has_digit(x, 0, x.len() as int));
                }
                assert(token_from(SpecToken::NumberLiteral(x), s)) by {
                    assert(0 <= i <= j <= s.len() && x == s.subrange(i, j));
                }
                lemma_tokenize_wf(s, j);
                match spec_tokenize_at(s, j) {
                    Ok(rest) => {
                        lemma_tokens_good_cons(SpecToken::NumberLiteral(x), rest, s);
                    },
                    Err(_) => {},
                }
            }
        } else if c == 't' || c == 'f' || c == 'n' {
            if crate::token::spec_true_at(s, i) {
                lemma_tokenize_wf(s, i + 4);
                match spec_tokenize_at(s, i + 4) {
                    Ok(rest) => {
                        lemma_tokens_good_cons(SpecToken::True, rest, s);
                    },
                    Err(_) => {},
                }
            } else if crate::token::spec_false_at(s, i) {
                lemma_tokenize_wf(s, i + 5);
                match spec_tokenize_at(s, i + 5) {
                    Ok(rest) => {
                        lemma_tokens_good_cons(SpecToken::False, rest, s);
                    },
                    Err(_) => {},
                }
            } else if crate::token::spec_null_at(s, i) {
                lemma_tokenize_wf(s, i + 4);
                match spec_tokenize_at(s, i + 4) {
                    Ok(rest) => {
                        lemma_tokens_good_cons(SpecToken::Null, rest, s);
                    },
                    Err(_) => {},
                }
            }
        } else {
            lemma_tokenize_wf(s, i + 1);
        }
    }
}

// ---------------------------------------------------------------------------
// What the parser builds from well-formed tokens is well formed
// ---------------------------------------------------------------------------

/// Every token of `ts` is well formed.
pub open spec fn tokens_wf(ts: Seq<SpecToken>) -> bool {
    forall|k: int| 0 <= k < ts.len() ==> token_wf(#[trigger] ts[k])
}

/// A value parsed from well-formed tokens is well formed.
pub proof fn lemma_parse_value_wf(ts: Seq<SpecToken>, i: int)
    requires
        0 <= i,
        tokens_wf(ts),
    ensures
        match spec_parse_value(ts, i) {
            Ok((v, j)) => value_wf(v),
            Err(_) => true,
        },
    decreases ts.len() - i, 2int,
{
    if 0 <= i < ts.len() {
        match ts[i] {
            SpecToken::StringLiteral(c) => {
                assert(token_wf(ts[i]));
            },
            SpecToken::NumberLiteral(x) => {
                assert(token_wf(ts[i]));
            },
            SpecToken::LeftBrace => {
                lemma_parse_object_wf(ts, i);
            },
            SpecToken::LeftBracket => {
                lemma_parse_array_wf(ts, i);
            },
            _ => {},
        }
    }
}

/// An object parsed from well-formed tokens has well-formed members.
pub proof fn lemma_parse_object_wf(ts: Seq<SpecToken>, i: int)
    requires
        0 <= i,
        tokens_wf(ts),
    ensures
        match spec_parse_object(ts, i) {
            Ok((ps, j)) => pairs_wf(ps),
            Err(_) => true,
        },
    decreases ts.len() - i, 1int,
{
    if 0 <= i < ts.len() && ts[i] is LeftBrace {
        lemma_parse_members_wf(ts, i + 1);
    }
}

/// A member list parsed from well-formed tokens is well formed.
pub proof fn lemma_parse_members_wf(ts: Seq<SpecToken>, i: int)
    requires
        0 <= i,
        tokens_wf(ts),
    ensures
        match spec_parse_members(ts, i) {
            Ok((ps, j)) => pairs_wf(ps),
            Err(_) => true,
        },
    decreases ts.len() - i, 0int,
{
    if 0 <= i < ts.len() {
        match ts[i] {
            SpecToken::StringLiteral(key) => {
                assert(token_wf(ts[i]));
                if i + 1 < ts.len() && ts[i + 1] is Colon {
                    lemma_parse_value_wf(ts, i + 2);
                    lemma_parse_value_bounds(ts, i + 2);
                    match spec_parse_value(ts, i + 2) {
                        Ok((v, j0)) => {
                            let j = bump(j0, i + 2, ts.len() as int);
                            assert(j == j0);
                            if j < ts.len() && ts[j] is Comma {
                                assert(!(v is Empty));
                                lemma_parse_members_wf(ts, j + 1);
                                match spec_parse_members(ts, j + 1) {
                                    Ok((rest, k)) => {
                                        let ps = seq![(key, v)] + rest;
                                        assert(ps[0] == (key, v));
                                        if rest.len() == 0 {
                                            assert(ps.len() == 1);
                                        } else {
                                            assert(ps.subrange(1, ps.len() as int) =~= rest);
                                        }
                                        assert(pairs_wf(ps));
                                    },
                                    Err(_) => {},
                                }
                            } else if j < ts.len() && ts[j] is RightBrace {
                                let ps = seq![(key, v)];
                                assert(ps[0] == (key, v));
                                assert(pairs_wf(ps));
                            }
                        },
                        Err(_) => {},
                    }
                }
            },
            _ => {},
        }
    }
}

/// An array parsed from well-formed tokens has well-formed elements.
pub proof fn lemma_parse_array_wf(ts: Seq<SpecToken>, i: int)
    requires
        0 <= i,
        tokens_wf(ts),
    ensures
        match spec_parse_array(ts, i) {
            Ok((vs, j)) => elems_wf(vs),
            Err(_) => true,
        },
    decreases ts.len() - i, 1int,
{
    if 0 <= i < ts.len() && ts[i] is LeftBracket {
        if i + 1 < ts.len() && ts[i + 1] is RightBracket {
        } else {
            lemma_parse_elems_wf(ts, i + 1);
            match spec_parse_elems(ts, i + 1) {
                Ok((vs, j)) => {
                    assert(!(vs[0] is Empty));
                    assert(elems_wf(vs));
                },
                Err(_) => {},
            }
        }
    }
}

/// An element list parsed from well-formed tokens is well formed but
/// for the singleton sentinel, which can only stand where the next
/// token closes the array at once.
pub proof fn lemma_parse_elems_wf(ts: Seq<SpecToken>, i: int)
    requires
        0 <= i,
        tokens_wf(ts),
    ensures
        match spec_parse_elems(ts, i) {
            Ok((vs, j)) => elems_tail_wf(vs) && vs.len() >= 1 && ((vs[0] is Empty) ==> i
                < ts.len() && ts[i] is RightBracket),
            Err(_) => true,
        },
    decreases ts.len() - i, 3int,
{
    lemma_parse_value_wf(ts, i);
    lemma_parse_value_bounds(ts, i);
    match spec_parse_value(ts, i) {
        Ok((v, j0)) => {
            let j = bump(j0, i, ts.len() as int);
            assert(j == j0);
            if j < ts.len() && ts[j] is Comma {
                assert(!(v is Empty));
                lemma_parse_elems_wf(ts, j + 1);
                match spec_parse_elems(ts, j + 1) {
                    Ok((rest, k)) => {
                        let vs = seq![v] + rest;
                        assert(vs[0] == v);
                        assert(vs.subrange(1, vs.len() as int) =~= rest);
                        assert(elems_tail_wf(vs));
                    },
                    Err(_) => {},
                }
            } else if j < ts.len() && ts[j] is RightBracket {
                let vs = seq![v];
                assert(vs[0] == v);
                assert(elems_tail_wf(vs));
                if v is Empty {
                    assert(j == i);
                }
            }
        },
        Err(_) => {},
    }
}

/// A document parsed from well-formed tokens is a well-formed object or
/// array.
pub proof fn lemma_parse_doc_wf(ts: Seq<SpecToken>)
    requires
        tokens_wf(ts),
    ensures
        match spec_parse(ts) {
            Ok(v) => value_wf(v) && (v is Object || v is Array),
            Err(_) => true,
        },
{
    if ts.len() > 0 {
        if ts[0] is LeftBrace {
            lemma_parse_object_wf(ts, 0);
        } else if ts[0] is LeftBracket {
            lemma_parse_array_wf(ts, 0);
        }
    }
}

// ---------------------------------------------------------------------------
// The round-trip law
// ---------------------------------------------------------------------------

/// Any value parsed out of any text round-trips: its rendering
/// tokenizes to exactly its token sequence, and those tokens parse back
/// to the very same value.
pub proof fn theorem_round_trip(text: Seq<char>, toks: Seq<SpecToken>, v: SpecValue)
    requires
        spec_tokenize_at(text, 0) == Ok::<_, TokenParseError>(toks),
        spec_parse(toks) == Ok::<_, SpecParseError>(v),
    ensures
        value_wf(v),
        spec_tokenize_at(spec_render(v), 0) == Ok::<_, TokenParseError>(spec_tokens_of(v)),
        spec_parse(spec_tokens_of(v)) == Ok::<_, SpecParseError>(v),
{
    lemma_tokenize_wf(text, 0);
    lemma_parse_doc_wf(toks);
    lemma_tokenize_of_render(v);
    lemma_parse_doc_of_tokens(v);
}

// ---------------------------------------------------------------------------
// The token-count bound
// ---------------------------------------------------------------------------

/// How many characters of `s[i..]` are not whitespace.
pub open spec fn non_ws_count(s: Seq<char>, i: int) -> int
    decreases s.len() - i,
{
    if i < 0 || i >= s.len() {
        0
    } else {
        (if is_ws(s[i]) {
            0int
        } else {
            1int
        }) + non_ws_count(s, i + 1)
    }
}

/// The count shrinks rightwards, and strictly past a non-whitespace
/// character.
proof fn lemma_count_mono(s: Seq<char>, i: int, j: int)
    requires
        0 <= i <= j,
    ensures
        non_ws_count(s, i) >= non_ws_count(s, j),
        i < j && i < s.len() && !is_ws(s[i]) ==> non_ws_count(s, i) >= 1 + non_ws_count(s, j),
    decreases j - i,
{
    if i < j {
        lemma_count_mono(s, i + 1, j);
    }
}

/// The scan never emits more tokens than it passes non-whitespace
/// characters.
proof fn lemma_tokenize_count(s: Seq<char>, i: int)
    requires
        0 <= i,
    ensures
        match spec_tokenize_at(s, i) {
            Ok(ts) => ts.len() <= non_ws_count(s, i),
            Err(_) => true,
        },
    decreases s.len() - i,
{
    if 0 <= i < s.len() {
        let c = s[i];
        if is_ws(c) {
            lemma_tokenize_count(s, i + 1);
        } else if c == '{' || c == '}' || c == '[' || c == ']' || c == ',' || c == ':' {
            lemma_tokenize_count(s, i + 1);
            lemma_count_mono(s, i, i + 1);
        } else if c == '"' {
            match spec_close_quote(s, i + 1) {
                Some(j) => {
                    lemma_close_quote_bounds(s, i + 1);
                    lemma_tokenize_count(s, j + 1);
                    lemma_count_mono(s, i, j + 1);
                },
                None => {},
            }
        } else if is_num_start(c) {
            let j = spec_num_end(s, i + 1);
            lemma_num_end_bounds(s, i + 1);
            lemma_tokenize_count(s, j);
            lemma_count_mono(s, i, j);
        } else if c == 't' || c == 'f' || c == 'n' {
            if crate::token::spec_true_at(s, i) || crate::token::spec_null_at(s, i) {
                lemma_tokenize_count(s, i + 4);
                lemma_count_mono(s, i, i + 4);
            }
            if crate::token::spec_false_at(s, i) {
                lemma_tokenize_count(s, i + 5);
                lemma_count_mono(s, i, i + 5);
            }
        } else {
            lemma_tokenize_count(s, i + 1);
            lemma_count_mono(s, i, i + 1);
        }
    }
}

/// A successful scan emits at most one token per non-whitespace
/// character, and every token's text is a slice of the input.
pub proof fn theorem_token_bound(s: Seq<char>, toks: Seq<SpecToken>)
    requires
        spec_tokenize_at(s, 0) == Ok::<_, TokenParseError>(toks),
    ensures
        toks.len() <= non_ws_count(s, 0),
        forall|k: int| 0 <= k < toks.len() ==> token_from(#[trigger] toks[k], s),
{
    lemma_tokenize_count(s, 0);
    lemma_tokenize_wf(s, 0);
}

} // verus!
