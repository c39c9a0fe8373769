//! Recursive-descent parsing of a token sequence into a value tree.
//!
//! The grammar is specified by the mutually recursive `spec_parse_*`
//! functions, and the executable [`Parser`] is proved to agree with them
//! exactly, errors included.  The cursor steps back by one after a
//! container's terminator is detected; stepping back past the start
//! would be an implementation bug and is kept distinct as
//! [`JsonParserInternalError`], which [`Parser::parse`] provably never
//! returns.

use crate::error::JsonParserError;
use crate::error::JsonParserInternalError;
use crate::error::SpecParseError;
use crate::error::UnexpectedTokenErrorDecr;
use crate::error::expect_a_comma_or_right_brace_after_value;
use crate::error::expect_colon_after_key;
use crate::error::expect_first_token_is_left_brace;
use crate::error::expect_first_token_is_left_bracket_or_brace;
use crate::error::expect_key_or_right_brace;
use crate::token::JsonToken;
use crate::token::JsonTokenStream;
use crate::token::SpecToken;
use crate::value::JsonArray;
use crate::value::JsonObject;
use crate::value::JsonValue;
use crate::value::KeyValue;
use crate::value::SpecValue;
use crate::value::lemma_pairs_of;
use crate::value::lemma_values_of;
use crate::value::spec_pairs_of;
use crate::value::spec_value_of;
use crate::value::spec_values_of;
use vstd::prelude::*;

verus! {

// ---------------------------------------------------------------------------
// The grammar, specified
// ---------------------------------------------------------------------------

/// Forces a sub-parse's returned position into `[lo, len]` so that the
/// recursion is structurally decreasing.  Every sub-parse in fact
/// returns a position in that range (see [`lemma_parse_value_bounds`]),
/// so the clamp never changes a value.
pub open spec fn bump(j: int, lo: int, len: int) -> int {
    if lo <= j <= len {
        j
    } else {
        lo
    }
}

/// One value starting at `i`: a scalar consumes its token; `{` and `[`
/// recurse into the container rules; a closing bracket or brace where a
/// value was expected yields the `Empty` sentinel and consumes nothing.
pub open spec fn spec_parse_value(ts: Seq<SpecToken>, i: int) -> Result<
    (SpecValue, int),
    SpecParseError,
>
    decreases ts.len() - i, 2int,
{
    if i < 0 || i >= ts.len() {
        Err(SpecParseError::UnexpectedEndOfTokens)
    } else {
        match ts[i] {
            SpecToken::StringLiteral(s) => Ok((SpecValue::Str(s), i + 1)),
            SpecToken::NumberLiteral(x) => Ok((SpecValue::Number(x), i + 1)),
            SpecToken::True => Ok((SpecValue::Boolean(true), i + 1)),
            SpecToken::False => Ok((SpecValue::Boolean(false), i + 1)),
            SpecToken::Null => Ok((SpecValue::Null, i + 1)),
            SpecToken::LeftBrace => match spec_parse_object(ts, i) {
                Ok((ps, j)) => Ok((SpecValue::Object(ps), j)),
                Err(e) => Err(e),
            },
            SpecToken::LeftBracket => match spec_parse_array(ts, i) {
                Ok((vs, j)) => Ok((SpecValue::Array(vs), j)),
                Err(e) => Err(e),
            },
            SpecToken::RightBracket => Ok((SpecValue::Empty, i)),
            SpecToken::RightBrace => Ok((SpecValue::Empty, i)),
            _ => Err(
                SpecParseError::UnexpectedToken {
                    expect: "string, number, true, false, null, {, ["@,
                    actual: ts[i],
                    msg: "it should be string, number, true, false, null, {, ["@,
                },
            ),
        }
    }
}

/// One object starting at `i`: `{`, then its members.
pub open spec fn spec_parse_object(ts: Seq<SpecToken>, i: int) -> Result<
    (Seq<(Seq<char>, SpecValue)>, int),
    SpecParseError,
>
    decreases ts.len() - i, 1int,
{
    if i < 0 || i >= ts.len() {
        Err(SpecParseError::UnexpectedEndOfTokens)
    } else if !(ts[i] is LeftBrace) {
        Err(
            SpecParseError::UnexpectedToken {
                expect: "{"@,
                actual: ts[i],
                msg: "it should be { on the first token for json object"@,
            },
        )
    } else {
        spec_parse_members(ts, i + 1)
    }
}

/// The members of an object after its `{`: either `}` at once, or
/// `"key" : value` members separated by commas and ended by `}`.
pub open spec fn spec_parse_members(ts: Seq<SpecToken>, i: int) -> Result<
    (Seq<(Seq<char>, SpecValue)>, int),
    SpecParseError,
>
    decreases ts.len() - i, 0int,
{
    if i < 0 || i >= ts.len() {
        Err(SpecParseError::UnexpectedEndOfTokens)
    } else {
        match ts[i] {
            SpecToken::RightBrace => Ok((Seq::empty(), i + 1)),
            SpecToken::StringLiteral(key) => {
                if i + 1 >= ts.len() {
                    Err(SpecParseError::UnexpectedEndOfTokens)
                } else if !(ts[i + 1] is Colon) {
                    Err(
                        SpecParseError::UnexpectedToken {
                            expect: ":"@,
                            actual: ts[i + 1],
                            msg: "it should be : after key"@,
                        },
                    )
                } else {
                    match spec_parse_value(ts, i + 2) {
                        Err(e) => Err(e),
                        Ok((v, j0)) => {
                            let j = bump(j0, i + 2, ts.len() as int);
                            if j >= ts.len() {
                                Err(SpecParseError::UnexpectedEndOfTokens)
                            } else if ts[j] is Comma {
                                match spec_parse_members(ts, j + 1) {
                                    Err(e) => Err(e),
                                    Ok((rest, k)) => Ok((seq![(key, v)] + rest, k)),
                                }
                            } else if ts[j] is RightBrace {
                                Ok((seq![(key, v)], j + 1))
                            } else {
                                Err(
                                    SpecParseError::UnexpectedToken {
                                        expect: ", or }"@,
                                        actual: ts[j],
                                        msg: "it should be , or } after value"@,
                                    },
                                )
                            }
                        },
                    }
                }
            },
            _ => Err(
                SpecParseError::UnexpectedToken {
                    expect: "} or key"@,
                    actual: ts[i],
                    msg: "it should be value after :"@,
                },
            ),
        }
    }
}

/// One array starting at `i`: `[`, then `]` at once or its elements.
pub open spec fn spec_parse_array(ts: Seq<SpecToken>, i: int) -> Result<
    (Seq<SpecValue>, int),
    SpecParseError,
>
    decreases ts.len() - i, 1int,
{
    if i < 0 || i >= ts.len() {
        Err(SpecParseError::UnexpectedEndOfTokens)
    } else if !(ts[i] is LeftBracket) {
        Err(
            SpecParseError::UnexpectedToken {
                expect: "["@,
                actual: ts[i],
                msg: "it should be [ on the first token for json array"@,
            },
        )
    } else if i + 1 < ts.len() && ts[i + 1] is RightBracket {
        Ok((Seq::empty(), i + 2))
    } else {
        spec_parse_elems(ts, i + 1)
    }
}

/// The elements of a non-empty array after its `[`: values separated by
/// commas and ended by `]`.
pub open spec fn spec_parse_elems(ts: Seq<SpecToken>, i: int) -> Result<
    (Seq<SpecValue>, int),
    SpecParseError,
>
    decreases ts.len() - i, 3int,
{
    match spec_parse_value(ts, i) {
        Err(e) => Err(e),
        Ok((v, j0)) => {
            let j = bump(j0, i, ts.len() as int);
            if j >= ts.len() {
                Err(SpecParseError::UnexpectedEndOfTokens)
            } else if ts[j] is Comma {
                match spec_parse_elems(ts, j + 1) {
                    Err(e) => Err(e),
                    Ok((rest, k)) => Ok((seq![v] + rest, k)),
                }
            } else if ts[j] is RightBracket {
                Ok((seq![v], j + 1))
            } else {
                Err(
                    SpecParseError::UnexpectedToken {
                        expect: ", or ]"@,
                        actual: ts[j],
                        msg: "it should be , or ] after value"@,
                    },
                )
            }
        },
    }
}

/// A whole document: the first token must open an object or an array;
/// tokens after the closed top-level container are not examined.
pub open spec fn spec_parse(ts: Seq<SpecToken>) -> Result<SpecValue, SpecParseError> {
    if ts.len() == 0 {
        Err(SpecParseError::UnexpectedEndOfTokens)
    } else if ts[0] is LeftBrace {
        match spec_parse_object(ts, 0) {
            Ok((ps, j)) => Ok(SpecValue::Object(ps)),
            Err(e) => Err(e),
        }
    } else if ts[0] is LeftBracket {
        match spec_parse_array(ts, 0) {
            Ok((vs, j)) => Ok(SpecValue::Array(vs)),
            Err(e) => Err(e),
        }
    } else {
        Err(
            SpecParseError::UnexpectedToken {
                expect: "{ or ["@,
                actual: ts[0],
                msg: "it should be { or [ on the first token for json value"@,
            },
        )
    }
}

// ---------------------------------------------------------------------------
// Bounds of the grammar functions
// ---------------------------------------------------------------------------

/// A successful value parse ends inside the input; it stands still
/// exactly when it yields the `Empty` sentinel, which happens only on a
/// closing bracket or brace.
pub proof fn lemma_parse_value_bounds(ts: Seq<SpecToken>, i: int)
    requires
        0 <= i,
    ensures
        match spec_parse_value(ts, i) {
            Ok((v, j)) => i <= j <= ts.len() && ((v is Empty) <==> j == i) && ((v is Empty)
                ==> ts[i] is RightBracket || ts[i] is RightBrace),
            Err(e) => !(e is InternalJsonParserError),
        },
    decreases ts.len() - i, 2int,
{
    if 0 <= i < ts.len() {
        match ts[i] {
            SpecToken::LeftBrace => lemma_parse_object_bounds(ts, i),
            SpecToken::LeftBracket => lemma_parse_array_bounds(ts, i),
            _ => {},
        }
    }
}

/// A successful object parse consumes at least its braces.
pub proof fn lemma_parse_object_bounds(ts: Seq<SpecToken>, i: int)
    requires
        0 <= i,
    ensures
        match spec_parse_object(ts, i) {
            Ok((ps, j)) => i + 2 <= j <= ts.len(),
            Err(e) => !(e is InternalJsonParserError),
        },
    decreases ts.len() - i, 1int,
{
    if 0 <= i < ts.len() && ts[i] is LeftBrace {
        lemma_parse_members_bounds(ts, i + 1);
    }
}

/// A successful member parse consumes at least the closing brace.
pub proof fn lemma_parse_members_bounds(ts: Seq<SpecToken>, i: int)
    requires
        0 <= i,
    ensures
        match spec_parse_members(ts, i) {
            Ok((ps, j)) => i + 1 <= j <= ts.len(),
            Err(e) => !(e is InternalJsonParserError),
        },
    decreases ts.len() - i, 0int,
{
    if 0 <= i < ts.len() {
        match ts[i] {
            SpecToken::StringLiteral(key) => {
                if i + 1 < ts.len() && ts[i + 1] is Colon {
                    lemma_parse_value_bounds(ts, i + 2);
                    match spec_parse_value(ts, i + 2) {
                        Ok((v, j0)) => {
                            let j = bump(j0, i + 2, ts.len() as int);
                            if j < ts.len() && ts[j] is Comma {
                                lemma_parse_members_bounds(ts, j + 1);
                            }
                        },
                        Err(_) => {},
                    }
                }
            },
            _ => {},
        }
    }
}

/// A successful array parse consumes at least its brackets.
pub proof fn lemma_parse_array_bounds(ts: Seq<SpecToken>, i: int)
    requires
        0 <= i,
    ensures
        match spec_parse_array(ts, i) {
            Ok((vs, j)) => i + 2 <= j <= ts.len(),
            Err(e) => !(e is InternalJsonParserError),
        },
    decreases ts.len() - i, 1int,
{
    if 0 <= i < ts.len() && ts[i] is LeftBracket {
        if !(i + 1 < ts.len() && ts[i + 1] is RightBracket) {
            lemma_parse_elems_bounds(ts, i + 1);
        }
    }
}

/// A successful element parse consumes at least the closing bracket.
pub proof fn lemma_parse_elems_bounds(ts: Seq<SpecToken>, i: int)
    requires
        0 <= i,
    ensures
        match spec_parse_elems(ts, i) {
            Ok((vs, j)) => i + 1 <= j <= ts.len(),
            Err(e) => !(e is InternalJsonParserError),
        },
    decreases ts.len() - i, 3int,
{
    lemma_parse_value_bounds(ts, i);
    match spec_parse_value(ts, i) {
        Ok((v, j0)) => {
            let j = bump(j0, i, ts.len() as int);
            if j < ts.len() && ts[j] is Comma {
                lemma_parse_elems_bounds(ts, j + 1);
            }
        },
        Err(_) => {},
    }
}

// ---------------------------------------------------------------------------
// The executable parser
// ---------------------------------------------------------------------------

/// A cursor over one token sequence; owned by exactly one parse
/// invocation.
#[derive(Debug)]
pub struct Parser {
    tokens: Vec<JsonToken>,
    pos: usize,
}

impl Parser {
    /// The token sequence, mathematically.
    pub closed spec fn toks(&self) -> Seq<SpecToken> {
        self.tokens@.map_values(|t: JsonToken| t@)
    }

    /// The cursor position.
    pub closed spec fn cursor(&self) -> int {
        self.pos as int
    }

    /// A parser over `tokens`, with its cursor at the start.
    pub fn new(tokens: JsonTokenStream) -> (p: Parser)
        ensures
            p.toks() == tokens@,
            p.cursor() == 0,
    {
        Parser { tokens: tokens.tokens, pos: 0 }
    }

    /// The token under the cursor, without advancing.
    pub fn peek(&self) -> (r: Option<&JsonToken>)
        ensures
            match r {
                Some(t) => self.cursor() < self.toks().len() && t@ == self.toks()[self.cursor()],
                None => self.cursor() >= self.toks().len(),
            },
    {
        if self.pos < self.tokens.len() {
            Some(&self.tokens[self.pos])
        } else {
            None
        }
    }

    /// The token under the cursor, advancing past it.
    pub fn next(&mut self) -> (r: Option<JsonToken>)
        ensures
            final(self).toks() == old(self).toks(),
            match r {
                Some(t) => {
                    &&& old(self).cursor() < old(self).toks().len()
                    &&& t@ == final(self).toks()[old(self).cursor()]
                    &&& final(self).cursor() == old(self).cursor() + 1
                },
                None => {
                    &&& old(self).cursor() >= old(self).toks().len()
                    &&& final(self).cursor() == old(self).cursor()
                },
            },
    {
        if self.pos < self.tokens.len() {
            let t: JsonToken = self.tokens[self.pos].clone();
            self.pos = self.pos + 1;
            Some(t)
        } else {
            None
        }
    }

    /// The token `offset` places past the cursor, without advancing.
    pub fn peek_offset(&self, offset: usize) -> (r: Option<&JsonToken>)
        ensures
            match r {
                Some(t) => self.cursor() + offset < self.toks().len() && t@ == self.toks()[self.cursor() + offset],
                None => self.cursor() + offset >= self.toks().len(),
            },
    {
        let n: usize = self.tokens.len();
        if self.pos < n && offset < n - self.pos {
            Some(&self.tokens[self.pos + offset])
        } else {
            None
        }
    }

    /// Jumps the cursor forward by `offset` and reads the token there;
    /// the cursor does not move when that position is past the end.
    pub fn next_offset(&mut self, offset: usize) -> (r: Option<JsonToken>)
        ensures
            final(self).toks() == old(self).toks(),
            match r {
                Some(t) => {
                    &&& old(self).cursor() + offset < old(self).toks().len()
                    &&& final(self).cursor() == old(self).cursor() + offset
                    &&& t@ == final(self).toks()[final(self).cursor()]
                },
                None => {
                    &&& old(self).cursor() + offset >= old(self).toks().len()
                    &&& final(self).cursor() == old(self).cursor()
                },
            },
    {
        let n: usize = self.tokens.len();
        if self.pos < n && offset < n - self.pos {
            self.pos = self.pos + offset;
            Some(self.tokens[self.pos].clone())
        } else {
            None
        }
    }

    /// Steps the cursor back by one, so a caller can re-examine a
    /// container's opening or closing token.  Stepping back past the
    /// start is the internal invariant violation.
    pub fn last(&mut self) -> (r: Result<(), JsonParserInternalError>)
        ensures
            final(self).toks() == old(self).toks(),
            match r {
                Ok(()) => old(self).cursor() > 0 && final(self).cursor() == old(self).cursor() - 1,
                Err(e) => {
                    &&& e == JsonParserInternalError::TokenIndexOutOfRange
                    &&& old(self).cursor() == 0
                    &&& final(self).cursor() == 0
                },
            },
    {
        if self.pos == 0 {
            Err(JsonParserInternalError::TokenIndexOutOfRange)
        } else {
            self.pos = self.pos - 1;
            Ok(())
        }
    }

    /// Parses the whole document: the result, value tree or error, is
    /// exactly what [`spec_parse`] gives on the token sequence.  The
    /// internal cursor error is provably never returned.
    pub fn parse(&mut self) -> (r: Result<JsonValue, JsonParserError>)
        requires
            old(self).cursor() == 0,
        ensures
            final(self).toks() == old(self).toks(),
            match r {
                Ok(v) => spec_parse(old(self).toks()) == Ok::<_, SpecParseError>(v@),
                Err(e) => spec_parse(old(self).toks()) == Err::<SpecValue, _>(e@) && !(e@
                    is InternalJsonParserError),
            },
    {
        let ghost ts = self.toks();
        match self.peek() {
            None => Err(JsonParserError::UnexpectedEndOfTokens),
            Some(t) => {
                let first: JsonToken = t.clone();
                proof {
                    assert(ts.len() > 0);
                    assert(first@ == ts[0]);
                }
                match first {
                    JsonToken::LeftBrace => match self.parse_object_at() {
                        Ok(o) => {
                            proof {
                                assert(ts[0] is LeftBrace);
                                assert(spec_parse(ts) == Ok::<_, SpecParseError>(
                                    SpecValue::Object(o@),
                                ));
                            }
                            Ok(JsonValue::Object(o))
                        },
                        Err(e) => {
                            proof {
                                lemma_parse_object_bounds(ts, 0);
                            }
                            Err(e)
                        },
                    },
                    JsonToken::LeftBracket => match self.parse_array_at() {
                        Ok(a) => {
                            proof {
                                assert(ts[0] is LeftBracket);
                                assert(spec_parse(ts) == Ok::<_, SpecParseError>(
                                    SpecValue::Array(a@),
                                ));
                            }
                            Ok(JsonValue::Array(a))
                        },
                        Err(e) => {
                            proof {
                                lemma_parse_array_bounds(ts, 0);
                            }
                            Err(e)
                        },
                    },
                    other => Err(expect_first_token_is_left_bracket_or_brace(&other)),
                }
            },
        }
    }

    /// One value at the cursor, as [`spec_parse_value`] describes.
    fn parse_value_at(&mut self) -> (r: Result<JsonValue, JsonParserError>)
        requires
            old(self).cursor() <= old(self).toks().len(),
        ensures
            final(self).toks() == old(self).toks(),
            final(self).cursor() <= final(self).toks().len(),
            match r {
                Ok(v) => spec_parse_value(old(self).toks(), old(self).cursor()) == Ok::<
                    _,
                    SpecParseError,
                >((v@, final(self).cursor())),
                Err(e) => spec_parse_value(old(self).toks(), old(self).cursor()) == Err::<
                    (SpecValue, int),
                    _,
                >(e@),
            },
        decreases self.toks().len() - self.cursor(), 2int,
    {
        let ghost ts = self.toks();
        let ghost i = self.cursor();
        match self.next() {
            None => Err(JsonParserError::UnexpectedEndOfTokens),
            Some(t) => match t {
                JsonToken::StringLiteral(s) => Ok(JsonValue::Str(s)),
                JsonToken::NumberLiteral(x) => Ok(JsonValue::Number(x)),
                JsonToken::True => Ok(JsonValue::Boolean(true)),
                JsonToken::False => Ok(JsonValue::Boolean(false)),
                JsonToken::Null => Ok(JsonValue::Null),
                JsonToken::LeftBrace => {
                    match self.last() {
                        Ok(()) => {},
                        Err(e) => {
                            return Err(JsonParserError::InternalJsonParserError(e));
                        },
                    }
                    match self.parse_object_at() {
                        Ok(o) => Ok(JsonValue::Object(o)),
                        Err(e) => Err(e),
                    }
                },
                JsonToken::LeftBracket => {
                    match self.last() {
                        Ok(()) => {},
                        Err(e) => {
                            return Err(JsonParserError::InternalJsonParserError(e));
                        },
                    }
                    match self.parse_array_at() {
                        Ok(a) => Ok(JsonValue::Array(a)),
                        Err(e) => Err(e),
                    }
                },
                JsonToken::RightBracket => {
                    match self.last() {
                        Ok(()) => {},
                        Err(e) => {
                            return Err(JsonParserError::InternalJsonParserError(e));
                        },
                    }
                    Ok(JsonValue::Empty)
                },
                JsonToken::RightBrace => {
                    match self.last() {
                        Ok(()) => {},
                        Err(e) => {
                            return Err(JsonParserError::InternalJsonParserError(e));
                        },
                    }
                    Ok(JsonValue::Empty)
                },
                other => Err(
                    JsonParserError::UnexpectedToken(
                        UnexpectedTokenErrorDecr {
                            expect: "string, number, true, false, null, {, [",
                            actual: other,
                            msg: "it should be string, number, true, false, null, {, [",
                        },
                    ),
                ),
            },
        }
    }

    /// One object at the cursor, as [`spec_parse_object`] describes.
    fn parse_object_at(&mut self) -> (r: Result<JsonObject, JsonParserError>)
        requires
            old(self).cursor() <= old(self).toks().len(),
        ensures
            final(self).toks() == old(self).toks(),
            final(self).cursor() <= final(self).toks().len(),
            match r {
                Ok(o) => spec_parse_object(old(self).toks(), old(self).cursor()) == Ok::<
                    _,
                    SpecParseError,
                >((o@, final(self).cursor())),
                Err(e) => spec_parse_object(old(self).toks(), old(self).cursor()) == Err::<
                    (Seq<(Seq<char>, SpecValue)>, int),
                    _,
                >(e@),
            },
        decreases self.toks().len() - self.cursor(), 1int,
    {
        match self.next() {
            None => Err(JsonParserError::UnexpectedEndOfTokens),
            Some(t) => match t {
                JsonToken::LeftBrace => match self.parse_members_at() {
                    Ok(children) => Ok(JsonObject { children }),
                    Err(e) => Err(e),
                },
                other => Err(expect_first_token_is_left_brace(&other)),
            },
        }
    }

    /// The members after an object's `{`, as [`spec_parse_members`]
    /// describes.
    fn parse_members_at(&mut self) -> (r: Result<Vec<KeyValue>, JsonParserError>)
        requires
            old(self).cursor() <= old(self).toks().len(),
        ensures
            final(self).toks() == old(self).toks(),
            final(self).cursor() <= final(self).toks().len(),
            match r {
                Ok(children) => spec_parse_members(old(self).toks(), old(self).cursor()) == Ok::<
                    _,
                    SpecParseError,
                >((spec_pairs_of(children@), final(self).cursor())),
                Err(e) => spec_parse_members(old(self).toks(), old(self).cursor()) == Err::<
                    (Seq<(Seq<char>, SpecValue)>, int),
                    _,
                >(e@),
            },
        decreases self.toks().len() - self.cursor(), 0int,
    {
        let ghost ts = self.toks();
        let ghost i = self.cursor();
        match self.next() {
            None => Err(JsonParserError::UnexpectedEndOfTokens),
            Some(t) => match t {
                JsonToken::RightBrace => {
                    let children: Vec<KeyValue> = Vec::new();
                    proof {
                        assert(spec_pairs_of(children@) =~= Seq::<(Seq<char>, SpecValue)>::empty());
                    }
                    Ok(children)
                },
                JsonToken::StringLiteral(key) => {
                    match self.next() {
                        None => {
                            return Err(JsonParserError::UnexpectedEndOfTokens);
                        },
                        Some(t2) => match t2 {
                            JsonToken::Colon => {},
                            other => {
                                return Err(expect_colon_after_key(&other));
                            },
                        },
                    }
                    let value: JsonValue = match self.parse_value_at() {
                        Ok(v) => v,
                        Err(e) => {
                            return Err(e);
                        },
                    };
                    proof {
                        lemma_parse_value_bounds(ts, i + 2);
                    }
                    match self.next() {
                        None => Err(JsonParserError::UnexpectedEndOfTokens),
                        Some(t3) => match t3 {
                            JsonToken::Comma => {
                                let mut rest: Vec<KeyValue> = match self.parse_members_at() {
                                    Ok(r) => r,
                                    Err(e) => {
                                        return Err(e);
                                    },
                                };
                                let ghost old_rest = rest@;
                                rest.insert(0, KeyValue { key, value });
                                proof {
                                    lemma_pairs_of(rest@);
                                    lemma_pairs_of(old_rest);
                                    assert(rest@.subrange(1, rest@.len() as int) =~= old_rest);
                                    assert(spec_pairs_of(rest@) =~= seq![
                                        (rest@[0].key@, spec_value_of(rest@[0].value)),
                                    ] + spec_pairs_of(old_rest)) by {
                                        lemma_pairs_of(rest@);
                                        lemma_pairs_of(old_rest);
                                    }
                                }
                                Ok(rest)
                            },
                            JsonToken::RightBrace => {
                                let mut children: Vec<KeyValue> = Vec::new();
                                children.push(KeyValue { key, value });
                                proof {
                                    lemma_pairs_of(children@);
                                    assert(spec_pairs_of(children@) =~= seq![
                                        (children@[0].key@, spec_value_of(children@[0].value)),
                                    ]);
                                }
                                Ok(children)
                            },
                            other => Err(expect_a_comma_or_right_brace_after_value(&other)),
                        },
                    }
                },
                other => Err(expect_key_or_right_brace(&other)),
            },
        }
    }

    /// One array at the cursor, as [`spec_parse_array`] describes.
    fn parse_array_at(&mut self) -> (r: Result<JsonArray, JsonParserError>)
        requires
            old(self).cursor() <= old(self).toks().len(),
        ensures
            final(self).toks() == old(self).toks(),
            final(self).cursor() <= final(self).toks().len(),
            match r {
                Ok(a) => spec_parse_array(old(self).toks(), old(self).cursor()) == Ok::<
                    _,
                    SpecParseError,
                >((a@, final(self).cursor())),
                Err(e) => spec_parse_array(old(self).toks(), old(self).cursor()) == Err::<
                    (Seq<SpecValue>, int),
                    _,
                >(e@),
            },
        decreases self.toks().len() - self.cursor(), 1int,
    {
        match self.next() {
            None => Err(JsonParserError::UnexpectedEndOfTokens),
            Some(t) => match t {
                JsonToken::LeftBracket => {
                    let empty: bool = match self.peek() {
                        Some(t2) => match t2 {
                            JsonToken::RightBracket => true,
                            _ => false,
                        },
                        None => false,
                    };
                    if empty {
                        let _ = self.next();
                        let a = JsonArray { array: Vec::new() };
                        proof {
                            assert(a@ =~= Seq::<SpecValue>::empty());
                        }
                        Ok(a)
                    } else {
                        match self.parse_elems_at() {
                            Ok(array) => Ok(JsonArray { array }),
                            Err(e) => Err(e),
                        }
                    }
                },
                other => Err(
                    JsonParserError::UnexpectedToken(
                        UnexpectedTokenErrorDecr {
                            expect: "[",
                            actual: other,
                            msg: "it should be [ on the first token for json array",
                        },
                    ),
                ),
            },
        }
    }

    /// The elements after an array's `[`, as [`spec_parse_elems`]
    /// describes.
    fn parse_elems_at(&mut self) -> (r: Result<Vec<JsonValue>, JsonParserError>)
        requires
            old(self).cursor() <= old(self).toks().len(),
        ensures
            final(self).toks() == old(self).toks(),
            final(self).cursor() <= final(self).toks().len(),
            match r {
                Ok(array) => spec_parse_elems(old(self).toks(), old(self).cursor()) == Ok::<
                    _,
                    SpecParseError,
                >((spec_values_of(array@), final(self).cursor())),
                Err(e) => spec_parse_elems(old(self).toks(), old(self).cursor()) == Err::<
                    (Seq<SpecValue>, int),
                    _,
                >(e@),
            },
        decreases self.toks().len() - self.cursor(), 3int,
    {
        let ghost ts = self.toks();
        let ghost i = self.cursor();
        let value: JsonValue = match self.parse_value_at() {
            Ok(v) => v,
            Err(e) => {
                return Err(e);
            },
        };
        proof {
            lemma_parse_value_bounds(ts, i);
        }
        match self.next() {
            None => Err(JsonParserError::UnexpectedEndOfTokens),
            Some(t) => match t {
                JsonToken::Comma => {
                    let mut rest: Vec<JsonValue> = match self.parse_elems_at() {
                        Ok(r) => r,
                        Err(e) => {
                            return Err(e);
                        },
                    };
                    let ghost old_rest = rest@;
                    rest.insert(0, value);
                    proof {
                        lemma_values_of(rest@);
                        lemma_values_of(old_rest);
                        assert(rest@.subrange(1, rest@.len() as int) =~= old_rest);
                        assert(spec_values_of(rest@) =~= seq![spec_value_of(rest@[0])]
                            + spec_values_of(old_rest)) by {
                            lemma_values_of(rest@);
                            lemma_values_of(old_rest);
                        }
                    }
                    Ok(rest)
                },
                JsonToken::RightBracket => {
                    let mut array: Vec<JsonValue> = Vec::new();
                    array.push(value);
                    proof {
                        lemma_values_of(array@);
                        assert(spec_values_of(array@) =~= seq![spec_value_of(array@[0])]);
                    }
                    Ok(array)
                },
                other => Err(
                    JsonParserError::UnexpectedToken(
                        UnexpectedTokenErrorDecr {
                            expect: ", or ]",
                            actual: other,
                            msg: "it should be , or ] after value",
                        },
                    ),
                ),
            },
        }
    }
}

} // verus!
