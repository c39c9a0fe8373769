//! Structured parse errors.
//!
//! Grammar violations carry the expected-token description and the
//! offending token, so a caller can branch on the error's kind.  The
//! internal cursor-underflow error is kept apart from grammar errors: it
//! would indicate a parser bug, never malformed input.

use crate::token::JsonToken;
use crate::token::SpecToken;
use vstd::prelude::*;

verus! {

/// An implementation-invariant violation: stepping the token cursor back
/// past the start.  Never produced on any input; see
/// [`crate::parser::Parser::parse`].
#[derive(Clone, Copy, Debug, PartialEq, Eq, Structural)]
pub enum JsonParserInternalError {
    TokenIndexOutOfRange,
}

/// The mathematical form of a parse error.
pub enum SpecParseError {
    UnexpectedToken { expect: Seq<char>, actual: SpecToken, msg: Seq<char> },
    InternalJsonParserError(JsonParserInternalError),
    UnexpectedEndOfTokens,
}

/// A token that violates the grammar, with what was expected in its
/// place and a human-readable message.
#[derive(Debug, PartialEq)]
pub struct UnexpectedTokenErrorDecr {
    pub expect: &'static str,
    pub actual: JsonToken,
    pub msg: &'static str,
}

/// Why a parse failed; the first grammar violation aborts the whole
/// parse.
#[derive(Debug, PartialEq)]
pub enum JsonParserError {
    UnexpectedToken(UnexpectedTokenErrorDecr),
    InternalJsonParserError(JsonParserInternalError),
    UnexpectedEndOfTokens,
}

impl View for JsonParserError {
    type V = SpecParseError;

    open spec fn view(&self) -> SpecParseError {
        match self {
            JsonParserError::UnexpectedToken(d) => SpecParseError::UnexpectedToken {
                expect: d.expect@,
                actual: d.actual@,
                msg: d.msg@,
            },
            JsonParserError::InternalJsonParserError(e) => SpecParseError::InternalJsonParserError(
                *e,
            ),
            JsonParserError::UnexpectedEndOfTokens => SpecParseError::UnexpectedEndOfTokens,
        }
    }
}

/// The error for a document that does not open with `{` or `[`.
pub fn expect_first_token_is_left_bracket_or_brace(token: &JsonToken) -> (r: JsonParserError)
    ensures
        r@ == (SpecParseError::UnexpectedToken {
            expect: "{ or ["@,
            actual: token@,
            msg: "it should be { or [ on the first token for json value"@,
        }),
{
    JsonParserError::UnexpectedToken(
        UnexpectedTokenErrorDecr {
            expect: "{ or [",
            actual: token.clone(),
            msg: "it should be { or [ on the first token for json value",
        },
    )
}

/// The error for an object that does not open with `{`.
pub fn expect_first_token_is_left_brace(token: &JsonToken) -> (r: JsonParserError)
    ensures
        r@ == (SpecParseError::UnexpectedToken {
            expect: "{"@,
            actual: token@,
            msg: "it should be { on the first token for json object"@,
        }),
{
    JsonParserError::UnexpectedToken(
        UnexpectedTokenErrorDecr {
            expect: "{",
            actual: token.clone(),
            msg: "it should be { on the first token for json object",
        },
    )
}

/// The error for a key that is not followed by `:`.
pub fn expect_colon_after_key(token: &JsonToken) -> (r: JsonParserError)
    ensures
        r@ == (SpecParseError::UnexpectedToken {
            expect: ":"@,
            actual: token@,
            msg: "it should be : after key"@,
        }),
{
    JsonParserError::UnexpectedToken(
        UnexpectedTokenErrorDecr {
            expect: ":",
            actual: token.clone(),
            msg: "it should be : after key",
        },
    )
}

/// The error for a member value that is not followed by `,` or `}`.
pub fn expect_a_comma_or_right_brace_after_value(token: &JsonToken) -> (r: JsonParserError)
    ensures
        r@ == (SpecParseError::UnexpectedToken {
            expect: ", or }"@,
            actual: token@,
            msg: "it should be , or } after value"@,
        }),
{
    JsonParserError::UnexpectedToken(
        UnexpectedTokenErrorDecr {
            expect: ", or }",
            actual: token.clone(),
            msg: "it should be , or } after value",
        },
    )
}

/// The error for an object position that holds neither a key nor `}`.
pub fn expect_key_or_right_brace(token: &JsonToken) -> (r: JsonParserError)
    ensures
        r@ == (SpecParseError::UnexpectedToken {
            expect: "} or key"@,
            actual: token@,
            msg: "it should be value after :"@,
        }),
{
    JsonParserError::UnexpectedToken(
        UnexpectedTokenErrorDecr {
            expect: "} or key",
            actual: token.clone(),
            msg: "it should be value after :",
        },
    )
}

} // verus!
