//! Lexical tokenization of JSON text.
//!
//! [`parse_to_tokens`] scans the input left to right, skips whitespace,
//! and emits one [`JsonToken`] per lexical unit.  The whole scan is
//! specified by the recursive [`spec_tokenize_at`], and the executable
//! code is proved to agree with it exactly, errors included.

use vstd::prelude::*;

verus! {

// ---------------------------------------------------------------------------
// Character classes
// ---------------------------------------------------------------------------

/// ASCII whitespace skipped between tokens.
pub open spec fn is_ws(c: char) -> bool {
    c == ' ' || c == '\t' || c == '\n' || c == '\r'
}

/// A decimal digit.
pub open spec fn is_digit(c: char) -> bool {
    '0' <= c && c <= '9'
}

/// A leading sign of a numeral.
pub open spec fn is_sign(c: char) -> bool {
    c == '+' || c == '-'
}

/// A character that may start a numeral.
pub open spec fn is_num_start(c: char) -> bool {
    is_digit(c) || is_sign(c)
}

/// A character that may continue a numeral run.
pub open spec fn is_num_char(c: char) -> bool {
    is_digit(c) || c == '.'
}

// ---------------------------------------------------------------------------
// Tokens and lexical errors
// ---------------------------------------------------------------------------

/// The mathematical form of a token: text payloads are plain
/// character sequences.
pub enum SpecToken {
    LeftBrace,
    RightBrace,
    LeftBracket,
    RightBracket,
    Colon,
    Comma,
    True,
    False,
    Null,
    StringLiteral(Seq<char>),
    NumberLiteral(Seq<char>),
}

/// A lexical token.  `StringLiteral` holds the text between the quotes
/// with escape sequences kept verbatim; `NumberLiteral` holds the numeral
/// exactly as it stood in the input.
#[derive(Debug, PartialEq)]
pub enum JsonToken {
    LeftBrace,
    RightBrace,
    LeftBracket,
    RightBracket,
    Colon,
    Comma,
    True,
    False,
    Null,
    StringLiteral(String),
    NumberLiteral(String),
}

impl View for JsonToken {
    type V = SpecToken;

    open spec fn view(&self) -> SpecToken {
        match self {
            JsonToken::LeftBrace => SpecToken::LeftBrace,
            JsonToken::RightBrace => SpecToken::RightBrace,
            JsonToken::LeftBracket => SpecToken::LeftBracket,
            JsonToken::RightBracket => SpecToken::RightBracket,
            JsonToken::Colon => SpecToken::Colon,
            JsonToken::Comma => SpecToken::Comma,
            JsonToken::True => SpecToken::True,
            JsonToken::False => SpecToken::False,
            JsonToken::Null => SpecToken::Null,
            JsonToken::StringLiteral(s) => SpecToken::StringLiteral(s@),
            JsonToken::NumberLiteral(s) => SpecToken::NumberLiteral(s@),
        }
    }
}

impl Clone for JsonToken {
    /// A clone is equal to the original, string payloads included.
    fn clone(&self) -> (r: Self)
        ensures
            r == self,
    {
        match self {
            JsonToken::LeftBrace => JsonToken::LeftBrace,
            JsonToken::RightBrace => JsonToken::RightBrace,
            JsonToken::LeftBracket => JsonToken::LeftBracket,
            JsonToken::RightBracket => JsonToken::RightBracket,
            JsonToken::Colon => JsonToken::Colon,
            JsonToken::Comma => JsonToken::Comma,
            JsonToken::True => JsonToken::True,
            JsonToken::False => JsonToken::False,
            JsonToken::Null => JsonToken::Null,
            JsonToken::StringLiteral(s) => JsonToken::StringLiteral(s.clone()),
            JsonToken::NumberLiteral(s) => JsonToken::NumberLiteral(s.clone()),
        }
    }
}

/// The ordered sequence of tokens produced by one scan.
#[derive(Debug, PartialEq)]
pub struct JsonTokenStream {
    pub tokens: Vec<JsonToken>,
}

impl View for JsonTokenStream {
    type V = Seq<SpecToken>;

    open spec fn view(&self) -> Seq<SpecToken> {
        self.tokens@.map_values(|t: JsonToken| t@)
    }
}

/// Why a numeral failed to tokenize.
#[derive(Clone, Copy, Debug, PartialEq, Eq, Structural)]
pub enum NumberParseErrorKind {
    /// The numeral run contained a second decimal point.
    DoubleDotInNumber,
    /// The scanned run held no digit at all (a bare sign, for instance).
    InvalidNumber,
}

/// A lexical error; the first one aborts the whole scan.
#[derive(Clone, Copy, Debug, PartialEq, Eq, Structural)]
pub enum TokenParseError {
    /// A string literal with no closing quote before the end of input.
    KeyParseError,
    /// A malformed numeral.
    NumberParseError(NumberParseErrorKind),
    /// A `t`, `f` or `n` that did not begin `true`, `false` or `null`.
    UnknownKeyword,
}

// ---------------------------------------------------------------------------
// The scan, specified
// ---------------------------------------------------------------------------

/// The index of the closing quote of a string literal whose content
/// starts at `i`, or `None` if the input ends first.  A backslash makes
/// the following character part of the content, whatever it is.
pub open spec fn spec_close_quote(s: Seq<char>, i: int) -> Option<int>
    decreases s.len() - i,
{
    if i < 0 || i >= s.len() {
        None
    } else if s[i] == '"' {
        Some(i)
    } else if s[i] == '\\' {
        if i + 1 < s.len() {
            spec_close_quote(s, i + 2)
        } else {
            None
        }
    } else {
        spec_close_quote(s, i + 1)
    }
}

/// The first index at or after `i` whose character is neither a digit
/// nor a decimal point: the end of a numeral run.
pub open spec fn spec_num_end(s: Seq<char>, i: int) -> int
    decreases s.len() - i,
{
    if i < 0 || i >= s.len() {
        i
    } else if is_num_char(s[i]) {
        spec_num_end(s, i + 1)
    } else {
        i
    }
}

/// Two decimal points somewhere in `s[a..b]`.
pub open spec fn has_two_dots(s: Seq<char>, a: int, b: int) -> bool {
    exists|j: int, k: int| a <= j < k < b && s[j] == '.' && s[k] == '.'
}

/// At least one digit somewhere in `s[a..b]`.
pub open spec fn has_digit(s: Seq<char>, a: int, b: int) -> bool {
    exists|k: int| a <= k < b && is_digit(s[k])
}

/// The keyword `true` stands at `i`.
pub open spec fn spec_true_at(s: Seq<char>, i: int) -> bool {
    i + 4 <= s.len() && s[i] == 't' && s[i + 1] == 'r' && s[i + 2] == 'u' && s[i + 3] == 'e'
}

/// The keyword `false` stands at `i`.
pub open spec fn spec_false_at(s: Seq<char>, i: int) -> bool {
    i + 5 <= s.len() && s[i] == 'f' && s[i + 1] == 'a' && s[i + 2] == 'l' && s[i + 3] == 's'
        && s[i + 4] == 'e'
}

/// The keyword `null` stands at `i`.
pub open spec fn spec_null_at(s: Seq<char>, i: int) -> bool {
    i + 4 <= s.len() && s[i] == 'n' && s[i + 1] == 'u' && s[i + 2] == 'l' && s[i + 3] == 'l'
}

/// Prepends one token to the result of tokenizing the rest.
pub open spec fn tok_cons(
    t: SpecToken,
    r: Result<Seq<SpecToken>, TokenParseError>,
) -> Result<Seq<SpecToken>, TokenParseError> {
    match r {
        Ok(ts) => Ok(seq![t] + ts),
        Err(e) => Err(e),
    }
}

/// The whole scan from position `i`: the token sequence of `s[i..]`, or
/// the first lexical error.  Whitespace and unrecognized characters are
/// passed over; every token case advances past what it consumed.
pub open spec fn spec_tokenize_at(s: Seq<char>, i: int) -> Result<Seq<SpecToken>, TokenParseError>
    decreases s.len() - i,
    via spec_tokenize_at_decreases
{
    if i < 0 || i >= s.len() {
        Ok(Seq::empty())
    } else {
        let c = s[i];
        if is_ws(c) {
            spec_tokenize_at(s, i + 1)
        } else if c == '{' {
            tok_cons(SpecToken::LeftBrace, spec_tokenize_at(s, i + 1))
        } else if c == '}' {
            tok_cons(SpecToken::RightBrace, spec_tokenize_at(s, i + 1))
        } else if c == '[' {
            tok_cons(SpecToken::LeftBracket, spec_tokenize_at(s, i + 1))
        } else if c == ']' {
            tok_cons(SpecToken::RightBracket, spec_tokenize_at(s, i + 1))
        } else if c == ',' {
            tok_cons(SpecToken::Comma, spec_tokenize_at(s, i + 1))
        } else if c == ':' {
            tok_cons(SpecToken::Colon, spec_tokenize_at(s, i + 1))
        } else if c == '"' {
            match spec_close_quote(s, i + 1) {
                Some(j) => tok_cons(
                    SpecToken::StringLiteral(s.subrange(i + 1, j)),
                    spec_tokenize_at(s, j + 1),
                ),
                None => Err(TokenParseError::KeyParseError),
            }
        } else if is_num_start(c) {
            let j = spec_num_end(s, i + 1);
            if has_two_dots(s, i + 1, j) {
                Err(TokenParseError::NumberParseError(NumberParseErrorKind::DoubleDotInNumber))
            } else if !has_digit(s, i, j) {
                Err(TokenParseError::NumberParseError(NumberParseErrorKind::InvalidNumber))
            } else {
                tok_cons(SpecToken::NumberLiteral(s.subrange(i, j)), spec_tokenize_at(s, j))
            }
        } else if c == 't' || c == 'f' || c == 'n' {
            if spec_true_at(s, i) {
                tok_cons(SpecToken::True, spec_tokenize_at(s, i + 4))
            } else if spec_false_at(s, i) {
                tok_cons(SpecToken::False, spec_tokenize_at(s, i + 5))
            } else if spec_null_at(s, i) {
                tok_cons(SpecToken::Null, spec_tokenize_at(s, i + 4))
            } else {
                Err(TokenParseError::UnknownKeyword)
            }
        } else {
            spec_tokenize_at(s, i + 1)
        }
    }
}

#[via_fn]
proof fn spec_tokenize_at_decreases(s: Seq<char>, i: int) {
    if 0 <= i < s.len() {
        if s[i] == '"' {
            lemma_close_quote_bounds(s, i + 1);
        }
        if is_num_start(s[i]) {
            lemma_num_end_bounds(s, i + 1);
        }
    }
}

/// Where the closing-quote scan finds a quote, it lies inside the input,
/// no earlier than where the scan began.
pub proof fn lemma_close_quote_bounds(s: Seq<char>, i: int)
    requires
        0 <= i,
    ensures
        match spec_close_quote(s, i) {
            Some(j) => i <= j < s.len() && s[j] == '"',
            None => true,
        },
    decreases s.len() - i,
{
    if i < s.len() && s[i] != '"' {
        if s[i] == '\\' {
            if i + 1 < s.len() {
                lemma_close_quote_bounds(s, i + 2);
            }
        } else {
            lemma_close_quote_bounds(s, i + 1);
        }
    }
}

/// The numeral-run scan ends inside the input, after a run of digit or
/// dot characters, at the first character that is neither.
pub proof fn lemma_num_end_bounds(s: Seq<char>, i: int)
    requires
        0 <= i,
    ensures
        i <= s.len() ==> i <= spec_num_end(s, i) <= s.len(),
        i > s.len() ==> spec_num_end(s, i) == i,
        forall|k: int| i <= k < spec_num_end(s, i) ==> is_num_char(s[k]),
        spec_num_end(s, i) < s.len() ==> !is_num_char(s[spec_num_end(s, i)]),
    decreases s.len() - i,
{
    if 0 <= i < s.len() && is_num_char(s[i]) {
        lemma_num_end_bounds(s, i + 1);
    }
}

// ---------------------------------------------------------------------------
// Characterizations of the scan helpers
// ---------------------------------------------------------------------------

/// A run of digit-or-dot characters from `a` to `b`, stopped at `b` by the
/// input's end or by a character of another class, is exactly what the
/// numeral-run scan finds.
pub proof fn lemma_num_end_is(s: Seq<char>, a: int, b: int)
    requires
        0 <= a <= b <= s.len(),
        forall|k: int| a <= k < b ==> is_num_char(s[k]),
        b == s.len() || !is_num_char(s[b]),
    ensures
        spec_num_end(s, a) == b,
    decreases b - a,
{
    if a < b {
        lemma_num_end_is(s, a + 1, b);
    }
}

/// The numeral-run scan reaches at least past any digit-or-dot run.
pub proof fn lemma_num_end_at_least(s: Seq<char>, a: int, c: int)
    requires
        0 <= a <= c <= s.len(),
        forall|k: int| a <= k < c ==> is_num_char(s[k]),
    ensures
        spec_num_end(s, a) >= c,
    decreases c - a,
{
    if a < c {
        assert(is_num_char(s[a]));
        lemma_num_end_at_least(s, a + 1, c);
    } else {
        lemma_num_end_bounds(s, a);
    }
}

// ---------------------------------------------------------------------------
// Executable scanning helpers
// ---------------------------------------------------------------------------

/// Advances past ASCII whitespace: the result is the first position at or
/// after `i` whose character is not whitespace, or the end of the input.
pub fn skip_whitespace(s: &str, i: usize) -> (r: usize)
    requires
        i <= s@.len(),
    ensures
        i <= r <= s@.len(),
        forall|k: int| i <= k < r ==> is_ws(s@[k]),
        r < s@.len() ==> !is_ws(s@[r as int]),
{
    let n: usize = s.unicode_len();
    let mut j: usize = i;
    while j < n
        invariant
            i <= j <= n,
            n == s@.len(),
            forall|k: int| i <= k < j ==> is_ws(s@[k]),
        decreases n - j,
    {
        let c: char = s.get_char(j);
        if c == ' ' || c == '\t' || c == '\n' || c == '\r' {
            j = j + 1;
        } else {
            return j;
        }
    }
    j
}

/// `pattern` stands in `s` at position `a`.
pub open spec fn spec_has_prefix(s: Seq<char>, a: int, pattern: Seq<char>) -> bool {
    0 <= a && a + pattern.len() <= s.len() && s.subrange(a, a + pattern.len()) == pattern
}

/// Exact substring comparison: the number of characters matched when
/// `const_str` stands in `input` at `from`, and `None` otherwise.
pub fn parse_const(input: &str, from: usize, const_str: &str) -> (r: Option<usize>)
    ensures
        r == if spec_has_prefix(input@, from as int, const_str@) {
            Some(const_str@.len() as usize)
        } else {
            None::<usize>
        },
{
    let n: usize = input.unicode_len();
    let m: usize = const_str.unicode_len();
    if from > n || m > n - from {
        assert(!spec_has_prefix(input@, from as int, const_str@));
        return None;
    }
    let mut k: usize = 0;
    while k < m
        invariant
            0 <= k <= m,
            m == const_str@.len(),
            n == input@.len(),
            from + m <= n,
            forall|t: int| 0 <= t < k ==> input@[from + t] == const_str@[t],
        decreases m - k,
    {
        if input.get_char(from + k) != const_str.get_char(k) {
            assert(input@.subrange(from as int, from + m) != const_str@) by {
                assert(input@.subrange(from as int, from + m)[k as int] != const_str@[k as int]);
            }
            return None;
        }
        k = k + 1;
    }
    assert(input@.subrange(from as int, from + m) =~= const_str@);
    Some(m)
}

/// [`parse_const`], returning the scan position just past the match.
pub fn parse_const_if_ok_then_skip(input: &str, from: usize, const_str: &str) -> (r: Option<
    usize,
>)
    ensures
        r == if spec_has_prefix(input@, from as int, const_str@) {
            Some((from + const_str@.len()) as usize)
        } else {
            None::<usize>
        },
{
    let n: usize = input.unicode_len();
    match parse_const(input, from, const_str) {
        Some(len) => {
            assert(from + len <= n);
            Some(from + len)
        },
        None => None,
    }
}

/// Scans a string literal's content: `from` is the position just after the
/// opening quote.  Returns the content (escapes kept verbatim) and the
/// position of the closing quote, or `KeyParseError` if the input ends
/// before an unescaped quote.
pub fn parse_key<'a>(input: &'a str, from: usize) -> (r: Result<(&'a str, usize), TokenParseError>)
    requires
        from <= input@.len(),
    ensures
        match r {
            Ok((content, end)) => {
                &&& spec_close_quote(input@, from as int) == Some(end as int)
                &&& content@ == input@.subrange(from as int, end as int)
                &&& from <= end < input@.len()
            },
            Err(e) => {
                &&& e == TokenParseError::KeyParseError
                &&& spec_close_quote(input@, from as int) is None
            },
        },
{
    let n: usize = input.unicode_len();
    let mut i: usize = from;
    while i < n
        invariant
            from <= i <= n,
            n == input@.len(),
            spec_close_quote(input@, from as int) == spec_close_quote(input@, i as int),
        decreases n - i,
    {
        let c: char = input.get_char(i);
        if c == '"' {
            return Ok((input.substring_char(from, i), i));
        } else if c == '\\' {
            if i + 1 < n {
                i = i + 2;
            } else {
                return Err(TokenParseError::KeyParseError);
            }
        } else {
            i = i + 1;
        }
    }
    Err(TokenParseError::KeyParseError)
}

/// Appends a whole tokenization result to tokens already scanned.
pub open spec fn tok_result_cat(
    pre: Seq<SpecToken>,
    r: Result<Seq<SpecToken>, TokenParseError>,
) -> Result<Seq<SpecToken>, TokenParseError> {
    match r {
        Ok(ts) => Ok(pre + ts),
        Err(e) => Err(e),
    }
}

/// Moving one token from the pending side to the scanned side keeps the
/// combined result.
pub proof fn lemma_cat_cons(
    pre: Seq<SpecToken>,
    t: SpecToken,
    r: Result<Seq<SpecToken>, TokenParseError>,
)
    ensures
        tok_result_cat(pre, tok_cons(t, r)) == tok_result_cat(pre.push(t), r),
{
    match r {
        Ok(ts) => {
            assert(pre + (seq![t] + ts) =~= pre.push(t) + ts);
        },
        Err(_) => {},
    }
}

/// Nothing scanned yet leaves a tokenization result unchanged.
pub proof fn lemma_cat_empty(r: Result<Seq<SpecToken>, TokenParseError>)
    ensures
        tok_result_cat(Seq::empty(), r) == r,
{
    match r {
        Ok(ts) => {
            assert(Seq::empty() + ts =~= ts);
        },
        Err(_) => {},
    }
}

/// Scanned tokens can be moved across the seam in blocks.
pub proof fn lemma_cat_cat(
    a: Seq<SpecToken>,
    b: Seq<SpecToken>,
    r: Result<Seq<SpecToken>, TokenParseError>,
)
    ensures
        tok_result_cat(a, tok_result_cat(b, r)) == tok_result_cat(a + b, r),
{
    match r {
        Ok(ts) => {
            assert(a + (b + ts) =~= (a + b) + ts);
        },
        Err(_) => {},
    }
}

/// Whitespace between tokens does not change what the scan produces.
pub proof fn lemma_ws_tokenize(s: Seq<char>, i: int, r: int)
    requires
        0 <= i <= r <= s.len(),
        forall|k: int| i <= k < r ==> is_ws(s[k]),
    ensures
        spec_tokenize_at(s, i) == spec_tokenize_at(s, r),
    decreases r - i,
{
    if i < r {
        assert(is_ws(s[i]));
        lemma_ws_tokenize(s, i + 1, r);
    }
}

/// Scans a numeral beginning at `i` (a digit or a sign): a maximal run of
/// digits with at most one decimal point.  Returns the numeral and the
/// position just past it.
pub fn parse_number(s: &str, i: usize) -> (r: Result<(String, usize), TokenParseError>)
    requires
        i < s@.len(),
        is_num_start(s@[i as int]),
    ensures
        ({
            let j = spec_num_end(s@, i + 1);
            match r {
                Ok((lexeme, end)) => {
                    &&& end == j
                    &&& lexeme@ == s@.subrange(i as int, j)
                    &&& !has_two_dots(s@, i + 1, j)
                    &&& has_digit(s@, i as int, j)
                },
                Err(e) => {
                    &&& has_two_dots(s@, i + 1, j) || !has_digit(s@, i as int, j)
                    &&& (e == TokenParseError::NumberParseError(
                        NumberParseErrorKind::DoubleDotInNumber,
                    ) <==> has_two_dots(s@, i + 1, j))
                    &&& (e == TokenParseError::NumberParseError(
                        NumberParseErrorKind::InvalidNumber,
                    ) <==> (!has_two_dots(s@, i + 1, j) && !has_digit(s@, i as int, j)))
                },
            }
        }),
{
    let n: usize = s.unicode_len();
    let first: char = s.get_char(i);
    let mut seen_digit: bool = '0' <= first && first <= '9';
    let mut seen_dot: bool = false;
    let mut j: usize = i + 1;
    while j < n
        invariant
            i + 1 <= j <= n,
            n == s@.len(),
            i < s@.len(),
            forall|k: int| i + 1 <= k < j ==> is_num_char(s@[k]),
            seen_digit <==> has_digit(s@, i as int, j as int),
            seen_dot <==> exists|k: int| i + 1 <= k < j && s@[k] == '.',
            !has_two_dots(s@, i + 1, j as int),
        ensures
            i + 1 <= j <= n,
            forall|k: int| i + 1 <= k < j ==> is_num_char(s@[k]),
            seen_digit <==> has_digit(s@, i as int, j as int),
            !has_two_dots(s@, i + 1, j as int),
            j == n || !is_num_char(s@[j as int]),
        decreases n - j,
    {
        let c: char = s.get_char(j);
        if c == '.' {
            if seen_dot {
                proof {
                    let prev = choose|k: int| i + 1 <= k < j && s@[k] == '.';
                    lemma_num_end_at_least(s@, i + 1, j + 1);
                    assert(prev < j < spec_num_end(s@, i + 1));
                    assert(has_two_dots(s@, i + 1, spec_num_end(s@, i + 1)));
                }
                return Err(TokenParseError::NumberParseError(
                    NumberParseErrorKind::DoubleDotInNumber,
                ));
            }
            seen_dot = true;
            j = j + 1;
        } else if '0' <= c && c <= '9' {
            seen_digit = true;
            j = j + 1;
        } else {
            break;
        }
    }
    proof {
        lemma_num_end_is(s@, i + 1, j as int);
    }
    if !seen_digit {
        return Err(TokenParseError::NumberParseError(NumberParseErrorKind::InvalidNumber));
    }
    let lexeme: &str = s.substring_char(i, j);
    Ok((lexeme.to_owned(), j))
}

// ---------------------------------------------------------------------------
// The tokenizer
// ---------------------------------------------------------------------------

/// Tokenizes `origin`: the result is exactly what [`spec_tokenize_at`]
/// gives on the whole input, token sequence or first lexical error.
pub fn parse_to_tokens(origin: &str) -> (r: Result<JsonTokenStream, TokenParseError>)
    ensures
        match r {
            Ok(stream) => spec_tokenize_at(origin@, 0) == Ok::<_, TokenParseError>(stream@),
            Err(e) => spec_tokenize_at(origin@, 0) == Err::<Seq<SpecToken>, _>(e),
        },
{
    let ghost s = origin@;
    let n: usize = origin.unicode_len();
    let mut tokens: Vec<JsonToken> = Vec::new();
    let mut i: usize = 0;
    while i < n
        invariant
            i <= n,
            n == s.len(),
            s == origin@,
            spec_tokenize_at(s, 0) == tok_result_cat(
                tokens@.map_values(|t: JsonToken| t@),
                spec_tokenize_at(s, i as int),
            ),
        decreases n - i,
    {
        let ghost pre = tokens@.map_values(|t: JsonToken| t@);
        let c: char = origin.get_char(i);
        if c == ' ' || c == '\t' || c == '\n' || c == '\r' {
            let j: usize = skip_whitespace(origin, i);
            assert(j > i);
            proof {
                lemma_ws_tokenize(s, i as int, j as int);
            }
            i = j;
        } else if c == '{' {
            tokens.push(JsonToken::LeftBrace);
            proof {
                lemma_cat_cons(pre, SpecToken::LeftBrace, spec_tokenize_at(s, i + 1));
                assert(tokens@.map_values(|t: JsonToken| t@) =~= pre.push(SpecToken::LeftBrace));
            }
            i = i + 1;
        } else if c == '}' {
            tokens.push(JsonToken::RightBrace);
            proof {
                lemma_cat_cons(pre, SpecToken::RightBrace, spec_tokenize_at(s, i + 1));
                assert(tokens@.map_values(|t: JsonToken| t@) =~= pre.push(SpecToken::RightBrace));
            }
            i = i + 1;
        } else if c == '[' {
            tokens.push(JsonToken::LeftBracket);
            proof {
                lemma_cat_cons(pre, SpecToken::LeftBracket, spec_tokenize_at(s, i + 1));
                assert(tokens@.map_values(|t: JsonToken| t@) =~= pre.push(SpecToken::LeftBracket));
            }
            i = i + 1;
        } else if c == ']' {
            tokens.push(JsonToken::RightBracket);
            proof {
                lemma_cat_cons(pre, SpecToken::RightBracket, spec_tokenize_at(s, i + 1));
                assert(tokens@.map_values(|t: JsonToken| t@) =~= pre.push(SpecToken::RightBracket));
            }
            i = i + 1;
        } else if c == ',' {
            tokens.push(JsonToken::Comma);
            proof {
                lemma_cat_cons(pre, SpecToken::Comma, spec_tokenize_at(s, i + 1));
                assert(tokens@.map_values(|t: JsonToken| t@) =~= pre.push(SpecToken::Comma));
            }
            i = i + 1;
        } else if c == ':' {
            tokens.push(JsonToken::Colon);
            proof {
                lemma_cat_cons(pre, SpecToken::Colon, spec_tokenize_at(s, i + 1));
                assert(tokens@.map_values(|t: JsonToken| t@) =~= pre.push(SpecToken::Colon));
            }
            i = i + 1;
        } else if c == '"' {
            match parse_key(origin, i + 1) {
                Ok((content, end)) => {
                    let ghost t = SpecToken::StringLiteral(s.subrange(i + 1, end as int));
                    tokens.push(JsonToken::StringLiteral(content.to_owned()));
                    proof {
                        lemma_cat_cons(pre, t, spec_tokenize_at(s, end + 1));
                        assert(tokens@.map_values(|t: JsonToken| t@) =~= pre.push(t));
                    }
                    i = end + 1;
                },
                Err(e) => {
                    return Err(e);
                },
            }
        } else if ('0' <= c && c <= '9') || c == '+' || c == '-' {
            match parse_number(origin, i) {
                Ok((lexeme, end)) => {
                    proof {
                        lemma_num_end_bounds(s, i + 1);
                    }
                    let ghost t = SpecToken::NumberLiteral(s.subrange(i as int, end as int));
                    tokens.push(JsonToken::NumberLiteral(lexeme));
                    proof {
                        lemma_cat_cons(pre, t, spec_tokenize_at(s, end as int));
                        assert(tokens@.map_values(|t: JsonToken| t@) =~= pre.push(t));
                    }
                    i = end;
                },
                Err(e) => {
                    return Err(e);
                },
            }
        } else if c == 't' {
            match parse_const_if_ok_then_skip(origin, i + 1, "rue") {
                Some(j) => {
                    tokens.push(JsonToken::True);
                    proof {
                        reveal_strlit("rue");
                        assert(s.subrange(i + 1, i + 4)[0] == 'r');
                        assert(s.subrange(i + 1, i + 4)[1] == 'u');
                        assert(s.subrange(i + 1, i + 4)[2] == 'e');
                        assert(spec_true_at(s, i as int));
                        lemma_cat_cons(pre, SpecToken::True, spec_tokenize_at(s, i + 4));
                        assert(tokens@.map_values(|t: JsonToken| t@) =~= pre.push(SpecToken::True));
                    }
                    i = j;
                },
                None => {
                    proof {
                        reveal_strlit("rue");
                        if spec_true_at(s, i as int) {
                            assert(s.subrange(i + 1, i + 4) =~= "rue"@);
                        }
                    }
                    return Err(TokenParseError::UnknownKeyword);
                },
            }
        } else if c == 'f' {
            match parse_const_if_ok_then_skip(origin, i + 1, "alse") {
                Some(j) => {
                    tokens.push(JsonToken::False);
                    proof {
                        reveal_strlit("alse");
                        assert(s.subrange(i + 1, i + 5)[0] == 'a');
                        assert(s.subrange(i + 1, i + 5)[1] == 'l');
                        assert(s.subrange(i + 1, i + 5)[2] == 's');
                        assert(s.subrange(i + 1, i + 5)[3] == 'e');
                        assert(spec_false_at(s, i as int));
                        lemma_cat_cons(pre, SpecToken::False, spec_tokenize_at(s, i + 5));
                        assert(tokens@.map_values(|t: JsonToken| t@) =~= pre.push(
                            SpecToken::False,
                        ));
                    }
                    i = j;
                },
                None => {
                    proof {
                        reveal_strlit("alse");
                        if spec_false_at(s, i as int) {
                            assert(s.subrange(i + 1, i + 5) =~= "alse"@);
                        }
                    }
                    return Err(TokenParseError::UnknownKeyword);
                },
            }
        } else if c == 'n' {
            match parse_const_if_ok_then_skip(origin, i + 1, "ull") {
                Some(j) => {
                    tokens.push(JsonToken::Null);
                    proof {
                        reveal_strlit("ull");
                        assert(s.subrange(i + 1, i + 4)[0] == 'u');
                        assert(s.subrange(i + 1, i + 4)[1] == 'l');
                        assert(s.subrange(i + 1, i + 4)[2] == 'l');
                        assert(spec_null_at(s, i as int));
                        lemma_cat_cons(pre, SpecToken::Null, spec_tokenize_at(s, i + 4));
                        assert(tokens@.map_values(|t: JsonToken| t@) =~= pre.push(SpecToken::Null));
                    }
                    i = j;
                },
                None => {
                    proof {
                        reveal_strlit("ull");
                        if spec_null_at(s, i as int) {
                            assert(s.subrange(i + 1, i + 4) =~= "ull"@);
                        }
                    }
                    return Err(TokenParseError::UnknownKeyword);
                },
            }
        } else {
            i = i + 1;
        }
    }
    proof {
        assert(tokens@.map_values(|t: JsonToken| t@) + Seq::<SpecToken>::empty() =~= tokens@
            .map_values(|t: JsonToken| t@));
    }
    Ok(JsonTokenStream { tokens })
}

} // verus!
