use rust_json::token::parse_to_tokens;
use rust_json::token::JsonToken;
use rust_json::token::JsonToken::Colon;
use rust_json::token::JsonToken::Comma;
use rust_json::token::JsonToken::False;
use rust_json::token::JsonToken::LeftBrace;
use rust_json::token::JsonToken::LeftBracket;
use rust_json::token::JsonToken::RightBrace;
use rust_json::token::JsonToken::RightBracket;
use rust_json::token::NumberParseErrorKind;
use rust_json::token::TokenParseError;

fn s_tok(text: &str) -> JsonToken {
    JsonToken::StringLiteral(text.to_string())
}

fn n_tok(text: &str) -> JsonToken {
    JsonToken::NumberLiteral(text.to_string())
}

#[test]
fn test_parse_to_tokens() {
    let json = r#"
        {
            "name": "Jack (\"Bee\") Nimble",
            "format": {
                "type":       "rect",
                "width":      1920,
                "height":     1080,
                "interlace":  false,
                "array": [1,2,3,4,5,6,7,8,9,10]
            }
        }"#;
    let tokens = parse_to_tokens(json).unwrap();
    assert_eq!(
        tokens.tokens,
        vec![
            LeftBrace,
            s_tok("name"),
            Colon,
            s_tok("Jack (\\\"Bee\\\") Nimble"),
            Comma,
            s_tok("format"),
            Colon,
            LeftBrace,
            s_tok("type"),
            Colon,
            s_tok("rect"),
            Comma,
            s_tok("width"),
            Colon,
            n_tok("1920"),
            Comma,
            s_tok("height"),
            Colon,
            n_tok("1080"),
            Comma,
            s_tok("interlace"),
            Colon,
            False,
            Comma,
            s_tok("array"),
            Colon,
            LeftBracket,
            n_tok("1"),
            Comma,
            n_tok("2"),
            Comma,
            n_tok("3"),
            Comma,
            n_tok("4"),
            Comma,
            n_tok("5"),
            Comma,
            n_tok("6"),
            Comma,
            n_tok("7"),
            Comma,
            n_tok("8"),
            Comma,
            n_tok("9"),
            Comma,
            n_tok("10"),
            RightBracket,
            RightBrace,
            RightBrace,
        ]
    );
    assert_eq!("1920".parse::<f64>().unwrap(), 1920.0);
}

#[test]
fn empty_object_tokenizes_to_braces() {
    let tokens = parse_to_tokens("{}").unwrap();
    assert_eq!(tokens.tokens, vec![LeftBrace, RightBrace]);
}

#[test]
fn token_count_below_non_whitespace_count() {
    let text = " { \"a\" : 10 } ";
    let tokens = parse_to_tokens(text).unwrap();
    let non_ws = text.chars().filter(|c| !c.is_ascii_whitespace()).count();
    assert!(tokens.tokens.len() <= non_ws);
    assert_eq!(tokens.tokens.len(), 5);
}

#[test]
fn double_dot_numeral_rejected() {
    let result = parse_to_tokens("1.2.3");
    assert_eq!(
        result,
        Err(TokenParseError::NumberParseError(
            NumberParseErrorKind::DoubleDotInNumber
        ))
    );
}

#[test]
fn bare_sign_numeral_rejected() {
    let result = parse_to_tokens("[+]");
    assert_eq!(
        result,
        Err(TokenParseError::NumberParseError(
            NumberParseErrorKind::InvalidNumber
        ))
    );
}

#[test]
fn unterminated_string_rejected() {
    let result = parse_to_tokens("{\"key\": \"value}");
    assert_eq!(result, Err(TokenParseError::KeyParseError));
}

#[test]
fn truncated_keyword_rejected() {
    assert_eq!(parse_to_tokens("tru"), Err(TokenParseError::UnknownKeyword));
    assert_eq!(parse_to_tokens("[nul]"), Err(TokenParseError::UnknownKeyword));
    assert_eq!(parse_to_tokens("folse"), Err(TokenParseError::UnknownKeyword));
}

#[test]
fn whitespace_and_stray_bytes_are_skipped() {
    let tokens = parse_to_tokens(" \t\r\n{ } @").unwrap();
    assert_eq!(tokens.tokens, vec![LeftBrace, RightBrace]);
}

#[test]
fn escaped_quote_stays_in_content() {
    let tokens = parse_to_tokens("\"a\\\"b\"").unwrap();
    assert_eq!(tokens.tokens, vec![s_tok("a\\\"b")]);
}

#[test]
fn signed_and_decimal_numerals_keep_their_text() {
    let tokens = parse_to_tokens("[-1.5,+2]").unwrap();
    assert_eq!(
        tokens.tokens,
        vec![LeftBracket, n_tok("-1.5"), Comma, n_tok("+2"), RightBracket]
    );
    assert_eq!("-1.5".parse::<f64>().unwrap(), -1.5);
}
