use rust_json::error::expect_colon_after_key;
use rust_json::error::JsonParserError;
use rust_json::error::UnexpectedTokenErrorDecr;
use rust_json::parser::Parser;
use rust_json::token::parse_to_tokens;
use rust_json::token::JsonToken;
use rust_json::value::JsonArray;
use rust_json::value::JsonObject;
use rust_json::value::JsonValue;
use rust_json::value::KeyValue;

fn parse_text(text: &str) -> Result<JsonValue, JsonParserError> {
    let tokens = parse_to_tokens(text).unwrap();
    let mut parser = Parser::new(tokens);
    parser.parse()
}

fn num(text: &str) -> JsonValue {
    JsonValue::Number(text.to_string())
}

fn member(key: &str, value: JsonValue) -> KeyValue {
    KeyValue {
        key: key.to_string(),
        value,
    }
}

#[test]
fn empty_object_parses_to_zero_pairs() {
    let value = parse_text("{}").unwrap();
    assert_eq!(value, JsonValue::Object(JsonObject { children: vec![] }));
}

#[test]
fn empty_array_parses_to_zero_elements() {
    let value = parse_text("[]").unwrap();
    assert_eq!(value, JsonValue::Array(JsonArray { array: vec![] }));
}

#[test]
fn duplicate_keys_are_both_kept_in_order() {
    let value = parse_text("{\"a\":1,\"a\":2}").unwrap();
    assert_eq!(
        value,
        JsonValue::Object(JsonObject {
            children: vec![member("a", num("1")), member("a", num("2"))],
        })
    );
}

#[test]
fn first_match_lookup_wins() {
    let value = parse_text("{\"a\":1,\"a\":2}").unwrap();
    let object = match &value {
        JsonValue::Object(object) => object,
        _ => panic!("expected an object"),
    };
    assert_eq!(object.get_by_key("a"), Some(&num("1")));
    assert_eq!(object.get_by_key("b"), None);
}

#[test]
fn nested_structure_parses_in_full() {
    let text = "{\"format\":{\"type\":\"rect\",\"width\":1920,\"height\":1080,\
                 \"interlace\":false,\"array\":[1,2,3]}}";
    let value = parse_text(text).unwrap();
    let top = match &value {
        JsonValue::Object(object) => object,
        _ => panic!("expected an object"),
    };
    let format = match top.get_by_key("format") {
        Some(JsonValue::Object(object)) => object,
        _ => panic!("expected format to be an object"),
    };
    match format.get_by_key("width") {
        Some(JsonValue::Number(lexeme)) => {
            assert_eq!(lexeme, "1920");
            assert_eq!(lexeme.parse::<f64>().unwrap(), 1920.0);
        }
        _ => panic!("expected width to be a number"),
    }
    let array = format
        .get_by_key("array")
        .unwrap()
        .try_as_array()
        .unwrap();
    assert_eq!(array.array.len(), 3);
    assert_eq!(array.array, vec![num("1"), num("2"), num("3")]);
    assert_eq!("1".parse::<f64>().unwrap(), 1.0);
    assert_eq!(format.get_by_key("interlace"), Some(&JsonValue::Boolean(false)));
}

#[test]
fn missing_colon_reports_the_number_token() {
    let result = parse_text("{\"key\" 1}");
    assert_eq!(
        result,
        Err(JsonParserError::UnexpectedToken(UnexpectedTokenErrorDecr {
            expect: ":",
            actual: JsonToken::NumberLiteral("1".to_string()),
            msg: "it should be : after key",
        }))
    );
}

#[test]
fn error_constructors_build_the_reported_errors() {
    let built = expect_colon_after_key(&JsonToken::Null);
    assert_eq!(
        built,
        JsonParserError::UnexpectedToken(UnexpectedTokenErrorDecr {
            expect: ":",
            actual: JsonToken::Null,
            msg: "it should be : after key",
        })
    );
}

#[test]
fn empty_input_reports_end_of_tokens() {
    assert_eq!(parse_text(""), Err(JsonParserError::UnexpectedEndOfTokens));
    assert_eq!(parse_text("{\"a\":"), Err(JsonParserError::UnexpectedEndOfTokens));
}

#[test]
fn top_level_scalar_is_rejected() {
    let result = parse_text("1");
    assert_eq!(
        result,
        Err(JsonParserError::UnexpectedToken(UnexpectedTokenErrorDecr {
            expect: "{ or [",
            actual: JsonToken::NumberLiteral("1".to_string()),
            msg: "it should be { or [ on the first token for json value",
        }))
    );
}

#[test]
fn trailing_comma_yields_the_empty_sentinel() {
    let value = parse_text("[1,]").unwrap();
    assert_eq!(
        value,
        JsonValue::Array(JsonArray {
            array: vec![num("1"), JsonValue::Empty],
        })
    );
    let value = parse_text("{\"a\":}").unwrap();
    assert_eq!(
        value,
        JsonValue::Object(JsonObject {
            children: vec![member("a", JsonValue::Empty)],
        })
    );
}

#[test]
fn rendering_is_compact() {
    let value = parse_text("{ \"a\" : [ 1 , true , null ] , \"b\" : \"x\" }").unwrap();
    assert_eq!(value.render(), "{\"a\":[1,true,null],\"b\":\"x\"}");
    assert_eq!(parse_text("{}").unwrap().render(), "{}");
    assert_eq!(parse_text("[]").unwrap().render(), "[]");
    assert_eq!(parse_text("[1,]").unwrap().render(), "[1,]");
}

#[test]
fn round_trip_reproduces_the_tree() {
    let samples = [
        "{}",
        "[]",
        "{\"a\":1,\"a\":2}",
        "{\"format\":{\"type\":\"rect\",\"width\":1920,\"height\":1080,\
         \"interlace\":false,\"array\":[1,2,3]}}",
        "[1,]",
        "{\"a\":}",
        "{\"s\":\"a\\\"b\",\"n\":-1.5,\"v\":[true,false,null,{}]}",
    ];
    for text in samples {
        let value = parse_text(text).unwrap();
        let rendered = value.render();
        let reparsed = parse_text(&rendered).unwrap();
        assert_eq!(reparsed, value);
        assert_eq!(reparsed.render(), rendered);
    }
}

#[test]
fn escaped_content_renders_verbatim() {
    let value = parse_text("{\"s\":\"Jack (\\\"Bee\\\") Nimble\"}").unwrap();
    assert_eq!(value.render(), "{\"s\":\"Jack (\\\"Bee\\\") Nimble\"}");
}

#[test]
fn cursor_methods_walk_the_tokens() {
    let tokens = parse_to_tokens("[1]").unwrap();
    let mut parser = Parser::new(tokens);
    assert_eq!(parser.peek(), Some(&JsonToken::LeftBracket));
    assert_eq!(
        parser.peek_offset(1),
        Some(&JsonToken::NumberLiteral("1".to_string()))
    );
    assert_eq!(parser.peek_offset(3), None);
    assert_eq!(parser.next(), Some(JsonToken::LeftBracket));
    assert_eq!(parser.next_offset(1), Some(JsonToken::RightBracket));
    assert_eq!(parser.last(), Ok(()));
    let fresh = parse_to_tokens("[]").unwrap();
    let mut at_start = Parser::new(fresh);
    assert_eq!(
        at_start.last(),
        Err(rust_json::error::JsonParserInternalError::TokenIndexOutOfRange)
    );
}

#[test]
fn scanning_helpers_report_positions() {
    let close = rust_json::token::parse_key("abc\"def", 0).unwrap();
    assert_eq!(close, ("abc", 3));
    assert_eq!(
        rust_json::token::parse_key("no closing quote", 0),
        Err(rust_json::token::TokenParseError::KeyParseError)
    );
    assert_eq!(rust_json::token::parse_const("xrue", 1, "rue"), Some(3));
    assert_eq!(rust_json::token::parse_const("xrue", 1, "ruz"), None);
    assert_eq!(
        rust_json::token::parse_const_if_ok_then_skip("xrue", 1, "rue"),
        Some(4)
    );
    assert_eq!(rust_json::token::skip_whitespace("  \t x", 0), 4);
    assert_eq!(rust_json::token::skip_whitespace("x  ", 0), 0);
}
