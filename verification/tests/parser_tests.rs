use aepl::parser::parse_escaped_char;
use aepl::parser::parse_float;
use aepl::parser::parse_identifier;
use aepl::parser::parse_integer;
use aepl::parser::parse_literal;
use aepl::parser::parse_op;
use aepl::parser::parse_ops;
use aepl::parser::parse_text;
use aepl::parser::parse_text_fragment;
use aepl::parser::parse_unescaped_char;
use aepl::types::Literal;
use aepl::types::Op;

#[test]
fn test_integer_parser() {
    assert_eq!(parse_integer("123"), Ok(("", 123)));
    assert_eq!(parse_integer("-456"), Ok(("", -456)));
    assert_eq!(parse_integer("789abc"), Ok(("abc", 789)));
    assert!(parse_integer("abc").is_err());
}

#[test]
fn test_float_parser() {
    let (rest, lex) = parse_float("123.456").unwrap();
    assert_eq!(rest, "");
    assert_eq!(lex, "123.456");
    assert_eq!(lex.parse::<f64>().unwrap(), 123.456);
    let (rest, lex) = parse_float("-789.012").unwrap();
    assert_eq!(rest, "");
    assert_eq!(lex.parse::<f64>().unwrap(), -789.012);
    let (rest, lex) = parse_float("3.14159abc").unwrap();
    assert_eq!(rest, "abc");
    assert_eq!(lex.parse::<f64>().unwrap(), 3.14159);
    assert!(parse_float("123").is_err());
    assert!(parse_float(".456").is_err());
    assert!(parse_float("abc").is_err());
}

#[test]
fn test_parse_escaped_char_parser() {
    assert_eq!(parse_escaped_char("\u{1F92B}a"), Ok(("", 'a')));
    assert_eq!(parse_escaped_char("\u{1F92B}\u{1F642}"), Ok(("", '\u{1F642}')));
    assert!(parse_escaped_char("\u{1F92B}").is_err());
    assert!(parse_escaped_char("a").is_err());
    assert_eq!(parse_escaped_char("\u{1F92B}aBC"), Ok(("BC", 'a')));
}

#[test]
fn test_parse_unescaped_char_parser() {
    assert_eq!(parse_unescaped_char("a"), Ok(("", 'a')));
    assert_eq!(parse_unescaped_char("abc"), Ok(("bc", 'a')));
    assert!(parse_unescaped_char("\u{1F92B}").is_err());
    assert!(parse_unescaped_char("\u{1FAF7}").is_err());
}

#[test]
fn test_text_fragment_parser() {
    assert_eq!(parse_text_fragment("a"), Ok(("", 'a')));
    assert_eq!(parse_text_fragment("\u{1F642}"), Ok(("", '\u{1F642}')));
    assert_eq!(parse_text_fragment("\u{1F92B}a"), Ok(("", 'a')));
    assert_eq!(parse_text_fragment("\u{1F92B}\u{1F642}"), Ok(("", '\u{1F642}')));
    assert_eq!(parse_text_fragment("abc"), Ok(("bc", 'a')));
    assert!(parse_text_fragment("").is_err());
    assert!(parse_text_fragment("\u{1F92B}").is_err());
    assert!(parse_text_fragment("\u{1FAF7}").is_err());
}

#[test]
fn test_text_parser() {
    assert_eq!(
        parse_text("\u{1FAF8}hello \u{1F30D}\u{1FAF7}"),
        Ok(("", "hello \u{1F30D}".to_string()))
    );
    assert_eq!(
        parse_text("\u{1FAF8}hello\u{1FAF7}world"),
        Ok(("world", "hello".to_string()))
    );
    assert_eq!(
        parse_text("\u{1FAF8}\u{1F642}\u{1FAF7}"),
        Ok(("", "\u{1F642}".to_string()))
    );
    assert!(parse_text("hello").is_err());
    assert!(parse_text("\u{1FAF8}hello").is_err());
    assert!(parse_text("hello\u{1FAF7}").is_err());
}

#[test]
fn test_literal_parser() {
    assert_eq!(parse_literal("123"), Ok(("", Literal::Int(123))));
    assert_eq!(parse_literal("-456"), Ok(("", Literal::Int(-456))));
    assert_eq!(
        parse_literal("123.456"),
        Ok(("", Literal::Float("123.456".to_string())))
    );
    assert_eq!(
        parse_literal("-789.012"),
        Ok(("", Literal::Float("-789.012".to_string())))
    );
    assert_eq!(
        parse_literal("\u{1FAF8}hello\u{1FAF7}"),
        Ok(("", Literal::Text("hello".to_string())))
    );
    assert_eq!(
        parse_literal("\u{1FAF8}hello \u{1F92B}n world\u{1FAF7}"),
        Ok(("", Literal::Text("hello n world".to_string())))
    );
    assert_eq!(parse_literal("123abc"), Ok(("abc", Literal::Int(123))));
    assert!(parse_literal("abc").is_err());
}

#[test]
fn test_parse_op() {
    assert_eq!(parse_op("123"), Ok(("", Op::Literal(Literal::Int(123)))));
    assert_eq!(
        parse_op("123.45"),
        Ok(("", Op::Literal(Literal::Float("123.45".to_string()))))
    );
    assert_eq!(
        parse_op("\u{1FAF8}hello\u{1FAF7}"),
        Ok(("", Op::Literal(Literal::Text("hello".to_string()))))
    );
    assert_eq!(
        parse_op("\u{1F388}"),
        Ok(("", Op::Identifier("\u{1F388}".to_string())))
    );
    assert!(parse_op("abc").is_err());
}

#[test]
fn test_parse_ops() {
    assert_eq!(parse_ops(""), Ok(vec![]));
    assert_eq!(parse_ops("123"), Ok(vec![Op::Literal(Literal::Int(123))]));
    assert_eq!(
        parse_ops("123 456.789"),
        Ok(vec![
            Op::Literal(Literal::Int(123)),
            Op::Literal(Literal::Float("456.789".to_string())),
        ])
    );
    assert_eq!(
        parse_ops("123 \u{1F389} 456.789"),
        Ok(vec![
            Op::Literal(Literal::Int(123)),
            Op::Identifier("\u{1F389}".to_string()),
            Op::Literal(Literal::Float("456.789".to_string())),
        ])
    );
    assert_eq!(
        parse_ops("\u{1FAF8}hello\u{1FAF7} \u{1F389}"),
        Ok(vec![
            Op::Literal(Literal::Text("hello".to_string())),
            Op::Identifier("\u{1F389}".to_string()),
        ])
    );
    assert!(parse_ops("123 abc").is_err());
    assert_eq!(parse_ops("123 "), Ok(vec![Op::Literal(Literal::Int(123))]));
    assert_eq!(
        parse_ops("\u{2716}5\u{2795}-1 2\u{1F389}3"),
        Ok(vec![
            Op::Identifier("\u{2716}".to_string()),
            Op::Literal(Literal::Int(5)),
            Op::Identifier("\u{2795}".to_string()),
            Op::Literal(Literal::Int(-1)),
            Op::Literal(Literal::Int(2)),
            Op::Identifier("\u{1F389}".to_string()),
            Op::Literal(Literal::Int(3)),
        ])
    );
}

#[test]
fn test_float_before_integer() {
    // one float token, never Int(123) followed by a dangling ".45"
    assert_eq!(
        parse_ops("123.45"),
        Ok(vec![Op::Literal(Literal::Float("123.45".to_string()))])
    );
    assert_eq!(
        parse_literal("123.45"),
        Ok(("", Literal::Float("123.45".to_string())))
    );
}

#[test]
fn test_text_escaped_delimiters() {
    // an escaped open marker is literal text
    assert_eq!(
        parse_text("\u{1FAF8}a\u{1F92B}\u{1FAF8}b\u{1FAF7}"),
        Ok(("", "a\u{1FAF8}b".to_string()))
    );
    // an escaped close marker does not end the body
    assert_eq!(
        parse_text("\u{1FAF8}a\u{1F92B}\u{1FAF7}b\u{1FAF7}"),
        Ok(("", "a\u{1FAF7}b".to_string()))
    );
}

#[test]
fn test_identifier_parser() {
    assert_eq!(
        parse_identifier("\u{2716}"),
        Ok(("", "\u{2716}".to_string()))
    );
    assert_eq!(
        parse_identifier("\u{1F389}x"),
        Ok(("x", "\u{1F389}".to_string()))
    );
    assert!(parse_identifier("a").is_err());
    assert!(parse_identifier("1").is_err());
    assert!(parse_identifier("").is_err());
}

#[test]
fn test_parse_error_positions() {
    let e = parse_ops("123 abc").unwrap_err();
    assert_eq!(e.pos, 4);
    let e = parse_ops("abc").unwrap_err();
    assert_eq!(e.pos, 0);
    // an unterminated text is no literal; the open marker itself then parses
    // as an identifier, and the parse fails on the letters after it
    let e = parse_ops("\u{1FAF8}hello").unwrap_err();
    assert_eq!(e.pos, 1);
    assert_eq!(parse_ops("   "), Ok(vec![]));
}

#[test]
fn test_parse_deterministic() {
    let input = "\u{2716}5\u{2795}2 2\u{1FAF8}hi\u{1FAF7}";
    assert_eq!(parse_ops(input), parse_ops(input));
    let failing = "123 abc";
    assert_eq!(parse_ops(failing), parse_ops(failing));
}

#[test]
fn test_integer_bounds() {
    assert_eq!(
        parse_integer("9223372036854775807"),
        Ok(("", i64::MAX))
    );
    assert_eq!(
        parse_integer("-9223372036854775808"),
        Ok(("", i64::MIN))
    );
    // one past the largest value is no integer literal, and no token at all
    assert!(parse_integer("9223372036854775808").is_err());
    assert!(parse_ops("9223372036854775808").is_err());
}
