use scriptlang::interpreter::{display_value, unescape_string};
use scriptlang::value::{ArithOp, CompareOp, Number, NumberSystem, ResultType};
use scriptlang::lexer::{lexer_init, LexError, Lexer};
use scriptlang::parser::{parse_integer, ParseError, Parser};
use scriptlang::token::TokenType;

fn lex(src: &str) -> Vec<(TokenType, String)> {
    let mut lexer = lexer_init(src.to_string());
    lexer.tokenize().expect("lexes");
    lexer.tokens.into_iter().map(|t| (t.token_type, t.lexeme)).collect()
}

#[test]
fn lexemes_reproduce_significant_source() {
    let src = "x := 12.5 -- note\nif x >= 3 then print 'a b' end # tail";
    let joined: String = lex(src).into_iter().map(|(_, l)| l).collect();
    assert_eq!(joined, "x:=12.5ifx>=3thenprint'a b'end");
}

#[test]
fn operators_and_keywords() {
    let kinds: Vec<TokenType> = lex("a ~= b == c <= >> ~ and or func").into_iter().map(|(k, _)| k).collect();
    assert_eq!(
        kinds,
        vec![
            TokenType::TokIdentifier,
            TokenType::TokNe,
            TokenType::TokIdentifier,
            TokenType::TokEq,
            TokenType::TokIdentifier,
            TokenType::TokLe,
            TokenType::TokGtgt,
            TokenType::TokNot,
            TokenType::TokAnd,
            TokenType::TokOr,
            TokenType::TokFunc,
        ]
    );
}

#[test]
fn bare_equals_is_dropped() {
    assert_eq!(lex("a = b").len(), 2);
}

#[test]
fn unterminated_string_is_an_error() {
    let mut lexer = lexer_init("print \"abc".to_string());
    assert_eq!(lexer.tokenize(), Err(LexError::UnterminatedString { line: 1 }));
}

#[test]
fn integer_literals() {
    assert_eq!(parse_integer("9223372036854775807"), Some(i64::MAX));
    assert_eq!(parse_integer("9223372036854775808"), None);
    assert_eq!(parse_integer("12a"), None);
    assert_eq!(parse_integer(""), None);
}

#[test]
fn stray_end_is_a_parse_error() {
    let mut lexer = lexer_init("end".to_string());
    lexer.tokenize().unwrap();
    let r = Parser::new(lexer.tokens).parse();
    assert_eq!(r.err(), Some(ParseError::UnexpectedToken { token_type: TokenType::TokEnd, line: 1 }));
}

#[test]
fn bare_expression_is_not_a_statement() {
    let mut lexer = lexer_init("1 + 2".to_string());
    lexer.tokenize().unwrap();
    assert_eq!(Parser::new(lexer.tokens).parse().err(), Some(ParseError::NotAStatement { line: 1 }));
}

#[test]
fn escapes_are_interpreted() {
    assert_eq!(unescape_string("a\\nb\\tc\\\\d\\\"e\\qf\\"), "a\nb\tc\\d\"eqf");
}

fn lex_lines(src: &str) -> Vec<(TokenType, String, u32)> {
    let mut lexer = lexer_init(src.to_string());
    lexer.tokenize().expect("lexes");
    lexer.tokens.into_iter().map(|t| (t.token_type, t.lexeme, t.line)).collect()
}

fn pairs(v: &[(TokenType, &str)]) -> Vec<(TokenType, String)> {
    v.iter().map(|(k, l)| (*k, l.to_string())).collect()
}

#[test]
fn words_keywords_and_not() {
    assert_eq!(
        lex("_tmp if not local end9 println"),
        pairs(&[
            (TokenType::TokIdentifier, "_tmp"),
            (TokenType::TokIf, "if"),
            (TokenType::TokNot, "not"),
            (TokenType::TokIdentifier, "local"),
            (TokenType::TokIdentifier, "end9"),
            (TokenType::TokPrintln, "println"),
        ])
    );
}

#[test]
fn comments_run_to_end_of_line() {
    assert_eq!(
        lex_lines("x -- note := 1\n# c\ny"),
        vec![(TokenType::TokIdentifier, "x".to_string(), 1), (TokenType::TokIdentifier, "y".to_string(), 3)]
    );
}

#[test]
fn operator_lookahead() {
    assert_eq!(
        lex(":= : >= >> > <= << < ~= ~ == = ?"),
        pairs(&[
            (TokenType::TokAssign, ":="),
            (TokenType::TokColon, ":"),
            (TokenType::TokGe, ">="),
            (TokenType::TokGtgt, ">>"),
            (TokenType::TokGt, ">"),
            (TokenType::TokLe, "<="),
            (TokenType::TokLtlt, "<<"),
            (TokenType::TokLt, "<"),
            (TokenType::TokNe, "~="),
            (TokenType::TokNot, "~"),
            (TokenType::TokEq, "=="),
            (TokenType::TokQuestion, "?"),
        ])
    );
}

#[test]
fn one_token_per_number() {
    assert_eq!(
        lex("12 3.5 7.x"),
        pairs(&[
            (TokenType::TokInteger, "12"),
            (TokenType::TokFloat, "3.5"),
            (TokenType::TokInteger, "7"),
            (TokenType::TokDot, "."),
            (TokenType::TokIdentifier, "x"),
        ])
    );
}

#[test]
fn non_ascii_string_literal() {
    assert_eq!(
        lex("s := \"h\u{e9}llo\""),
        pairs(&[
            (TokenType::TokIdentifier, "s"),
            (TokenType::TokAssign, ":="),
            (TokenType::TokString, "\"h\u{e9}llo\""),
        ])
    );
}

#[test]
fn lines_count_newlines_inside_strings() {
    let toks = lex_lines("a 'x\ny'\nb");
    assert_eq!(toks[2], (TokenType::TokIdentifier, "b".to_string(), 3));
    assert_eq!(toks[1].2, 1);
}

#[test]
fn call_with_arguments_parses() {
    let mut lexer = lexer_init("f(1, x + 2)".to_string());
    lexer.tokenize().unwrap();
    let node = Parser::new(lexer.tokens).parse().unwrap();
    match node {
        scriptlang::model::Node::Stmts(ss) => {
            assert_eq!(ss.len(), 1);
            match &ss[0] {
                scriptlang::model::Statement::FunctionCall { expr } => match expr {
                    scriptlang::model::Expression::FunctionCall { name, args } => {
                        assert_eq!(name, "f");
                        assert_eq!(args.len(), 2);
                        assert!(matches!(args[0], scriptlang::model::Expression::Integer { value: 1 }));
                        assert!(matches!(args[1], scriptlang::model::Expression::BinOp { .. }));
                    }
                    _ => panic!("not a call"),
                },
                _ => panic!("not a call statement"),
            }
        }
        _ => panic!("not a statement list"),
    }
}


struct Fixed;

impl NumberSystem for Fixed {
    fn from_integer(&self, v: i64) -> Number {
        Number { bits: v as u64 }
    }

    fn from_decimal(&self, _t: &str) -> Number {
        Number { bits: 0 }
    }

    fn arith(&self, _o: ArithOp, a: Number, _b: Number) -> Number {
        a
    }

    fn compare(&self, _o: CompareOp, _a: Number, _b: Number) -> bool {
        false
    }

    fn display(&self, a: Number) -> String {
        format!("n{}", a.bits)
    }

    fn whole_count(&self, _a: Number) -> Option<usize> {
        None
    }
}

#[test]
fn display_of_final_values() {
    assert_eq!(display_value(&Fixed, &ResultType::Bool(true)), "true");
    assert_eq!(display_value(&Fixed, &ResultType::Str("a\\tb".to_string())), "a\tb");
    assert_eq!(display_value(&Fixed, &ResultType::Number(Number { bits: 7 })), "n7");
    assert_eq!(display_value(&Fixed, &ResultType::Null), "");
}
