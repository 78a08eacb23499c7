use srmarkup::lexer::Lexer;
use srmarkup::lexer::LexerMode;
use srmarkup::lexer::Token;
use srmarkup::lexer::TokenTag;

fn lex_all(src: &str) -> Vec<Token> {
    let mut lexer = Lexer::new(String::from(src));
    let mut out = Vec::new();
    loop {
        let t = lexer.get_next_token();
        if t == Token::EndOfFile {
            break;
        }
        out.push(t);
        if out.len() > 1000 {
            panic!("too many tokens");
        }
    }
    out
}

#[test]
fn bare_tag_name() {
    let toks = lex_all("@header ");
    assert_eq!(toks[0], Token::Tag(TokenTag { text: String::from("header") }));
}

#[test]
fn a_bare_tag_name_may_end_with_the_source() {
    let toks = lex_all("@abc");
    assert_eq!(toks[0], Token::Tag(TokenTag { text: String::from("abc") }));
}

#[test]
fn quoted_tag_name_allows_spaces() {
    let toks = lex_all("@\"my tag\" ");
    assert_eq!(toks[0], Token::Tag(TokenTag { text: String::from("my tag") }));
}

#[test]
fn unterminated_quoted_tag_name_is_an_error() {
    let toks = lex_all("@\"open");
    assert_eq!(
        toks[0],
        Token::Error(String::from("Unterminated Tag name string"))
    );
}

#[test]
fn string_literal() {
    let toks = lex_all("\"hi\"@");
    assert_eq!(toks[0], Token::StringLiteral(String::from("hi")));
}

#[test]
fn number_literal_is_canonicalized() {
    let toks = lex_all("01.50@");
    assert_eq!(toks[0], Token::NumberLiteral(String::from("1.5")));
}

#[test]
fn plain_integer_keeps_its_digits() {
    let toks = lex_all("3@");
    assert_eq!(toks[0], Token::NumberLiteral(String::from("3")));
}

#[test]
fn two_dots_make_a_malformed_number() {
    let toks = lex_all("1.2.3@");
    assert_eq!(toks[0], Token::Error(String::from("invalid float literal")));
}

#[test]
fn boolean_keywords() {
    let toks = lex_all("true@");
    assert_eq!(toks[0], Token::BoolLiteral(true));
    let toks = lex_all("false@");
    assert_eq!(toks[0], Token::BoolLiteral(false));
}

#[test]
fn special_characters_are_single_tokens() {
    let toks = lex_all("{}()=");
    let expect = ['{', '}', '(', ')', '='];
    for (i, c) in expect.iter().enumerate() {
        assert_eq!(toks[i], Token::Character(*c));
    }
}

#[test]
fn comma_is_text_in_text_mode() {
    let toks = lex_all("x,y@");
    match &toks[0] {
        Token::Text(t) => assert_eq!(t.text, "x,y"),
        other => panic!("expected text, got {:?}", other),
    }
}

#[test]
fn comma_is_structural_in_code_mode() {
    // in Code mode a bare word ends at whitespace, so the comma starts the
    // next token and becomes structural
    let mut lexer = Lexer::new(String::from("a , "));
    lexer.push_mode(LexerMode::Code);
    let t1 = lexer.get_next_token();
    let t2 = lexer.get_next_token();
    let t3 = lexer.get_next_token();
    match t1 {
        Token::Text(t) => assert_eq!(t.text, "a"),
        other => panic!("expected text, got {:?}", other),
    }
    assert_eq!(t2, Token::Character(','));
    assert_eq!(t3, Token::EndOfFile);
    lexer.pop_mode();
}

#[test]
fn escapes_are_resolved_in_text() {
    let toks = lex_all("a\\nb\\tc\\\\d\\'e\\\"f@");
    match &toks[0] {
        Token::Text(t) => assert_eq!(t.text, "a\nb\tc\\d'e\"f"),
        other => panic!("expected text, got {:?}", other),
    }
}

#[test]
fn newline_in_text_folds_to_one_space() {
    let toks = lex_all("line one\n   line two@");
    match &toks[0] {
        Token::Text(t) => {
            assert_eq!(t.text, "line one line two");
            assert_eq!(t.line_no_start, 1);
            assert_eq!(t.line_no_end, 2);
        }
        other => panic!("expected text, got {:?}", other),
    }
}

#[test]
fn carriage_return_pairs_count_one_line() {
    let mut lexer = Lexer::new(String::from("a\r\nb@"));
    let t = lexer.get_next_token();
    match t {
        Token::Text(t) => {
            assert_eq!(t.text, "a b");
            assert_eq!(t.line_no_end, 2);
        }
        other => panic!("expected text, got {:?}", other),
    }
}

#[test]
fn text_cut_off_by_end_of_source_is_an_error() {
    let toks = lex_all("hello");
    assert_eq!(toks[0], Token::Error(String::from("Unterminated Text Block")));
}

#[test]
fn a_trailing_dot_is_dropped_from_a_number() {
    let toks = lex_all("1.@");
    assert_eq!(toks[0], Token::NumberLiteral(String::from("1")));
}

#[test]
fn zero_normalizes_to_a_single_digit() {
    let toks = lex_all("000@");
    assert_eq!(toks[0], Token::NumberLiteral(String::from("0")));
    let toks = lex_all("0.0@");
    assert_eq!(toks[0], Token::NumberLiteral(String::from("0")));
}

#[test]
fn the_boolean_keyword_check_is_lookahead_not_word_match() {
    let toks = lex_all("truely@");
    assert_eq!(toks[0], Token::BoolLiteral(true));
    match &toks[1] {
        Token::Text(t) => assert_eq!(t.text, "ly"),
        other => panic!("expected text, got {:?}", other),
    }
}

#[test]
fn is_literal_distinguishes_kinds() {
    assert!(Token::StringLiteral(String::from("x")).is_literal());
    assert!(Token::NumberLiteral(String::from("1")).is_literal());
    assert!(Token::BoolLiteral(true).is_literal());
    assert!(!Token::Character('x').is_literal());
    assert!(!Token::EndOfFile.is_literal());
}
