use java2js::{lexical_analysis, Token};

fn keyword(text: &str) -> Token {
    Token::Keyword(text.to_string())
}

fn literal(text: &str) -> Token {
    Token::StringLiteral(text.to_string())
}

#[test]
fn empty_input_has_no_tokens() {
    assert_eq!(lexical_analysis(""), vec![]);
}

#[test]
fn whitespace_alone_has_no_tokens() {
    assert_eq!(lexical_analysis(" \t\r\n  \n"), vec![]);
}

#[test]
fn structural_characters_are_tokens_of_their_own() {
    assert_eq!(
        lexical_analysis("();"),
        vec![Token::OpenParenthesis, Token::CloseParenthesis, Token::Semicolon]
    );
}

#[test]
fn consecutive_delimiters_have_nothing_between_them() {
    assert_eq!(
        lexical_analysis(";;(())"),
        vec![
            Token::Semicolon,
            Token::Semicolon,
            Token::OpenParenthesis,
            Token::OpenParenthesis,
            Token::CloseParenthesis,
            Token::CloseParenthesis,
        ]
    );
}

#[test]
fn lone_word_is_one_keyword() {
    assert_eq!(lexical_analysis("hello"), vec![keyword("hello")]);
}

#[test]
fn lone_word_is_trimmed_of_whitespace() {
    assert_eq!(lexical_analysis(" \t\r\n hello\n\t "), vec![keyword("hello")]);
}

#[test]
fn one_character_is_a_keyword() {
    assert_eq!(lexical_analysis("x"), vec![keyword("x")]);
}

#[test]
fn dotted_reference_is_one_keyword() {
    assert_eq!(lexical_analysis("System.out.println"), vec![keyword("System.out.println")]);
}

#[test]
fn operators_are_glued_into_the_keyword() {
    assert_eq!(lexical_analysis("a+b=c,d{}[]"), vec![keyword("a+b=c,d{}[]")]);
}

#[test]
fn every_kind_of_whitespace_ends_a_keyword() {
    assert_eq!(
        lexical_analysis("a b\tc\rd\ne"),
        vec![keyword("a"), keyword("b"), keyword("c"), keyword("d"), keyword("e")]
    );
}

#[test]
fn structural_characters_end_a_keyword() {
    assert_eq!(
        lexical_analysis("a(b)c;d"),
        vec![
            keyword("a"),
            Token::OpenParenthesis,
            keyword("b"),
            Token::CloseParenthesis,
            keyword("c"),
            Token::Semicolon,
            keyword("d"),
        ]
    );
}

#[test]
fn double_quote_ends_a_keyword() {
    assert_eq!(
        lexical_analysis("foo\"bar\"baz"),
        vec![keyword("foo"), literal("bar"), keyword("baz")]
    );
}

#[test]
fn other_space_characters_belong_to_a_keyword() {
    assert_eq!(lexical_analysis("a\u{a0}b"), vec![keyword("a\u{a0}b")]);
    assert_eq!(lexical_analysis("a\u{c}b"), vec![keyword("a\u{c}b")]);
    assert_eq!(lexical_analysis("\u{3000}"), vec![keyword("\u{3000}")]);
}

#[test]
fn string_literal_leaves_out_its_quotes() {
    assert_eq!(lexical_analysis("\"hi there\""), vec![literal("hi there")]);
}

#[test]
fn string_literal_may_be_empty() {
    assert_eq!(lexical_analysis("\"\""), vec![literal("")]);
}

#[test]
fn string_literal_keeps_delimiters_as_text() {
    assert_eq!(lexical_analysis("\"a (b); \tc\n\""), vec![literal("a (b); \tc\n")]);
}

#[test]
fn adjacent_string_literals_are_two_tokens() {
    assert_eq!(lexical_analysis("\"a\"\"b\""), vec![literal("a"), literal("b")]);
}

#[test]
fn unclosed_string_literal_runs_to_the_end() {
    assert_eq!(lexical_analysis("x \"abc (d); e"), vec![keyword("x"), literal("abc (d); e")]);
}

#[test]
fn lone_quote_is_an_empty_string_literal() {
    assert_eq!(lexical_analysis("\""), vec![literal("")]);
}

#[test]
fn quote_at_the_end_opens_an_empty_string_literal() {
    assert_eq!(lexical_analysis("\"a\"\""), vec![literal("a"), literal("")]);
}

#[test]
fn backslash_does_not_escape_a_quote() {
    assert_eq!(
        lexical_analysis("\"a\\\"b\""),
        vec![literal("a\\"), keyword("b"), literal("")]
    );
}

#[test]
fn print_statement_has_five_tokens() {
    assert_eq!(
        lexical_analysis("System.out.println(\"이리오너라!\");"),
        vec![
            keyword("System.out.println"),
            Token::OpenParenthesis,
            literal("이리오너라!"),
            Token::CloseParenthesis,
            Token::Semicolon,
        ]
    );
}

#[test]
fn call_without_arguments_has_four_tokens() {
    assert_eq!(
        lexical_analysis("foo();"),
        vec![keyword("foo"), Token::OpenParenthesis, Token::CloseParenthesis, Token::Semicolon]
    );
}

#[test]
fn text_outside_ascii_is_kept_character_by_character() {
    assert_eq!(
        lexical_analysis("변수 = \"값 🙂\";"),
        vec![keyword("변수"), keyword("="), literal("값 🙂"), Token::Semicolon]
    );
}

#[test]
fn tokens_follow_the_order_of_the_text() {
    assert_eq!(
        lexical_analysis("int x = 5 ;\nprint ( \"x\" )"),
        vec![
            keyword("int"),
            keyword("x"),
            keyword("="),
            keyword("5"),
            Token::Semicolon,
            keyword("print"),
            Token::OpenParenthesis,
            literal("x"),
            Token::CloseParenthesis,
        ]
    );
}
