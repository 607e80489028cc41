use java2js::{syntax_analysis, Token, AST};

fn keyword(text: &str) -> Token {
    Token::Keyword(text.to_string())
}

fn literal(text: &str) -> Token {
    Token::StringLiteral(text.to_string())
}

fn println() -> Token {
    keyword("System.out.println")
}

fn print(text: &str) -> AST {
    AST::PrintStatement(text.to_string())
}

#[test]
fn no_tokens_give_no_statements() {
    assert_eq!(syntax_analysis(vec![]), vec![]);
}

#[test]
fn print_statement_is_recognised() {
    let tokens = vec![
        println(),
        Token::OpenParenthesis,
        literal("이리오너라!"),
        Token::CloseParenthesis,
        Token::Semicolon,
    ];
    assert_eq!(syntax_analysis(tokens), vec![print("이리오너라!")]);
}

#[test]
fn print_statement_needs_no_semicolon() {
    let tokens = vec![println(), Token::OpenParenthesis, literal("a"), Token::CloseParenthesis];
    assert_eq!(syntax_analysis(tokens), vec![print("a")]);
}

#[test]
fn print_statement_may_print_nothing() {
    let tokens = vec![println(), Token::OpenParenthesis, literal(""), Token::CloseParenthesis];
    assert_eq!(syntax_analysis(tokens), vec![print("")]);
}

#[test]
fn call_of_another_function_gives_no_statement() {
    let tokens =
        vec![keyword("foo"), Token::OpenParenthesis, Token::CloseParenthesis, Token::Semicolon];
    assert_eq!(syntax_analysis(tokens), vec![]);
}

#[test]
fn other_keyword_is_skipped_whatever_follows() {
    let tokens = vec![
        keyword("foo"),
        Token::OpenParenthesis,
        literal("a"),
        Token::CloseParenthesis,
        Token::Semicolon,
    ];
    assert_eq!(syntax_analysis(tokens), vec![]);
}

#[test]
fn other_keyword_does_not_hide_a_statement_after_it() {
    let tokens = vec![
        keyword("foo"),
        println(),
        Token::OpenParenthesis,
        literal("a"),
        Token::CloseParenthesis,
    ];
    assert_eq!(syntax_analysis(tokens), vec![print("a")]);
}

#[test]
fn keyword_must_match_exactly() {
    for word in ["system.out.println", "System.out.print", "System.out.println2", "println"] {
        let tokens =
            vec![keyword(word), Token::OpenParenthesis, literal("a"), Token::CloseParenthesis];
        assert_eq!(syntax_analysis(tokens), vec![]);
    }
}

#[test]
fn string_literal_with_the_keyword_text_starts_nothing() {
    let tokens = vec![
        literal("System.out.println"),
        Token::OpenParenthesis,
        literal("a"),
        Token::CloseParenthesis,
    ];
    assert_eq!(syntax_analysis(tokens), vec![]);
}

#[test]
fn stray_tokens_give_no_statement() {
    let tokens = vec![
        Token::OpenParenthesis,
        literal("a"),
        Token::CloseParenthesis,
        Token::Semicolon,
        literal("b"),
    ];
    assert_eq!(syntax_analysis(tokens), vec![]);
}

#[test]
fn statement_cut_short_gives_nothing() {
    assert_eq!(syntax_analysis(vec![println()]), vec![]);
    assert_eq!(syntax_analysis(vec![println(), Token::OpenParenthesis]), vec![]);
    assert_eq!(syntax_analysis(vec![println(), Token::OpenParenthesis, literal("a")]), vec![]);
}

#[test]
fn token_that_fails_the_match_is_used_up() {
    // The second keyword is read in place of the opening parenthesis, so it
    // starts no statement of its own.
    let tokens = vec![
        println(),
        println(),
        Token::OpenParenthesis,
        literal("a"),
        Token::CloseParenthesis,
    ];
    assert_eq!(syntax_analysis(tokens), vec![]);
}

#[test]
fn keyword_in_place_of_the_literal_is_used_up() {
    let tokens = vec![
        println(),
        Token::OpenParenthesis,
        println(),
        Token::OpenParenthesis,
        literal("a"),
        Token::CloseParenthesis,
    ];
    assert_eq!(syntax_analysis(tokens), vec![]);
}

#[test]
fn keyword_in_place_of_the_closing_parenthesis_is_used_up() {
    let tokens = vec![
        println(),
        Token::OpenParenthesis,
        literal("a"),
        println(),
        Token::OpenParenthesis,
        literal("b"),
        Token::CloseParenthesis,
    ];
    assert_eq!(syntax_analysis(tokens), vec![]);
}

#[test]
fn statement_after_a_failed_match_is_recognised() {
    let tokens = vec![
        println(),
        Token::OpenParenthesis,
        literal("a"),
        Token::Semicolon,
        println(),
        Token::OpenParenthesis,
        literal("b"),
        Token::CloseParenthesis,
    ];
    assert_eq!(syntax_analysis(tokens), vec![print("b")]);
}

#[test]
fn statements_keep_the_order_of_the_tokens() {
    let tokens = vec![
        println(),
        Token::OpenParenthesis,
        literal("first"),
        Token::CloseParenthesis,
        Token::Semicolon,
        keyword("noise"),
        println(),
        Token::OpenParenthesis,
        literal("second"),
        Token::CloseParenthesis,
        println(),
        Token::OpenParenthesis,
        literal("third"),
        Token::CloseParenthesis,
        Token::Semicolon,
    ];
    assert_eq!(syntax_analysis(tokens), vec![print("first"), print("second"), print("third")]);
}

#[test]
fn same_statement_twice_is_kept_twice() {
    let tokens = vec![
        println(),
        Token::OpenParenthesis,
        literal("a"),
        Token::CloseParenthesis,
        println(),
        Token::OpenParenthesis,
        literal("a"),
        Token::CloseParenthesis,
    ];
    assert_eq!(syntax_analysis(tokens), vec![print("a"), print("a")]);
}
