use java2js::{generate_code, AST};

fn print(text: &str) -> AST {
    AST::PrintStatement(text.to_string())
}

#[test]
fn no_statements_give_no_output() {
    assert_eq!(generate_code(vec![]), "");
}

#[test]
fn print_statement_gives_one_line() {
    assert_eq!(
        generate_code(vec![print("이리오너라!")]),
        "console.log(\"이리오너라!\");\n"
    );
}

#[test]
fn empty_text_gives_a_line_too() {
    assert_eq!(generate_code(vec![print("")]), "console.log(\"\");\n");
}

#[test]
fn lines_keep_the_order_of_the_statements() {
    assert_eq!(
        generate_code(vec![print("b"), print("a"), print("c"), print("a")]),
        "console.log(\"b\");\nconsole.log(\"a\");\nconsole.log(\"c\");\nconsole.log(\"a\");\n"
    );
}

#[test]
fn double_quote_and_backslash_are_not_escaped() {
    assert_eq!(generate_code(vec![print("a\"b\\c")]), "console.log(\"a\"b\\c\");\n");
}

#[test]
fn newline_in_the_text_is_written_as_it_is() {
    assert_eq!(generate_code(vec![print("a\nb")]), "console.log(\"a\nb\");\n");
}
