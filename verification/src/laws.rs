use vstd::prelude::*;
use crate::ast::AstView;
use crate::codegen::{console_line, script_of};
use crate::compiler::compiled;
use crate::lexer::{
    lemma_tokens_of_keyword, lemma_tokens_of_literal, lemma_tokens_of_structural,
    lemma_tokens_of_whitespace, tokens_of,
};
use crate::parser::{attempt_len, print_keyword, starts_with_print_arguments, statements_of};
use crate::text::{
    is_delimiter, is_quote, is_structural, is_whitespace, lemma_trim_end, lemma_trim_start, trim,
    trim_start,
};
use crate::token::TokenView;

verus! {

/// The source text of the statement that prints `text`.
pub open spec fn print_statement_source(text: Seq<char>) -> Seq<char> {
    "System.out.println(\""@ + text + "\");"@
}

/// The tokens of the statement that prints `text`.
pub open spec fn print_statement_tokens(text: Seq<char>) -> Seq<TokenView> {
    seq![
        TokenView::Keyword(print_keyword()),
        TokenView::OpenParenthesis,
        TokenView::StringLiteral(text),
        TokenView::CloseParenthesis,
        TokenView::Semicolon,
    ]
}

/// The print keyword is a word: it holds no delimiter.
pub proof fn lemma_print_keyword_is_word()
    ensures
        print_keyword().len() == 18,
        forall|i: int|
            0 <= i < print_keyword().len() ==> !is_delimiter(#[trigger] print_keyword()[i]),
{
    reveal_strlit("System.out.println");
}

/// A word alone is one keyword: source text without double quotes and
/// structural characters, in which whitespace stands at the front and at
/// the end at most, and which is not all whitespace, has one token, the
/// keyword that is the text without the whitespace around it.
pub proof fn lemma_lone_word_is_one_keyword(source: Seq<char>)
    requires
        forall|i: int|
            0 <= i < source.len() ==> !is_quote(#[trigger] source[i]) && !is_structural(source[i]),
        trim(source).len() > 0,
        forall|i: int| 0 <= i < trim(source).len() ==> !is_whitespace(#[trigger] trim(source)[i]),
    ensures
        tokens_of(source) == seq![TokenView::Keyword(trim(source))],
{
    let front = lemma_trim_start(source);
    let tail = trim_start(source);
    let kept = lemma_trim_end(tail);
    let word = trim(source);
    let space_before = source.take(front);
    let space_after = tail.skip(kept);
    assert(source =~= space_before + (word + space_after));
    lemma_tokens_of_whitespace(space_before, word + space_after);
    assert forall|i: int| 0 <= i < word.len() implies !is_delimiter(#[trigger] word[i]) by {
        assert(word[i] == source[front + i]);
        assert(!is_whitespace(trim(source)[i]));
    }
    lemma_tokens_of_keyword(word, space_after);
    assert(space_after + Seq::<char>::empty() =~= space_after);
    lemma_tokens_of_whitespace(space_after, Seq::<char>::empty());
    assert(seq![TokenView::Keyword(word)] + tokens_of(space_after) =~= seq![
        TokenView::Keyword(word),
    ]);
}

/// A token that is not the print keyword yields no statement, whatever
/// follows it: the statements are those of the tokens after it.
pub proof fn lemma_other_token_is_skipped(token: TokenView, rest: Seq<TokenView>)
    requires
        token != TokenView::Keyword(print_keyword()),
    ensures
        statements_of(seq![token] + rest) == statements_of(rest),
{
    assert((seq![token] + rest).skip(1) =~= rest);
}

/// A keyword other than the print keyword yields no statement, whatever
/// follows it.
pub proof fn lemma_other_keyword_is_skipped(word: Seq<char>, rest: Seq<TokenView>)
    requires
        word != print_keyword(),
    ensures
        statements_of(seq![TokenView::Keyword(word)] + rest) == statements_of(rest),
{
    lemma_other_token_is_skipped(TokenView::Keyword(word), rest);
}

/// The source text of a print statement, followed by any text `rest`, has
/// the five tokens of the statement and then the tokens of `rest`.
pub proof fn lemma_tokens_of_print_statement(text: Seq<char>, rest: Seq<char>)
    requires
        forall|i: int| 0 <= i < text.len() ==> !is_quote(#[trigger] text[i]),
    ensures
        tokens_of(print_statement_source(text) + rest) == print_statement_tokens(text) + tokens_of(
            rest,
        ),
{
    reveal_strlit("System.out.println");
    reveal_strlit("System.out.println(\"");
    reveal_strlit("\");");
    let open = seq!['('];
    let quote = seq!['"'];
    let close = seq![')'];
    let end = seq![';'];
    let after_end = rest;
    let after_close = end + after_end;
    let after_literal = close + after_close;
    let after_open = quote + text + quote + after_literal;
    let after_keyword = open + after_open;
    assert(print_statement_source(text) + rest =~= print_keyword() + after_keyword);
    lemma_print_keyword_is_word();
    lemma_tokens_of_keyword(print_keyword(), after_keyword);
    lemma_tokens_of_structural('(', after_open);
    lemma_tokens_of_literal(text, after_literal);
    lemma_tokens_of_structural(')', after_close);
    lemma_tokens_of_structural(';', after_end);
    assert(tokens_of(print_statement_source(text) + rest) =~= print_statement_tokens(text)
        + tokens_of(rest));
}

/// The tokens of a print statement, followed by any tokens `rest`, hold the
/// statement and then the statements of `rest`.
pub proof fn lemma_statements_of_print_statement(text: Seq<char>, rest: Seq<TokenView>)
    ensures
        statements_of(print_statement_tokens(text) + rest) == seq![AstView::PrintStatement(text)]
            + statements_of(rest),
{
    let tokens = print_statement_tokens(text) + rest;
    let arguments = tokens.skip(1);
    assert(starts_with_print_arguments(arguments));
    assert(attempt_len(arguments) == 3);
    assert(arguments.skip(3) =~= seq![TokenView::Semicolon] + rest);
    lemma_other_token_is_skipped(TokenView::Semicolon, rest);
}

/// Round trip of one statement: for every `text` without a double quote,
/// the statement that prints `text` compiles to the one line that logs
/// `text`.
pub proof fn lemma_print_statement_round_trip(text: Seq<char>)
    requires
        forall|i: int| 0 <= i < text.len() ==> !is_quote(#[trigger] text[i]),
    ensures
        tokens_of(print_statement_source(text)) == print_statement_tokens(text),
        statements_of(print_statement_tokens(text)) == seq![AstView::PrintStatement(text)],
        compiled(print_statement_source(text)) == console_line(text),
{
    let source = print_statement_source(text);
    let none = Seq::<char>::empty();
    assert(source + none =~= source);
    lemma_tokens_of_print_statement(text, none);
    assert(print_statement_tokens(text) + tokens_of(none) =~= print_statement_tokens(text));
    let no_tokens = Seq::<TokenView>::empty();
    assert(print_statement_tokens(text) + no_tokens =~= print_statement_tokens(text));
    lemma_statements_of_print_statement(text, no_tokens);
    let ast = seq![AstView::PrintStatement(text)];
    assert(ast + statements_of(no_tokens) =~= ast);
    assert(script_of(ast.skip(1)) =~= Seq::<char>::empty());
    assert(script_of(ast) =~= console_line(text));
}

/// Whitespace at the front of the source text leaves no trace in the
/// output.
pub proof fn lemma_compiled_after_whitespace(space: Seq<char>, rest: Seq<char>)
    requires
        forall|i: int| 0 <= i < space.len() ==> is_whitespace(#[trigger] space[i]),
    ensures
        compiled(space + rest) == compiled(rest),
{
    lemma_tokens_of_whitespace(space, rest);
}

/// A print statement at the front of the source text puts its line at the
/// front of the output; the rest of the output is that of the rest of the
/// text.
pub proof fn lemma_compiled_after_print_statement(text: Seq<char>, rest: Seq<char>)
    requires
        forall|i: int| 0 <= i < text.len() ==> !is_quote(#[trigger] text[i]),
    ensures
        statements_of(tokens_of(print_statement_source(text) + rest)) == seq![
            AstView::PrintStatement(text),
        ] + statements_of(tokens_of(rest)),
        compiled(print_statement_source(text) + rest) == console_line(text) + compiled(rest),
{
    lemma_tokens_of_print_statement(text, rest);
    lemma_statements_of_print_statement(text, tokens_of(rest));
    let ast = seq![AstView::PrintStatement(text)] + statements_of(tokens_of(rest));
    assert(ast.skip(1) =~= statements_of(tokens_of(rest)));
}

/// Source text that holds the statements printing `texts`, in order, with
/// `gaps[i]` after the statement that prints `texts[i]`.
pub open spec fn print_statements_source(texts: Seq<Seq<char>>, gaps: Seq<Seq<char>>) -> Seq<char>
    decreases texts.len(),
{
    if texts.len() == 0 {
        Seq::empty()
    } else {
        print_statement_source(texts[0]) + gaps[0] + print_statements_source(
            texts.skip(1),
            gaps.skip(1),
        )
    }
}

/// The statements that print `texts`, in order.
pub open spec fn print_statements(texts: Seq<Seq<char>>) -> Seq<AstView> {
    texts.map_values(|text: Seq<char>| AstView::PrintStatement(text))
}

/// The lines that log `texts`, in order.
pub open spec fn console_lines(texts: Seq<Seq<char>>) -> Seq<char>
    decreases texts.len(),
{
    if texts.len() == 0 {
        Seq::empty()
    } else {
        console_line(texts[0]) + console_lines(texts.skip(1))
    }
}

/// Order is kept: source text made of any number of print statements, with
/// whitespace or nothing after each, has one statement for each of them
/// and compiles to one line for each of them, in the order of the source.
pub proof fn lemma_print_statements_keep_order(texts: Seq<Seq<char>>, gaps: Seq<Seq<char>>)
    requires
        gaps.len() == texts.len(),
        forall|i: int, j: int|
            0 <= i < texts.len() && 0 <= j < texts[i].len() ==> !is_quote(#[trigger] texts[i][j]),
        forall|i: int, j: int|
            0 <= i < gaps.len() && 0 <= j < gaps[i].len() ==> is_whitespace(#[trigger] gaps[i][j]),
    ensures
        statements_of(tokens_of(print_statements_source(texts, gaps))) == print_statements(texts),
        compiled(print_statements_source(texts, gaps)) == console_lines(texts),
    decreases texts.len(),
{
    let source = print_statements_source(texts, gaps);
    if texts.len() == 0 {
        assert(statements_of(tokens_of(source)) =~= print_statements(texts));
    } else {
        let later = print_statements_source(texts.skip(1), gaps.skip(1));
        assert forall|i: int, j: int|
            0 <= i < texts.skip(1).len() && 0 <= j < texts.skip(1)[i].len() implies !is_quote(
            #[trigger] texts.skip(1)[i][j],
        ) by {
            assert(texts.skip(1)[i] == texts[i + 1]);
            assert(!is_quote(texts[i + 1][j]));
        }
        assert forall|i: int, j: int|
            0 <= i < gaps.skip(1).len() && 0 <= j < gaps.skip(1)[i].len() implies is_whitespace(
            #[trigger] gaps.skip(1)[i][j],
        ) by {
            assert(gaps.skip(1)[i] == gaps[i + 1]);
            assert(is_whitespace(gaps[i + 1][j]));
        }
        lemma_print_statements_keep_order(texts.skip(1), gaps.skip(1));
        assert forall|j: int| 0 <= j < texts[0].len() implies !is_quote(
            #[trigger] texts[0][j],
        ) by {
            assert(!is_quote(texts[0][j]));
        }
        assert forall|j: int| 0 <= j < gaps[0].len() implies is_whitespace(
            #[trigger] gaps[0][j],
        ) by {
            assert(is_whitespace(gaps[0][j]));
        }
        assert(source =~= print_statement_source(texts[0]) + (gaps[0] + later));
        lemma_compiled_after_print_statement(texts[0], gaps[0] + later);
        lemma_tokens_of_whitespace(gaps[0], later);
        assert(seq![AstView::PrintStatement(texts[0])] + print_statements(texts.skip(1))
            =~= print_statements(texts));
    }
}

/// Two print statements with whitespace or nothing between them compile to
/// their two lines, in the order of the source.
pub proof fn lemma_two_print_statements(first: Seq<char>, gap: Seq<char>, second: Seq<char>)
    requires
        forall|i: int| 0 <= i < first.len() ==> !is_quote(#[trigger] first[i]),
        forall|i: int| 0 <= i < second.len() ==> !is_quote(#[trigger] second[i]),
        forall|i: int| 0 <= i < gap.len() ==> is_whitespace(#[trigger] gap[i]),
    ensures
        compiled(print_statement_source(first) + gap + print_statement_source(second))
            == console_line(first) + console_line(second),
{
    let source = print_statement_source(first) + gap + print_statement_source(second);
    assert(source =~= print_statement_source(first) + (gap + print_statement_source(second)));
    lemma_compiled_after_print_statement(first, gap + print_statement_source(second));
    lemma_compiled_after_whitespace(gap, print_statement_source(second));
    lemma_print_statement_round_trip(second);
}

/// Source text without characters has no token, no statement and no output.
pub proof fn lemma_empty_source()
    ensures
        tokens_of(Seq::<char>::empty()) == Seq::<TokenView>::empty(),
        statements_of(Seq::<TokenView>::empty()) == Seq::<AstView>::empty(),
        script_of(Seq::<AstView>::empty()) == Seq::<char>::empty(),
        compiled(Seq::<char>::empty()) == Seq::<char>::empty(),
{
}

} // verus!
