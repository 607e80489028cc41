use vstd::prelude::*;
use crate::ast::{AstView, AST};
use crate::token::{Token, TokenView};

verus! {

/// The one keyword that starts a statement.
pub open spec fn print_keyword() -> Seq<char> {
    "System.out.println"@
}

/// Tells whether `tokens` starts with the argument list of a print
/// statement: an opening parenthesis, a string literal and a closing
/// parenthesis.
pub open spec fn starts_with_print_arguments(tokens: Seq<TokenView>) -> bool {
    &&& tokens.len() >= 3
    &&& tokens[0] is OpenParenthesis
    &&& tokens[1] is StringLiteral
    &&& tokens[2] is CloseParenthesis
}

/// The number of tokens at the front of `tokens` that an attempt to read
/// the argument list of a print statement uses up. The attempt reads up to
/// three tokens and ends with the first one that does not fit, which is
/// used up too.
pub open spec fn attempt_len(tokens: Seq<TokenView>) -> int {
    if tokens.len() == 0 {
        0
    } else if !(tokens[0] is OpenParenthesis) || tokens.len() == 1 {
        1
    } else if !(tokens[1] is StringLiteral) || tokens.len() == 2 {
        2
    } else {
        3
    }
}

/// The statements that the token stream `tokens` holds.
///
/// The print keyword starts an attempt to read an argument list, which
/// yields a print statement if the list is complete. Whatever the attempt
/// has used up stays used up. Every other token is passed over.
pub open spec fn statements_of(tokens: Seq<TokenView>) -> Seq<AstView>
    decreases tokens.len(),
{
    if tokens.len() == 0 {
        Seq::empty()
    } else if tokens[0] == TokenView::Keyword(print_keyword()) {
        let arguments = tokens.skip(1);
        let rest = statements_of(arguments.skip(attempt_len(arguments)));
        if starts_with_print_arguments(arguments) {
            seq![AstView::PrintStatement(arguments[1]->StringLiteral_0)] + rest
        } else {
            rest
        }
    } else {
        statements_of(tokens.skip(1))
    }
}

/// Takes the token under the cursor `pos`, if there is one, and moves the
/// cursor past it.
fn next_token<'a>(tokens: &'a Vec<Token>, pos: &mut usize) -> (token: Option<&'a Token>)
    requires
        *old(pos) <= tokens.len(),
    ensures
        *old(pos) < tokens.len() ==> token == Some(&tokens[*old(pos) as int]) && *final(pos)
            == *old(pos) + 1,
        *old(pos) == tokens.len() ==> token is None && *final(pos) == *old(pos),
{
    if *pos < tokens.len() {
        let token = &tokens[*pos];
        *pos = *pos + 1;
        Some(token)
    } else {
        None
    }
}

/// Builds the statements of a token stream, in one pass from left to right.
/// Every token stream has a syntax tree: tokens that belong to no complete
/// print statement are dropped.
pub fn syntax_analysis(tokens: Vec<Token>) -> (ast: Vec<AST>)
    ensures
        ast.deep_view() == statements_of(tokens.deep_view()),
{
    let mut ast: Vec<AST> = Vec::new();
    let print_keyword = String::from_str("System.out.println");
    let ghost all = tokens.deep_view();
    let mut pos: usize = 0;
    proof {
        assert(ast.deep_view() =~= Seq::<AstView>::empty());
        assert(all.skip(0) =~= all);
    }
    loop
        invariant_except_break
            pos <= tokens.len(),
            all == tokens.deep_view(),
            print_keyword@ == self::print_keyword(),
            statements_of(all) == ast.deep_view() + statements_of(all.skip(pos as int)),
        ensures
            ast.deep_view() == statements_of(all),
        decreases tokens.len() - pos,
    {
        let ghost done = ast.deep_view();
        let ghost rest = all.skip(pos as int);
        let token = match next_token(&tokens, &mut pos) {
            Some(token) => token,
            None => {
                assert(done + statements_of(rest) =~= done);
                break ;
            },
        };
        assert(rest[0] == token@);
        assert(rest.skip(1) =~= all.skip(pos as int));
        let ghost arguments = rest.skip(1);
        if let Token::Keyword(keyword) = token {
            if *keyword == print_keyword {
                if let Some(Token::OpenParenthesis) = next_token(&tokens, &mut pos) {
                    if let Some(Token::StringLiteral(text)) = next_token(&tokens, &mut pos) {
                        if let Some(Token::CloseParenthesis) = next_token(&tokens, &mut pos) {
                            ast.push(AST::PrintStatement(text.clone()));
                        }
                    }
                }
                proof {
                    assert(arguments.skip(attempt_len(arguments)) =~= all.skip(pos as int));
                    if starts_with_print_arguments(arguments) {
                        assert(ast.deep_view() =~= done + seq![
                            AstView::PrintStatement(arguments[1]->StringLiteral_0),
                        ]);
                    }
                }
            }
        }
    }
    ast
}

} // verus!
