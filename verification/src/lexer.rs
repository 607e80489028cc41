use std::str::Chars;
use vstd::prelude::*;
use vstd::std_specs::iter::IteratorSpec;
use crate::text::{
    delimiter, is_delimiter, is_quote, is_structural, is_whitespace, lemma_run_len_bound,
    lemma_run_len_concat, lemma_run_len_maximal, run_len, whitespace,
};
use crate::token::{Token, TokenView};

verus! {

/// The length of the keyword at the front of `s`: the characters before the
/// first delimiter.
pub open spec fn keyword_len(s: Seq<char>) -> int {
    run_len(s, |c: char| is_delimiter(c))
}

/// The length of the string literal whose text starts at the front of `s`,
/// just after the opening quote: the characters before the first double
/// quote, or all of `s` if the literal is never closed.
pub open spec fn literal_len(s: Seq<char>) -> int {
    run_len(s, |c: char| is_quote(c))
}

/// What follows a string literal whose text starts at the front of `s`: the
/// text after the closing quote, or nothing if the literal is never closed.
pub open spec fn after_literal(s: Seq<char>) -> Seq<char> {
    if literal_len(s) < s.len() {
        s.skip(literal_len(s) + 1)
    } else {
        Seq::empty()
    }
}

/// The token that the structural character `c` stands for.
pub open spec fn structural_token(c: char) -> TokenView {
    if c == '(' {
        TokenView::OpenParenthesis
    } else if c == ')' {
        TokenView::CloseParenthesis
    } else {
        TokenView::Semicolon
    }
}

/// The token stream of the source text `s`.
///
/// Whitespace yields nothing. Each of `(`, `)` and `;` yields its token. A
/// double quote opens a string literal that runs up to the next double
/// quote, or to the end of the text. Any other character starts a keyword
/// that runs up to the next delimiter, or to the end of the text.
pub open spec fn tokens_of(s: Seq<char>) -> Seq<TokenView>
    decreases s.len(),
{
    if s.len() == 0 {
        Seq::empty()
    } else if is_whitespace(s[0]) {
        tokens_of(s.skip(1))
    } else if is_structural(s[0]) {
        seq![structural_token(s[0])] + tokens_of(s.skip(1))
    } else if is_quote(s[0]) {
        let body = s.skip(1);
        proof {
            lemma_run_len_bound(body, |c: char| is_quote(c));
        }
        seq![TokenView::StringLiteral(body.take(literal_len(body)))] + tokens_of(
            after_literal(body),
        )
    } else {
        proof {
            lemma_run_len_bound(s.skip(1), |c: char| is_delimiter(c));
        }
        seq![TokenView::Keyword(s.take(keyword_len(s)))] + tokens_of(
            s.skip(keyword_len(s)),
        )
    }
}

/// What holds of every token of a source text: a keyword is not empty and
/// holds no delimiter, and a string literal holds no double quote.
pub open spec fn well_formed(token: TokenView) -> bool {
    match token {
        TokenView::Keyword(text) => text.len() > 0 && forall|i: int|
            0 <= i < text.len() ==> !is_delimiter(#[trigger] text[i]),
        TokenView::StringLiteral(text) => forall|i: int|
            0 <= i < text.len() ==> !is_quote(#[trigger] text[i]),
        _ => true,
    }
}

/// Every token of every source text is well formed.
pub proof fn lemma_tokens_of_well_formed(s: Seq<char>)
    ensures
        forall|i: int| 0 <= i < tokens_of(s).len() ==> well_formed(#[trigger] tokens_of(s)[i]),
    decreases s.len(),
{
    if s.len() == 0 {
        assert(tokens_of(s).len() == 0);
    } else if is_whitespace(s[0]) {
        lemma_tokens_of_well_formed(s.skip(1));
        assert(tokens_of(s) == tokens_of(s.skip(1)));
    } else if is_structural(s[0]) {
        let later = tokens_of(s.skip(1));
        lemma_tokens_of_well_formed(s.skip(1));
        assert forall|i: int| 0 <= i < tokens_of(s).len() implies well_formed(
            #[trigger] tokens_of(s)[i],
        ) by {
            if i > 0 {
                assert(tokens_of(s)[i] == later[i - 1]);
            }
        }
    } else if is_quote(s[0]) {
        let body = s.skip(1);
        let stop = |c: char| is_quote(c);
        let text = body.take(literal_len(body));
        let later = tokens_of(after_literal(body));
        lemma_run_len_bound(body, stop);
        lemma_run_len_maximal(body, stop);
        lemma_tokens_of_well_formed(after_literal(body));
        assert forall|i: int| 0 <= i < text.len() implies !is_quote(#[trigger] text[i]) by {
            assert(!stop(body[i]));
        }
        assert(well_formed(TokenView::StringLiteral(text)));
        assert forall|i: int| 0 <= i < tokens_of(s).len() implies well_formed(
            #[trigger] tokens_of(s)[i],
        ) by {
            if i > 0 {
                assert(tokens_of(s)[i] == later[i - 1]);
            }
        }
    } else {
        let stop = |c: char| is_delimiter(c);
        let text = s.take(keyword_len(s));
        let later = tokens_of(s.skip(keyword_len(s)));
        lemma_run_len_bound(s.skip(1), stop);
        lemma_run_len_maximal(s, stop);
        lemma_tokens_of_well_formed(s.skip(keyword_len(s)));
        assert forall|i: int| 0 <= i < text.len() implies !is_delimiter(#[trigger] text[i]) by {
            assert(!stop(s[i]));
        }
        assert(well_formed(TokenView::Keyword(text)));
        assert forall|i: int| 0 <= i < tokens_of(s).len() implies well_formed(
            #[trigger] tokens_of(s)[i],
        ) by {
            if i > 0 {
                assert(tokens_of(s)[i] == later[i - 1]);
            }
        }
    }
}

/// Whitespace at the front of a text adds no token.
pub proof fn lemma_tokens_of_whitespace(space: Seq<char>, rest: Seq<char>)
    requires
        forall|i: int| 0 <= i < space.len() ==> is_whitespace(#[trigger] space[i]),
    ensures
        tokens_of(space + rest) == tokens_of(rest),
    decreases space.len(),
{
    if space.len() == 0 {
        assert(space + rest =~= rest);
    } else {
        assert((space + rest)[0] == space[0]);
        assert((space + rest).skip(1) =~= space.skip(1) + rest);
        assert forall|i: int| 0 <= i < space.skip(1).len() implies is_whitespace(
            #[trigger] space.skip(1)[i],
        ) by {
            assert(space.skip(1)[i] == space[i + 1]);
        }
        lemma_tokens_of_whitespace(space.skip(1), rest);
    }
}

/// A structural character at the front of a text adds its token.
pub proof fn lemma_tokens_of_structural(c: char, rest: Seq<char>)
    requires
        is_structural(c),
    ensures
        tokens_of(seq![c] + rest) == seq![structural_token(c)] + tokens_of(rest),
{
    assert((seq![c] + rest).skip(1) =~= rest);
}

/// A word at the front of a text, with a delimiter or nothing after it, adds
/// one keyword: the word.
pub proof fn lemma_tokens_of_keyword(word: Seq<char>, rest: Seq<char>)
    requires
        word.len() > 0,
        forall|i: int| 0 <= i < word.len() ==> !is_delimiter(#[trigger] word[i]),
        rest.len() > 0 ==> is_delimiter(rest[0]),
    ensures
        tokens_of(word + rest) == seq![TokenView::Keyword(word)] + tokens_of(rest),
{
    let text = word + rest;
    let stop = |c: char| is_delimiter(c);
    assert forall|i: int| 0 <= i < word.len() implies !stop(#[trigger] word[i]) by {
        assert(!is_delimiter(word[i]));
    }
    lemma_run_len_concat(word, rest, stop);
    assert(keyword_len(text) == word.len());
    assert(text[0] == word[0]);
    assert(text.take(word.len() as int) =~= word);
    assert(text.skip(word.len() as int) =~= rest);
}

/// A string literal at the front of a text, closed by a double quote, adds
/// one token: the text between the quotes.
pub proof fn lemma_tokens_of_literal(body: Seq<char>, rest: Seq<char>)
    requires
        forall|i: int| 0 <= i < body.len() ==> !is_quote(#[trigger] body[i]),
    ensures
        tokens_of(seq!['"'] + body + seq!['"'] + rest) == seq![TokenView::StringLiteral(body)]
            + tokens_of(rest),
{
    let text = seq!['"'] + body + seq!['"'] + rest;
    let inner = body + (seq!['"'] + rest);
    let stop = |c: char| is_quote(c);
    assert(text.skip(1) =~= inner);
    assert forall|i: int| 0 <= i < body.len() implies !stop(#[trigger] body[i]) by {
        assert(!is_quote(body[i]));
    }
    lemma_run_len_concat(body, seq!['"'] + rest, stop);
    assert(literal_len(inner) == body.len());
    assert(inner.take(body.len() as int) =~= body);
    assert(inner.skip(body.len() as int + 1) =~= rest);
}

/// A string literal that is never closed takes in the rest of the text.
pub proof fn lemma_tokens_of_open_literal(body: Seq<char>)
    requires
        forall|i: int| 0 <= i < body.len() ==> !is_quote(#[trigger] body[i]),
    ensures
        tokens_of(seq!['"'] + body) == seq![TokenView::StringLiteral(body)],
{
    let text = seq!['"'] + body;
    let stop = |c: char| is_quote(c);
    assert(text.skip(1) =~= body);
    assert forall|i: int| 0 <= i < body.len() implies !stop(#[trigger] body[i]) by {
        assert(!is_quote(body[i]));
    }
    lemma_run_len_concat(body, Seq::<char>::empty(), stop);
    assert(body + Seq::<char>::empty() =~= body);
    assert(body.take(body.len() as int) =~= body);
    assert(seq![TokenView::StringLiteral(body)] + tokens_of(Seq::<char>::empty()) =~= seq![
        TokenView::StringLiteral(body),
    ]);
}

/// The tokens of a text that starts with a double quote: the string literal
/// that the quote opens, then the tokens of what follows the literal.
proof fn lemma_step_literal(rest: Seq<char>)
    ensures
        tokens_of(seq!['"'] + rest) == seq![
            TokenView::StringLiteral(rest.take(literal_len(rest))),
        ] + tokens_of(after_literal(rest)),
{
    assert((seq!['"'] + rest).skip(1) =~= rest);
}

/// The tokens of a text that starts with a character `c` of a keyword: the
/// keyword, which takes in `c` and the run after it, then the tokens of
/// what follows the run.
proof fn lemma_step_keyword(c: char, rest: Seq<char>)
    requires
        !is_delimiter(c),
    ensures
        0 <= keyword_len(rest) <= rest.len(),
        tokens_of(seq![c] + rest) == seq![
            TokenView::Keyword(seq![c] + rest.take(keyword_len(rest))),
        ] + tokens_of(rest.skip(keyword_len(rest))),
{
    let text = seq![c] + rest;
    lemma_run_len_bound(rest, |c: char| is_delimiter(c));
    assert(text.skip(1) =~= rest);
    assert(keyword_len(text) == 1 + keyword_len(rest));
    assert(text.take(keyword_len(text)) =~= seq![c] + rest.take(keyword_len(rest)));
    assert(text.skip(keyword_len(text)) =~= rest.skip(keyword_len(rest)));
}

/// The source text that is still to be turned into tokens: the character in
/// hand, if there is one, followed by what has not been read yet.
pub open spec fn unread(ahead: Option<char>, rest: Seq<char>) -> Seq<char> {
    match ahead {
        Some(c) => seq![c] + rest,
        None => Seq::empty(),
    }
}

/// Reads the text of a string literal whose opening quote has just been
/// read, and the closing quote with it if there is one.
fn read_literal(chars: &mut Chars<'_>) -> (text: String)
    requires
        (*old(chars)).decrease() is Some,
    ensures
        (*final(chars)).decrease() is Some,
        text@ == (*old(chars)).remaining().take(literal_len((*old(chars)).remaining())),
        (*final(chars)).remaining() == after_literal((*old(chars)).remaining()),
{
    let ghost source = (*chars).remaining();
    let mut text = String::new();
    loop
        invariant_except_break
            (*chars).decrease() is Some,
            0 <= text@.len() <= source.len(),
            text@ == source.take(text@.len() as int),
            (*chars).remaining() == source.skip(text@.len() as int),
            literal_len(source) == text@.len() + literal_len((*chars).remaining()),
        ensures
            (*chars).decrease() is Some,
            text@ == source.take(literal_len(source)),
            (*chars).remaining() == after_literal(source),
        decreases (*chars).decrease()->0,
    {
        let ghost rest = (*chars).remaining();
        match chars.next() {
            None => {
                break ;
            },
            Some(c) => {
                if c == '"' {
                    assert(source.skip(text@.len() as int + 1) =~= rest.skip(1));
                    break ;
                }
                text.push(c);
                assert(text@ =~= source.take(text@.len() as int));
                assert(rest.skip(1) =~= source.skip(text@.len() as int));
            },
        }
    }
    text
}

/// Reads the rest of a keyword whose first character `first` has just been
/// read. Returns the keyword together with the delimiter that ended it,
/// which has been read too, or `None` where the text ended first.
fn read_keyword(chars: &mut Chars<'_>, first: char) -> (found: (String, Option<char>))
    requires
        (*old(chars)).decrease() is Some,
    ensures
        (*final(chars)).decrease() is Some,
        found.0@ == seq![first] + (*old(chars)).remaining().take(
            keyword_len((*old(chars)).remaining()),
        ),
        unread(found.1, (*final(chars)).remaining()) == (*old(chars)).remaining().skip(
            keyword_len((*old(chars)).remaining()),
        ),
{
    let ghost source = (*chars).remaining();
    let mut text = String::new();
    text.push(first);
    let mut stop: Option<char> = None;
    assert(text@ =~= seq![first] + source.take(0));
    assert(source.skip(0) =~= source);
    loop
        invariant_except_break
            (*chars).decrease() is Some,
            stop is None,
            1 <= text@.len() <= source.len() + 1,
            text@ == seq![first] + source.take(text@.len() - 1),
            (*chars).remaining() == source.skip(text@.len() - 1),
            keyword_len(source) == text@.len() - 1 + keyword_len((*chars).remaining()),
        ensures
            (*chars).decrease() is Some,
            text@ == seq![first] + source.take(keyword_len(source)),
            unread(stop, (*chars).remaining()) == source.skip(keyword_len(source)),
        decreases (*chars).decrease()->0,
    {
        let ghost rest = (*chars).remaining();
        match chars.next() {
            None => {
                assert(source.skip(keyword_len(source)) =~= Seq::<char>::empty());
                break ;
            },
            Some(c) => {
                if delimiter(c) {
                    stop = Some(c);
                    assert(seq![c] + rest.skip(1) =~= rest);
                    break ;
                }
                text.push(c);
                assert(text@ =~= seq![first] + source.take(text@.len() - 1));
                assert(rest.skip(1) =~= source.skip(text@.len() - 1));
            },
        }
    }
    (text, stop)
}

/// Turns source text into its tokens, in one pass from left to right.
/// Every text has a token stream: what fits no other token is a keyword,
/// and a string literal that is never closed runs to the end of the text.
pub fn lexical_analysis(input: &str) -> (tokens: Vec<Token>)
    ensures
        tokens.deep_view() == tokens_of(input@),
{
    let mut tokens: Vec<Token> = Vec::new();
    let mut chars = input.chars();
    let mut ahead = chars.next();
    // The number of characters taken from `chars`, counted for as long as
    // there is a character in hand.
    let ghost mut read: int = 1;
    proof {
        assert(tokens.deep_view() =~= Seq::<TokenView>::empty());
        assert(unread(ahead, chars.remaining()) =~= input@);
    }
    loop
        invariant_except_break
            chars.decrease() is Some,
            ahead is Some ==> 1 <= read <= input@.len() && chars.remaining() == input@.skip(read),
            tokens_of(input@) == tokens.deep_view() + tokens_of(
                unread(ahead, chars.remaining()),
            ),
        ensures
            tokens.deep_view() == tokens_of(input@),
        decreases
            (if ahead is Some {
                input@.len() - read + 1
            } else {
                0
            }),
    {
        let ghost done = tokens.deep_view();
        let ghost rest = chars.remaining();
        let c = match ahead {
            Some(c) => c,
            None => {
                assert(done + tokens_of(Seq::<char>::empty()) =~= done);
                break ;
            },
        };
        let ghost here = input@.skip(read);
        if whitespace(c) {
            ahead = chars.next();
            proof {
                lemma_tokens_of_whitespace(seq![c], rest);
                assert(unread(ahead, chars.remaining()) =~= rest);
                if ahead is Some {
                    assert(here.skip(1) =~= input@.skip(read + 1));
                }
                read = read + 1;
            }
        } else if c == '(' || c == ')' || c == ';' {
            let token = if c == '(' {
                Token::OpenParenthesis
            } else if c == ')' {
                Token::CloseParenthesis
            } else {
                Token::Semicolon
            };
            tokens.push(token);
            ahead = chars.next();
            proof {
                lemma_tokens_of_structural(c, rest);
                assert(tokens.deep_view() =~= done + seq![structural_token(c)]);
                assert(unread(ahead, chars.remaining()) =~= rest);
                if ahead is Some {
                    assert(here.skip(1) =~= input@.skip(read + 1));
                }
                read = read + 1;
            }
        } else if c == '"' {
            let literal = read_literal(&mut chars);
            let ghost after = chars.remaining();
            tokens.push(Token::StringLiteral(literal));
            ahead = chars.next();
            proof {
                lemma_step_literal(rest);
                assert(tokens.deep_view() =~= done + seq![TokenView::StringLiteral(literal@)]);
                assert(unread(ahead, chars.remaining()) =~= after);
                lemma_run_len_bound(here, |c: char| is_quote(c));
                if ahead is Some {
                    assert(after.skip(1) =~= input@.skip(read + literal_len(here) + 2));
                }
                read = read + literal_len(here) + 2;
            }
        } else {
            let (keyword, stop) = read_keyword(&mut chars, c);
            tokens.push(Token::Keyword(keyword));
            ahead = stop;
            proof {
                lemma_step_keyword(c, rest);
                assert(tokens.deep_view() =~= done + seq![TokenView::Keyword(keyword@)]);
                if ahead is Some {
                    assert(chars.remaining() =~= here.skip(keyword_len(here)).skip(1));
                    assert(chars.remaining() =~= input@.skip(read + keyword_len(here) + 1));
                }
                read = read + keyword_len(here) + 1;
            }
        }
    }
    tokens
}

} // verus!
