use vstd::prelude::*;
use crate::ast::{AstView, AST};

verus! {

/// The line of output that prints `text`: a call of `console.log` on `text`
/// between double quotes, a semicolon and a newline. `text` stands in the
/// line as it is: nothing in it is escaped.
pub open spec fn console_line(text: Seq<char>) -> Seq<char> {
    "console.log(\""@ + text + "\");\n"@
}

/// The output text of one statement.
pub open spec fn statement_text(node: AstView) -> Seq<char> {
    match node {
        AstView::PrintStatement(text) => console_line(text),
    }
}

/// The output text of a syntax tree: the texts of its statements, one after
/// the other and in their order, and nothing else.
pub open spec fn script_of(ast: Seq<AstView>) -> Seq<char>
    decreases ast.len(),
{
    if ast.len() == 0 {
        Seq::empty()
    } else {
        statement_text(ast[0]) + script_of(ast.skip(1))
    }
}

/// The output of two syntax trees in a row is the output of the first
/// followed by the output of the second.
pub proof fn lemma_script_of_concat(front: Seq<AstView>, back: Seq<AstView>)
    ensures
        script_of(front + back) == script_of(front) + script_of(back),
    decreases front.len(),
{
    if front.len() == 0 {
        assert(front + back =~= back);
        assert(script_of(front) + script_of(back) =~= script_of(back));
    } else {
        assert((front + back).skip(1) =~= front.skip(1) + back);
        lemma_script_of_concat(front.skip(1), back);
        assert(script_of(front + back) =~= script_of(front) + script_of(back));
    }
}

/// A statement added at the end of a syntax tree adds its text at the end of
/// the output.
pub proof fn lemma_script_of_push(ast: Seq<AstView>, node: AstView)
    ensures
        script_of(ast.push(node)) == script_of(ast) + statement_text(node),
{
    let last = seq![node];
    assert(script_of(last.skip(1)) =~= Seq::<char>::empty());
    assert(script_of(last) =~= statement_text(node));
    assert(ast.push(node) =~= ast + last);
    lemma_script_of_concat(ast, last);
}

/// Writes out the syntax tree as output text, statement by statement.
pub fn generate_code(ast: Vec<AST>) -> (js_code: String)
    ensures
        js_code@ == script_of(ast.deep_view()),
{
    let mut js_code = String::new();
    let ghost all = ast.deep_view();
    let mut i: usize = 0;
    assert(all.take(0) =~= Seq::<AstView>::empty());
    while i < ast.len()
        invariant
            i <= ast.len(),
            all == ast.deep_view(),
            js_code@ == script_of(all.take(i as int)),
        decreases ast.len() - i,
    {
        let ghost written = js_code@;
        match &ast[i] {
            AST::PrintStatement(text) => {
                js_code.append("console.log(\"");
                js_code.append(text.as_str());
                js_code.append("\");\n");
            },
        }
        proof {
            let node = all[i as int];
            assert(js_code@ =~= written + statement_text(node));
            assert(all.take(i + 1) =~= all.take(i as int).push(node));
            lemma_script_of_push(all.take(i as int), node);
        }
        i = i + 1;
    }
    assert(all.take(i as int) =~= all);
    js_code
}

} // verus!
