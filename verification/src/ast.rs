use vstd::prelude::*;

verus! {

/// A statement of the program. The syntax tree is a flat sequence of
/// statements, in the order in which they stand in the source.
#[derive(Debug, PartialEq, Eq)]
pub enum AST {
    /// Print the given text, which is taken as it stands.
    PrintStatement(String),
}

/// The mathematical value of an `AST` node.
#[verifier::ext_equal]
pub enum AstView {
    /// Print the given text.
    PrintStatement(Seq<char>),
}

impl View for AST {
    type V = AstView;

    open spec fn view(&self) -> AstView {
        match self {
            AST::PrintStatement(text) => AstView::PrintStatement(text@),
        }
    }
}

impl DeepView for AST {
    type V = AstView;

    open spec fn deep_view(&self) -> AstView {
        self.view()
    }
}

} // verus!
