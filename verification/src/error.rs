use vstd::prelude::*;
use vstd::string::StringExecFns;

verus! {

/// Why a run of tokens did not become a statement.
#[derive(Debug)]
pub enum ASTError {
    /// The tokens break the grammar; the message says how.
    Syntax(String),
    /// No token was left to read. This ends a run of statements and is not
    /// a fault of the input.
    EmptyTokenList,
}

/// An error as plain data.
pub enum ASTErrorView {
    Syntax(Seq<char>),
    EmptyTokenList,
}

impl View for ASTError {
    type V = ASTErrorView;

    open spec fn view(&self) -> ASTErrorView {
        match self {
            ASTError::Syntax(message) => ASTErrorView::Syntax(message@),
            ASTError::EmptyTokenList => ASTErrorView::EmptyTokenList,
        }
    }
}

impl ASTErrorView {
    /// The line that reports the error.
    pub open spec fn text(self) -> Seq<char> {
        match self {
            ASTErrorView::Syntax(message) => "Syntax error: "@ + message,
            ASTErrorView::EmptyTokenList => "Finished Reading"@,
        }
    }
}

impl Clone for ASTError {
    fn clone(&self) -> (error: Self)
        ensures
            error@ == self@,
    {
        match self {
            ASTError::Syntax(message) => ASTError::Syntax(message.clone()),
            ASTError::EmptyTokenList => ASTError::EmptyTokenList,
        }
    }
}

impl ASTError {
    /// The line that reports the error.
    pub fn to_string(&self) -> (text: String)
        ensures
            text@ == self@.text(),
    {
        match self {
            ASTError::Syntax(message) => String::from_str("Syntax error: ").concat(
                message.as_str(),
            ),
            ASTError::EmptyTokenList => String::from_str("Finished Reading"),
        }
    }
}

} // verus!
