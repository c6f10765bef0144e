//! Token and error types produced by the scanner.

use vstd::prelude::*;

verus! {

/// Lexical category of a token.
#[derive(Debug, Clone, Copy, PartialEq, Eq, Structural)]
pub enum TokenType {
    AssignOp,
    Comma,
    CuBracketClose,
    CuBracketOpen,
    DoubleQuoteEnd,
    DoubleQuoteStart,
    Ident,
    IfKeyword,
    InterfaceKeyword,
    Number,
    SemiColon,
    SqBracketClose,
    SqBracketOpen,
    StringLiteral,
    StructKeyword,
    ForKeyword,
}

/// A token: a lexical category together with the captured text, where the
/// category carries one (identifiers, numbers and string literals do;
/// structural symbols and keywords do not).
#[derive(Debug, Clone, PartialEq, Eq)]
pub struct Token {
    pub ty: TokenType,
    pub value: Option<String>,
}

/// Mathematical image of a `Token`: the category with the text as a
/// character sequence.
pub ghost struct SpecToken {
    pub ty: TokenType,
    pub value: Option<Seq<char>>,
}

impl View for Token {
    type V = SpecToken;

    open spec fn view(&self) -> SpecToken {
        SpecToken {
            ty: self.ty,
            value: match self.value {
                Option::Some(s) => Option::Some(s@),
                Option::None => Option::None,
            },
        }
    }
}

/// The views of a sequence of tokens, elementwise.
pub open spec fn tokens_view(ts: Seq<Token>) -> Seq<SpecToken> {
    ts.map_values(|t: Token| t@)
}

/// The view of an optional pending token.
pub open spec fn pending_view(p: Option<Token>) -> Option<SpecToken> {
    match p {
        Option::Some(t) => Option::Some(t@),
        Option::None => Option::None,
    }
}

/// Viewing a sequence of tokens commutes with appending one.
pub proof fn lemma_tokens_view_push(s: Seq<Token>, t: Token)
    ensures
        tokens_view(s.push(t)) == tokens_view(s).push(t@),
{
    assert(tokens_view(s.push(t)) =~= tokens_view(s).push(t@));
}

/// The single fatal scanning error: a quote opened while a non-string token
/// was still being accumulated.
#[derive(Debug, Clone, Copy, PartialEq, Eq, Structural)]
pub enum ScanError {
    QuoteWhileOtherTokenPending,
}

} // verus!
