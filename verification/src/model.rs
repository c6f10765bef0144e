//! Mathematical model of the scanner: a character-at-a-time state machine
//! over sequences of characters, producing sequences of `SpecToken`s.
//!
//! The executable scanner in `scan` is proved to return exactly what
//! `scan_spec` describes.

use vstd::prelude::*;

use crate::token::ScanError;
use crate::token::SpecToken;
use crate::token::TokenType;

verus! {

/// The transient state carried from one character to the next: the tokens
/// emitted so far and the partially accumulated pending token, if any.
pub ghost struct ScanState {
    pub tokens: Seq<SpecToken>,
    pub pending: Option<SpecToken>,
}

/// The state a scan starts in: nothing emitted, nothing pending.
pub open spec fn init_state() -> ScanState {
    ScanState { tokens: Seq::empty(), pending: Option::None }
}

/// The fixed-kind token a boundary symbol emits, or `None` for any other
/// character.
pub open spec fn symbol_kind(c: char) -> Option<TokenType> {
    if c == ';' {
        Option::Some(TokenType::SemiColon)
    } else if c == '=' {
        Option::Some(TokenType::AssignOp)
    } else if c == '[' {
        Option::Some(TokenType::SqBracketOpen)
    } else if c == ']' {
        Option::Some(TokenType::SqBracketClose)
    } else if c == '{' {
        Option::Some(TokenType::CuBracketOpen)
    } else if c == '}' {
        Option::Some(TokenType::CuBracketClose)
    } else if c == ',' {
        Option::Some(TokenType::Comma)
    } else {
        Option::None
    }
}

/// A character that starts or extends an identifier on its own: the ASCII
/// range from `A` through `z` (square brackets excluded; they are boundary
/// symbols anyway), or an underscore.
pub open spec fn is_letter(c: char) -> bool {
    ('A' <= c && c <= 'z' && c != '[' && c != ']') || c == '_'
}

/// An ASCII decimal digit.
pub open spec fn is_digit(c: char) -> bool {
    '0' <= c && c <= '9'
}

/// The keyword token whose spelling is exactly `text`, or `None`.
pub open spec fn keyword_kind(text: Seq<char>) -> Option<TokenType> {
    if text == seq!['i', 'f'] {
        Option::Some(TokenType::IfKeyword)
    } else if text == seq!['i', 'n', 't', 'e', 'r', 'f', 'a', 'c', 'e'] {
        Option::Some(TokenType::InterfaceKeyword)
    } else if text == seq!['s', 't', 'r', 'u', 'c', 't'] {
        Option::Some(TokenType::StructKeyword)
    } else if text == seq!['f', 'o', 'r'] {
        Option::Some(TokenType::ForKeyword)
    } else {
        Option::None
    }
}

/// String-body mode: the most recently emitted token is a quote-start marker
/// and the current character does not close the literal. In this mode every
/// character, structural or not, becomes string content.
pub open spec fn in_string_body(st: ScanState, c: char) -> bool {
    st.tokens.len() > 0 && st.tokens.last().ty == TokenType::DoubleQuoteStart && c != '"'
}

/// Append a character to the pending token, or start a fresh pending token
/// of kind `fresh_ty` when none is being accumulated. An existing pending
/// token keeps its kind.
pub open spec fn append_char(pending: Option<SpecToken>, fresh_ty: TokenType, c: char) -> SpecToken {
    match pending {
        Option::Some(tok) => SpecToken {
            ty: tok.ty,
            value: match tok.value {
                Option::Some(s) => Option::Some(s.push(c)),
                Option::None => Option::Some(seq![c]),
            },
        },
        Option::None => SpecToken { ty: fresh_ty, value: Option::Some(seq![c]) },
    }
}

/// The emitted tokens with the pending token flushed onto the end, if there
/// is one.
pub open spec fn flush_pending(st: ScanState) -> Seq<SpecToken> {
    match st.pending {
        Option::Some(tok) => st.tokens.push(tok),
        Option::None => st.tokens,
    }
}

/// A token with no text payload.
pub open spec fn bare(ty: TokenType) -> SpecToken {
    SpecToken { ty: ty, value: Option::None }
}

/// One step of the scanner: how a single character transforms the state,
/// or fails. The branches are tried in order:
/// string-body mode first (it overrides every other classification), then
/// boundary symbols, letters, whitespace, digits, the quote character, and
/// finally the permissive skip of anything unrecognized.
pub open spec fn scan_step(st: ScanState, c: char) -> Result<ScanState, ScanError> {
    if in_string_body(st, c) {
        Result::Ok(ScanState {
            tokens: st.tokens,
            pending: Option::Some(append_char(st.pending, TokenType::StringLiteral, c)),
        })
    } else if symbol_kind(c) is Some {
        Result::Ok(ScanState {
            tokens: flush_pending(st).push(bare(symbol_kind(c)->Some_0)),
            pending: Option::None,
        })
    } else if is_letter(c) || (st.pending is Some && st.pending->Some_0.ty == TokenType::Ident
        && c != ' ') {
        let appended = append_char(st.pending, TokenType::Ident, c);
        if st.pending is Some && st.pending->Some_0.value is Some && keyword_kind(
            appended.value->Some_0,
        ) is Some {
            // The accumulated text has just completed a reserved word:
            // the pending token is discarded and the keyword token is
            // emitted on the spot.
            Result::Ok(ScanState {
                tokens: st.tokens.push(bare(keyword_kind(appended.value->Some_0)->Some_0)),
                pending: Option::None,
            })
        } else {
            Result::Ok(ScanState { tokens: st.tokens, pending: Option::Some(appended) })
        }
    } else if c == ' ' {
        Result::Ok(ScanState { tokens: flush_pending(st), pending: Option::None })
    } else if is_digit(c) {
        Result::Ok(ScanState {
            tokens: st.tokens,
            pending: Option::Some(append_char(st.pending, TokenType::Number, c)),
        })
    } else if c == '"' {
        match st.pending {
            Option::Some(tok) => if tok.ty == TokenType::StringLiteral {
                Result::Ok(ScanState {
                    tokens: st.tokens.push(tok).push(bare(TokenType::DoubleQuoteEnd)),
                    pending: Option::None,
                })
            } else {
                Result::Err(ScanError::QuoteWhileOtherTokenPending)
            },
            Option::None => Result::Ok(ScanState {
                tokens: st.tokens.push(bare(TokenType::DoubleQuoteStart)),
                pending: Option::None,
            }),
        }
    } else {
        // A character that is none of the above is skipped: it neither
        // flushes the pending token nor contributes a token.
        Result::Ok(st)
    }
}

/// Run the scanner from `st` over all of `input`, stopping at the first
/// failing step.
pub open spec fn scan_from(st: ScanState, input: Seq<char>) -> Result<ScanState, ScanError>
    decreases input.len(),
{
    if input.len() == 0 {
        Result::Ok(st)
    } else {
        match scan_step(st, input[0]) {
            Result::Ok(st2) => scan_from(st2, input.drop_first()),
            Result::Err(e) => Result::Err(e),
        }
    }
}

/// The complete tokenization of `input`: the whole pass from the initial
/// state, with a still-pending token flushed at end of input.
pub open spec fn scan_spec(input: Seq<char>) -> Result<Seq<SpecToken>, ScanError> {
    match scan_from(init_state(), input) {
        Result::Ok(st) => Result::Ok(flush_pending(st)),
        Result::Err(e) => Result::Err(e),
    }
}

/// The shape every reachable pending token has: it is only ever an
/// identifier, a number or a string literal in progress, and its
/// accumulated text is present.
pub open spec fn pending_wf(p: Option<SpecToken>) -> bool {
    match p {
        Option::Some(t) => (t.ty == TokenType::Ident || t.ty == TokenType::Number || t.ty
            == TokenType::StringLiteral) && t.value is Some,
        Option::None => true,
    }
}

/// A single step keeps the pending token well-shaped.
pub proof fn lemma_step_preserves_pending_wf(st: ScanState, c: char)
    requires
        pending_wf(st.pending),
    ensures
        match scan_step(st, c) {
            Result::Ok(st2) => pending_wf(st2.pending),
            Result::Err(_) => true,
        },
{
}

/// A whole scan keeps the pending token well-shaped.
pub proof fn lemma_scan_preserves_pending_wf(st: ScanState, input: Seq<char>)
    requires
        pending_wf(st.pending),
    ensures
        match scan_from(st, input) {
            Result::Ok(st2) => pending_wf(st2.pending),
            Result::Err(_) => true,
        },
    decreases input.len(),
{
    if input.len() > 0 {
        lemma_step_preserves_pending_wf(st, input[0]);
        match scan_step(st, input[0]) {
            Result::Ok(st2) => {
                lemma_scan_preserves_pending_wf(st2, input.drop_first());
            },
            Result::Err(_) => {
            },
        }
    }
}

/// Scanning a concatenation runs the first part, then the second from
/// wherever the first left off; an error in the first part is final.
pub proof fn lemma_scan_from_concat(st: ScanState, a: Seq<char>, b: Seq<char>)
    ensures
        scan_from(st, a + b) == (match scan_from(st, a) {
            Result::Ok(st2) => scan_from(st2, b),
            Result::Err(e) => Result::Err::<ScanState, ScanError>(e),
        }),
    decreases a.len(),
{
    if a.len() == 0 {
        assert(a + b =~= b);
    } else {
        assert((a + b)[0] == a[0]);
        assert((a + b).drop_first() =~= a.drop_first() + b);
        match scan_step(st, a[0]) {
            Result::Ok(st2) => {
                lemma_scan_from_concat(st2, a.drop_first(), b);
            },
            Result::Err(_) => {
            },
        }
    }
}

/// Scanning one more character is one more step.
pub proof fn lemma_scan_from_snoc(st: ScanState, s: Seq<char>, c: char)
    ensures
        scan_from(st, s.push(c)) == (match scan_from(st, s) {
            Result::Ok(st2) => scan_step(st2, c),
            Result::Err(e) => Result::Err::<ScanState, ScanError>(e),
        }),
{
    assert(s.push(c) =~= s + seq![c]);
    lemma_scan_from_concat(st, s, seq![c]);
    assert(seq![c].drop_first() =~= Seq::<char>::empty());
    match scan_from(st, s) {
        Result::Ok(st2) => {
            assert(seq![c][0] == c);
            match scan_step(st2, c) {
                Result::Ok(st3) => {
                    assert(scan_from(st2, seq![c]) == scan_from(st3, seq![c].drop_first()));
                },
                Result::Err(_) => {
                },
            }
        },
        Result::Err(_) => {
        },
    }
}

} // verus!
