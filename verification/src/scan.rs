//! The executable scanner, proved to return exactly what `model::scan_spec`
//! describes.

use vstd::prelude::*;
use vstd::string::StrSliceExecFns;
use vstd::string::StringExecFns;

use crate::model::append_char;
use crate::model::flush_pending;
use crate::model::init_state;
use crate::model::keyword_kind;
use crate::model::lemma_scan_from_concat;
use crate::model::lemma_scan_from_snoc;
use crate::model::scan_from;
use crate::model::scan_spec;
use crate::model::scan_step;
use crate::model::symbol_kind;
use crate::model::ScanState;
use crate::token::lemma_tokens_view_push;
use crate::token::pending_view;
use crate::token::tokens_view;
use crate::token::ScanError;
use crate::token::SpecToken;
use crate::token::Token;
use crate::token::TokenType;

verus! {

/// Classify a boundary symbol, if `c` is one.
fn symbol_lookup(c: char) -> (r: Option<TokenType>)
    ensures
        r == symbol_kind(c),
{
    if c == ';' {
        Some(TokenType::SemiColon)
    } else if c == '=' {
        Some(TokenType::AssignOp)
    } else if c == '[' {
        Some(TokenType::SqBracketOpen)
    } else if c == ']' {
        Some(TokenType::SqBracketClose)
    } else if c == '{' {
        Some(TokenType::CuBracketOpen)
    } else if c == '}' {
        Some(TokenType::CuBracketClose)
    } else if c == ',' {
        Some(TokenType::Comma)
    } else {
        None
    }
}

/// Whether `c` starts or extends an identifier on its own.
fn is_letter_char(c: char) -> (r: bool)
    ensures
        r == crate::model::is_letter(c),
{
    ('A' <= c && c <= 'z' && c != '[' && c != ']') || c == '_'
}

/// Whether `c` is an ASCII decimal digit.
fn is_digit_char(c: char) -> (r: bool)
    ensures
        r == crate::model::is_digit(c),
{
    '0' <= c && c <= '9'
}

/// The keyword token whose spelling is exactly `s`, if any.
fn keyword_lookup(s: &String) -> (r: Option<TokenType>)
    ensures
        r == keyword_kind(s@),
{
    proof {
        reveal_strlit("if");
        reveal_strlit("interface");
        reveal_strlit("struct");
        reveal_strlit("for");
        assert("if"@ =~= seq!['i', 'f']);
        assert("interface"@ =~= seq!['i', 'n', 't', 'e', 'r', 'f', 'a', 'c', 'e']);
        assert("struct"@ =~= seq!['s', 't', 'r', 'u', 'c', 't']);
        assert("for"@ =~= seq!['f', 'o', 'r']);
    }
    if *s == String::from_str("if") {
        Some(TokenType::IfKeyword)
    } else if *s == String::from_str("interface") {
        Some(TokenType::InterfaceKeyword)
    } else if *s == String::from_str("struct") {
        Some(TokenType::StructKeyword)
    } else if *s == String::from_str("for") {
        Some(TokenType::ForKeyword)
    } else {
        None
    }
}

/// Relies on `String::push`: appends the given character to the end of the
/// string.
#[verifier::external_body]
fn push_char(s: &mut String, c: char)
    ensures
        final(s)@ == old(s)@.push(c),
{
    s.push(c);
}

/// A fresh one-character string.
fn char_string(c: char) -> (r: String)
    ensures
        r@ == seq![c],
{
    let mut s = String::new();
    push_char(&mut s, c);
    proof {
        assert(Seq::<char>::empty().push(c) =~= seq![c]);
    }
    s
}

/// Append `c` to the pending token, or start a fresh one of kind `fresh_ty`.
fn append_pending(pending: Option<Token>, fresh_ty: TokenType, c: char) -> (r: Token)
    ensures
        r@ == append_char(pending_view(pending), fresh_ty, c),
{
    match pending {
        Some(tok) => {
            let ty = tok.ty;
            match tok.value {
                Some(mut s) => {
                    push_char(&mut s, c);
                    Token { ty, value: Some(s) }
                },
                None => Token { ty, value: Some(char_string(c)) },
            }
        },
        None => Token { ty: fresh_ty, value: Some(char_string(c)) },
    }
}

/// Flush the pending token, if any, onto the emitted list.
fn flush_into(tokens: &mut Vec<Token>, pending: Option<Token>)
    ensures
        tokens_view(final(tokens)@) == flush_pending(
            ScanState { tokens: tokens_view(old(tokens)@), pending: pending_view(pending) },
        ),
{
    match pending {
        Some(tok) => {
            proof {
                lemma_tokens_view_push(tokens@, tok);
            }
            tokens.push(tok);
        },
        None => {
        },
    }
}

/// Scan `code` into its complete, ordered token list, or fail fast with the
/// single fatal error. The result is exactly what the state machine
/// `scan_spec` prescribes for this character sequence: `Ok` with the full
/// tokenization whenever the machine accepts, and `Err` with the same error
/// the machine reports whenever it rejects.
pub fn tokenize(code: &str) -> (res: Result<Vec<Token>, ScanError>)
    ensures
        match res {
            Result::Ok(tokens) => scan_spec(code@) == Result::Ok::<Seq<SpecToken>, ScanError>(
                tokens_view(tokens@),
            ),
            Result::Err(e) => scan_spec(code@) == Result::Err::<Seq<SpecToken>, ScanError>(e),
        },
{
    let n = code.unicode_len();
    let mut tokens: Vec<Token> = Vec::new();
    let mut current: Option<Token> = None;
    let mut i: usize = 0;
    proof {
        assert(code@.take(0) =~= Seq::<char>::empty());
        assert(tokens_view(tokens@) =~= Seq::<SpecToken>::empty());
    }
    while i < n
        invariant
            i <= n,
            n == code@.len(),
            scan_from(init_state(), code@.take(i as int)) == Result::Ok::<ScanState, ScanError>(
                ScanState { tokens: tokens_view(tokens@), pending: pending_view(current) },
            ),
        decreases n - i,
    {
        let ghost st_pre = ScanState { tokens: tokens_view(tokens@), pending: pending_view(current) };
        let c = code.get_char(i);
        let mut in_str = false;
        if tokens.len() > 0 {
            let last_ty = tokens[tokens.len() - 1].ty;
            if last_ty == TokenType::DoubleQuoteStart && c != '"' {
                in_str = true;
            }
        }
        let pending_ident = match &current {
            Some(tok) => tok.ty == TokenType::Ident,
            None => false,
        };
        let sym = symbol_lookup(c);
        if in_str {
            current = Some(append_pending(current, TokenType::StringLiteral, c));
        } else if sym.is_some() {
            flush_into(&mut tokens, current);
            proof {
                lemma_tokens_view_push(tokens@, Token { ty: sym->0, value: None });
            }
            tokens.push(Token { ty: sym.unwrap(), value: None });
            current = None;
        } else if is_letter_char(c) || (pending_ident && c != ' ') {
            match current {
                Some(tok) => {
                    let ty = tok.ty;
                    match tok.value {
                        Some(mut s) => {
                            push_char(&mut s, c);
                            match keyword_lookup(&s) {
                                Some(kw) => {
                                    proof {
                                        lemma_tokens_view_push(
                                            tokens@,
                                            Token { ty: kw, value: None },
                                        );
                                    }
                                    tokens.push(Token { ty: kw, value: None });
                                    current = None;
                                },
                                None => {
                                    current = Some(Token { ty, value: Some(s) });
                                },
                            }
                        },
                        None => {
                            current = Some(Token { ty, value: Some(char_string(c)) });
                        },
                    }
                },
                None => {
                    current = Some(Token { ty: TokenType::Ident, value: Some(char_string(c)) });
                },
            }
        } else if c == ' ' {
            flush_into(&mut tokens, current);
            current = None;
        } else if is_digit_char(c) {
            current = Some(append_pending(current, TokenType::Number, c));
        } else if c == '"' {
            match current {
                Some(tok) => {
                    if tok.ty == TokenType::StringLiteral {
                        proof {
                            lemma_tokens_view_push(tokens@, tok);
                        }
                        tokens.push(tok);
                        proof {
                            lemma_tokens_view_push(
                                tokens@,
                                Token { ty: TokenType::DoubleQuoteEnd, value: None },
                            );
                        }
                        tokens.push(Token { ty: TokenType::DoubleQuoteEnd, value: None });
                        current = None;
                    } else {
                        proof {
                            let e = ScanError::QuoteWhileOtherTokenPending;
                            lemma_scan_from_snoc(init_state(), code@.take(i as int), c);
                            assert(code@.take(i as int + 1) =~= code@.take(i as int).push(c));
                            lemma_scan_from_concat(
                                init_state(),
                                code@.take(i as int + 1),
                                code@.skip(i as int + 1),
                            );
                            assert(code@ =~= code@.take(i as int + 1) + code@.skip(i as int + 1));
                        }
                        return Err(ScanError::QuoteWhileOtherTokenPending);
                    }
                },
                None => {
                    proof {
                        lemma_tokens_view_push(
                            tokens@,
                            Token { ty: TokenType::DoubleQuoteStart, value: None },
                        );
                    }
                    tokens.push(Token { ty: TokenType::DoubleQuoteStart, value: None });
                    current = None;
                },
            }
        } else {
            // A character that is none of the above is skipped: it neither
            // flushes the pending token nor contributes a token.
        }
        proof {
            let st_post = ScanState {
                tokens: tokens_view(tokens@),
                pending: pending_view(current),
            };
            assert(scan_step(st_pre, c) == Result::Ok::<ScanState, ScanError>(st_post));
            lemma_scan_from_snoc(init_state(), code@.take(i as int), c);
            assert(code@.take(i as int + 1) =~= code@.take(i as int).push(c));
        }
        i = i + 1;
    }
    proof {
        assert(code@.take(n as int) =~= code@);
    }
    flush_into(&mut tokens, current);
    Ok(tokens)
}

} // verus!
