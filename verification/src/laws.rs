//! The general laws of the scanner, stated over the model and proved once
//! and for all. Each law speaks about every input it covers, not about
//! chosen examples; the example-level checks live in the test suite.

use vstd::prelude::*;

use crate::model::bare;
use crate::model::flush_pending;
use crate::model::in_string_body;
use crate::model::init_state;
use crate::model::is_letter;
use crate::model::keyword_kind;
use crate::model::lemma_scan_from_concat;
use crate::model::lemma_scan_from_snoc;
use crate::model::lemma_scan_preserves_pending_wf;
use crate::model::scan_from;
use crate::model::scan_spec;
use crate::model::scan_step;
use crate::model::ScanState;
use crate::token::ScanError;
use crate::token::SpecToken;
use crate::token::TokenType;

verus! {

/// Trailing accumulation flush: a token still being accumulated when the
/// input runs out is never dropped; it appears as the final token of the
/// result.
pub proof fn lemma_trailing_flush(input: Seq<char>, st: ScanState)
    requires
        scan_from(init_state(), input) == Result::Ok::<ScanState, ScanError>(st),
        st.pending is Some,
    ensures
        scan_spec(input) == Result::Ok::<Seq<SpecToken>, ScanError>(
            st.tokens.push(st.pending->Some_0),
        ),
        scan_spec(input)->Ok_0.len() == st.tokens.len() + 1,
        scan_spec(input)->Ok_0.last() == st.pending->Some_0,
{
}

/// Fail-fast on a quote conflict: a quote met while a non-string,
/// non-identifier token is pending aborts the whole scan with
/// `QuoteWhileOtherTokenPending`, whatever follows — no token list is
/// produced. (A pending identifier absorbs the quote character instead,
/// and a completed keyword leaves nothing pending, so in a scan from the
/// start this fires exactly for a pending number.)
pub proof fn lemma_quote_conflict_aborts(prefix: Seq<char>, suffix: Seq<char>)
    requires
        scan_from(init_state(), prefix) is Ok,
        scan_from(init_state(), prefix)->Ok_0.pending is Some,
        scan_from(init_state(), prefix)->Ok_0.pending->Some_0.ty != TokenType::StringLiteral,
        scan_from(init_state(), prefix)->Ok_0.pending->Some_0.ty != TokenType::Ident,
    ensures
        scan_spec(prefix + seq!['"'] + suffix) == Result::Err::<Seq<SpecToken>, ScanError>(
            ScanError::QuoteWhileOtherTokenPending,
        ),
{
    let st = scan_from(init_state(), prefix)->Ok_0;
    let whole = prefix + seq!['"'] + suffix;
    assert(whole =~= prefix + (seq!['"'] + suffix));
    lemma_scan_from_concat(init_state(), prefix, seq!['"'] + suffix);
    assert((seq!['"'] + suffix)[0] == '"');
    assert(!in_string_body(st, '"'));
    assert(scan_step(st, '"') == Result::Err::<ScanState, ScanError>(
        ScanError::QuoteWhileOtherTokenPending,
    ));
}

/// Idempotent whitespace, insertion form: at any point where no token is
/// pending and the scan is not inside a string literal, inserting a space
/// changes nothing about the result.
pub proof fn lemma_space_insertion(prefix: Seq<char>, suffix: Seq<char>)
    requires
        match scan_from(init_state(), prefix) {
            Result::Ok(st) => st.pending is None && !in_string_body(st, ' '),
            Result::Err(_) => true,
        },
    ensures
        scan_spec(prefix + seq![' '] + suffix) == scan_spec(prefix + suffix),
{
    lemma_scan_from_concat(init_state(), prefix, seq![' '] + suffix);
    lemma_scan_from_concat(init_state(), prefix, suffix);
    assert(prefix + seq![' '] + suffix =~= prefix + (seq![' '] + suffix));
    match scan_from(init_state(), prefix) {
        Result::Ok(st) => {
            assert((seq![' '] + suffix)[0] == ' ');
            assert(scan_step(st, ' ') == Result::Ok::<ScanState, ScanError>(st));
            assert((seq![' '] + suffix).drop_first() =~= suffix);
        },
        Result::Err(_) => {
        },
    }
}

/// Idempotent whitespace, duplication form: a space that already separates
/// tokens (one not inside a string literal) may be doubled without changing
/// the result.
pub proof fn lemma_space_duplication(prefix: Seq<char>, suffix: Seq<char>)
    requires
        match scan_from(init_state(), prefix) {
            Result::Ok(st) => !in_string_body(st, ' '),
            Result::Err(_) => true,
        },
    ensures
        scan_spec(prefix + seq![' ', ' '] + suffix) == scan_spec(prefix + seq![' '] + suffix),
{
    lemma_scan_preserves_pending_wf(init_state(), prefix);
    lemma_scan_from_concat(init_state(), prefix, seq![' ', ' '] + suffix);
    lemma_scan_from_concat(init_state(), prefix, seq![' '] + suffix);
    assert(prefix + seq![' ', ' '] + suffix =~= prefix + (seq![' ', ' '] + suffix));
    assert(prefix + seq![' '] + suffix =~= prefix + (seq![' '] + suffix));
    match scan_from(init_state(), prefix) {
        Result::Ok(st) => {
            let st1 = ScanState { tokens: flush_pending(st), pending: Option::None };
            assert((seq![' ', ' '] + suffix)[0] == ' ');
            assert((seq![' '] + suffix)[0] == ' ');
            assert(scan_step(st, ' ') == Result::Ok::<ScanState, ScanError>(st1));
            // The second space finds nothing pending and no quote-start
            // behind it (a flushed pending token is never a quote-start
            // marker), so it is a no-op.
            assert(!in_string_body(st1, ' '));
            assert(scan_step(st1, ' ') == Result::Ok::<ScanState, ScanError>(st1));
            assert((seq![' ', ' '] + suffix).drop_first() =~= seq![' '] + suffix);
            assert((seq![' '] + suffix).drop_first() =~= suffix);
            assert(scan_from(st, seq![' ', ' '] + suffix) == scan_from(st1, seq![' '] + suffix));
            assert(scan_from(st1, seq![' '] + suffix) == scan_from(st1, suffix));
            assert(scan_from(st, seq![' '] + suffix) == scan_from(st1, suffix));
        },
        Result::Err(_) => {
        },
    }
}

/// Inside a string literal every character extends the pending literal
/// verbatim, whatever it would otherwise mean.
pub proof fn lemma_string_body_extends(st: ScanState, body: Seq<char>)
    requires
        st.tokens.len() > 0,
        st.tokens.last().ty == TokenType::DoubleQuoteStart,
        st.pending is Some,
        st.pending->Some_0.value is Some,
        forall|i: int| 0 <= i < body.len() ==> body[i] != '"',
    ensures
        scan_from(st, body) == Result::Ok::<ScanState, ScanError>(
            ScanState {
                tokens: st.tokens,
                pending: Option::Some(
                    SpecToken {
                        ty: st.pending->Some_0.ty,
                        value: Option::Some(st.pending->Some_0.value->Some_0 + body),
                    },
                ),
            },
        ),
    decreases body.len(),
{
    let tok = st.pending->Some_0;
    if body.len() == 0 {
        assert(tok.value->Some_0 + body =~= tok.value->Some_0);
        assert(st.pending->Some_0 == SpecToken { ty: tok.ty, value: tok.value });
    } else {
        let c = body[0];
        let st2 = ScanState {
            tokens: st.tokens,
            pending: Option::Some(
                SpecToken { ty: tok.ty, value: Option::Some(tok.value->Some_0.push(c)) },
            ),
        };
        assert(scan_step(st, c) == Result::Ok::<ScanState, ScanError>(st2));
        lemma_string_body_extends(st2, body.drop_first());
        assert(tok.value->Some_0.push(c) + body.drop_first() =~= tok.value->Some_0 + body);
    }
}

/// String opacity: between a quote-start marker and the next `"`, every
/// character — structural symbols, digits and spaces included — is captured
/// verbatim as the payload of a single `StringLiteral` token, followed by a
/// quote-end marker. (The body must be nonempty: two adjacent quotes emit a
/// second quote-start marker and no literal.)
pub proof fn lemma_string_opacity(st: ScanState, body: Seq<char>)
    requires
        st.tokens.len() > 0,
        st.tokens.last().ty == TokenType::DoubleQuoteStart,
        st.pending is None,
        body.len() > 0,
        forall|i: int| 0 <= i < body.len() ==> body[i] != '"',
    ensures
        scan_from(st, body.push('"')) == Result::Ok::<ScanState, ScanError>(
            ScanState {
                tokens: st.tokens.push(
                    SpecToken {
                        ty: TokenType::StringLiteral,
                        value: Option::Some(body),
                    },
                ).push(bare(TokenType::DoubleQuoteEnd)),
                pending: Option::None,
            },
        ),
{
    let c0 = body[0];
    let st1 = ScanState {
        tokens: st.tokens,
        pending: Option::Some(
            SpecToken { ty: TokenType::StringLiteral, value: Option::Some(seq![c0]) },
        ),
    };
    assert(scan_step(st, c0) == Result::Ok::<ScanState, ScanError>(st1));
    lemma_string_body_extends(st1, body.drop_first());
    assert(seq![c0] + body.drop_first() =~= body);
    let st2 = ScanState {
        tokens: st.tokens,
        pending: Option::Some(
            SpecToken { ty: TokenType::StringLiteral, value: Option::Some(body) },
        ),
    };
    assert(scan_from(st, body) == Result::Ok::<ScanState, ScanError>(st2));
    lemma_scan_from_snoc(st, body, '"');
    assert(scan_step(st2, '"') == Result::Ok::<ScanState, ScanError>(
        ScanState {
            tokens: st.tokens.push(
                SpecToken { ty: TokenType::StringLiteral, value: Option::Some(body) },
            ).push(bare(TokenType::DoubleQuoteEnd)),
            pending: Option::None,
        },
    ));
}

/// Keyword precedence: scanning the exact spelling of a reserved word from
/// a state with nothing pending, outside a string literal, emits the
/// keyword token and leaves nothing pending — never an identifier with
/// that text. The keyword is recognized the instant its spelling is
/// complete, so nothing after it can turn it back into an identifier.
pub proof fn lemma_keyword_precedence(st: ScanState, spelling: Seq<char>, ty: TokenType)
    requires
        keyword_kind(spelling) == Option::Some(ty),
        st.pending is None,
        st.tokens.len() == 0 || st.tokens.last().ty != TokenType::DoubleQuoteStart,
    ensures
        scan_from(st, spelling) == Result::Ok::<ScanState, ScanError>(
            ScanState { tokens: st.tokens.push(bare(ty)), pending: Option::None },
        ),
{
    let e = Seq::<char>::empty();
    if spelling == seq!['i', 'f'] {
        let p1 = e.push('i');
        lemma_scan_from_snoc(st, e, 'i');
        lemma_ident_start(st, 'i');
        assert(p1 =~= seq!['i']);
        let st1 = ident_state(st, seq!['i']);
        assert(scan_from(st, p1) == Result::Ok::<ScanState, ScanError>(st1));
        lemma_scan_from_snoc(st, p1, 'f');
        assert(seq!['i'].push('f') =~= seq!['i', 'f']);
        lemma_ident_complete(st1, seq!['i'], 'f', ty);
        assert(spelling =~= p1.push('f'));
    } else if spelling == seq!['i', 'n', 't', 'e', 'r', 'f', 'a', 'c', 'e'] {
        lemma_scan_from_snoc(st, e, 'i');
        lemma_ident_start(st, 'i');
        let p1 = e.push('i');
        assert(p1 =~= seq!['i']);
        let a1 = seq!['i'];
        let st1 = ident_state(st, a1);
        assert(scan_from(st, p1) == Result::Ok::<ScanState, ScanError>(st1));

        let a2 = a1.push('n');
        assert(keyword_kind(a2) is None) by {
            assert(a2 =~= seq!['i', 'n']);
        }
        lemma_scan_from_snoc(st, p1, 'n');
        lemma_ident_extend(st1, a1, 'n');
        let p2 = p1.push('n');
        let st2 = ident_state(st, a2);
        assert(scan_from(st, p2) == Result::Ok::<ScanState, ScanError>(st2));

        let a3 = a2.push('t');
        assert(keyword_kind(a3) is None) by {
            assert(a3 =~= seq!['i', 'n', 't']);
        }
        lemma_scan_from_snoc(st, p2, 't');
        lemma_ident_extend(st2, a2, 't');
        let p3 = p2.push('t');
        let st3 = ident_state(st, a3);
        assert(scan_from(st, p3) == Result::Ok::<ScanState, ScanError>(st3));

        let a4 = a3.push('e');
        assert(keyword_kind(a4) is None) by {
            assert(a4 =~= seq!['i', 'n', 't', 'e']);
        }
        lemma_scan_from_snoc(st, p3, 'e');
        lemma_ident_extend(st3, a3, 'e');
        let p4 = p3.push('e');
        let st4 = ident_state(st, a4);
        assert(scan_from(st, p4) == Result::Ok::<ScanState, ScanError>(st4));

        let a5 = a4.push('r');
        assert(keyword_kind(a5) is None) by {
            assert(a5 =~= seq!['i', 'n', 't', 'e', 'r']);
        }
        lemma_scan_from_snoc(st, p4, 'r');
        lemma_ident_extend(st4, a4, 'r');
        let p5 = p4.push('r');
        let st5 = ident_state(st, a5);
        assert(scan_from(st, p5) == Result::Ok::<ScanState, ScanError>(st5));

        let a6 = a5.push('f');
        assert(keyword_kind(a6) is None) by {
            assert(a6 =~= seq!['i', 'n', 't', 'e', 'r', 'f']);
        }
        lemma_scan_from_snoc(st, p5, 'f');
        lemma_ident_extend(st5, a5, 'f');
        let p6 = p5.push('f');
        let st6 = ident_state(st, a6);
        assert(scan_from(st, p6) == Result::Ok::<ScanState, ScanError>(st6));

        let a7 = a6.push('a');
        assert(keyword_kind(a7) is None) by {
            assert(a7 =~= seq!['i', 'n', 't', 'e', 'r', 'f', 'a']);
        }
        lemma_scan_from_snoc(st, p6, 'a');
        lemma_ident_extend(st6, a6, 'a');
        let p7 = p6.push('a');
        let st7 = ident_state(st, a7);
        assert(scan_from(st, p7) == Result::Ok::<ScanState, ScanError>(st7));

        let a8 = a7.push('c');
        assert(keyword_kind(a8) is None) by {
            assert(a8 =~= seq!['i', 'n', 't', 'e', 'r', 'f', 'a', 'c']);
        }
        lemma_scan_from_snoc(st, p7, 'c');
        lemma_ident_extend(st7, a7, 'c');
        let p8 = p7.push('c');
        let st8 = ident_state(st, a8);
        assert(scan_from(st, p8) == Result::Ok::<ScanState, ScanError>(st8));

        assert(a8.push('e') =~= seq!['i', 'n', 't', 'e', 'r', 'f', 'a', 'c', 'e']);
        lemma_scan_from_snoc(st, p8, 'e');
        lemma_ident_complete(st8, a8, 'e', ty);
        assert(spelling =~= p8.push('e'));
    } else if spelling == seq!['s', 't', 'r', 'u', 'c', 't'] {
        lemma_scan_from_snoc(st, e, 's');
        lemma_ident_start(st, 's');
        let p1 = e.push('s');
        assert(p1 =~= seq!['s']);
        let a1 = seq!['s'];
        let st1 = ident_state(st, a1);
        assert(scan_from(st, p1) == Result::Ok::<ScanState, ScanError>(st1));

        let a2 = a1.push('t');
        assert(keyword_kind(a2) is None) by {
            assert(a2 =~= seq!['s', 't']);
        }
        lemma_scan_from_snoc(st, p1, 't');
        lemma_ident_extend(st1, a1, 't');
        let p2 = p1.push('t');
        let st2 = ident_state(st, a2);
        assert(scan_from(st, p2) == Result::Ok::<ScanState, ScanError>(st2));

        let a3 = a2.push('r');
        assert(keyword_kind(a3) is None) by {
            assert(a3 =~= seq!['s', 't', 'r']);
        }
        lemma_scan_from_snoc(st, p2, 'r');
        lemma_ident_extend(st2, a2, 'r');
        let p3 = p2.push('r');
        let st3 = ident_state(st, a3);
        assert(scan_from(st, p3) == Result::Ok::<ScanState, ScanError>(st3));

        let a4 = a3.push('u');
        assert(keyword_kind(a4) is None) by {
            assert(a4 =~= seq!['s', 't', 'r', 'u']);
        }
        lemma_scan_from_snoc(st, p3, 'u');
        lemma_ident_extend(st3, a3, 'u');
        let p4 = p3.push('u');
        let st4 = ident_state(st, a4);
        assert(scan_from(st, p4) == Result::Ok::<ScanState, ScanError>(st4));

        let a5 = a4.push('c');
        assert(keyword_kind(a5) is None) by {
            assert(a5 =~= seq!['s', 't', 'r', 'u', 'c']);
        }
        lemma_scan_from_snoc(st, p4, 'c');
        lemma_ident_extend(st4, a4, 'c');
        let p5 = p4.push('c');
        let st5 = ident_state(st, a5);
        assert(scan_from(st, p5) == Result::Ok::<ScanState, ScanError>(st5));

        assert(a5.push('t') =~= seq!['s', 't', 'r', 'u', 'c', 't']);
        lemma_scan_from_snoc(st, p5, 't');
        lemma_ident_complete(st5, a5, 't', ty);
        assert(spelling =~= p5.push('t'));
    } else {
        assert(spelling == seq!['f', 'o', 'r']);
        lemma_scan_from_snoc(st, e, 'f');
        lemma_ident_start(st, 'f');
        let p1 = e.push('f');
        assert(p1 =~= seq!['f']);
        let a1 = seq!['f'];
        let st1 = ident_state(st, a1);
        assert(scan_from(st, p1) == Result::Ok::<ScanState, ScanError>(st1));

        let a2 = a1.push('o');
        assert(keyword_kind(a2) is None) by {
            assert(a2 =~= seq!['f', 'o']);
        }
        lemma_scan_from_snoc(st, p1, 'o');
        lemma_ident_extend(st1, a1, 'o');
        let p2 = p1.push('o');
        let st2 = ident_state(st, a2);
        assert(scan_from(st, p2) == Result::Ok::<ScanState, ScanError>(st2));

        assert(a2.push('r') =~= seq!['f', 'o', 'r']);
        lemma_scan_from_snoc(st, p2, 'r');
        lemma_ident_complete(st2, a2, 'r', ty);
        assert(spelling =~= p2.push('r'));
    }
}

/// The state `st` with an identifier holding `acc` pending.
spec fn ident_state(st: ScanState, acc: Seq<char>) -> ScanState {
    ScanState {
        tokens: st.tokens,
        pending: Option::Some(SpecToken { ty: TokenType::Ident, value: Option::Some(acc) }),
    }
}

/// A letter met with nothing pending, outside a string literal, starts an
/// identifier.
proof fn lemma_ident_start(st: ScanState, c: char)
    requires
        st.tokens.len() == 0 || st.tokens.last().ty != TokenType::DoubleQuoteStart,
        st.pending is None,
        is_letter(c),
    ensures
        scan_step(st, c) == Result::Ok::<ScanState, ScanError>(
            ScanState {
                tokens: st.tokens,
                pending: Option::Some(
                    SpecToken { ty: TokenType::Ident, value: Option::Some(seq![c]) },
                ),
            },
        ),
{
}

/// A letter extends a pending identifier whose text has not just completed
/// a reserved word.
proof fn lemma_ident_extend(st: ScanState, acc: Seq<char>, c: char)
    requires
        st.tokens.len() == 0 || st.tokens.last().ty != TokenType::DoubleQuoteStart,
        st.pending == Option::Some(
            SpecToken { ty: TokenType::Ident, value: Option::Some(acc) },
        ),
        is_letter(c),
        keyword_kind(acc.push(c)) is None,
    ensures
        scan_step(st, c) == Result::Ok::<ScanState, ScanError>(
            ScanState {
                tokens: st.tokens,
                pending: Option::Some(
                    SpecToken { ty: TokenType::Ident, value: Option::Some(acc.push(c)) },
                ),
            },
        ),
{
}

/// The letter that completes a reserved word discards the pending
/// identifier and emits the keyword token on the spot.
proof fn lemma_ident_complete(st: ScanState, acc: Seq<char>, c: char, ty: TokenType)
    requires
        st.tokens.len() == 0 || st.tokens.last().ty != TokenType::DoubleQuoteStart,
        st.pending == Option::Some(
            SpecToken { ty: TokenType::Ident, value: Option::Some(acc) },
        ),
        is_letter(c),
        keyword_kind(acc.push(c)) == Option::Some(ty),
    ensures
        scan_step(st, c) == Result::Ok::<ScanState, ScanError>(
            ScanState { tokens: st.tokens.push(bare(ty)), pending: Option::None },
        ),
{
}

} // verus!
