use tokenizer::scan::tokenize;
use tokenizer::token::ScanError;
use tokenizer::token::Token;
use tokenizer::token::TokenType;

fn eq_vecs<T: Eq>(v1: Vec<T>, v2: Vec<T>) -> bool {
    if v1.len() != v2.len() {
        return false;
    }
    for i in 0..v1.len() {
        if v1[i] != v2[i] {
            return false;
        }
    }
    return true;
}

#[test]
fn number_token() {
    let tokens = tokenize("123");
    assert!(tokens.is_ok());
    let tokens = tokens.unwrap();
    assert!(eq_vecs(
        tokens,
        vec![Token {
            ty: TokenType::Number,
            value: Some(String::from("123")),
        }]
    ));
}

#[test]
fn test_assign_struct() {
    let tokens = tokenize("x = struct{};");
    assert!(tokens.is_ok());
    let tokens = tokens.unwrap();
    assert!(eq_vecs(
        tokens,
        vec![
            Token {
                ty: TokenType::Ident,
                value: Some(String::from("x")),
            },
            Token {
                ty: TokenType::AssignOp,
                value: None,
            },
            Token {
                ty: TokenType::StructKeyword,
                value: None,
            },
            Token {
                ty: TokenType::CuBracketOpen,
                value: None,
            },
            Token {
                ty: TokenType::CuBracketClose,
                value: None,
            },
            Token {
                ty: TokenType::SemiColon,
                value: None,
            },
        ]
    ));
}

#[test]
fn test_assign_interface() {
    let tokens = tokenize("x = interface{};");
    assert!(tokens.is_ok());
    let tokens = tokens.unwrap();
    assert!(eq_vecs(
        tokens,
        vec![
            Token {
                ty: TokenType::Ident,
                value: Some(String::from("x")),
            },
            Token {
                ty: TokenType::AssignOp,
                value: None,
            },
            Token {
                ty: TokenType::InterfaceKeyword,
                value: None,
            },
            Token {
                ty: TokenType::CuBracketOpen,
                value: None,
            },
            Token {
                ty: TokenType::CuBracketClose,
                value: None,
            },
            Token {
                ty: TokenType::SemiColon,
                value: None,
            },
        ]
    ));
}

#[test]
fn string_token() {
    let tokens = tokenize("\" Hel lo \"");
    assert!(tokens.is_ok());
    let tokens = tokens.unwrap();
    assert!(eq_vecs(
        tokens,
        vec![
            Token {
                ty: TokenType::DoubleQuoteStart,
                value: None,
            },
            Token {
                ty: TokenType::StringLiteral,
                value: Some(String::from(" Hel lo ")),
            },
            Token {
                ty: TokenType::DoubleQuoteEnd,
                value: None,
            },
        ]
    ));
}

#[test]
fn test_assign_number_mixed_with_sq_brackets() {
    let tokens = tokenize("x  =   123[12, \"Hello\"];");
    assert!(tokens.is_ok());
    let tokens = tokens.unwrap();
    assert!(eq_vecs(
        tokens,
        vec![
            Token {
                ty: TokenType::Ident,
                value: Some(String::from("x")),
            },
            Token {
                ty: TokenType::AssignOp,
                value: None,
            },
            Token {
                ty: TokenType::Number,
                value: Some(String::from("123")),
            },
            Token {
                ty: TokenType::SqBracketOpen,
                value: None,
            },
            Token {
                ty: TokenType::Number,
                value: Some(String::from("12")),
            },
            Token {
                ty: TokenType::Comma,
                value: None,
            },
            Token {
                ty: TokenType::DoubleQuoteStart,
                value: None,
            },
            Token {
                ty: TokenType::StringLiteral,
                value: Some(String::from("Hello")),
            },
            Token {
                ty: TokenType::DoubleQuoteEnd,
                value: None,
            },
            Token {
                ty: TokenType::SqBracketClose,
                value: None,
            },
            Token {
                ty: TokenType::SemiColon,
                value: None,
            },
        ]
    ));
}

#[test]
fn test_assign_string() {
    let tokens = tokenize("x  =   \"Hello\";");
    assert!(tokens.is_ok());
    let tokens = tokens.unwrap();
    assert!(eq_vecs(
        tokens,
        vec![
            Token {
                ty: TokenType::Ident,
                value: Some(String::from("x")),
            },
            Token {
                ty: TokenType::AssignOp,
                value: None,
            },
            Token {
                ty: TokenType::DoubleQuoteStart,
                value: None,
            },
            Token {
                ty: TokenType::StringLiteral,
                value: Some(String::from("Hello")),
            },
            Token {
                ty: TokenType::DoubleQuoteEnd,
                value: None,
            },
            Token {
                ty: TokenType::SemiColon,
                value: None,
            },
        ]
    ));
}

#[test]
fn test_slices() {
    let tokens = tokenize("x  =   [12, \"Hello\"];");
    assert!(tokens.is_ok());
    let tokens = tokens.unwrap();
    assert!(eq_vecs(
        tokens,
        vec![
            Token {
                ty: TokenType::Ident,
                value: Some(String::from("x")),
            },
            Token {
                ty: TokenType::AssignOp,
                value: None,
            },
            Token {
                ty: TokenType::SqBracketOpen,
                value: None,
            },
            Token {
                ty: TokenType::Number,
                value: Some(String::from("12")),
            },
            Token {
                ty: TokenType::Comma,
                value: None,
            },
            Token {
                ty: TokenType::DoubleQuoteStart,
                value: None,
            },
            Token {
                ty: TokenType::StringLiteral,
                value: Some(String::from("Hello")),
            },
            Token {
                ty: TokenType::DoubleQuoteEnd,
                value: None,
            },
            Token {
                ty: TokenType::SqBracketClose,
                value: None,
            },
            Token {
                ty: TokenType::SemiColon,
                value: None,
            },
        ]
    ));
}

#[test]
fn simple_assignment() {
    let tokens = tokenize("x = 2;").unwrap();
    assert!(eq_vecs(
        tokens,
        vec![
            Token {
                ty: TokenType::Ident,
                value: Some(String::from("x")),
            },
            Token {
                ty: TokenType::AssignOp,
                value: None,
            },
            Token {
                ty: TokenType::Number,
                value: Some(String::from("2")),
            },
            Token {
                ty: TokenType::SemiColon,
                value: None,
            },
        ]
    ));
}

#[test]
fn empty_input() {
    let tokens = tokenize("").unwrap();
    assert!(tokens.is_empty());
}

#[test]
fn extra_spaces_do_not_change_tokens() {
    let narrow = tokenize("x = 123;").unwrap();
    let wide = tokenize("x   =     123  ;").unwrap();
    assert!(eq_vecs(narrow, wide));
}

#[test]
fn keyword_if_followed_by_boundary() {
    let tokens = tokenize("if;").unwrap();
    assert!(eq_vecs(
        tokens,
        vec![
            Token {
                ty: TokenType::IfKeyword,
                value: None,
            },
            Token {
                ty: TokenType::SemiColon,
                value: None,
            },
        ]
    ));
}

#[test]
fn keyword_for_followed_by_boundary() {
    let tokens = tokenize("for ").unwrap();
    assert!(eq_vecs(
        tokens,
        vec![Token {
            ty: TokenType::ForKeyword,
            value: None,
        }]
    ));
}

#[test]
fn keyword_recognized_as_soon_as_spelled() {
    // Letters after a completed keyword start a fresh identifier.
    let tokens = tokenize("ifx").unwrap();
    assert!(eq_vecs(
        tokens,
        vec![
            Token {
                ty: TokenType::IfKeyword,
                value: None,
            },
            Token {
                ty: TokenType::Ident,
                value: Some(String::from("x")),
            },
        ]
    ));
}

#[test]
fn string_captures_structural_characters() {
    let tokens = tokenize("\"{;12 ,}\"").unwrap();
    assert!(eq_vecs(
        tokens,
        vec![
            Token {
                ty: TokenType::DoubleQuoteStart,
                value: None,
            },
            Token {
                ty: TokenType::StringLiteral,
                value: Some(String::from("{;12 ,}")),
            },
            Token {
                ty: TokenType::DoubleQuoteEnd,
                value: None,
            },
        ]
    ));
}

#[test]
fn quote_after_pending_number_fails() {
    let res = tokenize("12\"");
    assert!(res.is_err());
    assert_eq!(res.unwrap_err(), ScanError::QuoteWhileOtherTokenPending);
}

#[test]
fn quote_after_completed_keyword_is_quote_start() {
    // The keyword is recognized and cleared the instant it is spelled,
    // so the quote meets nothing pending and opens a string.
    let tokens = tokenize("if\"").unwrap();
    assert!(eq_vecs(
        tokens,
        vec![
            Token {
                ty: TokenType::IfKeyword,
                value: None,
            },
            Token {
                ty: TokenType::DoubleQuoteStart,
                value: None,
            },
        ]
    ));
}

#[test]
fn trailing_identifier_is_flushed() {
    let tokens = tokenize("abc").unwrap();
    assert!(eq_vecs(
        tokens,
        vec![Token {
            ty: TokenType::Ident,
            value: Some(String::from("abc")),
        }]
    ));
}

#[test]
fn unrecognized_character_is_skipped() {
    // '!' is neither letter, digit, space, symbol nor quote while a number
    // is pending: it is silently skipped and does not flush the number.
    let tokens = tokenize("1!2").unwrap();
    assert!(eq_vecs(
        tokens,
        vec![Token {
            ty: TokenType::Number,
            value: Some(String::from("12")),
        }]
    ));
}
