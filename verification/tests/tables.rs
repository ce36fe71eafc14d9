use helios::parser::{infix_binding_power, prefix_binding_power};
use helios::source::{Cursor, Position, TextSpan, EOF_CHAR};
use helios::syntax::{keyword_list, symbol_from_char, symbol_from_chars, SyntaxKind};
use helios::token::Symbol;

#[test]
fn test_symbol_from_char() {
    assert_eq!(symbol_from_char('&'), SyntaxKind::Sym_Ampersand);
    assert_eq!(symbol_from_char('*'), SyntaxKind::Sym_Asterisk);
    assert_eq!(symbol_from_char('@'), SyntaxKind::Sym_At);
    assert_eq!(symbol_from_char('\\'), SyntaxKind::Sym_BackSlash);
    assert_eq!(symbol_from_char('!'), SyntaxKind::Sym_Bang);
    assert_eq!(symbol_from_char('^'), SyntaxKind::Sym_Caret);
    assert_eq!(symbol_from_char(':'), SyntaxKind::Sym_Colon);
    assert_eq!(symbol_from_char(','), SyntaxKind::Sym_Comma);
    assert_eq!(symbol_from_char('$'), SyntaxKind::Sym_Dollar);
    assert_eq!(symbol_from_char('.'), SyntaxKind::Sym_Dot);
    assert_eq!(symbol_from_char('\u{2014}'), SyntaxKind::Sym_EmDash);
    assert_eq!(symbol_from_char('\u{2013}'), SyntaxKind::Sym_EnDash);
    assert_eq!(symbol_from_char('='), SyntaxKind::Sym_Eq);
    assert_eq!(symbol_from_char('/'), SyntaxKind::Sym_ForwardSlash);
    assert_eq!(symbol_from_char('-'), SyntaxKind::Sym_Minus);
    assert_eq!(symbol_from_char('%'), SyntaxKind::Sym_Percent);
    assert_eq!(symbol_from_char('|'), SyntaxKind::Sym_Pipe);
    assert_eq!(symbol_from_char('+'), SyntaxKind::Sym_Plus);
    assert_eq!(symbol_from_char('#'), SyntaxKind::Sym_Pound);
    assert_eq!(symbol_from_char('?'), SyntaxKind::Sym_Question);
    assert_eq!(symbol_from_char(';'), SyntaxKind::Sym_Semicolon);
    assert_eq!(symbol_from_char('\u{a3}'), SyntaxKind::Sym_Sterling);
    assert_eq!(symbol_from_char('~'), SyntaxKind::Sym_Tilde);
    assert_eq!(symbol_from_char('<'), SyntaxKind::Sym_Lt);
    assert_eq!(symbol_from_char('>'), SyntaxKind::Sym_Gt);
    assert_eq!(symbol_from_char('{'), SyntaxKind::Sym_LBrace);
    assert_eq!(symbol_from_char('}'), SyntaxKind::Sym_RBrace);
    assert_eq!(symbol_from_char('['), SyntaxKind::Sym_LBracket);
    assert_eq!(symbol_from_char(']'), SyntaxKind::Sym_RBracket);
    assert_eq!(symbol_from_char('('), SyntaxKind::Sym_LParen);
    assert_eq!(symbol_from_char(')'), SyntaxKind::Sym_RParen);
}

#[test]
fn test_symbol_from_two_chars() {
    assert_eq!(symbol_from_chars(&['!', '=']), Some(SyntaxKind::Sym_BangEq));
    assert_eq!(symbol_from_chars(&['<', '=']), Some(SyntaxKind::Sym_LtEq));
    assert_eq!(symbol_from_chars(&['>', '=']), Some(SyntaxKind::Sym_GtEq));
    assert_eq!(symbol_from_chars(&['<', '-']), Some(SyntaxKind::Sym_LThinArrow));
    assert_eq!(symbol_from_chars(&['-', '>']), Some(SyntaxKind::Sym_RThinArrow));
    assert_eq!(symbol_from_chars(&['=', '>']), Some(SyntaxKind::Sym_ThickArrow));
    assert_eq!(symbol_from_chars(&['=', '=']), None);
    assert_eq!(symbol_from_chars(&['<']), None);
    assert_eq!(symbol_from_chars(&[]), None);
}

#[test]
fn test_symbol_enum_from_char() {
    assert_eq!(Symbol::from_char('&'), Symbol::Ampersand);
    assert_eq!(Symbol::from_char('*'), Symbol::Asterisk);
    assert_eq!(Symbol::from_char('='), Symbol::Eq);
    assert_eq!(Symbol::from_char(';'), Symbol::Semicolon);
    assert_eq!(Symbol::from_char('('), Symbol::LParen);
    assert_eq!(Symbol::from_char(')'), Symbol::RParen);
    assert_eq!(Symbol::from_char('\u{a3}'), Symbol::Sterling);
}

#[test]
fn test_symbol_enum_from_char_with_equal() {
    assert_eq!(Symbol::from_char_with_equal('!'), Symbol::BangEq);
    assert_eq!(Symbol::from_char_with_equal('<'), Symbol::LtEq);
    assert_eq!(Symbol::from_char_with_equal('>'), Symbol::GtEq);
}

#[test]
fn test_keyword_list_contents() {
    let keywords = keyword_list();
    assert_eq!(keywords.len(), 26);
    assert_eq!(keywords[0].as_str(), "alias");
    assert_eq!(keywords[12].as_str(), "let");
    assert_eq!(keywords[25].as_str(), "with");
    let mut sorted = keywords.clone();
    sorted.sort();
    assert_eq!(keywords, sorted);
}

#[test]
fn test_prefix_binding_power_table() {
    assert_eq!(prefix_binding_power(Symbol::Minus), Some(9));
    assert_eq!(prefix_binding_power(Symbol::Bang), Some(9));
    assert_eq!(prefix_binding_power(Symbol::Plus), None);
    assert_eq!(prefix_binding_power(Symbol::Eq), None);
}

#[test]
fn test_infix_binding_power_table() {
    assert_eq!(infix_binding_power(Symbol::Semicolon), Some((1, 2)));
    assert_eq!(infix_binding_power(Symbol::LThinArrow), Some((3, 2)));
    assert_eq!(infix_binding_power(Symbol::Eq), Some((4, 3)));
    assert_eq!(infix_binding_power(Symbol::BangEq), Some((4, 3)));
    assert_eq!(infix_binding_power(Symbol::Lt), Some((5, 6)));
    assert_eq!(infix_binding_power(Symbol::Gt), Some((5, 6)));
    assert_eq!(infix_binding_power(Symbol::LtEq), Some((5, 6)));
    assert_eq!(infix_binding_power(Symbol::GtEq), Some((5, 6)));
    assert_eq!(infix_binding_power(Symbol::Plus), Some((7, 8)));
    assert_eq!(infix_binding_power(Symbol::Minus), Some((7, 8)));
    assert_eq!(infix_binding_power(Symbol::Asterisk), Some((9, 10)));
    assert_eq!(infix_binding_power(Symbol::ForwardSlash), Some((9, 10)));
    assert_eq!(infix_binding_power(Symbol::Tilde), None);
    assert_eq!(infix_binding_power(Symbol::Comma), None);
}

#[test]
fn test_position_advance() {
    let mut pos = Position::new(0, 0);
    pos.advance();
    pos.advance();
    assert_eq!(pos, Position::new(0, 2));
    pos.advance_line();
    assert_eq!(pos, Position::new(1, 0));
}

#[test]
fn test_cursor_walks_lines() {
    let chars: Vec<char> = "ab\nc".chars().collect();
    let mut cursor = Cursor::with(chars);
    assert_eq!(cursor.source_len(), 4);
    assert_eq!(cursor.nth(0), 'a');
    assert_eq!(cursor.nth(2), '\n');
    assert_eq!(cursor.nth(9), EOF_CHAR);
    assert_eq!(cursor.advance(), Some('a'));
    assert_eq!(cursor.pos, Position::new(0, 1));
    assert_eq!(cursor.advance(), Some('b'));
    assert_eq!(cursor.advance(), Some('\n'));
    assert_eq!(cursor.pos, Position::new(1, 0));
    assert_eq!(cursor.advance(), Some('c'));
    assert_eq!(cursor.pos, Position::new(1, 1));
    assert_eq!(cursor.advance(), None);
    assert_eq!(cursor.source_len(), 0);
}

#[test]
fn test_text_span() {
    let span = TextSpan::new(3, 8);
    assert_eq!(span.len(), 5);
    let zero = TextSpan::zero_width(4);
    assert_eq!(zero.start, 4);
    assert_eq!(zero.end, 4);
    assert_eq!(zero.len(), 0);
    assert_eq!(TextSpan::default(), TextSpan::new(0, 0));
}
