//! The lexical vocabulary: reserved words, numeric bases, symbols and
//! whitespace categories.

use vstd::prelude::*;

verus! {

/// A reserved identifier.
#[derive(Clone, Copy, Debug, PartialEq, Eq, Structural, Hash)]
pub enum Keyword {
    And,
    Def,
    Do,
    Else,
    False,
    If,
    Let,
    Match,
    Not,
    Or,
    Then,
    True,
    Type,
    Unimplemented,
    Using,
    With,
}

/// The base system used by a number literal's encoding.
#[derive(Clone, Copy, Debug, PartialEq, Eq, Structural, Hash)]
pub enum NumericBase {
    /// Radix 2; literals start with `0b`.
    Binary,
    /// Radix 8; literals start with `0o`.
    Octal,
    /// Radix 16; literals start with `0x`.
    Hexadecimal,
    /// Radix 10; the default base.
    Decimal,
}

/// A character or delimiter with significant meaning for the structure of the
/// code.
#[derive(Clone, Copy, Debug, PartialEq, Eq, Structural, Hash)]
pub enum Symbol {
    /// The `&` token.
    Ampersand,
    /// The `*` token.
    Asterisk,
    /// The `@` token.
    At,
    /// The `!` token.
    Bang,
    /// The `!=` token.
    BangEq,
    /// The `^` token.
    Caret,
    /// The `:` token.
    Colon,
    /// The `,` token.
    Comma,
    /// The `$` token.
    Dollar,
    /// The `.` token.
    Dot,
    /// The en dash token.
    EnDash,
    /// The em dash token.
    EmDash,
    /// The `=` token.
    Eq,
    /// The `-` token.
    Minus,
    /// The `%` token.
    Percent,
    /// The `+` token.
    Plus,
    /// The `#` token.
    Pound,
    /// The `?` token.
    Question,
    /// The `;` token.
    Semicolon,
    /// The pound sterling token.
    Sterling,
    /// The `~` token.
    Tilde,
    /// The `|` token.
    Vertical,
    /// The `/` token.
    ForwardSlash,
    /// The `\` token.
    BackSlash,
    /// The `<` token.
    Lt,
    /// The `<=` token.
    LtEq,
    /// The `>` token.
    Gt,
    /// The `>=` token.
    GtEq,
    /// The `<-` token.
    LThinArrow,
    /// The `->` token.
    RThinArrow,
    /// The `=>` token.
    ThickArrow,
    /// The `{` token.
    LBrace,
    /// The `}` token.
    RBrace,
    /// The `[` token.
    LBracket,
    /// The `]` token.
    RBracket,
    /// The `(` token.
    LParen,
    /// The `)` token.
    RParen,
}

/// The symbol a single character stands for, if any.
pub open spec fn symbol_of_char(c: char) -> Option<Symbol> {
    match c {
        '&' => Some(Symbol::Ampersand),
        '*' => Some(Symbol::Asterisk),
        '@' => Some(Symbol::At),
        '!' => Some(Symbol::Bang),
        '^' => Some(Symbol::Caret),
        ':' => Some(Symbol::Colon),
        ',' => Some(Symbol::Comma),
        '$' => Some(Symbol::Dollar),
        '.' => Some(Symbol::Dot),
        '\u{2013}' => Some(Symbol::EnDash),
        '\u{2014}' => Some(Symbol::EmDash),
        '=' => Some(Symbol::Eq),
        '-' => Some(Symbol::Minus),
        '%' => Some(Symbol::Percent),
        '+' => Some(Symbol::Plus),
        '#' => Some(Symbol::Pound),
        '?' => Some(Symbol::Question),
        ';' => Some(Symbol::Semicolon),
        '\u{a3}' => Some(Symbol::Sterling),
        '~' => Some(Symbol::Tilde),
        '|' => Some(Symbol::Vertical),
        '/' => Some(Symbol::ForwardSlash),
        '\\' => Some(Symbol::BackSlash),
        '<' => Some(Symbol::Lt),
        '>' => Some(Symbol::Gt),
        '{' => Some(Symbol::LBrace),
        '}' => Some(Symbol::RBrace),
        '[' => Some(Symbol::LBracket),
        ']' => Some(Symbol::RBracket),
        '(' => Some(Symbol::LParen),
        ')' => Some(Symbol::RParen),
        _ => None,
    }
}

/// The two-character symbol `c=` stands for, if any.
pub open spec fn symbol_of_char_with_equal(c: char) -> Option<Symbol> {
    match c {
        '!' => Some(Symbol::BangEq),
        '<' => Some(Symbol::LtEq),
        '>' => Some(Symbol::GtEq),
        _ => None,
    }
}

impl Symbol {
    /// The symbol a single character stands for.  Callers may only hand in a
    /// character that stands for one.
    pub fn from_char(c: char) -> (s: Self)
        requires
            symbol_of_char(c) is Some,
        ensures
            Some(s) == symbol_of_char(c),
    {
        match c {
            '&' => Symbol::Ampersand,
            '*' => Symbol::Asterisk,
            '@' => Symbol::At,
            '!' => Symbol::Bang,
            '^' => Symbol::Caret,
            ':' => Symbol::Colon,
            ',' => Symbol::Comma,
            '$' => Symbol::Dollar,
            '.' => Symbol::Dot,
            '\u{2013}' => Symbol::EnDash,
            '\u{2014}' => Symbol::EmDash,
            '=' => Symbol::Eq,
            '-' => Symbol::Minus,
            '%' => Symbol::Percent,
            '+' => Symbol::Plus,
            '#' => Symbol::Pound,
            '?' => Symbol::Question,
            ';' => Symbol::Semicolon,
            '\u{a3}' => Symbol::Sterling,
            '~' => Symbol::Tilde,
            '|' => Symbol::Vertical,
            '/' => Symbol::ForwardSlash,
            '\\' => Symbol::BackSlash,
            '<' => Symbol::Lt,
            '>' => Symbol::Gt,
            '{' => Symbol::LBrace,
            '}' => Symbol::RBrace,
            '[' => Symbol::LBracket,
            ']' => Symbol::RBracket,
            '(' => Symbol::LParen,
            ')' => Symbol::RParen,
            _ => {
                proof {
                    assert(false);
                }
                Symbol::Ampersand
            },
        }
    }

    /// The compound symbol `c=` stands for.  Callers may only hand in one of
    /// the characters that form such a compound.
    pub fn from_char_with_equal(c: char) -> (s: Self)
        requires
            symbol_of_char_with_equal(c) is Some,
        ensures
            Some(s) == symbol_of_char_with_equal(c),
    {
        match c {
            '!' => Symbol::BangEq,
            '<' => Symbol::LtEq,
            '>' => Symbol::GtEq,
            _ => {
                proof {
                    assert(false);
                }
                Symbol::BangEq
            },
        }
    }
}

/// A category of horizontal whitespace.
#[derive(Clone, Copy, Debug, PartialEq, Eq, Structural, Hash)]
pub enum WhitespaceKind {
    Space,
    Tab,
}

} // verus!
