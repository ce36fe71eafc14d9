//! Syntax kinds: one flat tag space for tokens and tree nodes, plus the
//! character tables that classify symbols and keywords.

use crate::token::Symbol;
use vstd::prelude::*;

verus! {

/// The tag of a token or of a tree node.
///
/// `Kwd_` tags are reserved words, `Sym_` tags punctuation, `Lit_` tags
/// literal tokens, `Exp_` and `Dec_` tags expression and declaration nodes.
/// `Missing` tags a zero-width token synthesized where a required token was
/// absent, and `Root` tags the single node that spans the whole input.
#[allow(non_camel_case_types)]
#[derive(Clone, Copy, Debug, PartialEq, Eq, Structural, Hash)]
pub enum SyntaxKind {
    Kwd_Alias,
    Kwd_And,
    Kwd_As,
    Kwd_Else,
    Kwd_Extend,
    Kwd_External,
    Kwd_For,
    Kwd_Function,
    Kwd_If,
    Kwd_Import,
    Kwd_In,
    Kwd_Interface,
    Kwd_Let,
    Kwd_Match,
    Kwd_Module,
    Kwd_Not,
    Kwd_Of,
    Kwd_Or,
    Kwd_Public,
    Kwd_Ref,
    Kwd_Return,
    Kwd_Type,
    Kwd_Unimplemented,
    Kwd_Var,
    Kwd_Where,
    Kwd_While,
    Kwd_With,
    Sym_Ampersand,
    Sym_Asterisk,
    Sym_At,
    Sym_BackSlash,
    Sym_Bang,
    Sym_BangEq,
    Sym_Caret,
    Sym_Colon,
    Sym_Comma,
    Sym_Dollar,
    Sym_Dot,
    Sym_EmDash,
    Sym_EnDash,
    Sym_Eq,
    Sym_ForwardSlash,
    Sym_Minus,
    Sym_Percent,
    Sym_Pipe,
    Sym_Plus,
    Sym_Pound,
    Sym_Question,
    Sym_Semicolon,
    Sym_Sterling,
    Sym_Tilde,
    Sym_Lt,
    Sym_LtEq,
    Sym_Gt,
    Sym_GtEq,
    Sym_LThinArrow,
    Sym_RThinArrow,
    Sym_ThickArrow,
    Sym_LBrace,
    Sym_RBrace,
    Sym_LBracket,
    Sym_RBracket,
    Sym_LParen,
    Sym_RParen,
    Lit_Character,
    Lit_Float,
    Lit_Integer,
    Lit_String,
    Exp_Binary,
    Exp_Literal,
    Exp_Missing,
    Exp_Paren,
    Exp_UnaryPrefix,
    Exp_UnaryPostfix,
    Exp_Unexpected,
    Exp_Unimplemented,
    Exp_VariableRef,
    Dec_GlobalBinding,
    LineComment,
    LineDocComment,
    Whitespace,
    Identifier,
    Error,
    Missing,
    Root, // this should be last
}

/// Trivia is lexical content that the tree keeps for losslessness but that
/// the grammar ignores: whitespace and comments.
pub open spec fn is_trivia_kind(kind: SyntaxKind) -> bool {
    ||| kind == SyntaxKind::Whitespace
    ||| kind == SyntaxKind::LineComment
    ||| kind == SyntaxKind::LineDocComment
}

impl SyntaxKind {
    /// Whether a token of this kind is trivia.
    pub fn is_trivia(&self) -> (r: bool)
        ensures
            r == is_trivia_kind(*self),
    {
        match self {
            SyntaxKind::Whitespace => true,
            SyntaxKind::LineComment => true,
            SyntaxKind::LineDocComment => true,
            _ => false,
        }
    }
}

/// A short human-readable name for each kind, used in diagnostics.
pub open spec fn spec_kind_name(kind: SyntaxKind) -> Seq<char> {
    match kind {
        SyntaxKind::Kwd_Alias => "alias"@,
        SyntaxKind::Kwd_And => "and"@,
        SyntaxKind::Kwd_As => "as"@,
        SyntaxKind::Kwd_Else => "else"@,
        SyntaxKind::Kwd_Extend => "extend"@,
        SyntaxKind::Kwd_External => "external"@,
        SyntaxKind::Kwd_For => "for"@,
        SyntaxKind::Kwd_Function => "function"@,
        SyntaxKind::Kwd_If => "if"@,
        SyntaxKind::Kwd_Import => "import"@,
        SyntaxKind::Kwd_In => "in"@,
        SyntaxKind::Kwd_Interface => "interface"@,
        SyntaxKind::Kwd_Let => "let"@,
        SyntaxKind::Kwd_Match => "match"@,
        SyntaxKind::Kwd_Module => "module"@,
        SyntaxKind::Kwd_Not => "not"@,
        SyntaxKind::Kwd_Of => "of"@,
        SyntaxKind::Kwd_Or => "or"@,
        SyntaxKind::Kwd_Public => "public"@,
        SyntaxKind::Kwd_Ref => "ref"@,
        SyntaxKind::Kwd_Return => "return"@,
        SyntaxKind::Kwd_Type => "type"@,
        SyntaxKind::Kwd_Unimplemented => "unimplemented"@,
        SyntaxKind::Kwd_Var => "var"@,
        SyntaxKind::Kwd_Where => "where"@,
        SyntaxKind::Kwd_While => "while"@,
        SyntaxKind::Kwd_With => "with"@,
        SyntaxKind::Sym_Ampersand => "&"@,
        SyntaxKind::Sym_Asterisk => "*"@,
        SyntaxKind::Sym_At => "@"@,
        SyntaxKind::Sym_BackSlash => "\\"@,
        SyntaxKind::Sym_Bang => "!"@,
        SyntaxKind::Sym_BangEq => "!="@,
        SyntaxKind::Sym_Caret => "^"@,
        SyntaxKind::Sym_Colon => ":"@,
        SyntaxKind::Sym_Comma => ","@,
        SyntaxKind::Sym_Dollar => "$"@,
        SyntaxKind::Sym_Dot => "."@,
        SyntaxKind::Sym_EmDash => "\u{2014}"@,
        SyntaxKind::Sym_EnDash => "\u{2013}"@,
        SyntaxKind::Sym_Eq => "="@,
        SyntaxKind::Sym_ForwardSlash => "/"@,
        SyntaxKind::Sym_Minus => "-"@,
        SyntaxKind::Sym_Percent => "%"@,
        SyntaxKind::Sym_Pipe => "|"@,
        SyntaxKind::Sym_Plus => "+"@,
        SyntaxKind::Sym_Pound => "#"@,
        SyntaxKind::Sym_Question => "?"@,
        SyntaxKind::Sym_Semicolon => ";"@,
        SyntaxKind::Sym_Sterling => "\u{a3}"@,
        SyntaxKind::Sym_Tilde => "~"@,
        SyntaxKind::Sym_Lt => "<"@,
        SyntaxKind::Sym_LtEq => "<="@,
        SyntaxKind::Sym_Gt => ">"@,
        SyntaxKind::Sym_GtEq => ">="@,
        SyntaxKind::Sym_LThinArrow => "<-"@,
        SyntaxKind::Sym_RThinArrow => "->"@,
        SyntaxKind::Sym_ThickArrow => "=>"@,
        SyntaxKind::Sym_LBrace => "{"@,
        SyntaxKind::Sym_RBrace => "}"@,
        SyntaxKind::Sym_LBracket => "["@,
        SyntaxKind::Sym_RBracket => "]"@,
        SyntaxKind::Sym_LParen => "("@,
        SyntaxKind::Sym_RParen => ")"@,
        SyntaxKind::Lit_Character => "character literal"@,
        SyntaxKind::Lit_Float => "float literal"@,
        SyntaxKind::Lit_Integer => "integer literal"@,
        SyntaxKind::Lit_String => "string literal"@,
        SyntaxKind::Exp_Binary => "binary expression"@,
        SyntaxKind::Exp_Literal => "literal expression"@,
        SyntaxKind::Exp_Missing => "missing expression"@,
        SyntaxKind::Exp_Paren => "parenthesized expression"@,
        SyntaxKind::Exp_UnaryPrefix => "unary prefix expression"@,
        SyntaxKind::Exp_UnaryPostfix => "unary postfix expression"@,
        SyntaxKind::Exp_Unexpected => "unexpected token"@,
        SyntaxKind::Exp_Unimplemented => "unimplemented expression"@,
        SyntaxKind::Exp_VariableRef => "variable reference"@,
        SyntaxKind::Dec_GlobalBinding => "global binding"@,
        SyntaxKind::LineComment => "line comment"@,
        SyntaxKind::LineDocComment => "doc comment"@,
        SyntaxKind::Whitespace => "whitespace"@,
        SyntaxKind::Identifier => "identifier"@,
        SyntaxKind::Error => "erroneous token"@,
        SyntaxKind::Missing => "missing token"@,
        SyntaxKind::Root => "root"@,
    }
}

impl SyntaxKind {
    /// A short human-readable name for this kind, used in diagnostics.
    pub fn name(&self) -> (r: &'static str)
        ensures
            r@ == spec_kind_name(*self),
    {
        match self {
            SyntaxKind::Kwd_Alias => "alias",
            SyntaxKind::Kwd_And => "and",
            SyntaxKind::Kwd_As => "as",
            SyntaxKind::Kwd_Else => "else",
            SyntaxKind::Kwd_Extend => "extend",
            SyntaxKind::Kwd_External => "external",
            SyntaxKind::Kwd_For => "for",
            SyntaxKind::Kwd_Function => "function",
            SyntaxKind::Kwd_If => "if",
            SyntaxKind::Kwd_Import => "import",
            SyntaxKind::Kwd_In => "in",
            SyntaxKind::Kwd_Interface => "interface",
            SyntaxKind::Kwd_Let => "let",
            SyntaxKind::Kwd_Match => "match",
            SyntaxKind::Kwd_Module => "module",
            SyntaxKind::Kwd_Not => "not",
            SyntaxKind::Kwd_Of => "of",
            SyntaxKind::Kwd_Or => "or",
            SyntaxKind::Kwd_Public => "public",
            SyntaxKind::Kwd_Ref => "ref",
            SyntaxKind::Kwd_Return => "return",
            SyntaxKind::Kwd_Type => "type",
            SyntaxKind::Kwd_Unimplemented => "unimplemented",
            SyntaxKind::Kwd_Var => "var",
            SyntaxKind::Kwd_Where => "where",
            SyntaxKind::Kwd_While => "while",
            SyntaxKind::Kwd_With => "with",
            SyntaxKind::Sym_Ampersand => "&",
            SyntaxKind::Sym_Asterisk => "*",
            SyntaxKind::Sym_At => "@",
            SyntaxKind::Sym_BackSlash => "\\",
            SyntaxKind::Sym_Bang => "!",
            SyntaxKind::Sym_BangEq => "!=",
            SyntaxKind::Sym_Caret => "^",
            SyntaxKind::Sym_Colon => ":",
            SyntaxKind::Sym_Comma => ",",
            SyntaxKind::Sym_Dollar => "$",
            SyntaxKind::Sym_Dot => ".",
            SyntaxKind::Sym_EmDash => "\u{2014}",
            SyntaxKind::Sym_EnDash => "\u{2013}",
            SyntaxKind::Sym_Eq => "=",
            SyntaxKind::Sym_ForwardSlash => "/",
            SyntaxKind::Sym_Minus => "-",
            SyntaxKind::Sym_Percent => "%",
            SyntaxKind::Sym_Pipe => "|",
            SyntaxKind::Sym_Plus => "+",
            SyntaxKind::Sym_Pound => "#",
            SyntaxKind::Sym_Question => "?",
            SyntaxKind::Sym_Semicolon => ";",
            SyntaxKind::Sym_Sterling => "\u{a3}",
            SyntaxKind::Sym_Tilde => "~",
            SyntaxKind::Sym_Lt => "<",
            SyntaxKind::Sym_LtEq => "<=",
            SyntaxKind::Sym_Gt => ">",
            SyntaxKind::Sym_GtEq => ">=",
            SyntaxKind::Sym_LThinArrow => "<-",
            SyntaxKind::Sym_RThinArrow => "->",
            SyntaxKind::Sym_ThickArrow => "=>",
            SyntaxKind::Sym_LBrace => "{",
            SyntaxKind::Sym_RBrace => "}",
            SyntaxKind::Sym_LBracket => "[",
            SyntaxKind::Sym_RBracket => "]",
            SyntaxKind::Sym_LParen => "(",
            SyntaxKind::Sym_RParen => ")",
            SyntaxKind::Lit_Character => "character literal",
            SyntaxKind::Lit_Float => "float literal",
            SyntaxKind::Lit_Integer => "integer literal",
            SyntaxKind::Lit_String => "string literal",
            SyntaxKind::Exp_Binary => "binary expression",
            SyntaxKind::Exp_Literal => "literal expression",
            SyntaxKind::Exp_Missing => "missing expression",
            SyntaxKind::Exp_Paren => "parenthesized expression",
            SyntaxKind::Exp_UnaryPrefix => "unary prefix expression",
            SyntaxKind::Exp_UnaryPostfix => "unary postfix expression",
            SyntaxKind::Exp_Unexpected => "unexpected token",
            SyntaxKind::Exp_Unimplemented => "unimplemented expression",
            SyntaxKind::Exp_VariableRef => "variable reference",
            SyntaxKind::Dec_GlobalBinding => "global binding",
            SyntaxKind::LineComment => "line comment",
            SyntaxKind::LineDocComment => "doc comment",
            SyntaxKind::Whitespace => "whitespace",
            SyntaxKind::Identifier => "identifier",
            SyntaxKind::Error => "erroneous token",
            SyntaxKind::Missing => "missing token",
            SyntaxKind::Root => "root",
        }
    }
}

/// The reserved words of the language, in alphabetical order.
pub open spec fn spec_keyword_list() -> Seq<Seq<char>> {
    seq![
        "alias"@,
        "and"@,
        "as"@,
        "else"@,
        "extend"@,
        "external"@,
        "for"@,
        "function"@,
        "if"@,
        "import"@,
        "in"@,
        "interface"@,
        "let"@,
        "match"@,
        "module"@,
        "not"@,
        "of"@,
        "or"@,
        "public"@,
        "ref"@,
        "return"@,
        "type"@,
        "var"@,
        "where"@,
        "while"@,
        "with"@,
    ]
}

/// The reserved words of the language, in alphabetical order.
pub fn keyword_list() -> (r: Vec<String>)
    ensures
        r@.len() == spec_keyword_list().len(),
        forall|i: int| 0 <= i < r@.len() ==> r@[i]@ == #[trigger] spec_keyword_list()[i],
{
    let mut r: Vec<String> = Vec::new();
    r.push(String::from_str("alias"));
    r.push(String::from_str("and"));
    r.push(String::from_str("as"));
    r.push(String::from_str("else"));
    r.push(String::from_str("extend"));
    r.push(String::from_str("external"));
    r.push(String::from_str("for"));
    r.push(String::from_str("function"));
    r.push(String::from_str("if"));
    r.push(String::from_str("import"));
    r.push(String::from_str("in"));
    r.push(String::from_str("interface"));
    r.push(String::from_str("let"));
    r.push(String::from_str("match"));
    r.push(String::from_str("module"));
    r.push(String::from_str("not"));
    r.push(String::from_str("of"));
    r.push(String::from_str("or"));
    r.push(String::from_str("public"));
    r.push(String::from_str("ref"));
    r.push(String::from_str("return"));
    r.push(String::from_str("type"));
    r.push(String::from_str("var"));
    r.push(String::from_str("where"));
    r.push(String::from_str("while"));
    r.push(String::from_str("with"));
    r
}

/// The token kind a single symbol character lexes to, if any.
pub open spec fn spec_symbol_from_char(c: char) -> Option<SyntaxKind> {
    match c {
        '&' => Some(SyntaxKind::Sym_Ampersand),
        '*' => Some(SyntaxKind::Sym_Asterisk),
        '@' => Some(SyntaxKind::Sym_At),
        '\\' => Some(SyntaxKind::Sym_BackSlash),
        '!' => Some(SyntaxKind::Sym_Bang),
        '^' => Some(SyntaxKind::Sym_Caret),
        ':' => Some(SyntaxKind::Sym_Colon),
        ',' => Some(SyntaxKind::Sym_Comma),
        '$' => Some(SyntaxKind::Sym_Dollar),
        '.' => Some(SyntaxKind::Sym_Dot),
        '\u{2014}' => Some(SyntaxKind::Sym_EmDash),
        '\u{2013}' => Some(SyntaxKind::Sym_EnDash),
        '=' => Some(SyntaxKind::Sym_Eq),
        '/' => Some(SyntaxKind::Sym_ForwardSlash),
        '-' => Some(SyntaxKind::Sym_Minus),
        '%' => Some(SyntaxKind::Sym_Percent),
        '|' => Some(SyntaxKind::Sym_Pipe),
        '+' => Some(SyntaxKind::Sym_Plus),
        '#' => Some(SyntaxKind::Sym_Pound),
        '?' => Some(SyntaxKind::Sym_Question),
        ';' => Some(SyntaxKind::Sym_Semicolon),
        '\u{a3}' => Some(SyntaxKind::Sym_Sterling),
        '~' => Some(SyntaxKind::Sym_Tilde),
        '<' => Some(SyntaxKind::Sym_Lt),
        '>' => Some(SyntaxKind::Sym_Gt),
        '{' => Some(SyntaxKind::Sym_LBrace),
        '}' => Some(SyntaxKind::Sym_RBrace),
        '[' => Some(SyntaxKind::Sym_LBracket),
        ']' => Some(SyntaxKind::Sym_RBracket),
        '(' => Some(SyntaxKind::Sym_LParen),
        ')' => Some(SyntaxKind::Sym_RParen),
        _ => None,
    }
}

/// The token kind a single symbol character lexes to.  Callers may only hand
/// in a character that stands for a symbol.
pub fn symbol_from_char(c: char) -> (k: SyntaxKind)
    requires
        spec_symbol_from_char(c) is Some,
    ensures
        Some(k) == spec_symbol_from_char(c),
{
    match c {
        '&' => SyntaxKind::Sym_Ampersand,
        '*' => SyntaxKind::Sym_Asterisk,
        '@' => SyntaxKind::Sym_At,
        '\\' => SyntaxKind::Sym_BackSlash,
        '!' => SyntaxKind::Sym_Bang,
        '^' => SyntaxKind::Sym_Caret,
        ':' => SyntaxKind::Sym_Colon,
        ',' => SyntaxKind::Sym_Comma,
        '$' => SyntaxKind::Sym_Dollar,
        '.' => SyntaxKind::Sym_Dot,
        '\u{2014}' => SyntaxKind::Sym_EmDash,
        '\u{2013}' => SyntaxKind::Sym_EnDash,
        '=' => SyntaxKind::Sym_Eq,
        '/' => SyntaxKind::Sym_ForwardSlash,
        '-' => SyntaxKind::Sym_Minus,
        '%' => SyntaxKind::Sym_Percent,
        '|' => SyntaxKind::Sym_Pipe,
        '+' => SyntaxKind::Sym_Plus,
        '#' => SyntaxKind::Sym_Pound,
        '?' => SyntaxKind::Sym_Question,
        ';' => SyntaxKind::Sym_Semicolon,
        '\u{a3}' => SyntaxKind::Sym_Sterling,
        '~' => SyntaxKind::Sym_Tilde,
        '<' => SyntaxKind::Sym_Lt,
        '>' => SyntaxKind::Sym_Gt,
        '{' => SyntaxKind::Sym_LBrace,
        '}' => SyntaxKind::Sym_RBrace,
        '[' => SyntaxKind::Sym_LBracket,
        ']' => SyntaxKind::Sym_RBracket,
        '(' => SyntaxKind::Sym_LParen,
        ')' => SyntaxKind::Sym_RParen,
        _ => {
            proof {
                assert(false);
            }
            SyntaxKind::Error
        },
    }
}

/// The token kind a two-character symbol lexes to, if any.
pub open spec fn spec_symbol_from_chars(chars: Seq<char>) -> Option<SyntaxKind> {
    if chars == seq!['!', '='] {
        Some(SyntaxKind::Sym_BangEq)
    } else if chars == seq!['<', '='] {
        Some(SyntaxKind::Sym_LtEq)
    } else if chars == seq!['>', '='] {
        Some(SyntaxKind::Sym_GtEq)
    } else if chars == seq!['<', '-'] {
        Some(SyntaxKind::Sym_LThinArrow)
    } else if chars == seq!['-', '>'] {
        Some(SyntaxKind::Sym_RThinArrow)
    } else if chars == seq!['=', '>'] {
        Some(SyntaxKind::Sym_ThickArrow)
    } else {
        None
    }
}

/// The token kind a two-character symbol lexes to, or `None` when the
/// characters form no compound symbol.
pub fn symbol_from_chars(chars: &[char]) -> (r: Option<SyntaxKind>)
    ensures
        r == spec_symbol_from_chars(chars@),
{
    if chars.len() == 2 {
        let a = chars[0];
        let b = chars[1];
        proof {
            assert(chars@ =~= seq![chars@[0], chars@[1]]);
        }
        if a == '!' && b == '=' {
            Some(SyntaxKind::Sym_BangEq)
        } else if a == '<' && b == '=' {
            Some(SyntaxKind::Sym_LtEq)
        } else if a == '>' && b == '=' {
            Some(SyntaxKind::Sym_GtEq)
        } else if a == '<' && b == '-' {
            Some(SyntaxKind::Sym_LThinArrow)
        } else if a == '-' && b == '>' {
            Some(SyntaxKind::Sym_RThinArrow)
        } else if a == '=' && b == '>' {
            Some(SyntaxKind::Sym_ThickArrow)
        } else {
            None
        }
    } else {
        proof {
            assert(forall|s: Seq<char>|
                s.len() == 2 ==> #[trigger] s.len() == seq![s[0], s[1]].len());
        }
        None
    }
}

/// The punctuation symbol a token kind stands for, if any; the inverse of the
/// symbol tables above, used to look up binding powers for operators.
pub open spec fn spec_kind_to_symbol(kind: SyntaxKind) -> Option<Symbol> {
    match kind {
        SyntaxKind::Sym_Ampersand => Some(Symbol::Ampersand),
        SyntaxKind::Sym_Asterisk => Some(Symbol::Asterisk),
        SyntaxKind::Sym_At => Some(Symbol::At),
        SyntaxKind::Sym_BackSlash => Some(Symbol::BackSlash),
        SyntaxKind::Sym_Bang => Some(Symbol::Bang),
        SyntaxKind::Sym_BangEq => Some(Symbol::BangEq),
        SyntaxKind::Sym_Caret => Some(Symbol::Caret),
        SyntaxKind::Sym_Colon => Some(Symbol::Colon),
        SyntaxKind::Sym_Comma => Some(Symbol::Comma),
        SyntaxKind::Sym_Dollar => Some(Symbol::Dollar),
        SyntaxKind::Sym_Dot => Some(Symbol::Dot),
        SyntaxKind::Sym_EmDash => Some(Symbol::EmDash),
        SyntaxKind::Sym_EnDash => Some(Symbol::EnDash),
        SyntaxKind::Sym_Eq => Some(Symbol::Eq),
        SyntaxKind::Sym_ForwardSlash => Some(Symbol::ForwardSlash),
        SyntaxKind::Sym_Minus => Some(Symbol::Minus),
        SyntaxKind::Sym_Percent => Some(Symbol::Percent),
        SyntaxKind::Sym_Pipe => Some(Symbol::Vertical),
        SyntaxKind::Sym_Plus => Some(Symbol::Plus),
        SyntaxKind::Sym_Pound => Some(Symbol::Pound),
        SyntaxKind::Sym_Question => Some(Symbol::Question),
        SyntaxKind::Sym_Semicolon => Some(Symbol::Semicolon),
        SyntaxKind::Sym_Sterling => Some(Symbol::Sterling),
        SyntaxKind::Sym_Tilde => Some(Symbol::Tilde),
        SyntaxKind::Sym_Lt => Some(Symbol::Lt),
        SyntaxKind::Sym_LtEq => Some(Symbol::LtEq),
        SyntaxKind::Sym_Gt => Some(Symbol::Gt),
        SyntaxKind::Sym_GtEq => Some(Symbol::GtEq),
        SyntaxKind::Sym_LThinArrow => Some(Symbol::LThinArrow),
        SyntaxKind::Sym_RThinArrow => Some(Symbol::RThinArrow),
        SyntaxKind::Sym_ThickArrow => Some(Symbol::ThickArrow),
        SyntaxKind::Sym_LBrace => Some(Symbol::LBrace),
        SyntaxKind::Sym_RBrace => Some(Symbol::RBrace),
        SyntaxKind::Sym_LBracket => Some(Symbol::LBracket),
        SyntaxKind::Sym_RBracket => Some(Symbol::RBracket),
        SyntaxKind::Sym_LParen => Some(Symbol::LParen),
        SyntaxKind::Sym_RParen => Some(Symbol::RParen),
        _ => None,
    }
}

/// The punctuation symbol a token kind stands for, if any.
pub fn kind_to_symbol(kind: SyntaxKind) -> (r: Option<Symbol>)
    ensures
        r == spec_kind_to_symbol(kind),
{
    match kind {
        SyntaxKind::Sym_Ampersand => Some(Symbol::Ampersand),
        SyntaxKind::Sym_Asterisk => Some(Symbol::Asterisk),
        SyntaxKind::Sym_At => Some(Symbol::At),
        SyntaxKind::Sym_BackSlash => Some(Symbol::BackSlash),
        SyntaxKind::Sym_Bang => Some(Symbol::Bang),
        SyntaxKind::Sym_BangEq => Some(Symbol::BangEq),
        SyntaxKind::Sym_Caret => Some(Symbol::Caret),
        SyntaxKind::Sym_Colon => Some(Symbol::Colon),
        SyntaxKind::Sym_Comma => Some(Symbol::Comma),
        SyntaxKind::Sym_Dollar => Some(Symbol::Dollar),
        SyntaxKind::Sym_Dot => Some(Symbol::Dot),
        SyntaxKind::Sym_EmDash => Some(Symbol::EmDash),
        SyntaxKind::Sym_EnDash => Some(Symbol::EnDash),
        SyntaxKind::Sym_Eq => Some(Symbol::Eq),
        SyntaxKind::Sym_ForwardSlash => Some(Symbol::ForwardSlash),
        SyntaxKind::Sym_Minus => Some(Symbol::Minus),
        SyntaxKind::Sym_Percent => Some(Symbol::Percent),
        SyntaxKind::Sym_Pipe => Some(Symbol::Vertical),
        SyntaxKind::Sym_Plus => Some(Symbol::Plus),
        SyntaxKind::Sym_Pound => Some(Symbol::Pound),
        SyntaxKind::Sym_Question => Some(Symbol::Question),
        SyntaxKind::Sym_Semicolon => Some(Symbol::Semicolon),
        SyntaxKind::Sym_Sterling => Some(Symbol::Sterling),
        SyntaxKind::Sym_Tilde => Some(Symbol::Tilde),
        SyntaxKind::Sym_Lt => Some(Symbol::Lt),
        SyntaxKind::Sym_LtEq => Some(Symbol::LtEq),
        SyntaxKind::Sym_Gt => Some(Symbol::Gt),
        SyntaxKind::Sym_GtEq => Some(Symbol::GtEq),
        SyntaxKind::Sym_LThinArrow => Some(Symbol::LThinArrow),
        SyntaxKind::Sym_RThinArrow => Some(Symbol::RThinArrow),
        SyntaxKind::Sym_ThickArrow => Some(Symbol::ThickArrow),
        SyntaxKind::Sym_LBrace => Some(Symbol::LBrace),
        SyntaxKind::Sym_RBrace => Some(Symbol::RBrace),
        SyntaxKind::Sym_LBracket => Some(Symbol::LBracket),
        SyntaxKind::Sym_RBracket => Some(Symbol::RBracket),
        SyntaxKind::Sym_LParen => Some(Symbol::LParen),
        SyntaxKind::Sym_RParen => Some(Symbol::RParen),
        _ => None,
    }
}

} // verus!
