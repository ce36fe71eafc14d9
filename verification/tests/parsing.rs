use helios::parser::{Parser, Token};
use helios::syntax::SyntaxKind;
use helios::tree::{Node, SyntaxTree};

/// A small scanner for the tests: it splits source text into the tokens the
/// parser expects, keeping every character of the input in some token.
fn lex(src: &str) -> Vec<Token> {
    let chars: Vec<char> = src.chars().collect();
    let mut tokens: Vec<Token> = Vec::new();
    let mut i = 0;
    while i < chars.len() {
        let c = chars[i];
        if c == '/' && i + 1 < chars.len() && chars[i + 1] == '/' {
            let mut j = i;
            while j < chars.len() && chars[j] != '\n' {
                j += 1;
            }
            let text: String = chars[i..j].iter().collect();
            tokens.push(Token::new(SyntaxKind::LineComment, text));
            i = j;
        } else if c.is_whitespace() {
            let mut j = i;
            while j < chars.len() && chars[j].is_whitespace() {
                j += 1;
            }
            let text: String = chars[i..j].iter().collect();
            tokens.push(Token::new(SyntaxKind::Whitespace, text));
            i = j;
        } else if c.is_alphabetic() || c == '_' {
            let mut j = i;
            while j < chars.len() && (chars[j].is_alphanumeric() || chars[j] == '_') {
                j += 1;
            }
            let text: String = chars[i..j].iter().collect();
            let kind = match text.as_str() {
                "let" => SyntaxKind::Kwd_Let,
                "unimplemented" => SyntaxKind::Kwd_Unimplemented,
                _ => SyntaxKind::Identifier,
            };
            tokens.push(Token::new(kind, text));
            i = j;
        } else if c.is_ascii_digit() {
            let mut j = i;
            while j < chars.len() && chars[j].is_ascii_digit() {
                j += 1;
            }
            let text: String = chars[i..j].iter().collect();
            tokens.push(Token::new(SyntaxKind::Lit_Integer, text));
            i = j;
        } else {
            let two: Option<SyntaxKind> = if i + 1 < chars.len() {
                helios::syntax::symbol_from_chars(&[c, chars[i + 1]])
            } else {
                None
            };
            if let Some(kind) = two {
                let text: String = chars[i..i + 2].iter().collect();
                tokens.push(Token::new(kind, text));
                i += 2;
            } else {
                let kind = match c {
                    '+' => SyntaxKind::Sym_Plus,
                    '-' => SyntaxKind::Sym_Minus,
                    '*' => SyntaxKind::Sym_Asterisk,
                    '/' => SyntaxKind::Sym_ForwardSlash,
                    '=' => SyntaxKind::Sym_Eq,
                    '<' => SyntaxKind::Sym_Lt,
                    '>' => SyntaxKind::Sym_Gt,
                    '!' => SyntaxKind::Sym_Bang,
                    ';' => SyntaxKind::Sym_Semicolon,
                    '{' => SyntaxKind::Sym_LBrace,
                    '}' => SyntaxKind::Sym_RBrace,
                    '(' => SyntaxKind::Sym_LParen,
                    ')' => SyntaxKind::Sym_RParen,
                    _ => SyntaxKind::Error,
                };
                tokens.push(Token::new(kind, c.to_string()));
                i += 1;
            }
        }
    }
    tokens
}

fn parse(src: &str) -> (SyntaxTree, Vec<helios::diagnostic::Diagnostic>) {
    let mut parser = Parser::with(lex(src));
    parser.parse()
}

fn expect_branch<'a>(n: &'a Node, kind: SyntaxKind) -> &'a Vec<Node> {
    match n {
        Node::Branch { kind: k, children } => {
            assert_eq!(*k, kind);
            children
        }
        Node::Leaf { token } => {
            panic!("expected a branch, found leaf {:?}", token.raw.kind)
        }
    }
}

fn expect_leaf(n: &Node, kind: SyntaxKind, text: &str, start: usize, end: usize) {
    match n {
        Node::Leaf { token } => {
            assert_eq!(token.raw.kind, kind);
            assert_eq!(token.raw.text.as_str(), text);
            assert_eq!(token.span.start, start);
            assert_eq!(token.span.end, end);
        }
        Node::Branch { kind: k, .. } => panic!("expected a leaf, found branch {:?}", k),
    }
}

fn collect_text(n: &Node, out: &mut String) {
    match n {
        Node::Leaf { token } => out.push_str(&token.raw.text),
        Node::Branch { children, .. } => {
            for child in children {
                collect_text(child, out);
            }
        }
    }
}

fn tree_source(tree: &SyntaxTree) -> String {
    let mut out = String::new();
    for n in tree.children() {
        collect_text(n, &mut out);
    }
    out
}

#[test]
fn test_parse_global_binding_declaration() {
    let (tree, diagnostics) = parse("let foo = bar");
    assert!(diagnostics.is_empty());
    assert_eq!(tree.children().len(), 1);
    let root = &tree.children()[0];
    assert_eq!(root.full_span().start, 0);
    assert_eq!(root.full_span().end, 13);
    let top = expect_branch(root, SyntaxKind::Root);
    assert_eq!(top.len(), 1);
    let binding = expect_branch(&top[0], SyntaxKind::Dec_GlobalBinding);
    assert_eq!(top[0].full_span().start, 0);
    assert_eq!(top[0].full_span().end, 13);
    assert_eq!(binding.len(), 7);
    expect_leaf(&binding[0], SyntaxKind::Kwd_Let, "let", 0, 3);
    expect_leaf(&binding[1], SyntaxKind::Whitespace, " ", 3, 4);
    expect_leaf(&binding[2], SyntaxKind::Identifier, "foo", 4, 7);
    expect_leaf(&binding[3], SyntaxKind::Whitespace, " ", 7, 8);
    expect_leaf(&binding[4], SyntaxKind::Sym_Eq, "=", 8, 9);
    expect_leaf(&binding[5], SyntaxKind::Whitespace, " ", 9, 10);
    let var_ref = expect_branch(&binding[6], SyntaxKind::Exp_VariableRef);
    assert_eq!(var_ref.len(), 1);
    expect_leaf(&var_ref[0], SyntaxKind::Identifier, "bar", 10, 13);
}

#[test]
fn test_parser() {
    let source = "// Adding two variables\nlet a = 10\n";
    let mut parser = Parser::with(lex(source));
    let (tree, _diagnostics) = parser.parse();
    assert_eq!(tree.children().len(), 1);
    assert!(true)
}

#[test]
fn test_precedence_multiplication_binds_tighter() {
    let (tree, diagnostics) = parse("a + b * c");
    assert!(diagnostics.is_empty());
    let top = expect_branch(&tree.children()[0], SyntaxKind::Root);
    let plus = expect_branch(&top[0], SyntaxKind::Exp_Binary);
    // left operand: `a`; operator `+`; right operand: the `b * c` node
    let left = expect_branch(&plus[0], SyntaxKind::Exp_VariableRef);
    expect_leaf(&left[0], SyntaxKind::Identifier, "a", 0, 1);
    expect_leaf(&plus[1], SyntaxKind::Sym_Plus, "+", 2, 3);
    let times = expect_branch(&plus[3], SyntaxKind::Exp_Binary);
    let times_left = expect_branch(&times[0], SyntaxKind::Exp_VariableRef);
    expect_leaf(&times_left[0], SyntaxKind::Identifier, "b", 4, 5);
    expect_leaf(&times[1], SyntaxKind::Sym_Asterisk, "*", 6, 7);
    let times_right = expect_branch(&times[3], SyntaxKind::Exp_VariableRef);
    expect_leaf(&times_right[0], SyntaxKind::Identifier, "c", 8, 9);
}

#[test]
fn test_subtraction_is_left_associative() {
    let (tree, diagnostics) = parse("a - b - c");
    assert!(diagnostics.is_empty());
    let top = expect_branch(&tree.children()[0], SyntaxKind::Root);
    // ((a - b) - c): the outer node's left operand is itself a binary node
    let outer = expect_branch(&top[0], SyntaxKind::Exp_Binary);
    let inner = expect_branch(&outer[0], SyntaxKind::Exp_Binary);
    let a = expect_branch(&inner[0], SyntaxKind::Exp_VariableRef);
    expect_leaf(&a[0], SyntaxKind::Identifier, "a", 0, 1);
    expect_leaf(&inner[1], SyntaxKind::Sym_Minus, "-", 2, 3);
    let b = expect_branch(&inner[3], SyntaxKind::Exp_VariableRef);
    expect_leaf(&b[0], SyntaxKind::Identifier, "b", 4, 5);
    expect_leaf(&outer[1], SyntaxKind::Sym_Minus, "-", 6, 7);
    let c = expect_branch(&outer[3], SyntaxKind::Exp_VariableRef);
    expect_leaf(&c[0], SyntaxKind::Identifier, "c", 8, 9);
}

#[test]
fn test_recovery_missing_equals_and_expression() {
    let (tree, diagnostics) = parse("let foo");
    // recovery: the parse finishes and reports the two missing pieces,
    // naming the token that was expected
    assert_eq!(diagnostics.len(), 2);
    assert_eq!(diagnostics[0].title.as_str(), "missing token");
    assert_eq!(diagnostics[0].message.render(), "expected =");
    assert_eq!(diagnostics[1].title.as_str(), "missing expression");
    assert_eq!(diagnostics[0].location.range.start, 7);
    assert_eq!(diagnostics[0].location.range.end, 7);
    assert_eq!(diagnostics[1].location.range.start, 7);
    assert_eq!(diagnostics[1].location.range.end, 7);
    let top = expect_branch(&tree.children()[0], SyntaxKind::Root);
    assert_eq!(top.len(), 1);
    let binding = expect_branch(&top[0], SyntaxKind::Dec_GlobalBinding);
    assert_eq!(binding.len(), 5);
    expect_leaf(&binding[0], SyntaxKind::Kwd_Let, "let", 0, 3);
    expect_leaf(&binding[1], SyntaxKind::Whitespace, " ", 3, 4);
    expect_leaf(&binding[2], SyntaxKind::Identifier, "foo", 4, 7);
    // zero-width missing token where `=` was required, right after `foo`
    expect_leaf(&binding[3], SyntaxKind::Missing, "", 7, 7);
    // zero-width missing-expression node at the same position
    let missing = expect_branch(&binding[4], SyntaxKind::Exp_Missing);
    expect_leaf(&missing[0], SyntaxKind::Missing, "", 7, 7);
}

#[test]
fn test_trivia_attaches_to_following_token() {
    let (tree, diagnostics) = parse("// comment\nlet a = 10\n");
    assert!(diagnostics.is_empty());
    let top = expect_branch(&tree.children()[0], SyntaxKind::Root);
    // the comment and its newline do not float as top-level siblings:
    // they lead the `let` keyword inside the binding node
    assert_eq!(top.len(), 1);
    let binding = expect_branch(&top[0], SyntaxKind::Dec_GlobalBinding);
    expect_leaf(&binding[0], SyntaxKind::LineComment, "// comment", 0, 10);
    expect_leaf(&binding[1], SyntaxKind::Whitespace, "\n", 10, 11);
    expect_leaf(&binding[2], SyntaxKind::Kwd_Let, "let", 11, 14);
}

#[test]
fn test_lossless_inputs() {
    let inputs = [
        "",
        "   \n\t ",
        "// only a comment",
        "let foo = bar",
        "let foo",
        "a + b * c",
        "a - b - c",
        "- !a",
        "let = 5",
        "} } )",
        "let a = 10\nlet b = foo\n",
        "1 + ) 2 £ ?",
        "a <- b ; c",
    ];
    for input in inputs {
        let (tree, _diagnostics) = parse(input);
        assert_eq!(tree_source(&tree), *input, "lossless for {:?}", input);
    }
}

#[test]
fn test_totality_one_root() {
    let inputs = ["", "   ", "}", "= = =", "let", "£"];
    for input in inputs {
        let (tree, _diagnostics) = parse(input);
        assert_eq!(tree.children().len(), 1);
        match &tree.children()[0] {
            Node::Branch { kind, .. } => assert_eq!(*kind, SyntaxKind::Root),
            Node::Leaf { .. } => panic!("root must be a branch"),
        }
    }
}

#[test]
fn test_unexpected_token_is_preserved() {
    let (tree, _diagnostics) = parse(")");
    let top = expect_branch(&tree.children()[0], SyntaxKind::Root);
    let unexpected = expect_branch(&top[0], SyntaxKind::Exp_Unexpected);
    expect_leaf(&unexpected[0], SyntaxKind::Sym_RParen, ")", 0, 1);
}

#[test]
fn test_unary_prefix_expression() {
    let (tree, diagnostics) = parse("-a");
    assert!(diagnostics.is_empty());
    let top = expect_branch(&tree.children()[0], SyntaxKind::Root);
    let unary = expect_branch(&top[0], SyntaxKind::Exp_UnaryPrefix);
    expect_leaf(&unary[0], SyntaxKind::Sym_Minus, "-", 0, 1);
    let operand = expect_branch(&unary[1], SyntaxKind::Exp_VariableRef);
    expect_leaf(&operand[0], SyntaxKind::Identifier, "a", 1, 2);
}

#[test]
fn test_node_span_excludes_trivia() {
    let (tree, _diagnostics) = parse("a + b ");
    let top = expect_branch(&tree.children()[0], SyntaxKind::Root);
    let binary = &top[0];
    // the trailing space is inside the expression's full span but not its span
    assert_eq!(binary.full_span().start, 0);
    assert_eq!(binary.full_span().end, 6);
    assert_eq!(binary.span().start, 0);
    assert_eq!(binary.span().end, 5);
}

#[test]
fn test_missing_kind_in_input_is_downgraded() {
    // the reserved Missing kind cannot be smuggled in as an input token
    let tokens = vec![Token::new(SyntaxKind::Missing, String::from("x"))];
    let mut parser = Parser::with(tokens);
    let (tree, _diagnostics) = parser.parse();
    assert_eq!(tree_source(&tree), "x");
    let top = expect_branch(&tree.children()[0], SyntaxKind::Root);
    let node = expect_branch(&top[0], SyntaxKind::Error);
    expect_leaf(&node[0], SyntaxKind::Error, "x", 0, 1);
}

#[test]
fn test_assignment_is_right_associative() {
    let (tree, diagnostics) = parse("a = b = c");
    assert!(diagnostics.is_empty());
    let top = expect_branch(&tree.children()[0], SyntaxKind::Root);
    // a = (b = c): the outer node's right operand is itself a binary node
    let outer = expect_branch(&top[0], SyntaxKind::Exp_Binary);
    let a = expect_branch(&outer[0], SyntaxKind::Exp_VariableRef);
    expect_leaf(&a[0], SyntaxKind::Identifier, "a", 0, 1);
    expect_leaf(&outer[1], SyntaxKind::Sym_Eq, "=", 2, 3);
    let inner = expect_branch(&outer[3], SyntaxKind::Exp_Binary);
    let b = expect_branch(&inner[0], SyntaxKind::Exp_VariableRef);
    expect_leaf(&b[0], SyntaxKind::Identifier, "b", 4, 5);
    expect_leaf(&inner[1], SyntaxKind::Sym_Eq, "=", 6, 7);
    let c = expect_branch(&inner[3], SyntaxKind::Exp_VariableRef);
    expect_leaf(&c[0], SyntaxKind::Identifier, "c", 8, 9);
}

#[test]
fn test_semicolon_sequencing_is_left_associative() {
    let (tree, diagnostics) = parse("a ; b ; c");
    assert!(diagnostics.is_empty());
    let top = expect_branch(&tree.children()[0], SyntaxKind::Root);
    let outer = expect_branch(&top[0], SyntaxKind::Exp_Binary);
    let inner = expect_branch(&outer[0], SyntaxKind::Exp_Binary);
    let a = expect_branch(&inner[0], SyntaxKind::Exp_VariableRef);
    expect_leaf(&a[0], SyntaxKind::Identifier, "a", 0, 1);
    expect_leaf(&inner[1], SyntaxKind::Sym_Semicolon, ";", 2, 3);
    expect_leaf(&outer[1], SyntaxKind::Sym_Semicolon, ";", 6, 7);
}

#[test]
fn test_only_trivia_stays_under_root() {
    let (tree, diagnostics) = parse("  // note
");
    assert!(diagnostics.is_empty());
    let top = expect_branch(&tree.children()[0], SyntaxKind::Root);
    assert_eq!(top.len(), 3);
    expect_leaf(&top[0], SyntaxKind::Whitespace, "  ", 0, 2);
    expect_leaf(&top[1], SyntaxKind::LineComment, "// note", 2, 9);
    expect_leaf(&top[2], SyntaxKind::Whitespace, "\n", 9, 10);
}

#[test]
fn test_sink_drops_contentless_node() {
    // A log that opens and closes a node without giving it any content: the
    // replay records no empty branch at a made-up position.
    let tokens = vec![Token::new(SyntaxKind::Identifier, String::from("a"))];
    let events = vec![
        helios::event::Event::StartNode {
            kind: SyntaxKind::Exp_Paren,
            forward_parent: None,
        },
        helios::event::Event::FinishNode,
        helios::event::Event::AddToken {
            kind: SyntaxKind::Identifier,
            text: String::from("a"),
        },
    ];
    let sink = helios::sink::Sink::new(&tokens, events);
    let tree = sink.finish();
    let top = expect_branch(&tree.children()[0], SyntaxKind::Root);
    assert_eq!(top.len(), 1);
    expect_leaf(&top[0], SyntaxKind::Identifier, "a", 0, 1);
}
