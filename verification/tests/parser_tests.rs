use srmarkup::ASTNode;
use srmarkup::ASTNodeLiteral;
use srmarkup::Parser;

fn parse_ok(src: &str) -> Box<ASTNode> {
    let mut parser = Parser::new(String::from(src));
    match parser.parse() {
        Ok(root) => root,
        Err(e) => panic!("unexpected parse errors: {:?}", e),
    }
}

#[test]
fn greeting_tag_parses_to_the_expected_tree() {
    let root = parse_ok("@Greeting(Name=\"Ann\", Age=3, Active=true){ \"hi\" }");
    let children = match *root {
        ASTNode::Root(ref r) => &r.children,
        _ => panic!("expected a root node"),
    };
    assert_eq!(children.len(), 1);
    let tag = match *children[0] {
        ASTNode::Tag(ref t) => t,
        _ => panic!("expected a tag node"),
    };
    assert_eq!(tag.text, "Greeting");
    assert_eq!(
        tag.find_attribute("Name"),
        Some(&ASTNodeLiteral::Str(String::from("Ann")))
    );
    assert_eq!(
        tag.find_attribute("Age"),
        Some(&ASTNodeLiteral::Float(String::from("3")))
    );
    assert_eq!(
        tag.find_attribute("Active"),
        Some(&ASTNodeLiteral::Bool(true))
    );
    assert_eq!(tag.find_attribute("Missing"), None);
    assert_eq!(tag.children.len(), 1);
    match *tag.children[0] {
        ASTNode::Literal(ASTNodeLiteral::Str(ref s)) => assert_eq!(s, "hi"),
        _ => panic!("expected a string literal child"),
    }
}

#[test]
fn commas_between_attributes_are_optional() {
    let with_commas = parse_ok("@T(A=1,B=2)");
    let without_commas = parse_ok("@T(A=1 B=2)");
    assert_eq!(with_commas, without_commas);
}

#[test]
fn parsing_twice_yields_identical_trees() {
    let src = "@post(Title=\"A day\"){ Some prose here. @text{ nested } 42 true }";
    let first = parse_ok(src);
    let second = parse_ok(src);
    assert_eq!(first, second);
}

#[test]
fn unterminated_tag_name_yields_exactly_one_error() {
    let mut parser = Parser::new(String::from("@\"open"));
    match parser.parse() {
        Ok(_) => panic!("expected a failed parse"),
        Err(e) => {
            assert_eq!(e.errors.len(), 1);
            assert_eq!(e.errors[0].line_number, 1);
            assert_eq!(
                e.errors[0].message,
                "Tokenizer Unterminated Tag name string"
            );
        }
    }
}

#[test]
fn multi_line_text_collapses_to_one_text_node() {
    let root = parse_ok("@t{ line one\nline two }");
    let children = match *root {
        ASTNode::Root(ref r) => &r.children,
        _ => panic!("expected a root node"),
    };
    let tag = match *children[0] {
        ASTNode::Tag(ref t) => t,
        _ => panic!("expected a tag node"),
    };
    assert_eq!(tag.children.len(), 1);
    match *tag.children[0] {
        ASTNode::Text(ref t) => assert_eq!(t.text, "line one line two"),
        _ => panic!("expected a text node"),
    }
}

#[test]
fn attribute_values_keep_the_last_write() {
    let root = parse_ok("@t(A=1 A=2)");
    let children = match *root {
        ASTNode::Root(ref r) => &r.children,
        _ => panic!("expected a root node"),
    };
    let tag = match *children[0] {
        ASTNode::Tag(ref t) => t,
        _ => panic!("expected a tag node"),
    };
    assert_eq!(
        tag.find_attribute("A"),
        Some(&ASTNodeLiteral::Float(String::from("2")))
    );
    assert_eq!(tag.attributes.len(), 1);
}

#[test]
fn a_bare_tag_is_a_leaf_with_no_attributes() {
    let root = parse_ok("@T ");
    let children = match *root {
        ASTNode::Root(ref r) => &r.children,
        _ => panic!("expected a root node"),
    };
    assert_eq!(children.len(), 1);
    let tag = match *children[0] {
        ASTNode::Tag(ref t) => t,
        _ => panic!("expected a tag node"),
    };
    assert_eq!(tag.text, "T");
    assert!(tag.attributes.is_empty());
    assert!(tag.children.is_empty());
}

#[test]
fn a_bare_tag_may_end_with_the_source() {
    let root = parse_ok("@T");
    let children = match *root {
        ASTNode::Root(ref r) => &r.children,
        _ => panic!("expected a root node"),
    };
    assert_eq!(children.len(), 1);
    match *children[0] {
        ASTNode::Tag(ref t) => assert_eq!(t.text, "T"),
        _ => panic!("expected a tag node"),
    }
}

#[test]
fn a_tag_with_no_body_has_no_children() {
    let root = parse_ok("@meta(A=1)");
    let children = match *root {
        ASTNode::Root(ref r) => &r.children,
        _ => panic!("expected a root node"),
    };
    let tag = match *children[0] {
        ASTNode::Tag(ref t) => t,
        _ => panic!("expected a tag node"),
    };
    assert!(tag.children.is_empty());
}

#[test]
fn errors_carry_their_lines_in_order() {
    let mut parser = Parser::new(String::from("@a(=1)\n@b(=2)"));
    match parser.parse() {
        Ok(_) => panic!("expected a failed parse"),
        Err(e) => {
            assert!(e.errors.len() >= 2);
            for w in e.errors.windows(2) {
                assert!(w[0].line_number <= w[1].line_number);
            }
        }
    }
}

#[test]
fn a_missing_attribute_value_is_recovered_from() {
    let mut parser = Parser::new(String::from("@t(A=)@u(B=1)"));
    let r = parser.parse();
    assert!(r.is_err());
}

#[test]
fn a_stray_character_in_a_body_terminates() {
    let mut parser = Parser::new(String::from("@t{)"));
    let r = parser.parse();
    assert!(r.is_err());
}

#[test]
fn a_stray_character_at_the_top_level_ends_the_parse() {
    let mut parser = Parser::new(String::from(")"));
    let r = parser.parse();
    match r {
        Ok(root) => match *root {
            ASTNode::Root(ref n) => assert!(n.children.is_empty()),
            _ => panic!("expected a root node"),
        },
        Err(e) => panic!("unexpected errors: {:?}", e),
    }
}

#[test]
fn an_empty_tag_name_is_rejected() {
    let mut parser = Parser::new(String::from("@. "));
    let r = parser.parse();
    assert!(r.is_err());
}

#[test]
fn truncated_input_terminates() {
    for src in ["@t(", "@t(A", "@t(A=", "@t{", "@t{@u{", "@t(A=1", "\\"] {
        let mut parser = Parser::new(String::from(src));
        let _ = parser.parse();
    }
}
