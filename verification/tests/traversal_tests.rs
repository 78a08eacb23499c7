use srmarkup::ast::{LitV, RootV, TagV, TextV};
use srmarkup::{
    visit_ast, ASTNode, ASTNodeLiteral, ASTNodeRoot, ASTNodeTag, ASTNodeText,
    ASTProcessorVisitResult, IASTProcessor, Parser,
};

/// Records every callback as a line of text and answers begin callbacks with
/// a configurable directive per tag name.
struct RecordingVisitor {
    calls: Vec<String>,
    skip_tag: String,
    halt_tag: String,
}

impl RecordingVisitor {
    fn new() -> Self {
        RecordingVisitor {
            calls: Vec::new(),
            skip_tag: String::new(),
            halt_tag: String::new(),
        }
    }
}

impl IASTProcessor for RecordingVisitor {
    type StateV = ();

    // the spec-level model items are ghost code; a recorder has no
    // observable model, so they are stubs here
    fn model(&self) {}

    fn sp_inv(_m: ()) -> bool {
        true
    }

    fn sp_begin_root(m: (), _root: RootV) -> ((), ASTProcessorVisitResult) {
        (m, ASTProcessorVisitResult::Continue)
    }

    fn sp_begin_tag(m: (), _tag: TagV) -> ((), ASTProcessorVisitResult) {
        (m, ASTProcessorVisitResult::Continue)
    }

    fn sp_text(m: (), _text: TextV) -> ((), ASTProcessorVisitResult) {
        (m, ASTProcessorVisitResult::Continue)
    }

    fn sp_literal(m: (), _literal: LitV) -> ((), ASTProcessorVisitResult) {
        (m, ASTProcessorVisitResult::Continue)
    }

    fn sp_end_tag(m: (), _tag: TagV) {
        m
    }

    fn sp_end_root(m: (), _root: RootV) {
        m
    }

    fn visit_begin_root(&mut self, _: &ASTNodeRoot) -> ASTProcessorVisitResult {
        self.calls.push(String::from("begin_root"));
        ASTProcessorVisitResult::Continue
    }

    fn visit_begin_tag(&mut self, tag_node: &ASTNodeTag) -> ASTProcessorVisitResult {
        self.calls.push(format!("begin_tag {}", tag_node.text));
        if tag_node.text == self.skip_tag {
            ASTProcessorVisitResult::SkipChildren
        } else if tag_node.text == self.halt_tag {
            ASTProcessorVisitResult::Halt
        } else {
            ASTProcessorVisitResult::Continue
        }
    }

    fn visit_text(&mut self, text_node: &ASTNodeText) -> ASTProcessorVisitResult {
        self.calls.push(format!("text {}", text_node.text));
        ASTProcessorVisitResult::Continue
    }

    fn visit_literal(&mut self, literal_node: &ASTNodeLiteral) -> ASTProcessorVisitResult {
        match literal_node {
            ASTNodeLiteral::Str(s) => self.calls.push(format!("literal {}", s)),
            ASTNodeLiteral::Float(s) => self.calls.push(format!("literal {}", s)),
            ASTNodeLiteral::Bool(b) => self.calls.push(format!("literal {}", b)),
        }
        ASTProcessorVisitResult::Continue
    }

    fn visit_end_tag(&mut self, tag_node: &ASTNodeTag) {
        self.calls.push(format!("end_tag {}", tag_node.text));
    }

    fn visit_end_root(&mut self, _: &ASTNodeRoot) {
        self.calls.push(String::from("end_root"));
    }
}

fn parse_ok(src: &str) -> Box<ASTNode> {
    let mut parser = Parser::new(String::from(src));
    parser.parse().expect("the source should parse")
}

#[test]
fn the_walk_is_depth_first_in_document_order() {
    let root = parse_ok("@a{ one @b{ two } three }");
    let mut v = RecordingVisitor::new();
    let r = visit_ast(&root, &mut v);
    assert_eq!(r, ASTProcessorVisitResult::Continue);
    assert_eq!(
        v.calls,
        vec![
            "begin_root",
            "begin_tag a",
            "text one",
            "begin_tag b",
            "text two",
            "end_tag b",
            "text three",
            "end_tag a",
            "end_root",
        ]
    );
}

#[test]
fn skip_children_suppresses_the_children_and_the_end_callback() {
    let root = parse_ok("@header(Title=\"X\"){ \"ignored\" }");
    let mut v = RecordingVisitor::new();
    v.skip_tag = String::from("header");
    let _ = visit_ast(&root, &mut v);
    assert!(v.calls.contains(&String::from("begin_tag header")));
    assert!(!v.calls.iter().any(|c| c.starts_with("literal")));
    assert!(!v.calls.iter().any(|c| c.starts_with("text")));
    assert!(!v.calls.contains(&String::from("end_tag header")));
    // the enclosing root was itself Continue, so its end callback fires
    assert!(v.calls.contains(&String::from("end_root")));
}

#[test]
fn halt_stops_sibling_iteration_at_every_level() {
    let root = parse_ok("@a{ @stop{ x } @later{ y } } @after{ z }");
    let mut v = RecordingVisitor::new();
    v.halt_tag = String::from("stop");
    let r = visit_ast(&root, &mut v);
    assert_eq!(r, ASTProcessorVisitResult::Halt);
    assert!(v.calls.contains(&String::from("begin_tag stop")));
    assert!(!v.calls.contains(&String::from("begin_tag later")));
    assert!(!v.calls.contains(&String::from("begin_tag after")));
    // a level whose own begin returned Continue still closes cleanly
    assert!(v.calls.contains(&String::from("end_tag a")));
    assert!(v.calls.contains(&String::from("end_root")));
}
