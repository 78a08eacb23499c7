use vstd::prelude::*;
use crate::ast::ASTNode;
use crate::ast::ASTNodeLiteral;
use crate::ast::ASTNodeRoot;
use crate::ast::ASTNodeTag;
use crate::ast::ASTNodeText;
use crate::ast::LitV;
use crate::ast::NodeV;
use crate::ast::RootV;
use crate::ast::TagV;
use crate::ast::TextV;
use crate::ast::lemma_view_node_list_index;
use crate::ast::view_node_list;

verus! {

/// The directive a visitor returns: keep walking, skip this node's children
/// (and its end callback), or halt the whole walk.
#[derive(PartialEq, Eq, Structural, Debug, Clone, Copy)]
pub enum ASTProcessorVisitResult {
    Continue,
    SkipChildren,
    Halt,
}

/// The visitor protocol over a syntax tree. An implementation chooses a
/// mathematical model of its state (`StateV`, with `model` the abstraction
/// and `sp_inv` its invariant) and must make each executable callback behave
/// exactly as its spec-level counterpart (`sp_*`) says on models, so that
/// the walk's own contract can be stated over the models alone.
pub trait IASTProcessor: Sized {
    /// The mathematical model of the visitor's state.
    type StateV;

    /// The model of this visitor value.
    spec fn model(&self) -> Self::StateV;

    /// The invariant the visitor maintains on its model.
    spec fn sp_inv(m: Self::StateV) -> bool;

    /// Model of `visit_begin_root`: the next state and the directive.
    spec fn sp_begin_root(m: Self::StateV, root: RootV) -> (Self::StateV, ASTProcessorVisitResult);

    /// Model of `visit_begin_tag`.
    spec fn sp_begin_tag(m: Self::StateV, tag: TagV) -> (Self::StateV, ASTProcessorVisitResult);

    /// Model of `visit_text`.
    spec fn sp_text(m: Self::StateV, text: TextV) -> (Self::StateV, ASTProcessorVisitResult);

    /// Model of `visit_literal`.
    spec fn sp_literal(m: Self::StateV, literal: LitV) -> (Self::StateV, ASTProcessorVisitResult);

    /// Model of `visit_end_tag`.
    spec fn sp_end_tag(m: Self::StateV, tag: TagV) -> Self::StateV;

    /// Model of `visit_end_root`.
    spec fn sp_end_root(m: Self::StateV, root: RootV) -> Self::StateV;

    fn visit_begin_root(&mut self, root_node: &ASTNodeRoot) -> (r: ASTProcessorVisitResult)
        requires
            Self::sp_inv(old(self).model()),
        ensures
            final(self).model() == Self::sp_begin_root(old(self).model(), root_node@).0,
            r == Self::sp_begin_root(old(self).model(), root_node@).1,
            Self::sp_inv(final(self).model()),
    ;

    fn visit_begin_tag(&mut self, tag_node: &ASTNodeTag) -> (r: ASTProcessorVisitResult)
        requires
            Self::sp_inv(old(self).model()),
        ensures
            final(self).model() == Self::sp_begin_tag(old(self).model(), tag_node@).0,
            r == Self::sp_begin_tag(old(self).model(), tag_node@).1,
            Self::sp_inv(final(self).model()),
    ;

    fn visit_text(&mut self, text_node: &ASTNodeText) -> (r: ASTProcessorVisitResult)
        requires
            Self::sp_inv(old(self).model()),
        ensures
            final(self).model() == Self::sp_text(old(self).model(), text_node@).0,
            r == Self::sp_text(old(self).model(), text_node@).1,
            Self::sp_inv(final(self).model()),
    ;

    fn visit_literal(&mut self, literal_node: &ASTNodeLiteral) -> (r: ASTProcessorVisitResult)
        requires
            Self::sp_inv(old(self).model()),
        ensures
            final(self).model() == Self::sp_literal(old(self).model(), literal_node@).0,
            r == Self::sp_literal(old(self).model(), literal_node@).1,
            Self::sp_inv(final(self).model()),
    ;

    fn visit_end_tag(&mut self, tag_node: &ASTNodeTag)
        requires
            Self::sp_inv(old(self).model()),
        ensures
            final(self).model() == Self::sp_end_tag(old(self).model(), tag_node@),
            Self::sp_inv(final(self).model()),
    ;

    fn visit_end_root(&mut self, root_node: &ASTNodeRoot)
        requires
            Self::sp_inv(old(self).model()),
        ensures
            final(self).model() == Self::sp_end_root(old(self).model(), root_node@),
            Self::sp_inv(final(self).model()),
    ;
}

/// The walk of one node, as mathematics: what model the visitor is left
/// with and what directive the visit hands back. A `begin` callback that
/// returns anything but Continue suppresses both the children and the
/// matching `end` callback; the directive a leaf or a child list returns is
/// passed to the caller unchanged.
pub open spec fn spec_visit<P: IASTProcessor>(node: NodeV, m: P::StateV) -> (
    P::StateV,
    ASTProcessorVisitResult,
)
    decreases node,
{
    match node {
        NodeV::Root(r) => {
            let (m1, d) = P::sp_begin_root(m, r);
            if d == ASTProcessorVisitResult::Continue {
                let (m2, dc) = spec_visit_list::<P>(r.children, m1);
                (P::sp_end_root(m2, r), dc)
            } else {
                (m1, d)
            }
        },
        NodeV::Tag(t) => {
            let (m1, d) = P::sp_begin_tag(m, t);
            if d == ASTProcessorVisitResult::Continue {
                let (m2, dc) = spec_visit_list::<P>(t.children, m1);
                (P::sp_end_tag(m2, t), dc)
            } else {
                (m1, d)
            }
        },
        NodeV::Text(t) => P::sp_text(m, t),
        NodeV::Literal(l) => P::sp_literal(m, l),
    }
}

/// The walk of a list of children, in order: a Halt from a child stops the
/// walk at once, with the remaining siblings unvisited; otherwise the list
/// hands back the directive of its last child (Continue when empty).
pub open spec fn spec_visit_list<P: IASTProcessor>(nodes: Seq<NodeV>, m: P::StateV) -> (
    P::StateV,
    ASTProcessorVisitResult,
)
    decreases nodes,
{
    if nodes.len() == 0 {
        (m, ASTProcessorVisitResult::Continue)
    } else {
        let (m1, d) = spec_visit::<P>(nodes[0], m);
        if d == ASTProcessorVisitResult::Halt {
            (m1, ASTProcessorVisitResult::Halt)
        } else if nodes.len() == 1 {
            (m1, d)
        } else {
            spec_visit_list::<P>(nodes.drop_first(), m1)
        }
    }
}

/// A directive of SkipChildren at a tag's begin callback suppresses the
/// whole subtree: the walk makes no child visit and no matching end_tag
/// call, so the visitor is left exactly as its begin_tag callback left it.
pub proof fn lemma_skip_children_suppresses_subtree<P: IASTProcessor>(tag: TagV, m: P::StateV)
    requires
        P::sp_begin_tag(m, tag).1 == ASTProcessorVisitResult::SkipChildren,
    ensures
        spec_visit::<P>(NodeV::Tag(tag), m) == (
            P::sp_begin_tag(m, tag).0,
            ASTProcessorVisitResult::SkipChildren,
        ),
{
}

/// A directive of Halt from a child stops sibling iteration at every
/// enclosing level: the levels above see Halt and visit no further child.
pub proof fn lemma_halt_stops_siblings<P: IASTProcessor>(nodes: Seq<NodeV>, m: P::StateV)
    requires
        nodes.len() > 0,
        spec_visit::<P>(nodes[0], m).1 == ASTProcessorVisitResult::Halt,
    ensures
        spec_visit_list::<P>(nodes, m) == (
            spec_visit::<P>(nodes[0], m).0,
            ASTProcessorVisitResult::Halt,
        ),
{
}

/// Walks the tree depth-first in document order, driving the visitor's
/// callbacks and obeying the directives they return.
pub fn visit_ast<P: IASTProcessor>(node: &ASTNode, processor: &mut P) -> (r:
    ASTProcessorVisitResult)
    requires
        P::sp_inv(old(processor).model()),
    ensures
        final(processor).model() == spec_visit::<P>(node@, old(processor).model()).0,
        r == spec_visit::<P>(node@, old(processor).model()).1,
        P::sp_inv(final(processor).model()),
    decreases node,
{
    match node {
        ASTNode::Root(root) => {
            let d = processor.visit_begin_root(root);
            let mut continue_processing = ASTProcessorVisitResult::Continue;
            if d == ASTProcessorVisitResult::Continue {
                continue_processing = visit_children(&root.children, processor);
                processor.visit_end_root(root);
            } else {
                continue_processing = d;
            }
            continue_processing
        },
        ASTNode::Tag(tag) => {
            let d = processor.visit_begin_tag(tag);
            let mut continue_processing = ASTProcessorVisitResult::Continue;
            if d == ASTProcessorVisitResult::Continue {
                continue_processing = visit_children(&tag.children, processor);
                processor.visit_end_tag(tag);
            } else {
                continue_processing = d;
            }
            continue_processing
        },
        ASTNode::Text(text) => processor.visit_text(text),
        ASTNode::Literal(literal) => processor.visit_literal(literal),
    }
}

/// Visits each child in order, stopping at once when one of them returns
/// Halt; hands back the last child's directive.
#[verifier::loop_isolation(false)]
fn visit_children<P: IASTProcessor>(children: &Vec<Box<ASTNode>>, processor: &mut P) -> (r:
    ASTProcessorVisitResult)
    requires
        P::sp_inv(old(processor).model()),
    ensures
        final(processor).model() == spec_visit_list::<P>(
            view_node_list(children@),
            old(processor).model(),
        ).0,
        r == spec_visit_list::<P>(view_node_list(children@), old(processor).model()).1,
        P::sp_inv(final(processor).model()),
    decreases children,
{
    let ghost cviews = view_node_list(children@);
    let ghost m0 = old(processor).model();
    proof {
        lemma_view_node_list_index(children@);
    }
    let n = children.len();
    proof {
        assert(cviews.subrange(0, n as int) =~= cviews);
    }
    let mut continue_processing = ASTProcessorVisitResult::Continue;
    let mut i: usize = 0;
    while i < n
        invariant
            i <= n,
            n == children@.len(),
            continue_processing != ASTProcessorVisitResult::Halt,
            P::sp_inv(processor.model()),
            ({
                if i < n {
                    spec_visit_list::<P>(cviews, m0) == spec_visit_list::<P>(
                        cviews.subrange(i as int, n as int),
                        processor.model(),
                    )
                } else {
                    spec_visit_list::<P>(cviews, m0) == (processor.model(), continue_processing)
                }
            }),
        decreases n - i,
    {
        continue_processing = visit_ast(&*children[i], processor);
        proof {
            assert(cviews.subrange(i as int, n as int)[0] == cviews[i as int]);
            assert(cviews.subrange(i as int, n as int).drop_first() =~= cviews.subrange(
                i + 1,
                n as int,
            ));
        }
        if continue_processing == ASTProcessorVisitResult::Halt {
            return continue_processing;
        }
        i = i + 1;
    }
    continue_processing
}

} // verus!
