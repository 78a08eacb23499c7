use vstd::prelude::*;
use crate::strutil::spec_bool_text;
use crate::strutil::bool_to_string;
use crate::strutil::str_eq;

verus! {

pub type ASTNodePtr = Box<ASTNode>;

pub type ASTNodeList = Vec<ASTNodePtr>;

/// A typed scalar value: a quoted string, a numeric literal, or a boolean.
/// A numeric literal is held as its canonical decimal text: an integer part
/// with no leading zeros ("0" if empty), and a fractional part with no
/// trailing zeros, omitted when empty.
#[derive(Debug, PartialEq)]
pub enum ASTNodeLiteral {
    Str(String),
    Float(String),
    Bool(bool),
}

/// The mathematical value of a literal.
pub enum LitV {
    Str(Seq<char>),
    Float(Seq<char>),
    Bool(bool),
}

impl View for ASTNodeLiteral {
    type V = LitV;

    open spec fn view(&self) -> LitV {
        match self {
            ASTNodeLiteral::Str(s) => LitV::Str(s@),
            ASTNodeLiteral::Float(s) => LitV::Float(s@),
            ASTNodeLiteral::Bool(b) => LitV::Bool(*b),
        }
    }
}

/// The text a literal renders as: the string itself, the canonical number
/// text, or "true"/"false".
pub open spec fn spec_literal_text(l: LitV) -> Seq<char> {
    match l {
        LitV::Str(s) => s,
        LitV::Float(s) => s,
        LitV::Bool(b) => spec_bool_text(b),
    }
}

impl ASTNodeLiteral {
    /// Renders the literal as text.
    pub fn to_string(&self) -> (r: String)
        ensures
            r@ == spec_literal_text(self@),
    {
        match self {
            ASTNodeLiteral::Str(s) => s.clone(),
            ASTNodeLiteral::Float(s) => s.clone(),
            ASTNodeLiteral::Bool(b) => bool_to_string(*b),
        }
    }
}

/// A parsed document has exactly one root node.
#[derive(Debug, PartialEq)]
pub struct ASTNodeRoot {
    pub children: ASTNodeList,
}

/// The main building block of a document: a named tag with an ordered list
/// of children and a key-to-literal attribute mapping with unique keys.
#[derive(Debug, PartialEq)]
pub struct ASTNodeTag {
    pub text: String,
    pub children: ASTNodeList,
    pub attributes: Vec<(String, ASTNodeLiteral)>,
}

/// Normalized free text.
#[derive(Debug, PartialEq)]
pub struct ASTNodeText {
    pub text: String,
}

#[derive(Debug, PartialEq)]
pub enum ASTNode {
    Root(ASTNodeRoot),
    Tag(ASTNodeTag),
    Text(ASTNodeText),
    Literal(ASTNodeLiteral),
}

/// Spec-level root: the views of the children, in document order.
pub struct RootV {
    pub children: Seq<NodeV>,
}

/// Spec-level tag: name, attribute pairs in insertion order, children in
/// document order.
pub struct TagV {
    pub name: Seq<char>,
    pub attributes: Seq<(Seq<char>, LitV)>,
    pub children: Seq<NodeV>,
}

/// Spec-level free text.
pub struct TextV {
    pub text: Seq<char>,
}

/// The mathematical model of a syntax-tree node.
pub enum NodeV {
    Root(RootV),
    Tag(TagV),
    Text(TextV),
    Literal(LitV),
}

/// The views of a list of owned nodes, in order.
pub open spec fn view_node_list(l: Seq<Box<ASTNode>>) -> Seq<NodeV>
    decreases l,
{
    if l.len() == 0 {
        Seq::empty()
    } else {
        seq![(*l[0])@] + view_node_list(l.drop_first())
    }
}

/// The views of a tag's attribute pairs, in order.
pub open spec fn view_attr_list(l: Seq<(String, ASTNodeLiteral)>) -> Seq<(Seq<char>, LitV)> {
    l.map_values(|p: (String, ASTNodeLiteral)| (p.0@, p.1@))
}

impl View for ASTNodeRoot {
    type V = RootV;

    open spec fn view(&self) -> RootV {
        RootV { children: view_node_list(self.children@) }
    }
}

impl View for ASTNodeTag {
    type V = TagV;

    open spec fn view(&self) -> TagV {
        TagV {
            name: self.text@,
            attributes: view_attr_list(self.attributes@),
            children: view_node_list(self.children@),
        }
    }
}

impl View for ASTNodeText {
    type V = TextV;

    open spec fn view(&self) -> TextV {
        TextV { text: self.text@ }
    }
}

impl View for ASTNode {
    type V = NodeV;

    open spec fn view(&self) -> NodeV
        decreases self,
    {
        match self {
            ASTNode::Root(r) => NodeV::Root(RootV { children: view_node_list(r.children@) }),
            ASTNode::Tag(t) => NodeV::Tag(
                TagV {
                    name: t.text@,
                    attributes: view_attr_list(t.attributes@),
                    children: view_node_list(t.children@),
                },
            ),
            ASTNode::Text(t) => NodeV::Text(TextV { text: t.text@ }),
            ASTNode::Literal(l) => NodeV::Literal(l@),
        }
    }
}

/// Looks a key up among attribute pairs, starting at position `i`.
pub open spec fn attrs_find_from(
    attrs: Seq<(Seq<char>, LitV)>,
    key: Seq<char>,
    i: int,
) -> Option<LitV>
    decreases attrs.len() - i,
{
    if i < 0 || i >= attrs.len() {
        None
    } else if attrs[i].0 == key {
        Some(attrs[i].1)
    } else {
        attrs_find_from(attrs, key, i + 1)
    }
}

/// The value bound to a key among attribute pairs, if any.
pub open spec fn attrs_find(attrs: Seq<(Seq<char>, LitV)>, key: Seq<char>) -> Option<LitV> {
    attrs_find_from(attrs, key, 0)
}

/// The position of a key among attribute pairs, starting at `i`.
pub open spec fn attrs_index_from(
    attrs: Seq<(Seq<char>, LitV)>,
    key: Seq<char>,
    i: int,
) -> Option<int>
    decreases attrs.len() - i,
{
    if i < 0 || i >= attrs.len() {
        None
    } else if attrs[i].0 == key {
        Some(i)
    } else {
        attrs_index_from(attrs, key, i + 1)
    }
}

/// Attribute insertion: overwrites the value of an existing key, else
/// appends the pair.
pub open spec fn attrs_put(
    attrs: Seq<(Seq<char>, LitV)>,
    key: Seq<char>,
    value: LitV,
) -> Seq<(Seq<char>, LitV)> {
    match attrs_index_from(attrs, key, 0) {
        Some(i) => attrs.update(i, (key, value)),
        None => attrs.push((key, value)),
    }
}

/// No two attribute pairs share a key.
pub open spec fn attrs_unique(attrs: Seq<(Seq<char>, LitV)>) -> bool {
    forall|i: int, j: int|
        0 <= i < j < attrs.len() ==> attrs[i].0 != attrs[j].0
}

/// Well-formedness of a list of nodes.
pub open spec fn wf_node_list(l: Seq<NodeV>) -> bool
    decreases l,
{
    if l.len() == 0 {
        true
    } else {
        wf_node(l[0]) && wf_node_list(l.drop_first())
    }
}

/// Well-formedness of a node: every tag has a non-empty name and unique
/// attribute keys.
pub open spec fn wf_node(n: NodeV) -> bool
    decreases n,
{
    match n {
        NodeV::Root(r) => wf_node_list(r.children),
        NodeV::Tag(t) => t.name.len() > 0 && attrs_unique(t.attributes) && wf_node_list(
            t.children,
        ),
        NodeV::Text(_) => true,
        NodeV::Literal(_) => true,
    }
}

impl ASTNodeTag {
    /// A fresh tag with the given name, no children, and no attributes.
    pub fn new(text: String) -> (r: Self)
        ensures
            r@.name == text@,
            r@.attributes == Seq::<(Seq<char>, LitV)>::empty(),
            r@.children == Seq::<NodeV>::empty(),
            r.children@.len() == 0,
            r.attributes@.len() == 0,
    {
        Self { text, children: Vec::new(), attributes: Vec::new() }
    }

    /// The value bound to `key`, if the tag has such an attribute.
    pub fn find_attribute(&self, key: &str) -> (r: Option<&ASTNodeLiteral>)
        ensures
            match r {
                Some(l) => attrs_find(self@.attributes, key@) == Some(l@),
                None => attrs_find(self@.attributes, key@) is None,
            },
    {
        let n = self.attributes.len();
        let mut i: usize = 0;
        while i < n
            invariant
                n == self.attributes@.len(),
                i <= n,
                attrs_find(self@.attributes, key@) == attrs_find_from(
                    self@.attributes,
                    key@,
                    i as int,
                ),
            decreases n - i,
        {
            let pair = &self.attributes[i];
            if str_eq(pair.0.as_str(), key) {
                return Some(&pair.1);
            }
            i = i + 1;
        }
        None
    }

    /// Binds `key` to `value`: overwrites the old value if the key exists,
    /// else appends the pair. Keeps attribute keys unique.
    pub fn insert_attribute(&mut self, key: String, value: ASTNodeLiteral)
        ensures
            final(self)@.attributes == attrs_put(old(self)@.attributes, key@, value@),
            final(self).text == old(self).text,
            final(self).children == old(self).children,
            attrs_unique(old(self)@.attributes) ==> attrs_unique(final(self)@.attributes),
    {
        let n = self.attributes.len();
        let mut i: usize = 0;
        while i < n
            invariant
                self.text == old(self).text,
                self.children == old(self).children,
                self.attributes == old(self).attributes,
                n == self.attributes@.len(),
                i <= n,
                attrs_index_from(view_attr_list(self.attributes@), key@, 0)
                    == attrs_index_from(view_attr_list(self.attributes@), key@, i as int),
            decreases n - i,
        {
            if str_eq(self.attributes[i].0.as_str(), key.as_str()) {
                proof {
                    let a = view_attr_list(self.attributes@);
                    assert(a[i as int].0 == key@);
                    assert(attrs_index_from(a, key@, i as int) == Some(i as int));
                }
                self.attributes[i] = (key, value);
                proof {
                    let a = view_attr_list(old(self).attributes@);
                    assert(view_attr_list(self.attributes@) =~= a.update(
                        i as int,
                        (key@, value@),
                    ));
                    if attrs_unique(a) {
                        lemma_attrs_put_unique(a, key@, value@);
                    }
                }
                return;
            }
            i = i + 1;
        }
        proof {
            let a = view_attr_list(self.attributes@);
            assert(attrs_index_from(a, key@, n as int) is None);
        }
        self.attributes.push((key, value));
        proof {
            let a = view_attr_list(old(self).attributes@);
            assert(view_attr_list(self.attributes@) =~= a.push((key@, value@)));
            if attrs_unique(a) {
                lemma_attrs_put_unique(a, key@, value@);
            }
        }
    }
}

/// `view_node_list` maps each node to its view, position by position.
pub proof fn lemma_view_node_list_index(l: Seq<Box<ASTNode>>)
    ensures
        view_node_list(l).len() == l.len(),
        forall|i: int| 0 <= i < l.len() ==> view_node_list(l)[i] == (*l[i])@,
    decreases l,
{
    if l.len() > 0 {
        lemma_view_node_list_index(l.drop_first());
        assert(view_node_list(l) == seq![(*l[0])@] + view_node_list(l.drop_first()));
        assert forall|i: int| 0 <= i < l.len() implies view_node_list(l)[i] == (*l[i])@ by {
            if i > 0 {
                assert(l.drop_first()[i - 1] == l[i]);
                assert(view_node_list(l)[i] == view_node_list(l.drop_first())[i - 1]);
            }
        }
    }
}

/// Appending one node appends its view.
pub proof fn lemma_view_node_list_push(l: Seq<Box<ASTNode>>, b: Box<ASTNode>)
    ensures
        view_node_list(l.push(b)) == view_node_list(l).push((*b)@),
    decreases l,
{
    if l.len() == 0 {
        assert(l.push(b)[0] == b);
        assert(l.push(b).drop_first() =~= Seq::<Box<ASTNode>>::empty());
        assert(view_node_list(l.push(b).drop_first()) =~= Seq::<NodeV>::empty());
        assert(view_node_list(l.push(b)) =~= seq![(*b)@] + Seq::<NodeV>::empty());
        assert(view_node_list(l) =~= Seq::<NodeV>::empty());
        assert(view_node_list(l.push(b)) =~= view_node_list(l).push((*b)@));
    } else {
        assert(l.push(b)[0] == l[0]);
        assert(l.push(b).drop_first() =~= l.drop_first().push(b));
        lemma_view_node_list_push(l.drop_first(), b);
        assert(view_node_list(l.push(b)) =~= seq![(*l[0])@] + view_node_list(
            l.drop_first(),
        ).push((*b)@));
        assert(view_node_list(l.push(b)) =~= view_node_list(l).push((*b)@));
    }
}

/// A list of nodes is well-formed exactly when each node in it is.
pub proof fn lemma_wf_node_list_iff(l: Seq<NodeV>)
    ensures
        wf_node_list(l) <==> (forall|i: int| 0 <= i < l.len() ==> wf_node(l[i])),
    decreases l,
{
    if l.len() > 0 {
        lemma_wf_node_list_iff(l.drop_first());
        assert(forall|i: int|
            0 <= i < l.drop_first().len() ==> l.drop_first()[i] == l[i + 1]);
        if wf_node_list(l) {
            assert forall|i: int| 0 <= i < l.len() implies wf_node(l[i]) by {
                if i > 0 {
                    assert(wf_node(l.drop_first()[i - 1]));
                }
            }
        }
        if forall|i: int| 0 <= i < l.len() ==> wf_node(l[i]) {
            assert forall|i: int| 0 <= i < l.drop_first().len() implies wf_node(
                l.drop_first()[i],
            ) by {
                assert(l.drop_first()[i] == l[i + 1]);
                assert(wf_node(l[i + 1]));
            }
            assert(wf_node(l[0]));
        }
    }
}

/// Looking up a key that `attrs_index_from` locates finds the stored value;
/// a key it does not locate is absent.
proof fn lemma_index_find(attrs: Seq<(Seq<char>, LitV)>, key: Seq<char>, i: int)
    requires
        0 <= i <= attrs.len(),
    ensures
        match attrs_index_from(attrs, key, i) {
            Some(j) => i <= j < attrs.len() && attrs[j].0 == key && (forall|k: int|
                i <= k < j ==> attrs[k].0 != key),
            None => forall|k: int| i <= k < attrs.len() ==> attrs[k].0 != key,
        },
    decreases attrs.len() - i,
{
    if i < attrs.len() && attrs[i].0 != key {
        lemma_index_find(attrs, key, i + 1);
    }
}

/// Insertion keeps attribute keys unique.
proof fn lemma_attrs_put_unique(attrs: Seq<(Seq<char>, LitV)>, key: Seq<char>, value: LitV)
    requires
        attrs_unique(attrs),
    ensures
        attrs_unique(attrs_put(attrs, key, value)),
{
    lemma_index_find(attrs, key, 0);
}

} // verus!
