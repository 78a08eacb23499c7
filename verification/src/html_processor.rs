use vstd::prelude::*;
use crate::ast::ASTNode;
use crate::ast::ASTNodeLiteral;
use crate::ast::ASTNodeRoot;
use crate::ast::ASTNodeTag;
use crate::ast::ASTNodeText;
use crate::ast::LitV;
use crate::ast::NodeV;
use crate::ast::lemma_view_node_list_index;
use crate::ast::view_node_list;
use crate::ast::RootV;
use crate::ast::TagV;
use crate::ast::TextV;
use crate::ast::attrs_find;
use crate::ast::spec_literal_text;
use crate::ast_processor::ASTProcessorVisitResult;
use crate::ast_processor::IASTProcessor;
use crate::ast_processor::lemma_skip_children_suppresses_subtree;
use crate::ast_processor::spec_visit;
use crate::html::ContentV;
use crate::html::Document;
use crate::html::DocumentV;
use crate::html::ElementContent;
use crate::html::ElementID;
use crate::html::escape;
use crate::html::lemma_doc_wf_view;
use crate::html::view_sattrs;
use crate::html::sattrs_index_from;
use crate::html::spec_doc_create_element;
use crate::html::spec_doc_push_content;
use crate::html::spec_doc_set_attribute;
use crate::html::spec_escaped;
use crate::html::spec_render_contents;
use crate::strutil::lower_of;
use crate::strutil::str_eq;
use crate::strutil::to_lowercase;
use vstd::string::StringExecFns;

verus! {

/// The largest registry or arena the visitor will grow; above it the walk
/// halts instead of overflowing the 32-bit ids.
pub const ARENA_LIMIT: usize = 0xffff0000;

/// The concrete traversal consumer that builds an HTML document: it keeps a
/// stack of open element ids (the root opens the body), remaps markup tag
/// names to HTML ones, derives class strings, extracts document metadata
/// from a `header` tag, and splices preloaded file text for a `file` tag.
pub struct HTMLProcessor {
    pub doc: Document,
    pub title: String,
    pub cover_image: String,
    pub date: String,
    pub theme: String,
    pub element_stack: Vec<ElementID>,
    pub file_sources: Vec<(String, String)>,
}

/// The mathematical model of the visitor's state.
#[verifier::ext_equal]
pub struct HTMLProcessorV {
    pub doc: DocumentV,
    pub title: Seq<char>,
    pub cover_image: Seq<char>,
    pub date: Seq<char>,
    pub theme: Seq<char>,
    pub element_stack: Seq<int>,
    pub file_sources: Seq<(Seq<char>, Seq<char>)>,
}

impl View for HTMLProcessor {
    type V = HTMLProcessorV;

    open spec fn view(&self) -> HTMLProcessorV {
        HTMLProcessorV {
            doc: self.doc@,
            title: self.title@,
            cover_image: self.cover_image@,
            date: self.date@,
            theme: self.theme@,
            element_stack: self.element_stack@.map_values(|x: ElementID| x as int),
            file_sources: view_sattrs(self.file_sources@),
        }
    }
}

// ---------------------------------------------------------------------------
// The visitor's decisions, as mathematics
// ---------------------------------------------------------------------------

/// The HTML name a markup tag renders under.
pub open spec fn spec_remap_tag(tag: Seq<char>) -> Seq<char> {
    if tag == "text"@ {
        "p"@
    } else if tag == "image"@ {
        "img"@
    } else if tag == "link"@ {
        "a"@
    } else if tag == "ulist"@ {
        "ul"@
    } else if tag == "olist"@ {
        "ol"@
    } else if tag == "listitem"@ {
        "li"@
    } else {
        tag
    }
}

/// The text of a tag's attribute, or empty when the tag has none.
pub open spec fn spec_attr_text_of(attrs: Seq<(Seq<char>, LitV)>, key: Seq<char>) -> Seq<char> {
    match attrs_find(attrs, key) {
        Some(l) => spec_literal_text(l),
        None => Seq::empty(),
    }
}

/// The CSS class string a tag carries: its `Class` attribute, with
/// " post-full" or " post-half" appended when its `Size` attribute says
/// Full or Half (matched case-insensitively).
pub open spec fn spec_extract_classes(attrs: Seq<(Seq<char>, LitV)>) -> Seq<char> {
    let base = spec_attr_text_of(attrs, "Class"@);
    match attrs_find(attrs, "Size"@) {
        Some(l) => {
            let size = lower_of(spec_literal_text(l));
            if size == "full"@ {
                base + " post-full"@
            } else if size == "half"@ {
                base + " post-half"@
            } else {
                base
            }
        },
        None => base,
    }
}

/// The preloaded text for a file path, if the caller supplied one.
pub open spec fn spec_lookup_source(
    sources: Seq<(Seq<char>, Seq<char>)>,
    path: Seq<char>,
) -> Option<Seq<char>> {
    match sattrs_index_from(sources, path, 0) {
        Some(i) => Some(sources[i].1),
        None => None,
    }
}

/// Appending escaped text to the innermost open element; with no open
/// element the text has nowhere to go and the state is unchanged.
pub open spec fn sp_append_text_v(m: HTMLProcessorV, text: Seq<char>) -> HTMLProcessorV {
    if m.element_stack.len() > 0 {
        HTMLProcessorV {
            doc: spec_doc_push_content(
                m.doc,
                m.element_stack.last(),
                ContentV::Text(spec_escaped(text)),
            ),
            ..m
        }
    } else {
        m
    }
}

/// The model of the visitor's begin-tag decision.
pub open spec fn sp_begin_tag_v(m: HTMLProcessorV, tag: TagV) -> (
    HTMLProcessorV,
    ASTProcessorVisitResult,
) {
    let lname = lower_of(tag.name);
    if lname == "header"@ {
        (
            HTMLProcessorV {
                title: spec_attr_text_of(tag.attributes, "Title"@),
                cover_image: spec_attr_text_of(tag.attributes, "CoverImage"@),
                date: spec_attr_text_of(tag.attributes, "Date"@),
                theme: spec_attr_text_of(tag.attributes, "Theme"@),
                ..m
            },
            ASTProcessorVisitResult::SkipChildren,
        )
    } else if lname == "file"@ {
        let m1 = match attrs_find(tag.attributes, "Source"@) {
            Some(l) => match spec_lookup_source(m.file_sources, spec_literal_text(l)) {
                Some(text) => sp_append_text_v(m, text),
                None => m,
            },
            None => m,
        };
        (m1, ASTProcessorVisitResult::SkipChildren)
    } else {
        if m.doc.elements.len() >= ARENA_LIMIT as int || m.doc.tags.len() >= ARENA_LIMIT as int {
            (m, ASTProcessorVisitResult::Halt)
        } else if m.element_stack.len() == 0 {
            (m, ASTProcessorVisitResult::Continue)
        } else {
            let real_tag = spec_remap_tag(lname);
            let current = m.element_stack.last();
            let created = spec_doc_create_element(m.doc, lower_of(real_tag));
            let d1 = created.0;
            let eid = created.1;
            let is_video = real_tag == "video"@;
            let classes = spec_extract_classes(tag.attributes);
            let d2 = if classes.len() > 0 {
                spec_doc_set_attribute(d1, eid, lower_of("class"@), classes)
            } else {
                d1
            };
            let d3 = match attrs_find(tag.attributes, "ID"@) {
                Some(l) => spec_doc_set_attribute(d2, eid, lower_of("id"@), spec_literal_text(l)),
                None => d2,
            };
            let d4 = if is_video {
                spec_doc_set_attribute(d3, eid, lower_of("controls"@), Seq::empty())
            } else {
                d3
            };
            let d5 = match attrs_find(tag.attributes, "Src"@) {
                Some(l) => {
                    let source_string = spec_literal_text(l);
                    if is_video {
                        let created2 = spec_doc_create_element(d4, lower_of("source"@));
                        let da = created2.0;
                        let sid = created2.1;
                        let db = spec_doc_set_attribute(da, sid, lower_of("type"@), "video/mp4"@);
                        let dc = spec_doc_set_attribute(db, sid, lower_of("src"@), source_string);
                        spec_doc_push_content(dc, eid, ContentV::Element(sid))
                    } else if real_tag == "img"@ {
                        let da = spec_doc_set_attribute(d4, eid, lower_of("src"@), source_string);
                        spec_doc_set_attribute(
                            da,
                            eid,
                            lower_of("alt"@),
                            spec_attr_text_of(tag.attributes, "Alt"@),
                        )
                    } else if real_tag == "a"@ {
                        spec_doc_set_attribute(d4, eid, lower_of("href"@), source_string)
                    } else {
                        d4
                    }
                },
                None => d4,
            };
            let d6 = spec_doc_push_content(d5, current, ContentV::Element(eid));
            (
                HTMLProcessorV { doc: d6, element_stack: m.element_stack.push(eid), ..m },
                ASTProcessorVisitResult::Continue,
            )
        }
    }
}

/// The model of popping the innermost open element.
pub open spec fn sp_pop_v(m: HTMLProcessorV) -> HTMLProcessorV {
    if m.element_stack.len() > 0 {
        HTMLProcessorV { element_stack: m.element_stack.drop_last(), ..m }
    } else {
        m
    }
}

/// The visitor's invariant: the document is well-formed with its skeleton
/// ids in the arena, and every open element id points into the arena.
pub open spec fn html_proc_inv(m: HTMLProcessorV) -> bool {
    &&& m.doc.wf()
    &&& m.doc.ids_wf()
    &&& forall|k: int|
        0 <= k < m.element_stack.len() ==> 0 <= #[trigger] m.element_stack[k]
            < m.doc.elements.len()
}

impl HTMLProcessor {
    /// A fresh processor over the default document: no open element, no
    /// metadata, no preloaded file text.
    pub fn new() -> (r: HTMLProcessor)
        ensures
            html_proc_inv(r@),
            r@.element_stack == Seq::<int>::empty(),
            r@.title == Seq::<char>::empty(),
            r@.cover_image == Seq::<char>::empty(),
            r@.date == Seq::<char>::empty(),
            r@.theme == Seq::<char>::empty(),
            r@.file_sources == Seq::<(Seq<char>, Seq<char>)>::empty(),
            r@.doc == crate::html::spec_default_document(),
            r.doc.wf(),
            r.doc.ids_wf(),
            r.doc.elements@[r.doc.body as int].contents@.len() == 0,
    {
        let r = HTMLProcessor {
            doc: Document::default(),
            title: String::new(),
            cover_image: String::new(),
            date: String::new(),
            theme: String::new(),
            element_stack: Vec::new(),
            file_sources: Vec::new(),
        };
        proof {
            lemma_doc_wf_view(&r.doc);
            assert(r@.element_stack =~= Seq::<int>::empty());
            assert(r@.file_sources =~= Seq::<(Seq<char>, Seq<char>)>::empty());
        }
        r
    }

    /// Registers the text standing for a file path, read ahead of the walk
    /// by the caller; `file` tags splice it in.
    pub fn add_file_source(&mut self, path: String, text: String)
        ensures
            final(self)@ == (HTMLProcessorV {
                file_sources: old(self)@.file_sources.push((path@, text@)),
                ..old(self)@
            }),
            html_proc_inv(old(self)@) ==> html_proc_inv(final(self)@),
    {
        self.file_sources.push((path, text));
        proof {
            assert(self@.file_sources =~= old(self)@.file_sources.push((path@, text@)));
            assert(self@ =~= (HTMLProcessorV {
                file_sources: old(self)@.file_sources.push((path@, text@)),
                ..old(self)@
            }));
        }
    }

    /// Opens an element: content attaches to it until it is closed.
    fn push_element(&mut self, element: ElementID)
        ensures
            final(self)@ == (HTMLProcessorV {
                element_stack: old(self)@.element_stack.push(element as int),
                ..old(self)@
            }),
    {
        self.element_stack.push(element);
        proof {
            assert(self@.element_stack =~= old(self)@.element_stack.push(element as int));
            assert(self@ =~= (HTMLProcessorV {
                element_stack: old(self)@.element_stack.push(element as int),
                ..old(self)@
            }));
        }
    }

    /// Closes the innermost open element.
    fn pop_element(&mut self)
        ensures
            final(self)@ == sp_pop_v(old(self)@),
    {
        if self.element_stack.len() > 0 {
            let _ = self.element_stack.pop();
            proof {
                assert(self@.element_stack =~= old(self)@.element_stack.drop_last());
                assert(self@ =~= sp_pop_v(old(self)@));
            }
        } else {
            proof {
                assert(self@ =~= sp_pop_v(old(self)@));
            }
        }
    }

    /// The HTML name a markup tag renders under.
    pub fn remap_tag<'a>(tag: &'a str) -> (r: &'a str)
        ensures
            r@ == spec_remap_tag(tag@),
    {
        if str_eq(tag, "text") {
            "p"
        } else if str_eq(tag, "image") {
            "img"
        } else if str_eq(tag, "link") {
            "a"
        } else if str_eq(tag, "ulist") {
            "ul"
        } else if str_eq(tag, "olist") {
            "ol"
        } else if str_eq(tag, "listitem") {
            "li"
        } else {
            tag
        }
    }

    /// The text of a tag's attribute, or empty when the tag has none.
    pub fn find_attribute_str(tag_node: &ASTNodeTag, key: &str) -> (r: String)
        ensures
            r@ == spec_attr_text_of(tag_node@.attributes, key@),
    {
        match tag_node.find_attribute(key) {
            Some(attrib) => attrib.to_string(),
            None => String::new(),
        }
    }

    /// The CSS class string a tag carries.
    pub fn extract_classes(tag_node: &ASTNodeTag) -> (r: String)
        ensures
            r@ == spec_extract_classes(tag_node@.attributes),
    {
        let mut result = HTMLProcessor::find_attribute_str(tag_node, "Class");
        match tag_node.find_attribute("Size") {
            Some(css_size) => {
                let size = to_lowercase(css_size.to_string().as_str());
                if str_eq(size.as_str(), "full") {
                    result.append(" post-full");
                } else if str_eq(size.as_str(), "half") {
                    result.append(" post-half");
                }
            },
            None => {},
        }
        result
    }

    /// The preloaded text for a file path, if any was registered.
    #[verifier::loop_isolation(false)]
    fn lookup_source(&self, path: &str) -> (r: Option<String>)
        ensures
            match r {
                Some(s) => spec_lookup_source(self@.file_sources, path@) == Some(s@),
                None => spec_lookup_source(self@.file_sources, path@) is None,
            },
    {
        let n = self.file_sources.len();
        let mut i: usize = 0;
        while i < n
            invariant
                i <= n,
                n == self.file_sources@.len(),
                sattrs_index_from(self@.file_sources, path@, 0) == sattrs_index_from(
                    self@.file_sources,
                    path@,
                    i as int,
                ),
            decreases n - i,
        {
            if str_eq(self.file_sources[i].0.as_str(), path) {
                proof {
                    assert(self@.file_sources[i as int].0 == path@);
                    assert(sattrs_index_from(self@.file_sources, path@, i as int) == Some(
                        i as int,
                    ));
                }
                return Some(self.file_sources[i].1.clone());
            }
            i = i + 1;
        }
        None
    }

    /// Escapes text and appends it to the innermost open element.
    fn append_escaped_text(&mut self, text: &str)
        requires
            html_proc_inv(old(self)@),
        ensures
            final(self)@ == sp_append_text_v(old(self)@, text@),
            html_proc_inv(final(self)@),
    {
        if self.element_stack.len() == 0 {
            proof {
                assert(self@ =~= sp_append_text_v(old(self)@, text@));
            }
            return;
        }
        let current = self.element_stack[self.element_stack.len() - 1];
        let sanitized_string = escape(text);
        proof {
            lemma_doc_wf_view(&self.doc);
            assert(self@.element_stack[self@.element_stack.len() - 1] == current as int);
            assert(self@.element_stack.last() == current as int);
        }
        self.doc.push_content(current, ElementContent::Text(sanitized_string));
        proof {
            lemma_doc_wf_view(&self.doc);
            assert(self@ =~= sp_append_text_v(old(self)@, text@));
        }
    }

}

impl IASTProcessor for HTMLProcessor {
    type StateV = HTMLProcessorV;

    open spec fn model(&self) -> HTMLProcessorV {
        self@
    }

    open spec fn sp_inv(m: HTMLProcessorV) -> bool {
        html_proc_inv(m)
    }

    open spec fn sp_begin_root(m: HTMLProcessorV, root: RootV) -> (
        HTMLProcessorV,
        ASTProcessorVisitResult,
    ) {
        (
            HTMLProcessorV { element_stack: m.element_stack.push(m.doc.body), ..m },
            ASTProcessorVisitResult::Continue,
        )
    }

    open spec fn sp_begin_tag(m: HTMLProcessorV, tag: TagV) -> (
        HTMLProcessorV,
        ASTProcessorVisitResult,
    ) {
        sp_begin_tag_v(m, tag)
    }

    open spec fn sp_text(m: HTMLProcessorV, text: TextV) -> (
        HTMLProcessorV,
        ASTProcessorVisitResult,
    ) {
        (sp_append_text_v(m, text.text), ASTProcessorVisitResult::Continue)
    }

    open spec fn sp_literal(m: HTMLProcessorV, literal: LitV) -> (
        HTMLProcessorV,
        ASTProcessorVisitResult,
    ) {
        (sp_append_text_v(m, spec_literal_text(literal)), ASTProcessorVisitResult::Continue)
    }

    open spec fn sp_end_tag(m: HTMLProcessorV, tag: TagV) -> HTMLProcessorV {
        sp_pop_v(m)
    }

    open spec fn sp_end_root(m: HTMLProcessorV, root: RootV) -> HTMLProcessorV {
        sp_pop_v(m)
    }

    fn visit_begin_root(&mut self, root_node: &ASTNodeRoot) -> (r: ASTProcessorVisitResult) {
        let body = self.doc.body;
        proof {
            lemma_doc_wf_view(&self.doc);
        }
        self.push_element(body);
        ASTProcessorVisitResult::Continue
    }

    #[verifier::loop_isolation(false)]
    #[verifier::rlimit(100)]
    #[verifier::spinoff_prover]
    fn visit_begin_tag(&mut self, tag_node: &ASTNodeTag) -> (r: ASTProcessorVisitResult) {
        let ghost m0 = self@;
        let tag_text = to_lowercase(tag_node.text.as_str());
        if str_eq(tag_text.as_str(), "header") {
            self.title = HTMLProcessor::find_attribute_str(tag_node, "Title");
            self.cover_image = HTMLProcessor::find_attribute_str(tag_node, "CoverImage");
            self.date = HTMLProcessor::find_attribute_str(tag_node, "Date");
            self.theme = HTMLProcessor::find_attribute_str(tag_node, "Theme");
            proof {
                assert(self@ =~= sp_begin_tag_v(m0, tag_node@).0);
                assert(html_proc_inv(self@));
            }
            return ASTProcessorVisitResult::SkipChildren;
        }
        if str_eq(tag_text.as_str(), "file") {
            match tag_node.find_attribute("Source") {
                Some(file_path) => {
                    let file_path_string = file_path.to_string();
                    match self.lookup_source(file_path_string.as_str()) {
                        Some(source) => {
                            self.append_escaped_text(source.as_str());
                        },
                        None => {
                            // no text was registered for the path: like an
                            // unreadable file, the tag contributes nothing
                        },
                    }
                },
                None => {},
            }
            proof {
                assert(self@ =~= sp_begin_tag_v(m0, tag_node@).0);
                assert(html_proc_inv(self@));
            }
            return ASTProcessorVisitResult::SkipChildren;
        }
        if self.doc.elements.len() >= ARENA_LIMIT || self.doc.tags.len() >= ARENA_LIMIT {
            // the arena is full; a cooperative halt is the only way to stop
            return ASTProcessorVisitResult::Halt;
        }
        if self.element_stack.len() == 0 {
            return ASTProcessorVisitResult::Continue;
        }
        let current = self.element_stack[self.element_stack.len() - 1];
        proof {
            lemma_doc_wf_view(&self.doc);
            assert(m0.element_stack.last() == current as int);
        }
        let raw_tag = tag_text.as_str();
        let real_tag = HTMLProcessor::remap_tag(raw_tag);
        let css_classes = HTMLProcessor::extract_classes(tag_node);
        let is_video = str_eq(real_tag, "video");
        let element = self.doc.create_element(real_tag);
        proof {
            assert(self.doc@ == spec_doc_create_element(m0.doc, lower_of(spec_remap_tag(lower_of(
                tag_node@.name,
            )))).0);
        }
        if !css_classes.as_str().is_empty() {
            self.doc.set_attribute(element, &String::from_str("class"), css_classes);
        }
        match tag_node.find_attribute("ID") {
            Some(css_id) => {
                self.doc.set_attribute(element, &String::from_str("id"), css_id.to_string());
            },
            None => {},
        }
        if is_video {
            self.doc.set_attribute(element, &String::from_str("controls"), String::new());
        }
        match tag_node.find_attribute("Src") {
            Some(src) => {
                let source_string = src.to_string();
                if is_video {
                    let source_element = self.doc.create_element("source");
                    self.doc.set_attribute(
                        source_element,
                        &String::from_str("type"),
                        String::from_str("video/mp4"),
                    );
                    self.doc.set_attribute(
                        source_element,
                        &String::from_str("src"),
                        source_string,
                    );
                    self.doc.push_content(element, ElementContent::Element(source_element));
                } else if str_eq(real_tag, "img") {
                    self.doc.set_attribute(element, &String::from_str("src"), source_string);
                    self.doc.set_attribute(
                        element,
                        &String::from_str("alt"),
                        HTMLProcessor::find_attribute_str(tag_node, "Alt"),
                    );
                } else if str_eq(real_tag, "a") {
                    self.doc.set_attribute(element, &String::from_str("href"), source_string);
                }
            },
            None => {},
        }
        self.doc.push_content(current, ElementContent::Element(element));
        proof {
            lemma_doc_wf_view(&self.doc);
            assert(self.doc.ids_wf());
            assert(self@.doc.wf() && self@.doc.ids_wf());
        }
        self.push_element(element);
        proof {
            assert(self@ =~= sp_begin_tag_v(m0, tag_node@).0);
            assert(self@.doc.wf() && self@.doc.ids_wf());
            assert forall|k: int|
                0 <= k < self@.element_stack.len() implies 0 <= #[trigger] self@.element_stack[k]
                < self@.doc.elements.len() by {
                if k < m0.element_stack.len() {
                    assert(self@.element_stack[k] == m0.element_stack[k]);
                }
            }
            assert(html_proc_inv(self@));
        }
        ASTProcessorVisitResult::Continue
    }

    fn visit_text(&mut self, text_node: &ASTNodeText) -> (r: ASTProcessorVisitResult) {
        self.append_escaped_text(text_node.text.as_str());
        ASTProcessorVisitResult::Continue
    }

    fn visit_literal(&mut self, literal_node: &ASTNodeLiteral) -> (r: ASTProcessorVisitResult) {
        let text = literal_node.to_string();
        self.append_escaped_text(text.as_str());
        ASTProcessorVisitResult::Continue
    }

    fn visit_end_tag(&mut self, tag_node: &ASTNodeTag) {
        self.pop_element();
    }

    fn visit_end_root(&mut self, root_node: &ASTNodeRoot) {
        self.pop_element();
    }
}

impl HTMLProcessor {
    /// The rendered text of everything attached to the document body: the
    /// page content a caller hands to its template.
    #[verifier::loop_isolation(false)]
    pub fn render_body_contents(&self) -> (r: String)
        requires
            self.doc.wf(),
            self.doc.ids_wf(),
        ensures
            r@ == spec_render_contents(
                self.doc,
                self.doc.body as int,
                self.doc.elements@[self.doc.body as int].contents@,
                0,
            ),
    {
        let mut out = String::new();
        let body = self.doc.body;
        let ghost items = self.doc.elements@[body as int].contents@;
        let n = self.doc.elements[body as usize].contents.len();
        let mut k: usize = 0;
        while k < n
            invariant
                k <= n,
                n == items.len(),
                out@ + spec_render_contents(self.doc, body as int, items, k as int)
                    == spec_render_contents(self.doc, body as int, items, 0),
            decreases n - k,
        {
            let ghost wpre = out@;
            let item = &self.doc.elements[body as usize].contents[k];
            proof {
                assert(self.doc.elem_wf(body as int));
                assert(match items[k as int] {
                    ElementContent::Element(j) => body < j < self.doc.elements@.len(),
                    ElementContent::Text(_) => true,
                });
            }
            self.doc.render_content(&mut out, item);
            proof {
                assert(out@ + spec_render_contents(self.doc, body as int, items, k + 1) =~= wpre
                    + spec_render_contents(self.doc, body as int, items, k as int));
            }
            k = k + 1;
        }
        out
    }
}

/// The `Source` attributes of the `file` tags under a node, in document
/// order: the paths whose text a caller should preload before the walk.
pub open spec fn spec_file_paths(n: NodeV) -> Seq<Seq<char>>
    decreases n,
{
    match n {
        NodeV::Root(r) => spec_file_paths_list(r.children),
        NodeV::Tag(t) => (if lower_of(t.name) == "file"@ {
            match attrs_find(t.attributes, "Source"@) {
                Some(l) => seq![spec_literal_text(l)],
                None => Seq::empty(),
            }
        } else {
            Seq::<Seq<char>>::empty()
        }) + spec_file_paths_list(t.children),
        NodeV::Text(_) => Seq::empty(),
        NodeV::Literal(_) => Seq::empty(),
    }
}

/// The file paths under a list of nodes, in order.
pub open spec fn spec_file_paths_list(l: Seq<NodeV>) -> Seq<Seq<char>>
    decreases l,
{
    if l.len() == 0 {
        Seq::empty()
    } else {
        spec_file_paths(l[0]) + spec_file_paths_list(l.drop_first())
    }
}

/// Appends the `Source` attribute of every `file` tag under `node` to
/// `out`, in document order, so a caller can read those files ahead of the
/// walk and register their text.
#[verifier::loop_isolation(false)]
pub fn collect_file_paths(node: &ASTNode, out: &mut Vec<String>)
    ensures
        final(out)@.map_values(|s: String| s@) == old(out)@.map_values(|s: String| s@)
            + spec_file_paths(node@),
    decreases node,
{
    let ghost target = spec_file_paths(node@);
    match node {
        ASTNode::Root(r) => {
            collect_file_paths_list(&r.children, out);
        },
        ASTNode::Tag(t) => {
            let lname = to_lowercase(t.text.as_str());
            if str_eq(lname.as_str(), "file") {
                match t.find_attribute("Source") {
                    Some(l) => {
                        let ghost before = out@;
                        out.push(l.to_string());
                        proof {
                            assert(out@.map_values(|s: String| s@) =~= before.map_values(
                                |s: String| s@,
                            ).push(spec_literal_text(l@)));
                        }
                    },
                    None => {},
                }
            }
            collect_file_paths_list(&t.children, out);
        },
        ASTNode::Text(_) => {},
        ASTNode::Literal(_) => {},
    }
    proof {
        assert(out@.map_values(|s: String| s@) =~= old(out)@.map_values(|s: String| s@)
            + spec_file_paths(node@));
    }
}

/// Walks a list of nodes collecting file paths, in order.
#[verifier::loop_isolation(false)]
fn collect_file_paths_list(children: &Vec<Box<ASTNode>>, out: &mut Vec<String>)
    ensures
        final(out)@.map_values(|s: String| s@) == old(out)@.map_values(|s: String| s@)
            + spec_file_paths_list(view_node_list(children@)),
    decreases children,
{
    let ghost cviews = view_node_list(children@);
    proof {
        lemma_view_node_list_index(children@);
    }
    let n = children.len();
    proof {
        assert(cviews.subrange(0, n as int) =~= cviews);
    }
    let mut i: usize = 0;
    while i < n
        invariant
            i <= n,
            n == children@.len(),
            out@.map_values(|s: String| s@) + spec_file_paths_list(
                cviews.subrange(i as int, n as int),
            ) == old(out)@.map_values(|s: String| s@) + spec_file_paths_list(cviews),
        decreases n - i,
    {
        let ghost wpre = out@.map_values(|s: String| s@);
        collect_file_paths(&*children[i], out);
        proof {
            assert(cviews.subrange(i as int, n as int)[0] == cviews[i as int]);
            assert(cviews.subrange(i as int, n as int).drop_first() =~= cviews.subrange(
                i + 1,
                n as int,
            ));
            assert(out@.map_values(|s: String| s@) + spec_file_paths_list(
                cviews.subrange(i + 1, n as int),
            ) =~= wpre + spec_file_paths_list(cviews.subrange(i as int, n as int)));
        }
        i = i + 1;
    }
}

/// A `header` tag's subtree is skipped outright: the HTML visitor answers
/// its begin callback with SkipChildren, so the walk of the whole tag leaves
/// the document untouched, fires no callback for any child, fires no end
/// callback, and only the extracted metadata fields change.
pub proof fn lemma_header_tag_suppresses_subtree(tag: TagV, m: HTMLProcessorV)
    requires
        lower_of(tag.name) == "header"@,
    ensures
        ({
            let walked = spec_visit::<HTMLProcessor>(NodeV::Tag(tag), m);
            walked.1 == ASTProcessorVisitResult::SkipChildren && walked.0.doc == m.doc
                && walked.0.element_stack == m.element_stack && walked.0.title == spec_attr_text_of(
                tag.attributes,
                "Title"@,
            )
        }),
{
    lemma_skip_children_suppresses_subtree::<HTMLProcessor>(tag, m);
}

} // verus!
