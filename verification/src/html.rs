use vstd::prelude::*;
use vstd::pervasive::VecAdditionalExecFns;
use vstd::string::StrSliceExecFns;
use vstd::string::StringExecFns;
use crate::strutil::lower_of;
use crate::strutil::push_char;
use crate::strutil::to_lowercase;

verus! {

pub type ElementTagID = u32;

pub type ElementID = u32;

/// One entry of the tag registry: the name used in the start tag, an
/// optional distinct closing name, and whether the element is void (no
/// children, no closing tag).
pub struct ElementTag {
    pub start_tag: String,
    pub end_tag: Option<String>,
    pub is_void_element: bool,
}

/// A piece of an element's content: a nested element, by id, or literal
/// text emitted verbatim (escaping is the producer's responsibility).
pub enum ElementContent {
    Element(ElementID),
    Text(String),
}

/// One element: a tag id into the registry, an attribute mapping with
/// unique lowercased keys, ordered contents, and a comment flag.
pub struct Element {
    pub tag: ElementTagID,
    pub attributes: Vec<(String, String)>,
    pub contents: Vec<ElementContent>,
    pub is_comment: bool,
}

/// A DOM-like document: a sorted tag registry interned by lowercase name,
/// and an arena of elements referenced by integer id. Elements only ever
/// reference elements created after them, so the graph is a forest.
pub struct Document {
    pub elements: Vec<Element>,
    pub tags: Vec<ElementTag>,
    pub doc_type: ElementID,
    pub html: ElementID,
    pub head: ElementID,
    pub body: ElementID,
}

// ---------------------------------------------------------------------------
// Lexicographic order on names
// ---------------------------------------------------------------------------

/// Lexicographic comparison from position `i` on: the first differing
/// character decides; a proper prefix comes first.
pub open spec fn seq_lt_from(a: Seq<char>, b: Seq<char>, i: int) -> bool
    decreases b.len() - i,
{
    if i < 0 || i >= b.len() {
        false
    } else if i >= a.len() {
        true
    } else if a[i] != b[i] {
        (a[i] as u32) < (b[i] as u32)
    } else {
        seq_lt_from(a, b, i + 1)
    }
}

/// Lexicographic order on character sequences.
pub open spec fn seq_lt(a: Seq<char>, b: Seq<char>) -> bool {
    seq_lt_from(a, b, 0)
}

/// Lexicographic order is transitive.
proof fn lemma_seq_lt_from_trans(a: Seq<char>, b: Seq<char>, c: Seq<char>, i: int)
    requires
        0 <= i,
        seq_lt_from(a, b, i),
        seq_lt_from(b, c, i),
    ensures
        seq_lt_from(a, c, i),
    decreases c.len() - i,
{
    if i < a.len() && i < b.len() && i < c.len() && a[i] == b[i] && b[i] == c[i] {
        lemma_seq_lt_from_trans(a, b, c, i + 1);
    }
}

pub proof fn lemma_seq_lt_trans(a: Seq<char>, b: Seq<char>, c: Seq<char>)
    requires
        seq_lt(a, b),
        seq_lt(b, c),
    ensures
        seq_lt(a, c),
{
    lemma_seq_lt_from_trans(a, b, c, 0);
}

/// Three-way lexicographic comparison of two strings.
#[verifier::loop_isolation(false)]
fn str_compare(a: &str, b: &str) -> (r: i32)
    ensures
        r == -1 || r == 0 || r == 1,
        (r == -1) == seq_lt(a@, b@),
        (r == 0) == (a@ == b@),
        (r == 1) == seq_lt(b@, a@),
{
    let na = a.unicode_len();
    let nb = b.unicode_len();
    let mut i: usize = 0;
    while i < na && i < nb
        invariant
            i <= na,
            i <= nb,
            forall|j: int| 0 <= j < i ==> a@[j] == b@[j],
            seq_lt(a@, b@) == seq_lt_from(a@, b@, i as int),
            seq_lt(b@, a@) == seq_lt_from(b@, a@, i as int),
        decreases na - i,
    {
        let ca = a.get_char(i);
        let cb = b.get_char(i);
        if (ca as u32) < (cb as u32) {
            return -1;
        }
        if (cb as u32) < (ca as u32) {
            return 1;
        }
        i = i + 1;
    }
    if na == nb {
        proof {
            assert(a@ =~= b@);
        }
        0
    } else if na < nb {
        -1
    } else {
        1
    }
}

// ---------------------------------------------------------------------------
// String attribute mappings
// ---------------------------------------------------------------------------

/// The views of an attribute list's pairs, in order.
pub open spec fn view_sattrs(l: Seq<(String, String)>) -> Seq<(Seq<char>, Seq<char>)> {
    l.map_values(|p: (String, String)| (p.0@, p.1@))
}

/// The position of a key in an attribute list, from `i` on.
pub open spec fn sattrs_index_from(
    attrs: Seq<(Seq<char>, Seq<char>)>,
    key: Seq<char>,
    i: int,
) -> Option<int>
    decreases attrs.len() - i,
{
    if i < 0 || i >= attrs.len() {
        None
    } else if attrs[i].0 == key {
        Some(i)
    } else {
        sattrs_index_from(attrs, key, i + 1)
    }
}

/// Attribute insertion: overwrites the value of an existing key, else
/// appends the pair.
pub open spec fn sattrs_put(
    attrs: Seq<(Seq<char>, Seq<char>)>,
    key: Seq<char>,
    value: Seq<char>,
) -> Seq<(Seq<char>, Seq<char>)> {
    match sattrs_index_from(attrs, key, 0) {
        Some(i) => attrs.update(i, (key, value)),
        None => attrs.push((key, value)),
    }
}

/// Attribute removal: drops the key's pair when present.
pub open spec fn sattrs_remove(
    attrs: Seq<(Seq<char>, Seq<char>)>,
    key: Seq<char>,
) -> Seq<(Seq<char>, Seq<char>)> {
    match sattrs_index_from(attrs, key, 0) {
        Some(i) => attrs.remove(i),
        None => attrs,
    }
}

/// No two attribute pairs share a key.
pub open spec fn sattrs_unique(attrs: Seq<(Seq<char>, Seq<char>)>) -> bool {
    forall|i: int, j: int| 0 <= i < j < attrs.len() ==> attrs[i].0 != attrs[j].0
}

proof fn lemma_sattrs_index_find(attrs: Seq<(Seq<char>, Seq<char>)>, key: Seq<char>, i: int)
    requires
        0 <= i <= attrs.len(),
    ensures
        match sattrs_index_from(attrs, key, i) {
            Some(j) => i <= j < attrs.len() && attrs[j].0 == key,
            None => forall|k: int| i <= k < attrs.len() ==> attrs[k].0 != key,
        },
    decreases attrs.len() - i,
{
    if i < attrs.len() && attrs[i].0 != key {
        lemma_sattrs_index_find(attrs, key, i + 1);
    }
}

/// Insertion keeps keys unique.
proof fn lemma_sattrs_put_unique(attrs: Seq<(Seq<char>, Seq<char>)>, key: Seq<char>, value: Seq<char>)
    requires
        sattrs_unique(attrs),
    ensures
        sattrs_unique(sattrs_put(attrs, key, value)),
{
    lemma_sattrs_index_find(attrs, key, 0);
}

// ---------------------------------------------------------------------------
// Document well-formedness
// ---------------------------------------------------------------------------

impl Document {
    /// The registry is strictly sorted by name (so names are unique).
    pub open spec fn tags_sorted(&self) -> bool {
        forall|i: int, j: int|
            0 <= i < j < self.tags@.len() ==> seq_lt(
                self.tags@[i].start_tag@,
                self.tags@[j].start_tag@,
            )
    }

    /// One element is well-formed: its tag id is in the registry, its
    /// attribute keys are unique, and its contents reference only elements
    /// created after it (so the element graph is a forest and rendering
    /// terminates).
    pub open spec fn elem_wf(&self, i: int) -> bool {
        &&& self.elements@[i].tag < self.tags@.len()
        &&& sattrs_unique(view_sattrs(self.elements@[i].attributes@))
        &&& forall|k: int|
            0 <= k < self.elements@[i].contents@.len() ==> match #[trigger] self.elements@[i].contents@[k] {
                ElementContent::Element(j) => i < j < self.elements@.len(),
                ElementContent::Text(_) => true,
            }
    }

    /// The document invariant.
    pub open spec fn wf(&self) -> bool {
        &&& self.tags_sorted()
        &&& forall|i: int| 0 <= i < self.elements@.len() ==> self.elem_wf(i)
    }

    /// The four skeleton ids point into the arena.
    pub open spec fn ids_wf(&self) -> bool {
        &&& self.doc_type < self.elements@.len()
        &&& self.html < self.elements@.len()
        &&& self.head < self.elements@.len()
        &&& self.body < self.elements@.len()
    }

    /// The registry name an element renders under.
    pub open spec fn elem_tag_name(&self, i: int) -> Seq<char> {
        self.tags@[self.elements@[i].tag as int].start_tag@
    }
}

/// Binds `key` to `value` in an attribute list: overwrites the old value if
/// the key exists, else appends the pair. Keeps keys unique.
#[verifier::loop_isolation(false)]
fn sattrs_insert(attrs: &mut Vec<(String, String)>, key: String, value: String)
    ensures
        view_sattrs(final(attrs)@) == sattrs_put(view_sattrs(old(attrs)@), key@, value@),
        sattrs_unique(view_sattrs(old(attrs)@)) ==> sattrs_unique(view_sattrs(final(attrs)@)),
{
    let n = attrs.len();
    let mut i: usize = 0;
    while i < n
        invariant
            attrs@ == old(attrs)@,
            n == attrs@.len(),
            i <= n,
            sattrs_index_from(view_sattrs(attrs@), key@, 0) == sattrs_index_from(
                view_sattrs(attrs@),
                key@,
                i as int,
            ),
        decreases n - i,
    {
        if crate::strutil::str_eq(attrs[i].0.as_str(), key.as_str()) {
            proof {
                let a = view_sattrs(attrs@);
                assert(a[i as int].0 == key@);
                assert(sattrs_index_from(a, key@, i as int) == Some(i as int));
            }
            attrs.set(i, (key, value));
            proof {
                let a = view_sattrs(old(attrs)@);
                assert(view_sattrs(attrs@) =~= a.update(i as int, (key@, value@)));
                if sattrs_unique(a) {
                    lemma_sattrs_put_unique(a, key@, value@);
                }
            }
            return;
        }
        i = i + 1;
    }
    proof {
        let a = view_sattrs(attrs@);
        assert(sattrs_index_from(a, key@, n as int) is None);
    }
    attrs.push((key, value));
    proof {
        let a = view_sattrs(old(attrs)@);
        assert(view_sattrs(attrs@) =~= a.push((key@, value@)));
        if sattrs_unique(a) {
            lemma_sattrs_put_unique(a, key@, value@);
        }
    }
}

/// Drops `key`'s pair from an attribute list when it is present.
#[verifier::loop_isolation(false)]
fn sattrs_delete(attrs: &mut Vec<(String, String)>, key: &str)
    ensures
        view_sattrs(final(attrs)@) == sattrs_remove(view_sattrs(old(attrs)@), key@),
        sattrs_unique(view_sattrs(old(attrs)@)) ==> sattrs_unique(view_sattrs(final(attrs)@)),
{
    let n = attrs.len();
    let mut i: usize = 0;
    while i < n
        invariant
            attrs@ == old(attrs)@,
            n == attrs@.len(),
            i <= n,
            sattrs_index_from(view_sattrs(attrs@), key@, 0) == sattrs_index_from(
                view_sattrs(attrs@),
                key@,
                i as int,
            ),
        decreases n - i,
    {
        if crate::strutil::str_eq(attrs[i].0.as_str(), key) {
            proof {
                let a = view_sattrs(attrs@);
                assert(a[i as int].0 == key@);
                assert(sattrs_index_from(a, key@, i as int) == Some(i as int));
            }
            let _ = attrs.remove(i);
            proof {
                let a = view_sattrs(old(attrs)@);
                assert(view_sattrs(attrs@) =~= a.remove(i as int));
                if sattrs_unique(a) {
                    assert forall|x: int, y: int|
                        0 <= x < y < view_sattrs(attrs@).len() implies view_sattrs(attrs@)[x].0
                        != view_sattrs(attrs@)[y].0 by {
                        let xo: int = if x < i { x } else { x + 1 };
                        let yo: int = if y < i { y } else { y + 1 };
                        assert(a[xo] == view_sattrs(attrs@)[x]);
                        assert(a[yo] == view_sattrs(attrs@)[y]);
                    }
                }
            }
            return;
        }
        i = i + 1;
    }
    proof {
        let a = view_sattrs(attrs@);
        assert(sattrs_index_from(a, key@, n as int) is None);
    }
}

/// A placeholder element, used to swap an element out of the arena while it
/// is edited.
fn blank_element() -> (e: Element)
    ensures
        e.tag == 0,
        e.attributes@.len() == 0,
        e.contents@.len() == 0,
        e.is_comment == false,
{
    Element { tag: 0, attributes: Vec::new(), contents: Vec::new(), is_comment: false }
}

impl Document {
    /// Interns a name into the registry: the lowercased name is found by
    /// binary search, or inserted at its sorted position, with every
    /// existing element's tag reference re-pointed so that no element
    /// changes its name.
    ///
    /// Relies on nothing outside; `is_void` is used only for a fresh entry.
    #[verifier::loop_isolation(false)]
    fn intern_tag(&mut self, tag_str: &str, is_void: bool) -> (id: ElementTagID)
        requires
            old(self).wf(),
            old(self).tags@.len() + 1 < u32::MAX as int,
        ensures
            final(self).wf(),
            id < final(self).tags@.len(),
            final(self).tags@[id as int].start_tag@ == lower_of(tag_str@),
            old(self).tags@.len() <= final(self).tags@.len() <= old(self).tags@.len() + 1,
            final(self).tags == old(self).tags || (final(self).tags@.len() == old(self).tags@.len()
                + 1 && final(self).tags@[id as int].is_void_element == is_void && final(self).tags@[id as int].end_tag is None),
            final(self)@ == spec_doc_intern(old(self)@, lower_of(tag_str@), is_void).0,
            id as int == spec_doc_intern(old(self)@, lower_of(tag_str@), is_void).1,
            final(self).elements@.len() == old(self).elements@.len(),
            final(self).doc_type == old(self).doc_type,
            final(self).html == old(self).html,
            final(self).head == old(self).head,
            final(self).body == old(self).body,
            forall|i: int|
                0 <= i < old(self).elements@.len() ==> (#[trigger] final(self).elements@[i]).attributes
                    == old(self).elements@[i].attributes && final(self).elements@[i].contents == old(self).elements@[i].contents && final(self).elements@[i].is_comment == old(self).elements@[i].is_comment && final(self).elem_tag_name(i) == old(self).elem_tag_name(
                    i,
                ),
    {
        let lower_case_tag = to_lowercase(tag_str);
        let n = self.tags.len();
        let mut lo: usize = 0;
        let mut hi: usize = n;
        while lo < hi
            invariant
                lo <= hi <= n,
                self == old(self),
                forall|k: int|
                    0 <= k < lo ==> seq_lt(
                        (#[trigger] self.tags@[k]).start_tag@,
                        lower_case_tag@,
                    ),
                forall|k: int|
                    hi <= k < n ==> seq_lt(
                        lower_case_tag@,
                        (#[trigger] self.tags@[k]).start_tag@,
                    ),
            decreases hi - lo,
        {
            let mid = lo + (hi - lo) / 2;
            let c = str_compare(self.tags[mid].start_tag.as_str(), lower_case_tag.as_str());
            if c == 0 {
                proof {
                    let dv = old(self)@;
                    let key = lower_of(tag_str@);
                    assert forall|k: int|
                        0 <= k < mid implies seq_lt((#[trigger] dv.tags[k]).start_tag, key) by {
                        assert(dv.tags[k].start_tag == self.tags@[k].start_tag@);
                        if k >= lo {
                            assert(seq_lt(
                                self.tags@[k].start_tag@,
                                self.tags@[mid as int].start_tag@,
                            ));
                        }
                    }
                    lemma_seq_lt_irrefl(key, 0);
                    assert(!seq_lt(dv.tags[mid as int].start_tag, key));
                    lemma_tag_pos_pinned(dv.tags, key, mid as int, 0);
                    assert(spec_doc_intern(dv, key, is_void).0 == dv);
                    assert(spec_doc_intern(dv, key, is_void).1 == mid as int);
                    assert(self@ =~= dv);
                }
                return mid as ElementTagID;
            } else if c == -1 {
                proof {
                    assert forall|k: int|
                        0 <= k < mid + 1 implies seq_lt(
                        (#[trigger] self.tags@[k]).start_tag@,
                        lower_case_tag@,
                    ) by {
                        if k < mid {
                            lemma_seq_lt_trans(
                                self.tags@[k].start_tag@,
                                self.tags@[mid as int].start_tag@,
                                lower_case_tag@,
                            );
                        }
                    }
                }
                lo = mid + 1;
            } else {
                proof {
                    assert forall|k: int|
                        mid <= k < n implies seq_lt(
                        lower_case_tag@,
                        (#[trigger] self.tags@[k]).start_tag@,
                    ) by {
                        if k > mid {
                            lemma_seq_lt_trans(
                                lower_case_tag@,
                                self.tags@[mid as int].start_tag@,
                                self.tags@[k].start_tag@,
                            );
                        }
                    }
                }
                hi = mid;
            }
        }
        let pos = lo;
        self.tags.insert(
            pos,
            ElementTag { start_tag: lower_case_tag, end_tag: None, is_void_element: is_void },
        );
        proof {
            assert forall|i: int, j: int|
                0 <= i < j < self.tags@.len() implies seq_lt(
                self.tags@[i].start_tag@,
                self.tags@[j].start_tag@,
            ) by {
                if j < pos {
                } else if i < pos && j == pos {
                } else if i == pos {
                    assert(self.tags@[j] == old(self).tags@[j - 1]);
                } else if i < pos {
                    assert(self.tags@[j] == old(self).tags@[j - 1]);
                    lemma_seq_lt_trans(
                        self.tags@[i].start_tag@,
                        lower_of(tag_str@),
                        self.tags@[j].start_tag@,
                    );
                } else {
                    assert(self.tags@[i] == old(self).tags@[i - 1]);
                    assert(self.tags@[j] == old(self).tags@[j - 1]);
                }
            }
        }
        proof {
            old(self).tags@.insert_ensures(pos as int, self.tags@[pos as int]);
        }
        // re-point existing tag references past the insertion position
        let m = self.elements.len();
        let ghost tpost = self.tags@;
        let ghost epre = self.elements@;
        let mut i: usize = 0;
        while i < m
            invariant
                i <= m,
                pos <= old(self).tags@.len(),
                m == self.elements@.len(),
                epre == old(self).elements@,
                self.tags@ == tpost,
                tpost == old(self).tags@.insert(pos as int, tpost[pos as int]),
                tpost[pos as int].start_tag@ == lower_of(tag_str@),
                self.doc_type == old(self).doc_type,
                self.html == old(self).html,
                self.head == old(self).head,
                self.body == old(self).body,
                forall|j: int| i <= j < m ==> self.elements@[j] == epre[j],
                forall|j: int|
                    0 <= j < i ==> {
                        let en = #[trigger] self.elements@[j];
                        let eo = epre[j];
                        en.attributes == eo.attributes && en.contents == eo.contents
                            && en.is_comment == eo.is_comment && en.tag == (if eo.tag >= pos {
                            eo.tag + 1
                        } else {
                            eo.tag as int
                        })
                    },
            decreases m - i,
        {
            let t = self.elements[i].tag;
            proof {
                assert(self.elements@[i as int] == epre[i as int]);
                assert(old(self).elem_wf(i as int));
                assert(epre[i as int].tag < old(self).tags@.len());
            }
            if t >= pos as u32 {
                let mut e = blank_element();
                self.elements.set_and_swap(i, &mut e);
                e.tag = t + 1;
                self.elements.set(i, e);
            }
            i = i + 1;
        }
        proof {
            old(self).tags@.insert_ensures(pos as int, tpost[pos as int]);
            let dv = old(self)@;
            let key = lower_of(tag_str@);
            assert forall|k: int|
                0 <= k < pos implies seq_lt((#[trigger] dv.tags[k]).start_tag, key) by {
                assert(dv.tags[k].start_tag == old(self).tags@[k].start_tag@);
            }
            if (pos as int) < dv.tags.len() {
                assert(seq_lt(key, old(self).tags@[pos as int].start_tag@));
                lemma_seq_lt_asym(key, dv.tags[pos as int].start_tag);
            }
            lemma_tag_pos_pinned(dv.tags, key, pos as int, 0);
            assert(self@.tags =~= dv.tags.insert(
                pos as int,
                TagEntryV { start_tag: key, end_tag: None, is_void_element: is_void },
            ));
            assert forall|j: int|
                0 <= j < m implies self@.elements[j] =~= spec_shift_elem(
                dv.elements[j],
                pos as int,
            ) by {
                assert(view_sattrs(self.elements@[j].attributes@) =~= view_sattrs(
                    epre[j].attributes@,
                ));
                assert(self.elements@[j].contents@.map_values(|c: ElementContent| c@)
                    =~= epre[j].contents@.map_values(|c: ElementContent| c@));
            }
            assert(self@.elements =~= dv.elements.map_values(
                |e: ElementV| spec_shift_elem(e, pos as int),
            ));
            assert(self@ =~= spec_doc_intern(dv, key, is_void).0);
            assert(pos as int == spec_doc_intern(dv, key, is_void).1);
            assert forall|j: int|
                0 <= j < m implies self.elem_wf(j) && self.elem_tag_name(j) == old(self).elem_tag_name(j) by {
                let eo = epre[j];
                let en = self.elements@[j];
                assert(old(self).elem_wf(j));
                if eo.tag >= pos {
                    assert(tpost[eo.tag + 1] == old(self).tags@[eo.tag as int]);
                } else {
                    assert(tpost[eo.tag as int] == old(self).tags@[eo.tag as int]);
                }
                assert forall|k: int|
                    0 <= k < en.contents@.len() implies match #[trigger] en.contents@[k] {
                    ElementContent::Element(j2) => j < j2 < self.elements@.len(),
                    ElementContent::Text(_) => true,
                } by {
                    assert(en.contents@[k] == eo.contents@[k]);
                }
            }
        }
        pos as ElementTagID
    }

    /// Interns a (lowercased) tag name into the registry and returns its id.
    /// A fresh name enters as a non-void tag; element names never change.
    pub fn tag_id_from_string(&mut self, tag_str: &str) -> (id: ElementTagID)
        requires
            old(self).wf(),
            old(self).tags@.len() + 1 < u32::MAX as int,
        ensures
            final(self).wf(),
            id < final(self).tags@.len(),
            final(self).tags@[id as int].start_tag@ == lower_of(tag_str@),
            old(self).tags@.len() <= final(self).tags@.len() <= old(self).tags@.len() + 1,
            final(self).elements@.len() == old(self).elements@.len(),
            final(self).doc_type == old(self).doc_type,
            final(self).html == old(self).html,
            final(self).head == old(self).head,
            final(self).body == old(self).body,
            forall|i: int|
                0 <= i < old(self).elements@.len() ==> (#[trigger] final(self).elements@[i]).attributes
                    == old(self).elements@[i].attributes && final(self).elements@[i].contents == old(
                    self,
                ).elements@[i].contents && final(self).elements@[i].is_comment == old(
                    self,
                ).elements@[i].is_comment && final(self).elem_tag_name(i) == old(self).elem_tag_name(
                    i,
                ),
            final(self)@ == spec_doc_intern(old(self)@, lower_of(tag_str@), false).0,
            id as int == spec_doc_intern(old(self)@, lower_of(tag_str@), false).1,
    {
        self.intern_tag(tag_str, false)
    }

    /// Appends a fresh element for the given tag name (interned lowercase)
    /// and returns its id; ids are stable from then on.
    pub fn create_element(&mut self, tag: &str) -> (id: ElementID)
        requires
            old(self).wf(),
            old(self).elements@.len() + 1 < u32::MAX as int,
            old(self).tags@.len() + 1 < u32::MAX as int,
        ensures
            final(self).wf(),
            id == old(self).elements@.len(),
            final(self).elements@.len() == old(self).elements@.len() + 1,
            old(self).tags@.len() <= final(self).tags@.len() <= old(self).tags@.len() + 1,
            final(self)@ == spec_doc_create_element(old(self)@, lower_of(tag@)).0,
            id as int == spec_doc_create_element(old(self)@, lower_of(tag@)).1,
            final(self).elem_tag_name(id as int) == lower_of(tag@),
            final(self).elements@[id as int].attributes@.len() == 0,
            final(self).elements@[id as int].contents@.len() == 0,
            final(self).elements@[id as int].is_comment == false,
            final(self).doc_type == old(self).doc_type,
            final(self).html == old(self).html,
            final(self).head == old(self).head,
            final(self).body == old(self).body,
            forall|i: int|
                0 <= i < old(self).elements@.len() ==> (#[trigger] final(self).elements@[i]).attributes
                    == old(self).elements@[i].attributes && final(self).elements@[i].contents == old(
                    self,
                ).elements@[i].contents && final(self).elements@[i].is_comment == old(
                    self,
                ).elements@[i].is_comment && final(self).elem_tag_name(i) == old(self).elem_tag_name(
                    i,
                ),
    {
        let tag_id = self.intern_tag(tag, false);
        let ghost mid = *self;
        let id = self.elements.len() as ElementID;
        self.elements.push(
            Element { tag: tag_id, attributes: Vec::new(), contents: Vec::new(), is_comment: false },
        );
        proof {
            assert(view_sattrs(self.elements@[id as int].attributes@) =~= Seq::<(
                Seq<char>,
                Seq<char>,
            )>::empty());
            assert(self.elements@[id as int].contents@.map_values(|c: ElementContent| c@) =~= Seq::<
                ContentV,
            >::empty());
            assert(self@.elements =~= mid.elements@.map_values(|e: Element| e@).push(
                self.elements@[id as int]@,
            ));
            assert(self@ =~= spec_doc_create_element(old(self)@, lower_of(tag@)).0);
            assert(id as int == spec_doc_create_element(old(self)@, lower_of(tag@)).1);
            assert forall|i: int| 0 <= i < self.elements@.len() implies self.elem_wf(i) by {
                if i < id {
                    assert(mid.elem_wf(i));
                    assert(self.elements@[i] == mid.elements@[i]);
                }
            }
            assert forall|i: int|
                0 <= i < old(self).elements@.len() implies (#[trigger] self.elements@[i]).attributes
                == old(self).elements@[i].attributes && self.elements@[i].contents == old(
                self,
            ).elements@[i].contents && self.elements@[i].is_comment == old(
                self,
            ).elements@[i].is_comment && self.elem_tag_name(i) == old(self).elem_tag_name(i) by {
                assert(self.elements@[i] == mid.elements@[i]);
            }
        }
        id
    }

    /// A shared view of one element.
    pub fn get_const_element_by_id(&self, element_id: ElementID) -> (r: &Element)
        requires
            element_id < self.elements@.len(),
        ensures
            *r == self.elements@[element_id as int],
    {
        &self.elements[element_id as usize]
    }

    /// Binds an attribute on an element; the key is lowercased on insert and
    /// keys stay unique.
    pub fn set_attribute(&mut self, element_id: ElementID, key: &String, value: String)
        requires
            old(self).wf(),
            element_id < old(self).elements@.len(),
        ensures
            final(self).wf(),
            final(self).tags == old(self).tags,
            final(self).elements@.len() == old(self).elements@.len(),
            final(self).doc_type == old(self).doc_type,
            final(self).html == old(self).html,
            final(self).head == old(self).head,
            final(self).body == old(self).body,
            forall|i: int|
                0 <= i < old(self).elements@.len() && i != element_id ==> final(self).elements@[i]
                    == old(self).elements@[i],
            ({
                let e0 = old(self).elements@[element_id as int];
                let e1 = final(self).elements@[element_id as int];
                e1.tag == e0.tag && e1.contents == e0.contents && e1.is_comment == e0.is_comment
                    && view_sattrs(e1.attributes@) == sattrs_put(
                    view_sattrs(e0.attributes@),
                    lower_of(key@),
                    value@,
                )
            }),
            final(self)@ == spec_doc_set_attribute(
                old(self)@,
                element_id as int,
                lower_of(key@),
                value@,
            ),
    {
        let lk = to_lowercase(key.as_str());
        let mut e = blank_element();
        self.elements.set_and_swap(element_id as usize, &mut e);
        sattrs_insert(&mut e.attributes, lk, value);
        self.elements.set(element_id as usize, e);
        proof {
            assert forall|i: int| 0 <= i < self.elements@.len() implies self.elem_wf(i) by {
                assert(old(self).elem_wf(i));
                if i != element_id {
                    assert(self.elements@[i] == old(self).elements@[i]);
                }
            }
            assert(self.elements@[element_id as int].contents@.map_values(
                |c: ElementContent| c@,
            ) =~= old(self).elements@[element_id as int].contents@.map_values(
                |c: ElementContent| c@,
            ));
            assert(self@ =~= spec_doc_set_attribute(
                old(self)@,
                element_id as int,
                lower_of(key@),
                value@,
            ));
        }
    }

    /// Removes an attribute by exact key.
    pub fn remove_attribute(&mut self, element_id: ElementID, key: &String)
        requires
            old(self).wf(),
            element_id < old(self).elements@.len(),
        ensures
            final(self).wf(),
            final(self).tags == old(self).tags,
            final(self).elements@.len() == old(self).elements@.len(),
            final(self).doc_type == old(self).doc_type,
            final(self).html == old(self).html,
            final(self).head == old(self).head,
            final(self).body == old(self).body,
            forall|i: int|
                0 <= i < old(self).elements@.len() && i != element_id ==> final(self).elements@[i]
                    == old(self).elements@[i],
            ({
                let e0 = old(self).elements@[element_id as int];
                let e1 = final(self).elements@[element_id as int];
                e1.tag == e0.tag && e1.contents == e0.contents && e1.is_comment == e0.is_comment
                    && view_sattrs(e1.attributes@) == sattrs_remove(
                    view_sattrs(e0.attributes@),
                    key@,
                )
            }),
    {
        let mut e = blank_element();
        self.elements.set_and_swap(element_id as usize, &mut e);
        sattrs_delete(&mut e.attributes, key.as_str());
        self.elements.set(element_id as usize, e);
        proof {
            assert forall|i: int| 0 <= i < self.elements@.len() implies self.elem_wf(i) by {
                assert(old(self).elem_wf(i));
                if i != element_id {
                    assert(self.elements@[i] == old(self).elements@[i]);
                }
            }
        }
    }

    /// Inserts a content item at a position of an element's content list.
    /// A nested element must have been created after its parent, so the
    /// element graph stays a forest.
    pub fn insert_content_at(&mut self, element_id: ElementID, index: usize, element: ElementContent)
        requires
            old(self).wf(),
            element_id < old(self).elements@.len(),
            index <= old(self).elements@[element_id as int].contents@.len(),
            match element {
                ElementContent::Element(j) => element_id < j < old(self).elements@.len(),
                ElementContent::Text(_) => true,
            },
        ensures
            final(self).wf(),
            final(self).tags == old(self).tags,
            final(self).elements@.len() == old(self).elements@.len(),
            final(self).doc_type == old(self).doc_type,
            final(self).html == old(self).html,
            final(self).head == old(self).head,
            final(self).body == old(self).body,
            forall|i: int|
                0 <= i < old(self).elements@.len() && i != element_id ==> final(self).elements@[i]
                    == old(self).elements@[i],
            ({
                let e0 = old(self).elements@[element_id as int];
                let e1 = final(self).elements@[element_id as int];
                e1.tag == e0.tag && e1.attributes == e0.attributes && e1.is_comment
                    == e0.is_comment && e1.contents@ == e0.contents@.insert(index as int, element)
            }),
    {
        let mut e = blank_element();
        self.elements.set_and_swap(element_id as usize, &mut e);
        e.contents.insert(index, element);
        self.elements.set(element_id as usize, e);
        proof {
            old(self).elements@[element_id as int].contents@.insert_ensures(index as int, element);
            assert forall|i: int| 0 <= i < self.elements@.len() implies self.elem_wf(i) by {
                assert(old(self).elem_wf(i));
                if i != element_id {
                    assert(self.elements@[i] == old(self).elements@[i]);
                }
            }
        }
    }

    /// Appends a content item to an element's content list.
    pub fn push_content(&mut self, element_id: ElementID, element: ElementContent)
        requires
            old(self).wf(),
            element_id < old(self).elements@.len(),
            match element {
                ElementContent::Element(j) => element_id < j < old(self).elements@.len(),
                ElementContent::Text(_) => true,
            },
        ensures
            final(self).wf(),
            final(self).tags == old(self).tags,
            final(self).elements@.len() == old(self).elements@.len(),
            final(self).doc_type == old(self).doc_type,
            final(self).html == old(self).html,
            final(self).head == old(self).head,
            final(self).body == old(self).body,
            forall|i: int|
                0 <= i < old(self).elements@.len() && i != element_id ==> final(self).elements@[i]
                    == old(self).elements@[i],
            ({
                let e0 = old(self).elements@[element_id as int];
                let e1 = final(self).elements@[element_id as int];
                e1.tag == e0.tag && e1.attributes == e0.attributes && e1.is_comment
                    == e0.is_comment && e1.contents@ == e0.contents@.push(element)
            }),
            final(self)@ == spec_doc_push_content(old(self)@, element_id as int, element@),
    {
        let len = self.elements[element_id as usize].contents.len();
        self.insert_content_at(element_id, len, element);
        proof {
            assert(self.elements@[element_id as int].contents@ =~= old(
                self,
            ).elements@[element_id as int].contents@.push(element));
            assert(self.elements@[element_id as int].contents@.map_values(|c: ElementContent| c@)
                =~= old(self).elements@[element_id as int].contents@.map_values(
                |c: ElementContent| c@,
            ).push(element@));
            assert(view_sattrs(self.elements@[element_id as int].attributes@) =~= view_sattrs(
                old(self).elements@[element_id as int].attributes@,
            ));
            assert(self@ =~= spec_doc_push_content(old(self)@, element_id as int, element@));
        }
    }

    /// Removes the content item at a position of an element's content list.
    pub fn remove_content(&mut self, element_id: ElementID, index: usize)
        requires
            old(self).wf(),
            element_id < old(self).elements@.len(),
            index < old(self).elements@[element_id as int].contents@.len(),
        ensures
            final(self).wf(),
            final(self).tags == old(self).tags,
            final(self).elements@.len() == old(self).elements@.len(),
            final(self).doc_type == old(self).doc_type,
            final(self).html == old(self).html,
            final(self).head == old(self).head,
            final(self).body == old(self).body,
            forall|i: int|
                0 <= i < old(self).elements@.len() && i != element_id ==> final(self).elements@[i]
                    == old(self).elements@[i],
            ({
                let e0 = old(self).elements@[element_id as int];
                let e1 = final(self).elements@[element_id as int];
                e1.tag == e0.tag && e1.attributes == e0.attributes && e1.is_comment
                    == e0.is_comment && e1.contents@ == e0.contents@.remove(index as int)
            }),
    {
        let mut e = blank_element();
        self.elements.set_and_swap(element_id as usize, &mut e);
        let _ = e.contents.remove(index);
        self.elements.set(element_id as usize, e);
        proof {
            let c0 = old(self).elements@[element_id as int].contents@;
            assert forall|i: int| 0 <= i < self.elements@.len() implies self.elem_wf(i) by {
                assert(old(self).elem_wf(i));
                if i != element_id {
                    assert(self.elements@[i] == old(self).elements@[i]);
                } else {
                    assert forall|k: int|
                        0 <= k < self.elements@[i].contents@.len() implies match #[trigger] self.elements@[i].contents@[k] {
                        ElementContent::Element(j) => i < j < self.elements@.len(),
                        ElementContent::Text(_) => true,
                    } by {
                        let ko: int = if k < index { k } else { k + 1 };
                        assert(self.elements@[i].contents@[k] == c0[ko]);
                    }
                }
            }
        }
    }

    /// Sets whether the element renders wrapped in comment markers.
    pub fn set_is_comment(&mut self, element_id: ElementID, value: bool)
        requires
            old(self).wf(),
            element_id < old(self).elements@.len(),
        ensures
            final(self).wf(),
            final(self).tags == old(self).tags,
            final(self).elements@.len() == old(self).elements@.len(),
            final(self).doc_type == old(self).doc_type,
            final(self).html == old(self).html,
            final(self).head == old(self).head,
            final(self).body == old(self).body,
            forall|i: int|
                0 <= i < old(self).elements@.len() && i != element_id ==> final(self).elements@[i]
                    == old(self).elements@[i],
            ({
                let e0 = old(self).elements@[element_id as int];
                let e1 = final(self).elements@[element_id as int];
                e1.tag == e0.tag && e1.attributes == e0.attributes && e1.contents == e0.contents
                    && e1.is_comment == value
            }),
    {
        let mut e = blank_element();
        self.elements.set_and_swap(element_id as usize, &mut e);
        e.is_comment = value;
        self.elements.set(element_id as usize, e);
        proof {
            assert forall|i: int| 0 <= i < self.elements@.len() implies self.elem_wf(i) by {
                assert(old(self).elem_wf(i));
                if i != element_id {
                    assert(self.elements@[i] == old(self).elements@[i]);
                }
            }
        }
    }
}

// ---------------------------------------------------------------------------
// Rendering
// ---------------------------------------------------------------------------

/// The text of one rendered attribute: a space and the key, and for a
/// non-empty value `="value"`.
pub open spec fn spec_attr_item(p: (Seq<char>, Seq<char>)) -> Seq<char> {
    seq![' '] + p.0 + (if p.1.len() == 0 {
        Seq::<char>::empty()
    } else {
        seq!['=', '"'] + p.1 + seq!['"']
    })
}

/// The rendered attribute text from position `k` on.
pub open spec fn spec_attrs_from(attrs: Seq<(Seq<char>, Seq<char>)>, k: int) -> Seq<char>
    decreases attrs.len() - k,
{
    if k < 0 || k >= attrs.len() {
        Seq::empty()
    } else {
        spec_attr_item(attrs[k]) + spec_attrs_from(attrs, k + 1)
    }
}

/// The name in an element's closing tag: the explicit end name when one was
/// set, else the start name again.
pub open spec fn spec_end_name(t: ElementTag) -> Seq<char> {
    match t.end_tag {
        Some(e) => e@,
        None => t.start_tag@,
    }
}

/// What rendering element `id` of `doc` emits: the start tag line with its
/// attribute text, then (unless the tag is void) the contents in order and a
/// closing tag line, all wrapped in comment markers when the comment flag is
/// set.
pub open spec fn spec_render_element(doc: Document, id: int) -> Seq<char>
    decreases doc.elements@.len() - id, 1int, 0int,
{
    if 0 <= id < doc.elements@.len() && doc.elements@[id].tag < doc.tags@.len() {
        let e = doc.elements@[id];
        let tagd = doc.tags@[e.tag as int];
        (if e.is_comment {
            seq!['<', '!', '-', '-', '\n']
        } else {
            Seq::<char>::empty()
        }) + seq!['<'] + tagd.start_tag@ + spec_attrs_from(view_sattrs(e.attributes@), 0) + seq![
            '>',
            '\n',
        ] + (if tagd.is_void_element {
            Seq::<char>::empty()
        } else {
            spec_render_contents(doc, id, e.contents@, 0) + seq!['<', '/'] + spec_end_name(tagd)
                + seq!['>', '\n']
        }) + (if e.is_comment {
            seq!['-', '-', '>', '\n']
        } else {
            Seq::<char>::empty()
        })
    } else {
        Seq::empty()
    }
}

/// What rendering an element's content list emits, from position `k` on:
/// nested elements render in full, text is emitted verbatim.
pub open spec fn spec_render_contents(
    doc: Document,
    id: int,
    items: Seq<ElementContent>,
    k: int,
) -> Seq<char>
    decreases doc.elements@.len() - id, 0int, items.len() - k,
{
    if k < 0 || k >= items.len() {
        Seq::empty()
    } else {
        (match items[k] {
            ElementContent::Element(j) => if id < j < doc.elements@.len() {
                spec_render_element(doc, j as int)
            } else {
                Seq::empty()
            },
            ElementContent::Text(t) => t@,
        }) + spec_render_contents(doc, id, items, k + 1)
    }
}

/// What rendering one content item emits.
pub open spec fn spec_render_content_item(doc: Document, item: ElementContent) -> Seq<char> {
    match item {
        ElementContent::Element(j) => if 0 <= j < doc.elements@.len() {
            spec_render_element(doc, j as int)
        } else {
            Seq::empty()
        },
        ElementContent::Text(t) => t@,
    }
}

/// Appends the rendered attribute text of a whole attribute list.
#[verifier::loop_isolation(false)]
fn render_attrs(writer: &mut String, attrs: &Vec<(String, String)>)
    ensures
        final(writer)@ == old(writer)@ + spec_attrs_from(view_sattrs(attrs@), 0),
{
    let ghost va = view_sattrs(attrs@);
    let ghost w1 = writer@;
    let n = attrs.len();
    let mut k: usize = 0;
    while k < n
        invariant
            k <= n,
            n == attrs@.len(),
            writer@ + spec_attrs_from(va, k as int) == w1 + spec_attrs_from(va, 0),
        decreases n - k,
    {
        let ghost wpre = writer@;
        push_char(writer, ' ');
        writer.append(attrs[k].0.as_str());
        if !attrs[k].1.as_str().is_empty() {
            push_char(writer, '=');
            push_char(writer, '"');
            writer.append(attrs[k].1.as_str());
            push_char(writer, '"');
        }
        proof {
            assert(writer@ =~= wpre + spec_attr_item(va[k as int]));
            assert(writer@ + spec_attrs_from(va, k + 1) =~= wpre + spec_attrs_from(va, k as int));
        }
        k = k + 1;
    }
}

/// Appends what a content list renders as, in order.
#[verifier::loop_isolation(false)]
fn render_contents_list(
    writer: &mut String,
    contents: &Vec<ElementContent>,
    doc: &Document,
    Ghost(id): Ghost<int>,
)
    requires
        doc.wf(),
        0 <= id < doc.elements@.len(),
        forall|k: int|
            0 <= k < contents@.len() ==> match #[trigger] contents@[k] {
                ElementContent::Element(j) => id < j < doc.elements@.len(),
                ElementContent::Text(_) => true,
            },
    ensures
        final(writer)@ == old(writer)@ + spec_render_contents(*doc, id, contents@, 0),
    decreases doc.elements@.len() - id, 0int, 0int,
{
    let ghost w2 = writer@;
    let m = contents.len();
    let mut j: usize = 0;
    while j < m
        invariant
            j <= m,
            m == contents@.len(),
            writer@ + spec_render_contents(*doc, id, contents@, j as int) == w2
                + spec_render_contents(*doc, id, contents@, 0),
        decreases m - j,
    {
        let ghost wpre = writer@;
        match &contents[j] {
            ElementContent::Element(eid) => {
                let nested = &doc.elements[*eid as usize];
                nested.render(writer, doc, Ghost(*eid as int));
            },
            ElementContent::Text(txt) => {
                writer.append(txt.as_str());
            },
        }
        proof {
            assert(writer@ + spec_render_contents(*doc, id, contents@, j + 1) =~= wpre
                + spec_render_contents(*doc, id, contents@, j as int));
        }
        j = j + 1;
    }
}

impl Element {
    /// Serializes this element (which must be `doc`'s element `id`) onto
    /// the end of `writer`.
    #[verifier::loop_isolation(false)]
    #[verifier::rlimit(100)]
    #[verifier::spinoff_prover]
    pub fn render(&self, writer: &mut String, doc: &Document, Ghost(id): Ghost<int>)
        requires
            doc.wf(),
            0 <= id < doc.elements@.len(),
            *self == doc.elements@[id],
        ensures
            final(writer)@ == old(writer)@ + spec_render_element(*doc, id),
        decreases doc.elements@.len() - id, 1int, 0int,
    {
        proof {
            assert(doc.elem_wf(id));
        }
        let ghost e = doc.elements@[id];
        let ghost tagd = doc.tags@[e.tag as int];
        let ghost part_copen: Seq<char> = if e.is_comment {
            seq!['<', '!', '-', '-', '\n']
        } else {
            Seq::<char>::empty()
        };
        let tag_data = &doc.tags[self.tag as usize];
        if self.is_comment {
            push_char(writer, '<');
            push_char(writer, '!');
            push_char(writer, '-');
            push_char(writer, '-');
            push_char(writer, '\n');
        }
        proof {
            assert(writer@ =~= old(writer)@ + part_copen);
        }
        push_char(writer, '<');
        writer.append(tag_data.start_tag.as_str());
        render_attrs(writer, &self.attributes);
        push_char(writer, '>');
        push_char(writer, '\n');
        let ghost va = view_sattrs(e.attributes@);
        let ghost part_head = part_copen + (seq!['<'] + tagd.start_tag@ + spec_attrs_from(va, 0)
            + seq!['>', '\n']);
        proof {
            assert(writer@ =~= old(writer)@ + part_head);
        }
        if !tag_data.is_void_element {
            render_contents_list(writer, &self.contents, doc, Ghost(id));
            push_char(writer, '<');
            push_char(writer, '/');
            match &tag_data.end_tag {
                Some(end) => {
                    writer.append(end.as_str());
                },
                None => {
                    writer.append(tag_data.start_tag.as_str());
                },
            }
            push_char(writer, '>');
            push_char(writer, '\n');
            proof {
                assert(writer@ =~= old(writer)@ + part_head + (spec_render_contents(
                    *doc,
                    id,
                    e.contents@,
                    0,
                ) + seq!['<', '/'] + spec_end_name(tagd) + seq!['>', '\n']));
            }
        }
        let ghost part_body: Seq<char> = if tagd.is_void_element {
            Seq::<char>::empty()
        } else {
            spec_render_contents(*doc, id, e.contents@, 0) + seq!['<', '/'] + spec_end_name(tagd)
                + seq!['>', '\n']
        };
        proof {
            assert(writer@ =~= old(writer)@ + part_head + part_body);
        }
        if self.is_comment {
            push_char(writer, '-');
            push_char(writer, '-');
            push_char(writer, '>');
            push_char(writer, '\n');
        }
        proof {
            let part_cclose: Seq<char> = if e.is_comment {
                seq!['-', '-', '>', '\n']
            } else {
                Seq::<char>::empty()
            };
            assert(writer@ =~= old(writer)@ + part_head + part_body + part_cclose);
            assert(spec_render_element(*doc, id) =~= part_head + part_body + part_cclose);
            assert(writer@ =~= old(writer)@ + spec_render_element(*doc, id));
        }
    }
}

impl Document {
    /// Serializes one element of this document onto the end of `writer`.
    pub fn render(&self, writer: &mut String, element_id: ElementID)
        requires
            self.wf(),
            element_id < self.elements@.len(),
        ensures
            final(writer)@ == old(writer)@ + spec_render_element(*self, element_id as int),
    {
        let e = &self.elements[element_id as usize];
        e.render(writer, self, Ghost(element_id as int));
    }

    /// Serializes one content item onto the end of `writer`: a nested
    /// element in full, text verbatim.
    pub fn render_content(&self, writer: &mut String, element_content: &ElementContent)
        requires
            self.wf(),
            match *element_content {
                ElementContent::Element(j) => j < self.elements@.len(),
                ElementContent::Text(_) => true,
            },
        ensures
            final(writer)@ == old(writer)@ + spec_render_content_item(*self, *element_content),
    {
        match element_content {
            ElementContent::Element(element_id) => {
                self.render(writer, *element_id);
            },
            ElementContent::Text(txt) => {
                writer.append(txt.as_str());
            },
        }
    }
}

/// Rendering an element that has no attributes, no contents, and no comment
/// flag yields exactly the bare start tag line, followed by a closing tag
/// line unless its tag is void, with no attribute text at all.
pub proof fn lemma_render_bare_element(doc: Document, id: int)
    requires
        doc.wf(),
        0 <= id < doc.elements@.len(),
        doc.elements@[id].attributes@.len() == 0,
        doc.elements@[id].contents@.len() == 0,
        !doc.elements@[id].is_comment,
    ensures
        ({
            let e = doc.elements@[id];
            let tagd = doc.tags@[e.tag as int];
            spec_render_element(doc, id) == if tagd.is_void_element {
                seq!['<'] + tagd.start_tag@ + seq!['>', '\n']
            } else {
                seq!['<'] + tagd.start_tag@ + seq!['>', '\n'] + (seq!['<', '/'] + spec_end_name(
                    tagd,
                ) + seq!['>', '\n'])
            }
        }),
{
    assert(doc.elem_wf(id));
    let e = doc.elements@[id];
    let tagd = doc.tags@[e.tag as int];
    assert(view_sattrs(e.attributes@).len() == 0);
    if tagd.is_void_element {
        assert(spec_render_element(doc, id) =~= seq!['<'] + tagd.start_tag@ + seq!['>', '\n']);
    } else {
        assert(spec_render_element(doc, id) =~= seq!['<'] + tagd.start_tag@ + seq!['>', '\n'] + (
        seq!['<', '/'] + spec_end_name(tagd) + seq!['>', '\n']));
    }
}

// ---------------------------------------------------------------------------
// Escaping
// ---------------------------------------------------------------------------

/// What one character escapes to: the five HTML-special characters become
/// named or numbered entities, everything else passes through.
pub open spec fn spec_escape_char(c: char) -> Seq<char> {
    if c == '&' {
        seq!['&', 'a', 'm', 'p', ';']
    } else if c == '<' {
        seq!['&', 'l', 't', ';']
    } else if c == '>' {
        seq!['&', 'g', 't', ';']
    } else if c == '"' {
        seq!['&', 'q', 'u', 'o', 't', ';']
    } else if c == '\'' {
        seq!['&', '#', '0', '3', '9', ';']
    } else {
        seq![c]
    }
}

/// The escaped form of a text, from position `i` on.
pub open spec fn spec_escaped_from(s: Seq<char>, i: int) -> Seq<char>
    decreases s.len() - i,
{
    if i < 0 || i >= s.len() {
        Seq::empty()
    } else {
        spec_escape_char(s[i]) + spec_escaped_from(s, i + 1)
    }
}

/// The escaped form of a text.
pub open spec fn spec_escaped(s: Seq<char>) -> Seq<char> {
    spec_escaped_from(s, 0)
}

fn push_escaped_char(out: &mut String, c: char)
    ensures
        final(out)@ == old(out)@ + spec_escape_char(c),
{
    match c {
        '&' => {
            push_char(out, '&');
            push_char(out, 'a');
            push_char(out, 'm');
            push_char(out, 'p');
            push_char(out, ';');
        },
        '<' => {
            push_char(out, '&');
            push_char(out, 'l');
            push_char(out, 't');
            push_char(out, ';');
        },
        '>' => {
            push_char(out, '&');
            push_char(out, 'g');
            push_char(out, 't');
            push_char(out, ';');
        },
        '"' => {
            push_char(out, '&');
            push_char(out, 'q');
            push_char(out, 'u');
            push_char(out, 'o');
            push_char(out, 't');
            push_char(out, ';');
        },
        '\'' => {
            push_char(out, '&');
            push_char(out, '#');
            push_char(out, '0');
            push_char(out, '3');
            push_char(out, '9');
            push_char(out, ';');
        },
        _ => {
            push_char(out, c);
        },
    }
}

/// Replaces the five HTML-special characters of a text with their entities,
/// so the result can stand as element content.
#[verifier::loop_isolation(false)]
pub fn escape(text: &str) -> (r: String)
    ensures
        r@ == spec_escaped(text@),
{
    let n = text.unicode_len();
    let mut out = String::new();
    let mut i: usize = 0;
    while i < n
        invariant
            i <= n,
            n == text@.len(),
            out@ + spec_escaped_from(text@, i as int) == spec_escaped(text@),
        decreases n - i,
    {
        let c = text.get_char(i);
        push_escaped_char(&mut out, c);
        i = i + 1;
    }
    out
}

/// Appends a `<meta name content>` element to the document and returns its
/// id; the caller attaches it where it belongs.
pub fn create_meta_tag(doc: &mut Document, name: String, content: String) -> (id: ElementID)
    requires
        old(doc).wf(),
        old(doc).elements@.len() + 1 < u32::MAX as int,
        old(doc).tags@.len() + 1 < u32::MAX as int,
    ensures
        final(doc).wf(),
        id == old(doc).elements@.len(),
        final(doc).elements@.len() == old(doc).elements@.len() + 1,
        old(doc).tags@.len() <= final(doc).tags@.len() <= old(doc).tags@.len() + 1,
        final(doc).elem_tag_name(id as int) == lower_of("meta"@),
        ({
            let e = final(doc).elements@[id as int];
            view_sattrs(e.attributes@) == sattrs_put(
                sattrs_put(Seq::empty(), lower_of("name"@), name@),
                lower_of("content"@),
                content@,
            ) && e.contents@.len() == 0 && e.is_comment == false
        }),
        final(doc).doc_type == old(doc).doc_type,
        final(doc).html == old(doc).html,
        final(doc).head == old(doc).head,
        final(doc).body == old(doc).body,
        forall|i: int|
            0 <= i < old(doc).elements@.len() ==> (#[trigger] final(doc).elements@[i]).attributes
                == old(doc).elements@[i].attributes && final(doc).elements@[i].contents == old(
                doc,
            ).elements@[i].contents && final(doc).elements@[i].is_comment == old(
                doc,
            ).elements@[i].is_comment && final(doc).elem_tag_name(i) == old(doc).elem_tag_name(i),
    {
    let result = doc.create_element("meta");
    proof {
        assert(view_sattrs(doc.elements@[result as int].attributes@) =~= Seq::<(
            Seq<char>,
            Seq<char>,
        )>::empty());
    }
    doc.set_attribute(result, &String::from_str("name"), name);
    doc.set_attribute(result, &String::from_str("content"), content);
    result
}

/// The standard registry the default document is seeded with: the element
/// tag names, lowercase and strictly sorted, each with its void flag.
pub open spec fn spec_standard_tags() -> Seq<TagEntryV> {
    seq![
        TagEntryV { start_tag: "!doctype"@, end_tag: None, is_void_element: true },
        TagEntryV { start_tag: "a"@, end_tag: None, is_void_element: false },
        TagEntryV { start_tag: "abbr"@, end_tag: None, is_void_element: false },
        TagEntryV { start_tag: "address"@, end_tag: None, is_void_element: false },
        TagEntryV { start_tag: "area"@, end_tag: None, is_void_element: true },
        TagEntryV { start_tag: "article"@, end_tag: None, is_void_element: false },
        TagEntryV { start_tag: "aside"@, end_tag: None, is_void_element: false },
        TagEntryV { start_tag: "audio"@, end_tag: None, is_void_element: false },
        TagEntryV { start_tag: "b"@, end_tag: None, is_void_element: false },
        TagEntryV { start_tag: "base"@, end_tag: None, is_void_element: true },
        TagEntryV { start_tag: "bdi"@, end_tag: None, is_void_element: false },
        TagEntryV { start_tag: "bdo"@, end_tag: None, is_void_element: false },
        TagEntryV { start_tag: "blockquote"@, end_tag: None, is_void_element: false },
        TagEntryV { start_tag: "body"@, end_tag: None, is_void_element: false },
        TagEntryV { start_tag: "br"@, end_tag: None, is_void_element: true },
        TagEntryV { start_tag: "button"@, end_tag: None, is_void_element: false },
        TagEntryV { start_tag: "canvas"@, end_tag: None, is_void_element: false },
        TagEntryV { start_tag: "caption"@, end_tag: None, is_void_element: false },
        TagEntryV { start_tag: "cite"@, end_tag: None, is_void_element: false },
        TagEntryV { start_tag: "code"@, end_tag: None, is_void_element: false },
        TagEntryV { start_tag: "col"@, end_tag: None, is_void_element: true },
        TagEntryV { start_tag: "colgroup"@, end_tag: None, is_void_element: false },
        TagEntryV { start_tag: "data"@, end_tag: None, is_void_element: false },
        TagEntryV { start_tag: "datalist"@, end_tag: None, is_void_element: false },
        TagEntryV { start_tag: "dd"@, end_tag: None, is_void_element: false },
        TagEntryV { start_tag: "del"@, end_tag: None, is_void_element: false },
        TagEntryV { start_tag: "details"@, end_tag: None, is_void_element: false },
        TagEntryV { start_tag: "dfn"@, end_tag: None, is_void_element: false },
        TagEntryV { start_tag: "dialog"@, end_tag: None, is_void_element: false },
        TagEntryV { start_tag: "div"@, end_tag: None, is_void_element: false },
        TagEntryV { start_tag: "dt"@, end_tag: None, is_void_element: false },
        TagEntryV { start_tag: "em"@, end_tag: None, is_void_element: false },
        TagEntryV { start_tag: "embed"@, end_tag: None, is_void_element: true },
        TagEntryV { start_tag: "fieldset"@, end_tag: None, is_void_element: false },
        TagEntryV { start_tag: "figcaption"@, end_tag: None, is_void_element: false },
        TagEntryV { start_tag: "figure"@, end_tag: None, is_void_element: false },
        TagEntryV { start_tag: "footer"@, end_tag: None, is_void_element: false },
        TagEntryV { start_tag: "form"@, end_tag: None, is_void_element: false },
        TagEntryV { start_tag: "h1"@, end_tag: None, is_void_element: false },
        TagEntryV { start_tag: "h2"@, end_tag: None, is_void_element: false },
        TagEntryV { start_tag: "h3"@, end_tag: None, is_void_element: false },
        TagEntryV { start_tag: "h4"@, end_tag: None, is_void_element: false },
        TagEntryV { start_tag: "h5"@, end_tag: None, is_void_element: false },
        TagEntryV { start_tag: "h6"@, end_tag: None, is_void_element: false },
        TagEntryV { start_tag: "head"@, end_tag: None, is_void_element: false },
        TagEntryV { start_tag: "header"@, end_tag: None, is_void_element: false },
        TagEntryV { start_tag: "hgroup"@, end_tag: None, is_void_element: false },
        TagEntryV { start_tag: "hr"@, end_tag: None, is_void_element: true },
        TagEntryV { start_tag: "html"@, end_tag: None, is_void_element: false },
        TagEntryV { start_tag: "i"@, end_tag: None, is_void_element: false },
        TagEntryV { start_tag: "iframe"@, end_tag: None, is_void_element: false },
        TagEntryV { start_tag: "img"@, end_tag: None, is_void_element: true },
        TagEntryV { start_tag: "input"@, end_tag: None, is_void_element: true },
        TagEntryV { start_tag: "ins"@, end_tag: None, is_void_element: false },
        TagEntryV { start_tag: "kbd"@, end_tag: None, is_void_element: false },
        TagEntryV { start_tag: "label"@, end_tag: None, is_void_element: false },
        TagEntryV { start_tag: "legend"@, end_tag: None, is_void_element: false },
        TagEntryV { start_tag: "li"@, end_tag: None, is_void_element: false },
        TagEntryV { start_tag: "link"@, end_tag: None, is_void_element: true },
        TagEntryV { start_tag: "map"@, end_tag: None, is_void_element: false },
        TagEntryV { start_tag: "mark"@, end_tag: None, is_void_element: false },
        TagEntryV { start_tag: "math"@, end_tag: None, is_void_element: false },
        TagEntryV { start_tag: "menu"@, end_tag: None, is_void_element: false },
        TagEntryV { start_tag: "meta"@, end_tag: None, is_void_element: true },
        TagEntryV { start_tag: "meter"@, end_tag: None, is_void_element: false },
        TagEntryV { start_tag: "nav"@, end_tag: None, is_void_element: false },
        TagEntryV { start_tag: "noscript"@, end_tag: None, is_void_element: false },
        TagEntryV { start_tag: "object"@, end_tag: None, is_void_element: false },
        TagEntryV { start_tag: "ol"@, end_tag: None, is_void_element: false },
        TagEntryV { start_tag: "optgroup"@, end_tag: None, is_void_element: false },
        TagEntryV { start_tag: "option"@, end_tag: None, is_void_element: false },
        TagEntryV { start_tag: "output"@, end_tag: None, is_void_element: false },
        TagEntryV { start_tag: "p"@, end_tag: None, is_void_element: false },
        TagEntryV { start_tag: "picture"@, end_tag: None, is_void_element: false },
        TagEntryV { start_tag: "portal"@, end_tag: None, is_void_element: false },
        TagEntryV { start_tag: "pre"@, end_tag: None, is_void_element: false },
        TagEntryV { start_tag: "progress"@, end_tag: None, is_void_element: false },
        TagEntryV { start_tag: "q"@, end_tag: None, is_void_element: false },
        TagEntryV { start_tag: "rp"@, end_tag: None, is_void_element: false },
        TagEntryV { start_tag: "rt"@, end_tag: None, is_void_element: false },
        TagEntryV { start_tag: "ruby"@, end_tag: None, is_void_element: false },
        TagEntryV { start_tag: "s"@, end_tag: None, is_void_element: false },
        TagEntryV { start_tag: "samp"@, end_tag: None, is_void_element: false },
        TagEntryV { start_tag: "script"@, end_tag: None, is_void_element: false },
        TagEntryV { start_tag: "search"@, end_tag: None, is_void_element: false },
        TagEntryV { start_tag: "section"@, end_tag: None, is_void_element: false },
        TagEntryV { start_tag: "select"@, end_tag: None, is_void_element: false },
        TagEntryV { start_tag: "slot"@, end_tag: None, is_void_element: false },
        TagEntryV { start_tag: "small"@, end_tag: None, is_void_element: false },
        TagEntryV { start_tag: "source"@, end_tag: None, is_void_element: true },
        TagEntryV { start_tag: "span"@, end_tag: None, is_void_element: false },
        TagEntryV { start_tag: "strong"@, end_tag: None, is_void_element: false },
        TagEntryV { start_tag: "style"@, end_tag: None, is_void_element: false },
        TagEntryV { start_tag: "sub"@, end_tag: None, is_void_element: false },
        TagEntryV { start_tag: "summary"@, end_tag: None, is_void_element: false },
        TagEntryV { start_tag: "sup"@, end_tag: None, is_void_element: false },
        TagEntryV { start_tag: "svg"@, end_tag: None, is_void_element: false },
        TagEntryV { start_tag: "table"@, end_tag: None, is_void_element: false },
        TagEntryV { start_tag: "tbody"@, end_tag: None, is_void_element: false },
        TagEntryV { start_tag: "td"@, end_tag: None, is_void_element: false },
        TagEntryV { start_tag: "template"@, end_tag: None, is_void_element: false },
        TagEntryV { start_tag: "textarea"@, end_tag: None, is_void_element: false },
        TagEntryV { start_tag: "tfoot"@, end_tag: None, is_void_element: false },
        TagEntryV { start_tag: "th"@, end_tag: None, is_void_element: false },
        TagEntryV { start_tag: "thead"@, end_tag: None, is_void_element: false },
        TagEntryV { start_tag: "time"@, end_tag: None, is_void_element: false },
        TagEntryV { start_tag: "title"@, end_tag: None, is_void_element: false },
        TagEntryV { start_tag: "tr"@, end_tag: None, is_void_element: false },
        TagEntryV { start_tag: "track"@, end_tag: None, is_void_element: true },
        TagEntryV { start_tag: "u"@, end_tag: None, is_void_element: false },
        TagEntryV { start_tag: "ul"@, end_tag: None, is_void_element: false },
        TagEntryV { start_tag: "var"@, end_tag: None, is_void_element: false },
        TagEntryV { start_tag: "video"@, end_tag: None, is_void_element: false },
        TagEntryV { start_tag: "wbr"@, end_tag: None, is_void_element: true },
    ]
}

#[verifier::rlimit(100)]
#[verifier::spinoff_prover]
proof fn lemma_standard_tags_adjacent_0(i: int)
    requires
        0 <= i < 29,
    ensures
        seq_lt(spec_standard_tags()[i].start_tag, spec_standard_tags()[i + 1].start_tag),
{
    if i == 0 {
        assert(spec_standard_tags()[0].start_tag == "!doctype"@);
        assert(spec_standard_tags()[1].start_tag == "a"@);
        assert(seq_lt("!doctype"@, "a"@)) by {
            reveal_strlit("!doctype");
            reveal_strlit("a");
            reveal_with_fuel(seq_lt_from, 7);
        }
    }
    if i == 1 {
        assert(spec_standard_tags()[1].start_tag == "a"@);
        assert(spec_standard_tags()[2].start_tag == "abbr"@);
        assert(seq_lt("a"@, "abbr"@)) by {
            reveal_strlit("a");
            reveal_strlit("abbr");
            reveal_with_fuel(seq_lt_from, 7);
        }
    }
    if i == 2 {
        assert(spec_standard_tags()[2].start_tag == "abbr"@);
        assert(spec_standard_tags()[3].start_tag == "address"@);
        assert(seq_lt("abbr"@, "address"@)) by {
            reveal_strlit("abbr");
            reveal_strlit("address");
            reveal_with_fuel(seq_lt_from, 7);
        }
    }
    if i == 3 {
        assert(spec_standard_tags()[3].start_tag == "address"@);
        assert(spec_standard_tags()[4].start_tag == "area"@);
        assert(seq_lt("address"@, "area"@)) by {
            reveal_strlit("address");
            reveal_strlit("area");
            reveal_with_fuel(seq_lt_from, 7);
        }
    }
    if i == 4 {
        assert(spec_standard_tags()[4].start_tag == "area"@);
        assert(spec_standard_tags()[5].start_tag == "article"@);
        assert(seq_lt("area"@, "article"@)) by {
            reveal_strlit("area");
            reveal_strlit("article");
            reveal_with_fuel(seq_lt_from, 7);
        }
    }
    if i == 5 {
        assert(spec_standard_tags()[5].start_tag == "article"@);
        assert(spec_standard_tags()[6].start_tag == "aside"@);
        assert(seq_lt("article"@, "aside"@)) by {
            reveal_strlit("article");
            reveal_strlit("aside");
            reveal_with_fuel(seq_lt_from, 7);
        }
    }
    if i == 6 {
        assert(spec_standard_tags()[6].start_tag == "aside"@);
        assert(spec_standard_tags()[7].start_tag == "audio"@);
        assert(seq_lt("aside"@, "audio"@)) by {
            reveal_strlit("aside");
            reveal_strlit("audio");
            reveal_with_fuel(seq_lt_from, 7);
        }
    }
    if i == 7 {
        assert(spec_standard_tags()[7].start_tag == "audio"@);
        assert(spec_standard_tags()[8].start_tag == "b"@);
        assert(seq_lt("audio"@, "b"@)) by {
            reveal_strlit("audio");
            reveal_strlit("b");
            reveal_with_fuel(seq_lt_from, 7);
        }
    }
    if i == 8 {
        assert(spec_standard_tags()[8].start_tag == "b"@);
        assert(spec_standard_tags()[9].start_tag == "base"@);
        assert(seq_lt("b"@, "base"@)) by {
            reveal_strlit("b");
            reveal_strlit("base");
            reveal_with_fuel(seq_lt_from, 7);
        }
    }
    if i == 9 {
        assert(spec_standard_tags()[9].start_tag == "base"@);
        assert(spec_standard_tags()[10].start_tag == "bdi"@);
        assert(seq_lt("base"@, "bdi"@)) by {
            reveal_strlit("base");
            reveal_strlit("bdi");
            reveal_with_fuel(seq_lt_from, 7);
        }
    }
    if i == 10 {
        assert(spec_standard_tags()[10].start_tag == "bdi"@);
        assert(spec_standard_tags()[11].start_tag == "bdo"@);
        assert(seq_lt("bdi"@, "bdo"@)) by {
            reveal_strlit("bdi");
            reveal_strlit("bdo");
            reveal_with_fuel(seq_lt_from, 7);
        }
    }
    if i == 11 {
        assert(spec_standard_tags()[11].start_tag == "bdo"@);
        assert(spec_standard_tags()[12].start_tag == "blockquote"@);
        assert(seq_lt("bdo"@, "blockquote"@)) by {
            reveal_strlit("bdo");
            reveal_strlit("blockquote");
            reveal_with_fuel(seq_lt_from, 7);
        }
    }
    if i == 12 {
        assert(spec_standard_tags()[12].start_tag == "blockquote"@);
        assert(spec_standard_tags()[13].start_tag == "body"@);
        assert(seq_lt("blockquote"@, "body"@)) by {
            reveal_strlit("blockquote");
            reveal_strlit("body");
            reveal_with_fuel(seq_lt_from, 7);
        }
    }
    if i == 13 {
        assert(spec_standard_tags()[13].start_tag == "body"@);
        assert(spec_standard_tags()[14].start_tag == "br"@);
        assert(seq_lt("body"@, "br"@)) by {
            reveal_strlit("body");
            reveal_strlit("br");
            reveal_with_fuel(seq_lt_from, 7);
        }
    }
    if i == 14 {
        assert(spec_standard_tags()[14].start_tag == "br"@);
        assert(spec_standard_tags()[15].start_tag == "button"@);
        assert(seq_lt("br"@, "button"@)) by {
            reveal_strlit("br");
            reveal_strlit("button");
            reveal_with_fuel(seq_lt_from, 7);
        }
    }
    if i == 15 {
        assert(spec_standard_tags()[15].start_tag == "button"@);
        assert(spec_standard_tags()[16].start_tag == "canvas"@);
        assert(seq_lt("button"@, "canvas"@)) by {
            reveal_strlit("button");
            reveal_strlit("canvas");
            reveal_with_fuel(seq_lt_from, 7);
        }
    }
    if i == 16 {
        assert(spec_standard_tags()[16].start_tag == "canvas"@);
        assert(spec_standard_tags()[17].start_tag == "caption"@);
        assert(seq_lt("canvas"@, "caption"@)) by {
            reveal_strlit("canvas");
            reveal_strlit("caption");
            reveal_with_fuel(seq_lt_from, 7);
        }
    }
    if i == 17 {
        assert(spec_standard_tags()[17].start_tag == "caption"@);
        assert(spec_standard_tags()[18].start_tag == "cite"@);
        assert(seq_lt("caption"@, "cite"@)) by {
            reveal_strlit("caption");
            reveal_strlit("cite");
            reveal_with_fuel(seq_lt_from, 7);
        }
    }
    if i == 18 {
        assert(spec_standard_tags()[18].start_tag == "cite"@);
        assert(spec_standard_tags()[19].start_tag == "code"@);
        assert(seq_lt("cite"@, "code"@)) by {
            reveal_strlit("cite");
            reveal_strlit("code");
            reveal_with_fuel(seq_lt_from, 7);
        }
    }
    if i == 19 {
        assert(spec_standard_tags()[19].start_tag == "code"@);
        assert(spec_standard_tags()[20].start_tag == "col"@);
        assert(seq_lt("code"@, "col"@)) by {
            reveal_strlit("code");
            reveal_strlit("col");
            reveal_with_fuel(seq_lt_from, 7);
        }
    }
    if i == 20 {
        assert(spec_standard_tags()[20].start_tag == "col"@);
        assert(spec_standard_tags()[21].start_tag == "colgroup"@);
        assert(seq_lt("col"@, "colgroup"@)) by {
            reveal_strlit("col");
            reveal_strlit("colgroup");
            reveal_with_fuel(seq_lt_from, 7);
        }
    }
    if i == 21 {
        assert(spec_standard_tags()[21].start_tag == "colgroup"@);
        assert(spec_standard_tags()[22].start_tag == "data"@);
        assert(seq_lt("colgroup"@, "data"@)) by {
            reveal_strlit("colgroup");
            reveal_strlit("data");
            reveal_with_fuel(seq_lt_from, 7);
        }
    }
    if i == 22 {
        assert(spec_standard_tags()[22].start_tag == "data"@);
        assert(spec_standard_tags()[23].start_tag == "datalist"@);
        assert(seq_lt("data"@, "datalist"@)) by {
            reveal_strlit("data");
            reveal_strlit("datalist");
            reveal_with_fuel(seq_lt_from, 7);
        }
    }
    if i == 23 {
        assert(spec_standard_tags()[23].start_tag == "datalist"@);
        assert(spec_standard_tags()[24].start_tag == "dd"@);
        assert(seq_lt("datalist"@, "dd"@)) by {
            reveal_strlit("datalist");
            reveal_strlit("dd");
            reveal_with_fuel(seq_lt_from, 7);
        }
    }
    if i == 24 {
        assert(spec_standard_tags()[24].start_tag == "dd"@);
        assert(spec_standard_tags()[25].start_tag == "del"@);
        assert(seq_lt("dd"@, "del"@)) by {
            reveal_strlit("dd");
            reveal_strlit("del");
            reveal_with_fuel(seq_lt_from, 7);
        }
    }
    if i == 25 {
        assert(spec_standard_tags()[25].start_tag == "del"@);
        assert(spec_standard_tags()[26].start_tag == "details"@);
        assert(seq_lt("del"@, "details"@)) by {
            reveal_strlit("del");
            reveal_strlit("details");
            reveal_with_fuel(seq_lt_from, 7);
        }
    }
    if i == 26 {
        assert(spec_standard_tags()[26].start_tag == "details"@);
        assert(spec_standard_tags()[27].start_tag == "dfn"@);
        assert(seq_lt("details"@, "dfn"@)) by {
            reveal_strlit("details");
            reveal_strlit("dfn");
            reveal_with_fuel(seq_lt_from, 7);
        }
    }
    if i == 27 {
        assert(spec_standard_tags()[27].start_tag == "dfn"@);
        assert(spec_standard_tags()[28].start_tag == "dialog"@);
        assert(seq_lt("dfn"@, "dialog"@)) by {
            reveal_strlit("dfn");
            reveal_strlit("dialog");
            reveal_with_fuel(seq_lt_from, 7);
        }
    }
    if i == 28 {
        assert(spec_standard_tags()[28].start_tag == "dialog"@);
        assert(spec_standard_tags()[29].start_tag == "div"@);
        assert(seq_lt("dialog"@, "div"@)) by {
            reveal_strlit("dialog");
            reveal_strlit("div");
            reveal_with_fuel(seq_lt_from, 7);
        }
    }
}

#[verifier::rlimit(100)]
#[verifier::spinoff_prover]
proof fn lemma_standard_tags_adjacent_1(i: int)
    requires
        29 <= i < 58,
    ensures
        seq_lt(spec_standard_tags()[i].start_tag, spec_standard_tags()[i + 1].start_tag),
{
    if i == 29 {
        assert(spec_standard_tags()[29].start_tag == "div"@);
        assert(spec_standard_tags()[30].start_tag == "dt"@);
        assert(seq_lt("div"@, "dt"@)) by {
            reveal_strlit("div");
            reveal_strlit("dt");
            reveal_with_fuel(seq_lt_from, 7);
        }
    }
    if i == 30 {
        assert(spec_standard_tags()[30].start_tag == "dt"@);
        assert(spec_standard_tags()[31].start_tag == "em"@);
        assert(seq_lt("dt"@, "em"@)) by {
            reveal_strlit("dt");
            reveal_strlit("em");
            reveal_with_fuel(seq_lt_from, 7);
        }
    }
    if i == 31 {
        assert(spec_standard_tags()[31].start_tag == "em"@);
        assert(spec_standard_tags()[32].start_tag == "embed"@);
        assert(seq_lt("em"@, "embed"@)) by {
            reveal_strlit("em");
            reveal_strlit("embed");
            reveal_with_fuel(seq_lt_from, 7);
        }
    }
    if i == 32 {
        assert(spec_standard_tags()[32].start_tag == "embed"@);
        assert(spec_standard_tags()[33].start_tag == "fieldset"@);
        assert(seq_lt("embed"@, "fieldset"@)) by {
            reveal_strlit("embed");
            reveal_strlit("fieldset");
            reveal_with_fuel(seq_lt_from, 7);
        }
    }
    if i == 33 {
        assert(spec_standard_tags()[33].start_tag == "fieldset"@);
        assert(spec_standard_tags()[34].start_tag == "figcaption"@);
        assert(seq_lt("fieldset"@, "figcaption"@)) by {
            reveal_strlit("fieldset");
            reveal_strlit("figcaption");
            reveal_with_fuel(seq_lt_from, 7);
        }
    }
    if i == 34 {
        assert(spec_standard_tags()[34].start_tag == "figcaption"@);
        assert(spec_standard_tags()[35].start_tag == "figure"@);
        assert(seq_lt("figcaption"@, "figure"@)) by {
            reveal_strlit("figcaption");
            reveal_strlit("figure");
            reveal_with_fuel(seq_lt_from, 7);
        }
    }
    if i == 35 {
        assert(spec_standard_tags()[35].start_tag == "figure"@);
        assert(spec_standard_tags()[36].start_tag == "footer"@);
        assert(seq_lt("figure"@, "footer"@)) by {
            reveal_strlit("figure");
            reveal_strlit("footer");
            reveal_with_fuel(seq_lt_from, 7);
        }
    }
    if i == 36 {
        assert(spec_standard_tags()[36].start_tag == "footer"@);
        assert(spec_standard_tags()[37].start_tag == "form"@);
        assert(seq_lt("footer"@, "form"@)) by {
            reveal_strlit("footer");
            reveal_strlit("form");
            reveal_with_fuel(seq_lt_from, 7);
        }
    }
    if i == 37 {
        assert(spec_standard_tags()[37].start_tag == "form"@);
        assert(spec_standard_tags()[38].start_tag == "h1"@);
        assert(seq_lt("form"@, "h1"@)) by {
            reveal_strlit("form");
            reveal_strlit("h1");
            reveal_with_fuel(seq_lt_from, 7);
        }
    }
    if i == 38 {
        assert(spec_standard_tags()[38].start_tag == "h1"@);
        assert(spec_standard_tags()[39].start_tag == "h2"@);
        assert(seq_lt("h1"@, "h2"@)) by {
            reveal_strlit("h1");
            reveal_strlit("h2");
            reveal_with_fuel(seq_lt_from, 7);
        }
    }
    if i == 39 {
        assert(spec_standard_tags()[39].start_tag == "h2"@);
        assert(spec_standard_tags()[40].start_tag == "h3"@);
        assert(seq_lt("h2"@, "h3"@)) by {
            reveal_strlit("h2");
            reveal_strlit("h3");
            reveal_with_fuel(seq_lt_from, 7);
        }
    }
    if i == 40 {
        assert(spec_standard_tags()[40].start_tag == "h3"@);
        assert(spec_standard_tags()[41].start_tag == "h4"@);
        assert(seq_lt("h3"@, "h4"@)) by {
            reveal_strlit("h3");
            reveal_strlit("h4");
            reveal_with_fuel(seq_lt_from, 7);
        }
    }
    if i == 41 {
        assert(spec_standard_tags()[41].start_tag == "h4"@);
        assert(spec_standard_tags()[42].start_tag == "h5"@);
        assert(seq_lt("h4"@, "h5"@)) by {
            reveal_strlit("h4");
            reveal_strlit("h5");
            reveal_with_fuel(seq_lt_from, 7);
        }
    }
    if i == 42 {
        assert(spec_standard_tags()[42].start_tag == "h5"@);
        assert(spec_standard_tags()[43].start_tag == "h6"@);
        assert(seq_lt("h5"@, "h6"@)) by {
            reveal_strlit("h5");
            reveal_strlit("h6");
            reveal_with_fuel(seq_lt_from, 7);
        }
    }
    if i == 43 {
        assert(spec_standard_tags()[43].start_tag == "h6"@);
        assert(spec_standard_tags()[44].start_tag == "head"@);
        assert(seq_lt("h6"@, "head"@)) by {
            reveal_strlit("h6");
            reveal_strlit("head");
            reveal_with_fuel(seq_lt_from, 7);
        }
    }
    if i == 44 {
        assert(spec_standard_tags()[44].start_tag == "head"@);
        assert(spec_standard_tags()[45].start_tag == "header"@);
        assert(seq_lt("head"@, "header"@)) by {
            reveal_strlit("head");
            reveal_strlit("header");
            reveal_with_fuel(seq_lt_from, 7);
        }
    }
    if i == 45 {
        assert(spec_standard_tags()[45].start_tag == "header"@);
        assert(spec_standard_tags()[46].start_tag == "hgroup"@);
        assert(seq_lt("header"@, "hgroup"@)) by {
            reveal_strlit("header");
            reveal_strlit("hgroup");
            reveal_with_fuel(seq_lt_from, 7);
        }
    }
    if i == 46 {
        assert(spec_standard_tags()[46].start_tag == "hgroup"@);
        assert(spec_standard_tags()[47].start_tag == "hr"@);
        assert(seq_lt("hgroup"@, "hr"@)) by {
            reveal_strlit("hgroup");
            reveal_strlit("hr");
            reveal_with_fuel(seq_lt_from, 7);
        }
    }
    if i == 47 {
        assert(spec_standard_tags()[47].start_tag == "hr"@);
        assert(spec_standard_tags()[48].start_tag == "html"@);
        assert(seq_lt("hr"@, "html"@)) by {
            reveal_strlit("hr");
            reveal_strlit("html");
            reveal_with_fuel(seq_lt_from, 7);
        }
    }
    if i == 48 {
        assert(spec_standard_tags()[48].start_tag == "html"@);
        assert(spec_standard_tags()[49].start_tag == "i"@);
        assert(seq_lt("html"@, "i"@)) by {
            reveal_strlit("html");
            reveal_strlit("i");
            reveal_with_fuel(seq_lt_from, 7);
        }
    }
    if i == 49 {
        assert(spec_standard_tags()[49].start_tag == "i"@);
        assert(spec_standard_tags()[50].start_tag == "iframe"@);
        assert(seq_lt("i"@, "iframe"@)) by {
            reveal_strlit("i");
            reveal_strlit("iframe");
            reveal_with_fuel(seq_lt_from, 7);
        }
    }
    if i == 50 {
        assert(spec_standard_tags()[50].start_tag == "iframe"@);
        assert(spec_standard_tags()[51].start_tag == "img"@);
        assert(seq_lt("iframe"@, "img"@)) by {
            reveal_strlit("iframe");
            reveal_strlit("img");
            reveal_with_fuel(seq_lt_from, 7);
        }
    }
    if i == 51 {
        assert(spec_standard_tags()[51].start_tag == "img"@);
        assert(spec_standard_tags()[52].start_tag == "input"@);
        assert(seq_lt("img"@, "input"@)) by {
            reveal_strlit("img");
            reveal_strlit("input");
            reveal_with_fuel(seq_lt_from, 7);
        }
    }
    if i == 52 {
        assert(spec_standard_tags()[52].start_tag == "input"@);
        assert(spec_standard_tags()[53].start_tag == "ins"@);
        assert(seq_lt("input"@, "ins"@)) by {
            reveal_strlit("input");
            reveal_strlit("ins");
            reveal_with_fuel(seq_lt_from, 7);
        }
    }
    if i == 53 {
        assert(spec_standard_tags()[53].start_tag == "ins"@);
        assert(spec_standard_tags()[54].start_tag == "kbd"@);
        assert(seq_lt("ins"@, "kbd"@)) by {
            reveal_strlit("ins");
            reveal_strlit("kbd");
            reveal_with_fuel(seq_lt_from, 7);
        }
    }
    if i == 54 {
        assert(spec_standard_tags()[54].start_tag == "kbd"@);
        assert(spec_standard_tags()[55].start_tag == "label"@);
        assert(seq_lt("kbd"@, "label"@)) by {
            reveal_strlit("kbd");
            reveal_strlit("label");
            reveal_with_fuel(seq_lt_from, 7);
        }
    }
    if i == 55 {
        assert(spec_standard_tags()[55].start_tag == "label"@);
        assert(spec_standard_tags()[56].start_tag == "legend"@);
        assert(seq_lt("label"@, "legend"@)) by {
            reveal_strlit("label");
            reveal_strlit("legend");
            reveal_with_fuel(seq_lt_from, 7);
        }
    }
    if i == 56 {
        assert(spec_standard_tags()[56].start_tag == "legend"@);
        assert(spec_standard_tags()[57].start_tag == "li"@);
        assert(seq_lt("legend"@, "li"@)) by {
            reveal_strlit("legend");
            reveal_strlit("li");
            reveal_with_fuel(seq_lt_from, 7);
        }
    }
    if i == 57 {
        assert(spec_standard_tags()[57].start_tag == "li"@);
        assert(spec_standard_tags()[58].start_tag == "link"@);
        assert(seq_lt("li"@, "link"@)) by {
            reveal_strlit("li");
            reveal_strlit("link");
            reveal_with_fuel(seq_lt_from, 7);
        }
    }
}

#[verifier::rlimit(100)]
#[verifier::spinoff_prover]
proof fn lemma_standard_tags_adjacent_2(i: int)
    requires
        58 <= i < 87,
    ensures
        seq_lt(spec_standard_tags()[i].start_tag, spec_standard_tags()[i + 1].start_tag),
{
    if i == 58 {
        assert(spec_standard_tags()[58].start_tag == "link"@);
        assert(spec_standard_tags()[59].start_tag == "map"@);
        assert(seq_lt("link"@, "map"@)) by {
            reveal_strlit("link");
            reveal_strlit("map");
            reveal_with_fuel(seq_lt_from, 7);
        }
    }
    if i == 59 {
        assert(spec_standard_tags()[59].start_tag == "map"@);
        assert(spec_standard_tags()[60].start_tag == "mark"@);
        assert(seq_lt("map"@, "mark"@)) by {
            reveal_strlit("map");
            reveal_strlit("mark");
            reveal_with_fuel(seq_lt_from, 7);
        }
    }
    if i == 60 {
        assert(spec_standard_tags()[60].start_tag == "mark"@);
        assert(spec_standard_tags()[61].start_tag == "math"@);
        assert(seq_lt("mark"@, "math"@)) by {
            reveal_strlit("mark");
            reveal_strlit("math");
            reveal_with_fuel(seq_lt_from, 7);
        }
    }
    if i == 61 {
        assert(spec_standard_tags()[61].start_tag == "math"@);
        assert(spec_standard_tags()[62].start_tag == "menu"@);
        assert(seq_lt("math"@, "menu"@)) by {
            reveal_strlit("math");
            reveal_strlit("menu");
            reveal_with_fuel(seq_lt_from, 7);
        }
    }
    if i == 62 {
        assert(spec_standard_tags()[62].start_tag == "menu"@);
        assert(spec_standard_tags()[63].start_tag == "meta"@);
        assert(seq_lt("menu"@, "meta"@)) by {
            reveal_strlit("menu");
            reveal_strlit("meta");
            reveal_with_fuel(seq_lt_from, 7);
        }
    }
    if i == 63 {
        assert(spec_standard_tags()[63].start_tag == "meta"@);
        assert(spec_standard_tags()[64].start_tag == "meter"@);
        assert(seq_lt("meta"@, "meter"@)) by {
            reveal_strlit("meta");
            reveal_strlit("meter");
            reveal_with_fuel(seq_lt_from, 7);
        }
    }
    if i == 64 {
        assert(spec_standard_tags()[64].start_tag == "meter"@);
        assert(spec_standard_tags()[65].start_tag == "nav"@);
        assert(seq_lt("meter"@, "nav"@)) by {
            reveal_strlit("meter");
            reveal_strlit("nav");
            reveal_with_fuel(seq_lt_from, 7);
        }
    }
    if i == 65 {
        assert(spec_standard_tags()[65].start_tag == "nav"@);
        assert(spec_standard_tags()[66].start_tag == "noscript"@);
        assert(seq_lt("nav"@, "noscript"@)) by {
            reveal_strlit("nav");
            reveal_strlit("noscript");
            reveal_with_fuel(seq_lt_from, 7);
        }
    }
    if i == 66 {
        assert(spec_standard_tags()[66].start_tag == "noscript"@);
        assert(spec_standard_tags()[67].start_tag == "object"@);
        assert(seq_lt("noscript"@, "object"@)) by {
            reveal_strlit("noscript");
            reveal_strlit("object");
            reveal_with_fuel(seq_lt_from, 7);
        }
    }
    if i == 67 {
        assert(spec_standard_tags()[67].start_tag == "object"@);
        assert(spec_standard_tags()[68].start_tag == "ol"@);
        assert(seq_lt("object"@, "ol"@)) by {
            reveal_strlit("object");
            reveal_strlit("ol");
            reveal_with_fuel(seq_lt_from, 7);
        }
    }
    if i == 68 {
        assert(spec_standard_tags()[68].start_tag == "ol"@);
        assert(spec_standard_tags()[69].start_tag == "optgroup"@);
        assert(seq_lt("ol"@, "optgroup"@)) by {
            reveal_strlit("ol");
            reveal_strlit("optgroup");
            reveal_with_fuel(seq_lt_from, 7);
        }
    }
    if i == 69 {
        assert(spec_standard_tags()[69].start_tag == "optgroup"@);
        assert(spec_standard_tags()[70].start_tag == "option"@);
        assert(seq_lt("optgroup"@, "option"@)) by {
            reveal_strlit("optgroup");
            reveal_strlit("option");
            reveal_with_fuel(seq_lt_from, 7);
        }
    }
    if i == 70 {
        assert(spec_standard_tags()[70].start_tag == "option"@);
        assert(spec_standard_tags()[71].start_tag == "output"@);
        assert(seq_lt("option"@, "output"@)) by {
            reveal_strlit("option");
            reveal_strlit("output");
            reveal_with_fuel(seq_lt_from, 7);
        }
    }
    if i == 71 {
        assert(spec_standard_tags()[71].start_tag == "output"@);
        assert(spec_standard_tags()[72].start_tag == "p"@);
        assert(seq_lt("output"@, "p"@)) by {
            reveal_strlit("output");
            reveal_strlit("p");
            reveal_with_fuel(seq_lt_from, 7);
        }
    }
    if i == 72 {
        assert(spec_standard_tags()[72].start_tag == "p"@);
        assert(spec_standard_tags()[73].start_tag == "picture"@);
        assert(seq_lt("p"@, "picture"@)) by {
            reveal_strlit("p");
            reveal_strlit("picture");
            reveal_with_fuel(seq_lt_from, 7);
        }
    }
    if i == 73 {
        assert(spec_standard_tags()[73].start_tag == "picture"@);
        assert(spec_standard_tags()[74].start_tag == "portal"@);
        assert(seq_lt("picture"@, "portal"@)) by {
            reveal_strlit("picture");
            reveal_strlit("portal");
            reveal_with_fuel(seq_lt_from, 7);
        }
    }
    if i == 74 {
        assert(spec_standard_tags()[74].start_tag == "portal"@);
        assert(spec_standard_tags()[75].start_tag == "pre"@);
        assert(seq_lt("portal"@, "pre"@)) by {
            reveal_strlit("portal");
            reveal_strlit("pre");
            reveal_with_fuel(seq_lt_from, 7);
        }
    }
    if i == 75 {
        assert(spec_standard_tags()[75].start_tag == "pre"@);
        assert(spec_standard_tags()[76].start_tag == "progress"@);
        assert(seq_lt("pre"@, "progress"@)) by {
            reveal_strlit("pre");
            reveal_strlit("progress");
            reveal_with_fuel(seq_lt_from, 7);
        }
    }
    if i == 76 {
        assert(spec_standard_tags()[76].start_tag == "progress"@);
        assert(spec_standard_tags()[77].start_tag == "q"@);
        assert(seq_lt("progress"@, "q"@)) by {
            reveal_strlit("progress");
            reveal_strlit("q");
            reveal_with_fuel(seq_lt_from, 7);
        }
    }
    if i == 77 {
        assert(spec_standard_tags()[77].start_tag == "q"@);
        assert(spec_standard_tags()[78].start_tag == "rp"@);
        assert(seq_lt("q"@, "rp"@)) by {
            reveal_strlit("q");
            reveal_strlit("rp");
            reveal_with_fuel(seq_lt_from, 7);
        }
    }
    if i == 78 {
        assert(spec_standard_tags()[78].start_tag == "rp"@);
        assert(spec_standard_tags()[79].start_tag == "rt"@);
        assert(seq_lt("rp"@, "rt"@)) by {
            reveal_strlit("rp");
            reveal_strlit("rt");
            reveal_with_fuel(seq_lt_from, 7);
        }
    }
    if i == 79 {
        assert(spec_standard_tags()[79].start_tag == "rt"@);
        assert(spec_standard_tags()[80].start_tag == "ruby"@);
        assert(seq_lt("rt"@, "ruby"@)) by {
            reveal_strlit("rt");
            reveal_strlit("ruby");
            reveal_with_fuel(seq_lt_from, 7);
        }
    }
    if i == 80 {
        assert(spec_standard_tags()[80].start_tag == "ruby"@);
        assert(spec_standard_tags()[81].start_tag == "s"@);
        assert(seq_lt("ruby"@, "s"@)) by {
            reveal_strlit("ruby");
            reveal_strlit("s");
            reveal_with_fuel(seq_lt_from, 7);
        }
    }
    if i == 81 {
        assert(spec_standard_tags()[81].start_tag == "s"@);
        assert(spec_standard_tags()[82].start_tag == "samp"@);
        assert(seq_lt("s"@, "samp"@)) by {
            reveal_strlit("s");
            reveal_strlit("samp");
            reveal_with_fuel(seq_lt_from, 7);
        }
    }
    if i == 82 {
        assert(spec_standard_tags()[82].start_tag == "samp"@);
        assert(spec_standard_tags()[83].start_tag == "script"@);
        assert(seq_lt("samp"@, "script"@)) by {
            reveal_strlit("samp");
            reveal_strlit("script");
            reveal_with_fuel(seq_lt_from, 7);
        }
    }
    if i == 83 {
        assert(spec_standard_tags()[83].start_tag == "script"@);
        assert(spec_standard_tags()[84].start_tag == "search"@);
        assert(seq_lt("script"@, "search"@)) by {
            reveal_strlit("script");
            reveal_strlit("search");
            reveal_with_fuel(seq_lt_from, 7);
        }
    }
    if i == 84 {
        assert(spec_standard_tags()[84].start_tag == "search"@);
        assert(spec_standard_tags()[85].start_tag == "section"@);
        assert(seq_lt("search"@, "section"@)) by {
            reveal_strlit("search");
            reveal_strlit("section");
            reveal_with_fuel(seq_lt_from, 7);
        }
    }
    if i == 85 {
        assert(spec_standard_tags()[85].start_tag == "section"@);
        assert(spec_standard_tags()[86].start_tag == "select"@);
        assert(seq_lt("section"@, "select"@)) by {
            reveal_strlit("section");
            reveal_strlit("select");
            reveal_with_fuel(seq_lt_from, 7);
        }
    }
    if i == 86 {
        assert(spec_standard_tags()[86].start_tag == "select"@);
        assert(spec_standard_tags()[87].start_tag == "slot"@);
        assert(seq_lt("select"@, "slot"@)) by {
            reveal_strlit("select");
            reveal_strlit("slot");
            reveal_with_fuel(seq_lt_from, 7);
        }
    }
}

#[verifier::rlimit(100)]
#[verifier::spinoff_prover]
proof fn lemma_standard_tags_adjacent_3(i: int)
    requires
        87 <= i < 113,
    ensures
        seq_lt(spec_standard_tags()[i].start_tag, spec_standard_tags()[i + 1].start_tag),
{
    if i == 87 {
        assert(spec_standard_tags()[87].start_tag == "slot"@);
        assert(spec_standard_tags()[88].start_tag == "small"@);
        assert(seq_lt("slot"@, "small"@)) by {
            reveal_strlit("slot");
            reveal_strlit("small");
            reveal_with_fuel(seq_lt_from, 7);
        }
    }
    if i == 88 {
        assert(spec_standard_tags()[88].start_tag == "small"@);
        assert(spec_standard_tags()[89].start_tag == "source"@);
        assert(seq_lt("small"@, "source"@)) by {
            reveal_strlit("small");
            reveal_strlit("source");
            reveal_with_fuel(seq_lt_from, 7);
        }
    }
    if i == 89 {
        assert(spec_standard_tags()[89].start_tag == "source"@);
        assert(spec_standard_tags()[90].start_tag == "span"@);
        assert(seq_lt("source"@, "span"@)) by {
            reveal_strlit("source");
            reveal_strlit("span");
            reveal_with_fuel(seq_lt_from, 7);
        }
    }
    if i == 90 {
        assert(spec_standard_tags()[90].start_tag == "span"@);
        assert(spec_standard_tags()[91].start_tag == "strong"@);
        assert(seq_lt("span"@, "strong"@)) by {
            reveal_strlit("span");
            reveal_strlit("strong");
            reveal_with_fuel(seq_lt_from, 7);
        }
    }
    if i == 91 {
        assert(spec_standard_tags()[91].start_tag == "strong"@);
        assert(spec_standard_tags()[92].start_tag == "style"@);
        assert(seq_lt("strong"@, "style"@)) by {
            reveal_strlit("strong");
            reveal_strlit("style");
            reveal_with_fuel(seq_lt_from, 7);
        }
    }
    if i == 92 {
        assert(spec_standard_tags()[92].start_tag == "style"@);
        assert(spec_standard_tags()[93].start_tag == "sub"@);
        assert(seq_lt("style"@, "sub"@)) by {
            reveal_strlit("style");
            reveal_strlit("sub");
            reveal_with_fuel(seq_lt_from, 7);
        }
    }
    if i == 93 {
        assert(spec_standard_tags()[93].start_tag == "sub"@);
        assert(spec_standard_tags()[94].start_tag == "summary"@);
        assert(seq_lt("sub"@, "summary"@)) by {
            reveal_strlit("sub");
            reveal_strlit("summary");
            reveal_with_fuel(seq_lt_from, 7);
        }
    }
    if i == 94 {
        assert(spec_standard_tags()[94].start_tag == "summary"@);
        assert(spec_standard_tags()[95].start_tag == "sup"@);
        assert(seq_lt("summary"@, "sup"@)) by {
            reveal_strlit("summary");
            reveal_strlit("sup");
            reveal_with_fuel(seq_lt_from, 7);
        }
    }
    if i == 95 {
        assert(spec_standard_tags()[95].start_tag == "sup"@);
        assert(spec_standard_tags()[96].start_tag == "svg"@);
        assert(seq_lt("sup"@, "svg"@)) by {
            reveal_strlit("sup");
            reveal_strlit("svg");
            reveal_with_fuel(seq_lt_from, 7);
        }
    }
    if i == 96 {
        assert(spec_standard_tags()[96].start_tag == "svg"@);
        assert(spec_standard_tags()[97].start_tag == "table"@);
        assert(seq_lt("svg"@, "table"@)) by {
            reveal_strlit("svg");
            reveal_strlit("table");
            reveal_with_fuel(seq_lt_from, 7);
        }
    }
    if i == 97 {
        assert(spec_standard_tags()[97].start_tag == "table"@);
        assert(spec_standard_tags()[98].start_tag == "tbody"@);
        assert(seq_lt("table"@, "tbody"@)) by {
            reveal_strlit("table");
            reveal_strlit("tbody");
            reveal_with_fuel(seq_lt_from, 7);
        }
    }
    if i == 98 {
        assert(spec_standard_tags()[98].start_tag == "tbody"@);
        assert(spec_standard_tags()[99].start_tag == "td"@);
        assert(seq_lt("tbody"@, "td"@)) by {
            reveal_strlit("tbody");
            reveal_strlit("td");
            reveal_with_fuel(seq_lt_from, 7);
        }
    }
    if i == 99 {
        assert(spec_standard_tags()[99].start_tag == "td"@);
        assert(spec_standard_tags()[100].start_tag == "template"@);
        assert(seq_lt("td"@, "template"@)) by {
            reveal_strlit("td");
            reveal_strlit("template");
            reveal_with_fuel(seq_lt_from, 7);
        }
    }
    if i == 100 {
        assert(spec_standard_tags()[100].start_tag == "template"@);
        assert(spec_standard_tags()[101].start_tag == "textarea"@);
        assert(seq_lt("template"@, "textarea"@)) by {
            reveal_strlit("template");
            reveal_strlit("textarea");
            reveal_with_fuel(seq_lt_from, 7);
        }
    }
    if i == 101 {
        assert(spec_standard_tags()[101].start_tag == "textarea"@);
        assert(spec_standard_tags()[102].start_tag == "tfoot"@);
        assert(seq_lt("textarea"@, "tfoot"@)) by {
            reveal_strlit("textarea");
            reveal_strlit("tfoot");
            reveal_with_fuel(seq_lt_from, 7);
        }
    }
    if i == 102 {
        assert(spec_standard_tags()[102].start_tag == "tfoot"@);
        assert(spec_standard_tags()[103].start_tag == "th"@);
        assert(seq_lt("tfoot"@, "th"@)) by {
            reveal_strlit("tfoot");
            reveal_strlit("th");
            reveal_with_fuel(seq_lt_from, 7);
        }
    }
    if i == 103 {
        assert(spec_standard_tags()[103].start_tag == "th"@);
        assert(spec_standard_tags()[104].start_tag == "thead"@);
        assert(seq_lt("th"@, "thead"@)) by {
            reveal_strlit("th");
            reveal_strlit("thead");
            reveal_with_fuel(seq_lt_from, 7);
        }
    }
    if i == 104 {
        assert(spec_standard_tags()[104].start_tag == "thead"@);
        assert(spec_standard_tags()[105].start_tag == "time"@);
        assert(seq_lt("thead"@, "time"@)) by {
            reveal_strlit("thead");
            reveal_strlit("time");
            reveal_with_fuel(seq_lt_from, 7);
        }
    }
    if i == 105 {
        assert(spec_standard_tags()[105].start_tag == "time"@);
        assert(spec_standard_tags()[106].start_tag == "title"@);
        assert(seq_lt("time"@, "title"@)) by {
            reveal_strlit("time");
            reveal_strlit("title");
            reveal_with_fuel(seq_lt_from, 7);
        }
    }
    if i == 106 {
        assert(spec_standard_tags()[106].start_tag == "title"@);
        assert(spec_standard_tags()[107].start_tag == "tr"@);
        assert(seq_lt("title"@, "tr"@)) by {
            reveal_strlit("title");
            reveal_strlit("tr");
            reveal_with_fuel(seq_lt_from, 7);
        }
    }
    if i == 107 {
        assert(spec_standard_tags()[107].start_tag == "tr"@);
        assert(spec_standard_tags()[108].start_tag == "track"@);
        assert(seq_lt("tr"@, "track"@)) by {
            reveal_strlit("tr");
            reveal_strlit("track");
            reveal_with_fuel(seq_lt_from, 7);
        }
    }
    if i == 108 {
        assert(spec_standard_tags()[108].start_tag == "track"@);
        assert(spec_standard_tags()[109].start_tag == "u"@);
        assert(seq_lt("track"@, "u"@)) by {
            reveal_strlit("track");
            reveal_strlit("u");
            reveal_with_fuel(seq_lt_from, 7);
        }
    }
    if i == 109 {
        assert(spec_standard_tags()[109].start_tag == "u"@);
        assert(spec_standard_tags()[110].start_tag == "ul"@);
        assert(seq_lt("u"@, "ul"@)) by {
            reveal_strlit("u");
            reveal_strlit("ul");
            reveal_with_fuel(seq_lt_from, 7);
        }
    }
    if i == 110 {
        assert(spec_standard_tags()[110].start_tag == "ul"@);
        assert(spec_standard_tags()[111].start_tag == "var"@);
        assert(seq_lt("ul"@, "var"@)) by {
            reveal_strlit("ul");
            reveal_strlit("var");
            reveal_with_fuel(seq_lt_from, 7);
        }
    }
    if i == 111 {
        assert(spec_standard_tags()[111].start_tag == "var"@);
        assert(spec_standard_tags()[112].start_tag == "video"@);
        assert(seq_lt("var"@, "video"@)) by {
            reveal_strlit("var");
            reveal_strlit("video");
            reveal_with_fuel(seq_lt_from, 7);
        }
    }
    if i == 112 {
        assert(spec_standard_tags()[112].start_tag == "video"@);
        assert(spec_standard_tags()[113].start_tag == "wbr"@);
        assert(seq_lt("video"@, "wbr"@)) by {
            reveal_strlit("video");
            reveal_strlit("wbr");
            reveal_with_fuel(seq_lt_from, 7);
        }
    }
}

/// Each registry entry sorts strictly before the next.
proof fn lemma_standard_tags_adjacent(i: int)
    requires
        0 <= i < 113,
    ensures
        seq_lt(spec_standard_tags()[i].start_tag, spec_standard_tags()[i + 1].start_tag),
{
    if 0 <= i < 29 {
        lemma_standard_tags_adjacent_0(i);
    }
    if 29 <= i < 58 {
        lemma_standard_tags_adjacent_1(i);
    }
    if 58 <= i < 87 {
        lemma_standard_tags_adjacent_2(i);
    }
    if 87 <= i < 113 {
        lemma_standard_tags_adjacent_3(i);
    }
}

proof fn lemma_standard_tags_span(i: int, j: int)
    requires
        0 <= i < j < 114,
    ensures
        seq_lt(spec_standard_tags()[i].start_tag, spec_standard_tags()[j].start_tag),
    decreases j - i,
{
    if i + 1 == j {
        lemma_standard_tags_adjacent(i);
    } else {
        lemma_standard_tags_span(i, j - 1);
        lemma_standard_tags_adjacent(j - 1);
        lemma_seq_lt_trans(
            spec_standard_tags()[i].start_tag,
            spec_standard_tags()[j - 1].start_tag,
            spec_standard_tags()[j].start_tag,
        );
    }
}

/// The standard registry is strictly sorted.
pub proof fn lemma_standard_tags_sorted()
    ensures
        forall|i: int, j: int|
            0 <= i < j < spec_standard_tags().len() ==> seq_lt(
                spec_standard_tags()[i].start_tag,
                spec_standard_tags()[j].start_tag,
            ),
{
    assert forall|i: int, j: int|
        0 <= i < j < spec_standard_tags().len() implies seq_lt(
        spec_standard_tags()[i].start_tag,
        spec_standard_tags()[j].start_tag,
    ) by {
        lemma_standard_tags_span(i, j);
    }
}

#[verifier::rlimit(100)]
#[verifier::spinoff_prover]
fn push_standard_tags_0(tags: &mut Vec<ElementTag>)
    ensures
        final(tags)@.map_values(|t: ElementTag| t@) == old(tags)@.map_values(|t: ElementTag| t@)
            + spec_standard_tags().subrange(0, 29),
{
    tags.push(ElementTag { start_tag: String::from_str("!doctype"), end_tag: None, is_void_element: true });
    tags.push(ElementTag { start_tag: String::from_str("a"), end_tag: None, is_void_element: false });
    tags.push(ElementTag { start_tag: String::from_str("abbr"), end_tag: None, is_void_element: false });
    tags.push(ElementTag { start_tag: String::from_str("address"), end_tag: None, is_void_element: false });
    tags.push(ElementTag { start_tag: String::from_str("area"), end_tag: None, is_void_element: true });
    tags.push(ElementTag { start_tag: String::from_str("article"), end_tag: None, is_void_element: false });
    tags.push(ElementTag { start_tag: String::from_str("aside"), end_tag: None, is_void_element: false });
    tags.push(ElementTag { start_tag: String::from_str("audio"), end_tag: None, is_void_element: false });
    tags.push(ElementTag { start_tag: String::from_str("b"), end_tag: None, is_void_element: false });
    tags.push(ElementTag { start_tag: String::from_str("base"), end_tag: None, is_void_element: true });
    tags.push(ElementTag { start_tag: String::from_str("bdi"), end_tag: None, is_void_element: false });
    tags.push(ElementTag { start_tag: String::from_str("bdo"), end_tag: None, is_void_element: false });
    tags.push(ElementTag { start_tag: String::from_str("blockquote"), end_tag: None, is_void_element: false });
    tags.push(ElementTag { start_tag: String::from_str("body"), end_tag: None, is_void_element: false });
    tags.push(ElementTag { start_tag: String::from_str("br"), end_tag: None, is_void_element: true });
    tags.push(ElementTag { start_tag: String::from_str("button"), end_tag: None, is_void_element: false });
    tags.push(ElementTag { start_tag: String::from_str("canvas"), end_tag: None, is_void_element: false });
    tags.push(ElementTag { start_tag: String::from_str("caption"), end_tag: None, is_void_element: false });
    tags.push(ElementTag { start_tag: String::from_str("cite"), end_tag: None, is_void_element: false });
    tags.push(ElementTag { start_tag: String::from_str("code"), end_tag: None, is_void_element: false });
    tags.push(ElementTag { start_tag: String::from_str("col"), end_tag: None, is_void_element: true });
    tags.push(ElementTag { start_tag: String::from_str("colgroup"), end_tag: None, is_void_element: false });
    tags.push(ElementTag { start_tag: String::from_str("data"), end_tag: None, is_void_element: false });
    tags.push(ElementTag { start_tag: String::from_str("datalist"), end_tag: None, is_void_element: false });
    tags.push(ElementTag { start_tag: String::from_str("dd"), end_tag: None, is_void_element: false });
    tags.push(ElementTag { start_tag: String::from_str("del"), end_tag: None, is_void_element: false });
    tags.push(ElementTag { start_tag: String::from_str("details"), end_tag: None, is_void_element: false });
    tags.push(ElementTag { start_tag: String::from_str("dfn"), end_tag: None, is_void_element: false });
    tags.push(ElementTag { start_tag: String::from_str("dialog"), end_tag: None, is_void_element: false });
    proof {
        assert(final(tags)@.map_values(|t: ElementTag| t@) =~= old(tags)@.map_values(
            |t: ElementTag| t@,
        ) + spec_standard_tags().subrange(0, 29));
    }
}

#[verifier::rlimit(100)]
#[verifier::spinoff_prover]
fn push_standard_tags_1(tags: &mut Vec<ElementTag>)
    ensures
        final(tags)@.map_values(|t: ElementTag| t@) == old(tags)@.map_values(|t: ElementTag| t@)
            + spec_standard_tags().subrange(29, 58),
{
    tags.push(ElementTag { start_tag: String::from_str("div"), end_tag: None, is_void_element: false });
    tags.push(ElementTag { start_tag: String::from_str("dt"), end_tag: None, is_void_element: false });
    tags.push(ElementTag { start_tag: String::from_str("em"), end_tag: None, is_void_element: false });
    tags.push(ElementTag { start_tag: String::from_str("embed"), end_tag: None, is_void_element: true });
    tags.push(ElementTag { start_tag: String::from_str("fieldset"), end_tag: None, is_void_element: false });
    tags.push(ElementTag { start_tag: String::from_str("figcaption"), end_tag: None, is_void_element: false });
    tags.push(ElementTag { start_tag: String::from_str("figure"), end_tag: None, is_void_element: false });
    tags.push(ElementTag { start_tag: String::from_str("footer"), end_tag: None, is_void_element: false });
    tags.push(ElementTag { start_tag: String::from_str("form"), end_tag: None, is_void_element: false });
    tags.push(ElementTag { start_tag: String::from_str("h1"), end_tag: None, is_void_element: false });
    tags.push(ElementTag { start_tag: String::from_str("h2"), end_tag: None, is_void_element: false });
    tags.push(ElementTag { start_tag: String::from_str("h3"), end_tag: None, is_void_element: false });
    tags.push(ElementTag { start_tag: String::from_str("h4"), end_tag: None, is_void_element: false });
    tags.push(ElementTag { start_tag: String::from_str("h5"), end_tag: None, is_void_element: false });
    tags.push(ElementTag { start_tag: String::from_str("h6"), end_tag: None, is_void_element: false });
    tags.push(ElementTag { start_tag: String::from_str("head"), end_tag: None, is_void_element: false });
    tags.push(ElementTag { start_tag: String::from_str("header"), end_tag: None, is_void_element: false });
    tags.push(ElementTag { start_tag: String::from_str("hgroup"), end_tag: None, is_void_element: false });
    tags.push(ElementTag { start_tag: String::from_str("hr"), end_tag: None, is_void_element: true });
    tags.push(ElementTag { start_tag: String::from_str("html"), end_tag: None, is_void_element: false });
    tags.push(ElementTag { start_tag: String::from_str("i"), end_tag: None, is_void_element: false });
    tags.push(ElementTag { start_tag: String::from_str("iframe"), end_tag: None, is_void_element: false });
    tags.push(ElementTag { start_tag: String::from_str("img"), end_tag: None, is_void_element: true });
    tags.push(ElementTag { start_tag: String::from_str("input"), end_tag: None, is_void_element: true });
    tags.push(ElementTag { start_tag: String::from_str("ins"), end_tag: None, is_void_element: false });
    tags.push(ElementTag { start_tag: String::from_str("kbd"), end_tag: None, is_void_element: false });
    tags.push(ElementTag { start_tag: String::from_str("label"), end_tag: None, is_void_element: false });
    tags.push(ElementTag { start_tag: String::from_str("legend"), end_tag: None, is_void_element: false });
    tags.push(ElementTag { start_tag: String::from_str("li"), end_tag: None, is_void_element: false });
    proof {
        assert(final(tags)@.map_values(|t: ElementTag| t@) =~= old(tags)@.map_values(
            |t: ElementTag| t@,
        ) + spec_standard_tags().subrange(29, 58));
    }
}

#[verifier::rlimit(100)]
#[verifier::spinoff_prover]
fn push_standard_tags_2(tags: &mut Vec<ElementTag>)
    ensures
        final(tags)@.map_values(|t: ElementTag| t@) == old(tags)@.map_values(|t: ElementTag| t@)
            + spec_standard_tags().subrange(58, 87),
{
    tags.push(ElementTag { start_tag: String::from_str("link"), end_tag: None, is_void_element: true });
    tags.push(ElementTag { start_tag: String::from_str("map"), end_tag: None, is_void_element: false });
    tags.push(ElementTag { start_tag: String::from_str("mark"), end_tag: None, is_void_element: false });
    tags.push(ElementTag { start_tag: String::from_str("math"), end_tag: None, is_void_element: false });
    tags.push(ElementTag { start_tag: String::from_str("menu"), end_tag: None, is_void_element: false });
    tags.push(ElementTag { start_tag: String::from_str("meta"), end_tag: None, is_void_element: true });
    tags.push(ElementTag { start_tag: String::from_str("meter"), end_tag: None, is_void_element: false });
    tags.push(ElementTag { start_tag: String::from_str("nav"), end_tag: None, is_void_element: false });
    tags.push(ElementTag { start_tag: String::from_str("noscript"), end_tag: None, is_void_element: false });
    tags.push(ElementTag { start_tag: String::from_str("object"), end_tag: None, is_void_element: false });
    tags.push(ElementTag { start_tag: String::from_str("ol"), end_tag: None, is_void_element: false });
    tags.push(ElementTag { start_tag: String::from_str("optgroup"), end_tag: None, is_void_element: false });
    tags.push(ElementTag { start_tag: String::from_str("option"), end_tag: None, is_void_element: false });
    tags.push(ElementTag { start_tag: String::from_str("output"), end_tag: None, is_void_element: false });
    tags.push(ElementTag { start_tag: String::from_str("p"), end_tag: None, is_void_element: false });
    tags.push(ElementTag { start_tag: String::from_str("picture"), end_tag: None, is_void_element: false });
    tags.push(ElementTag { start_tag: String::from_str("portal"), end_tag: None, is_void_element: false });
    tags.push(ElementTag { start_tag: String::from_str("pre"), end_tag: None, is_void_element: false });
    tags.push(ElementTag { start_tag: String::from_str("progress"), end_tag: None, is_void_element: false });
    tags.push(ElementTag { start_tag: String::from_str("q"), end_tag: None, is_void_element: false });
    tags.push(ElementTag { start_tag: String::from_str("rp"), end_tag: None, is_void_element: false });
    tags.push(ElementTag { start_tag: String::from_str("rt"), end_tag: None, is_void_element: false });
    tags.push(ElementTag { start_tag: String::from_str("ruby"), end_tag: None, is_void_element: false });
    tags.push(ElementTag { start_tag: String::from_str("s"), end_tag: None, is_void_element: false });
    tags.push(ElementTag { start_tag: String::from_str("samp"), end_tag: None, is_void_element: false });
    tags.push(ElementTag { start_tag: String::from_str("script"), end_tag: None, is_void_element: false });
    tags.push(ElementTag { start_tag: String::from_str("search"), end_tag: None, is_void_element: false });
    tags.push(ElementTag { start_tag: String::from_str("section"), end_tag: None, is_void_element: false });
    tags.push(ElementTag { start_tag: String::from_str("select"), end_tag: None, is_void_element: false });
    proof {
        assert(final(tags)@.map_values(|t: ElementTag| t@) =~= old(tags)@.map_values(
            |t: ElementTag| t@,
        ) + spec_standard_tags().subrange(58, 87));
    }
}

#[verifier::rlimit(100)]
#[verifier::spinoff_prover]
fn push_standard_tags_3(tags: &mut Vec<ElementTag>)
    ensures
        final(tags)@.map_values(|t: ElementTag| t@) == old(tags)@.map_values(|t: ElementTag| t@)
            + spec_standard_tags().subrange(87, 114),
{
    tags.push(ElementTag { start_tag: String::from_str("slot"), end_tag: None, is_void_element: false });
    tags.push(ElementTag { start_tag: String::from_str("small"), end_tag: None, is_void_element: false });
    tags.push(ElementTag { start_tag: String::from_str("source"), end_tag: None, is_void_element: true });
    tags.push(ElementTag { start_tag: String::from_str("span"), end_tag: None, is_void_element: false });
    tags.push(ElementTag { start_tag: String::from_str("strong"), end_tag: None, is_void_element: false });
    tags.push(ElementTag { start_tag: String::from_str("style"), end_tag: None, is_void_element: false });
    tags.push(ElementTag { start_tag: String::from_str("sub"), end_tag: None, is_void_element: false });
    tags.push(ElementTag { start_tag: String::from_str("summary"), end_tag: None, is_void_element: false });
    tags.push(ElementTag { start_tag: String::from_str("sup"), end_tag: None, is_void_element: false });
    tags.push(ElementTag { start_tag: String::from_str("svg"), end_tag: None, is_void_element: false });
    tags.push(ElementTag { start_tag: String::from_str("table"), end_tag: None, is_void_element: false });
    tags.push(ElementTag { start_tag: String::from_str("tbody"), end_tag: None, is_void_element: false });
    tags.push(ElementTag { start_tag: String::from_str("td"), end_tag: None, is_void_element: false });
    tags.push(ElementTag { start_tag: String::from_str("template"), end_tag: None, is_void_element: false });
    tags.push(ElementTag { start_tag: String::from_str("textarea"), end_tag: None, is_void_element: false });
    tags.push(ElementTag { start_tag: String::from_str("tfoot"), end_tag: None, is_void_element: false });
    tags.push(ElementTag { start_tag: String::from_str("th"), end_tag: None, is_void_element: false });
    tags.push(ElementTag { start_tag: String::from_str("thead"), end_tag: None, is_void_element: false });
    tags.push(ElementTag { start_tag: String::from_str("time"), end_tag: None, is_void_element: false });
    tags.push(ElementTag { start_tag: String::from_str("title"), end_tag: None, is_void_element: false });
    tags.push(ElementTag { start_tag: String::from_str("tr"), end_tag: None, is_void_element: false });
    tags.push(ElementTag { start_tag: String::from_str("track"), end_tag: None, is_void_element: true });
    tags.push(ElementTag { start_tag: String::from_str("u"), end_tag: None, is_void_element: false });
    tags.push(ElementTag { start_tag: String::from_str("ul"), end_tag: None, is_void_element: false });
    tags.push(ElementTag { start_tag: String::from_str("var"), end_tag: None, is_void_element: false });
    tags.push(ElementTag { start_tag: String::from_str("video"), end_tag: None, is_void_element: false });
    tags.push(ElementTag { start_tag: String::from_str("wbr"), end_tag: None, is_void_element: true });
    proof {
        assert(final(tags)@.map_values(|t: ElementTag| t@) =~= old(tags)@.map_values(
            |t: ElementTag| t@,
        ) + spec_standard_tags().subrange(87, 114));
    }
}

/// Builds the standard registry.
fn build_standard_tags() -> (tags: Vec<ElementTag>)
    ensures
        tags@.map_values(|t: ElementTag| t@) == spec_standard_tags(),
        tags@.len() == 114,
{
    let mut tags: Vec<ElementTag> = Vec::new();
    proof {
        assert(tags@.map_values(|t: ElementTag| t@) =~= Seq::<TagEntryV>::empty());
    }
    push_standard_tags_0(&mut tags);
    push_standard_tags_1(&mut tags);
    push_standard_tags_2(&mut tags);
    push_standard_tags_3(&mut tags);
    proof {
        assert(tags@.map_values(|t: ElementTag| t@) =~= spec_standard_tags());
    }
    tags
}

/// The default document's model: the standard registry and the skeleton
/// `!doctype > html[lang=en] > (head, body)`, the head holding a UTF-8
/// charset meta, a responsive-viewport meta, and a compatibility meta. The
/// registry indices 0, 13, 44, 48 and 63 are !doctype, body, head, html and
/// meta in the sorted standard table.
pub open spec fn spec_default_document() -> DocumentV {
    DocumentV {
        elements: seq![
            ElementV {
                tag: 0,
                attributes: seq![("html"@, Seq::<char>::empty())],
                contents: seq![ContentV::Element(1)],
                is_comment: false,
            },
            ElementV {
                tag: 48,
                attributes: seq![("lang"@, "en"@)],
                contents: seq![ContentV::Element(2), ContentV::Element(3)],
                is_comment: false,
            },
            ElementV {
                tag: 44,
                attributes: Seq::empty(),
                contents: seq![
                    ContentV::Element(4),
                    ContentV::Element(5),
                    ContentV::Element(6),
                ],
                is_comment: false,
            },
            ElementV { tag: 13, attributes: Seq::empty(), contents: Seq::empty(), is_comment: false },
            ElementV {
                tag: 63,
                attributes: seq![("charset"@, "utf-8"@)],
                contents: Seq::empty(),
                is_comment: false,
            },
            ElementV {
                tag: 63,
                attributes: seq![
                    ("name"@, "viewport"@),
                    ("content"@, "width=device-width, initial-scale=1.0"@),
                ],
                contents: Seq::empty(),
                is_comment: false,
            },
            ElementV {
                tag: 63,
                attributes: seq![("http-equiv"@, "X-UA-Compatible"@), ("content"@, "ie=edge"@)],
                contents: Seq::empty(),
                is_comment: false,
            },
        ],
        tags: spec_standard_tags(),
        doc_type: 0,
        html: 1,
        head: 2,
        body: 3,
    }
}

impl Default for Document {
    /// The fresh document, equal to `spec_default_document`: the standard
    /// registry, and the skeleton `!doctype > html[lang=en] > (head, body)`
    /// with the three head metas.
    #[verifier::rlimit(100)]
    #[verifier::spinoff_prover]
    fn default() -> (result: Self)
        ensures
            result@ == spec_default_document(),
            result.wf(),
            result.ids_wf(),
            result.elements@.len() == 7,
            result.doc_type == 0,
            result.html == 1,
            result.head == 2,
            result.body == 3,
            result.elements@[result.body as int].contents@.len() == 0,
    {
        let tags = build_standard_tags();
        let mut elements: Vec<Element> = Vec::new();

        // <!doctype html>, containing the html element
        let mut doctype_attrs: Vec<(String, String)> = Vec::new();
        doctype_attrs.push((String::from_str("html"), String::new()));
        let mut doctype_contents: Vec<ElementContent> = Vec::new();
        doctype_contents.push(ElementContent::Element(1));
        proof {
            assert(view_sattrs(doctype_attrs@) =~= seq![("html"@, Seq::<char>::empty())]);
            assert(doctype_contents@.map_values(|c: ElementContent| c@) =~= seq![
                ContentV::Element(1),
            ]);
        }
        elements.push(
            Element { tag: 0, attributes: doctype_attrs, contents: doctype_contents, is_comment: false },
        );

        // <html lang="en">, containing head then body
        let mut html_attrs: Vec<(String, String)> = Vec::new();
        html_attrs.push((String::from_str("lang"), String::from_str("en")));
        let mut html_contents: Vec<ElementContent> = Vec::new();
        html_contents.push(ElementContent::Element(2));
        html_contents.push(ElementContent::Element(3));
        proof {
            assert(view_sattrs(html_attrs@) =~= seq![("lang"@, "en"@)]);
            assert(html_contents@.map_values(|c: ElementContent| c@) =~= seq![
                ContentV::Element(2),
                ContentV::Element(3),
            ]);
        }
        elements.push(
            Element { tag: 48, attributes: html_attrs, contents: html_contents, is_comment: false },
        );

        // <head>, holding the three metas
        let mut head_contents: Vec<ElementContent> = Vec::new();
        head_contents.push(ElementContent::Element(4));
        head_contents.push(ElementContent::Element(5));
        head_contents.push(ElementContent::Element(6));
        proof {
            assert(head_contents@.map_values(|c: ElementContent| c@) =~= seq![
                ContentV::Element(4),
                ContentV::Element(5),
                ContentV::Element(6),
            ]);
        }
        elements.push(
            Element { tag: 44, attributes: Vec::new(), contents: head_contents, is_comment: false },
        );

        // <body>, empty until a render pass fills it
        elements.push(
            Element { tag: 13, attributes: Vec::new(), contents: Vec::new(), is_comment: false },
        );

        // <meta charset="utf-8">
        let mut charset_attrs: Vec<(String, String)> = Vec::new();
        charset_attrs.push((String::from_str("charset"), String::from_str("utf-8")));
        proof {
            assert(view_sattrs(charset_attrs@) =~= seq![("charset"@, "utf-8"@)]);
        }
        elements.push(
            Element { tag: 63, attributes: charset_attrs, contents: Vec::new(), is_comment: false },
        );

        // the responsive-viewport meta
        let mut viewport_attrs: Vec<(String, String)> = Vec::new();
        viewport_attrs.push((String::from_str("name"), String::from_str("viewport")));
        viewport_attrs.push(
            (String::from_str("content"), String::from_str("width=device-width, initial-scale=1.0")),
        );
        proof {
            assert(view_sattrs(viewport_attrs@) =~= seq![
                ("name"@, "viewport"@),
                ("content"@, "width=device-width, initial-scale=1.0"@),
            ]);
        }
        elements.push(
            Element { tag: 63, attributes: viewport_attrs, contents: Vec::new(), is_comment: false },
        );

        // the compatibility meta
        let mut xua_attrs: Vec<(String, String)> = Vec::new();
        xua_attrs.push((String::from_str("http-equiv"), String::from_str("X-UA-Compatible")));
        xua_attrs.push((String::from_str("content"), String::from_str("ie=edge")));
        proof {
            assert(view_sattrs(xua_attrs@) =~= seq![
                ("http-equiv"@, "X-UA-Compatible"@),
                ("content"@, "ie=edge"@),
            ]);
        }
        elements.push(
            Element { tag: 63, attributes: xua_attrs, contents: Vec::new(), is_comment: false },
        );

        proof {
            assert(elements@.len() == 7);
            assert(elements@[0]@ =~= spec_default_document().elements[0]);
            assert(elements@[1]@ =~= spec_default_document().elements[1]);
            assert(elements@[2]@ =~= spec_default_document().elements[2]);
            assert(elements@[3]@ =~= spec_default_document().elements[3]);
            assert(elements@[4]@ =~= spec_default_document().elements[4]);
            assert(elements@[5]@ =~= spec_default_document().elements[5]);
            assert(elements@[6]@ =~= spec_default_document().elements[6]);
            assert(elements@.map_values(|e: Element| e@) =~= spec_default_document().elements);
        }
        let result = Document { elements, tags, doc_type: 0, html: 1, head: 2, body: 3 };
        proof {
            assert(result@.elements =~= spec_default_document().elements);
            assert(result@.tags == spec_standard_tags());
            assert(result@ =~= spec_default_document());
            lemma_standard_tags_sorted();
            assert forall|i: int, j: int|
                0 <= i < j < result.tags@.len() implies seq_lt(
                result.tags@[i].start_tag@,
                result.tags@[j].start_tag@,
            ) by {
                assert(result@.tags[i] == spec_standard_tags()[i]);
                assert(result@.tags[j] == spec_standard_tags()[j]);
                assert(seq_lt(
                    spec_standard_tags()[i].start_tag,
                    spec_standard_tags()[j].start_tag,
                ));
            }
            reveal_strlit("name");
            reveal_strlit("content");
            reveal_strlit("http-equiv");
            assert("name"@.len() == 4);
            assert("content"@.len() == 7);
            assert("http-equiv"@.len() == 10);
            assert("name"@ != "content"@);
            assert("http-equiv"@ != "content"@);
            assert(result.tags@.len() == 114);
            assert forall|i: int| 0 <= i < result.elements@.len() implies result.elem_wf(i) by {
                assert(result@.elements[i] == spec_default_document().elements[i]);
                assert(view_sattrs(result.elements@[i].attributes@)
                    == result@.elements[i].attributes);
                assert(result.elements@[i].tag as int == result@.elements[i].tag);
                assert forall|k: int|
                    0 <= k < result.elements@[i].contents@.len() implies match #[trigger] result.elements@[i].contents@[k] {
                    ElementContent::Element(j) => i < j < result.elements@.len(),
                    ElementContent::Text(_) => true,
                } by {
                    assert(result.elements@[i].contents@[k]@ == result@.elements[i].contents[k]);
                }
            }
        }
        result
    }
}

// ---------------------------------------------------------------------------
// Spec-level document model
// ---------------------------------------------------------------------------

/// Spec-level registry entry.
#[verifier::ext_equal]
pub struct TagEntryV {
    pub start_tag: Seq<char>,
    pub end_tag: Option<Seq<char>>,
    pub is_void_element: bool,
}

/// Spec-level content item.
pub enum ContentV {
    Element(int),
    Text(Seq<char>),
}

/// Spec-level element.
#[verifier::ext_equal]
pub struct ElementV {
    pub tag: int,
    pub attributes: Seq<(Seq<char>, Seq<char>)>,
    pub contents: Seq<ContentV>,
    pub is_comment: bool,
}

/// Spec-level document.
#[verifier::ext_equal]
pub struct DocumentV {
    pub elements: Seq<ElementV>,
    pub tags: Seq<TagEntryV>,
    pub doc_type: int,
    pub html: int,
    pub head: int,
    pub body: int,
}

impl View for ElementTag {
    type V = TagEntryV;

    open spec fn view(&self) -> TagEntryV {
        TagEntryV {
            start_tag: self.start_tag@,
            end_tag: match self.end_tag {
                Some(e) => Some(e@),
                None => None,
            },
            is_void_element: self.is_void_element,
        }
    }
}

impl View for ElementContent {
    type V = ContentV;

    open spec fn view(&self) -> ContentV {
        match self {
            ElementContent::Element(j) => ContentV::Element(*j as int),
            ElementContent::Text(t) => ContentV::Text(t@),
        }
    }
}

impl View for Element {
    type V = ElementV;

    open spec fn view(&self) -> ElementV {
        ElementV {
            tag: self.tag as int,
            attributes: view_sattrs(self.attributes@),
            contents: self.contents@.map_values(|c: ElementContent| c@),
            is_comment: self.is_comment,
        }
    }
}

impl View for Document {
    type V = DocumentV;

    open spec fn view(&self) -> DocumentV {
        DocumentV {
            elements: self.elements@.map_values(|e: Element| e@),
            tags: self.tags@.map_values(|t: ElementTag| t@),
            doc_type: self.doc_type as int,
            html: self.html as int,
            head: self.head as int,
            body: self.body as int,
        }
    }
}

/// The sorted position of a key in the registry: the first entry not below
/// the key (the registry's length when every entry is below it).
pub open spec fn spec_tag_pos(tags: Seq<TagEntryV>, key: Seq<char>, i: int) -> int
    decreases tags.len() - i,
{
    if i < 0 || i >= tags.len() {
        tags.len() as int
    } else if !seq_lt(tags[i].start_tag, key) {
        i
    } else {
        spec_tag_pos(tags, key, i + 1)
    }
}

/// An element with its registry reference moved past an insertion position.
pub open spec fn spec_shift_elem(e: ElementV, pos: int) -> ElementV {
    ElementV { tag: if e.tag >= pos { e.tag + 1 } else { e.tag }, ..e }
}

/// Interning at the spec level: an existing entry is found at its sorted
/// position; a fresh key is inserted there, with every element's registry
/// reference re-pointed.
pub open spec fn spec_doc_intern(d: DocumentV, key: Seq<char>, is_void: bool) -> (DocumentV, int) {
    let p = spec_tag_pos(d.tags, key, 0);
    if p < d.tags.len() && d.tags[p].start_tag == key {
        (d, p)
    } else {
        (
            DocumentV {
                tags: d.tags.insert(
                    p,
                    TagEntryV { start_tag: key, end_tag: None, is_void_element: is_void },
                ),
                elements: d.elements.map_values(|e: ElementV| spec_shift_elem(e, p)),
                ..d
            },
            p,
        )
    }
}

/// Element creation at the spec level: the key is interned and a fresh bare
/// element referencing it is appended.
pub open spec fn spec_doc_create_element(d: DocumentV, key: Seq<char>) -> (DocumentV, int) {
    let created = spec_doc_intern(d, key, false);
    let d1 = created.0;
    let t = created.1;
    (
        DocumentV {
            elements: d1.elements.push(
                ElementV {
                    tag: t,
                    attributes: Seq::empty(),
                    contents: Seq::empty(),
                    is_comment: false,
                },
            ),
            ..d1
        },
        d1.elements.len() as int,
    )
}

/// Attribute binding at the spec level.
pub open spec fn spec_doc_set_attribute(
    d: DocumentV,
    id: int,
    key: Seq<char>,
    value: Seq<char>,
) -> DocumentV {
    if 0 <= id < d.elements.len() {
        let e = d.elements[id];
        DocumentV {
            elements: d.elements.update(
                id,
                ElementV { attributes: sattrs_put(e.attributes, key, value), ..e },
            ),
            ..d
        }
    } else {
        d
    }
}

/// Content appending at the spec level.
pub open spec fn spec_doc_push_content(d: DocumentV, id: int, c: ContentV) -> DocumentV {
    if 0 <= id < d.elements.len() {
        let e = d.elements[id];
        DocumentV { elements: d.elements.update(id, ElementV { contents: e.contents.push(c), ..e }), ..d }
    } else {
        d
    }
}

/// Strict lexicographic order never holds between equal sequences.
pub proof fn lemma_seq_lt_irrefl(a: Seq<char>, i: int)
    requires
        0 <= i,
    ensures
        !seq_lt_from(a, a, i),
    decreases a.len() - i,
{
    if i < a.len() {
        lemma_seq_lt_irrefl(a, i + 1);
    }
}

/// Strict lexicographic order is asymmetric.
pub proof fn lemma_seq_lt_asym(a: Seq<char>, b: Seq<char>)
    requires
        seq_lt(a, b),
    ensures
        !seq_lt(b, a),
        a != b,
{
    if seq_lt(b, a) {
        lemma_seq_lt_trans(a, b, a);
        lemma_seq_lt_irrefl(a, 0);
    }
    if a == b {
        lemma_seq_lt_irrefl(a, 0);
    }
}

/// In a strictly sorted registry, a block of entries below the key followed
/// by a first entry not below it pins the key's sorted position.
proof fn lemma_tag_pos_pinned(tags: Seq<TagEntryV>, key: Seq<char>, lo: int, i: int)
    requires
        0 <= i <= lo <= tags.len(),
        forall|k: int| 0 <= k < lo ==> seq_lt((#[trigger] tags[k]).start_tag, key),
        lo < tags.len() ==> !seq_lt(tags[lo as int].start_tag, key),
    ensures
        spec_tag_pos(tags, key, i) == lo,
    decreases tags.len() - i,
{
    if i < lo {
        lemma_tag_pos_pinned(tags, key, lo, i + 1);
    }
}

impl DocumentV {
    /// The registry is strictly sorted by name.
    pub open spec fn tags_sorted(&self) -> bool {
        forall|i: int, j: int|
            0 <= i < j < self.tags.len() ==> seq_lt(
                self.tags[i].start_tag,
                self.tags[j].start_tag,
            )
    }

    /// One element is well-formed, as `Document::elem_wf` says, at the spec
    /// level.
    pub open spec fn elem_wf(&self, i: int) -> bool {
        &&& 0 <= self.elements[i].tag < self.tags.len()
        &&& sattrs_unique(self.elements[i].attributes)
        &&& forall|k: int|
            0 <= k < self.elements[i].contents.len() ==> match #[trigger] self.elements[i].contents[k] {
                ContentV::Element(j) => i < j < self.elements.len(),
                ContentV::Text(_) => true,
            }
    }

    /// The document invariant, at the spec level.
    pub open spec fn wf(&self) -> bool {
        &&& self.tags_sorted()
        &&& forall|i: int| 0 <= i < self.elements.len() ==> self.elem_wf(i)
    }

    /// The four skeleton ids point into the arena.
    pub open spec fn ids_wf(&self) -> bool {
        &&& 0 <= self.doc_type < self.elements.len()
        &&& 0 <= self.html < self.elements.len()
        &&& 0 <= self.head < self.elements.len()
        &&& 0 <= self.body < self.elements.len()
    }
}

/// A document is well-formed exactly when its spec-level view is.
pub proof fn lemma_doc_wf_view(d: &Document)
    ensures
        d.wf() == d@.wf(),
        d.ids_wf() == d@.ids_wf(),
{
    if d.wf() {
        assert forall|i: int| 0 <= i < d@.elements.len() implies d@.elem_wf(i) by {
            assert(d.elem_wf(i));
            assert forall|k: int|
                0 <= k < d@.elements[i].contents.len() implies match #[trigger] d@.elements[i].contents[k] {
                ContentV::Element(j) => i < j < d@.elements.len(),
                ContentV::Text(_) => true,
            } by {
                assert(d@.elements[i].contents[k] == d.elements@[i].contents@[k]@);
            }
        }
        assert(d@.wf());
    }
    if d@.wf() {
        assert forall|i: int, j: int|
            0 <= i < j < d.tags@.len() implies seq_lt(
            d.tags@[i].start_tag@,
            d.tags@[j].start_tag@,
        ) by {
            assert(d@.tags[i].start_tag == d.tags@[i].start_tag@);
            assert(d@.tags[j].start_tag == d.tags@[j].start_tag@);
            assert(d@.tags_sorted());
        }
        assert forall|i: int| 0 <= i < d.elements@.len() implies d.elem_wf(i) by {
            assert(d@.elem_wf(i));
            assert forall|k: int|
                0 <= k < d.elements@[i].contents@.len() implies match #[trigger] d.elements@[i].contents@[k] {
                ElementContent::Element(j) => i < j < d.elements@.len(),
                ElementContent::Text(_) => true,
            } by {
                assert(d@.elements[i].contents[k] == d.elements@[i].contents@[k]@);
            }
        }
        assert(d.wf());
    }
}

} // verus!

