use srmarkup::Document;
use srmarkup::ElementContent;
use srmarkup::create_meta_tag;
use srmarkup::escape;

fn render_to_string(doc: &Document, id: u32) -> String {
    let mut out = String::new();
    doc.render(&mut out, id);
    out
}

#[test]
fn a_bare_non_void_element_renders_as_two_tag_lines() {
    let mut doc = Document::default();
    let id = doc.create_element("section");
    assert_eq!(render_to_string(&doc, id), "<section>\n</section>\n");
}

#[test]
fn a_bare_void_element_renders_as_one_tag_line() {
    let mut doc = Document::default();
    let id = doc.create_element("img");
    assert_eq!(render_to_string(&doc, id), "<img>\n");
}

#[test]
fn tag_names_are_interned_lowercase() {
    let mut doc = Document::default();
    let id = doc.create_element("DIV");
    assert_eq!(render_to_string(&doc, id), "<div>\n</div>\n");
}

#[test]
fn attributes_render_with_quotes_and_empty_values_bare() {
    let mut doc = Document::default();
    let id = doc.create_element("p");
    doc.set_attribute(id, &String::from("Class"), String::from("hero"));
    doc.set_attribute(id, &String::from("hidden"), String::new());
    assert_eq!(
        render_to_string(&doc, id),
        "<p class=\"hero\" hidden>\n</p>\n"
    );
}

#[test]
fn setting_an_attribute_twice_keeps_one_key() {
    let mut doc = Document::default();
    let id = doc.create_element("p");
    doc.set_attribute(id, &String::from("class"), String::from("a"));
    doc.set_attribute(id, &String::from("CLASS"), String::from("b"));
    assert_eq!(render_to_string(&doc, id), "<p class=\"b\">\n</p>\n");
}

#[test]
fn removing_an_attribute_removes_its_text() {
    let mut doc = Document::default();
    let id = doc.create_element("p");
    doc.set_attribute(id, &String::from("class"), String::from("a"));
    doc.remove_attribute(id, &String::from("class"));
    assert_eq!(render_to_string(&doc, id), "<p>\n</p>\n");
}

#[test]
fn contents_render_in_order_and_nest() {
    let mut doc = Document::default();
    let outer = doc.create_element("div");
    let inner = doc.create_element("span");
    doc.push_content(inner, ElementContent::Text(String::from("x")));
    doc.push_content(outer, ElementContent::Text(String::from("a")));
    doc.push_content(outer, ElementContent::Element(inner));
    doc.push_content(outer, ElementContent::Text(String::from("b")));
    assert_eq!(
        render_to_string(&doc, outer),
        "<div>\na<span>\nx</span>\nb</div>\n"
    );
}

#[test]
fn removing_content_drops_the_item() {
    let mut doc = Document::default();
    let outer = doc.create_element("div");
    doc.push_content(outer, ElementContent::Text(String::from("a")));
    doc.push_content(outer, ElementContent::Text(String::from("b")));
    doc.remove_content(outer, 0);
    assert_eq!(render_to_string(&doc, outer), "<div>\nb</div>\n");
}

#[test]
fn insert_content_at_respects_the_position() {
    let mut doc = Document::default();
    let outer = doc.create_element("div");
    doc.push_content(outer, ElementContent::Text(String::from("b")));
    doc.insert_content_at(outer, 0, ElementContent::Text(String::from("a")));
    assert_eq!(render_to_string(&doc, outer), "<div>\nab</div>\n");
}

#[test]
fn a_comment_element_is_wrapped_in_comment_markers() {
    let mut doc = Document::default();
    let id = doc.create_element("p");
    doc.set_is_comment(id, true);
    assert_eq!(render_to_string(&doc, id), "<!--\n<p>\n</p>\n-->\n");
}

#[test]
fn interning_a_fresh_name_keeps_every_existing_element_name() {
    let mut doc = Document::default();
    let a = doc.create_element("div");
    let b = doc.create_element("span");
    // a fresh name that sorts before the existing ones shifts registry
    // positions; the elements must keep their names
    let c = doc.create_element("Greeting");
    let d = doc.create_element("aardvark");
    assert_eq!(render_to_string(&doc, a), "<div>\n</div>\n");
    assert_eq!(render_to_string(&doc, b), "<span>\n</span>\n");
    assert_eq!(render_to_string(&doc, c), "<greeting>\n</greeting>\n");
    assert_eq!(render_to_string(&doc, d), "<aardvark>\n</aardvark>\n");
}

#[test]
fn interning_twice_returns_the_same_id() {
    let mut doc = Document::default();
    let t1 = doc.tag_id_from_string("custom");
    let t2 = doc.tag_id_from_string("CUSTOM");
    assert_eq!(t1, t2);
}

#[test]
fn the_default_document_skeleton_renders() {
    let doc = Document::default();
    // the document type tag is void, so it renders as its bare tag line
    assert_eq!(render_to_string(&doc, doc.doc_type), "<!doctype html>\n");
    let out = render_to_string(&doc, doc.html);
    assert!(out.starts_with("<html lang=\"en\">\n"));
    assert!(out.contains("<meta charset=\"utf-8\">\n"));
    assert!(out.contains("name=\"viewport\""));
    assert!(out.contains("content=\"width=device-width, initial-scale=1.0\""));
    assert!(out.contains("http-equiv=\"X-UA-Compatible\""));
    assert!(out.contains("content=\"ie=edge\""));
    assert!(out.contains("<head>\n"));
    assert!(out.contains("<body>\n"));
    assert!(out.ends_with("</html>\n"));
}

#[test]
fn create_meta_tag_sets_name_and_content() {
    let mut doc = Document::default();
    let id = create_meta_tag(&mut doc, String::from("author"), String::from("ann"));
    assert_eq!(
        render_to_string(&doc, id),
        "<meta name=\"author\" content=\"ann\">\n"
    );
}

#[test]
fn escape_replaces_the_five_special_characters() {
    assert_eq!(escape("a&<>\"'b"), "a&amp;&lt;&gt;&quot;&#039;b");
    assert_eq!(escape("plain"), "plain");
    assert_eq!(escape(""), "");
}
