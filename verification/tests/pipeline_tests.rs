use srmarkup::ASTProcessorVisitResult;
use srmarkup::HTMLProcessor;
use srmarkup::Parser;
use srmarkup::html_processor::collect_file_paths;
use srmarkup::visit_ast;

fn process(src: &str) -> HTMLProcessor {
    process_with_sources(src, Vec::new())
}

fn process_with_sources(src: &str, sources: Vec<(String, String)>) -> HTMLProcessor {
    let mut parser = Parser::new(String::from(src));
    let root = match parser.parse() {
        Ok(root) => root,
        Err(e) => panic!("unexpected parse errors: {:?}", e),
    };
    let mut processor = HTMLProcessor::new();
    for (path, text) in sources {
        processor.add_file_source(path, text);
    }
    let r = visit_ast(&root, &mut processor);
    assert!(r != ASTProcessorVisitResult::Halt);
    processor
}

#[test]
fn class_and_full_size_combine_into_one_class_string() {
    let processor = process("@text(Class=\"hero\" Size=\"Full\"){ hi }");
    let body = processor.render_body_contents();
    assert_eq!(body, "<p class=\"hero post-full\">\nhi</p>\n");
}

#[test]
fn half_size_appends_post_half() {
    let processor = process("@text(Size=\"half\"){ hi }");
    let body = processor.render_body_contents();
    assert_eq!(body, "<p class=\" post-half\">\nhi</p>\n");
}

#[test]
fn an_unknown_size_adds_no_class() {
    let processor = process("@text(Size=\"tiny\" Class=\"a\"){ hi }");
    let body = processor.render_body_contents();
    assert_eq!(body, "<p class=\"a\">\nhi</p>\n");
}

#[test]
fn header_extracts_metadata_and_its_children_are_skipped() {
    let processor = process("@header(Title=\"X\" Theme=\"dark\" Date=\"today\" CoverImage=\"c.png\"){ \"ignored\" }");
    assert_eq!(processor.title, "X");
    assert_eq!(processor.theme, "dark");
    assert_eq!(processor.date, "today");
    assert_eq!(processor.cover_image, "c.png");
    // the skipped body leaves nothing behind, and end_tag was suppressed, so
    // the body element stays the innermost open element and stays empty
    assert_eq!(processor.render_body_contents(), "");
}

#[test]
fn tag_names_are_remapped_to_html_ones() {
    let processor = process("@ulist{ @listitem{ one } }");
    let body = processor.render_body_contents();
    assert_eq!(body, "<ul>\n<li>\none</li>\n</ul>\n");
}

#[test]
fn text_content_is_escaped() {
    let processor = process("@text{ a \\\"quoted\\\" claim about 1 < 2 }");
    let body = processor.render_body_contents();
    assert!(body.contains("&quot;quoted&quot;"));
    assert!(body.contains("1 &lt; 2"));
}

#[test]
fn literals_render_through_their_text() {
    let processor = process("@text{ \"s\" 2.50 true }");
    let body = processor.render_body_contents();
    assert_eq!(body, "<p>\ns2.5true</p>\n");
}

#[test]
fn literal_content_is_escaped_like_text() {
    let processor = process("@text{ \"a&b<c\" }");
    let body = processor.render_body_contents();
    assert_eq!(body, "<p>\na&amp;b&lt;c</p>\n");
}

#[test]
fn an_image_takes_src_and_alt() {
    let processor = process("@image(Src=\"a.png\" Alt=\"alt text\")");
    let body = processor.render_body_contents();
    assert_eq!(body, "<img src=\"a.png\" alt=\"alt text\">\n");
}

#[test]
fn a_link_takes_href() {
    let processor = process("@link(Src=\"https://e.example\"){ go }");
    let body = processor.render_body_contents();
    assert_eq!(body, "<a href=\"https://e.example\">\ngo</a>\n");
}

#[test]
fn a_video_gets_controls_and_a_source_child() {
    let processor = process("@video(Src=\"v.mp4\")");
    let body = processor.render_body_contents();
    assert_eq!(
        body,
        "<video controls>\n<source type=\"video/mp4\" src=\"v.mp4\">\n</video>\n"
    );
}

#[test]
fn a_file_tag_splices_preloaded_escaped_text() {
    let sources = vec![(String::from("notes.txt"), String::from("x < y"))];
    let processor = process_with_sources("@text{ @file(Source=\"notes.txt\") }", sources);
    let body = processor.render_body_contents();
    assert_eq!(body, "<p>\nx &lt; y</p>\n");
}

#[test]
fn a_file_tag_without_preloaded_text_contributes_nothing() {
    let processor = process("@text{ @file(Source=\"missing.txt\") }");
    let body = processor.render_body_contents();
    assert_eq!(body, "<p>\n</p>\n");
}

#[test]
fn collect_file_paths_lists_sources_in_document_order() {
    let mut parser = Parser::new(String::from(
        "@t{ @file(Source=\"a.txt\") @u{ @file(Source=\"b.txt\") } }",
    ));
    let root = parser.parse().unwrap();
    let mut paths: Vec<String> = Vec::new();
    collect_file_paths(&root, &mut paths);
    assert_eq!(paths, vec![String::from("a.txt"), String::from("b.txt")]);
}

#[test]
fn nested_tags_attach_in_document_order() {
    let processor = process("@div{ first @span{ second } third }");
    let body = processor.render_body_contents();
    assert_eq!(body, "<div>\nfirst<span>\nsecond</span>\nthird</div>\n");
}
