use pagefmt::content::{Content, ContentList, ListType};
use pagefmt::page::Page;
use pagefmt::section::Section;

fn text(s: &str) -> Content {
    Content::Text(s.to_string())
}

#[test]
fn banner_only_for_empty_page() {
    let page = Page::new("T".to_string());
    let expected = format!("{}# T\n", " ".repeat(24));
    assert_eq!(page.to_string(0), expected);
}

#[test]
fn banner_pad_shrinks_with_long_titles() {
    let page = Page::new("x".repeat(48));
    let rendered = page.to_string(0);
    assert!(rendered.starts_with("# "));
    assert_eq!(rendered, format!("# {}\n", "x".repeat(48)));
}

#[test]
fn section_header_and_underline() {
    let sec = Section {
        section_num: 1,
        title: "S".to_string(),
        content: vec![text("hello")],
    };
    assert_eq!(sec.to_string(0), "\n1. S\n----\nhello\n");
}

#[test]
fn section_text_break_text() {
    let sec = Section {
        section_num: 2,
        title: "T2".to_string(),
        content: vec![text("x"), Content::BR, text("y")],
    };
    assert_eq!(sec.to_string(0), "\n2. T2\n-----\nx\n\ny\n");
}

#[test]
fn line_break_renders_single_empty_line() {
    assert_eq!(Content::BR.to_string(0), "\n");
    assert_eq!(Content::BR.to_string(3), "\n");
}

#[test]
fn hard_wrap_at_full_width() {
    let body = "x".repeat(120);
    let rendered = Content::Text(body.clone()).to_string(0);
    let expected = format!("{}\n{}\n{}\n", "x".repeat(50), "x".repeat(50), "x".repeat(20));
    assert_eq!(rendered, expected);
    // the wrap is lossless: stripping the newlines gives the body back
    assert_eq!(rendered.replace('\n', ""), body);
}

#[test]
fn hard_wrap_line_count_matches_ceiling() {
    // 101 characters at width 50 need ceil(101 / 50) = 3 lines
    let rendered = Content::Text("y".repeat(101)).to_string(0);
    assert_eq!(rendered.matches('\n').count(), 3);
}

#[test]
fn indentation_narrows_the_width() {
    // at level 1 the width is 48 and each line starts with two spaces
    let rendered = Content::Text("z".repeat(50)).to_string(1);
    let expected = format!("  {}\n  {}\n", "z".repeat(48), "z".repeat(2));
    assert_eq!(rendered, expected);
}

#[test]
fn embedded_newlines_are_preserved() {
    let rendered = Content::Text("ab\ncd".to_string()).to_string(0);
    assert_eq!(rendered, "ab\ncd\n");
}

#[test]
fn empty_text_still_takes_a_line() {
    assert_eq!(Content::Text(String::new()).to_string(0), "\n");
}

#[test]
fn ordered_list_numbering() {
    let l = ContentList {
        list_type: ListType::Ordered,
        content: vec![text("a"), text("b"), text("c")],
    };
    assert_eq!(Content::List(l).to_string(0), "1.1 a\n1.2 b\n1.3 c\n");
}

#[test]
fn unordered_list_markers() {
    let l = ContentList { list_type: ListType::Unordered, content: vec![text("a"), text("b")] };
    assert_eq!(Content::List(l).to_string(0), "- a\n- b\n");
}

#[test]
fn unordered_list_indents_with_depth() {
    let l = ContentList { list_type: ListType::Unordered, content: vec![text("a")] };
    assert_eq!(Content::List(l).to_string(1), "  - a\n");
}

#[test]
fn nested_ordered_list_deepens_prefix() {
    let inner = ContentList { list_type: ListType::Ordered, content: vec![text("x")] };
    let outer = ContentList {
        list_type: ListType::Ordered,
        content: vec![text("a"), Content::List(inner)],
    };
    assert_eq!(Content::List(outer).to_string(0), "1.1 a\n  2.1 x\n");
}

#[test]
fn nested_list_does_not_advance_counter() {
    // the counter numbers only the prefixable siblings
    let inner = ContentList { list_type: ListType::Ordered, content: vec![text("x")] };
    let outer = ContentList {
        list_type: ListType::Ordered,
        content: vec![text("a"), Content::List(inner), text("b")],
    };
    assert_eq!(Content::List(outer).to_string(0), "1.1 a\n  2.1 x\n1.2 b\n");
}

#[test]
fn line_break_inside_list_is_prefixed() {
    let l = ContentList {
        list_type: ListType::Unordered,
        content: vec![text("a"), Content::BR],
    };
    assert_eq!(Content::List(l).to_string(0), "- a\n- \n");
}

#[test]
fn page_renders_sections_in_order() {
    let mut page = Page::new("P".to_string());
    page.sections.push(Section { section_num: 1, title: "A".to_string(), content: vec![] });
    page.sections.push(Section { section_num: 2, title: "B".to_string(), content: vec![] });
    let expected = format!("{}# P\n\n1. A\n----\n\n2. B\n----\n", " ".repeat(24));
    assert_eq!(page.to_string(0), expected);
}

#[test]
fn clone_preserves_rendering() {
    let l = ContentList { list_type: ListType::Ordered, content: vec![text("a"), Content::BR] };
    let c = Content::List(l);
    assert_eq!(c.clone().to_string(0), c.to_string(0));
}
