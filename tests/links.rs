use choad::links::{convert_markdown_links, rewrite_links};
use choad::page::render_page;

#[test]
fn test_convert_markdown_links() {
    // Test basic link conversion
    let input = "This is a [link](https://example.com) in text.";
    let expected = "This is a <a href=\"https://example.com\">link</a> in text.";
    assert_eq!(convert_markdown_links(input), expected);

    // Test .md to .html conversion
    let input = "Check [this page](other.md) for more information.";
    let expected = "Check <a href=\"other.html\">this page</a> for more information.";
    assert_eq!(convert_markdown_links(input), expected);

    // Test image links (converted to plain anchors)
    let input = "An image: ![alt text](image.png)";
    let expected = "An image: <a href=\"image.png\">alt text</a>";
    assert_eq!(convert_markdown_links(input), expected);

    // Test multiple links
    let input = "[Link 1](url1.md) and [Link 2](url2)";
    let expected = "<a href=\"url1.html\">Link 1</a> and <a href=\"url2\">Link 2</a>";
    assert_eq!(convert_markdown_links(input), expected);
}

#[test]
fn plain_link_is_retargeted() {
    let out = convert_markdown_links("[link](other.md)");
    assert!(out.contains("<a href=\"other.html\">link</a>"));
    assert_eq!(out, "<a href=\"other.html\">link</a>");
}

#[test]
fn other_target_is_kept() {
    let out = convert_markdown_links("[link](https://example.com)");
    assert!(out.contains("<a href=\"https://example.com\">link</a>"));
}

#[test]
fn image_link_becomes_anchor() {
    let out = convert_markdown_links("![alt](image.png)");
    assert!(out.contains("<a href=\"image.png\">alt</a>"));
    assert!(!out.contains("<img"));
    assert!(!out.contains('!'));
}

#[test]
fn several_links_rewritten_in_turn() {
    let out = convert_markdown_links("a [x](1.md) b ![y](2) c [z](3.md)");
    assert_eq!(
        out,
        "a <a href=\"1.html\">x</a> b <a href=\"2\">y</a> c <a href=\"3.html\">z</a>"
    );
}

#[test]
fn malformed_markup_is_left_alone() {
    assert_eq!(convert_markdown_links("[](x.md)"), "[](x.md)");
    assert_eq!(convert_markdown_links("[a]()"), "[a]()");
    assert_eq!(convert_markdown_links("[a] (b)"), "[a] (b)");
    assert_eq!(convert_markdown_links("[a](b"), "[a](b");
    assert_eq!(convert_markdown_links("no links"), "no links");
    assert_eq!(convert_markdown_links(""), "");
}

#[test]
fn text_stops_at_first_bracket() {
    // The text runs to the first `]`; the target to the first `)`.
    assert_eq!(
        convert_markdown_links("[a[b](c(d)e)"),
        "<a href=\"c(d\">a[b</a>e)"
    );
    assert_eq!(convert_markdown_links("[a]b](c)"), "[a]b](c)");
}

#[test]
fn bang_without_link_is_kept() {
    assert_eq!(convert_markdown_links("wow! [a](b.md)!"), "wow! <a href=\"b.html\">a</a>!");
    assert_eq!(convert_markdown_links("!![a](b)"), "!<a href=\"b\">a</a>");
}

#[test]
fn only_exact_suffix_is_retargeted() {
    assert_eq!(convert_markdown_links("[a](b.mdx)"), "<a href=\"b.mdx\">a</a>");
    assert_eq!(convert_markdown_links("[a](.md)"), "<a href=\".html\">a</a>");
    assert_eq!(convert_markdown_links("[a](b.MD)"), "<a href=\"b.MD\">a</a>");
}

#[test]
fn multibyte_text_is_kept() {
    assert_eq!(
        convert_markdown_links("é [ü](ö.md) ß"),
        "é <a href=\"ö.html\">ü</a> ß"
    );
}

#[test]
fn links_across_lines() {
    assert_eq!(
        convert_markdown_links("[a\nb](c\nd.md)"),
        "<a href=\"c\nd.html\">a\nb</a>"
    );
}

#[test]
fn rewrite_on_characters() {
    let input: Vec<char> = "[t](u.md)".chars().collect();
    let out: String = rewrite_links(&input).into_iter().collect();
    assert_eq!(out, "<a href=\"u.html\">t</a>");
}

#[test]
fn page_wraps_whole_body_once() {
    let page = render_page("# Test\n\nThis is a [link](other.md).\n");
    assert_eq!(
        page,
        "<pre># Test\n\nThis is a <a href=\"other.html\">link</a>.\n</pre>"
    );
    assert_eq!(render_page(""), "<pre></pre>");
}

#[test]
fn page_is_the_same_each_time() {
    let body = "x [a](b.md) y";
    assert_eq!(render_page(body), render_page(body));
}
