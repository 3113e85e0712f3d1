use guild_core::portfolio::{escape_html, extract_first_paragraph, slugify};
use guild_core::site::markdown_to_html;

#[test]
fn test_slugify() {
    assert_eq!(slugify("My Project"), "my-project");
    assert_eq!(slugify("Project-123_4.5"), "project-123-4-5");
    assert_eq!(slugify("  Special   Characters!@# "), "special-characters");
}

#[test]
fn test_escape_html() {
    assert_eq!(
        escape_html("<script>alert('xss')</script>"),
        "&lt;script&gt;alert(&#x27;xss&#x27;)&lt;/script&gt;"
    );
    assert_eq!(escape_html("Hello & World"), "Hello &amp; World");
}

#[test]
fn test_extract_first_paragraph() {
    let markdown = "\
# Header 1

This is the first paragraph.
It spans multiple lines.

This is the second paragraph.
";
    assert_eq!(
        extract_first_paragraph(markdown),
        "This is the first paragraph.\nIt spans multiple lines."
    );

    let markdown_no_para = "\
# Only Headers
## No Paragraphs
";
    assert_eq!(extract_first_paragraph(markdown_no_para), "");
}

#[test]
fn test_markdown_to_html() {
    let markdown = "# Title\n\nHello **world** with `code`.";
    let html = markdown_to_html(markdown);
    assert!(html.contains("<h1>Title</h1>"));
    assert!(html.contains("Hello <strong>world</strong> with <code>code</code>."));
}
