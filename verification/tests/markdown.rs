//! Article rendering behaviour, checked against whole output strings.

use ibis_markdown::{render_article_markdown, render_comment_markdown};

#[test]
fn markdown_test_basic_markdown() {
    let input = "# Heading 1\n## Heading 2\n\nParagraph with **bold** and *italic* text.";
    let expected = "<h2>Heading 1</h2>\n<h3>Heading 2</h3>\n<p>Paragraph with <strong>bold</strong> and <em>italic</em> text.</p>\n";
    assert_eq!(render_article_markdown(input), expected);
}

#[test]
fn markdown_test_links() {
    let input = "[Example](https://example.com)";
    let expected = "<p><a href=\"https://example.com\">Example</a></p>\n";
    assert_eq!(render_article_markdown(input), expected);
}

#[test]
fn markdown_test_lists() {
    let input = "- Item 1\n- Item 2\n  1. Subitem";
    let expected = "<ul>\n<li>Item 1</li>\n<li>Item 2\n<ol>\n<li>Subitem</li>\n</ol>\n</li>\n</ul>\n";
    assert_eq!(render_article_markdown(input), expected);
}

#[test]
fn markdown_test_code() {
    let input = "Inline `code` and\n```\nblock code\n```";
    let expected = "<p>Inline <code>code</code> and</p>\n<pre><code>block code\n</code></pre>\n";
    assert_eq!(render_article_markdown(input), expected);
}

#[test]
fn markdown_test_tables() {
    let input = "| Header 1 | Header 2 |\n|----------|----------|\n| Cell 1   | Cell 2   |";
    let expected = "<table>\n<thead>\n<tr>\n<th>Header 1</th>\n<th>Header 2</th>\n</tr>\n</thead>\n<tbody>\n<tr>\n<td>Cell 1</td>\n<td>Cell 2</td>\n</tr>\n</tbody>\n</table>\n";
    assert_eq!(render_article_markdown(input), expected);
}

#[test]
fn markdown_test_math_equations() {
    // The math backend is an external collaborator; this library's duty
    // ends at extracting the expression boundaries, so the assertions
    // pin the extracted expressions and the display/inline distinction.
    let input = r#"Inline $E=mc^2$ and display $$\int_a^b f(x)dx$$"#;
    let output = render_article_markdown(input);
    let expected = "<p>Inline <span class=\"katex\">E=mc^2</span> and display <span class=\"katex-display\"><span class=\"katex\">\\int_a^b f(x)dx</span></span></p>\n";
    assert_eq!(output, expected);
}

#[test]
fn markdown_test_comment_markdown() {
    let input = "**Bold** and *italic* in comments";
    let expected = "<p><strong>Bold</strong> and <em>italic</em> in comments</p>\n";
    assert_eq!(render_comment_markdown(input), expected);
}

#[test]
fn markdown_test_table_of_contents() {
    let input = "[[toc]]\n# Heading 1\n## Subheading\n# Heading 2";
    let rendered = render_article_markdown(input);
    assert!(rendered.contains("Table of Contents"));
    assert!(rendered.contains("Heading 1"));
    assert!(rendered.contains("Subheading"));
    assert!(rendered.contains("Heading 2"));
}

#[test]
fn markdown_test_article_links() {
    let input = "[[Article@example.com]]";
    let expected = "<p><a href=\"/article/Article@example.com\">Article</a></p>\n";
    assert_eq!(render_article_markdown(input), expected);
}

#[test]
fn markdown_test_spoilers() {
    let input = "::: spoiler\nHidden content\n:::";
    let expected = "<details><summary>spoiler</summary>\n<p>Hidden content</p>\n</details>\n";
    assert_eq!(render_article_markdown(input), expected);
}

#[test]
fn markdown_test_footnotes() {
    let input = "Text with footnote[^1]\n\n[^1]: Footnote content";
    let expected = "<p>Text with footnote<sup class=\"footnote-ref\"><a href=\"#fn1\" id=\"fnref1\">1</a></sup></p>\n<section class=\"footnotes\">\n<ol>\n<li id=\"fn1\">\n<p>Footnote content <a href=\"#fnref1\" class=\"footnote-backref\">\u{21a9}</a></p>\n</li>\n</ol>\n</section>\n";
    assert_eq!(render_article_markdown(input), expected);
}
