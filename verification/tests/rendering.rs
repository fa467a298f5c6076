//! Article rendering behaviour, checked on fragments of the output.

use ibis_markdown::{render_article_markdown, render_comment_markdown};

#[test]
fn mod_test_basic_markdown() {
    let input = "# Heading 1\n## Heading 2\n\nParagraph with **bold** and *italic* text.";
    let output = render_article_markdown(input);

    assert!(output.contains("Heading 1</h"));
    assert!(output.contains("Heading 2</h"));
    assert!(output.contains("<p>Paragraph with"));
    assert!(output.contains("<strong>bold</strong>"));
    assert!(output.contains("<em>italic</em>"));
}

#[test]
fn mod_test_links() {
    let input = "[Example](https://example.com)";
    let output = render_article_markdown(input);

    assert!(output.contains("<a href=\"https://example.com\">"));
    assert!(output.contains(">Example</a>"));
    assert!(output.contains("<p>") && output.contains("</p>"));
}

#[test]
fn mod_test_lists() {
    let input = "- Item 1\n- Item 2\n  1. Subitem";
    let expected = "<ul>\n<li>Item 1</li>\n<li>Item 2\n<ol>\n<li>Subitem</li>\n</ol>\n</li>\n</ul>\n";
    assert_eq!(render_article_markdown(input), expected);
}

#[test]
fn mod_test_code() {
    let input = "Inline `code` and\n```\nblock code\n```";
    let expected = "<p>Inline <code>code</code> and</p>\n<pre><code>block code\n</code></pre>\n";
    assert_eq!(render_article_markdown(input), expected);
}

#[test]
fn mod_test_tables() {
    let input = "| Header 1 | Header 2 |\n|----------|----------|\n| Cell 1   | Cell 2   |";
    let expected = "<table>\n<thead>\n<tr>\n<th>Header 1</th>\n<th>Header 2</th>\n</tr>\n</thead>\n<tbody>\n<tr>\n<td>Cell 1</td>\n<td>Cell 2</td>\n</tr>\n</tbody>\n</table>\n";
    assert_eq!(render_article_markdown(input), expected);
}

#[test]
fn mod_test_math_equations() {
    let input = r#"Inline $E=mc^2$ and display $$\int_a^b f(x)dx$$"#;
    let output = render_article_markdown(input);

    assert!(output.contains("katex"));
    assert!(output.contains("E=mc^2"));
    assert!(output.contains(r"\int_a^b f(x)dx"));
    assert!(output.contains("<p>") && output.contains("</p>"));
}

#[test]
fn mod_test_comment_markdown() {
    let input = "**Bold** and *italic* in comments";
    let expected = "<p><strong>Bold</strong> and <em>italic</em> in comments</p>\n";
    assert_eq!(render_comment_markdown(input), expected);
}

#[test]
fn mod_test_table_of_contents() {
    let input = "[!toc]\n# Heading 1\n## Subheading\n# Heading 2";
    let rendered = render_article_markdown(input);

    assert!(rendered.contains("Table of Contents"));
    assert!(rendered.contains("Heading 1"));
    assert!(rendered.contains("Subheading"));
    assert!(rendered.contains("Heading 2"));
    assert!(rendered.contains("href="));
    assert!(rendered.contains("not-prose"));
}

#[test]
fn mod_test_article_links() {
    let input = "[[Article@example.com]]";
    let output = render_article_markdown(input);

    assert!(output.contains(r#"href="/article/Article@example.com""#));
    assert!(output.contains(">Article</a>"));
    assert!(output.contains("<p>") && output.contains("</p>"));
}

#[test]
fn mod_test_spoilers() {
    let input = "::: spoiler\nHidden content\n:::";
    let output = render_article_markdown(input);

    println!("Spoiler test output:\n{}", output);

    assert!(output.contains("spoiler"), "Spoiler title missing");
    assert!(output.contains("Hidden content"), "Spoiler content missing");
    assert!(
        output.contains("<p>") && output.contains("</p>"),
        "Content not wrapped in paragraphs"
    );
}

#[test]
fn mod_test_footnotes() {
    let input = "Text with footnote[^1]\n\n[^1]: Footnote content";
    let output = render_article_markdown(input);

    assert!(output.contains("Text with footnote"));
    assert!(output.contains("footnote-ref"));
    assert!(output.contains("footnotes"));
    assert!(output.contains("Footnote content"));
    assert!(output.contains("fn1"));
    assert!(output.contains("fnref1"));
}
