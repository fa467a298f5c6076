//! Behaviour stated by the library's laws and edge cases, on concrete
//! inputs.

use ibis_markdown::{render_article_markdown, render_comment_markdown};

#[test]
fn escaping_is_idempotent_on_rendered_text() {
    // Rendering already-escaped literal text never escapes it again.
    let raw = "5 & 6 < 7 > 4";
    let once = render_comment_markdown(raw);
    assert_eq!(once, "<p>5 &amp; 6 &lt; 7 &gt; 4</p>\n");
    let escaped_text = "5 &amp; 6 &lt; 7 &gt; 4";
    let twice = render_comment_markdown(escaped_text);
    assert_eq!(twice, format!("<p>{}</p>\n", escaped_text));
}

#[test]
fn entities_pass_through() {
    assert_eq!(render_comment_markdown("&copy; &#169;"), "<p>&copy; &#169;</p>\n");
}

#[test]
fn heading_shift_by_level() {
    // Article mode renders a level-L source heading one level deeper for
    // L up to 5; level 6 stays 6, the deepest representable level.
    // Comment mode keeps every level unchanged.
    assert_eq!(render_article_markdown("# T"), "<h2>T</h2>\n");
    assert_eq!(render_article_markdown("## T"), "<h3>T</h3>\n");
    assert_eq!(render_article_markdown("### T"), "<h4>T</h4>\n");
    assert_eq!(render_article_markdown("#### T"), "<h5>T</h5>\n");
    assert_eq!(render_article_markdown("##### T"), "<h6>T</h6>\n");
    assert_eq!(render_article_markdown("###### T"), "<h6>T</h6>\n");
    assert_eq!(render_comment_markdown("# T"), "<h1>T</h1>\n");
    assert_eq!(render_comment_markdown("###### T"), "<h6>T</h6>\n");
}

#[test]
fn comment_mode_keeps_custom_syntax_literal() {
    // The comment rule set has no article-link and no math rule.
    assert_eq!(render_comment_markdown("[[X]]"), "<p>[[X]]</p>\n");
    assert_eq!(render_comment_markdown("$x$"), "<p>$x$</p>\n");
    assert_eq!(render_comment_markdown("a [[Article@b]] and $y^2$"), "<p>a [[Article@b]] and $y^2$</p>\n");
}

#[test]
fn toc_nests_by_level() {
    // Headings 1,2,1 give a two-branch nested list: the second heading
    // nested under the first, the third a sibling of the first.
    let input = "[!toc]\n# One\n## Two\n# Three";
    let output = render_article_markdown(input);
    let expected_list = "<ul>\n<li><a href=\"#One\">One</a>\n<ul>\n<li><a href=\"#Two\">Two</a></li>\n</ul>\n</li>\n<li><a href=\"#Three\">Three</a></li>\n</ul>\n";
    assert!(output.contains(expected_list), "got: {}", output);
    assert!(output.contains("<h2 id=\"One\">One</h2>"));
}

#[test]
fn toc_without_headings_renders_empty_container() {
    let output = render_article_markdown("[!toc]");
    assert_eq!(
        output,
        "<div class=\"table-of-contents not-prose\">\n<h2>Table of Contents</h2>\n</div>\n"
    );
}

#[test]
fn article_link_without_domain() {
    assert_eq!(
        render_article_markdown("[[Name]]"),
        "<p><a href=\"/article/Name\">Name</a></p>\n"
    );
}

#[test]
fn unterminated_custom_syntax_stays_literal() {
    // A rule that cannot complete its syntax declines; the characters
    // stay literal, escaped text.
    assert_eq!(render_article_markdown("[[Name"), "<p>[[Name</p>\n");
    assert_eq!(render_article_markdown("$x"), "<p>$x</p>\n");
    assert_eq!(render_article_markdown("a $x\nb$ c"), "<p>a $x\nb$ c</p>\n");
}

#[test]
fn spoiler_without_close_stays_literal() {
    let output = render_article_markdown("::: spoiler\nHidden");
    assert!(!output.contains("<details>"));
    assert!(output.contains("Hidden"));
}

#[test]
fn footnote_reference_without_definition_stays_literal() {
    assert_eq!(render_article_markdown("a[^1] b"), "<p>a[^1] b</p>\n");
}

#[test]
fn two_references_one_note() {
    let output = render_article_markdown("a[^x] b[^x]\n\n[^x]: note");
    assert!(output.contains("#fn1"));
    assert!(!output.contains("#fn2"));
    assert!(output.contains("<section class=\"footnotes\">"));
}

#[test]
fn math_display_and_inline_are_distinguished() {
    assert_eq!(
        render_article_markdown("$$x$$"),
        "<p><span class=\"katex-display\"><span class=\"katex\">x</span></span></p>\n"
    );
    assert_eq!(
        render_article_markdown("$x$"),
        "<p><span class=\"katex\">x</span></p>\n"
    );
}

#[test]
fn text_is_escaped() {
    assert_eq!(
        render_comment_markdown("<script>\"&\""),
        "<p>&lt;script&gt;&quot;&amp;&quot;</p>\n"
    );
}

#[test]
fn fenced_code_with_language() {
    assert_eq!(
        render_article_markdown("```rust\nlet x = 1;\n```"),
        "<pre><code class=\"language-rust\">let x = 1;\n</code></pre>\n"
    );
}

#[test]
fn blockquote_and_rule() {
    assert_eq!(
        render_comment_markdown("> quoted"),
        "<blockquote>\n<p>quoted</p>\n</blockquote>\n"
    );
    assert_eq!(render_comment_markdown("---"), "<hr />\n");
}

#[test]
fn setext_headings() {
    assert_eq!(render_comment_markdown("Title\n====="), "<h1>Title</h1>\n");
    assert_eq!(render_comment_markdown("Title\n-----"), "<h2>Title</h2>\n");
}

#[test]
fn autolink_and_strikethrough() {
    assert_eq!(
        render_comment_markdown("<https://a.example/b>"),
        "<p><a href=\"https://a.example/b\">https://a.example/b</a></p>\n"
    );
    assert_eq!(render_comment_markdown("~~gone~~"), "<p><s>gone</s></p>\n");
}

#[test]
fn subscript_and_superscript_in_articles_only() {
    assert_eq!(render_article_markdown("H~2~O"), "<p>H<sub>2</sub>O</p>\n");
    assert_eq!(render_article_markdown("x^2^"), "<p>x<sup>2</sup></p>\n");
    assert_eq!(render_comment_markdown("H~2~O"), "<p>H~2~O</p>\n");
    assert_eq!(render_comment_markdown("x^2^"), "<p>x^2^</p>\n");
}

#[test]
fn typographic_replacements() {
    assert_eq!(render_comment_markdown("(c) (r) (tm)"), "<p>\u{a9} \u{ae} \u{2122}</p>\n");
}

#[test]
fn backslash_escapes_punctuation() {
    assert_eq!(render_comment_markdown("\\*not em\\*"), "<p>*not em*</p>\n");
}

#[test]
fn empty_input_renders_empty() {
    assert_eq!(render_article_markdown(""), "");
    assert_eq!(render_comment_markdown(""), "");
}
