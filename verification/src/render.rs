//! The renderer: a deterministic, order-preserving walk of the tree that
//! emits one HTML fragment per node kind, escaping every literal text run.

use vstd::prelude::*;

use crate::ast::{node_view, nodes_view, Node, SpecNode};
use crate::text::{decimal_digits, escape_range, escape_text, push_decimal};
use vstd::string::StringExecFns;

verus! {

/// The HTML of one node.
pub open spec fn render_node(n: SpecNode) -> Seq<char>
    decreases n, 0int,
{
    match n {
        SpecNode::Text { text } => escape_text(text),
        SpecNode::CodeSpan { code } => "<code>"@ + escape_text(code) + "</code>"@,
        SpecNode::Emphasis { children } => "<em>"@ + render_nodes(children) + "</em>"@,
        SpecNode::Strong { children } => "<strong>"@ + render_nodes(children) + "</strong>"@,
        SpecNode::Strikethrough { children } => "<s>"@ + render_nodes(children) + "</s>"@,
        SpecNode::Subscript { children } => "<sub>"@ + render_nodes(children) + "</sub>"@,
        SpecNode::Superscript { children } => "<sup>"@ + render_nodes(children) + "</sup>"@,
        SpecNode::Link { href, children } => "<a href=\""@ + escape_text(href) + "\">"@
            + render_nodes(children) + "</a>"@,
        SpecNode::Autolink { url } => "<a href=\""@ + escape_text(url) + "\">"@ + escape_text(url)
            + "</a>"@,
        SpecNode::ArticleLink { target, label } => "<a href=\"/article/"@ + escape_text(target)
            + "\">"@ + escape_text(label) + "</a>"@,
        SpecNode::MathSpan { expr, display } => {
            if display {
                "<span class=\"katex-display\"><span class=\"katex\">"@ + escape_text(expr)
                    + "</span></span>"@
            } else {
                "<span class=\"katex\">"@ + escape_text(expr) + "</span>"@
            }
        },
        SpecNode::FootnoteRef { label, num } => "<sup class=\"footnote-ref\"><a href=\"#fn"@
            + decimal_digits(num as int) + "\" id=\"fnref"@ + decimal_digits(num as int) + "\">"@
            + decimal_digits(num as int) + "</a></sup>"@,
        SpecNode::TocMarker => Seq::empty(),
        SpecNode::Paragraph { children } => "<p>"@ + render_nodes(children) + "</p>\n"@,
        SpecNode::Heading { level, anchor, children } => {
            let open = match anchor {
                Option::Some(a) => "<h"@ + decimal_digits(level as int) + " id=\""@ + escape_text(
                    a,
                ) + "\">"@,
                Option::None => "<h"@ + decimal_digits(level as int) + ">"@,
            };
            open + render_nodes(children) + "</h"@ + decimal_digits(level as int) + ">\n"@
        },
        SpecNode::CodeBlock { info, text } => {
            if info.len() == 0 {
                "<pre><code>"@ + escape_text(text) + "</code></pre>\n"@
            } else {
                "<pre><code class=\"language-"@ + escape_text(info) + "\">"@ + escape_text(text)
                    + "</code></pre>\n"@
            }
        },
        SpecNode::Blockquote { children } => "<blockquote>\n"@ + render_nodes(children)
            + "</blockquote>\n"@,
        SpecNode::Hr => "<hr />\n"@,
        SpecNode::List { ordered, items } => {
            if ordered {
                "<ol>\n"@ + render_nodes(items) + "</ol>\n"@
            } else {
                "<ul>\n"@ + render_nodes(items) + "</ul>\n"@
            }
        },
        SpecNode::ListItem { children } => "<li>"@ + render_item_children(children) + "</li>\n"@,
        SpecNode::Table { children } => {
            if children.len() >= 1 {
                "<table>\n<thead>\n"@ + render_node(children[0]) + "</thead>\n"@ + (if children.len()
                    > 1 {
                    "<tbody>\n"@ + render_nodes(children.drop_first()) + "</tbody>\n"@
                } else {
                    Seq::empty()
                }) + "</table>\n"@
            } else {
                "<table>\n</table>\n"@
            }
        },
        SpecNode::TableRow { header, children } => "<tr>\n"@ + render_nodes(children) + "</tr>\n"@,
        SpecNode::TableCell { header, children } => {
            if header {
                "<th>"@ + render_nodes(children) + "</th>\n"@
            } else {
                "<td>"@ + render_nodes(children) + "</td>\n"@
            }
        },
        SpecNode::SpoilerBlock { summary, children } => "<details><summary>"@ + escape_text(
            summary,
        ) + "</summary>\n"@ + render_nodes(children) + "</details>\n"@,
        SpecNode::TocList { children } => "<div class=\"table-of-contents not-prose\">\n<h2>Table of Contents</h2>\n"@
            + render_nodes(children) + "</div>\n"@,
        SpecNode::Footnote { num, children } => "<li id=\"fn"@ + decimal_digits(num as int)
            + "\">\n<p>"@ + render_nodes(children) + " <a href=\"#fnref"@ + decimal_digits(
            num as int,
        ) + "\" class=\"footnote-backref\">\u{21a9}</a></p>\n</li>\n"@,
        SpecNode::FootnoteSection { children } => "<section class=\"footnotes\">\n<ol>\n"@
            + render_nodes(children) + "</ol>\n</section>\n"@,
    }
}

/// The HTML of a node sequence, in order.
pub open spec fn render_nodes(ns: Seq<SpecNode>) -> Seq<char>
    decreases ns, 1int,
{
    if ns.len() == 0 {
        Seq::empty()
    } else {
        render_node(ns[0]) + render_nodes(ns.drop_first())
    }
}

/// The HTML of a list item's children: a nested list is set off by a
/// newline from the item's inline content.
pub open spec fn render_item_children(ns: Seq<SpecNode>) -> Seq<char>
    decreases ns, 1int,
{
    if ns.len() == 0 {
        Seq::empty()
    } else {
        (match ns[0] {
            SpecNode::List { .. } => seq!['\n'] + render_node(ns[0]),
            _ => render_node(ns[0]),
        }) + render_item_children(ns.drop_first())
    }
}

/// Rendering distributes over concatenation of trees.
pub proof fn lemma_render_nodes_add(a: Seq<SpecNode>, b: Seq<SpecNode>)
    ensures
        render_nodes(a + b) == render_nodes(a) + render_nodes(b),
    decreases a.len(),
{
    if a.len() == 0 {
        assert(a + b =~= b);
        assert(render_nodes(a) + render_nodes(b) =~= render_nodes(b));
    } else {
        lemma_render_nodes_add(a.drop_first(), b);
        assert((a + b).drop_first() =~= a.drop_first() + b);
        assert((a + b)[0] == a[0]);
        assert(render_nodes(a + b) =~= render_nodes(a) + render_nodes(b));
    }
}

/// Appends one node's HTML to `out`.
#[verifier::rlimit(100)]
pub fn render_node_x(n: &Node, out: &mut String)
    ensures
        final(out)@ == old(out)@ + render_node(node_view(*n)),
    decreases *n, 0int,
{
    match n {
        Node::Text { text } => {
            escape_range(text, 0, text.len(), out);
            proof {
                assert(text@.subrange(0, text@.len() as int) =~= text@);
            }
        },
        Node::CodeSpan { code } => {
            out.append("<code>");
            escape_range(code, 0, code.len(), out);
            out.append("</code>");
            proof {
                assert(code@.subrange(0, code@.len() as int) =~= code@);
            }
        },
        Node::Emphasis { children } => {
            out.append("<em>");
            render_nodes_x(children, out);
            out.append("</em>");
        },
        Node::Strong { children } => {
            out.append("<strong>");
            render_nodes_x(children, out);
            out.append("</strong>");
        },
        Node::Strikethrough { children } => {
            out.append("<s>");
            render_nodes_x(children, out);
            out.append("</s>");
        },
        Node::Subscript { children } => {
            out.append("<sub>");
            render_nodes_x(children, out);
            out.append("</sub>");
        },
        Node::Superscript { children } => {
            out.append("<sup>");
            render_nodes_x(children, out);
            out.append("</sup>");
        },
        Node::Link { href, children } => {
            out.append("<a href=\"");
            escape_range(href, 0, href.len(), out);
            out.append("\">");
            render_nodes_x(children, out);
            out.append("</a>");
            proof {
                assert(href@.subrange(0, href@.len() as int) =~= href@);
            }
        },
        Node::Autolink { url } => {
            out.append("<a href=\"");
            escape_range(url, 0, url.len(), out);
            out.append("\">");
            escape_range(url, 0, url.len(), out);
            out.append("</a>");
            proof {
                assert(url@.subrange(0, url@.len() as int) =~= url@);
            }
        },
        Node::ArticleLink { target, label } => {
            out.append("<a href=\"/article/");
            escape_range(target, 0, target.len(), out);
            out.append("\">");
            escape_range(label, 0, label.len(), out);
            out.append("</a>");
            proof {
                assert(target@.subrange(0, target@.len() as int) =~= target@);
                assert(label@.subrange(0, label@.len() as int) =~= label@);
            }
        },
        Node::MathSpan { expr, display } => {
            if *display {
                out.append("<span class=\"katex-display\"><span class=\"katex\">");
                escape_range(expr, 0, expr.len(), out);
                out.append("</span></span>");
            } else {
                out.append("<span class=\"katex\">");
                escape_range(expr, 0, expr.len(), out);
                out.append("</span>");
            }
            proof {
                assert(expr@.subrange(0, expr@.len() as int) =~= expr@);
            }
        },
        Node::FootnoteRef { label, num } => {
            out.append("<sup class=\"footnote-ref\"><a href=\"#fn");
            push_decimal(out, *num);
            out.append("\" id=\"fnref");
            push_decimal(out, *num);
            out.append("\">");
            push_decimal(out, *num);
            out.append("</a></sup>");
        },
        Node::TocMarker => {
        },
        Node::Paragraph { children } => {
            out.append("<p>");
            render_nodes_x(children, out);
            out.append("</p>\n");
        },
        Node::Heading { level, anchor, children } => {
            out.append("<h");
            push_decimal(out, *level as usize);
            match anchor {
                Option::Some(a) => {
                    out.append(" id=\"");
                    escape_range(a, 0, a.len(), out);
                    out.append("\">");
                    proof {
                        assert(a@.subrange(0, a@.len() as int) =~= a@);
                    }
                },
                Option::None => {
                    out.append(">");
                },
            }
            render_nodes_x(children, out);
            out.append("</h");
            push_decimal(out, *level as usize);
            out.append(">\n");
        },
        Node::CodeBlock { info, text } => {
            if info.len() == 0 {
                out.append("<pre><code>");
            } else {
                out.append("<pre><code class=\"language-");
                escape_range(info, 0, info.len(), out);
                out.append("\">");
            }
            escape_range(text, 0, text.len(), out);
            out.append("</code></pre>\n");
            proof {
                assert(info@.subrange(0, info@.len() as int) =~= info@);
                assert(text@.subrange(0, text@.len() as int) =~= text@);
            }
        },
        Node::Blockquote { children } => {
            out.append("<blockquote>\n");
            render_nodes_x(children, out);
            out.append("</blockquote>\n");
        },
        Node::Hr => {
            out.append("<hr />\n");
        },
        Node::List { ordered, items } => {
            if *ordered {
                out.append("<ol>\n");
                render_nodes_x(items, out);
                out.append("</ol>\n");
            } else {
                out.append("<ul>\n");
                render_nodes_x(items, out);
                out.append("</ul>\n");
            }
        },
        Node::ListItem { children } => {
            out.append("<li>");
            render_item_children_x(children, out);
            out.append("</li>\n");
        },
        Node::Table { children } => {
            if children.len() >= 1 {
                out.append("<table>\n<thead>\n");
                render_node_x(&children[0], out);
                out.append("</thead>\n");
                if children.len() > 1 {
                    out.append("<tbody>\n");
                    render_tail_x(children, out);
                    out.append("</tbody>\n");
                }
                out.append("</table>\n");
                proof {
                    crate::ast::lemma_nodes_view_index(children@);
                    assert(nodes_view(children@).drop_first() =~= nodes_view(children@).skip(1));
                    if children@.len() == 1 {
                        assert(nodes_view(children@).skip(1) =~= Seq::<SpecNode>::empty());
                    }
                }
            } else {
                out.append("<table>\n</table>\n");
            }
        },
        Node::TableRow { header, children } => {
            out.append("<tr>\n");
            render_nodes_x(children, out);
            out.append("</tr>\n");
        },
        Node::TableCell { header, children } => {
            if *header {
                out.append("<th>");
                render_nodes_x(children, out);
                out.append("</th>\n");
            } else {
                out.append("<td>");
                render_nodes_x(children, out);
                out.append("</td>\n");
            }
        },
        Node::SpoilerBlock { summary, children } => {
            out.append("<details><summary>");
            escape_range(summary, 0, summary.len(), out);
            out.append("</summary>\n");
            render_nodes_x(children, out);
            out.append("</details>\n");
            proof {
                assert(summary@.subrange(0, summary@.len() as int) =~= summary@);
            }
        },
        Node::TocList { children } => {
            out.append("<div class=\"table-of-contents not-prose\">\n<h2>Table of Contents</h2>\n");
            render_nodes_x(children, out);
            out.append("</div>\n");
        },
        Node::Footnote { num, children } => {
            out.append("<li id=\"fn");
            push_decimal(out, *num);
            out.append("\">\n<p>");
            render_nodes_x(children, out);
            out.append(" <a href=\"#fnref");
            push_decimal(out, *num);
            out.append("\" class=\"footnote-backref\">\u{21a9}</a></p>\n</li>\n");
        },
        Node::FootnoteSection { children } => {
            out.append("<section class=\"footnotes\">\n<ol>\n");
            render_nodes_x(children, out);
            out.append("</ol>\n</section>\n");
        },
    }
}

/// Appends the HTML of all nodes but the first to `out`.
fn render_tail_x(ns: &Vec<Node>, out: &mut String)
    requires
        ns@.len() >= 1,
    ensures
        final(out)@ == old(out)@ + render_nodes(nodes_view(ns@).skip(1)),
    decreases *ns, 1int,
{
    let ghost nv = nodes_view(ns@);
    let mut k: usize = 1;
    proof {
        crate::ast::lemma_nodes_view_index(ns@);
    }
    while k < ns.len()
        invariant
            1 <= k <= ns@.len(),
            nv == nodes_view(ns@),
            nv.len() == ns@.len(),
            forall|q: int| 0 <= q < ns@.len() ==> nv[q] == node_view(ns@[q]),
            out@ + render_nodes(nv.skip(k as int)) == old(out)@ + render_nodes(nv.skip(1)),
        decreases ns@.len() - k,
    {
        proof {
            assert(nv.skip(k as int).drop_first() =~= nv.skip(k + 1));
        }
        render_node_x(&ns[k], out);
        k = k + 1;
    }
    proof {
        assert(nv.skip(ns@.len() as int) =~= Seq::<SpecNode>::empty());
    }
}

/// Appends the HTML of all nodes to `out`.
pub fn render_nodes_x(ns: &Vec<Node>, out: &mut String)
    ensures
        final(out)@ == old(out)@ + render_nodes(nodes_view(ns@)),
    decreases *ns, 1int,
{
    let ghost nv = nodes_view(ns@);
    let mut k: usize = 0;
    proof {
        crate::ast::lemma_nodes_view_index(ns@);
        assert(nv.skip(0) =~= nv);
    }
    while k < ns.len()
        invariant
            k <= ns@.len(),
            nv == nodes_view(ns@),
            nv.len() == ns@.len(),
            forall|q: int| 0 <= q < ns@.len() ==> nv[q] == node_view(ns@[q]),
            out@ + render_nodes(nv.skip(k as int)) == old(out)@ + render_nodes(nv),
        decreases ns@.len() - k,
    {
        proof {
            assert(nv.skip(k as int).drop_first() =~= nv.skip(k + 1));
        }
        render_node_x(&ns[k], out);
        k = k + 1;
    }
    proof {
        assert(nv.skip(ns@.len() as int) =~= Seq::<SpecNode>::empty());
    }
}

/// Appends the HTML of a list item's children to `out`.
pub fn render_item_children_x(ns: &Vec<Node>, out: &mut String)
    ensures
        final(out)@ == old(out)@ + render_item_children(nodes_view(ns@)),
    decreases *ns, 1int,
{
    let ghost nv = nodes_view(ns@);
    let mut k: usize = 0;
    proof {
        crate::ast::lemma_nodes_view_index(ns@);
        assert(nv.skip(0) =~= nv);
    }
    while k < ns.len()
        invariant
            k <= ns@.len(),
            nv == nodes_view(ns@),
            nv.len() == ns@.len(),
            forall|q: int| 0 <= q < ns@.len() ==> nv[q] == node_view(ns@[q]),
            out@ + render_item_children(nv.skip(k as int)) == old(out)@ + render_item_children(
                nv,
            ),
        decreases ns@.len() - k,
    {
        proof {
            assert(nv.skip(k as int).drop_first() =~= nv.skip(k + 1));
        }
        let is_sub = match &ns[k] {
            Node::List { .. } => true,
            _ => false,
        };
        if is_sub {
            out.append("\n");
            proof {
                reveal_strlit("\n");
                assert("\n"@ =~= seq!['\n']);
            }
        }
        render_node_x(&ns[k], out);
        k = k + 1;
    }
    proof {
        assert(nv.skip(ns@.len() as int) =~= Seq::<SpecNode>::empty());
    }
}

} // verus!
