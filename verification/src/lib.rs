//! A Markdown-to-HTML rendering engine for a federated wiki.
//!
//! Raw user text is parsed into a tree of typed nodes by an ordered set of
//! block and inline rules, transformed (heading levels shifted,
//! table-of-contents markers resolved, footnotes numbered), and serialized
//! to an HTML string.  Two rule sets exist: the article set with all
//! custom extensions, and the comment set with the base rules only.
//! Malformed custom syntax never aborts a parse: the rule declines and
//! the characters stay literal text.

pub mod ast;
pub mod block;
pub mod inline;
pub mod render;
pub mod scan;
pub mod text;
pub mod transform;

use vstd::prelude::*;

use crate::ast::{nodes_view, Node, SpecNode};
use crate::block::{
    blocks_from, collect_defs, collect_defs_x, labels_of, lines_of, parse_blocks, split_lines,
    texts_of,
};
use crate::render::{lemma_render_nodes_add, render_nodes, render_nodes_x};
use crate::text::str_to_chars;
use crate::transform::{
    assign_anchors, assign_anchors_x, dedup_labels, dedup_labels_x, footnote_section,
    footnote_section_x, has_marker_in, has_marker_in_x, heading_levels, heading_texts, heads_push,
    ref_labels, refs_push, renumber, renumber_x, replace_markers, replace_markers_x, shift_nodes,
    shift_nodes_x, toc_node,
};

verus! {

/// The kind tag a federated article edit carries on the wire.
#[derive(Clone, Debug)]
pub enum EditType {
    Edit,
}

/// The comment-mode document tree: base rules only, no custom scanners.
pub open spec fn comment_tree(s: Seq<char>) -> Seq<SpecNode> {
    blocks_from(lines_of(s), 0, lines_of(s).len() as int, 0, false, Seq::empty())
}

/// The HTML of a comment.
pub open spec fn comment_html(s: Seq<char>) -> Seq<char> {
    render_nodes(comment_tree(s))
}

/// The article-mode document tree: the full rule set, headings shifted
/// one level, table-of-contents markers resolved against the post-shift
/// headings, footnote references numbered in order of first appearance
/// and the footnote section appended.
pub open spec fn article_tree(s: Seq<char>) -> Seq<SpecNode> {
    let lines = lines_of(s);
    let defs = collect_defs(lines, 0, lines.len() as int);
    let labels = labels_of(defs);
    let parsed = blocks_from(lines, 0, lines.len() as int, 0, true, labels);
    let shifted = shift_nodes(parsed);
    let resolved = if has_marker_in(shifted) {
        replace_markers(
            assign_anchors(shifted),
            toc_node(heading_levels(shifted), heading_texts(shifted)),
        )
    } else {
        shifted
    };
    let order = dedup_labels(ref_labels(resolved));
    renumber(resolved, order) + footnote_section(order, labels, texts_of(defs), labels)
}

/// The HTML of an article.
pub open spec fn article_html(s: Seq<char>) -> Seq<char> {
    render_nodes(article_tree(s))
}

/// Renders article text: full extension set, heading shift applied.
pub fn render_article_markdown(text: &str) -> (r: String)
    ensures
        r@ == article_html(text@),
{
    let chars = str_to_chars(text);
    let lines = split_lines(&chars);
    let (labs, txts) = collect_defs_x(&lines);
    let parsed = parse_blocks(&lines, 0, lines.len(), true, &labs);
    let shifted = shift_nodes_x(&parsed);
    let resolved: Vec<Node> = if has_marker_in_x(&shifted) {
        let mut hlv: Vec<u8> = Vec::new();
        let mut htx: Vec<Vec<char>> = Vec::new();
        heads_push(&shifted, &mut hlv, &mut htx);
        proof {
            crate::transform::lemma_headings_len(nodes_view(shifted@));
            assert(htx@.len() == htx.deep_view().len());
        }
        let anchored = assign_anchors_x(&shifted);
        replace_markers_x(&anchored, &hlv, &htx)
    } else {
        shifted
    };
    let mut refs: Vec<Vec<char>> = Vec::new();
    refs_push(&resolved, &mut refs);
    let order = dedup_labels_x(&refs);
    let renumbered = renumber_x(&resolved, &order);
    let section = footnote_section_x(&order, &labs, &txts);
    let mut out = String::new();
    render_nodes_x(&renumbered, &mut out);
    render_nodes_x(&section, &mut out);
    proof {
        lemma_render_nodes_add(nodes_view(renumbered@), nodes_view(section@));
        assert(out@ =~= article_html(text@));
    }
    out
}

/// Renders comment text: base rule set only, no custom scanners, no
/// heading shift.
pub fn render_comment_markdown(text: &str) -> (r: String)
    ensures
        r@ == comment_html(text@),
{
    let chars = str_to_chars(text);
    let lines = split_lines(&chars);
    let labels: Vec<Vec<char>> = Vec::new();
    let tree = parse_blocks(&lines, 0, lines.len(), false, &labels);
    let mut out = String::new();
    proof {
        assert(labels.deep_view() =~= Seq::<Seq<char>>::empty());
    }
    render_nodes_x(&tree, &mut out);
    out
}

} // verus!
