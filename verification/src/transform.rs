//! Tree transform passes run between parsing and rendering.
//!
//! Article rendering shifts every heading one level down (clamped at the
//! deepest level), resolves table-of-contents markers against the
//! document's headings, and numbers footnote references in order of first
//! appearance, appending the footnote section.

use vstd::prelude::*;

use crate::ast::{lemma_nodes_view_push, node_view, nodes_view, Node, SpecNode};
use crate::inline::{inline_nodes, parse_inline};
use crate::scan::{chars_eq, subvec};
use crate::text::{ascii_alnum, is_ascii_alnum};

verus! {

// --- heading shift ---

/// A heading level moved one step down, clamped at 6.
pub open spec fn shifted_level(level: u8) -> u8 {
    if level >= 6 {
        6
    } else {
        (level + 1) as u8
    }
}

/// The tree with every heading's level shifted.
pub open spec fn shift_node(n: SpecNode) -> SpecNode
    decreases n, 0int,
{
    match n {
        SpecNode::Heading { level, anchor, children } => SpecNode::Heading {
            level: shifted_level(level),
            anchor,
            children: shift_nodes(children),
        },
        SpecNode::Emphasis { children } => SpecNode::Emphasis { children: shift_nodes(children) },
        SpecNode::Strong { children } => SpecNode::Strong { children: shift_nodes(children) },
        SpecNode::Strikethrough { children } => SpecNode::Strikethrough {
            children: shift_nodes(children),
        },
        SpecNode::Subscript { children } => SpecNode::Subscript {
            children: shift_nodes(children),
        },
        SpecNode::Superscript { children } => SpecNode::Superscript {
            children: shift_nodes(children),
        },
        SpecNode::Link { href, children } => SpecNode::Link {
            href,
            children: shift_nodes(children),
        },
        SpecNode::Paragraph { children } => SpecNode::Paragraph {
            children: shift_nodes(children),
        },
        SpecNode::Blockquote { children } => SpecNode::Blockquote {
            children: shift_nodes(children),
        },
        SpecNode::List { ordered, items } => SpecNode::List {
            ordered,
            items: shift_nodes(items),
        },
        SpecNode::ListItem { children } => SpecNode::ListItem { children: shift_nodes(children) },
        SpecNode::Table { children } => SpecNode::Table { children: shift_nodes(children) },
        SpecNode::TableRow { header, children } => SpecNode::TableRow {
            header,
            children: shift_nodes(children),
        },
        SpecNode::TableCell { header, children } => SpecNode::TableCell {
            header,
            children: shift_nodes(children),
        },
        SpecNode::SpoilerBlock { summary, children } => SpecNode::SpoilerBlock {
            summary,
            children: shift_nodes(children),
        },
        SpecNode::TocList { children } => SpecNode::TocList { children: shift_nodes(children) },
        SpecNode::Footnote { num, children } => SpecNode::Footnote {
            num,
            children: shift_nodes(children),
        },
        SpecNode::FootnoteSection { children } => SpecNode::FootnoteSection {
            children: shift_nodes(children),
        },
        _ => n,
    }
}

pub open spec fn shift_nodes(ns: Seq<SpecNode>) -> Seq<SpecNode>
    decreases ns, 1int,
{
    if ns.len() == 0 {
        Seq::empty()
    } else {
        seq![shift_node(ns[0])] + shift_nodes(ns.drop_first())
    }
}

/// The heading-shift law: a source heading of level 1 to 5 comes out
/// exactly one level deeper, with the same anchor and content; level 6
/// stays 6, since deeper levels do not exist.
pub proof fn lemma_heading_shift(level: u8, anchor: Option<Seq<char>>, children: Seq<SpecNode>)
    requires
        1 <= level <= 5,
    ensures
        shift_node(SpecNode::Heading { level, anchor, children }) == (SpecNode::Heading {
            level: (level + 1) as u8,
            anchor,
            children: shift_nodes(children),
        }),
{
}

// --- table of contents ---

/// Whether a table-of-contents marker occurs anywhere in the tree.
pub open spec fn has_marker(n: SpecNode) -> bool
    decreases n, 0int,
{
    match n {
        SpecNode::TocMarker => true,
        SpecNode::Heading { children, .. } => has_marker_in(children),
        SpecNode::Emphasis { children } => has_marker_in(children),
        SpecNode::Strong { children } => has_marker_in(children),
        SpecNode::Strikethrough { children } => has_marker_in(children),
        SpecNode::Subscript { children } => has_marker_in(children),
        SpecNode::Superscript { children } => has_marker_in(children),
        SpecNode::Link { children, .. } => has_marker_in(children),
        SpecNode::Paragraph { children } => has_marker_in(children),
        SpecNode::Blockquote { children } => has_marker_in(children),
        SpecNode::List { items, .. } => has_marker_in(items),
        SpecNode::ListItem { children } => has_marker_in(children),
        SpecNode::Table { children } => has_marker_in(children),
        SpecNode::TableRow { children, .. } => has_marker_in(children),
        SpecNode::TableCell { children, .. } => has_marker_in(children),
        SpecNode::SpoilerBlock { children, .. } => has_marker_in(children),
        SpecNode::TocList { children } => has_marker_in(children),
        SpecNode::Footnote { children, .. } => has_marker_in(children),
        SpecNode::FootnoteSection { children } => has_marker_in(children),
        _ => false,
    }
}

pub open spec fn has_marker_in(ns: Seq<SpecNode>) -> bool
    decreases ns, 1int,
{
    if ns.len() == 0 {
        false
    } else {
        has_marker(ns[0]) || has_marker_in(ns.drop_first())
    }
}

/// The plain text of inline content: literal runs and code spans,
/// concatenated.
pub open spec fn plain_text(ns: Seq<SpecNode>) -> Seq<char>
    decreases ns, 1int,
{
    if ns.len() == 0 {
        Seq::empty()
    } else {
        plain_text_node(ns[0]) + plain_text(ns.drop_first())
    }
}

pub open spec fn plain_text_node(n: SpecNode) -> Seq<char>
    decreases n, 0int,
{
    match n {
        SpecNode::Text { text } => text,
        SpecNode::CodeSpan { code } => code,
        SpecNode::Emphasis { children } => plain_text(children),
        SpecNode::Strong { children } => plain_text(children),
        SpecNode::Strikethrough { children } => plain_text(children),
        SpecNode::Subscript { children } => plain_text(children),
        SpecNode::Superscript { children } => plain_text(children),
        SpecNode::Link { children, .. } => plain_text(children),
        _ => Seq::empty(),
    }
}

/// The slug of a heading text: alphanumerics kept, spaces become
/// hyphens, everything else is dropped.
pub open spec fn slug_of(s: Seq<char>) -> Seq<char>
    decreases s.len(),
{
    if s.len() == 0 {
        Seq::empty()
    } else if is_ascii_alnum(s[0]) {
        seq![s[0]] + slug_of(s.drop_first())
    } else if s[0] == ' ' {
        seq!['-'] + slug_of(s.drop_first())
    } else {
        slug_of(s.drop_first())
    }
}

/// The levels of all headings, in document order.
pub open spec fn heading_levels(ns: Seq<SpecNode>) -> Seq<u8>
    decreases ns, 1int,
{
    if ns.len() == 0 {
        Seq::empty()
    } else {
        heading_levels_node(ns[0]) + heading_levels(ns.drop_first())
    }
}

pub open spec fn heading_levels_node(n: SpecNode) -> Seq<u8>
    decreases n, 0int,
{
    match n {
        SpecNode::Heading { level, .. } => seq![level],
        SpecNode::Blockquote { children } => heading_levels(children),
        SpecNode::SpoilerBlock { children, .. } => heading_levels(children),
        _ => Seq::empty(),
    }
}

/// The plain texts of all headings, in document order.
pub open spec fn heading_texts(ns: Seq<SpecNode>) -> Seq<Seq<char>>
    decreases ns, 1int,
{
    if ns.len() == 0 {
        Seq::empty()
    } else {
        heading_texts_node(ns[0]) + heading_texts(ns.drop_first())
    }
}

pub open spec fn heading_texts_node(n: SpecNode) -> Seq<Seq<char>>
    decreases n, 0int,
{
    match n {
        SpecNode::Heading { children, .. } => seq![plain_text(children)],
        SpecNode::Blockquote { children } => heading_texts(children),
        SpecNode::SpoilerBlock { children, .. } => heading_texts(children),
        _ => Seq::empty(),
    }
}

/// A document has as many heading levels as heading texts.
pub proof fn lemma_headings_len(ns: Seq<SpecNode>)
    ensures
        heading_levels(ns).len() == heading_texts(ns).len(),
    decreases ns, 1int,
{
    if ns.len() > 0 {
        lemma_headings_len_node(ns[0]);
        lemma_headings_len(ns.drop_first());
    }
}

proof fn lemma_headings_len_node(n: SpecNode)
    ensures
        heading_levels_node(n).len() == heading_texts_node(n).len(),
    decreases n, 0int,
{
    match n {
        SpecNode::Blockquote { children } => {
            lemma_headings_len(children);
        },
        SpecNode::SpoilerBlock { children, .. } => {
            lemma_headings_len(children);
        },
        _ => {},
    }
}

/// Every heading gains its slug as anchor id.
pub open spec fn assign_anchors(ns: Seq<SpecNode>) -> Seq<SpecNode>
    decreases ns, 1int,
{
    if ns.len() == 0 {
        Seq::empty()
    } else {
        seq![assign_anchors_node(ns[0])] + assign_anchors(ns.drop_first())
    }
}

pub open spec fn assign_anchors_node(n: SpecNode) -> SpecNode
    decreases n, 0int,
{
    match n {
        SpecNode::Heading { level, anchor, children } => SpecNode::Heading {
            level,
            anchor: Option::Some(slug_of(plain_text(children))),
            children,
        },
        SpecNode::Blockquote { children } => SpecNode::Blockquote {
            children: assign_anchors(children),
        },
        SpecNode::SpoilerBlock { summary, children } => SpecNode::SpoilerBlock {
            summary,
            children: assign_anchors(children),
        },
        _ => n,
    }
}

/// First index in `[lo, hi)` whose level is not deeper than `lvl`, or `hi`.
pub open spec fn next_shallow(lv: Seq<u8>, lo: int, hi: int, lvl: u8) -> int
    decreases hi - lo,
{
    if lo < 0 || lo >= hi || hi > lv.len() {
        hi
    } else if lv[lo] > lvl {
        next_shallow(lv, lo + 1, hi, lvl)
    } else {
        lo
    }
}

/// The nested list items mirroring the heading structure of
/// `(lv, tx)[lo..hi]`: a heading is nested under the most recent
/// shallower one; same levels are siblings.
pub open spec fn toc_items(lv: Seq<u8>, tx: Seq<Seq<char>>, lo: int, hi: int) -> Seq<SpecNode>
    decreases hi - lo,
{
    if lo < 0 || lo >= hi || hi > lv.len() || hi > tx.len() {
        Seq::empty()
    } else {
        let k = next_shallow(lv, lo + 1, hi, lv[lo]);
        if lo + 1 <= k <= hi {
            let entry = SpecNode::Link {
                href: seq!['#'] + slug_of(tx[lo]),
                children: seq![SpecNode::Text { text: tx[lo] }],
            };
            let children = if k > lo + 1 {
                seq![entry] + seq![
                    SpecNode::List { ordered: false, items: toc_items(lv, tx, lo + 1, k) },
                ]
            } else {
                seq![entry]
            };
            seq![SpecNode::ListItem { children }] + toc_items(lv, tx, k, hi)
        } else {
            Seq::empty()
        }
    }
}

/// The resolved table of contents: an empty container when the document
/// has no headings.
pub open spec fn toc_node(lv: Seq<u8>, tx: Seq<Seq<char>>) -> SpecNode {
    if lv.len() == 0 {
        SpecNode::TocList { children: Seq::empty() }
    } else {
        SpecNode::TocList {
            children: seq![
                SpecNode::List {
                    ordered: false,
                    items: toc_items(lv, tx, 0, lv.len() as int),
                },
            ],
        }
    }
}

/// Every marker is replaced by the table of contents; a paragraph whose
/// only child is a marker becomes the table of contents itself.
pub open spec fn replace_markers(ns: Seq<SpecNode>, toc: SpecNode) -> Seq<SpecNode>
    decreases ns, 1int,
{
    if ns.len() == 0 {
        Seq::empty()
    } else {
        seq![replace_markers_node(ns[0], toc)] + replace_markers(ns.drop_first(), toc)
    }
}

pub open spec fn replace_markers_node(n: SpecNode, toc: SpecNode) -> SpecNode
    decreases n, 0int,
{
    match n {
        SpecNode::TocMarker => toc,
        SpecNode::Paragraph { children } => {
            if children.len() == 1 && children[0] is TocMarker {
                toc
            } else {
                SpecNode::Paragraph { children: replace_markers(children, toc) }
            }
        },
        SpecNode::Blockquote { children } => SpecNode::Blockquote {
            children: replace_markers(children, toc),
        },
        SpecNode::SpoilerBlock { summary, children } => SpecNode::SpoilerBlock {
            summary,
            children: replace_markers(children, toc),
        },
        SpecNode::ListItem { children } => SpecNode::ListItem {
            children: replace_markers(children, toc),
        },
        SpecNode::List { ordered, items } => SpecNode::List {
            ordered,
            items: replace_markers(items, toc),
        },
        _ => n,
    }
}

// --- footnote numbering ---

/// The labels of all footnote references, in document order, with
/// repetitions.
pub open spec fn ref_labels(ns: Seq<SpecNode>) -> Seq<Seq<char>>
    decreases ns, 1int,
{
    if ns.len() == 0 {
        Seq::empty()
    } else {
        ref_labels_node(ns[0]) + ref_labels(ns.drop_first())
    }
}

pub open spec fn ref_labels_node(n: SpecNode) -> Seq<Seq<char>>
    decreases n, 0int,
{
    match n {
        SpecNode::FootnoteRef { label, .. } => seq![label],
        SpecNode::Emphasis { children } => ref_labels(children),
        SpecNode::Strong { children } => ref_labels(children),
        SpecNode::Strikethrough { children } => ref_labels(children),
        SpecNode::Subscript { children } => ref_labels(children),
        SpecNode::Superscript { children } => ref_labels(children),
        SpecNode::Link { children, .. } => ref_labels(children),
        SpecNode::Heading { children, .. } => ref_labels(children),
        SpecNode::Paragraph { children } => ref_labels(children),
        SpecNode::Blockquote { children } => ref_labels(children),
        SpecNode::List { items, .. } => ref_labels(items),
        SpecNode::ListItem { children } => ref_labels(children),
        SpecNode::Table { children } => ref_labels(children),
        SpecNode::TableRow { children, .. } => ref_labels(children),
        SpecNode::TableCell { children, .. } => ref_labels(children),
        SpecNode::SpoilerBlock { children, .. } => ref_labels(children),
        _ => Seq::empty(),
    }
}

/// The labels with later repetitions dropped: order of first appearance.
pub open spec fn dedup_labels(s: Seq<Seq<char>>) -> Seq<Seq<char>>
    decreases s.len(),
{
    if s.len() == 0 {
        Seq::empty()
    } else {
        let front = dedup_labels(s.drop_last());
        if s.drop_last().contains(s.last()) {
            front
        } else {
            front + seq![s.last()]
        }
    }
}

/// First index of `lab` in `order`, or the length when absent.
pub open spec fn idx_of(order: Seq<Seq<char>>, lab: Seq<char>) -> int
    decreases order.len(),
{
    if order.len() == 0 {
        0
    } else if order[0] == lab {
        0
    } else {
        1 + idx_of(order.drop_first(), lab)
    }
}

/// Every footnote reference numbered by its label's place in `order`.
pub open spec fn renumber(ns: Seq<SpecNode>, order: Seq<Seq<char>>) -> Seq<SpecNode>
    decreases ns, 1int,
{
    if ns.len() == 0 {
        Seq::empty()
    } else {
        seq![renumber_node(ns[0], order)] + renumber(ns.drop_first(), order)
    }
}

pub open spec fn renumber_node(n: SpecNode, order: Seq<Seq<char>>) -> SpecNode
    decreases n, 0int,
{
    match n {
        SpecNode::FootnoteRef { label, .. } => SpecNode::FootnoteRef {
            label,
            num: if idx_of(order, label) < order.len() {
                (idx_of(order, label) + 1) as usize
            } else {
                0
            },
        },
        SpecNode::Emphasis { children } => SpecNode::Emphasis {
            children: renumber(children, order),
        },
        SpecNode::Strong { children } => SpecNode::Strong {
            children: renumber(children, order),
        },
        SpecNode::Strikethrough { children } => SpecNode::Strikethrough {
            children: renumber(children, order),
        },
        SpecNode::Subscript { children } => SpecNode::Subscript {
            children: renumber(children, order),
        },
        SpecNode::Superscript { children } => SpecNode::Superscript {
            children: renumber(children, order),
        },
        SpecNode::Link { href, children } => SpecNode::Link {
            href,
            children: renumber(children, order),
        },
        SpecNode::Heading { level, anchor, children } => SpecNode::Heading {
            level,
            anchor,
            children: renumber(children, order),
        },
        SpecNode::Paragraph { children } => SpecNode::Paragraph {
            children: renumber(children, order),
        },
        SpecNode::Blockquote { children } => SpecNode::Blockquote {
            children: renumber(children, order),
        },
        SpecNode::List { ordered, items } => SpecNode::List {
            ordered,
            items: renumber(items, order),
        },
        SpecNode::ListItem { children } => SpecNode::ListItem {
            children: renumber(children, order),
        },
        SpecNode::Table { children } => SpecNode::Table { children: renumber(children, order) },
        SpecNode::TableRow { header, children } => SpecNode::TableRow {
            header,
            children: renumber(children, order),
        },
        SpecNode::TableCell { header, children } => SpecNode::TableCell {
            header,
            children: renumber(children, order),
        },
        SpecNode::SpoilerBlock { summary, children } => SpecNode::SpoilerBlock {
            summary,
            children: renumber(children, order),
        },
        _ => n,
    }
}

/// The trailing footnote section: one numbered note per referenced
/// label, holding the definition's inline-parsed content.
pub open spec fn footnote_section(
    order: Seq<Seq<char>>,
    labs: Seq<Seq<char>>,
    txts: Seq<Seq<char>>,
    labels: Seq<Seq<char>>,
) -> Seq<SpecNode> {
    if order.len() == 0 {
        Seq::empty()
    } else {
        seq![SpecNode::FootnoteSection { children: footnotes(order, labs, txts, labels, 0) }]
    }
}

pub open spec fn footnotes(
    order: Seq<Seq<char>>,
    labs: Seq<Seq<char>>,
    txts: Seq<Seq<char>>,
    labels: Seq<Seq<char>>,
    k: int,
) -> Seq<SpecNode>
    decreases order.len() - k,
{
    if k < 0 || k >= order.len() {
        Seq::empty()
    } else {
        seq![
            SpecNode::Footnote {
                num: (k + 1) as usize,
                children: inline_nodes(def_text_of(labs, txts, order[k]), true, labels),
            },
        ] + footnotes(order, labs, txts, labels, k + 1)
    }
}

/// The definition text of a label: the content of its first definition,
/// or empty when none exists.
pub open spec fn def_text_of(labs: Seq<Seq<char>>, txts: Seq<Seq<char>>, lab: Seq<char>) -> Seq<
    char,
> {
    let k = idx_of(labs, lab);
    if 0 <= k < txts.len() {
        txts[k]
    } else {
        Seq::empty()
    }
}

// --- executable passes ---

fn copy_chars(v: &Vec<char>) -> (r: Vec<char>)
    ensures
        r@ == v@,
{
    let r = subvec(v, 0, v.len());
    proof {
        assert(v@.subrange(0, v@.len() as int) =~= v@);
    }
    r
}

fn copy_anchor(a: &Option<Vec<char>>) -> (r: Option<Vec<char>>)
    ensures
        match r {
            Option::Some(v) => a is Some && v@ == a->Some_0@,
            Option::None => a is None,
        },
{
    match a {
        Option::Some(v) => Option::Some(copy_chars(v)),
        Option::None => Option::None,
    }
}

/// Applies the heading shift to one node.
#[verifier::rlimit(100)]
pub fn shift_node_x(n: &Node) -> (r: Node)
    ensures
        node_view(r) == shift_node(node_view(*n)),
    decreases *n, 0int,
{
    match n {
        Node::Heading { level, anchor, children } => {
            let lvl: u8 = if *level >= 6 {
                6
            } else {
                *level + 1
            };
            Node::Heading { level: lvl, anchor: copy_anchor(anchor), children: shift_nodes_x(children) }
        },
        Node::Emphasis { children } => Node::Emphasis { children: shift_nodes_x(children) },
        Node::Strong { children } => Node::Strong { children: shift_nodes_x(children) },
        Node::Strikethrough { children } => Node::Strikethrough {
            children: shift_nodes_x(children),
        },
        Node::Subscript { children } => Node::Subscript { children: shift_nodes_x(children) },
        Node::Superscript { children } => Node::Superscript { children: shift_nodes_x(children) },
        Node::Link { href, children } => Node::Link {
            href: copy_chars(href),
            children: shift_nodes_x(children),
        },
        Node::Paragraph { children } => Node::Paragraph { children: shift_nodes_x(children) },
        Node::Blockquote { children } => Node::Blockquote { children: shift_nodes_x(children) },
        Node::List { ordered, items } => Node::List {
            ordered: *ordered,
            items: shift_nodes_x(items),
        },
        Node::ListItem { children } => Node::ListItem { children: shift_nodes_x(children) },
        Node::Table { children } => Node::Table { children: shift_nodes_x(children) },
        Node::TableRow { header, children } => Node::TableRow {
            header: *header,
            children: shift_nodes_x(children),
        },
        Node::TableCell { header, children } => Node::TableCell {
            header: *header,
            children: shift_nodes_x(children),
        },
        Node::SpoilerBlock { summary, children } => Node::SpoilerBlock {
            summary: copy_chars(summary),
            children: shift_nodes_x(children),
        },
        Node::TocList { children } => Node::TocList { children: shift_nodes_x(children) },
        Node::Footnote { num, children } => Node::Footnote {
            num: *num,
            children: shift_nodes_x(children),
        },
        Node::FootnoteSection { children } => Node::FootnoteSection {
            children: shift_nodes_x(children),
        },
        Node::Text { text } => Node::Text { text: copy_chars(text) },
        Node::CodeSpan { code } => Node::CodeSpan { code: copy_chars(code) },
        Node::Autolink { url } => Node::Autolink { url: copy_chars(url) },
        Node::ArticleLink { target, label } => Node::ArticleLink {
            target: copy_chars(target),
            label: copy_chars(label),
        },
        Node::MathSpan { expr, display } => Node::MathSpan {
            expr: copy_chars(expr),
            display: *display,
        },
        Node::FootnoteRef { label, num } => Node::FootnoteRef {
            label: copy_chars(label),
            num: *num,
        },
        Node::TocMarker => Node::TocMarker,
        Node::CodeBlock { info, text } => Node::CodeBlock {
            info: copy_chars(info),
            text: copy_chars(text),
        },
        Node::Hr => Node::Hr,
    }
}

/// Applies the heading shift to a whole tree.
pub fn shift_nodes_x(ns: &Vec<Node>) -> (r: Vec<Node>)
    ensures
        nodes_view(r@) == shift_nodes(nodes_view(ns@)),
    decreases *ns, 1int,
{
    let ghost nv = nodes_view(ns@);
    proof {
        crate::ast::lemma_nodes_view_index(ns@);
        assert(nv.skip(0) =~= nv);
    }
    let mut out: Vec<Node> = Vec::new();
    let mut k: usize = 0;
    while k < ns.len()
        invariant
            k <= ns@.len(),
            nv == nodes_view(ns@),
            nv.len() == ns@.len(),
            forall|q: int| 0 <= q < ns@.len() ==> nv[q] == node_view(ns@[q]),
            shift_nodes(nv) == nodes_view(out@) + shift_nodes(nv.skip(k as int)),
        decreases ns@.len() - k,
    {
        let sn = shift_node_x(&ns[k]);
        proof {
            lemma_nodes_view_push(out@, sn);
        }
        out.push(sn);
        proof {
            assert(nv.skip(k as int).drop_first() =~= nv.skip(k + 1));
            assert(nodes_view(out@) + shift_nodes(nv.skip(k + 1)) =~= shift_nodes(nv));
        }
        k = k + 1;
    }
    proof {
        assert(nv.skip(ns@.len() as int) =~= Seq::<SpecNode>::empty());
        assert(nodes_view(out@) =~= shift_nodes(nv));
    }
    out
}

fn has_marker_x(n: &Node) -> (r: bool)
    ensures
        r == has_marker(node_view(*n)),
    decreases *n, 0int,
{
    match n {
        Node::TocMarker => true,
        Node::Heading { children, .. } => has_marker_in_x(children),
        Node::Emphasis { children } => has_marker_in_x(children),
        Node::Strong { children } => has_marker_in_x(children),
        Node::Strikethrough { children } => has_marker_in_x(children),
        Node::Subscript { children } => has_marker_in_x(children),
        Node::Superscript { children } => has_marker_in_x(children),
        Node::Link { children, .. } => has_marker_in_x(children),
        Node::Paragraph { children } => has_marker_in_x(children),
        Node::Blockquote { children } => has_marker_in_x(children),
        Node::List { items, .. } => has_marker_in_x(items),
        Node::ListItem { children } => has_marker_in_x(children),
        Node::Table { children } => has_marker_in_x(children),
        Node::TableRow { children, .. } => has_marker_in_x(children),
        Node::TableCell { children, .. } => has_marker_in_x(children),
        Node::SpoilerBlock { children, .. } => has_marker_in_x(children),
        Node::TocList { children } => has_marker_in_x(children),
        Node::Footnote { children, .. } => has_marker_in_x(children),
        Node::FootnoteSection { children } => has_marker_in_x(children),
        _ => false,
    }
}

/// Whether a table-of-contents marker occurs anywhere in the tree.
pub fn has_marker_in_x(ns: &Vec<Node>) -> (r: bool)
    ensures
        r == has_marker_in(nodes_view(ns@)),
    decreases *ns, 1int,
{
    let ghost nv = nodes_view(ns@);
    proof {
        crate::ast::lemma_nodes_view_index(ns@);
        assert(nv.skip(0) =~= nv);
    }
    let mut k: usize = 0;
    while k < ns.len()
        invariant
            k <= ns@.len(),
            nv == nodes_view(ns@),
            nv.len() == ns@.len(),
            forall|q: int| 0 <= q < ns@.len() ==> nv[q] == node_view(ns@[q]),
            has_marker_in(nv) == has_marker_in(nv.skip(k as int)),
        decreases ns@.len() - k,
    {
        proof {
            assert(nv.skip(k as int).drop_first() =~= nv.skip(k + 1));
        }
        if has_marker_x(&ns[k]) {
            return true;
        }
        k = k + 1;
    }
    proof {
        assert(nv.skip(ns@.len() as int) =~= Seq::<SpecNode>::empty());
    }
    false
}

fn plain_push_node(n: &Node, out: &mut Vec<char>)
    ensures
        final(out)@ == old(out)@ + plain_text_node(node_view(*n)),
    decreases *n, 0int,
{
    match n {
        Node::Text { text } => {
            crate::scan::extend_chars(out, text);
        },
        Node::CodeSpan { code } => {
            crate::scan::extend_chars(out, code);
        },
        Node::Emphasis { children } => {
            plain_push(children, out);
        },
        Node::Strong { children } => {
            plain_push(children, out);
        },
        Node::Strikethrough { children } => {
            plain_push(children, out);
        },
        Node::Subscript { children } => {
            plain_push(children, out);
        },
        Node::Superscript { children } => {
            plain_push(children, out);
        },
        Node::Link { children, .. } => {
            plain_push(children, out);
        },
        _ => {
            proof {
                assert(old(out)@ + plain_text_node(node_view(*n)) =~= old(out)@);
            }
        },
    }
}

fn plain_push(ns: &Vec<Node>, out: &mut Vec<char>)
    ensures
        final(out)@ == old(out)@ + plain_text(nodes_view(ns@)),
    decreases *ns, 1int,
{
    let ghost nv = nodes_view(ns@);
    proof {
        crate::ast::lemma_nodes_view_index(ns@);
        assert(nv.skip(0) =~= nv);
    }
    let mut k: usize = 0;
    while k < ns.len()
        invariant
            k <= ns@.len(),
            nv == nodes_view(ns@),
            nv.len() == ns@.len(),
            forall|q: int| 0 <= q < ns@.len() ==> nv[q] == node_view(ns@[q]),
            out@ + plain_text(nv.skip(k as int)) == old(out)@ + plain_text(nv),
        decreases ns@.len() - k,
    {
        proof {
            assert(nv.skip(k as int).drop_first() =~= nv.skip(k + 1));
        }
        plain_push_node(&ns[k], out);
        k = k + 1;
    }
    proof {
        assert(nv.skip(ns@.len() as int) =~= Seq::<SpecNode>::empty());
    }
}

fn slug_x(s: &Vec<char>) -> (r: Vec<char>)
    ensures
        r@ == slug_of(s@),
{
    let slen = s.len();
    proof {
        assert(s@.skip(0) =~= s@);
    }
    let mut out: Vec<char> = Vec::new();
    let mut k: usize = 0;
    while k < slen
        invariant
            k <= slen,
            slen == s@.len(),
            slug_of(s@) == out@ + slug_of(s@.skip(k as int)),
        decreases slen - k,
    {
        let c = s[k];
        proof {
            assert(s@.skip(k as int)[0] == s@[k as int]);
            assert(s@.skip(k as int).drop_first() =~= s@.skip(k + 1));
        }
        if ascii_alnum(c) {
            out.push(c);
        } else if c == ' ' {
            out.push('-');
        }
        k = k + 1;
    }
    proof {
        assert(s@.skip(slen as int) =~= Seq::<char>::empty());
    }
    out
}

fn heads_push_node(n: &Node, lv: &mut Vec<u8>, tx: &mut Vec<Vec<char>>)
    ensures
        final(lv)@ == old(lv)@ + heading_levels_node(node_view(*n)),
        final(tx).deep_view() == old(tx).deep_view() + heading_texts_node(node_view(*n)),
    decreases *n, 0int,
{
    match n {
        Node::Heading { level, children, .. } => {
            lv.push(*level);
            let mut t: Vec<char> = Vec::new();
            plain_push(children, &mut t);
            let ghost tp = tx.deep_view();
            proof {
                assert(t.deep_view() =~= t@);
            }
            tx.push(t);
            proof {
                assert(lv@ =~= old(lv)@ + heading_levels_node(node_view(*n)));
                assert(tx.deep_view() =~= tp + heading_texts_node(node_view(*n)));
            }
        },
        Node::Blockquote { children } => {
            heads_push(children, lv, tx);
        },
        Node::SpoilerBlock { children, .. } => {
            heads_push(children, lv, tx);
        },
        _ => {
            proof {
                assert(lv@ =~= old(lv)@ + heading_levels_node(node_view(*n)));
                assert(tx.deep_view() =~= old(tx).deep_view() + heading_texts_node(
                    node_view(*n),
                ));
            }
        },
    }
}

/// Collects every heading's level and plain text, in document order.
pub fn heads_push(ns: &Vec<Node>, lv: &mut Vec<u8>, tx: &mut Vec<Vec<char>>)
    ensures
        final(lv)@ == old(lv)@ + heading_levels(nodes_view(ns@)),
        final(tx).deep_view() == old(tx).deep_view() + heading_texts(nodes_view(ns@)),
    decreases *ns, 1int,
{
    let ghost nv = nodes_view(ns@);
    proof {
        crate::ast::lemma_nodes_view_index(ns@);
        assert(nv.skip(0) =~= nv);
    }
    let mut k: usize = 0;
    while k < ns.len()
        invariant
            k <= ns@.len(),
            nv == nodes_view(ns@),
            nv.len() == ns@.len(),
            forall|q: int| 0 <= q < ns@.len() ==> nv[q] == node_view(ns@[q]),
            lv@ + heading_levels(nv.skip(k as int)) == old(lv)@ + heading_levels(nv),
            tx.deep_view() + heading_texts(nv.skip(k as int)) == old(tx).deep_view()
                + heading_texts(nv),
        decreases ns@.len() - k,
    {
        proof {
            assert(nv.skip(k as int).drop_first() =~= nv.skip(k + 1));
        }
        heads_push_node(&ns[k], lv, tx);
        k = k + 1;
    }
    proof {
        assert(nv.skip(ns@.len() as int) =~= Seq::<SpecNode>::empty());
    }
}

fn assign_anchors_node_x(n: &Node) -> (r: Node)
    ensures
        node_view(r) == assign_anchors_node(node_view(*n)),
    decreases *n, 0int,
{
    match n {
        Node::Heading { level, anchor, children } => {
            let mut t: Vec<char> = Vec::new();
            plain_push(children, &mut t);
            let slug = slug_x(&t);
            let kids = copy_nodes(children);
            Node::Heading { level: *level, anchor: Option::Some(slug), children: kids }
        },
        Node::Blockquote { children } => Node::Blockquote {
            children: assign_anchors_x(children),
        },
        Node::SpoilerBlock { summary, children } => Node::SpoilerBlock {
            summary: copy_chars(summary),
            children: assign_anchors_x(children),
        },
        _ => copy_node(n),
    }
}

/// Every heading gains its slug as anchor id.
pub fn assign_anchors_x(ns: &Vec<Node>) -> (r: Vec<Node>)
    ensures
        nodes_view(r@) == assign_anchors(nodes_view(ns@)),
    decreases *ns, 1int,
{
    let ghost nv = nodes_view(ns@);
    proof {
        crate::ast::lemma_nodes_view_index(ns@);
        assert(nv.skip(0) =~= nv);
    }
    let mut out: Vec<Node> = Vec::new();
    let mut k: usize = 0;
    while k < ns.len()
        invariant
            k <= ns@.len(),
            nv == nodes_view(ns@),
            nv.len() == ns@.len(),
            forall|q: int| 0 <= q < ns@.len() ==> nv[q] == node_view(ns@[q]),
            assign_anchors(nv) == nodes_view(out@) + assign_anchors(nv.skip(k as int)),
        decreases ns@.len() - k,
    {
        let an = assign_anchors_node_x(&ns[k]);
        proof {
            lemma_nodes_view_push(out@, an);
        }
        out.push(an);
        proof {
            assert(nv.skip(k as int).drop_first() =~= nv.skip(k + 1));
            assert(nodes_view(out@) + assign_anchors(nv.skip(k + 1)) =~= assign_anchors(nv));
        }
        k = k + 1;
    }
    proof {
        assert(nv.skip(ns@.len() as int) =~= Seq::<SpecNode>::empty());
        assert(nodes_view(out@) =~= assign_anchors(nv));
    }
    out
}

/// A structural copy of one node.
#[verifier::rlimit(100)]
fn copy_node(n: &Node) -> (r: Node)
    ensures
        node_view(r) == node_view(*n),
    decreases *n, 0int,
{
    match n {
        Node::Heading { level, anchor, children } => Node::Heading {
            level: *level,
            anchor: copy_anchor(anchor),
            children: copy_nodes(children),
        },
        Node::Emphasis { children } => Node::Emphasis { children: copy_nodes(children) },
        Node::Strong { children } => Node::Strong { children: copy_nodes(children) },
        Node::Strikethrough { children } => Node::Strikethrough {
            children: copy_nodes(children),
        },
        Node::Subscript { children } => Node::Subscript { children: copy_nodes(children) },
        Node::Superscript { children } => Node::Superscript { children: copy_nodes(children) },
        Node::Link { href, children } => Node::Link {
            href: copy_chars(href),
            children: copy_nodes(children),
        },
        Node::Paragraph { children } => Node::Paragraph { children: copy_nodes(children) },
        Node::Blockquote { children } => Node::Blockquote { children: copy_nodes(children) },
        Node::List { ordered, items } => Node::List {
            ordered: *ordered,
            items: copy_nodes(items),
        },
        Node::ListItem { children } => Node::ListItem { children: copy_nodes(children) },
        Node::Table { children } => Node::Table { children: copy_nodes(children) },
        Node::TableRow { header, children } => Node::TableRow {
            header: *header,
            children: copy_nodes(children),
        },
        Node::TableCell { header, children } => Node::TableCell {
            header: *header,
            children: copy_nodes(children),
        },
        Node::SpoilerBlock { summary, children } => Node::SpoilerBlock {
            summary: copy_chars(summary),
            children: copy_nodes(children),
        },
        Node::TocList { children } => Node::TocList { children: copy_nodes(children) },
        Node::Footnote { num, children } => Node::Footnote {
            num: *num,
            children: copy_nodes(children),
        },
        Node::FootnoteSection { children } => Node::FootnoteSection {
            children: copy_nodes(children),
        },
        Node::Text { text } => Node::Text { text: copy_chars(text) },
        Node::CodeSpan { code } => Node::CodeSpan { code: copy_chars(code) },
        Node::Autolink { url } => Node::Autolink { url: copy_chars(url) },
        Node::ArticleLink { target, label } => Node::ArticleLink {
            target: copy_chars(target),
            label: copy_chars(label),
        },
        Node::MathSpan { expr, display } => Node::MathSpan {
            expr: copy_chars(expr),
            display: *display,
        },
        Node::FootnoteRef { label, num } => Node::FootnoteRef {
            label: copy_chars(label),
            num: *num,
        },
        Node::TocMarker => Node::TocMarker,
        Node::CodeBlock { info, text } => Node::CodeBlock {
            info: copy_chars(info),
            text: copy_chars(text),
        },
        Node::Hr => Node::Hr,
    }
}

fn copy_nodes(ns: &Vec<Node>) -> (r: Vec<Node>)
    ensures
        nodes_view(r@) == nodes_view(ns@),
    decreases *ns, 1int,
{
    let ghost nv = nodes_view(ns@);
    proof {
        crate::ast::lemma_nodes_view_index(ns@);
    }
    let mut out: Vec<Node> = Vec::new();
    let mut k: usize = 0;
    while k < ns.len()
        invariant
            k <= ns@.len(),
            nv == nodes_view(ns@),
            nv.len() == ns@.len(),
            forall|q: int| 0 <= q < ns@.len() ==> nv[q] == node_view(ns@[q]),
            nodes_view(out@) == nv.take(k as int),
        decreases ns@.len() - k,
    {
        let cn = copy_node(&ns[k]);
        proof {
            lemma_nodes_view_push(out@, cn);
        }
        out.push(cn);
        proof {
            assert(nv.take(k as int).push(nv[k as int]) =~= nv.take(k + 1));
        }
        k = k + 1;
    }
    proof {
        assert(nv.take(ns@.len() as int) =~= nv);
    }
    out
}

fn next_shallow_x(lv: &Vec<u8>, lo: usize, hi: usize, lvl: u8) -> (r: usize)
    requires
        lo <= hi,
        hi <= lv@.len(),
    ensures
        r as int == next_shallow(lv@, lo as int, hi as int, lvl),
        lo <= r <= hi,
{
    let mut m = lo;
    while m < hi
        invariant
            lo <= m <= hi <= lv@.len(),
            next_shallow(lv@, lo as int, hi as int, lvl) == next_shallow(
                lv@,
                m as int,
                hi as int,
                lvl,
            ),
        decreases hi - m,
    {
        if !(lv[m] > lvl) {
            return m;
        }
        m = m + 1;
    }
    m
}

fn toc_items_x(lv: &Vec<u8>, tx: &Vec<Vec<char>>, lo: usize, hi: usize) -> (r: Vec<Node>)
    requires
        lo <= hi,
        hi <= lv@.len(),
        hi <= tx@.len(),
    ensures
        nodes_view(r@) == toc_items(lv@, tx.deep_view(), lo as int, hi as int),
    decreases hi - lo,
{
    let ghost txv = tx.deep_view();
    if lo >= hi {
        let r: Vec<Node> = Vec::new();
        proof {
            assert(nodes_view(r@) =~= toc_items(lv@, txv, lo as int, hi as int));
        }
        return r;
    }
    let k = next_shallow_x(lv, lo + 1, hi, lv[lo]);
    let text = copy_chars(&tx[lo]);
    let slug = slug_x(&tx[lo]);
    let mut href: Vec<char> = Vec::new();
    href.push('#');
    crate::scan::extend_chars(&mut href, &slug);
    proof {
        assert(txv[lo as int] =~= tx@[lo as int]@);
        assert(href@ =~= seq!['#'] + slug_of(txv[lo as int]));
    }
    let tn = Node::Text { text };
    let mut tchildren: Vec<Node> = Vec::new();
    proof {
        lemma_nodes_view_push(tchildren@, tn);
    }
    tchildren.push(tn);
    let entry = Node::Link { href, children: tchildren };
    let mut children: Vec<Node> = Vec::new();
    proof {
        lemma_nodes_view_push(children@, entry);
    }
    children.push(entry);
    if k > lo + 1 {
        let sub_items = toc_items_x(lv, tx, lo + 1, k);
        let sub = Node::List { ordered: false, items: sub_items };
        proof {
            lemma_nodes_view_push(children@, sub);
        }
        children.push(sub);
    }
    let item = Node::ListItem { children };
    let rest = toc_items_x(lv, tx, k, hi);
    let (mut out, _u) = (rest, 0usize);
    let ghost old_rest = out@;
    out.insert(0, item);
    proof {
        assert(out@ =~= seq![item] + old_rest);
        crate::ast::lemma_nodes_view_one(item);
        crate::ast::lemma_nodes_view_add(seq![item], old_rest);
        assert(nodes_view(out@) =~= toc_items(lv@, txv, lo as int, hi as int));
    }
    out
}

/// Builds the resolved table of contents from the collected headings.
pub fn toc_node_x(lv: &Vec<u8>, tx: &Vec<Vec<char>>) -> (r: Node)
    requires
        lv@.len() == tx@.len(),
    ensures
        node_view(r) == toc_node(lv@, tx.deep_view()),
{
    if lv.len() == 0 {
        let children: Vec<Node> = Vec::new();
        proof {
            assert(nodes_view(children@) =~= Seq::<SpecNode>::empty());
        }
        Node::TocList { children }
    } else {
        let items = toc_items_x(lv, tx, 0, lv.len());
        let list = Node::List { ordered: false, items };
        let mut children: Vec<Node> = Vec::new();
        proof {
            lemma_nodes_view_push(children@, list);
        }
        children.push(list);
        Node::TocList { children }
    }
}

fn replace_markers_node_x(n: &Node, lv: &Vec<u8>, tx: &Vec<Vec<char>>) -> (r: Node)
    requires
        lv@.len() == tx@.len(),
    ensures
        node_view(r) == replace_markers_node(node_view(*n), toc_node(lv@, tx.deep_view())),
    decreases *n, 0int,
{
    match n {
        Node::TocMarker => toc_node_x(lv, tx),
        Node::Paragraph { children } => {
            let single = children.len() == 1 && match &children[0] {
                Node::TocMarker => true,
                _ => false,
            };
            proof {
                crate::ast::lemma_nodes_view_index(children@);
            }
            if single {
                toc_node_x(lv, tx)
            } else {
                Node::Paragraph { children: replace_markers_x(children, lv, tx) }
            }
        },
        Node::Blockquote { children } => Node::Blockquote {
            children: replace_markers_x(children, lv, tx),
        },
        Node::SpoilerBlock { summary, children } => Node::SpoilerBlock {
            summary: copy_chars(summary),
            children: replace_markers_x(children, lv, tx),
        },
        Node::ListItem { children } => Node::ListItem {
            children: replace_markers_x(children, lv, tx),
        },
        Node::List { ordered, items } => Node::List {
            ordered: *ordered,
            items: replace_markers_x(items, lv, tx),
        },
        _ => copy_node(n),
    }
}

/// Replaces every table-of-contents marker with the resolved list.
pub fn replace_markers_x(ns: &Vec<Node>, lv: &Vec<u8>, tx: &Vec<Vec<char>>) -> (r: Vec<Node>)
    requires
        lv@.len() == tx@.len(),
    ensures
        nodes_view(r@) == replace_markers(nodes_view(ns@), toc_node(lv@, tx.deep_view())),
    decreases *ns, 1int,
{
    let ghost nv = nodes_view(ns@);
    let ghost toc = toc_node(lv@, tx.deep_view());
    proof {
        crate::ast::lemma_nodes_view_index(ns@);
        assert(nv.skip(0) =~= nv);
    }
    let mut out: Vec<Node> = Vec::new();
    let mut k: usize = 0;
    while k < ns.len()
        invariant
            k <= ns@.len(),
            nv == nodes_view(ns@),
            lv@.len() == tx@.len(),
            toc == toc_node(lv@, tx.deep_view()),
            nv.len() == ns@.len(),
            forall|q: int| 0 <= q < ns@.len() ==> nv[q] == node_view(ns@[q]),
            replace_markers(nv, toc) == nodes_view(out@) + replace_markers(
                nv.skip(k as int),
                toc,
            ),
        decreases ns@.len() - k,
    {
        let rn = replace_markers_node_x(&ns[k], lv, tx);
        proof {
            lemma_nodes_view_push(out@, rn);
        }
        out.push(rn);
        proof {
            assert(nv.skip(k as int).drop_first() =~= nv.skip(k + 1));
            assert(nodes_view(out@) + replace_markers(nv.skip(k + 1), toc) =~= replace_markers(
                nv,
                toc,
            ));
        }
        k = k + 1;
    }
    proof {
        assert(nv.skip(ns@.len() as int) =~= Seq::<SpecNode>::empty());
        assert(nodes_view(out@) =~= replace_markers(nv, toc));
    }
    out
}

fn refs_push_node(n: &Node, out: &mut Vec<Vec<char>>)
    ensures
        final(out).deep_view() == old(out).deep_view() + ref_labels_node(node_view(*n)),
    decreases *n, 0int,
{
    match n {
        Node::FootnoteRef { label, .. } => {
            let ghost prefix = out.deep_view();
            let c = copy_chars(label);
            proof {
                assert(c.deep_view() =~= c@);
            }
            out.push(c);
            proof {
                assert(out.deep_view() =~= prefix + ref_labels_node(node_view(*n)));
            }
        },
        Node::Emphasis { children } => {
            refs_push(children, out);
        },
        Node::Strong { children } => {
            refs_push(children, out);
        },
        Node::Strikethrough { children } => {
            refs_push(children, out);
        },
        Node::Subscript { children } => {
            refs_push(children, out);
        },
        Node::Superscript { children } => {
            refs_push(children, out);
        },
        Node::Link { children, .. } => {
            refs_push(children, out);
        },
        Node::Heading { children, .. } => {
            refs_push(children, out);
        },
        Node::Paragraph { children } => {
            refs_push(children, out);
        },
        Node::Blockquote { children } => {
            refs_push(children, out);
        },
        Node::List { items, .. } => {
            refs_push(items, out);
        },
        Node::ListItem { children } => {
            refs_push(children, out);
        },
        Node::Table { children } => {
            refs_push(children, out);
        },
        Node::TableRow { children, .. } => {
            refs_push(children, out);
        },
        Node::TableCell { children, .. } => {
            refs_push(children, out);
        },
        Node::SpoilerBlock { children, .. } => {
            refs_push(children, out);
        },
        _ => {
            proof {
                assert(out.deep_view() =~= old(out).deep_view() + ref_labels_node(
                    node_view(*n),
                ));
            }
        },
    }
}

/// Collects every footnote reference's label, in document order.
pub fn refs_push(ns: &Vec<Node>, out: &mut Vec<Vec<char>>)
    ensures
        final(out).deep_view() == old(out).deep_view() + ref_labels(nodes_view(ns@)),
    decreases *ns, 1int,
{
    let ghost nv = nodes_view(ns@);
    proof {
        crate::ast::lemma_nodes_view_index(ns@);
        assert(nv.skip(0) =~= nv);
    }
    let mut k: usize = 0;
    while k < ns.len()
        invariant
            k <= ns@.len(),
            nv == nodes_view(ns@),
            nv.len() == ns@.len(),
            forall|q: int| 0 <= q < ns@.len() ==> nv[q] == node_view(ns@[q]),
            out.deep_view() + ref_labels(nv.skip(k as int)) == old(out).deep_view() + ref_labels(
                nv,
            ),
        decreases ns@.len() - k,
    {
        proof {
            assert(nv.skip(k as int).drop_first() =~= nv.skip(k + 1));
        }
        refs_push_node(&ns[k], out);
        k = k + 1;
    }
    proof {
        assert(nv.skip(ns@.len() as int) =~= Seq::<SpecNode>::empty());
    }
}

fn contains_upto(refs: &Vec<Vec<char>>, k: usize, lab: &Vec<char>) -> (r: bool)
    requires
        k <= refs@.len(),
    ensures
        r == refs.deep_view().take(k as int).contains(lab@),
{
    let mut m: usize = 0;
    while m < k
        invariant
            m <= k <= refs@.len(),
            forall|q: int| 0 <= q < m ==> refs@[q]@ != lab@,
        decreases k - m,
    {
        if chars_eq(&refs[m], lab) {
            proof {
                assert(refs.deep_view().take(k as int)[m as int] == lab@);
            }
            return true;
        }
        m = m + 1;
    }
    proof {
        assert forall|q: int| 0 <= q < k implies refs.deep_view().take(k as int)[q] != lab@ by {
            assert(refs.deep_view()[q] == refs@[q]@);
        }
    }
    false
}

/// The referenced labels in order of first appearance.
pub fn dedup_labels_x(refs: &Vec<Vec<char>>) -> (r: Vec<Vec<char>>)
    ensures
        r.deep_view() == dedup_labels(refs.deep_view()),
{
    let ghost rv = refs.deep_view();
    let mut out: Vec<Vec<char>> = Vec::new();
    let mut k: usize = 0;
    while k < refs.len()
        invariant
            k <= refs@.len(),
            rv == refs.deep_view(),
            out.deep_view() == dedup_labels(rv.take(k as int)),
        decreases refs@.len() - k,
    {
        let ghost prefix = out.deep_view();
        let dup = contains_upto(refs, k, &refs[k]);
        proof {
            assert(rv[k as int] =~= refs@[k as int]@);
            assert(rv.take(k + 1).drop_last() =~= rv.take(k as int));
            assert(rv.take(k + 1).last() == rv[k as int]);
        }
        if !dup {
            let c = copy_chars(&refs[k]);
            proof {
                assert(c.deep_view() =~= c@);
                assert(c@ =~= rv[k as int]);
            }
            out.push(c);
            proof {
                assert(out.deep_view() =~= prefix + seq![rv[k as int]]);
            }
        }
        k = k + 1;
    }
    proof {
        assert(rv.take(refs@.len() as int) =~= rv);
    }
    out
}

fn idx_of_x(order: &Vec<Vec<char>>, lab: &Vec<char>) -> (r: usize)
    ensures
        r as int == idx_of(order.deep_view(), lab@),
        r <= order@.len(),
{
    let ghost ov = order.deep_view();
    proof {
        assert(ov.skip(0) =~= ov);
    }
    let mut m: usize = 0;
    while m < order.len()
        invariant
            m <= order@.len(),
            ov == order.deep_view(),
            idx_of(ov, lab@) == m + idx_of(ov.skip(m as int), lab@),
        decreases order@.len() - m,
    {
        proof {
            assert(ov.skip(m as int)[0] =~= order@[m as int]@);
            assert(ov.skip(m as int).drop_first() =~= ov.skip(m + 1));
        }
        if chars_eq(&order[m], lab) {
            return m;
        }
        m = m + 1;
    }
    proof {
        assert(ov.skip(order@.len() as int) =~= Seq::<Seq<char>>::empty());
    }
    m
}

fn renumber_node_x(n: &Node, order: &Vec<Vec<char>>) -> (r: Node)
    ensures
        node_view(r) == renumber_node(node_view(*n), order.deep_view()),
    decreases *n, 0int,
{
    match n {
        Node::FootnoteRef { label, .. } => {
            let idx = idx_of_x(order, label);
            let num: usize = if idx < order.len() {
                idx + 1
            } else {
                0
            };
            Node::FootnoteRef { label: copy_chars(label), num }
        },
        Node::Emphasis { children } => Node::Emphasis {
            children: renumber_x(children, order),
        },
        Node::Strong { children } => Node::Strong { children: renumber_x(children, order) },
        Node::Strikethrough { children } => Node::Strikethrough {
            children: renumber_x(children, order),
        },
        Node::Subscript { children } => Node::Subscript {
            children: renumber_x(children, order),
        },
        Node::Superscript { children } => Node::Superscript {
            children: renumber_x(children, order),
        },
        Node::Link { href, children } => Node::Link {
            href: copy_chars(href),
            children: renumber_x(children, order),
        },
        Node::Heading { level, anchor, children } => Node::Heading {
            level: *level,
            anchor: copy_anchor(anchor),
            children: renumber_x(children, order),
        },
        Node::Paragraph { children } => Node::Paragraph {
            children: renumber_x(children, order),
        },
        Node::Blockquote { children } => Node::Blockquote {
            children: renumber_x(children, order),
        },
        Node::List { ordered, items } => Node::List {
            ordered: *ordered,
            items: renumber_x(items, order),
        },
        Node::ListItem { children } => Node::ListItem {
            children: renumber_x(children, order),
        },
        Node::Table { children } => Node::Table { children: renumber_x(children, order) },
        Node::TableRow { header, children } => Node::TableRow {
            header: *header,
            children: renumber_x(children, order),
        },
        Node::TableCell { header, children } => Node::TableCell {
            header: *header,
            children: renumber_x(children, order),
        },
        Node::SpoilerBlock { summary, children } => Node::SpoilerBlock {
            summary: copy_chars(summary),
            children: renumber_x(children, order),
        },
        _ => copy_node(n),
    }
}

/// Numbers every footnote reference by its label's place in `order`.
pub fn renumber_x(ns: &Vec<Node>, order: &Vec<Vec<char>>) -> (r: Vec<Node>)
    ensures
        nodes_view(r@) == renumber(nodes_view(ns@), order.deep_view()),
    decreases *ns, 1int,
{
    let ghost nv = nodes_view(ns@);
    let ghost ov = order.deep_view();
    proof {
        crate::ast::lemma_nodes_view_index(ns@);
        assert(nv.skip(0) =~= nv);
    }
    let mut out: Vec<Node> = Vec::new();
    let mut k: usize = 0;
    while k < ns.len()
        invariant
            k <= ns@.len(),
            nv == nodes_view(ns@),
            ov == order.deep_view(),
            nv.len() == ns@.len(),
            forall|q: int| 0 <= q < ns@.len() ==> nv[q] == node_view(ns@[q]),
            renumber(nv, ov) == nodes_view(out@) + renumber(nv.skip(k as int), ov),
        decreases ns@.len() - k,
    {
        let rn = renumber_node_x(&ns[k], order);
        proof {
            lemma_nodes_view_push(out@, rn);
        }
        out.push(rn);
        proof {
            assert(nv.skip(k as int).drop_first() =~= nv.skip(k + 1));
            assert(nodes_view(out@) + renumber(nv.skip(k + 1), ov) =~= renumber(nv, ov));
        }
        k = k + 1;
    }
    proof {
        assert(nv.skip(ns@.len() as int) =~= Seq::<SpecNode>::empty());
        assert(nodes_view(out@) =~= renumber(nv, ov));
    }
    out
}

fn def_text_x(labs: &Vec<Vec<char>>, txts: &Vec<Vec<char>>, lab: &Vec<char>) -> (r: Vec<char>)
    ensures
        r@ == def_text_of(labs.deep_view(), txts.deep_view(), lab@),
{
    let idx = idx_of_x(labs, lab);
    if idx < txts.len() {
        let r = copy_chars(&txts[idx]);
        proof {
            assert(txts.deep_view()[idx as int] =~= txts@[idx as int]@);
        }
        r
    } else {
        let r: Vec<char> = Vec::new();
        proof {
            assert(r@ =~= Seq::<char>::empty());
        }
        r
    }
}

/// Builds the footnote section from the referenced labels and the
/// collected definitions; empty when nothing was referenced.
pub fn footnote_section_x(
    order: &Vec<Vec<char>>,
    labs: &Vec<Vec<char>>,
    txts: &Vec<Vec<char>>,
) -> (r: Vec<Node>)
    ensures
        nodes_view(r@) == footnote_section(
            order.deep_view(),
            labs.deep_view(),
            txts.deep_view(),
            labs.deep_view(),
        ),
{
    let ghost ov = order.deep_view();
    let ghost lv = labs.deep_view();
    let ghost tv = txts.deep_view();
    if order.len() == 0 {
        let r: Vec<Node> = Vec::new();
        proof {
            assert(nodes_view(r@) =~= Seq::<SpecNode>::empty());
        }
        return r;
    }
    let mut notes: Vec<Node> = Vec::new();
    let mut k: usize = 0;
    while k < order.len()
        invariant
            k <= order@.len(),
            ov == order.deep_view(),
            lv == labs.deep_view(),
            tv == txts.deep_view(),
            footnotes(ov, lv, tv, lv, 0) == nodes_view(notes@) + footnotes(
                ov,
                lv,
                tv,
                lv,
                k as int,
            ),
        decreases order@.len() - k,
    {
        let dt = def_text_x(labs, txts, &order[k]);
        proof {
            assert(ov[k as int] =~= order@[k as int]@);
        }
        let children = parse_inline(&dt, true, labs);
        let note = Node::Footnote { num: k + 1, children };
        proof {
            lemma_nodes_view_push(notes@, note);
        }
        notes.push(note);
        proof {
            assert(nodes_view(notes@) + footnotes(ov, lv, tv, lv, k + 1) =~= footnotes(
                ov,
                lv,
                tv,
                lv,
                0,
            ));
        }
        k = k + 1;
    }
    let section = Node::FootnoteSection { children: notes };
    let mut r: Vec<Node> = Vec::new();
    proof {
        lemma_nodes_view_push(r@, section);
    }
    r.push(section);
    r
}

} // verus!
