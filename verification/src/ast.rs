//! The document tree produced by the parser and consumed by the renderer.
//!
//! [`Node`] is the executable tree; [`SpecNode`] is its mathematical model,
//! the same tree with sequences in place of vectors.  Contracts throughout
//! the crate speak of a node's model, obtained with [`node_view`].

use vstd::prelude::*;

verus! {

/// Mathematical model of a document node.
pub enum SpecNode {
    /// A run of literal text; escaped when rendered.
    Text { text: Seq<char> },
    /// Inline code between backticks; content is raw, escaped when rendered.
    CodeSpan { code: Seq<char> },
    /// Emphasized text, `*x*` or `_x_`.
    Emphasis { children: Seq<SpecNode> },
    /// Strong text, `**x**` or `__x__`.
    Strong { children: Seq<SpecNode> },
    /// Struck-through text, `~~x~~`.
    Strikethrough { children: Seq<SpecNode> },
    /// Subscript, `~x~` (article rules only).
    Subscript { children: Seq<SpecNode> },
    /// Superscript, `^x^` (article rules only).
    Superscript { children: Seq<SpecNode> },
    /// A standard link, `[label](href)`.
    Link { href: Seq<char>, children: Seq<SpecNode> },
    /// An autolink, `<scheme://rest>`; the URL is both target and label.
    Autolink { url: Seq<char> },
    /// A wiki-style cross-article link, `[[target]]`; the label is the
    /// target name before its last `@`.
    ArticleLink { target: Seq<char>, label: Seq<char> },
    /// A math span, `$expr$` or `$$expr$$`; the expression is kept raw.
    MathSpan { expr: Seq<char>, display: bool },
    /// A reference `[^label]` to a defined footnote.  The parser leaves
    /// `num` as zero; the numbering pass fills in the note's number.
    FootnoteRef { label: Seq<char>, num: usize },
    /// Placeholder left where a table-of-contents marker stood; the
    /// resolve pass replaces it with a `TocList`.
    TocMarker,
    /// A paragraph of inline content.
    Paragraph { children: Seq<SpecNode> },
    /// A heading of level 1 to 6 (7 after the article shift is clamped
    /// back to 6).  `anchor` is the slug id assigned by the
    /// table-of-contents pass, absent otherwise.
    Heading { level: u8, anchor: Option<Seq<char>>, children: Seq<SpecNode> },
    /// A fenced code block with its info string; content is raw.
    CodeBlock { info: Seq<char>, text: Seq<char> },
    /// A blockquote holding block content.
    Blockquote { children: Seq<SpecNode> },
    /// A thematic break.
    Hr,
    /// A list; the items are `ListItem` nodes.
    List { ordered: bool, items: Seq<SpecNode> },
    /// One list item: inline content, possibly followed by a nested list.
    ListItem { children: Seq<SpecNode> },
    /// A table; the children are `TableRow` nodes, the first the header.
    Table { children: Seq<SpecNode> },
    /// One table row; the children are `TableCell` nodes.
    TableRow { header: bool, children: Seq<SpecNode> },
    /// One table cell of inline content.
    TableCell { header: bool, children: Seq<SpecNode> },
    /// A collapsible disclosure block with a summary label.
    SpoilerBlock { summary: Seq<char>, children: Seq<SpecNode> },
    /// The resolved table of contents: empty, or one `List` child.
    TocList { children: Seq<SpecNode> },
    /// One numbered footnote with its inline content.
    Footnote { num: usize, children: Seq<SpecNode> },
    /// The trailing section holding `Footnote` children.
    FootnoteSection { children: Seq<SpecNode> },
}

/// A document node, as built by the parser.
pub enum Node {
    Text { text: Vec<char> },
    CodeSpan { code: Vec<char> },
    Emphasis { children: Vec<Node> },
    Strong { children: Vec<Node> },
    Strikethrough { children: Vec<Node> },
    Subscript { children: Vec<Node> },
    Superscript { children: Vec<Node> },
    Link { href: Vec<char>, children: Vec<Node> },
    Autolink { url: Vec<char> },
    ArticleLink { target: Vec<char>, label: Vec<char> },
    MathSpan { expr: Vec<char>, display: bool },
    FootnoteRef { label: Vec<char>, num: usize },
    TocMarker,
    Paragraph { children: Vec<Node> },
    Heading { level: u8, anchor: Option<Vec<char>>, children: Vec<Node> },
    CodeBlock { info: Vec<char>, text: Vec<char> },
    Blockquote { children: Vec<Node> },
    Hr,
    List { ordered: bool, items: Vec<Node> },
    ListItem { children: Vec<Node> },
    Table { children: Vec<Node> },
    TableRow { header: bool, children: Vec<Node> },
    TableCell { header: bool, children: Vec<Node> },
    SpoilerBlock { summary: Vec<char>, children: Vec<Node> },
    TocList { children: Vec<Node> },
    Footnote { num: usize, children: Vec<Node> },
    FootnoteSection { children: Vec<Node> },
}

/// The model of an executable node.
pub open spec fn node_view(n: Node) -> SpecNode
    decreases n,
{
    match n {
        Node::Text { text } => SpecNode::Text { text: text@ },
        Node::CodeSpan { code } => SpecNode::CodeSpan { code: code@ },
        Node::Emphasis { children } => SpecNode::Emphasis { children: nodes_view(children@) },
        Node::Strong { children } => SpecNode::Strong { children: nodes_view(children@) },
        Node::Strikethrough { children } => SpecNode::Strikethrough {
            children: nodes_view(children@),
        },
        Node::Subscript { children } => SpecNode::Subscript { children: nodes_view(children@) },
        Node::Superscript { children } => SpecNode::Superscript {
            children: nodes_view(children@),
        },
        Node::Link { href, children } => SpecNode::Link {
            href: href@,
            children: nodes_view(children@),
        },
        Node::Autolink { url } => SpecNode::Autolink { url: url@ },
        Node::ArticleLink { target, label } => SpecNode::ArticleLink {
            target: target@,
            label: label@,
        },
        Node::MathSpan { expr, display } => SpecNode::MathSpan { expr: expr@, display },
        Node::FootnoteRef { label, num } => SpecNode::FootnoteRef { label: label@, num },
        Node::TocMarker => SpecNode::TocMarker,
        Node::Paragraph { children } => SpecNode::Paragraph { children: nodes_view(children@) },
        Node::Heading { level, anchor, children } => SpecNode::Heading {
            level,
            anchor: match anchor {
                Option::Some(a) => Option::Some(a@),
                Option::None => Option::None,
            },
            children: nodes_view(children@),
        },
        Node::CodeBlock { info, text } => SpecNode::CodeBlock { info: info@, text: text@ },
        Node::Blockquote { children } => SpecNode::Blockquote { children: nodes_view(children@) },
        Node::Hr => SpecNode::Hr,
        Node::List { ordered, items } => SpecNode::List { ordered, items: nodes_view(items@) },
        Node::ListItem { children } => SpecNode::ListItem { children: nodes_view(children@) },
        Node::Table { children } => SpecNode::Table { children: nodes_view(children@) },
        Node::TableRow { header, children } => SpecNode::TableRow {
            header,
            children: nodes_view(children@),
        },
        Node::TableCell { header, children } => SpecNode::TableCell {
            header,
            children: nodes_view(children@),
        },
        Node::SpoilerBlock { summary, children } => SpecNode::SpoilerBlock {
            summary: summary@,
            children: nodes_view(children@),
        },
        Node::TocList { children } => SpecNode::TocList { children: nodes_view(children@) },
        Node::Footnote { num, children } => SpecNode::Footnote {
            num,
            children: nodes_view(children@),
        },
        Node::FootnoteSection { children } => SpecNode::FootnoteSection {
            children: nodes_view(children@),
        },
    }
}

/// The models of a sequence of executable nodes, in order.
pub open spec fn nodes_view(ns: Seq<Node>) -> Seq<SpecNode>
    decreases ns,
{
    if ns.len() == 0 {
        Seq::empty()
    } else {
        seq![node_view(ns[0])] + nodes_view(ns.drop_first())
    }
}

/// `nodes_view` maps the sequence elementwise.
pub proof fn lemma_nodes_view_index(ns: Seq<Node>)
    ensures
        nodes_view(ns).len() == ns.len(),
        forall|i: int| 0 <= i < ns.len() ==> nodes_view(ns)[i] == node_view(ns[i]),
    decreases ns.len(),
{
    if ns.len() > 0 {
        lemma_nodes_view_index(ns.drop_first());
    }
}

/// Appending one node appends its model.
pub proof fn lemma_nodes_view_push(ns: Seq<Node>, n: Node)
    ensures
        nodes_view(ns.push(n)) == nodes_view(ns) + seq![node_view(n)],
    decreases ns.len(),
{
    reveal_with_fuel(nodes_view, 3);
    if ns.len() == 0 {
        assert(ns.push(n)[0] == n);
        assert(ns.push(n).drop_first() =~= Seq::<Node>::empty());
        assert(nodes_view(ns.push(n)) =~= nodes_view(ns) + seq![node_view(n)]);
    } else {
        lemma_nodes_view_push(ns.drop_first(), n);
        assert(ns.push(n)[0] == ns[0]);
        assert(ns.push(n).drop_first() =~= ns.drop_first().push(n));
        assert(nodes_view(ns.push(n)) =~= nodes_view(ns) + seq![node_view(n)]);
    }
}

/// The model of a one-node sequence.
pub proof fn lemma_nodes_view_one(n: Node)
    ensures
        nodes_view(seq![n]) == seq![node_view(n)],
{
    reveal_with_fuel(nodes_view, 2);
    assert(seq![n].drop_first() =~= Seq::<Node>::empty());
    assert(nodes_view(seq![n]) =~= seq![node_view(n)]);
}

/// Concatenation of node sequences concatenates their models.
pub proof fn lemma_nodes_view_add(a: Seq<Node>, b: Seq<Node>)
    ensures
        nodes_view(a + b) == nodes_view(a) + nodes_view(b),
    decreases a.len(),
{
    if a.len() == 0 {
        assert(a + b =~= b);
        assert(nodes_view(a) + nodes_view(b) =~= nodes_view(b));
    } else {
        lemma_nodes_view_add(a.drop_first(), b);
        assert((a + b).drop_first() =~= a.drop_first() + b);
        assert(nodes_view(a + b) =~= nodes_view(a) + nodes_view(b));
    }
}

} // verus!
