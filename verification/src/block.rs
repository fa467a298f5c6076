//! Block rules: the line classifier and the block-level parse.
//!
//! The input is split into lines; the block parse walks a line range,
//! asking each rule in a fixed order whether it claims the current line.
//! Unclaimed lines accumulate into paragraphs.  Fenced code, spoiler
//! blocks and tables consume several lines at once; a spoiler with no
//! closing fence declines and its lines stay paragraph text.
//!
//! Lists hold one level of nesting: an item's more-indented list lines
//! become its sublist.  A blockquote holds one paragraph of its stripped
//! lines.

use vstd::prelude::*;

use crate::ast::{lemma_nodes_view_push, node_view, nodes_view, Node, SpecNode};
use crate::inline::{inline_nodes, parse_inline};
use crate::scan::{char_run_at, char_run_len, extend_chars, find_char, find_from, subvec};
use crate::text::{digit_run_at, digit_run_len};

verus! {

// --- lines ---

/// A line without its trailing carriage return.
pub open spec fn strip_cr(l: Seq<char>) -> Seq<char> {
    if l.len() > 0 && l[l.len() - 1] == '\r' {
        l.take(l.len() - 1)
    } else {
        l
    }
}

/// The lines of `s` from position `pos` on, split on newlines.
pub open spec fn lines_from(s: Seq<char>, pos: int) -> Seq<Seq<char>>
    decreases s.len() - pos,
{
    if pos < 0 || pos > s.len() {
        Seq::empty()
    } else {
        let j = find_from(s, pos, '\n');
        if pos <= j && j < s.len() {
            seq![strip_cr(s.subrange(pos, j))] + lines_from(s, j + 1)
        } else {
            seq![strip_cr(s.subrange(pos, s.len() as int))]
        }
    }
}

pub open spec fn lines_of(s: Seq<char>) -> Seq<Seq<char>> {
    lines_from(s, 0)
}

// --- line shapes ---

pub open spec fn all_spaces(l: Seq<char>) -> bool {
    char_run_len(l, 0, ' ') == l.len()
}

/// Count of trailing spaces.
pub open spec fn trail_spaces(l: Seq<char>) -> int
    decreases l.len(),
{
    if l.len() > 0 && l[l.len() - 1] == ' ' {
        1 + trail_spaces(l.take(l.len() - 1))
    } else {
        0
    }
}

/// The line without leading and trailing spaces.
pub open spec fn trim(l: Seq<char>) -> Seq<char> {
    let a = char_run_len(l, 0, ' ');
    let b = trail_spaces(l);
    if a + b <= l.len() {
        l.subrange(a, l.len() - b)
    } else {
        Seq::empty()
    }
}

/// The paragraph text of `lines[a..b]`: each line trimmed, joined with
/// newlines.
pub open spec fn join_lines(lines: Seq<Seq<char>>, a: int, b: int) -> Seq<char>
    decreases b - a,
{
    if a < 0 || a >= b || b > lines.len() {
        Seq::empty()
    } else if a == b - 1 {
        trim(lines[b - 1])
    } else {
        join_lines(lines, a, b - 1) + seq!['\n'] + trim(lines[b - 1])
    }
}

/// The raw text of `lines[a..b]`, each line followed by a newline.
pub open spec fn code_join(lines: Seq<Seq<char>>, a: int, b: int) -> Seq<char>
    decreases b - a,
{
    if a < 0 || a >= b || b > lines.len() {
        Seq::empty()
    } else {
        code_join(lines, a, b - 1) + lines[b - 1] + seq!['\n']
    }
}

// --- headings, rules, fences ---

pub open spec fn atx_level(l: Seq<char>) -> int {
    char_run_len(l, 0, '#')
}

pub open spec fn is_atx(l: Seq<char>) -> bool {
    let h = atx_level(l);
    1 <= h <= 6 && (h == l.len() || l[h] == ' ')
}

pub open spec fn atx_text(l: Seq<char>) -> Seq<char> {
    let h = atx_level(l);
    if 0 <= h <= l.len() {
        trim(l.subrange(h, l.len() as int))
    } else {
        Seq::empty()
    }
}

pub open spec fn is_setext_eq(l: Seq<char>) -> bool {
    l.len() >= 1 && char_run_len(l, 0, '=') == l.len()
}

pub open spec fn is_setext_dash(l: Seq<char>) -> bool {
    l.len() >= 1 && char_run_len(l, 0, '-') == l.len()
}

pub open spec fn is_hr(l: Seq<char>) -> bool {
    l.len() >= 3 && (l[0] == '-' || l[0] == '*' || l[0] == '_') && char_run_len(l, 0, l[0])
        == l.len()
}

pub open spec fn fence_run(l: Seq<char>) -> int {
    char_run_len(l, 0, '`')
}

pub open spec fn is_fence(l: Seq<char>) -> bool {
    fence_run(l) >= 3
}

pub open spec fn fence_info(l: Seq<char>) -> Seq<char> {
    let n = fence_run(l);
    if 0 <= n <= l.len() {
        trim(l.subrange(n, l.len() as int))
    } else {
        Seq::empty()
    }
}

/// A closing fence: at least `n` backticks, then only spaces.
pub open spec fn is_fence_close(l: Seq<char>, n: int) -> bool {
    let m = fence_run(l);
    m >= n && (0 <= m <= l.len() && all_spaces(l.subrange(m, l.len() as int)))
}

/// First closing fence in `[j, end)`, or `end` when none.
pub open spec fn find_fence_close(lines: Seq<Seq<char>>, j: int, end: int, n: int) -> int
    decreases end - j,
{
    if j < 0 || j >= end || end > lines.len() {
        end
    } else if is_fence_close(lines[j], n) {
        j
    } else {
        find_fence_close(lines, j + 1, end, n)
    }
}

// --- blockquotes ---

pub open spec fn is_quote(l: Seq<char>) -> bool {
    l.len() >= 1 && l[0] == '>'
}

/// The quoted line without its marker (`>` or `> `).
pub open spec fn qstrip(l: Seq<char>) -> Seq<char> {
    if l.len() >= 2 && l[1] == ' ' {
        l.subrange(2, l.len() as int)
    } else if l.len() >= 1 {
        l.subrange(1, l.len() as int)
    } else {
        l
    }
}

/// First non-quote line in `[j, end)`, or `end`.
pub open spec fn quote_end(lines: Seq<Seq<char>>, j: int, end: int) -> int
    decreases end - j,
{
    if j < 0 || j >= end || end > lines.len() {
        end
    } else if is_quote(lines[j]) {
        quote_end(lines, j + 1, end)
    } else {
        j
    }
}

/// The text of a quoted run: each line stripped of its marker and
/// trimmed, joined with newlines.
pub open spec fn quote_join(lines: Seq<Seq<char>>, a: int, b: int) -> Seq<char>
    decreases b - a,
{
    if a < 0 || a >= b || b > lines.len() {
        Seq::empty()
    } else if a == b - 1 {
        trim(qstrip(lines[b - 1]))
    } else {
        quote_join(lines, a, b - 1) + seq!['\n'] + trim(qstrip(lines[b - 1]))
    }
}

// --- spoilers ---

pub open spec fn spoiler_run(l: Seq<char>) -> int {
    char_run_len(l, 0, ':')
}

pub open spec fn is_spoiler_open(l: Seq<char>) -> bool {
    spoiler_run(l) >= 3
}

pub open spec fn spoiler_summary(l: Seq<char>) -> Seq<char> {
    let n = spoiler_run(l);
    if 0 <= n <= l.len() {
        trim(l.subrange(n, l.len() as int))
    } else {
        Seq::empty()
    }
}

pub open spec fn is_spoiler_close(l: Seq<char>) -> bool {
    let n = spoiler_run(l);
    n >= 3 && (0 <= n <= l.len() && all_spaces(l.subrange(n, l.len() as int)))
}

/// First closing spoiler fence in `[j, end)`, or `end` when none.
pub open spec fn find_spoiler_close(lines: Seq<Seq<char>>, j: int, end: int) -> int
    decreases end - j,
{
    if j < 0 || j >= end || end > lines.len() {
        end
    } else if is_spoiler_close(lines[j]) {
        j
    } else {
        find_spoiler_close(lines, j + 1, end)
    }
}

// --- footnote definitions ---

/// A footnote definition line, `[^label]: text`.
pub open spec fn is_footdef(l: Seq<char>) -> bool {
    l.len() >= 2 && l[0] == '[' && l[1] == '^' && {
        let j = find_from(l, 2, ']');
        j > 2 && j + 1 < l.len() && l[j + 1] == ':'
    }
}

pub open spec fn footdef_label(l: Seq<char>) -> Seq<char> {
    let j = find_from(l, 2, ']');
    if 2 <= j <= l.len() {
        l.subrange(2, j)
    } else {
        Seq::empty()
    }
}

pub open spec fn footdef_text(l: Seq<char>) -> Seq<char> {
    let j = find_from(l, 2, ']');
    if 2 <= j && j + 2 <= l.len() {
        trim(l.subrange(j + 2, l.len() as int))
    } else {
        Seq::empty()
    }
}

/// The footnote definitions among `lines[i..end]`, in order: label and
/// content pairs.
pub open spec fn collect_defs(lines: Seq<Seq<char>>, i: int, end: int) -> Seq<
    (Seq<char>, Seq<char>),
>
    decreases end - i,
{
    if i < 0 || i >= end || end > lines.len() {
        Seq::empty()
    } else {
        collect_defs(lines, i, end - 1) + (if is_footdef(lines[end - 1]) {
            seq![(footdef_label(lines[end - 1]), footdef_text(lines[end - 1]))]
        } else {
            Seq::empty()
        })
    }
}

/// The labels of the collected definitions.
pub open spec fn labels_of(defs: Seq<(Seq<char>, Seq<char>)>) -> Seq<Seq<char>> {
    defs.map_values(|d: (Seq<char>, Seq<char>)| d.0)
}

// --- lists ---

pub open spec fn line_indent(l: Seq<char>) -> int {
    char_run_len(l, 0, ' ')
}

pub open spec fn is_bullet(l: Seq<char>) -> bool {
    let d = line_indent(l);
    d + 1 < l.len() && (l[d] == '-' || l[d] == '*' || l[d] == '+') && l[d + 1] == ' '
}

pub open spec fn is_onum(l: Seq<char>) -> bool {
    let d = line_indent(l);
    let w = digit_run_len(l, d);
    w >= 1 && d + w + 1 < l.len() && (l[d + w] == '.' || l[d + w] == ')') && l[d + w + 1] == ' '
}

pub open spec fn is_list_line(l: Seq<char>) -> bool {
    is_bullet(l) || is_onum(l)
}

pub open spec fn list_ordered_line(l: Seq<char>) -> bool {
    is_onum(l)
}

/// The item's own text, after the marker.
pub open spec fn item_text(l: Seq<char>) -> Seq<char> {
    let d = line_indent(l);
    if is_onum(l) {
        let w = digit_run_len(l, d);
        trim(l.subrange(d + w + 2, l.len() as int))
    } else if 0 <= d + 2 <= l.len() {
        trim(l.subrange(d + 2, l.len() as int))
    } else {
        Seq::empty()
    }
}

/// First line in `[j, end)` that is not a deeper list line, or `end`.
pub open spec fn first_shallow(lines: Seq<Seq<char>>, j: int, end: int, d: int) -> int
    decreases end - j,
{
    if j < 0 || j >= end || end > lines.len() {
        end
    } else if is_list_line(lines[j]) && line_indent(lines[j]) > d {
        first_shallow(lines, j + 1, end, d)
    } else {
        j
    }
}

/// The flat items of a sublist, one per line of `[a, b)`.
pub open spec fn sub_items(
    lines: Seq<Seq<char>>,
    a: int,
    b: int,
    art: bool,
    labels: Seq<Seq<char>>,
) -> Seq<SpecNode>
    decreases b - a,
{
    if a < 0 || a >= b || b > lines.len() {
        Seq::empty()
    } else {
        seq![
            SpecNode::ListItem { children: inline_nodes(item_text(lines[a]), art, labels) },
        ] + sub_items(lines, a + 1, b, art, labels)
    }
}

/// An item's sublist: one list holding the deeper lines as flat items.
pub open spec fn sub_list(
    lines: Seq<Seq<char>>,
    a: int,
    b: int,
    art: bool,
    labels: Seq<Seq<char>>,
) -> SpecNode {
    SpecNode::List {
        ordered: (0 <= a < lines.len() && list_ordered_line(lines[a])),
        items: sub_items(lines, a, b, art, labels),
    }
}

/// The items of the list starting at `j`, at indent `d` with the given
/// orderedness, and the index of the first line after the list.
pub open spec fn list_items(
    lines: Seq<Seq<char>>,
    j: int,
    end: int,
    d: int,
    ord: bool,
    art: bool,
    labels: Seq<Seq<char>>,
) -> (Seq<SpecNode>, int)
    decreases end - j,
{
    if j < 0 || j >= end || end > lines.len() {
        (Seq::empty(), j)
    } else {
        let l = lines[j];
        if is_list_line(l) && line_indent(l) == d && list_ordered_line(l) == ord {
            let content = inline_nodes(item_text(l), art, labels);
            let k = first_shallow(lines, j + 1, end, d);
            if j + 1 <= k <= end {
                let children = if k > j + 1 {
                    content + seq![sub_list(lines, j + 1, k, art, labels)]
                } else {
                    content
                };
                let rest = list_items(lines, k, end, d, ord, art, labels);
                (seq![SpecNode::ListItem { children }] + rest.0, rest.1)
            } else {
                (Seq::empty(), j)
            }
        } else {
            (Seq::empty(), j)
        }
    }
}

/// The list starting at `j` and the index of the first line after it.
pub open spec fn parse_list(
    lines: Seq<Seq<char>>,
    j: int,
    end: int,
    art: bool,
    labels: Seq<Seq<char>>,
) -> (SpecNode, int) {
    let d = line_indent(lines[j]);
    let ord = list_ordered_line(lines[j]);
    let r = list_items(lines, j, end, d, ord, art, labels);
    (SpecNode::List { ordered: ord, items: r.0 }, r.1)
}

// --- tables ---

pub open spec fn has_pipe(l: Seq<char>) -> bool {
    find_from(l, 0, '|') >= 0
}

pub open spec fn is_delim_char(c: char) -> bool {
    c == '|' || c == '-' || c == ':' || c == ' '
}

/// The delimiter row under a table header: only `|`, `-`, `:` and
/// spaces, with at least one dash.
pub open spec fn is_delim_row(l: Seq<char>) -> bool {
    l.len() >= 1 && (forall|k: int| 0 <= k < l.len() ==> is_delim_char(#[trigger] l[k]))
        && find_from(l, 0, '-') >= 0
}

/// The cell texts of a row, split on `|`, each trimmed.  A leading pipe
/// is skipped; an empty tail after the last pipe is dropped.
pub open spec fn row_cells(l: Seq<char>, a: int) -> Seq<Seq<char>>
    decreases l.len() - a,
{
    if a < 0 || a >= l.len() {
        Seq::empty()
    } else {
        let j = find_from(l, a, '|');
        if a <= j && j < l.len() {
            seq![trim(l.subrange(a, j))] + row_cells(l, j + 1)
        } else {
            let t = trim(l.subrange(a, l.len() as int));
            if t.len() == 0 {
                Seq::empty()
            } else {
                seq![t]
            }
        }
    }
}

pub open spec fn cells_of(l: Seq<char>) -> Seq<Seq<char>> {
    if l.len() >= 1 && l[0] == '|' {
        row_cells(l, 1)
    } else {
        row_cells(l, 0)
    }
}

/// The cells padded or truncated to the header's column count.
pub open spec fn pad_cells(cs: Seq<Seq<char>>, n: int) -> Seq<Seq<char>>
    decreases n,
{
    if n <= 0 {
        Seq::empty()
    } else {
        pad_cells(cs, n - 1) + seq![
            if n - 1 < cs.len() {
                cs[n - 1]
            } else {
                Seq::empty()
            },
        ]
    }
}

pub open spec fn cell_nodes(
    cs: Seq<Seq<char>>,
    header: bool,
    art: bool,
    labels: Seq<Seq<char>>,
) -> Seq<SpecNode>
    decreases cs.len(),
{
    if cs.len() == 0 {
        Seq::empty()
    } else {
        seq![
            SpecNode::TableCell { header, children: inline_nodes(cs[0], art, labels) },
        ] + cell_nodes(cs.drop_first(), header, art, labels)
    }
}

pub open spec fn row_node(
    l: Seq<char>,
    nc: int,
    header: bool,
    art: bool,
    labels: Seq<Seq<char>>,
) -> SpecNode {
    SpecNode::TableRow {
        header,
        children: cell_nodes(pad_cells(cells_of(l), nc), header, art, labels),
    }
}

/// First line in `[j, end)` that is no table row, or `end`.
pub open spec fn table_end(lines: Seq<Seq<char>>, j: int, end: int) -> int
    decreases end - j,
{
    if j < 0 || j >= end || end > lines.len() {
        end
    } else if has_pipe(lines[j]) && !all_spaces(lines[j]) {
        table_end(lines, j + 1, end)
    } else {
        j
    }
}

pub open spec fn table_rows(
    lines: Seq<Seq<char>>,
    j: int,
    end: int,
    nc: int,
    art: bool,
    labels: Seq<Seq<char>>,
) -> Seq<SpecNode>
    decreases end - j,
{
    if j < 0 || j >= end || end > lines.len() {
        Seq::empty()
    } else {
        seq![row_node(lines[j], nc, false, art, labels)] + table_rows(
            lines,
            j + 1,
            end,
            nc,
            art,
            labels,
        )
    }
}

// --- the block parse ---

/// The pending paragraph `lines[ps..i]` as zero or one node.
pub open spec fn para_nodes(
    lines: Seq<Seq<char>>,
    ps: int,
    i: int,
    art: bool,
    labels: Seq<Seq<char>>,
) -> Seq<SpecNode> {
    if ps >= i {
        Seq::empty()
    } else {
        seq![
            SpecNode::Paragraph { children: inline_nodes(join_lines(lines, ps, i), art, labels) },
        ]
    }
}

/// The block parse of `lines[i..end]` with a pending paragraph starting
/// at `ps`.  Rules are tried in a fixed order; the first match wins, and
/// unclaimed lines accumulate into the paragraph.
pub open spec fn blocks_from(
    lines: Seq<Seq<char>>,
    i: int,
    end: int,
    ps: int,
    art: bool,
    labels: Seq<Seq<char>>,
) -> Seq<SpecNode>
    decreases end - i,
{
    if i < 0 || i >= end || end > lines.len() {
        para_nodes(lines, ps, i, art, labels)
    } else {
        let l = lines[i];
        if all_spaces(l) {
            para_nodes(lines, ps, i, art, labels) + blocks_from(lines, i + 1, end, i + 1, art, labels)
        } else if ps < i && is_setext_eq(l) {
            seq![
                SpecNode::Heading {
                    level: 1,
                    anchor: Option::None,
                    children: inline_nodes(join_lines(lines, ps, i), art, labels),
                },
            ] + blocks_from(lines, i + 1, end, i + 1, art, labels)
        } else if ps < i && is_setext_dash(l) {
            seq![
                SpecNode::Heading {
                    level: 2,
                    anchor: Option::None,
                    children: inline_nodes(join_lines(lines, ps, i), art, labels),
                },
            ] + blocks_from(lines, i + 1, end, i + 1, art, labels)
        } else if is_atx(l) {
            para_nodes(lines, ps, i, art, labels) + seq![
                SpecNode::Heading {
                    level: atx_level(l) as u8,
                    anchor: Option::None,
                    children: inline_nodes(atx_text(l), art, labels),
                },
            ] + blocks_from(lines, i + 1, end, i + 1, art, labels)
        } else if is_hr(l) {
            para_nodes(lines, ps, i, art, labels) + seq![SpecNode::Hr] + blocks_from(
                lines,
                i + 1,
                end,
                i + 1,
                art,
                labels,
            )
        } else if is_fence(l) {
            let n = fence_run(l);
            let c = find_fence_close(lines, i + 1, end, n);
            if i + 1 <= c && c <= end {
                let nxt = if c < end {
                    c + 1
                } else {
                    end
                };
                para_nodes(lines, ps, i, art, labels) + seq![
                    SpecNode::CodeBlock { info: fence_info(l), text: code_join(lines, i + 1, c) },
                ] + blocks_from(lines, nxt, end, nxt, art, labels)
            } else {
                blocks_from(lines, i + 1, end, ps, art, labels)
            }
        } else if art && is_spoiler_open(l) && find_spoiler_close(lines, i + 1, end) < end {
            let c = find_spoiler_close(lines, i + 1, end);
            if i + 1 <= c {
                para_nodes(lines, ps, i, art, labels) + seq![
                    SpecNode::SpoilerBlock {
                        summary: spoiler_summary(l),
                        children: blocks_from(lines, i + 1, c, i + 1, art, labels),
                    },
                ] + blocks_from(lines, c + 1, end, c + 1, art, labels)
            } else {
                blocks_from(lines, i + 1, end, ps, art, labels)
            }
        } else if art && is_footdef(l) {
            para_nodes(lines, ps, i, art, labels) + blocks_from(lines, i + 1, end, i + 1, art, labels)
        } else if has_pipe(l) && i + 1 < end && is_delim_row(lines[i + 1]) {
            let nc = cells_of(l).len() as int;
            let te = table_end(lines, i + 2, end);
            if i + 2 <= te && te <= end {
                para_nodes(lines, ps, i, art, labels) + seq![
                    SpecNode::Table {
                        children: seq![row_node(l, nc, true, art, labels)] + table_rows(
                            lines,
                            i + 2,
                            te,
                            nc,
                            art,
                            labels,
                        ),
                    },
                ] + blocks_from(lines, te, end, te, art, labels)
            } else {
                blocks_from(lines, i + 1, end, ps, art, labels)
            }
        } else if is_quote(l) {
            let qe = quote_end(lines, i + 1, end);
            if i + 1 <= qe && qe <= end {
                para_nodes(lines, ps, i, art, labels) + seq![
                    SpecNode::Blockquote {
                        children: seq![
                            SpecNode::Paragraph {
                                children: inline_nodes(quote_join(lines, i, qe), art, labels),
                            },
                        ],
                    },
                ] + blocks_from(lines, qe, end, qe, art, labels)
            } else {
                blocks_from(lines, i + 1, end, ps, art, labels)
            }
        } else if is_list_line(l) {
            let r = parse_list(lines, i, end, art, labels);
            if i < r.1 && r.1 <= end {
                para_nodes(lines, ps, i, art, labels) + seq![r.0] + blocks_from(
                    lines,
                    r.1,
                    end,
                    r.1,
                    art,
                    labels,
                )
            } else {
                blocks_from(lines, i + 1, end, ps, art, labels)
            }
        } else {
            blocks_from(lines, i + 1, end, ps, art, labels)
        }
    }
}

/// The document tree of a whole input, before any transform pass.
pub open spec fn doc_blocks(s: Seq<char>, art: bool, labels: Seq<Seq<char>>) -> Seq<SpecNode> {
    blocks_from(lines_of(s), 0, lines_of(s).len() as int, 0, art, labels)
}

// --- executable line splitting ---

/// Splits the input into lines; carriage returns before newlines are
/// dropped.
pub fn split_lines(s: &Vec<char>) -> (r: Vec<Vec<char>>)
    ensures
        r.deep_view() == lines_of(s@),
{
    let slen = s.len();
    let mut r: Vec<Vec<char>> = Vec::new();
    let mut pos: usize = 0;
    let mut done = false;
    while !done
        invariant
            pos <= slen,
            slen == s@.len(),
            !done ==> lines_of(s@) == r.deep_view() + lines_from(s@, pos as int),
            done ==> lines_of(s@) == r.deep_view(),
        decreases slen - pos, if done {
            0int
        } else {
            1int
        },
    {
        let ghost prefix = r.deep_view();
        match find_char(s, pos, '\n') {
            Option::Some(j) => {
                let mut line = subvec(s, pos, j);
                if line.len() > 0 && line[line.len() - 1] == '\r' {
                    line.pop();
                    proof {
                        assert(line@ =~= strip_cr(s@.subrange(pos as int, j as int)));
                    }
                }
                proof {
                    assert(line@ =~= strip_cr(s@.subrange(pos as int, j as int)));
                    assert(line.deep_view() =~= line@);
                }
                r.push(line);
                proof {
                    assert(r.deep_view() =~= prefix + seq![
                        strip_cr(s@.subrange(pos as int, j as int)),
                    ]);
                }
                pos = j + 1;
            },
            Option::None => {
                let mut line = subvec(s, pos, slen);
                if line.len() > 0 && line[line.len() - 1] == '\r' {
                    line.pop();
                }
                proof {
                    assert(line@ =~= strip_cr(s@.subrange(pos as int, slen as int)));
                    assert(line.deep_view() =~= line@);
                }
                r.push(line);
                proof {
                    assert(r.deep_view() =~= prefix + seq![
                        strip_cr(s@.subrange(pos as int, slen as int)),
                    ]);
                }
                done = true;
            },
        }
    }
    r
}

// --- executable line classifiers ---

pub fn blank_x(l: &Vec<char>) -> (r: bool)
    ensures
        r == all_spaces(l@),
{
    let n = char_run_at(l, 0, ' ');
    n == l.len()
}

fn trail_spaces_x(l: &Vec<char>) -> (r: usize)
    ensures
        r as int == trail_spaces(l@),
        r <= l@.len(),
{
    let llen = l.len();
    proof {
        assert(l@.take(llen as int) =~= l@);
    }
    let mut m = llen;
    while m > 0 && l[m - 1] == ' '
        invariant
            m <= llen,
            llen == l@.len(),
            trail_spaces(l@) == (llen - m) + trail_spaces(l@.take(m as int)),
        decreases m,
    {
        proof {
            assert(l@.take(m as int)[m - 1] == l@[m - 1]);
            assert(l@.take(m as int).take(m - 1) =~= l@.take(m - 1));
        }
        m = m - 1;
    }
    proof {
        if m > 0 {
            assert(l@.take(m as int)[m - 1] == l@[m - 1]);
        }
    }
    llen - m
}

/// The line trimmed of leading and trailing spaces, as a fresh vector.
pub fn trim_of(l: &Vec<char>) -> (r: Vec<char>)
    ensures
        r@ == trim(l@),
{
    let llen = l.len();
    let a = char_run_at(l, 0, ' ');
    let b = trail_spaces_x(l);
    if a <= llen - b {
        subvec(l, a, llen - b)
    } else {
        let r: Vec<char> = Vec::new();
        proof {
            assert(r@ =~= Seq::<char>::empty());
        }
        r
    }
}

fn is_atx_x(l: &Vec<char>) -> (r: bool)
    ensures
        r == is_atx(l@),
{
    let h = char_run_at(l, 0, '#');
    1 <= h && h <= 6 && (h == l.len() || l[h] == ' ')
}

fn atx_text_x(l: &Vec<char>) -> (r: Vec<char>)
    ensures
        r@ == atx_text(l@),
{
    let h = char_run_at(l, 0, '#');
    let sub = subvec(l, h, l.len());
    trim_of(&sub)
}

fn is_setext_eq_x(l: &Vec<char>) -> (r: bool)
    ensures
        r == is_setext_eq(l@),
{
    l.len() >= 1 && char_run_at(l, 0, '=') == l.len()
}

fn is_setext_dash_x(l: &Vec<char>) -> (r: bool)
    ensures
        r == is_setext_dash(l@),
{
    l.len() >= 1 && char_run_at(l, 0, '-') == l.len()
}

fn is_hr_x(l: &Vec<char>) -> (r: bool)
    ensures
        r == is_hr(l@),
{
    l.len() >= 3 && (l[0] == '-' || l[0] == '*' || l[0] == '_') && char_run_at(l, 0, l[0])
        == l.len()
}

fn is_fence_x(l: &Vec<char>) -> (r: bool)
    ensures
        r == is_fence(l@),
{
    char_run_at(l, 0, '`') >= 3
}

fn fence_info_x(l: &Vec<char>) -> (r: Vec<char>)
    ensures
        r@ == fence_info(l@),
{
    let n = char_run_at(l, 0, '`');
    let sub = subvec(l, n, l.len());
    trim_of(&sub)
}

fn is_fence_close_x(l: &Vec<char>, n: usize) -> (r: bool)
    ensures
        r == is_fence_close(l@, n as int),
{
    let m = char_run_at(l, 0, '`');
    if m < n {
        return false;
    }
    let sub = subvec(l, m, l.len());
    blank_x(&sub)
}

fn is_quote_x(l: &Vec<char>) -> (r: bool)
    ensures
        r == is_quote(l@),
{
    l.len() >= 1 && l[0] == '>'
}

fn qstrip_x(l: &Vec<char>) -> (r: Vec<char>)
    ensures
        r@ == qstrip(l@),
{
    if l.len() >= 2 && l[1] == ' ' {
        subvec(l, 2, l.len())
    } else if l.len() >= 1 {
        subvec(l, 1, l.len())
    } else {
        subvec(l, 0, l.len())
    }
}

fn is_spoiler_open_x(l: &Vec<char>) -> (r: bool)
    ensures
        r == is_spoiler_open(l@),
{
    char_run_at(l, 0, ':') >= 3
}

fn spoiler_summary_x(l: &Vec<char>) -> (r: Vec<char>)
    ensures
        r@ == spoiler_summary(l@),
{
    let n = char_run_at(l, 0, ':');
    let sub = subvec(l, n, l.len());
    trim_of(&sub)
}

fn is_spoiler_close_x(l: &Vec<char>) -> (r: bool)
    ensures
        r == is_spoiler_close(l@),
{
    let n = char_run_at(l, 0, ':');
    if n < 3 {
        return false;
    }
    let sub = subvec(l, n, l.len());
    blank_x(&sub)
}

pub fn is_footdef_x(l: &Vec<char>) -> (r: bool)
    ensures
        r == is_footdef(l@),
{
    let llen = l.len();
    if !(llen >= 2 && l[0] == '[' && l[1] == '^') {
        return false;
    }
    match find_char(l, 2, ']') {
        Option::Some(j) => j > 2 && llen - j > 1 && l[j + 1] == ':',
        Option::None => false,
    }
}

pub fn footdef_parts(l: &Vec<char>) -> (r: (Vec<char>, Vec<char>))
    requires
        is_footdef(l@),
    ensures
        r.0@ == footdef_label(l@),
        r.1@ == footdef_text(l@),
{
    let llen = l.len();
    match find_char(l, 2, ']') {
        Option::Some(j) => {
            let lab = subvec(l, 2, j);
            let sub = subvec(l, j + 2, llen);
            let txt = trim_of(&sub);
            (lab, txt)
        },
        Option::None => {
            proof {
                assert(false);
            }
            (Vec::new(), Vec::new())
        },
    }
}

// --- executable list helpers ---

fn is_bullet_x(l: &Vec<char>) -> (r: bool)
    ensures
        r == is_bullet(l@),
{
    let llen = l.len();
    let d = char_run_at(l, 0, ' ');
    d < llen && llen - d > 1 && (l[d] == '-' || l[d] == '*' || l[d] == '+') && l[d + 1] == ' '
}

fn is_onum_x(l: &Vec<char>) -> (r: bool)
    ensures
        r == is_onum(l@),
{
    let llen = l.len();
    let d = char_run_at(l, 0, ' ');
    let w = digit_run_at(l, d);
    w >= 1 && llen - (d + w) > 1 && (l[d + w] == '.' || l[d + w] == ')') && l[d + w + 1] == ' '
}

fn is_list_line_x(l: &Vec<char>) -> (r: bool)
    ensures
        r == is_list_line(l@),
{
    is_bullet_x(l) || is_onum_x(l)
}

fn item_text_x(l: &Vec<char>) -> (r: Vec<char>)
    ensures
        r@ == item_text(l@),
{
    let llen = l.len();
    let d = char_run_at(l, 0, ' ');
    if is_onum_x(l) {
        let w = digit_run_at(l, d);
        let sub = subvec(l, d + w + 2, llen);
        trim_of(&sub)
    } else if llen >= 2 && d <= llen - 2 {
        let sub = subvec(l, d + 2, llen);
        trim_of(&sub)
    } else {
        let r: Vec<char> = Vec::new();
        proof {
            assert(r@ =~= Seq::<char>::empty());
        }
        r
    }
}

fn first_shallow_x(lines: &Vec<Vec<char>>, j: usize, end: usize, d: usize) -> (r: usize)
    requires
        j <= end,
        end <= lines@.len(),
    ensures
        r as int == first_shallow(lines.deep_view(), j as int, end as int, d as int),
        j <= r <= end,
{
    let ghost dv = lines.deep_view();
    let mut m = j;
    while m < end
        invariant
            j <= m <= end,
            end <= lines@.len(),
            dv == lines.deep_view(),
            first_shallow(dv, j as int, end as int, d as int) == first_shallow(
                dv,
                m as int,
                end as int,
                d as int,
            ),
        decreases end - m,
    {
        let lm = &lines[m];
        proof {
            assert(dv[m as int] =~= lm@);
        }
        if !(is_list_line_x(lm) && char_run_at(lm, 0, ' ') > d) {
            return m;
        }
        m = m + 1;
    }
    m
}

fn sub_list_x(
    lines: &Vec<Vec<char>>,
    a: usize,
    b: usize,
    art: bool,
    labels: &Vec<Vec<char>>,
) -> (r: Node)
    requires
        a < b,
        b <= lines@.len(),
    ensures
        node_view(r) == sub_list(lines.deep_view(), a as int, b as int, art, labels.deep_view()),
{
    let ghost dv = lines.deep_view();
    let ghost lv = labels.deep_view();
    let la = &lines[a];
    proof {
        assert(dv[a as int] =~= la@);
    }
    let ord = is_onum_x(la);
    let mut items: Vec<Node> = Vec::new();
    let mut k = a;
    while k < b
        invariant
            a <= k <= b,
            b <= lines@.len(),
            dv == lines.deep_view(),
            lv == labels.deep_view(),
            sub_items(dv, a as int, b as int, art, lv) == nodes_view(items@) + sub_items(
                dv,
                k as int,
                b as int,
                art,
                lv,
            ),
        decreases b - k,
    {
        let lk = &lines[k];
        proof {
            assert(dv[k as int] =~= lk@);
        }
        let it = item_text_x(lk);
        let children = parse_inline(&it, art, labels);
        let item = Node::ListItem { children };
        proof {
            lemma_nodes_view_push(items@, item);
        }
        items.push(item);
        proof {
            assert(nodes_view(items@) + sub_items(dv, k + 1, b as int, art, lv) =~= sub_items(
                dv,
                a as int,
                b as int,
                art,
                lv,
            ));
        }
        k = k + 1;
    }
    Node::List { ordered: ord, items }
}

fn list_items_x(
    lines: &Vec<Vec<char>>,
    j: usize,
    end: usize,
    d: usize,
    ord: bool,
    art: bool,
    labels: &Vec<Vec<char>>,
) -> (r: (Vec<Node>, usize))
    requires
        j <= end,
        end <= lines@.len(),
    ensures
        ({
            let sp = list_items(
                lines.deep_view(),
                j as int,
                end as int,
                d as int,
                ord,
                art,
                labels.deep_view(),
            );
            nodes_view(r.0@) == sp.0 && r.1 as int == sp.1 && j <= r.1 <= end
        }),
    decreases end - j,
{
    let ghost dv = lines.deep_view();
    let ghost lv = labels.deep_view();
    if j >= end {
        return (Vec::new(), j);
    }
    let l = &lines[j];
    proof {
        assert(dv[j as int] =~= l@);
    }
    if is_list_line_x(l) && char_run_at(l, 0, ' ') == d && is_onum_x(l) == ord {
        let it = item_text_x(l);
        let content = parse_inline(&it, art, labels);
        let k = first_shallow_x(lines, j + 1, end, d);
        let mut children = content;
        if k > j + 1 {
            let sl = sub_list_x(lines, j + 1, k, art, labels);
            proof {
                lemma_nodes_view_push(children@, sl);
            }
            children.push(sl);
        }
        let item = Node::ListItem { children };
        let rest = list_items_x(lines, k, end, d, ord, art, labels);
        let (mut rest_items, nxt) = rest;
        let ghost old_rest = rest_items@;
        rest_items.insert(0, item);
        proof {
            assert(rest_items@ =~= seq![item] + old_rest);
            crate::ast::lemma_nodes_view_one(item);
            crate::ast::lemma_nodes_view_add(seq![item], old_rest);
        }
        (rest_items, nxt)
    } else {
        (Vec::new(), j)
    }
}

// --- executable tables ---

fn is_delim_row_x(l: &Vec<char>) -> (r: bool)
    ensures
        r == is_delim_row(l@),
{
    let llen = l.len();
    if llen < 1 {
        return false;
    }
    let mut m: usize = 0;
    while m < llen
        invariant
            m <= llen,
            llen == l@.len(),
            forall|k: int| 0 <= k < m ==> is_delim_char(#[trigger] l@[k]),
        decreases llen - m,
    {
        let c = l[m];
        if !(c == '|' || c == '-' || c == ':' || c == ' ') {
            return false;
        }
        m = m + 1;
    }
    match find_char(l, 0, '-') {
        Option::Some(_) => true,
        Option::None => false,
    }
}

fn cells_x(l: &Vec<char>) -> (r: Vec<Vec<char>>)
    ensures
        r.deep_view() == cells_of(l@),
{
    let llen = l.len();
    let start: usize = if llen >= 1 && l[0] == '|' {
        1
    } else {
        0
    };
    let mut out: Vec<Vec<char>> = Vec::new();
    let mut a = start;
    let mut done = false;
    while !done && a < llen
        invariant
            a <= llen,
            llen == l@.len(),
            !done ==> cells_of(l@) == out.deep_view() + row_cells(l@, a as int),
            done ==> cells_of(l@) == out.deep_view(),
        decreases llen - a, if done {
            0int
        } else {
            1int
        },
    {
        let ghost prefix = out.deep_view();
        match find_char(l, a, '|') {
            Option::Some(j) => {
                let sub = subvec(l, a, j);
                let t = trim_of(&sub);
                proof {
                    assert(t.deep_view() =~= t@);
                }
                out.push(t);
                proof {
                    assert(out.deep_view() =~= prefix + seq![trim(l@.subrange(a as int, j as int))]);
                }
                a = j + 1;
            },
            Option::None => {
                let sub = subvec(l, a, llen);
                let t = trim_of(&sub);
                proof {
                    assert(t.deep_view() =~= t@);
                }
                if t.len() > 0 {
                    out.push(t);
                    proof {
                        assert(out.deep_view() =~= prefix + seq![
                            trim(l@.subrange(a as int, llen as int)),
                        ]);
                    }
                }
                done = true;
            },
        }
    }
    proof {
        if !done {
            assert(row_cells(l@, a as int) =~= Seq::<Seq<char>>::empty());
        }
        assert(cells_of(l@) =~= out.deep_view());
    }
    out
}

fn pad_cells_x(cs: &Vec<Vec<char>>, n: usize) -> (r: Vec<Vec<char>>)
    ensures
        r.deep_view() == pad_cells(cs.deep_view(), n as int),
{
    let ghost cv = cs.deep_view();
    let mut out: Vec<Vec<char>> = Vec::new();
    let mut k: usize = 0;
    while k < n
        invariant
            k <= n,
            cv == cs.deep_view(),
            out.deep_view() == pad_cells(cv, k as int),
        decreases n - k,
    {
        let ghost prefix = out.deep_view();
        if k < cs.len() {
            let c = subvec(&cs[k], 0, cs[k].len());
            proof {
                assert(cs.deep_view()[k as int] =~= cs@[k as int]@);
                assert(c@ =~= cv[k as int]);
                assert(c.deep_view() =~= c@);
            }
            out.push(c);
            proof {
                assert(out.deep_view() =~= prefix + seq![cv[k as int]]);
            }
        } else {
            let c: Vec<char> = Vec::new();
            proof {
                assert(c.deep_view() =~= Seq::<char>::empty());
            }
            out.push(c);
            proof {
                assert(out.deep_view() =~= prefix + seq![Seq::<char>::empty()]);
            }
        }
        k = k + 1;
    }
    out
}

fn row_node_x(
    l: &Vec<char>,
    nc: usize,
    header: bool,
    art: bool,
    labels: &Vec<Vec<char>>,
) -> (r: Node)
    ensures
        node_view(r) == row_node(l@, nc as int, header, art, labels.deep_view()),
{
    let ghost lv = labels.deep_view();
    let cs = cells_x(l);
    let padded = pad_cells_x(&cs, nc);
    let ghost pv = padded.deep_view();
    let mut children: Vec<Node> = Vec::new();
    proof {
        assert(pv.skip(0) =~= pv);
        assert(nodes_view(children@) =~= Seq::<SpecNode>::empty());
    }
    let mut k: usize = 0;
    while k < padded.len()
        invariant
            k <= padded@.len(),
            pv == padded.deep_view(),
            lv == labels.deep_view(),
            cell_nodes(pv, header, art, lv) == nodes_view(children@) + cell_nodes(
                pv.skip(k as int),
                header,
                art,
                lv,
            ),
        decreases padded@.len() - k,
    {
        let ck = &padded[k];
        proof {
            assert(pv.skip(k as int)[0] =~= ck@);
        }
        let inner = parse_inline(ck, art, labels);
        let cell = Node::TableCell { header, children: inner };
        proof {
            lemma_nodes_view_push(children@, cell);
        }
        children.push(cell);
        proof {
            assert(pv.skip(k as int).drop_first() =~= pv.skip(k + 1));
            assert(nodes_view(children@) + cell_nodes(pv.skip(k + 1), header, art, lv)
                =~= cell_nodes(pv, header, art, lv));
        }
        k = k + 1;
    }
    proof {
        assert(pv.skip(padded@.len() as int) =~= Seq::<Seq<char>>::empty());
        assert(nodes_view(children@) =~= cell_nodes(pv, header, art, lv));
    }
    Node::TableRow { header, children }
}

// --- executable multi-line scans ---

fn fence_close_x(lines: &Vec<Vec<char>>, j: usize, end: usize, n: usize) -> (r: usize)
    requires
        j <= end,
        end <= lines@.len(),
    ensures
        r as int == find_fence_close(lines.deep_view(), j as int, end as int, n as int),
        j <= r <= end,
{
    let ghost dv = lines.deep_view();
    let mut m = j;
    while m < end
        invariant
            j <= m <= end,
            end <= lines@.len(),
            dv == lines.deep_view(),
            find_fence_close(dv, j as int, end as int, n as int) == find_fence_close(
                dv,
                m as int,
                end as int,
                n as int,
            ),
        decreases end - m,
    {
        let lm = &lines[m];
        proof {
            assert(dv[m as int] =~= lm@);
        }
        if is_fence_close_x(lm, n) {
            return m;
        }
        m = m + 1;
    }
    m
}

fn spoiler_close_x(lines: &Vec<Vec<char>>, j: usize, end: usize) -> (r: usize)
    requires
        j <= end,
        end <= lines@.len(),
    ensures
        r as int == find_spoiler_close(lines.deep_view(), j as int, end as int),
        j <= r <= end,
{
    let ghost dv = lines.deep_view();
    let mut m = j;
    while m < end
        invariant
            j <= m <= end,
            end <= lines@.len(),
            dv == lines.deep_view(),
            find_spoiler_close(dv, j as int, end as int) == find_spoiler_close(
                dv,
                m as int,
                end as int,
            ),
        decreases end - m,
    {
        let lm = &lines[m];
        proof {
            assert(dv[m as int] =~= lm@);
        }
        if is_spoiler_close_x(lm) {
            return m;
        }
        m = m + 1;
    }
    m
}

fn quote_end_x(lines: &Vec<Vec<char>>, j: usize, end: usize) -> (r: usize)
    requires
        j <= end,
        end <= lines@.len(),
    ensures
        r as int == quote_end(lines.deep_view(), j as int, end as int),
        j <= r <= end,
{
    let ghost dv = lines.deep_view();
    let mut m = j;
    while m < end
        invariant
            j <= m <= end,
            end <= lines@.len(),
            dv == lines.deep_view(),
            quote_end(dv, j as int, end as int) == quote_end(dv, m as int, end as int),
        decreases end - m,
    {
        let lm = &lines[m];
        proof {
            assert(dv[m as int] =~= lm@);
        }
        if !is_quote_x(lm) {
            return m;
        }
        m = m + 1;
    }
    m
}

fn table_end_x(lines: &Vec<Vec<char>>, j: usize, end: usize) -> (r: usize)
    requires
        j <= end,
        end <= lines@.len(),
    ensures
        r as int == table_end(lines.deep_view(), j as int, end as int),
        j <= r <= end,
{
    let ghost dv = lines.deep_view();
    let mut m = j;
    while m < end
        invariant
            j <= m <= end,
            end <= lines@.len(),
            dv == lines.deep_view(),
            table_end(dv, j as int, end as int) == table_end(dv, m as int, end as int),
        decreases end - m,
    {
        let lm = &lines[m];
        proof {
            assert(dv[m as int] =~= lm@);
        }
        let pipe = match find_char(lm, 0, '|') {
            Option::Some(_) => true,
            Option::None => false,
        };
        if !(pipe && !blank_x(lm)) {
            return m;
        }
        m = m + 1;
    }
    m
}

// --- executable joins ---

fn join_exec(lines: &Vec<Vec<char>>, a: usize, b: usize) -> (r: Vec<char>)
    requires
        a <= b,
        b <= lines@.len(),
    ensures
        r@ == join_lines(lines.deep_view(), a as int, b as int),
{
    let ghost dv = lines.deep_view();
    let mut out: Vec<char> = Vec::new();
    let mut k = a;
    while k < b
        invariant
            a <= k <= b,
            b <= lines@.len(),
            dv == lines.deep_view(),
            out@ == join_lines(dv, a as int, k as int),
        decreases b - k,
    {
        let lk = &lines[k];
        proof {
            assert(dv[k as int] =~= lk@);
        }
        if k > a {
            out.push('\n');
        }
        let t = trim_of(lk);
        extend_chars(&mut out, &t);
        proof {
            assert(out@ =~= join_lines(dv, a as int, k + 1));
        }
        k = k + 1;
    }
    out
}

fn code_join_exec(lines: &Vec<Vec<char>>, a: usize, b: usize) -> (r: Vec<char>)
    requires
        a <= b,
        b <= lines@.len(),
    ensures
        r@ == code_join(lines.deep_view(), a as int, b as int),
{
    let ghost dv = lines.deep_view();
    let mut out: Vec<char> = Vec::new();
    let mut k = a;
    while k < b
        invariant
            a <= k <= b,
            b <= lines@.len(),
            dv == lines.deep_view(),
            out@ == code_join(dv, a as int, k as int),
        decreases b - k,
    {
        let lk = &lines[k];
        proof {
            assert(dv[k as int] =~= lk@);
        }
        let copy = subvec(lk, 0, lk.len());
        extend_chars(&mut out, &copy);
        out.push('\n');
        proof {
            assert(out@ =~= code_join(dv, a as int, k + 1));
        }
        k = k + 1;
    }
    out
}

fn quote_join_exec(lines: &Vec<Vec<char>>, a: usize, b: usize) -> (r: Vec<char>)
    requires
        a <= b,
        b <= lines@.len(),
    ensures
        r@ == quote_join(lines.deep_view(), a as int, b as int),
{
    let ghost dv = lines.deep_view();
    let mut out: Vec<char> = Vec::new();
    let mut k = a;
    while k < b
        invariant
            a <= k <= b,
            b <= lines@.len(),
            dv == lines.deep_view(),
            out@ == quote_join(dv, a as int, k as int),
        decreases b - k,
    {
        let lk = &lines[k];
        proof {
            assert(dv[k as int] =~= lk@);
        }
        if k > a {
            out.push('\n');
        }
        let q = qstrip_x(lk);
        let t = trim_of(&q);
        extend_chars(&mut out, &t);
        proof {
            assert(out@ =~= quote_join(dv, a as int, k + 1));
        }
        k = k + 1;
    }
    out
}

// --- footnote definition collection ---

/// The footnote definitions of the whole document: parallel vectors of
/// labels and contents.
pub fn collect_defs_x(lines: &Vec<Vec<char>>) -> (r: (Vec<Vec<char>>, Vec<Vec<char>>))
    ensures
        r.0.deep_view() == labels_of(
            collect_defs(lines.deep_view(), 0, lines.deep_view().len() as int),
        ),
        r.1.deep_view() == texts_of(
            collect_defs(lines.deep_view(), 0, lines.deep_view().len() as int),
        ),
        r.0@.len() == r.1@.len(),
{
    let ghost dv = lines.deep_view();
    let mut labs: Vec<Vec<char>> = Vec::new();
    let mut txts: Vec<Vec<char>> = Vec::new();
    let mut k: usize = 0;
    while k < lines.len()
        invariant
            k <= lines@.len(),
            dv == lines.deep_view(),
            labs.deep_view() == labels_of(collect_defs(dv, 0, k as int)),
            txts.deep_view() == texts_of(collect_defs(dv, 0, k as int)),
            labs@.len() == txts@.len(),
        decreases lines@.len() - k,
    {
        let ghost lp = labs.deep_view();
        let ghost tp = txts.deep_view();
        let lk = &lines[k];
        proof {
            assert(dv[k as int] =~= lk@);
        }
        if is_footdef_x(lk) {
            let (lab, txt) = footdef_parts(lk);
            proof {
                assert(lab.deep_view() =~= lab@);
                assert(txt.deep_view() =~= txt@);
            }
            labs.push(lab);
            txts.push(txt);
            proof {
                assert(labs.deep_view() =~= lp + seq![footdef_label(dv[k as int])]);
                assert(txts.deep_view() =~= tp + seq![footdef_text(dv[k as int])]);
                assert(labels_of(collect_defs(dv, 0, k + 1)) =~= labs.deep_view());
                assert(texts_of(collect_defs(dv, 0, k + 1)) =~= txts.deep_view());
            }
        } else {
            proof {
                assert(labels_of(collect_defs(dv, 0, k + 1)) =~= labs.deep_view());
                assert(texts_of(collect_defs(dv, 0, k + 1)) =~= txts.deep_view());
            }
        }
        k = k + 1;
    }
    proof {
        assert(dv.len() == lines@.len());
    }
    (labs, txts)
}

// --- the executable block parse ---

fn flush_para(
    lines: &Vec<Vec<char>>,
    ps: usize,
    i: usize,
    art: bool,
    labels: &Vec<Vec<char>>,
    out: &mut Vec<Node>,
)
    requires
        ps <= i,
        i <= lines@.len(),
    ensures
        nodes_view(final(out)@) == nodes_view(old(out)@) + para_nodes(
            lines.deep_view(),
            ps as int,
            i as int,
            art,
            labels.deep_view(),
        ),
{
    if ps < i {
        let jt = join_exec(lines, ps, i);
        let children = parse_inline(&jt, art, labels);
        let node = Node::Paragraph { children };
        proof {
            lemma_nodes_view_push(out@, node);
        }
        out.push(node);
    } else {
        proof {
            assert(nodes_view(out@) + para_nodes(
                lines.deep_view(),
                ps as int,
                i as int,
                art,
                labels.deep_view(),
            ) =~= nodes_view(out@));
        }
    }
}


fn table_node_x(
    lines: &Vec<Vec<char>>,
    i: usize,
    te: usize,
    nc: usize,
    art: bool,
    labels: &Vec<Vec<char>>,
) -> (r: Node)
    requires
        i + 2 <= te,
        te <= lines@.len(),
        nc == cells_of(lines.deep_view()[i as int]).len(),
    ensures
        node_view(r) == (SpecNode::Table {
            children: seq![
                row_node(lines.deep_view()[i as int], nc as int, true, art, labels.deep_view()),
            ] + table_rows(
                lines.deep_view(),
                i + 2,
                te as int,
                nc as int,
                art,
                labels.deep_view(),
            ),
        }),
{
    let ghost dv = lines.deep_view();
    let ghost lv = labels.deep_view();
    let l = &lines[i];
    proof {
        assert(dv[i as int] =~= l@);
    }
    let mut children: Vec<Node> = Vec::new();
    let hrow = row_node_x(l, nc, true, art, labels);
    proof {
        lemma_nodes_view_push(children@, hrow);
    }
    children.push(hrow);
    proof {
        assert(nodes_view(children@) =~= seq![row_node(dv[i as int], nc as int, true, art, lv)]
            + table_rows(dv, i + 2, i + 2, nc as int, art, lv));
    }
    let mut k = i + 2;
    while k < te
        invariant
            i + 2 <= k <= te <= lines@.len(),
            dv == lines.deep_view(),
            lv == labels.deep_view(),
            nc == cells_of(dv[i as int]).len(),
            i + 2 <= lines@.len(),
            nodes_view(children@) == seq![
                row_node(dv[i as int], nc as int, true, art, lv),
            ] + table_rows(dv, i + 2, k as int, nc as int, art, lv),
        decreases te - k,
    {
        let lk = &lines[k];
        proof {
            assert(dv[k as int] =~= lk@);
        }
        let row = row_node_x(lk, nc, false, art, labels);
        proof {
            lemma_nodes_view_push(children@, row);
        }
        children.push(row);
        proof {
            lemma_table_rows_snoc(dv, i + 2, k as int, nc as int, art, lv);
        }
        k = k + 1;
    }
    Node::Table { children }
}


fn push_join_heading(
    lines: &Vec<Vec<char>>,
    a: usize,
    b: usize,
    level: u8,
    art: bool,
    labels: &Vec<Vec<char>>,
    out: &mut Vec<Node>,
)
    requires
        a <= b,
        b <= lines@.len(),
    ensures
        nodes_view(final(out)@) == nodes_view(old(out)@) + seq![
            SpecNode::Heading {
                level,
                anchor: Option::None,
                children: inline_nodes(
                    join_lines(lines.deep_view(), a as int, b as int),
                    art,
                    labels.deep_view(),
                ),
            },
        ],
{
    let jt = join_exec(lines, a, b);
    let children = parse_inline(&jt, art, labels);
    let node = Node::Heading { level, anchor: Option::None, children };
    proof {
        lemma_nodes_view_push(out@, node);
    }
    out.push(node);
}

fn push_atx(l: &Vec<char>, art: bool, labels: &Vec<Vec<char>>, out: &mut Vec<Node>)
    requires
        is_atx(l@),
    ensures
        nodes_view(final(out)@) == nodes_view(old(out)@) + seq![
            SpecNode::Heading {
                level: atx_level(l@) as u8,
                anchor: Option::None,
                children: inline_nodes(atx_text(l@), art, labels.deep_view()),
            },
        ],
{
    let h = char_run_at(l, 0, '#');
    let txt = atx_text_x(l);
    let children = parse_inline(&txt, art, labels);
    let node = Node::Heading { level: h as u8, anchor: Option::None, children };
    proof {
        lemma_nodes_view_push(out@, node);
    }
    out.push(node);
}

fn push_fence(
    lines: &Vec<Vec<char>>,
    i: usize,
    c: usize,
    art: bool,
    labels: &Vec<Vec<char>>,
    out: &mut Vec<Node>,
)
    requires
        i < lines@.len(),
        i + 1 <= c,
        c <= lines@.len(),
    ensures
        nodes_view(final(out)@) == nodes_view(old(out)@) + seq![
            SpecNode::CodeBlock {
                info: fence_info(lines.deep_view()[i as int]),
                text: code_join(lines.deep_view(), i + 1, c as int),
            },
        ],
{
    let l = &lines[i];
    proof {
        assert(lines.deep_view()[i as int] =~= l@);
    }
    let info = fence_info_x(l);
    let text = code_join_exec(lines, i + 1, c);
    let node = Node::CodeBlock { info, text };
    proof {
        lemma_nodes_view_push(out@, node);
    }
    out.push(node);
}

fn push_quote(
    lines: &Vec<Vec<char>>,
    i: usize,
    qe: usize,
    art: bool,
    labels: &Vec<Vec<char>>,
    out: &mut Vec<Node>,
)
    requires
        i <= qe,
        qe <= lines@.len(),
    ensures
        nodes_view(final(out)@) == nodes_view(old(out)@) + seq![
            SpecNode::Blockquote {
                children: seq![
                    SpecNode::Paragraph {
                        children: inline_nodes(
                            quote_join(lines.deep_view(), i as int, qe as int),
                            art,
                            labels.deep_view(),
                        ),
                    },
                ],
            },
        ],
{
    let qj = quote_join_exec(lines, i, qe);
    let inner = parse_inline(&qj, art, labels);
    let para = Node::Paragraph { children: inner };
    let mut qchildren: Vec<Node> = Vec::new();
    proof {
        lemma_nodes_view_push(qchildren@, para);
    }
    qchildren.push(para);
    let node = Node::Blockquote { children: qchildren };
    proof {
        lemma_nodes_view_push(out@, node);
    }
    out.push(node);
}

/// Parses `lines[i0..end]` into block nodes; the result's model is
/// exactly the spec-level block parse of the range.
/// One step of the block parse at line `i` with pending paragraph
/// start `ps`: claims one rule's lines or lets the line join the
/// paragraph, and returns the new position and paragraph start.
#[verifier::rlimit(100)]
fn block_step(
    lines: &Vec<Vec<char>>,
    end: usize,
    i: usize,
    ps: usize,
    art: bool,
    labels: &Vec<Vec<char>>,
    out: &mut Vec<Node>,
) -> (r: (usize, usize))
    requires
        ps <= i,
        i < end,
        end <= lines@.len(),
    ensures
        i < r.0 <= end,
        r.1 <= r.0,
        ps <= r.1,
        nodes_view(old(out)@) + blocks_from(
            lines.deep_view(),
            i as int,
            end as int,
            ps as int,
            art,
            labels.deep_view(),
        ) == nodes_view(final(out)@) + blocks_from(
            lines.deep_view(),
            r.0 as int,
            end as int,
            r.1 as int,
            art,
            labels.deep_view(),
        ),
    decreases end - i, 4int,
{
    let ghost dv = lines.deep_view();
    let ghost lv = labels.deep_view();
    let l = &lines[i];
    proof {
        assert(dv[i as int] =~= l@);
    }
    if blank_x(l) {
        flush_para(lines, ps, i, art, labels, out);
        (i + 1, i + 1)
    } else if ps < i && is_setext_eq_x(l) {
        push_join_heading(lines, ps, i, 1, art, labels, out);
        (i + 1, i + 1)
    } else if ps < i && is_setext_dash_x(l) {
        push_join_heading(lines, ps, i, 2, art, labels, out);
        (i + 1, i + 1)
    } else if is_atx_x(l) {
        flush_para(lines, ps, i, art, labels, out);
        push_atx(l, art, labels, out);
        (i + 1, i + 1)
    } else if is_hr_x(l) {
        flush_para(lines, ps, i, art, labels, out);
        let node = Node::Hr;
        proof {
            lemma_nodes_view_push(out@, node);
        }
        out.push(node);
        (i + 1, i + 1)
    } else if is_fence_x(l) {
        let n = char_run_at(l, 0, '`');
        let c = fence_close_x(lines, i + 1, end, n);
        let nxt = if c < end {
            c + 1
        } else {
            end
        };
        flush_para(lines, ps, i, art, labels, out);
        push_fence(lines, i, c, art, labels, out);
        (nxt, nxt)
    } else {
        block_step_b(lines, end, i, ps, art, labels, out)
    }
}

/// The later block rules, once the earlier ones have declined.
#[verifier::rlimit(100)]
fn block_step_b(
    lines: &Vec<Vec<char>>,
    end: usize,
    i: usize,
    ps: usize,
    art: bool,
    labels: &Vec<Vec<char>>,
    out: &mut Vec<Node>,
) -> (r: (usize, usize))
    requires
        ps <= i,
        i < end,
        end <= lines@.len(),
        !all_spaces(lines.deep_view()[i as int]),
        !(ps < i && is_setext_eq(lines.deep_view()[i as int])),
        !(ps < i && is_setext_dash(lines.deep_view()[i as int])),
        !is_atx(lines.deep_view()[i as int]),
        !is_hr(lines.deep_view()[i as int]),
        !is_fence(lines.deep_view()[i as int]),
    ensures
        i < r.0 <= end,
        r.1 <= r.0,
        ps <= r.1,
        nodes_view(old(out)@) + blocks_from(
            lines.deep_view(),
            i as int,
            end as int,
            ps as int,
            art,
            labels.deep_view(),
        ) == nodes_view(final(out)@) + blocks_from(
            lines.deep_view(),
            r.0 as int,
            end as int,
            r.1 as int,
            art,
            labels.deep_view(),
        ),
    decreases end - i, 3int,
{
    let ghost dv = lines.deep_view();
    let ghost lv = labels.deep_view();
    let l = &lines[i];
    proof {
        assert(dv[i as int] =~= l@);
    }
    if art && is_spoiler_open_x(l) && {
        let c0 = spoiler_close_x(lines, i + 1, end);
        c0 < end
    } {
        let c = spoiler_close_x(lines, i + 1, end);
        flush_para(lines, ps, i, art, labels, out);
        let summary = spoiler_summary_x(l);
        let children = parse_blocks(lines, i + 1, c, art, labels);
        let node = Node::SpoilerBlock { summary, children };
        proof {
            lemma_nodes_view_push(out@, node);
        }
        out.push(node);
        (c + 1, c + 1)
    } else if art && is_footdef_x(l) {
        flush_para(lines, ps, i, art, labels, out);
        (i + 1, i + 1)
    } else {
        block_step_t(lines, end, i, ps, art, labels, out)
    }
}

/// The table rule, once the earlier rules have declined.
#[verifier::rlimit(100)]
fn block_step_t(
    lines: &Vec<Vec<char>>,
    end: usize,
    i: usize,
    ps: usize,
    art: bool,
    labels: &Vec<Vec<char>>,
    out: &mut Vec<Node>,
) -> (r: (usize, usize))
    requires
        ps <= i,
        i < end,
        end <= lines@.len(),
        !all_spaces(lines.deep_view()[i as int]),
        !(ps < i && is_setext_eq(lines.deep_view()[i as int])),
        !(ps < i && is_setext_dash(lines.deep_view()[i as int])),
        !is_atx(lines.deep_view()[i as int]),
        !is_hr(lines.deep_view()[i as int]),
        !is_fence(lines.deep_view()[i as int]),
        !(art && is_spoiler_open(lines.deep_view()[i as int]) && find_spoiler_close(
            lines.deep_view(),
            i + 1,
            end as int,
        ) < end),
        !(art && is_footdef(lines.deep_view()[i as int])),
    ensures
        i < r.0 <= end,
        r.1 <= r.0,
        ps <= r.1,
        nodes_view(old(out)@) + blocks_from(
            lines.deep_view(),
            i as int,
            end as int,
            ps as int,
            art,
            labels.deep_view(),
        ) == nodes_view(final(out)@) + blocks_from(
            lines.deep_view(),
            r.0 as int,
            end as int,
            r.1 as int,
            art,
            labels.deep_view(),
        ),
    decreases end - i, 2int,
{
    let ghost dv = lines.deep_view();
    let ghost lv = labels.deep_view();
    let l = &lines[i];
    proof {
        assert(dv[i as int] =~= l@);
    }
    if ({
        let pipe = match find_char(l, 0, '|') {
            Option::Some(_) => true,
            Option::None => false,
        };
        let delim_under = if i + 1 < end {
            let l2 = &lines[i + 1];
            proof {
                assert(dv[i + 1] =~= l2@);
            }
            is_delim_row_x(l2)
        } else {
            false
        };
        pipe && i + 1 < end && delim_under
    }) {
        let cs = cells_x(l);
        let nc = cs.len();
        proof {
            assert(cells_of(dv[i as int]).len() == nc);
        }
        let te = table_end_x(lines, i + 2, end);
        flush_para(lines, ps, i, art, labels, out);
        let node = table_node_x(lines, i, te, nc, art, labels);
        proof {
            lemma_nodes_view_push(out@, node);
        }
        out.push(node);
        (te, te)
    } else {
        block_step_c(lines, end, i, ps, art, labels, out)
    }
}

/// The last block rules: blockquote, list, and the paragraph default.
#[verifier::rlimit(100)]
fn block_step_c(
    lines: &Vec<Vec<char>>,
    end: usize,
    i: usize,
    ps: usize,
    art: bool,
    labels: &Vec<Vec<char>>,
    out: &mut Vec<Node>,
) -> (r: (usize, usize))
    requires
        ps <= i,
        i < end,
        end <= lines@.len(),
        !all_spaces(lines.deep_view()[i as int]),
        !(ps < i && is_setext_eq(lines.deep_view()[i as int])),
        !(ps < i && is_setext_dash(lines.deep_view()[i as int])),
        !is_atx(lines.deep_view()[i as int]),
        !is_hr(lines.deep_view()[i as int]),
        !is_fence(lines.deep_view()[i as int]),
        !(art && is_spoiler_open(lines.deep_view()[i as int]) && find_spoiler_close(
            lines.deep_view(),
            i + 1,
            end as int,
        ) < end),
        !(art && is_footdef(lines.deep_view()[i as int])),
        !(has_pipe(lines.deep_view()[i as int]) && i + 1 < end && is_delim_row(
            lines.deep_view()[i + 1],
        )),
    ensures
        i < r.0 <= end,
        r.1 <= r.0,
        ps <= r.1,
        nodes_view(old(out)@) + blocks_from(
            lines.deep_view(),
            i as int,
            end as int,
            ps as int,
            art,
            labels.deep_view(),
        ) == nodes_view(final(out)@) + blocks_from(
            lines.deep_view(),
            r.0 as int,
            end as int,
            r.1 as int,
            art,
            labels.deep_view(),
        ),
    decreases end - i, 1int,
{
    let ghost dv = lines.deep_view();
    let ghost lv = labels.deep_view();
    let l = &lines[i];
    proof {
        assert(dv[i as int] =~= l@);
    }
    if is_quote_x(l) {
        let qe = quote_end_x(lines, i + 1, end);
        flush_para(lines, ps, i, art, labels, out);
        push_quote(lines, i, qe, art, labels, out);
        (qe, qe)
    } else {
        block_step_d(lines, end, i, ps, art, labels, out)
    }
}

/// The list rule and the paragraph default.
#[verifier::rlimit(100)]
fn block_step_d(
    lines: &Vec<Vec<char>>,
    end: usize,
    i: usize,
    ps: usize,
    art: bool,
    labels: &Vec<Vec<char>>,
    out: &mut Vec<Node>,
) -> (r: (usize, usize))
    requires
        ps <= i,
        i < end,
        end <= lines@.len(),
        !all_spaces(lines.deep_view()[i as int]),
        !(ps < i && is_setext_eq(lines.deep_view()[i as int])),
        !(ps < i && is_setext_dash(lines.deep_view()[i as int])),
        !is_atx(lines.deep_view()[i as int]),
        !is_hr(lines.deep_view()[i as int]),
        !is_fence(lines.deep_view()[i as int]),
        !(art && is_spoiler_open(lines.deep_view()[i as int]) && find_spoiler_close(
            lines.deep_view(),
            i + 1,
            end as int,
        ) < end),
        !(art && is_footdef(lines.deep_view()[i as int])),
        !(has_pipe(lines.deep_view()[i as int]) && i + 1 < end && is_delim_row(
            lines.deep_view()[i + 1],
        )),
        !is_quote(lines.deep_view()[i as int]),
    ensures
        i < r.0 <= end,
        r.1 <= r.0,
        ps <= r.1,
        nodes_view(old(out)@) + blocks_from(
            lines.deep_view(),
            i as int,
            end as int,
            ps as int,
            art,
            labels.deep_view(),
        ) == nodes_view(final(out)@) + blocks_from(
            lines.deep_view(),
            r.0 as int,
            end as int,
            r.1 as int,
            art,
            labels.deep_view(),
        ),
    decreases end - i, 0int,
{
    let ghost dv = lines.deep_view();
    let ghost lv = labels.deep_view();
    let l = &lines[i];
    proof {
        assert(dv[i as int] =~= l@);
    }
    if is_list_line_x(l) {
        let d = char_run_at(l, 0, ' ');
        let ord = is_onum_x(l);
        let (items, nxt) = list_items_x(lines, i, end, d, ord, art, labels);
        if nxt > i {
            flush_para(lines, ps, i, art, labels, out);
            let node = Node::List { ordered: ord, items };
            proof {
                lemma_nodes_view_push(out@, node);
            }
            out.push(node);
            (nxt, nxt)
        } else {
            (i + 1, ps)
        }
    } else {
        (i + 1, ps)
    }
}

/// Parses `lines[i0..end]` into block nodes; the result's model is
/// exactly the spec-level block parse of the range.
pub fn parse_blocks(
    lines: &Vec<Vec<char>>,
    i0: usize,
    end: usize,
    art: bool,
    labels: &Vec<Vec<char>>,
) -> (r: Vec<Node>)
    requires
        i0 <= end,
        end <= lines@.len(),
    ensures
        nodes_view(r@) == blocks_from(
            lines.deep_view(),
            i0 as int,
            end as int,
            i0 as int,
            art,
            labels.deep_view(),
        ),
    decreases end - i0, 5int,
{
    let ghost dv = lines.deep_view();
    let ghost lv = labels.deep_view();
    let mut out: Vec<Node> = Vec::new();
    let mut i = i0;
    let mut ps = i0;
    while i < end
        invariant
            i0 <= ps <= i <= end <= lines@.len(),
            dv == lines.deep_view(),
            lv == labels.deep_view(),
            blocks_from(dv, i0 as int, end as int, i0 as int, art, lv) == nodes_view(out@)
                + blocks_from(dv, i as int, end as int, ps as int, art, lv),
        decreases end - i,
    {
        let (ni, nps) = block_step(lines, end, i, ps, art, labels, &mut out);
        i = ni;
        ps = nps;
    }
    flush_para(lines, ps, end, art, labels, &mut out);
    proof {
        assert(nodes_view(out@) =~= blocks_from(dv, i0 as int, end as int, i0 as int, art, lv));
    }
    out
}

/// The cell texts of the collected definitions, for the footnote pass.
pub open spec fn texts_of(defs: Seq<(Seq<char>, Seq<char>)>) -> Seq<Seq<char>> {
    defs.map_values(|d: (Seq<char>, Seq<char>)| d.1)
}

/// Appending one row to a row range.
proof fn lemma_table_rows_snoc(
    lines: Seq<Seq<char>>,
    a: int,
    b: int,
    nc: int,
    art: bool,
    labels: Seq<Seq<char>>,
)
    requires
        0 <= a <= b,
        b <= lines.len(),
    ensures
        b < lines.len() ==> table_rows(lines, a, b + 1, nc, art, labels) == table_rows(
            lines,
            a,
            b,
            nc,
            art,
            labels,
        ) + seq![row_node(lines[b], nc, false, art, labels)],
    decreases b - a,
{
    reveal_with_fuel(table_rows, 3);
    if a < b {
        lemma_table_rows_snoc(lines, a + 1, b, nc, art, labels);
        if b < lines.len() {
            assert(table_rows(lines, a, b + 1, nc, art, labels) =~= table_rows(
                lines,
                a,
                b,
                nc,
                art,
                labels,
            ) + seq![row_node(lines[b], nc, false, art, labels)]);
        }
    } else {
        if b < lines.len() {
            assert(table_rows(lines, a, b + 1, nc, art, labels) =~= table_rows(
                lines,
                a,
                b,
                nc,
                art,
                labels,
            ) + seq![row_node(lines[b], nc, false, art, labels)]);
        }
    }
}

} // verus!
