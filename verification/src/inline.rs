//! Inline rules and the inline tokenizer.
//!
//! The tokenizer walks a text buffer left to right.  At each position the
//! rules are tried in a fixed order and the first that claims the position
//! wins; a rule that cannot complete its syntax declines and the character
//! falls through to the literal text run.  Every successful match consumes
//! at least one character, which rules out non-termination.
//!
//! The spec functions here are the reference semantics; each executable
//! function is proved to return a tree whose model is exactly what the
//! corresponding spec function denotes.

use vstd::prelude::*;

use crate::ast::{lemma_nodes_view_push, node_view, nodes_view, Node, SpecNode};
use crate::scan::{
    char_run_at, char_run_len, chars_eq, contains_label, find_char, find_from, find_pair,
    find_pair_from, has_label, lemma_char_run_nonneg, rfind_char, rfind_in, subvec,
};
use crate::text::{alnum_run_at, alnum_run_len};

verus! {

pub open spec fn is_ascii_punct(c: char) -> bool {
    33 <= (c as u32) && (c as u32) <= 47 || 58 <= (c as u32) && (c as u32) <= 64 || 91 <= (
    c as u32) && (c as u32) <= 96 || 123 <= (c as u32) && (c as u32) <= 126
}

pub fn ascii_punct(c: char) -> (r: bool)
    ensures
        r == is_ascii_punct(c),
{
    let u = c as u32;
    33 <= u && u <= 47 || 58 <= u && u <= 64 || 91 <= u && u <= 96 || 123 <= u && u <= 126
}

/// Closing backtick run of exactly `n` ticks at or after `from`, or -1.
pub open spec fn find_tick_close(s: Seq<char>, from: int, n: int) -> int
    decreases s.len() - from,
{
    if from < 0 || from >= s.len() {
        -1
    } else if s[from] == '`' {
        let m = char_run_len(s, from, '`');
        if m == n {
            from
        } else if m >= 1 && from + m <= s.len() {
            find_tick_close(s, from + m, n)
        } else {
            -1
        }
    } else {
        find_tick_close(s, from + 1, n)
    }
}

/// A backslash escape: `\` followed by ASCII punctuation becomes that
/// character as literal text.
pub open spec fn try_esc(s: Seq<char>, i: int) -> Option<(SpecNode, int)> {
    if 0 <= i && i + 1 < s.len() && s[i] == '\\' && is_ascii_punct(s[i + 1]) {
        Option::Some((SpecNode::Text { text: seq![s[i + 1]] }, 2))
    } else {
        Option::None
    }
}

/// Inline code: a backtick run closed by a run of the same length.
pub open spec fn try_code(s: Seq<char>, i: int) -> Option<(SpecNode, int)> {
    if 0 <= i && i < s.len() && s[i] == '`' {
        let n = char_run_len(s, i, '`');
        let j = find_tick_close(s, i + n, n);
        if n >= 1 && j >= i + n && j + n <= s.len() {
            Option::Some((SpecNode::CodeSpan { code: s.subrange(i + n, j) }, j + n - i))
        } else {
            Option::None
        }
    } else {
        Option::None
    }
}

/// `u` looks like an absolute URL: a scheme, `://`, a non-empty rest, and
/// no space, newline or `<` anywhere.
pub open spec fn is_url(u: Seq<char>) -> bool {
    let r = alnum_run_len(u, 0);
    r >= 1 && r + 3 < u.len() && u[r] == ':' && u[r + 1] == '/' && u[r + 2] == '/' && find_from(
        u,
        0,
        ' ',
    ) == -1 && find_from(u, 0, '\n') == -1 && find_from(u, 0, '<') == -1
}

/// An autolink, `<scheme://rest>`.
pub open spec fn try_autolink(s: Seq<char>, i: int) -> Option<(SpecNode, int)> {
    if 0 <= i && i < s.len() && s[i] == '<' {
        let j = find_from(s, i + 1, '>');
        if j > i + 1 && j < s.len() && is_url(s.subrange(i + 1, j)) {
            Option::Some((SpecNode::Autolink { url: s.subrange(i + 1, j) }, j + 1 - i))
        } else {
            Option::None
        }
    } else {
        Option::None
    }
}

/// A cross-article link `[[target]]`, or the `[[toc]]` marker.  The closing
/// brackets must come before the next newline; the label is the target up
/// to its last `@`.
pub open spec fn try_article(s: Seq<char>, i: int) -> Option<(SpecNode, int)> {
    if 0 <= i && i + 1 < s.len() && s[i] == '[' && s[i + 1] == '[' {
        let j = find_pair_from(s, i + 2, ']');
        let nl = find_from(s, i + 2, '\n');
        if j > i + 2 && j + 2 <= s.len() && (nl == -1 || j < nl) {
            let inner = s.subrange(i + 2, j);
            if inner == seq!['t', 'o', 'c'] {
                Option::Some((SpecNode::TocMarker, j + 2 - i))
            } else {
                let p = rfind_in(inner, 0, inner.len() as int, '@');
                let label = if p >= 0 {
                    inner.take(p)
                } else {
                    inner
                };
                Option::Some((SpecNode::ArticleLink { target: inner, label }, j + 2 - i))
            }
        } else {
            Option::None
        }
    } else {
        Option::None
    }
}

/// The `[!toc]` marker.
pub open spec fn try_toc_bang(s: Seq<char>, i: int) -> Option<(SpecNode, int)> {
    if 0 <= i && i + 6 <= s.len() && s[i] == '[' && s[i + 1] == '!' && s[i + 2] == 't' && s[i + 3]
        == 'o' && s[i + 4] == 'c' && s[i + 5] == ']' {
        Option::Some((SpecNode::TocMarker, 6))
    } else {
        Option::None
    }
}

/// A reference `[^label]` to a footnote with a known definition.  The
/// number is zero here; the numbering pass assigns it.
pub open spec fn try_footref(s: Seq<char>, i: int, labels: Seq<Seq<char>>) -> Option<
    (SpecNode, int),
> {
    if 0 <= i && i + 1 < s.len() && s[i] == '[' && s[i + 1] == '^' {
        let j = find_from(s, i + 2, ']');
        let nl = find_from(s, i + 2, '\n');
        if j > i + 2 && j < s.len() && (nl == -1 || j < nl) && has_label(
            labels,
            s.subrange(i + 2, j),
        ) {
            Option::Some(
                (SpecNode::FootnoteRef { label: s.subrange(i + 2, j), num: 0 }, j + 1 - i),
            )
        } else {
            Option::None
        }
    } else {
        Option::None
    }
}

/// A math span: `$expr$`, or `$$expr$$` for display mode.  The closing
/// delimiter must come before the next newline, and the expression must be
/// non-empty; otherwise the rule declines and the text stays literal.
pub open spec fn try_math(s: Seq<char>, i: int) -> Option<(SpecNode, int)> {
    if 0 <= i && i < s.len() && s[i] == '$' {
        if i + 1 < s.len() && s[i + 1] == '$' {
            let j = find_pair_from(s, i + 2, '$');
            let nl = find_from(s, i + 2, '\n');
            if j > i + 2 && j + 2 <= s.len() && (nl == -1 || j < nl) {
                Option::Some(
                    (SpecNode::MathSpan { expr: s.subrange(i + 2, j), display: true }, j + 2 - i),
                )
            } else {
                Option::None
            }
        } else {
            let j = find_from(s, i + 1, '$');
            let nl = find_from(s, i + 1, '\n');
            if j > i + 1 && j < s.len() && (nl == -1 || j < nl) {
                Option::Some(
                    (SpecNode::MathSpan { expr: s.subrange(i + 1, j), display: false }, j + 1 - i),
                )
            } else {
                Option::None
            }
        }
    } else {
        Option::None
    }
}

/// Typographic replacements `(c)`, `(r)`, `(tm)`.
pub open spec fn try_typo(s: Seq<char>, i: int) -> Option<(SpecNode, int)> {
    if 0 <= i && i < s.len() && s[i] == '(' {
        if i + 2 < s.len() && s[i + 1] == 'c' && s[i + 2] == ')' {
            Option::Some((SpecNode::Text { text: seq!['\u{a9}'] }, 3))
        } else if i + 2 < s.len() && s[i + 1] == 'r' && s[i + 2] == ')' {
            Option::Some((SpecNode::Text { text: seq!['\u{ae}'] }, 3))
        } else if i + 3 < s.len() && s[i + 1] == 't' && s[i + 2] == 'm' && s[i + 3] == ')' {
            Option::Some((SpecNode::Text { text: seq!['\u{2122}'] }, 4))
        } else {
            Option::None
        }
    } else {
        Option::None
    }
}

/// Strong or emphasized text with the given marker (`*` or `_`): the
/// doubled form is tried first, then the single form.  Content may not be
/// empty or start or end with a space.
pub open spec fn try_strong_em(
    s: Seq<char>,
    i: int,
    mark: char,
    art: bool,
    labels: Seq<Seq<char>>,
) -> Option<(SpecNode, int)>
    decreases s.len() - i, 0int,
{
    if 0 <= i && i < s.len() && s[i] == mark {
        let dbl: Option<(SpecNode, int)> = if i + 1 < s.len() && s[i + 1] == mark {
            let j = find_pair_from(s, i + 2, mark);
            if j > i + 2 && j + 2 <= s.len() && s[i + 2] != ' ' && s[j - 1] != ' ' {
                Option::Some(
                    (
                        SpecNode::Strong {
                            children: inline_nodes(s.subrange(i + 2, j), art, labels),
                        },
                        j + 2 - i,
                    ),
                )
            } else {
                Option::None
            }
        } else {
            Option::None
        };
        if dbl is Some {
            dbl
        } else {
            let j = find_from(s, i + 1, mark);
            if j > i + 1 && j < s.len() && s[i + 1] != ' ' && s[j - 1] != ' ' {
                Option::Some(
                    (
                        SpecNode::Emphasis {
                            children: inline_nodes(s.subrange(i + 1, j), art, labels),
                        },
                        j + 1 - i,
                    ),
                )
            } else {
                Option::None
            }
        }
    } else {
        Option::None
    }
}

/// Struck-through text, `~~x~~`.
pub open spec fn try_strike(s: Seq<char>, i: int, art: bool, labels: Seq<Seq<char>>) -> Option<
    (SpecNode, int),
>
    decreases s.len() - i, 0int,
{
    if 0 <= i && i + 1 < s.len() && s[i] == '~' && s[i + 1] == '~' {
        let j = find_pair_from(s, i + 2, '~');
        if j > i + 2 && j + 2 <= s.len() && s[i + 2] != ' ' && s[j - 1] != ' ' {
            Option::Some(
                (
                    SpecNode::Strikethrough {
                        children: inline_nodes(s.subrange(i + 2, j), art, labels),
                    },
                    j + 2 - i,
                ),
            )
        } else {
            Option::None
        }
    } else {
        Option::None
    }
}

/// Subscript `~x~` or superscript `^x^` (article rules): the content may
/// not be empty or contain a space or newline.
pub open spec fn try_sub_sup(
    s: Seq<char>,
    i: int,
    mark: char,
    art: bool,
    labels: Seq<Seq<char>>,
) -> Option<(SpecNode, int)>
    decreases s.len() - i, 0int,
{
    if 0 <= i && i < s.len() && s[i] == mark {
        let j = find_from(s, i + 1, mark);
        let sp = find_from(s, i + 1, ' ');
        let nl = find_from(s, i + 1, '\n');
        if j > i + 1 && j < s.len() && (sp == -1 || sp > j) && (nl == -1 || nl > j) {
            let children = inline_nodes(s.subrange(i + 1, j), art, labels);
            if mark == '~' {
                Option::Some((SpecNode::Subscript { children }, j + 1 - i))
            } else {
                Option::Some((SpecNode::Superscript { children }, j + 1 - i))
            }
        } else {
            Option::None
        }
    } else {
        Option::None
    }
}

/// A standard link `[text](href)`.
pub open spec fn try_link(s: Seq<char>, i: int, art: bool, labels: Seq<Seq<char>>) -> Option<
    (SpecNode, int),
>
    decreases s.len() - i, 0int,
{
    if 0 <= i && i < s.len() && s[i] == '[' {
        let j = find_from(s, i + 1, ']');
        if j >= i + 1 && j + 1 < s.len() && s[j + 1] == '(' {
            let k = find_from(s, j + 2, ')');
            if k >= j + 2 && k < s.len() {
                Option::Some(
                    (
                        SpecNode::Link {
                            href: s.subrange(j + 2, k),
                            children: inline_nodes(s.subrange(i + 1, j), art, labels),
                        },
                        k + 1 - i,
                    ),
                )
            } else {
                Option::None
            }
        } else {
            Option::None
        }
    } else {
        Option::None
    }
}

/// The ordered rule dispatch at one position: the first rule whose marker
/// character matches and whose attempt succeeds wins.
pub open spec fn inline_step(s: Seq<char>, i: int, art: bool, labels: Seq<Seq<char>>) -> Option<
    (SpecNode, int),
>
    decreases s.len() - i, 1int,
{
    if i < 0 || i >= s.len() {
        Option::None
    } else {
        let c = s[i];
        if c == '\\' {
            try_esc(s, i)
        } else if c == '`' {
            try_code(s, i)
        } else if c == '*' {
            try_strong_em(s, i, '*', art, labels)
        } else if c == '_' {
            try_strong_em(s, i, '_', art, labels)
        } else if c == '~' {
            if i + 1 < s.len() && s[i + 1] == '~' {
                try_strike(s, i, art, labels)
            } else if art {
                try_sub_sup(s, i, '~', art, labels)
            } else {
                Option::None
            }
        } else if c == '^' && art {
            try_sub_sup(s, i, '^', art, labels)
        } else if c == '<' {
            try_autolink(s, i)
        } else if c == '[' {
            if art {
                let first: Option<(SpecNode, int)> = if i + 1 < s.len() && s[i + 1] == '^' {
                    try_footref(s, i, labels)
                } else if i + 1 < s.len() && s[i + 1] == '!' {
                    try_toc_bang(s, i)
                } else if i + 1 < s.len() && s[i + 1] == '[' {
                    try_article(s, i)
                } else {
                    Option::None
                };
                if first is Some {
                    first
                } else {
                    try_link(s, i, art, labels)
                }
            } else {
                try_link(s, i, art, labels)
            }
        } else if c == '$' && art {
            try_math(s, i)
        } else if c == '(' {
            try_typo(s, i)
        } else {
            Option::None
        }
    }
}

/// The pending literal run as zero or one `Text` node.
pub open spec fn flush_text(p: Seq<char>) -> Seq<SpecNode> {
    if p.len() == 0 {
        Seq::empty()
    } else {
        seq![SpecNode::Text { text: p }]
    }
}

/// The tokenizer from position `i` on, with the pending literal run
/// `s[rs..i]`.
pub open spec fn inline_seq(
    s: Seq<char>,
    i: int,
    rs: int,
    art: bool,
    labels: Seq<Seq<char>>,
) -> Seq<SpecNode>
    decreases s.len() - i, 2int,
{
    if i < 0 || i >= s.len() {
        flush_text(s.subrange(rs, s.len() as int))
    } else {
        let stp = inline_step(s, i, art, labels);
        match stp {
            Option::Some((n, k)) => {
                if 1 <= k && i + k <= s.len() {
                    flush_text(s.subrange(rs, i)) + seq![n] + inline_seq(
                        s,
                        i + k,
                        i + k,
                        art,
                        labels,
                    )
                } else {
                    inline_seq(s, i + 1, rs, art, labels)
                }
            },
            Option::None => inline_seq(s, i + 1, rs, art, labels),
        }
    }
}

/// The inline parse of a whole buffer.
pub open spec fn inline_nodes(s: Seq<char>, art: bool, labels: Seq<Seq<char>>) -> Seq<SpecNode>
    decreases s.len(), 3int,
{
    inline_seq(s, 0, 0, art, labels)
}

fn tick_close_at(s: &Vec<char>, from: usize, n: usize) -> (r: Option<usize>)
    ensures
        match r {
            Option::Some(j) => find_tick_close(s@, from as int, n as int) == j && from <= j && j
                + n <= s@.len(),
            Option::None => find_tick_close(s@, from as int, n as int) == -1,
        },
{
    let slen = s.len();
    let mut m = from;
    while m < slen
        invariant
            from <= m,
            slen == s@.len(),
            find_tick_close(s@, from as int, n as int) == find_tick_close(
                s@,
                m as int,
                n as int,
            ),
        decreases s@.len() - m,
    {
        if s[m] == '`' {
            let r = char_run_at(s, m, '`');
            proof {
                lemma_char_run_nonneg(s@, m + 1, '`');
            }
            if r == n {
                return Option::Some(m);
            }
            m = m + r;
        } else {
            m = m + 1;
        }
    }
    Option::None
}

fn esc_at(s: &Vec<char>, i: usize) -> (r: Option<(Node, usize)>)
    requires
        i < s@.len(),
    ensures
        match r {
            Option::Some(p) => try_esc(s@, i as int) == Option::Some(
                (node_view(p.0), p.1 as int),
            ) && 1 <= p.1 && i + p.1 <= s@.len(),
            Option::None => try_esc(s@, i as int) is None,
        },
{
    let slen = s.len();
    if i + 1 < slen && s[i] == '\\' && ascii_punct(s[i + 1]) {
        let mut t: Vec<char> = Vec::new();
        t.push(s[i + 1]);
        proof {
            assert(t@ =~= seq![s@[i + 1]]);
        }
        Option::Some((Node::Text { text: t }, 2))
    } else {
        Option::None
    }
}

fn code_at(s: &Vec<char>, i: usize) -> (r: Option<(Node, usize)>)
    requires
        i < s@.len(),
    ensures
        match r {
            Option::Some(p) => try_code(s@, i as int) == Option::Some(
                (node_view(p.0), p.1 as int),
            ) && 1 <= p.1 && i + p.1 <= s@.len(),
            Option::None => try_code(s@, i as int) is None,
        },
{
    let slen = s.len();
    if s[i] != '`' {
        return Option::None;
    }
    let n = char_run_at(s, i, '`');
    proof {
        lemma_char_run_nonneg(s@, i + 1, '`');
    }
    match tick_close_at(s, i + n, n) {
        Option::Some(j) => {
            let code = subvec(s, i + n, j);
            Option::Some((Node::CodeSpan { code }, j + n - i))
        },
        Option::None => Option::None,
    }
}

fn url_check(u: &Vec<char>) -> (r: bool)
    ensures
        r == is_url(u@),
{
    let ulen = u.len();
    let n = alnum_run_at(u, 0);
    if n < 1 || ulen < 4 || n > ulen - 4 {
        return false;
    }
    if !(u[n] == ':' && u[n + 1] == '/' && u[n + 2] == '/') {
        return false;
    }
    if find_char(u, 0, ' ').is_some() {
        return false;
    }
    if find_char(u, 0, '\n').is_some() {
        return false;
    }
    if find_char(u, 0, '<').is_some() {
        return false;
    }
    true
}

fn autolink_at(s: &Vec<char>, i: usize) -> (r: Option<(Node, usize)>)
    requires
        i < s@.len(),
    ensures
        match r {
            Option::Some(p) => try_autolink(s@, i as int) == Option::Some(
                (node_view(p.0), p.1 as int),
            ) && 1 <= p.1 && i + p.1 <= s@.len(),
            Option::None => try_autolink(s@, i as int) is None,
        },
{
    let slen = s.len();
    if s[i] != '<' {
        return Option::None;
    }
    match find_char(s, i + 1, '>') {
        Option::Some(j) => {
            if j > i + 1 {
                let inner = subvec(s, i + 1, j);
                if url_check(&inner) {
                    Option::Some((Node::Autolink { url: inner }, j + 1 - i))
                } else {
                    Option::None
                }
            } else {
                Option::None
            }
        },
        Option::None => Option::None,
    }
}

fn article_at(s: &Vec<char>, i: usize) -> (r: Option<(Node, usize)>)
    requires
        i < s@.len(),
    ensures
        match r {
            Option::Some(p) => try_article(s@, i as int) == Option::Some(
                (node_view(p.0), p.1 as int),
            ) && 1 <= p.1 && i + p.1 <= s@.len(),
            Option::None => try_article(s@, i as int) is None,
        },
{
    let slen = s.len();
    if !(i + 1 < slen && s[i] == '[' && s[i + 1] == '[') {
        return Option::None;
    }
    let close = find_pair(s, i + 2, ']');
    let nl = find_char(s, i + 2, '\n');
    match close {
        Option::Some(j) => {
            let before_nl = match nl {
                Option::Some(q) => j < q,
                Option::None => true,
            };
            if j > i + 2 && before_nl {
                let inner = subvec(s, i + 2, j);
                let is_toc = inner.len() == 3 && inner[0] == 't' && inner[1] == 'o' && inner[2]
                    == 'c';
                if is_toc {
                    proof {
                        assert(inner@ =~= seq!['t', 'o', 'c']);
                    }
                    Option::Some((Node::TocMarker, j + 2 - i))
                } else {
                    proof {
                        if inner@ == seq!['t', 'o', 'c'] {
                            assert(inner@.len() == 3);
                            assert(inner@[0] == 't' && inner@[1] == 'o' && inner@[2] == 'c');
                            assert(false);
                        }
                    }
                    let label = match rfind_char(&inner, 0, inner.len(), '@') {
                        Option::Some(q) => {
                            proof {
                                assert(inner@.subrange(0, q as int) =~= inner@.take(q as int));
                            }
                            subvec(&inner, 0, q)
                        },
                        Option::None => subvec(&inner, 0, inner.len()),
                    };
                    proof {
                        assert(inner@.subrange(0, inner@.len() as int) =~= inner@);
                    }
                    Option::Some((Node::ArticleLink { target: inner, label }, j + 2 - i))
                }
            } else {
                Option::None
            }
        },
        Option::None => Option::None,
    }
}

fn toc_bang_at(s: &Vec<char>, i: usize) -> (r: Option<(Node, usize)>)
    requires
        i < s@.len(),
    ensures
        match r {
            Option::Some(p) => try_toc_bang(s@, i as int) == Option::Some(
                (node_view(p.0), p.1 as int),
            ) && 1 <= p.1 && i + p.1 <= s@.len(),
            Option::None => try_toc_bang(s@, i as int) is None,
        },
{
    let slen = s.len();
    if slen - i >= 6 && s[i] == '[' && s[i + 1] == '!' && s[i + 2] == 't' && s[i + 3] == 'o'
        && s[i + 4] == 'c' && s[i + 5] == ']' {
        Option::Some((Node::TocMarker, 6))
    } else {
        Option::None
    }
}

fn footref_at(s: &Vec<char>, i: usize, labels: &Vec<Vec<char>>) -> (r: Option<(Node, usize)>)
    requires
        i < s@.len(),
    ensures
        match r {
            Option::Some(p) => try_footref(s@, i as int, labels.deep_view()) == Option::Some(
                (node_view(p.0), p.1 as int),
            ) && 1 <= p.1 && i + p.1 <= s@.len(),
            Option::None => try_footref(s@, i as int, labels.deep_view()) is None,
        },
{
    let slen = s.len();
    if !(i + 1 < slen && s[i] == '[' && s[i + 1] == '^') {
        return Option::None;
    }
    let close = find_char(s, i + 2, ']');
    let nl = find_char(s, i + 2, '\n');
    match close {
        Option::Some(j) => {
            let before_nl = match nl {
                Option::Some(q) => j < q,
                Option::None => true,
            };
            if j > i + 2 && before_nl {
                let lab = subvec(s, i + 2, j);
                if contains_label(labels, &lab) {
                    Option::Some((Node::FootnoteRef { label: lab, num: 0 }, j + 1 - i))
                } else {
                    Option::None
                }
            } else {
                Option::None
            }
        },
        Option::None => Option::None,
    }
}

fn math_at(s: &Vec<char>, i: usize) -> (r: Option<(Node, usize)>)
    requires
        i < s@.len(),
    ensures
        match r {
            Option::Some(p) => try_math(s@, i as int) == Option::Some(
                (node_view(p.0), p.1 as int),
            ) && 1 <= p.1 && i + p.1 <= s@.len(),
            Option::None => try_math(s@, i as int) is None,
        },
{
    let slen = s.len();
    if s[i] != '$' {
        return Option::None;
    }
    if i + 1 < slen && s[i + 1] == '$' {
        let close = find_pair(s, i + 2, '$');
        let nl = find_char(s, i + 2, '\n');
        match close {
            Option::Some(j) => {
                let before_nl = match nl {
                    Option::Some(q) => j < q,
                    Option::None => true,
                };
                if j > i + 2 && before_nl {
                    let expr = subvec(s, i + 2, j);
                    Option::Some((Node::MathSpan { expr, display: true }, j + 2 - i))
                } else {
                    Option::None
                }
            },
            Option::None => Option::None,
        }
    } else {
        let close = find_char(s, i + 1, '$');
        let nl = find_char(s, i + 1, '\n');
        match close {
            Option::Some(j) => {
                let before_nl = match nl {
                    Option::Some(q) => j < q,
                    Option::None => true,
                };
                if j > i + 1 && before_nl {
                    let expr = subvec(s, i + 1, j);
                    Option::Some((Node::MathSpan { expr, display: false }, j + 1 - i))
                } else {
                    Option::None
                }
            },
            Option::None => Option::None,
        }
    }
}

fn typo_at(s: &Vec<char>, i: usize) -> (r: Option<(Node, usize)>)
    requires
        i < s@.len(),
    ensures
        match r {
            Option::Some(p) => try_typo(s@, i as int) == Option::Some(
                (node_view(p.0), p.1 as int),
            ) && 1 <= p.1 && i + p.1 <= s@.len(),
            Option::None => try_typo(s@, i as int) is None,
        },
{
    let slen = s.len();
    if s[i] != '(' {
        return Option::None;
    }
    if slen - i > 2 && s[i + 1] == 'c' && s[i + 2] == ')' {
        let mut t: Vec<char> = Vec::new();
        t.push('\u{a9}');
        proof {
            assert(t@ =~= seq!['\u{a9}']);
        }
        Option::Some((Node::Text { text: t }, 3))
    } else if slen - i > 2 && s[i + 1] == 'r' && s[i + 2] == ')' {
        let mut t: Vec<char> = Vec::new();
        t.push('\u{ae}');
        proof {
            assert(t@ =~= seq!['\u{ae}']);
        }
        Option::Some((Node::Text { text: t }, 3))
    } else if slen - i > 3 && s[i + 1] == 't' && s[i + 2] == 'm' && s[i + 3] == ')' {
        let mut t: Vec<char> = Vec::new();
        t.push('\u{2122}');
        proof {
            assert(t@ =~= seq!['\u{2122}']);
        }
        Option::Some((Node::Text { text: t }, 4))
    } else {
        Option::None
    }
}

fn strong_em_at(
    s: &Vec<char>,
    i: usize,
    mark: char,
    art: bool,
    labels: &Vec<Vec<char>>,
) -> (r: Option<(Node, usize)>)
    requires
        i < s@.len(),
    ensures
        match r {
            Option::Some(p) => try_strong_em(s@, i as int, mark, art, labels.deep_view())
                == Option::Some((node_view(p.0), p.1 as int)) && 1 <= p.1 && i + p.1 <= s@.len(),
            Option::None => try_strong_em(s@, i as int, mark, art, labels.deep_view()) is None,
        },
    decreases s@.len() - i, 0int,
{
    let slen = s.len();
    if s[i] != mark {
        return Option::None;
    }
    if i + 1 < slen && s[i + 1] == mark {
        match find_pair(s, i + 2, mark) {
            Option::Some(j) => {
                if j > i + 2 && j + 2 <= slen && s[i + 2] != ' ' && s[j - 1] != ' ' {
                    let content = subvec(s, i + 2, j);
                    let children = parse_inline(&content, art, labels);
                    return Option::Some((Node::Strong { children }, j + 2 - i));
                }
            },
            Option::None => {},
        }
    }
    match find_char(s, i + 1, mark) {
        Option::Some(j) => {
            if j > i + 1 && s[i + 1] != ' ' && s[j - 1] != ' ' {
                let content = subvec(s, i + 1, j);
                let children = parse_inline(&content, art, labels);
                Option::Some((Node::Emphasis { children }, j + 1 - i))
            } else {
                Option::None
            }
        },
        Option::None => Option::None,
    }
}

fn strike_at(s: &Vec<char>, i: usize, art: bool, labels: &Vec<Vec<char>>) -> (r: Option<
    (Node, usize),
>)
    requires
        i < s@.len(),
    ensures
        match r {
            Option::Some(p) => try_strike(s@, i as int, art, labels.deep_view()) == Option::Some(
                (node_view(p.0), p.1 as int),
            ) && 1 <= p.1 && i + p.1 <= s@.len(),
            Option::None => try_strike(s@, i as int, art, labels.deep_view()) is None,
        },
    decreases s@.len() - i, 0int,
{
    let slen = s.len();
    if !(i + 1 < slen && s[i] == '~' && s[i + 1] == '~') {
        return Option::None;
    }
    match find_pair(s, i + 2, '~') {
        Option::Some(j) => {
            if j > i + 2 && j + 2 <= slen && s[i + 2] != ' ' && s[j - 1] != ' ' {
                let content = subvec(s, i + 2, j);
                let children = parse_inline(&content, art, labels);
                Option::Some((Node::Strikethrough { children }, j + 2 - i))
            } else {
                Option::None
            }
        },
        Option::None => Option::None,
    }
}

fn sub_sup_at(
    s: &Vec<char>,
    i: usize,
    mark: char,
    art: bool,
    labels: &Vec<Vec<char>>,
) -> (r: Option<(Node, usize)>)
    requires
        i < s@.len(),
    ensures
        match r {
            Option::Some(p) => try_sub_sup(s@, i as int, mark, art, labels.deep_view())
                == Option::Some((node_view(p.0), p.1 as int)) && 1 <= p.1 && i + p.1 <= s@.len(),
            Option::None => try_sub_sup(s@, i as int, mark, art, labels.deep_view()) is None,
        },
    decreases s@.len() - i, 0int,
{
    let slen = s.len();
    if s[i] != mark {
        return Option::None;
    }
    let close = find_char(s, i + 1, mark);
    let sp = find_char(s, i + 1, ' ');
    let nl = find_char(s, i + 1, '\n');
    match close {
        Option::Some(j) => {
            let sp_ok = match sp {
                Option::Some(q) => q > j,
                Option::None => true,
            };
            let nl_ok = match nl {
                Option::Some(q) => q > j,
                Option::None => true,
            };
            if j > i + 1 && sp_ok && nl_ok {
                let content = subvec(s, i + 1, j);
                let children = parse_inline(&content, art, labels);
                if mark == '~' {
                    Option::Some((Node::Subscript { children }, j + 1 - i))
                } else {
                    Option::Some((Node::Superscript { children }, j + 1 - i))
                }
            } else {
                Option::None
            }
        },
        Option::None => Option::None,
    }
}

fn link_at(s: &Vec<char>, i: usize, art: bool, labels: &Vec<Vec<char>>) -> (r: Option<
    (Node, usize),
>)
    requires
        i < s@.len(),
    ensures
        match r {
            Option::Some(p) => try_link(s@, i as int, art, labels.deep_view()) == Option::Some(
                (node_view(p.0), p.1 as int),
            ) && 1 <= p.1 && i + p.1 <= s@.len(),
            Option::None => try_link(s@, i as int, art, labels.deep_view()) is None,
        },
    decreases s@.len() - i, 0int,
{
    let slen = s.len();
    if s[i] != '[' {
        return Option::None;
    }
    match find_char(s, i + 1, ']') {
        Option::Some(j) => {
            if j + 1 < slen && s[j + 1] == '(' {
                match find_char(s, j + 2, ')') {
                    Option::Some(k) => {
                        let href = subvec(s, j + 2, k);
                        let content = subvec(s, i + 1, j);
                        let children = parse_inline(&content, art, labels);
                        Option::Some((Node::Link { href, children }, k + 1 - i))
                    },
                    Option::None => Option::None,
                }
            } else {
                Option::None
            }
        },
        Option::None => Option::None,
    }
}

fn step_at(s: &Vec<char>, i: usize, art: bool, labels: &Vec<Vec<char>>) -> (r: Option<
    (Node, usize),
>)
    requires
        i < s@.len(),
    ensures
        match r {
            Option::Some(p) => inline_step(s@, i as int, art, labels.deep_view()) == Option::Some(
                (node_view(p.0), p.1 as int),
            ) && 1 <= p.1 && i + p.1 <= s@.len(),
            Option::None => inline_step(s@, i as int, art, labels.deep_view()) is None,
        },
    decreases s@.len() - i, 1int,
{
    let slen = s.len();
    let c = s[i];
    if c == '\\' {
        esc_at(s, i)
    } else if c == '`' {
        code_at(s, i)
    } else if c == '*' {
        strong_em_at(s, i, '*', art, labels)
    } else if c == '_' {
        strong_em_at(s, i, '_', art, labels)
    } else if c == '~' {
        if i + 1 < slen && s[i + 1] == '~' {
            strike_at(s, i, art, labels)
        } else if art {
            sub_sup_at(s, i, '~', art, labels)
        } else {
            Option::None
        }
    } else if c == '^' && art {
        sub_sup_at(s, i, '^', art, labels)
    } else if c == '<' {
        autolink_at(s, i)
    } else if c == '[' {
        if art {
            let first: Option<(Node, usize)> = if i + 1 < slen && s[i + 1] == '^' {
                footref_at(s, i, labels)
            } else if i + 1 < slen && s[i + 1] == '!' {
                toc_bang_at(s, i)
            } else if i + 1 < slen && s[i + 1] == '[' {
                article_at(s, i)
            } else {
                Option::None
            };
            match first {
                Option::Some(p) => Option::Some(p),
                Option::None => link_at(s, i, art, labels),
            }
        } else {
            link_at(s, i, art, labels)
        }
    } else if c == '$' && art {
        math_at(s, i)
    } else if c == '(' {
        typo_at(s, i)
    } else {
        Option::None
    }
}

/// Parses a text buffer into inline nodes; the result's model is exactly
/// the spec-level inline parse of the buffer.
pub fn parse_inline(s: &Vec<char>, art: bool, labels: &Vec<Vec<char>>) -> (r: Vec<Node>)
    ensures
        nodes_view(r@) == inline_nodes(s@, art, labels.deep_view()),
    decreases s@.len(), 3int,
{
    let slen = s.len();
    let ghost lv = labels.deep_view();
    let mut out: Vec<Node> = Vec::new();
    let mut i: usize = 0;
    let mut rs: usize = 0;
    while i < slen
        invariant
            rs <= i <= s@.len(),
            slen == s@.len(),
            inline_nodes(s@, art, lv) == nodes_view(out@) + inline_seq(
                s@,
                i as int,
                rs as int,
                art,
                lv,
            ),
            lv == labels.deep_view(),
        decreases s@.len() - i,
    {
        match step_at(s, i, art, labels) {
            Option::Some((n, k)) => {
                let ghost pre = inline_seq(s@, i as int, rs as int, art, lv);
                if rs < i {
                    let t = subvec(s, rs, i);
                    let tn = Node::Text { text: t };
                    proof {
                        lemma_nodes_view_push(out@, tn);
                    }
                    out.push(tn);
                }
                proof {
                    lemma_nodes_view_push(out@, n);
                }
                out.push(n);
                proof {
                    assert(nodes_view(out@) + inline_seq(s@, i + k, i + k, art, lv)
                        =~= (nodes_view(out@) + inline_seq(s@, i + k, i + k, art, lv)));
                    assert(pre =~= flush_text(s@.subrange(rs as int, i as int)) + seq![
                        node_view(n),
                    ] + inline_seq(s@, i + k, i + k, art, lv));
                }
                i = i + k;
                rs = i;
            },
            Option::None => {
                i = i + 1;
            },
        }
        proof {
            assert(inline_nodes(s@, art, lv) =~= nodes_view(out@) + inline_seq(
                s@,
                i as int,
                rs as int,
                art,
                lv,
            ));
        }
    }
    if rs < slen {
        let t = subvec(s, rs, slen);
        let tn = Node::Text { text: t };
        proof {
            lemma_nodes_view_push(out@, tn);
        }
        out.push(tn);
    }
    proof {
        assert(nodes_view(out@) =~= inline_nodes(s@, art, lv));
    }
    out
}

} // verus!
