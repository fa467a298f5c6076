//! Literal text: character classes, decimal digits, and the entity-aware
//! HTML escape that the renderer applies to every text run.
//!
//! The escape keeps well-formed character references (`&amp;`, `&#65;`)
//! untouched and rewrites bare `&`, `<`, `>` and `"`; it is therefore
//! idempotent, which is proved in [`lemma_escape_idempotent`].

use vstd::prelude::*;
use vstd::string::StrSliceExecFns;

verus! {

pub open spec fn is_ascii_alpha(c: char) -> bool {
    ('a' as u32) <= (c as u32) && (c as u32) <= ('z' as u32) || ('A' as u32) <= (c as u32) && (
    c as u32) <= ('Z' as u32)
}

pub open spec fn is_ascii_digit(c: char) -> bool {
    ('0' as u32) <= (c as u32) && (c as u32) <= ('9' as u32)
}

pub open spec fn is_ascii_alnum(c: char) -> bool {
    is_ascii_alpha(c) || is_ascii_digit(c)
}

pub fn ascii_alnum(c: char) -> (r: bool)
    ensures
        r == is_ascii_alnum(c),
{
    let u = c as u32;
    ('a' as u32) <= u && u <= ('z' as u32) || ('A' as u32) <= u && u <= ('Z' as u32) || ('0'
        as u32) <= u && u <= ('9' as u32)
}

pub fn ascii_digit(c: char) -> (r: bool)
    ensures
        r == is_ascii_digit(c),
{
    let u = c as u32;
    ('0' as u32) <= u && u <= ('9' as u32)
}

/// Length of the run of alphanumeric characters of `s` starting at `i`.
pub open spec fn alnum_run_len(s: Seq<char>, i: int) -> int
    decreases s.len() - i,
{
    if i < 0 || i >= s.len() || !is_ascii_alnum(s[i]) {
        0
    } else {
        1 + alnum_run_len(s, i + 1)
    }
}

/// Length of the run of decimal digits of `s` starting at `i`.
pub open spec fn digit_run_len(s: Seq<char>, i: int) -> int
    decreases s.len() - i,
{
    if i < 0 || i >= s.len() || !is_ascii_digit(s[i]) {
        0
    } else {
        1 + digit_run_len(s, i + 1)
    }
}

proof fn lemma_alnum_run(s: Seq<char>, i: int, j: int)
    requires
        0 <= i <= j <= s.len(),
        forall|k: int| i <= k < j ==> is_ascii_alnum(#[trigger] s[k]),
        j == s.len() || !is_ascii_alnum(s[j]),
    ensures
        alnum_run_len(s, i) == j - i,
    decreases j - i,
{
    if i < j {
        lemma_alnum_run(s, i + 1, j);
    }
}

proof fn lemma_digit_run(s: Seq<char>, i: int, j: int)
    requires
        0 <= i <= j <= s.len(),
        forall|k: int| i <= k < j ==> is_ascii_digit(#[trigger] s[k]),
        j == s.len() || !is_ascii_digit(s[j]),
    ensures
        digit_run_len(s, i) == j - i,
    decreases j - i,
{
    if i < j {
        lemma_digit_run(s, i + 1, j);
    }
}

proof fn lemma_alnum_run_props(s: Seq<char>, i: int)
    requires
        0 <= i <= s.len(),
    ensures
        0 <= alnum_run_len(s, i),
        i + alnum_run_len(s, i) <= s.len(),
        forall|k: int| i <= k < i + alnum_run_len(s, i) ==> is_ascii_alnum(#[trigger] s[k]),
        i + alnum_run_len(s, i) == s.len() || !is_ascii_alnum(s[i + alnum_run_len(s, i)]),
    decreases s.len() - i,
{
    if i < s.len() && is_ascii_alnum(s[i]) {
        lemma_alnum_run_props(s, i + 1);
    }
}

proof fn lemma_digit_run_props(s: Seq<char>, i: int)
    requires
        0 <= i <= s.len(),
    ensures
        0 <= digit_run_len(s, i),
        i + digit_run_len(s, i) <= s.len(),
        forall|k: int| i <= k < i + digit_run_len(s, i) ==> is_ascii_digit(#[trigger] s[k]),
        i + digit_run_len(s, i) == s.len() || !is_ascii_digit(s[i + digit_run_len(s, i)]),
    decreases s.len() - i,
{
    if i < s.len() && is_ascii_digit(s[i]) {
        lemma_digit_run_props(s, i + 1);
    }
}

/// Length of the alphanumeric run of `s` starting at `from`.
pub fn alnum_run_at(s: &Vec<char>, from: usize) -> (r: usize)
    requires
        from <= s@.len(),
    ensures
        r == alnum_run_len(s@, from as int),
        from + r <= s@.len(),
{
    let mut m = from;
    while m < s.len() && ascii_alnum(s[m])
        invariant
            from <= m <= s@.len(),
            alnum_run_len(s@, from as int) == (m - from) + alnum_run_len(s@, m as int),
        decreases s@.len() - m,
    {
        m = m + 1;
    }
    m - from
}

/// Length of the digit run of `s` starting at `from`.
pub fn digit_run_at(s: &Vec<char>, from: usize) -> (r: usize)
    requires
        from <= s@.len(),
    ensures
        r == digit_run_len(s@, from as int),
        from + r <= s@.len(),
{
    let mut m = from;
    while m < s.len() && ascii_digit(s[m])
        invariant
            from <= m <= s@.len(),
            digit_run_len(s@, from as int) == (m - from) + digit_run_len(s@, m as int),
        decreases s@.len() - m,
    {
        m = m + 1;
    }
    m - from
}

/// `e` is exactly one well-formed character reference: `&name;` with an
/// alphanumeric name, or `&#digits;`.
pub open spec fn is_entity(e: Seq<char>) -> bool {
    e.len() >= 3 && e[0] == '&' && e[e.len() - 1] == ';' && (if e[1] == '#' {
        e.len() >= 4 && forall|k: int| 2 <= k < e.len() - 1 ==> is_ascii_digit(#[trigger] e[k])
    } else {
        forall|k: int| 1 <= k < e.len() - 1 ==> is_ascii_alnum(#[trigger] e[k])
    })
}

/// Length of the character reference starting at position 0 of `s`,
/// or 0 when none starts there.
pub open spec fn entity_len(s: Seq<char>) -> int {
    if s.len() >= 2 && s[0] == '&' && s[1] == '#' {
        let d = digit_run_len(s, 2);
        if d >= 1 && 2 + d < s.len() && s[2 + d] == ';' {
            3 + d
        } else {
            0
        }
    } else if s.len() >= 1 && s[0] == '&' {
        let r = alnum_run_len(s, 1);
        if r >= 1 && 1 + r < s.len() && s[1 + r] == ';' {
            2 + r
        } else {
            0
        }
    } else {
        0
    }
}

pub open spec fn is_entity_at(s: Seq<char>) -> bool {
    entity_len(s) > 0
}

/// What `entity_len` found is an entity and fits inside `s`.
proof fn lemma_entity_take(s: Seq<char>)
    requires
        is_entity_at(s),
    ensures
        3 <= entity_len(s) <= s.len(),
        is_entity(s.take(entity_len(s))),
{
    if s.len() >= 2 && s[0] == '&' && s[1] == '#' {
        lemma_digit_run_props(s, 2);
        let d = digit_run_len(s, 2);
        let e = s.take(3 + d);
        assert(e[0] == '&' && e[1] == '#' && e[e.len() - 1] == ';');
        assert(forall|k: int| 2 <= k < e.len() - 1 ==> is_ascii_digit(#[trigger] e[k]));
    } else {
        lemma_alnum_run_props(s, 1);
        let r = alnum_run_len(s, 1);
        let e = s.take(2 + r);
        assert(e[0] == '&' && e[e.len() - 1] == ';');
        assert(e[1] != '#');
        assert(forall|k: int| 1 <= k < e.len() - 1 ==> is_ascii_alnum(#[trigger] e[k]));
    }
}

/// An entity followed by anything is recognized, with the same length.
proof fn lemma_entity_prefix(e: Seq<char>, t: Seq<char>)
    requires
        is_entity(e),
    ensures
        entity_len(e + t) == e.len(),
        is_entity_at(e + t),
{
    let s = e + t;
    assert(s[0] == '&');
    if e[1] == '#' {
        assert(forall|k: int| 2 <= k < e.len() - 1 ==> is_ascii_digit(#[trigger] s[k]));
        assert(s[e.len() - 1] == ';' && !is_ascii_digit(s[e.len() - 1]));
        lemma_digit_run(s, 2, e.len() - 1);
    } else {
        assert(s[1] == e[1] && !is_ascii_digit('#'));
        assert(forall|k: int| 1 <= k < e.len() - 1 ==> is_ascii_alnum(#[trigger] s[k]));
        assert(s[e.len() - 1] == ';' && !is_ascii_alnum(s[e.len() - 1]));
        lemma_alnum_run(s, 1, e.len() - 1);
    }
}

/// HTML escape of a text run.  Well-formed character references are copied
/// through; bare `&`, `<`, `>`, `"` become references; all else is copied.
pub open spec fn escape_text(s: Seq<char>) -> Seq<char>
    decreases s.len(),
{
    if s.len() == 0 {
        Seq::empty()
    } else if s[0] == '&' && is_entity_at(s) && entity_len(s) <= s.len() {
        s.take(entity_len(s)) + escape_text(s.skip(entity_len(s)))
    } else if s[0] == '&' {
        seq!['&', 'a', 'm', 'p', ';'] + escape_text(s.drop_first())
    } else if s[0] == '<' {
        seq!['&', 'l', 't', ';'] + escape_text(s.drop_first())
    } else if s[0] == '>' {
        seq!['&', 'g', 't', ';'] + escape_text(s.drop_first())
    } else if s[0] == '"' {
        seq!['&', 'q', 'u', 'o', 't', ';'] + escape_text(s.drop_first())
    } else {
        seq![s[0]] + escape_text(s.drop_first())
    }
}

/// `s` is already escaped: every `&` starts a character reference and no
/// bare `<`, `>` or `"` occurs.
pub open spec fn is_escaped_text(s: Seq<char>) -> bool
    decreases s.len(),
{
    if s.len() == 0 {
        true
    } else if s[0] == '&' {
        is_entity_at(s) && entity_len(s) <= s.len() && is_escaped_text(s.skip(entity_len(s)))
    } else {
        s[0] != '<' && s[0] != '>' && s[0] != '"' && is_escaped_text(s.drop_first())
    }
}

proof fn lemma_escaped_prepend_entity(e: Seq<char>, t: Seq<char>)
    requires
        is_entity(e),
        is_escaped_text(t),
    ensures
        is_escaped_text(e + t),
{
    lemma_entity_prefix(e, t);
    assert((e + t).skip(e.len() as int) =~= t);
}

proof fn lemma_escaped_prepend_char(c: char, t: Seq<char>)
    requires
        c != '&' && c != '<' && c != '>' && c != '"',
        is_escaped_text(t),
    ensures
        is_escaped_text(seq![c] + t),
{
    assert((seq![c] + t)[0] == c);
    assert((seq![c] + t).drop_first() =~= t);
}

proof fn lemma_amp_entity()
    ensures
        is_entity(seq!['&', 'a', 'm', 'p', ';']),
        is_entity(seq!['&', 'l', 't', ';']),
        is_entity(seq!['&', 'g', 't', ';']),
        is_entity(seq!['&', 'q', 'u', 'o', 't', ';']),
{
    let amp = seq!['&', 'a', 'm', 'p', ';'];
    assert forall|k: int| 1 <= k < amp.len() - 1 implies is_ascii_alnum(#[trigger] amp[k]) by {
        if k == 1 {
            assert(is_ascii_alnum('a'));
        } else if k == 2 {
            assert(is_ascii_alnum('m'));
        } else {
            assert(is_ascii_alnum('p'));
        }
    }
    let lt = seq!['&', 'l', 't', ';'];
    assert forall|k: int| 1 <= k < lt.len() - 1 implies is_ascii_alnum(#[trigger] lt[k]) by {
        if k == 1 {
            assert(is_ascii_alnum('l'));
        } else {
            assert(is_ascii_alnum('t'));
        }
    }
    let gt = seq!['&', 'g', 't', ';'];
    assert forall|k: int| 1 <= k < gt.len() - 1 implies is_ascii_alnum(#[trigger] gt[k]) by {
        if k == 1 {
            assert(is_ascii_alnum('g'));
        } else {
            assert(is_ascii_alnum('t'));
        }
    }
    let quot = seq!['&', 'q', 'u', 'o', 't', ';'];
    assert forall|k: int| 1 <= k < quot.len() - 1 implies is_ascii_alnum(#[trigger] quot[k]) by {
        assert(is_ascii_alnum('q') && is_ascii_alnum('u') && is_ascii_alnum('o') && is_ascii_alnum(
            't',
        ));
    }
}

/// The escape only produces escaped text.
pub proof fn lemma_escape_escaped(s: Seq<char>)
    ensures
        is_escaped_text(escape_text(s)),
    decreases s.len(),
{
    lemma_amp_entity();
    if s.len() == 0 {
    } else if s[0] == '&' && is_entity_at(s) && entity_len(s) <= s.len() {
        lemma_entity_take(s);
        lemma_escape_escaped(s.skip(entity_len(s)));
        lemma_escaped_prepend_entity(s.take(entity_len(s)), escape_text(s.skip(entity_len(s))));
    } else if s[0] == '&' || s[0] == '<' || s[0] == '>' || s[0] == '"' {
        lemma_escape_escaped(s.drop_first());
        let rest = escape_text(s.drop_first());
        if s[0] == '&' {
            lemma_escaped_prepend_entity(seq!['&', 'a', 'm', 'p', ';'], rest);
        } else if s[0] == '<' {
            lemma_escaped_prepend_entity(seq!['&', 'l', 't', ';'], rest);
        } else if s[0] == '>' {
            lemma_escaped_prepend_entity(seq!['&', 'g', 't', ';'], rest);
        } else {
            lemma_escaped_prepend_entity(seq!['&', 'q', 'u', 'o', 't', ';'], rest);
        }
    } else {
        lemma_escape_escaped(s.drop_first());
        lemma_escaped_prepend_char(s[0], escape_text(s.drop_first()));
    }
}

/// Escaped text is a fixed point of the escape.
pub proof fn lemma_escaped_fixed(s: Seq<char>)
    requires
        is_escaped_text(s),
    ensures
        escape_text(s) == s,
    decreases s.len(),
{
    if s.len() == 0 {
    } else if s[0] == '&' {
        lemma_escaped_fixed(s.skip(entity_len(s)));
        assert(s.take(entity_len(s)) + s.skip(entity_len(s)) =~= s);
    } else {
        lemma_escaped_fixed(s.drop_first());
        assert(seq![s[0]] + s.drop_first() =~= s);
    }
}

/// Escaping is idempotent: rendering already-escaped literal text never
/// escapes it again.
pub proof fn lemma_escape_idempotent(s: Seq<char>)
    ensures
        escape_text(escape_text(s)) == escape_text(s),
{
    lemma_escape_escaped(s);
    lemma_escaped_fixed(escape_text(s));
}

/// Relies on String::push: appends the one character at the end.
#[verifier::external_body]
pub fn push_char(out: &mut String, c: char)
    ensures
        final(out)@ == old(out)@.push(c),
{
    out.push(c);
}

/// The characters of a string slice, in order.
pub fn str_to_chars(s: &str) -> (r: Vec<char>)
    ensures
        r@ == s@,
{
    let n = s.unicode_len();
    let mut r: Vec<char> = Vec::new();
    let mut i: usize = 0;
    while i < n
        invariant
            n == s@.len(),
            i <= n,
            r@ == s@.take(i as int),
        decreases n - i,
    {
        let c = s.get_char(i);
        r.push(c);
        proof {
            assert(s@.take(i + 1) =~= s@.take(i as int).push(s@[i as int]));
        }
        i = i + 1;
    }
    proof {
        assert(s@.take(n as int) =~= s@);
    }
    r
}

/// Length of the character reference starting at `i` within `v[i..to]`,
/// or 0 when none starts there.
pub fn entity_len_at(v: &Vec<char>, i: usize, to: usize) -> (k: usize)
    requires
        i <= to && to <= v@.len(),
    ensures
        k as int == entity_len(v@.subrange(i as int, to as int)),
{
    let ghost s = v@.subrange(i as int, to as int);
    if i >= to || v[i] != '&' {
        return 0;
    }
    if i + 1 < to && v[i + 1] == '#' {
        let mut j: usize = i + 2;
        while j < to && ascii_digit(v[j])
            invariant
                i + 2 <= j <= to,
                to <= v@.len(),
                forall|m: int| i + 2 <= m < j ==> is_ascii_digit(#[trigger] v@[m]),
            decreases to - j,
        {
            j = j + 1;
        }
        proof {
            assert(forall|m: int|
                2 <= m < j - i ==> is_ascii_digit(#[trigger] s[m]) == is_ascii_digit(
                    v@[m + i],
                ));
            lemma_digit_run(s, 2, j - i);
        }
        if j > i + 2 && j < to && v[j] == ';' {
            j - i + 1
        } else {
            0
        }
    } else {
        let mut j: usize = i + 1;
        while j < to && ascii_alnum(v[j])
            invariant
                i + 1 <= j <= to,
                to <= v@.len(),
                forall|m: int| i + 1 <= m < j ==> is_ascii_alnum(#[trigger] v@[m]),
            decreases to - j,
        {
            j = j + 1;
        }
        proof {
            assert(forall|m: int|
                1 <= m < j - i ==> is_ascii_alnum(#[trigger] s[m]) == is_ascii_alnum(
                    v@[m + i],
                ));
            lemma_alnum_run(s, 1, j - i);
        }
        if j > i + 1 && j < to && v[j] == ';' {
            j - i + 1
        } else {
            0
        }
    }
}

/// Appends the escape of `v[from..to]` to `out`.
pub fn escape_range(v: &Vec<char>, from: usize, to: usize, out: &mut String)
    requires
        from <= to && to <= v@.len(),
    ensures
        final(out)@ == old(out)@ + escape_text(v@.subrange(from as int, to as int)),
{
    let mut i = from;
    while i < to
        invariant
            from <= i <= to <= v@.len(),
            old(out)@ + escape_text(v@.subrange(from as int, to as int)) == out@ + escape_text(
                v@.subrange(i as int, to as int),
            ),
        decreases to - i,
    {
        let ghost suf = v@.subrange(i as int, to as int);
        let c = v[i];
        let k = entity_len_at(v, i, to);
        if c == '&' && k > 0 {
            proof {
                lemma_entity_take(suf);
            }
            let mut m: usize = 0;
            let ghost snap = out@;
            while m < k
                invariant
                    m <= k,
                    i + k <= to,
                    to <= v@.len(),
                    out@ == snap + v@.subrange(i as int, i + m),
                decreases k - m,
            {
                let d = v[i + m];
                push_char(out, d);
                proof {
                    assert(v@.subrange(i as int, i + m + 1) =~= v@.subrange(i as int, i + m).push(
                        v@[i + m],
                    ));
                }
                m = m + 1;
            }
            proof {
                assert(suf.take(k as int) =~= v@.subrange(i as int, i + k));
                assert(suf.skip(k as int) =~= v@.subrange(i + k, to as int));
            }
            i = i + k;
        } else if c == '&' {
            out.append("&amp;");
            proof {
                reveal_strlit("&amp;");
                assert("&amp;"@ =~= seq!['&', 'a', 'm', 'p', ';']);
                assert(suf.drop_first() =~= v@.subrange(i + 1, to as int));
            }
            i = i + 1;
        } else if c == '<' {
            out.append("&lt;");
            proof {
                reveal_strlit("&lt;");
                assert("&lt;"@ =~= seq!['&', 'l', 't', ';']);
                assert(suf.drop_first() =~= v@.subrange(i + 1, to as int));
            }
            i = i + 1;
        } else if c == '>' {
            out.append("&gt;");
            proof {
                reveal_strlit("&gt;");
                assert("&gt;"@ =~= seq!['&', 'g', 't', ';']);
                assert(suf.drop_first() =~= v@.subrange(i + 1, to as int));
            }
            i = i + 1;
        } else if c == '"' {
            out.append("&quot;");
            proof {
                reveal_strlit("&quot;");
                assert("&quot;"@ =~= seq!['&', 'q', 'u', 'o', 't', ';']);
                assert(suf.drop_first() =~= v@.subrange(i + 1, to as int));
            }
            i = i + 1;
        } else {
            let ghost prev = out@;
            push_char(out, c);
            proof {
                assert(out@ =~= prev + seq![c]);
                assert(suf.drop_first() =~= v@.subrange(i + 1, to as int));
            }
            i = i + 1;
        }
    }
    proof {
        assert(v@.subrange(to as int, to as int) =~= Seq::<char>::empty());
    }
}

pub open spec fn decimal_digit(d: int) -> char {
    if d == 0 {
        '0'
    } else if d == 1 {
        '1'
    } else if d == 2 {
        '2'
    } else if d == 3 {
        '3'
    } else if d == 4 {
        '4'
    } else if d == 5 {
        '5'
    } else if d == 6 {
        '6'
    } else if d == 7 {
        '7'
    } else if d == 8 {
        '8'
    } else {
        '9'
    }
}

/// The decimal digits of `n`, most significant first.
pub open spec fn decimal_digits(n: int) -> Seq<char>
    decreases n,
{
    if n < 10 {
        seq![decimal_digit(n)]
    } else {
        decimal_digits(n / 10) + seq![decimal_digit(n % 10)]
    }
}

fn digit_char_of(d: usize) -> (c: char)
    requires
        d < 10,
    ensures
        c == decimal_digit(d as int),
{
    if d == 0 {
        '0'
    } else if d == 1 {
        '1'
    } else if d == 2 {
        '2'
    } else if d == 3 {
        '3'
    } else if d == 4 {
        '4'
    } else if d == 5 {
        '5'
    } else if d == 6 {
        '6'
    } else if d == 7 {
        '7'
    } else if d == 8 {
        '8'
    } else {
        '9'
    }
}

/// Appends the decimal digits of `n` to `out`.
pub fn push_decimal(out: &mut String, n: usize)
    ensures
        final(out)@ == old(out)@ + decimal_digits(n as int),
    decreases n,
{
    if n >= 10 {
        push_decimal(out, n / 10);
        let c = digit_char_of(n % 10);
        push_char(out, c);
        proof {
            assert(old(out)@ + decimal_digits(n as int / 10) + seq![
                decimal_digit(n as int % 10),
            ] =~= old(out)@ + decimal_digits(n as int));
            assert((old(out)@ + decimal_digits(n as int / 10)).push(c) =~= old(out)@
                + decimal_digits(n as int / 10) + seq![decimal_digit(n as int % 10)]);
        }
    } else {
        let c = digit_char_of(n);
        push_char(out, c);
        proof {
            assert(old(out)@.push(c) =~= old(out)@ + seq![decimal_digit(n as int)]);
        }
    }
}

} // verus!
