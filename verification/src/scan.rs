//! Scanning primitives shared by the block and inline rules: first and last
//! occurrence of a character, doubled-character search, character runs,
//! subrange extraction and sequence comparison.

use vstd::prelude::*;

verus! {

/// First index `>= from` where `c` occurs in `s`, or -1.
pub open spec fn find_from(s: Seq<char>, from: int, c: char) -> int
    decreases s.len() - from,
{
    if from < 0 || from >= s.len() {
        -1
    } else if s[from] == c {
        from
    } else {
        find_from(s, from + 1, c)
    }
}

/// First index `j >= from` where `c` occurs at both `j` and `j + 1`, or -1.
pub open spec fn find_pair_from(s: Seq<char>, from: int, c: char) -> int
    decreases s.len() - from,
{
    if from < 0 || from + 1 >= s.len() {
        -1
    } else if s[from] == c && s[from + 1] == c {
        from
    } else {
        find_pair_from(s, from + 1, c)
    }
}

/// Length of the run of `c` in `s` starting at `i`.
pub open spec fn char_run_len(s: Seq<char>, i: int, c: char) -> int
    decreases s.len() - i,
{
    if i < 0 || i >= s.len() || s[i] != c {
        0
    } else {
        1 + char_run_len(s, i + 1, c)
    }
}

pub proof fn lemma_char_run_nonneg(s: Seq<char>, i: int, c: char)
    ensures
        char_run_len(s, i, c) >= 0,
    decreases s.len() - i,
{
    if !(i < 0 || i >= s.len() || s[i] != c) {
        lemma_char_run_nonneg(s, i + 1, c);
    }
}

/// Last index in `[from, to)` where `c` occurs in `s`, or -1.
pub open spec fn rfind_in(s: Seq<char>, from: int, to: int, c: char) -> int
    decreases to - from,
{
    if to <= from || to > s.len() || from < 0 {
        -1
    } else if s[to - 1] == c {
        to - 1
    } else {
        rfind_in(s, from, to - 1, c)
    }
}

/// There is a label equal to `lab` among `ls`.
pub open spec fn has_label(ls: Seq<Seq<char>>, lab: Seq<char>) -> bool {
    exists|k: int| 0 <= k < ls.len() && ls[k] == lab
}

pub fn find_char(s: &Vec<char>, from: usize, c: char) -> (r: Option<usize>)
    ensures
        match r {
            Option::Some(j) => find_from(s@, from as int, c) == j && from <= j < s@.len()
                && s@[j as int] == c,
            Option::None => find_from(s@, from as int, c) == -1,
        },
{
    let mut m = from;
    while m < s.len()
        invariant
            from <= m,
            find_from(s@, from as int, c) == find_from(s@, m as int, c),
        decreases s@.len() - m,
    {
        if s[m] == c {
            return Option::Some(m);
        }
        m = m + 1;
    }
    Option::None
}

pub fn find_pair(s: &Vec<char>, from: usize, c: char) -> (r: Option<usize>)
    ensures
        match r {
            Option::Some(j) => find_pair_from(s@, from as int, c) == j && from <= j && j + 1
                < s@.len() && s@[j as int] == c && s@[j + 1] == c,
            Option::None => find_pair_from(s@, from as int, c) == -1,
        },
{
    if s.len() < 2 || from >= s.len() - 1 {
        return Option::None;
    }
    let mut m = from;
    while m < s.len() - 1
        invariant
            from <= m <= s@.len(),
            s@.len() >= 2,
            find_pair_from(s@, from as int, c) == find_pair_from(s@, m as int, c),
        decreases s@.len() - m,
    {
        if s[m] == c && s[m + 1] == c {
            return Option::Some(m);
        }
        m = m + 1;
    }
    Option::None
}

pub fn char_run_at(s: &Vec<char>, from: usize, c: char) -> (r: usize)
    requires
        from <= s@.len(),
    ensures
        r == char_run_len(s@, from as int, c),
        from + r <= s@.len(),
{
    let mut m = from;
    while m < s.len() && s[m] == c
        invariant
            from <= m <= s@.len(),
            char_run_len(s@, from as int, c) == (m - from) + char_run_len(s@, m as int, c),
        decreases s@.len() - m,
    {
        m = m + 1;
    }
    m - from
}

pub fn rfind_char(s: &Vec<char>, from: usize, to: usize, c: char) -> (r: Option<usize>)
    requires
        to <= s@.len(),
    ensures
        match r {
            Option::Some(j) => rfind_in(s@, from as int, to as int, c) == j && from <= j < to
                && s@[j as int] == c,
            Option::None => rfind_in(s@, from as int, to as int, c) == -1,
        },
{
    let mut m = to;
    while m > from
        invariant
            m <= to <= s@.len(),
            rfind_in(s@, from as int, to as int, c) == rfind_in(s@, from as int, m as int, c),
        decreases m,
    {
        if s[m - 1] == c {
            return Option::Some(m - 1);
        }
        m = m - 1;
    }
    Option::None
}

/// The characters `s[from..to]` as a fresh vector.
pub fn subvec(s: &Vec<char>, from: usize, to: usize) -> (r: Vec<char>)
    requires
        from <= to <= s@.len(),
    ensures
        r@ == s@.subrange(from as int, to as int),
{
    let mut r: Vec<char> = Vec::new();
    let mut m = from;
    while m < to
        invariant
            from <= m <= to <= s@.len(),
            r@ == s@.subrange(from as int, m as int),
        decreases to - m,
    {
        r.push(s[m]);
        proof {
            assert(s@.subrange(from as int, m + 1) =~= s@.subrange(from as int, m as int).push(
                s@[m as int],
            ));
        }
        m = m + 1;
    }
    r
}

/// Appends all of `src` to `dst`.
pub fn extend_chars(dst: &mut Vec<char>, src: &Vec<char>)
    ensures
        final(dst)@ == old(dst)@ + src@,
{
    let mut m: usize = 0;
    while m < src.len()
        invariant
            m <= src@.len(),
            dst@ == old(dst)@ + src@.take(m as int),
        decreases src@.len() - m,
    {
        dst.push(src[m]);
        proof {
            assert(old(dst)@ + src@.take(m + 1) =~= (old(dst)@ + src@.take(m as int)).push(
                src@[m as int],
            ));
        }
        m = m + 1;
    }
    proof {
        assert(old(dst)@ + src@.take(src@.len() as int) =~= old(dst)@ + src@);
    }
}

pub fn chars_eq(a: &Vec<char>, b: &Vec<char>) -> (r: bool)
    ensures
        r == (a@ == b@),
{
    if a.len() != b.len() {
        assert(a@ != b@);
        return false;
    }
    let mut m: usize = 0;
    while m < a.len()
        invariant
            m <= a@.len(),
            a@.len() == b@.len(),
            forall|k: int| 0 <= k < m ==> a@[k] == b@[k],
        decreases a@.len() - m,
    {
        if a[m] != b[m] {
            return false;
        }
        m = m + 1;
    }
    proof {
        assert(a@ =~= b@);
    }
    true
}

/// Whether `lab` occurs among the labels `ls`.
pub fn contains_label(ls: &Vec<Vec<char>>, lab: &Vec<char>) -> (r: bool)
    ensures
        r == has_label(ls.deep_view(), lab@),
{
    let mut m: usize = 0;
    while m < ls.len()
        invariant
            m <= ls@.len(),
            forall|k: int| 0 <= k < m ==> ls@[k]@ != lab@,
        decreases ls@.len() - m,
    {
        if chars_eq(&ls[m], lab) {
            assert(ls.deep_view()[m as int] == lab@);
            return true;
        }
        m = m + 1;
    }
    proof {
        assert forall|k: int| 0 <= k < ls.deep_view().len() implies ls.deep_view()[k] != lab@ by {
            assert(ls.deep_view()[k] == ls@[k]@);
        }
    }
    false
}

} // verus!
