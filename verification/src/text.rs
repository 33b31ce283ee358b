use vstd::prelude::*;

use crate::lexer::{is_white_space, push_char};

verus! {

/// `s` without its leading whitespace.
pub open spec fn trim_start(s: Seq<char>) -> Seq<char>
    decreases s.len(),
{
    if s.len() > 0 && is_white_space(s[0]) {
        trim_start(s.drop_first())
    } else {
        s
    }
}

/// `s` without its trailing whitespace.
pub open spec fn trim_end(s: Seq<char>) -> Seq<char>
    decreases s.len(),
{
    if s.len() > 0 && is_white_space(s.last()) {
        trim_end(s.drop_last())
    } else {
        s
    }
}

/// `s` without leading and trailing whitespace.
pub open spec fn trim(s: Seq<char>) -> Seq<char> {
    trim_end(trim_start(s))
}

/// The position of the first whitespace character of `s`, or its length.
pub open spec fn white_space_pos(s: Seq<char>) -> nat
    decreases s.len(),
{
    if s.len() == 0 || is_white_space(s[0]) {
        0
    } else {
        1 + white_space_pos(s.drop_first())
    }
}

/// The position of the first `c` in `s`, or its length.
pub open spec fn char_pos(s: Seq<char>, c: char) -> nat
    decreases s.len(),
{
    if s.len() == 0 || s[0] == c {
        0
    } else {
        1 + char_pos(s.drop_first(), c)
    }
}

/// The position of the first `|=` in `s`, or its length.
pub open spec fn turnstile_pos(s: Seq<char>) -> nat
    decreases s.len(),
{
    if s.len() < 2 {
        s.len()
    } else if s[0] == '|' && s[1] == '=' {
        0
    } else {
        1 + turnstile_pos(s.drop_first())
    }
}

pub open spec fn turnstile_at(s: Seq<char>, i: int) -> bool {
    s[i] == '|' && s[i + 1] == '='
}

/// The pieces of `s` between commas.
pub open spec fn split_commas(s: Seq<char>) -> Seq<Seq<char>>
    decreases s.len(),
{
    let k = char_pos(s, ',');
    if k >= s.len() {
        seq![s]
    } else {
        proof {
            lemma_char_pos(s, ',');
        }
        seq![s.take(k as int)] + split_commas(s.skip(k + 1 as int))
    }
}

pub proof fn lemma_char_pos(s: Seq<char>, c: char)
    ensures
        char_pos(s, c) <= s.len(),
        char_pos(s, c) < s.len() ==> s[char_pos(s, c) as int] == c,
        forall|i: int| 0 <= i < char_pos(s, c) ==> s[i] != c,
    decreases s.len(),
{
    if s.len() > 0 && s[0] != c {
        lemma_char_pos(s.drop_first(), c);
        assert forall|i: int| 0 <= i < char_pos(s, c) implies s[i] != c by {
            if i > 0 {
                assert(s[i] == s.drop_first()[i - 1]);
            }
        }
    }
}

pub proof fn lemma_turnstile_pos(s: Seq<char>)
    ensures
        turnstile_pos(s) <= s.len(),
        turnstile_pos(s) < s.len() ==> turnstile_pos(s) + 2 <= s.len() && s[turnstile_pos(s) as int]
            == '|' && s[turnstile_pos(s) + 1int] == '=',
        forall|i: int| 0 <= i < turnstile_pos(s) && i + 1 < s.len() ==> !#[trigger] turnstile_at(s, i),
    decreases s.len(),
{
    if s.len() >= 2 && !(s[0] == '|' && s[1] == '=') {
        lemma_turnstile_pos(s.drop_first());
        assert forall|i: int| 0 <= i < turnstile_pos(s) && i + 1 < s.len() implies !#[trigger] turnstile_at(s, i) by {
            if i > 0 {
                assert(s[i] == s.drop_first()[i - 1]);
                assert(s[i + 1] == s.drop_first()[i]);
                assert(!turnstile_at(s.drop_first(), i - 1));
            }
        }
    }
}

/// Pieces written out with a comma between each two.
pub open spec fn join_commas(ps: Seq<Seq<char>>) -> Seq<char>
    decreases ps.len(),
{
    if ps.len() == 0 {
        seq![]
    } else if ps.len() == 1 {
        ps[0]
    } else {
        ps[0] + seq![','] + join_commas(ps.drop_first())
    }
}

/// Splitting at commas loses nothing and keeps no comma: the pieces, joined
/// with commas, give back the text, and no piece holds a comma.
pub proof fn law_split_commas(s: Seq<char>)
    ensures
        split_commas(s).len() >= 1,
        join_commas(split_commas(s)) == s,
        forall|i: int, j: int|
            0 <= i < split_commas(s).len() && 0 <= j < split_commas(s)[i].len()
                ==> #[trigger] split_commas(s)[i][j] != ',',
    decreases s.len(),
{
    lemma_char_pos(s, ',');
    let k = char_pos(s, ',');
    if k >= s.len() {
        assert(split_commas(s) =~= seq![s]);
    } else {
        let tail = s.skip(k + 1int);
        law_split_commas(tail);
        let ps = split_commas(s);
        assert(ps =~= seq![s.take(k as int)] + split_commas(tail));
        assert(ps.drop_first() =~= split_commas(tail));
        assert(join_commas(ps) =~= s.take(k as int) + seq![','] + join_commas(split_commas(tail)));
        assert(s =~= s.take(k as int) + seq![','] + tail);
        assert forall|i: int, j: int|
            0 <= i < ps.len() && 0 <= j < ps[i].len() implies #[trigger] ps[i][j] != ',' by {
            if i > 0 {
                assert(ps[i] == split_commas(tail)[i - 1]);
            } else {
                assert(ps[0][j] == s[j]);
            }
        }
    }
}

proof fn lemma_trim_start_skip(s: Seq<char>)
    ensures
        exists|a: int|
            0 <= a <= s.len() && trim_start(s) == s.skip(a) && (forall|i: int|
                0 <= i < a ==> is_white_space(#[trigger] s[i])) && (a < s.len()
                ==> !is_white_space(s[a])),
    decreases s.len(),
{
    if s.len() > 0 && is_white_space(s[0]) {
        lemma_trim_start_skip(s.drop_first());
        let a = choose|a: int|
            0 <= a <= s.drop_first().len() && trim_start(s.drop_first()) == s.drop_first().skip(a)
                && (forall|i: int| 0 <= i < a ==> is_white_space(#[trigger] s.drop_first()[i]))
                && (a < s.drop_first().len() ==> !is_white_space(s.drop_first()[a]));
        assert(s.drop_first().skip(a) =~= s.skip(a + 1));
        assert forall|i: int| 0 <= i < a + 1 implies is_white_space(#[trigger] s[i]) by {
            if i > 0 {
                assert(s[i] == s.drop_first()[i - 1]);
            }
        }
        if a + 1 < s.len() {
            assert(s[a + 1] == s.drop_first()[a]);
        }
    } else {
        assert(s.skip(0) =~= s);
    }
}

proof fn lemma_trim_end_take(s: Seq<char>)
    ensures
        exists|b: int|
            0 <= b <= s.len() && trim_end(s) == s.take(b) && (forall|i: int|
                b <= i < s.len() ==> is_white_space(#[trigger] s[i])) && (b > 0
                ==> !is_white_space(s[b - 1])),
    decreases s.len(),
{
    if s.len() > 0 && is_white_space(s.last()) {
        lemma_trim_end_take(s.drop_last());
        let b = choose|b: int|
            0 <= b <= s.drop_last().len() && trim_end(s.drop_last()) == s.drop_last().take(b)
                && (forall|i: int|
                b <= i < s.drop_last().len() ==> is_white_space(#[trigger] s.drop_last()[i]))
                && (b > 0 ==> !is_white_space(s.drop_last()[b - 1]));
        assert(s.drop_last().take(b) =~= s.take(b));
        assert forall|i: int| b <= i < s.len() implies is_white_space(#[trigger] s[i]) by {
            if i < s.len() - 1 {
                assert(s[i] == s.drop_last()[i]);
            }
        }
        if b > 0 {
            assert(s[b - 1] == s.drop_last()[b - 1]);
        }
    } else {
        assert(s.take(s.len() as int) =~= s);
    }
}

/// Trimming removes exactly the whitespace at both ends: the result is the part of
/// the text between a run of leading whitespace and a run of trailing whitespace,
/// and it neither starts nor ends with whitespace.
pub proof fn law_trim(s: Seq<char>)
    ensures
        exists|a: int, b: int|
            0 <= a <= b <= s.len() && trim(s) == s.subrange(a, b) && (forall|i: int|
                0 <= i < a ==> is_white_space(#[trigger] s[i])) && (forall|i: int|
                b <= i < s.len() ==> is_white_space(#[trigger] s[i])),
        trim(s).len() > 0 ==> !is_white_space(trim(s)[0]) && !is_white_space(trim(s).last()),
{
    lemma_trim_start_skip(s);
    let a = choose|a: int|
        0 <= a <= s.len() && trim_start(s) == s.skip(a) && (forall|i: int|
            0 <= i < a ==> is_white_space(#[trigger] s[i])) && (a < s.len() ==> !is_white_space(
            s[a],
        ));
    let t = s.skip(a);
    lemma_trim_end_take(t);
    let b = choose|b: int|
        0 <= b <= t.len() && trim_end(t) == t.take(b) && (forall|i: int|
            b <= i < t.len() ==> is_white_space(#[trigger] t[i])) && (b > 0 ==> !is_white_space(
            t[b - 1],
        ));
    assert(t.take(b) =~= s.subrange(a, a + b));
    assert forall|i: int| a + b <= i < s.len() implies is_white_space(#[trigger] s[i]) by {
        assert(s[i] == t[i - a]);
    }
    if b > 0 {
        assert(trim(s)[0] == t[0]);
        assert(t[0] == s[a]);
        assert(trim(s).last() == t[b - 1]);
    }
}

/// The characters `cs[from..to]` as a string.
pub(crate) fn substring(cs: &Vec<char>, from: usize, to: usize) -> (s: String)
    requires
        from <= to <= cs@.len(),
    ensures
        s@ == cs@.subrange(from as int, to as int),
{
    let mut out = String::new();
    let mut i = from;
    while i < to
        invariant
            from <= i <= to <= cs@.len(),
            out@ == cs@.subrange(from as int, i as int),
        decreases to - i,
    {
        push_char(&mut out, cs[i]);
        i = i + 1;
        assert(out@ =~= cs@.subrange(from as int, i as int));
    }
    out
}

proof fn lemma_trim_start_step(s: Seq<char>, lo: int, hi: int)
    requires
        0 <= lo < hi <= s.len(),
        is_white_space(s[lo]),
    ensures
        trim_start(s.subrange(lo, hi)) == trim_start(s.subrange(lo + 1, hi)),
{
    assert(s.subrange(lo, hi).drop_first() =~= s.subrange(lo + 1, hi));
}

proof fn lemma_trim_end_step(s: Seq<char>, lo: int, hi: int)
    requires
        0 <= lo < hi <= s.len(),
        is_white_space(s[hi - 1]),
    ensures
        trim_end(s.subrange(lo, hi)) == trim_end(s.subrange(lo, hi - 1)),
{
    assert(s.subrange(lo, hi).drop_last() =~= s.subrange(lo, hi - 1));
}

/// The bounds of `cs[lo..hi]` with leading and trailing whitespace removed.
pub(crate) fn trim_bounds(cs: &Vec<char>, lo: usize, hi: usize) -> (r: (usize, usize))
    requires
        lo <= hi <= cs@.len(),
    ensures
        lo <= r.0 <= r.1 <= hi,
        cs@.subrange(r.0 as int, r.1 as int) == trim(cs@.subrange(lo as int, hi as int)),
{
    let mut a = lo;
    while a < hi && crate::lexer::white_space_char(cs[a])
        invariant
            lo <= a <= hi <= cs@.len(),
            trim_start(cs@.subrange(lo as int, hi as int)) == trim_start(
                cs@.subrange(a as int, hi as int),
            ),
        decreases hi - a,
    {
        proof {
            lemma_trim_start_step(cs@, a as int, hi as int);
        }
        a = a + 1;
    }
    let ghost started = cs@.subrange(a as int, hi as int);
    assert(trim_start(started) == started);
    let mut b = hi;
    while b > a && crate::lexer::white_space_char(cs[b - 1])
        invariant
            lo <= a <= b <= hi <= cs@.len(),
            trim_end(started) == trim_end(cs@.subrange(a as int, b as int)),
        decreases b - a,
    {
        proof {
            lemma_trim_end_step(cs@, a as int, b as int);
        }
        b = b - 1;
    }
    let ghost ended = cs@.subrange(a as int, b as int);
    assert(trim_end(ended) == ended);
    (a, b)
}

} // verus!
