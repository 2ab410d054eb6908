//! Text helpers over the character sequences that strings stand for.

use vstd::prelude::*;

verus! {

/// `needle` occurs in `hay` starting at position `at`.
pub open spec fn occurs_at(hay: Seq<char>, needle: Seq<char>, at: int) -> bool {
    &&& 0 <= at
    &&& at + needle.len() <= hay.len()
    &&& hay.subrange(at, at + needle.len()) == needle
}

/// `needle` occurs somewhere in `hay`.
pub open spec fn contains_text(hay: Seq<char>, needle: Seq<char>) -> bool {
    exists|at: int| occurs_at(hay, needle, at)
}

/// `needle` occurs nowhere in `hay` at a position in `from..to`.
pub open spec fn absent_between(hay: Seq<char>, needle: Seq<char>, from: int, to: int) -> bool {
    forall|at: int| from <= at < to ==> !occurs_at(hay, needle, at)
}

/// The characters of `s`, in order.
pub fn chars_of(s: &str) -> (v: Vec<char>)
    ensures
        v@ == s@,
{
    let mut v: Vec<char> = Vec::new();
    for c in it: s.chars()
        invariant
            it.seq() == s@,
            v@ == s@.take(it.index()),
    {
        v.push(c);
    }
    v
}

/// Whether `needle` occurs in `hay` at position `at`.
pub fn matches_at(hay: &Vec<char>, needle: &Vec<char>, at: usize) -> (r: bool)
    ensures
        r == occurs_at(hay@, needle@, at as int),
{
    if needle.len() > hay.len() || at > hay.len() - needle.len() {
        return false;
    }
    let mut k: usize = 0;
    while k < needle.len()
        invariant
            k <= needle.len(),
            at + needle.len() <= hay.len(),
            forall|j: int| 0 <= j < k ==> hay@[at + j] == needle@[j],
        decreases needle.len() - k,
    {
        if hay[at + k] != needle[k] {
            assert(hay@.subrange(at as int, at + needle.len())[k as int] == hay@[at + k]);
            return false;
        }
        k += 1;
    }
    assert(hay@.subrange(at as int, at + needle.len()) =~= needle@);
    true
}

/// The first position at or after `from` where `needle` occurs in `hay`.
pub fn find_from(hay: &Vec<char>, needle: &Vec<char>, from: usize) -> (r: Option<usize>)
    ensures
        match r {
            Some(at) => from <= at && occurs_at(hay@, needle@, at as int) && absent_between(
                hay@,
                needle@,
                from as int,
                at as int,
            ),
            None => forall|at: int| from <= at ==> !occurs_at(hay@, needle@, at),
        },
{
    let mut at: usize = from;
    while at < hay.len()
        invariant
            from <= at,
            absent_between(hay@, needle@, from as int, at as int),
        decreases hay.len() - at,
    {
        if matches_at(hay, needle, at) {
            return Some(at);
        }
        at += 1;
    }
    if at == hay.len() && matches_at(hay, needle, at) {
        return Some(at);
    }
    assert forall|i: int| from <= i implies !occurs_at(hay@, needle@, i) by {
        if i < at {
            assert(absent_between(hay@, needle@, from as int, at as int));
        }
    }
    None
}

/// Whether `needle` occurs somewhere in `hay`.
pub fn contains(hay: &str, needle: &str) -> (r: bool)
    ensures
        r == contains_text(hay@, needle@),
{
    let h = chars_of(hay);
    let n = chars_of(needle);
    match find_from(&h, &n, 0) {
        Some(at) => true,
        None => false,
    }
}

/// `s` with every occurrence of `from` replaced by `to`, found from the left
/// and without overlap. An empty `from` occurs nowhere: `s` stays as it is.
pub open spec fn replace_text(s: Seq<char>, from: Seq<char>, to: Seq<char>) -> Seq<char>
    decreases s.len(),
{
    if from.len() == 0 || s.len() < from.len() {
        s
    } else if occurs_at(s, from, 0) {
        to + replace_text(s.skip(from.len() as int), from, to)
    } else {
        seq![s[0]] + replace_text(s.skip(1), from, to)
    }
}

/// An occurrence in what is left of `s` after `p` characters is an
/// occurrence in `s`, `p` places further on.
pub proof fn lemma_occurs_in_rest(s: Seq<char>, needle: Seq<char>, p: int, k: int)
    requires
        0 <= p <= s.len(),
        0 <= k,
    ensures
        occurs_at(s.skip(p), needle, k) <==> occurs_at(s, needle, p + k),
{
    if p + k + needle.len() <= s.len() {
        assert(s.skip(p).subrange(k, k + needle.len()) =~= s.subrange(
            p + k,
            p + k + needle.len(),
        ));
    }
}

/// Text in which `from` does not occur from `pos` up to `at` is kept as it
/// is up to `at`.
pub proof fn lemma_replace_keeps_gap(
    s: Seq<char>,
    from: Seq<char>,
    to: Seq<char>,
    pos: int,
    at: int,
)
    requires
        from.len() > 0,
        0 <= pos <= at <= s.len(),
        absent_between(s, from, pos, at),
    ensures
        replace_text(s.skip(pos), from, to) == s.subrange(pos, at) + replace_text(
            s.skip(at),
            from,
            to,
        ),
    decreases at - pos,
{
    let t = s.skip(pos);
    if pos == at {
        assert(s.subrange(pos, at) + replace_text(s.skip(at), from, to) =~= replace_text(
            s.skip(at),
            from,
            to,
        ));
    } else if t.len() < from.len() {
        assert(t =~= s.subrange(pos, at) + s.skip(at));
    } else {
        lemma_occurs_in_rest(s, from, pos, 0);
        assert(!occurs_at(s, from, pos));
        assert(t.skip(1) =~= s.skip(pos + 1));
        assert forall|i: int| pos + 1 <= i < at implies !occurs_at(s, from, i) by {}
        lemma_replace_keeps_gap(s, from, to, pos + 1, at);
        assert(seq![t[0]] + (s.subrange(pos + 1, at) + replace_text(s.skip(at), from, to))
            =~= s.subrange(pos, at) + replace_text(s.skip(at), from, to));
    }
}

/// Replaces every occurrence of `from` in `s` by `to`.
pub fn replace_all(s: &str, from: &str, to: &str) -> (r: String)
    ensures
        r@ == replace_text(s@, from@, to@),
{
    let hay = chars_of(s);
    let needle = chars_of(from);
    if needle.len() == 0 {
        return String::from_str(s);
    }
    let mut out = String::new();
    let mut pos: usize = 0;
    assert(s@.skip(0) =~= s@);
    assert(out@ + replace_text(s@, from@, to@) =~= replace_text(s@, from@, to@));
    while pos < hay.len()
        invariant
            pos <= hay.len(),
            hay@ == s@,
            needle@ == from@,
            needle.len() > 0,
            out@ + replace_text(s@.skip(pos as int), from@, to@) == replace_text(s@, from@, to@),
        decreases hay.len() - pos,
    {
        let ghost so_far = out@;
        match find_from(&hay, &needle, pos) {
            Some(at) => {
                out.append(s.substring_char(pos, at));
                out.append(to);
                proof {
                    lemma_replace_keeps_gap(s@, from@, to@, pos as int, at as int);
                    lemma_occurs_in_rest(s@, from@, at as int, 0);
                    assert(s@.skip(at as int).skip(from@.len() as int) =~= s@.skip(
                        at + from@.len(),
                    ));
                    assert(out@ + replace_text(s@.skip(at + from@.len()), from@, to@) =~= so_far
                        + (s@.subrange(pos as int, at as int) + (to@ + replace_text(
                        s@.skip(at + from@.len()),
                        from@,
                        to@,
                    ))));
                }
                pos = at + needle.len();
            },
            None => {
                out.append(s.substring_char(pos, hay.len()));
                proof {
                    assert forall|i: int| pos <= i < s@.len() implies !occurs_at(
                        s@,
                        from@,
                        i,
                    ) by {}
                    lemma_replace_keeps_gap(s@, from@, to@, pos as int, s@.len() as int);
                    assert(s@.skip(s@.len() as int) =~= Seq::<char>::empty());
                    assert(out@ + replace_text(s@.skip(s@.len() as int), from@, to@) =~= so_far
                        + (s@.subrange(pos as int, s@.len() as int) + replace_text(
                        s@.skip(s@.len() as int),
                        from@,
                        to@,
                    )));
                }
                pos = hay.len();
            },
        }
    }
    proof {
        assert(s@.skip(s@.len() as int) =~= Seq::<char>::empty());
        assert(out@ + Seq::<char>::empty() =~= out@);
    }
    out
}

/// `a` comes before `b` in the order of strings: at the first place where
/// they differ `a` has the smaller character, or `a` ends there and `b`
/// goes on.
pub open spec fn text_lt(a: Seq<char>, b: Seq<char>) -> bool
    decreases a.len(),
{
    if b.len() == 0 {
        false
    } else if a.len() == 0 {
        true
    } else if a[0] != b[0] {
        (a[0] as u32) < (b[0] as u32)
    } else {
        text_lt(a.skip(1), b.skip(1))
    }
}

/// Whether `a` comes before `b` in the order of strings.
pub fn less_than(a: &str, b: &str) -> (r: bool)
    ensures
        r == text_lt(a@, b@),
{
    let x = chars_of(a);
    let y = chars_of(b);
    let mut i: usize = 0;
    assert(a@.skip(0) =~= a@);
    assert(b@.skip(0) =~= b@);
    while i < x.len() && i < y.len()
        invariant
            i <= x.len(),
            i <= y.len(),
            x@ == a@,
            y@ == b@,
            text_lt(a@, b@) == text_lt(a@.skip(i as int), b@.skip(i as int)),
        decreases x.len() - i,
    {
        proof {
            assert(a@.skip(i as int).skip(1) =~= a@.skip(i + 1));
            assert(b@.skip(i as int).skip(1) =~= b@.skip(i + 1));
        }
        if x[i] != y[i] {
            return (x[i] as u32) < (y[i] as u32);
        }
        i += 1;
    }
    i < y.len()
}

/// The order of strings never puts two strings each before the other.
pub proof fn lemma_text_lt_asymmetric(a: Seq<char>, b: Seq<char>)
    requires
        text_lt(a, b),
    ensures
        !text_lt(b, a),
    decreases a.len(),
{
    if a.len() > 0 && b.len() > 0 && a[0] == b[0] {
        lemma_text_lt_asymmetric(a.skip(1), b.skip(1));
    }
}

/// Where `a` does not come before `b` and `b` does not come before `c`,
/// `a` does not come before `c`.
pub proof fn lemma_text_not_lt_chain(a: Seq<char>, b: Seq<char>, c: Seq<char>)
    requires
        !text_lt(a, b),
        !text_lt(b, c),
    ensures
        !text_lt(a, c),
    decreases a.len(),
{
    if c.len() > 0 {
        assert(b.len() > 0);
        assert(a.len() > 0);
        let (x, y, z) = (a[0], b[0], c[0]);
        lemma_code_points_differ(x, y);
        lemma_code_points_differ(y, z);
        if x == y && y == z {
            lemma_text_not_lt_chain(a.skip(1), b.skip(1), c.skip(1));
        }
    }
}

/// Different characters have different code points.
proof fn lemma_code_points_differ(x: char, y: char)
    ensures
        x != y ==> (x as u32) != (y as u32),
{
}

} // verus!
