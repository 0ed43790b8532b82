use vstd::prelude::*;

verus! {

/// Unicode `White_Space`, the set of characters that `str::trim` removes.
pub open spec fn is_space(c: char) -> bool {
    let u = c as u32;
    (0x9 <= u && u <= 0xd) || u == 0x20 || u == 0x85 || u == 0xa0 || u == 0x1680 || (0x2000 <= u
        && u <= 0x200a) || u == 0x2028 || u == 0x2029 || u == 0x202f || u == 0x205f || u == 0x3000
}

/// `s` without its leading white space.
pub open spec fn trim_start(s: Seq<char>) -> Seq<char>
    decreases s.len(),
{
    if s.len() > 0 && is_space(s[0]) {
        trim_start(s.drop_first())
    } else {
        s
    }
}

/// `s` without its trailing white space.
pub open spec fn trim_end(s: Seq<char>) -> Seq<char>
    decreases s.len(),
{
    if s.len() > 0 && is_space(s.last()) {
        trim_end(s.drop_last())
    } else {
        s
    }
}

/// `s` without white space at either end.
pub open spec fn trim(s: Seq<char>) -> Seq<char> {
    trim_end(trim_start(s))
}

/// The pieces of `s` between occurrences of `sep`: one more piece than there are
/// separators, empty pieces included.
pub open spec fn split(s: Seq<char>, sep: char) -> Seq<Seq<char>>
    decreases s.len(),
{
    if s.len() == 0 {
        seq![Seq::empty()]
    } else {
        let parts = split(s.drop_last(), sep);
        if s.last() == sep {
            parts.push(Seq::empty())
        } else {
            parts.update(parts.len() - 1, parts.last().push(s.last()))
        }
    }
}

/// Splitting always gives at least one piece.
pub proof fn lemma_split_nonempty(s: Seq<char>, sep: char)
    ensures
        split(s, sep).len() >= 1,
    decreases s.len(),
{
    if s.len() > 0 {
        lemma_split_nonempty(s.drop_last(), sep);
    }
}

/// A sequence without the separator is a single piece.
pub proof fn lemma_split_single(s: Seq<char>, sep: char)
    requires
        !s.contains(sep),
    ensures
        split(s, sep) == seq![s],
    decreases s.len(),
{
    if s.len() > 0 {
        let t = s.drop_last();
        assert(!t.contains(sep)) by {
            if t.contains(sep) {
                let i = choose|i: int| 0 <= i < t.len() && t[i] == sep;
                assert(s[i] == sep);
            }
        }
        lemma_split_single(t, sep);
        assert(s[s.len() - 1] != sep);
        assert(t.push(s.last()) =~= s);
        assert(split(s, sep) =~= seq![s]);
    } else {
        assert(s =~= Seq::<char>::empty());
    }
}

/// Splitting after a separator: the piece that the separator ends is the last of
/// the first part, and the pieces of the rest follow.
pub proof fn lemma_split_append(x: Seq<char>, y: Seq<char>, sep: char)
    requires
        x.len() > 0,
        x.last() == sep,
    ensures
        split(x + y, sep) == split(x, sep).drop_last() + split(y, sep),
    decreases y.len(),
{
    lemma_split_nonempty(x.drop_last(), sep);
    if y.len() == 0 {
        assert(x + y =~= x);
        assert(split(x, sep).drop_last() + split(y, sep) =~= split(x, sep));
    } else {
        let y0 = y.drop_last();
        lemma_split_append(x, y0, sep);
        lemma_split_nonempty(y0, sep);
        assert((x + y).drop_last() =~= x + y0);
        assert((x + y).last() == y.last());
        let a = split(x, sep).drop_last();
        let b = split(y0, sep);
        if y.last() == sep {
            assert((a + b).push(Seq::empty()) =~= a + b.push(Seq::empty()));
        } else {
            assert((a + b).update((a + b).len() - 1, (a + b).last().push(y.last())) =~= a
                + b.update(b.len() - 1, b.last().push(y.last())));
        }
    }
}

/// Whether `c` is white space, as `char::is_whitespace` decides it.
pub fn is_space_char(c: char) -> (r: bool)
    ensures
        r == is_space(c),
{
    let u = c as u32;
    (0x9 <= u && u <= 0xd) || u == 0x20 || u == 0x85 || u == 0xa0 || u == 0x1680 || (0x2000 <= u
        && u <= 0x200a) || u == 0x2028 || u == 0x2029 || u == 0x202f || u == 0x205f || u == 0x3000
}

/// The characters of `s`, in order, as a vector.
pub fn chars_of(s: &str) -> (r: Vec<char>)
    ensures
        r@ == s@,
{
    let mut r: Vec<char> = Vec::new();
    for c in it: s.chars()
        invariant
            it.seq() == s@,
            r@ == it.seq().take(it.index() as int),
    {
        r.push(c);
    }
    r
}

/// The bounds, within `from..to`, of that range of `c` trimmed of white space.
pub fn trim_bounds(c: &Vec<char>, from: usize, to: usize) -> (r: (usize, usize))
    requires
        from <= to <= c@.len(),
    ensures
        from <= r.0 <= r.1 <= to,
        c@.subrange(r.0 as int, r.1 as int) == trim(c@.subrange(from as int, to as int)),
{
    let mut a = from;
    while a < to && is_space_char(c[a])
        invariant
            from <= a <= to <= c@.len(),
            trim_start(c@.subrange(from as int, to as int)) == trim_start(
                c@.subrange(a as int, to as int),
            ),
        decreases to - a,
    {
        assert(c@.subrange(a as int, to as int).drop_first() =~= c@.subrange(
            a + 1,
            to as int,
        ));
        a = a + 1;
    }
    assert(trim_start(c@.subrange(a as int, to as int)) == c@.subrange(a as int, to as int));
    let mut b = to;
    while b > a && is_space_char(c[b - 1])
        invariant
            from <= a <= b <= to <= c@.len(),
            trim(c@.subrange(from as int, to as int)) == trim_end(c@.subrange(a as int, b as int)),
        decreases b - a,
    {
        assert(c@.subrange(a as int, b as int).drop_last() =~= c@.subrange(
            a as int,
            b - 1,
        ));
        b = b - 1;
    }
    (a, b)
}

/// The bounds of the pieces of `c[from..to]` between occurrences of `sep`.
pub fn split_bounds(c: &Vec<char>, from: usize, to: usize, sep: char) -> (r: Vec<(usize, usize)>)
    requires
        from <= to <= c@.len(),
    ensures
        r@.len() == split(c@.subrange(from as int, to as int), sep).len(),
        forall|k: int|
            0 <= k < r@.len() ==> from <= (#[trigger] r@[k]).0 <= r@[k].1 <= to && c@.subrange(
                r@[k].0 as int,
                r@[k].1 as int,
            ) == split(c@.subrange(from as int, to as int), sep)[k],
{
    let mut r: Vec<(usize, usize)> = Vec::new();
    r.push((from, from));
    let mut i = from;
    assert(c@.subrange(from as int, from as int) =~= Seq::<char>::empty());
    while i < to
        invariant
            from <= i <= to <= c@.len(),
            r@.len() == split(c@.subrange(from as int, i as int), sep).len(),
            r@.len() >= 1,
            r@.last().1 == i,
            forall|k: int|
                0 <= k < r@.len() ==> from <= (#[trigger] r@[k]).0 <= r@[k].1 <= i
                    && c@.subrange(r@[k].0 as int, r@[k].1 as int) == split(
                    c@.subrange(from as int, i as int),
                    sep,
                )[k],
        decreases to - i,
    {
        let ghost prev = split(c@.subrange(from as int, i as int), sep);
        assert(c@.subrange(from as int, i + 1).drop_last() =~= c@.subrange(from as int, i as int));
        assert(c@.subrange(from as int, i + 1).last() == c@[i as int]);
        if c[i] == sep {
            r.push((i + 1, i + 1));
            assert(c@.subrange(i + 1, i + 1) =~= Seq::<char>::empty());
        } else {
            let last = r.len() - 1;
            let start = r[last].0;
            r.set(last, (start, i + 1));
            assert(c@.subrange(start as int, i + 1) =~= c@.subrange(start as int, i as int).push(
                c@[i as int],
            ));
        }
        i = i + 1;
    }
    r
}

/// Whether `c[from..to]` holds exactly the characters of `word`.
pub fn segment_is(c: &Vec<char>, from: usize, to: usize, word: &str) -> (r: bool)
    requires
        from <= to <= c@.len(),
    ensures
        r == (c@.subrange(from as int, to as int) == word@),
{
    let n = word.unicode_len();
    if to - from != n {
        return false;
    }
    let mut k: usize = 0;
    while k < n
        invariant
            k <= n,
            n == word@.len(),
            to - from == n,
            from <= to <= c@.len(),
            forall|j: int| 0 <= j < k ==> c@[from + j] == word@[j],
        decreases n - k,
    {
        if c[from + k] != word.get_char(k) {
            assert(c@.subrange(from as int, to as int)[k as int] != word@[k as int]);
            return false;
        }
        k = k + 1;
    }
    assert(c@.subrange(from as int, to as int) =~= word@);
    true
}

} // verus!
