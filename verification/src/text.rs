//! Searching and cutting character sequences.

use vstd::prelude::*;
use vstd::std_specs::iter::IteratorSpec;
use vstd::string::{StrSliceExecFns, StringExecFns};

verus! {

/// Whether `c` is white space: the characters with the Unicode property
/// `White_Space`.
pub open spec fn is_space(c: char) -> bool {
    let u = c as u32;
    ||| 0x09 <= u <= 0x0d
    ||| u == 0x20
    ||| u == 0x85
    ||| u == 0xa0
    ||| u == 0x1680
    ||| 0x2000 <= u <= 0x200a
    ||| u == 0x2028
    ||| u == 0x2029
    ||| u == 0x202f
    ||| u == 0x205f
    ||| u == 0x3000
}

/// Position of the first `c` in `s`; `s.len()` when `s` holds none.
pub open spec fn first_index(s: Seq<char>, c: char) -> int
    decreases s.len(),
{
    if s.len() == 0 || s[0] == c {
        0
    } else {
        1 + first_index(s.drop_first(), c)
    }
}

/// Position of the last `c` in `s`; `-1` when `s` holds none.
pub open spec fn last_index(s: Seq<char>, c: char) -> int
    decreases s.len(),
{
    if s.len() == 0 {
        -1
    } else if s.last() == c {
        s.len() - 1
    } else {
        last_index(s.drop_last(), c)
    }
}

/// Number of white-space characters at the start of `s`.
pub open spec fn leading_space(s: Seq<char>) -> int
    decreases s.len(),
{
    if s.len() > 0 && is_space(s[0]) {
        1 + leading_space(s.drop_first())
    } else {
        0
    }
}

/// Number of white-space characters at the end of `s`.
pub open spec fn trailing_space(s: Seq<char>) -> int
    decreases s.len(),
{
    if s.len() > 0 && is_space(s.last()) {
        1 + trailing_space(s.drop_last())
    } else {
        0
    }
}

/// `s` without the white space at its two ends.
pub open spec fn trimmed(s: Seq<char>) -> Seq<char> {
    if leading_space(s) >= s.len() {
        Seq::empty()
    } else {
        s.subrange(leading_space(s), s.len() - trailing_space(s))
    }
}

/// Whether `pattern` occurs in `s` as a run of adjacent characters.
pub open spec fn contains_text(s: Seq<char>, pattern: Seq<char>) -> bool {
    exists|i: int|
        0 <= i && i + pattern.len() <= s.len() && #[trigger] s.subrange(i, i + pattern.len())
            == pattern
}

/// `s` with every occurrence of `pattern` removed, occurrences being
/// found from the left and never overlapping. An empty pattern removes
/// nothing.
pub open spec fn without_text(s: Seq<char>, pattern: Seq<char>) -> Seq<char>
    decreases s.len(),
{
    if pattern.len() == 0 || s.len() < pattern.len() {
        s
    } else if s.subrange(0, pattern.len() as int) == pattern {
        without_text(s.skip(pattern.len() as int), pattern)
    } else {
        seq![s[0]] + without_text(s.drop_first(), pattern)
    }
}

/// The first position holds `c` or is the end, and nothing before it
/// holds `c`.
pub proof fn lemma_first_index(s: Seq<char>, c: char)
    ensures
        0 <= first_index(s, c) <= s.len(),
        first_index(s, c) < s.len() ==> s[first_index(s, c)] == c,
        forall|i: int| 0 <= i < first_index(s, c) ==> s[i] != c,
    decreases s.len(),
{
    if s.len() == 0 || s[0] == c {
    } else {
        lemma_first_index(s.drop_first(), c);
        assert forall|i: int| 0 <= i < first_index(s, c) implies s[i] != c by {
            if i > 0 {
                assert(s[i] == s.drop_first()[i - 1]);
            }
        }
    }
}

/// The last position holds `c` or is `-1`, and nothing after it holds
/// `c`.
pub proof fn lemma_last_index(s: Seq<char>, c: char)
    ensures
        -1 <= last_index(s, c) < s.len(),
        last_index(s, c) >= 0 ==> s[last_index(s, c)] == c,
        forall|i: int| last_index(s, c) < i < s.len() ==> s[i] != c,
    decreases s.len(),
{
    if s.len() == 0 {
    } else if s.last() == c {
    } else {
        lemma_last_index(s.drop_last(), c);
        assert forall|i: int| last_index(s, c) < i < s.len() implies s[i] != c by {
            if i < s.len() - 1 {
                assert(s[i] == s.drop_last()[i]);
            }
        }
    }
}

/// The characters of `text`, one by one.
pub fn chars_of(text: &str) -> (chars: Vec<char>)
    ensures
        chars@ == text@,
{
    broadcast use vstd::string::group_string_axioms;

    let mut chars: Vec<char> = Vec::new();
    let mut rest = text.chars();
    loop
        invariant
            rest.obeys_prophetic_iter_laws(),
            rest.decrease() is Some,
            chars@ + rest.remaining() == text@,
        decreases rest.decrease()->0,
    {
        match rest.next() {
            Some(c) => {
                chars.push(c);
                assert(chars@ + rest.remaining() =~= text@);
            },
            None => {
                assert(chars@ =~= text@);
                return chars;
            },
        }
    }
}

/// Whether `c` is white space.
pub fn is_space_char(c: char) -> (space: bool)
    ensures
        space == is_space(c),
{
    let u: u32 = c as u32;
    (0x09 <= u && u <= 0x0d) || u == 0x20 || u == 0x85 || u == 0xa0 || u == 0x1680 || (0x2000 <= u
        && u <= 0x200a) || u == 0x2028 || u == 0x2029 || u == 0x202f || u == 0x205f || u == 0x3000
}

/// Finds the first `c` in `chars[from..to]`; the result is `to` when
/// there is none.
pub fn find_first(chars: &Vec<char>, from: usize, to: usize, c: char) -> (at: usize)
    requires
        from <= to <= chars@.len(),
    ensures
        from <= at <= to,
        at - from == first_index(chars@.subrange(from as int, to as int), c),
        at < to ==> chars@[at as int] == c,
        forall|i: int| from <= i < at ==> chars@[i] != c,
{
    proof {
        let s = chars@.subrange(from as int, to as int);
        lemma_first_index(s, c);
        assert forall|i: int| from <= i < from + first_index(s, c) implies chars@[i] != c by {
            assert(s[i - from] == chars@[i]);
        }
    }
    let mut at: usize = from;
    while at < to && chars[at] != c
        invariant
            from <= at <= to <= chars@.len(),
            first_index(chars@.subrange(from as int, to as int), c) == (at - from) + first_index(
                chars@.subrange(at as int, to as int),
                c,
            ),
        decreases to - at,
    {
        assert(chars@.subrange(at as int, to as int).drop_first() =~= chars@.subrange(
            at + 1,
            to as int,
        ));
        at = at + 1;
    }
    at
}

/// Finds the last `c` in `chars[from..to]`; the result is the position
/// after it, or `from` when there is none.
pub fn find_after_last(chars: &Vec<char>, from: usize, to: usize, c: char) -> (after: usize)
    requires
        from <= to <= chars@.len(),
    ensures
        from <= after <= to,
        after - from == last_index(chars@.subrange(from as int, to as int), c) + 1,
        after > from ==> chars@[after - 1] == c,
        forall|i: int| after <= i < to ==> chars@[i] != c,
{
    proof {
        let s = chars@.subrange(from as int, to as int);
        lemma_last_index(s, c);
        assert forall|i: int| from + last_index(s, c) < i < to implies chars@[i] != c by {
            assert(s[i - from] == chars@[i]);
        }
    }
    let mut after: usize = to;
    while after > from && chars[after - 1] != c
        invariant
            from <= after <= to <= chars@.len(),
            last_index(chars@.subrange(from as int, to as int), c) == last_index(
                chars@.subrange(from as int, after as int),
                c,
            ),
        decreases after - from,
    {
        assert(chars@.subrange(from as int, after as int).drop_last() =~= chars@.subrange(
            from as int,
            after - 1,
        ));
        after = after - 1;
    }
    after
}

/// The bounds of `chars[from..to]` without the white space at its ends;
/// the empty range at `to` when all of it is white space.
pub fn trim_bounds(chars: &Vec<char>, from: usize, to: usize) -> (bounds: (usize, usize))
    requires
        from <= to <= chars@.len(),
    ensures
        from <= bounds.0 <= bounds.1 <= to,
        chars@.subrange(bounds.0 as int, bounds.1 as int) == trimmed(
            chars@.subrange(from as int, to as int),
        ),
        bounds == (if leading_space(chars@.subrange(from as int, to as int)) >= to - from {
            (to, to)
        } else {
            (
                (from + leading_space(chars@.subrange(from as int, to as int))) as usize,
                (to - trailing_space(chars@.subrange(from as int, to as int))) as usize,
            )
        }),
{
    let ghost s = chars@.subrange(from as int, to as int);
    let mut start: usize = from;
    while start < to && is_space_char(chars[start])
        invariant
            from <= start <= to <= chars@.len(),
            leading_space(chars@.subrange(from as int, to as int)) == (start - from)
                + leading_space(chars@.subrange(start as int, to as int)),
        decreases to - start,
    {
        assert(chars@.subrange(start as int, to as int).drop_first() =~= chars@.subrange(
            start + 1,
            to as int,
        ));
        start = start + 1;
    }
    if start == to {
        assert(chars@.subrange(to as int, to as int) =~= Seq::<char>::empty());
        return (to, to);
    }
    let mut end: usize = to;
    while end > start && is_space_char(chars[end - 1])
        invariant
            from <= start < end <= to <= chars@.len(),
            !is_space(chars@[start as int]),
            trailing_space(chars@.subrange(from as int, to as int)) == (to - end)
                + trailing_space(chars@.subrange(from as int, end as int)),
        decreases end - start,
    {
        assert(chars@.subrange(from as int, end as int).drop_last() =~= chars@.subrange(
            from as int,
            end - 1,
        ));
        end = end - 1;
    }
    assert(chars@.subrange(start as int, end as int) =~= s.subrange(
        start - from,
        s.len() - (to - end),
    ));
    (start, end)
}

/// Whether `chars` holds `pattern` at position `at`.
pub fn matches_at(chars: &Vec<char>, at: usize, pattern: &Vec<char>) -> (same: bool)
    requires
        at + pattern@.len() <= chars@.len(),
    ensures
        same == (chars@.subrange(at as int, at + pattern@.len()) == pattern@),
{
    let m = pattern.len();
    let mut j: usize = 0;
    while j < m
        invariant
            j <= m,
            m == pattern@.len(),
            at + m <= chars.len(),
            chars@.subrange(at as int, at + j) == pattern@.take(j as int),
        decreases m - j,
    {
        if chars[at + j] != pattern[j] {
            assert(chars@.subrange(at as int, at + m)[j as int] != pattern@[j as int]);
            return false;
        }
        j = j + 1;
        assert(chars@.subrange(at as int, at + j) =~= pattern@.take(j as int));
    }
    assert(pattern@.take(m as int) =~= pattern@);
    true
}

/// Whether `pattern` occurs in `chars[from..to]`.
pub fn contains(chars: &Vec<char>, from: usize, to: usize, pattern: &Vec<char>) -> (found: bool)
    requires
        from <= to <= chars@.len(),
    ensures
        found == contains_text(chars@.subrange(from as int, to as int), pattern@),
{
    let ghost s = chars@.subrange(from as int, to as int);
    let m = pattern.len();
    let n = to - from;
    if m > n {
        return false;
    }
    if m == 0 {
        assert(s.subrange(0, 0int + pattern@.len()) =~= pattern@);
        return true;
    }
    let mut i: usize = 0;
    while i <= n - m
        invariant
            0 < m <= n,
            n == to - from,
            from <= to <= chars@.len(),
            m == pattern@.len(),
            s == chars@.subrange(from as int, to as int),
            forall|k: int| 0 <= k < i ==> #[trigger] s.subrange(k, k + m) != pattern@,
        decreases n - m + 1 - i,
    {
        assert(s.subrange(i as int, i + m) =~= chars@.subrange(from + i, from + i + m));
        if matches_at(chars, from + i, pattern) {
            return true;
        }
        i = i + 1;
    }
    false
}

/// `source` with every occurrence of `pattern` removed.
pub fn remove_text(source: &str, pattern: &str) -> (rest: String)
    ensures
        rest@ == without_text(source@, pattern@),
{
    let chars = chars_of(source);
    let unwanted = chars_of(pattern);
    let n = chars.len();
    let m = unwanted.len();
    let mut rest = String::new();
    // Everything before `kept` is dealt with; `chars[kept..i]` is a run
    // that stays and is not yet copied.
    let mut kept: usize = 0;
    let mut i: usize = 0;
    proof {
        assert(chars@.skip(0) =~= chars@);
        assert(rest@ + chars@.subrange(0, 0) + without_text(chars@.skip(0), unwanted@)
            =~= without_text(chars@, unwanted@));
    }
    while i < n
        invariant
            kept <= i <= n,
            n == chars@.len(),
            m == unwanted@.len(),
            chars@ == source@,
            unwanted@ == pattern@,
            rest@ + chars@.subrange(kept as int, i as int) + without_text(
                chars@.skip(i as int),
                unwanted@,
            ) == without_text(chars@, unwanted@),
        decreases n - i,
    {
        let ghost tail = chars@.skip(i as int);
        let ghost before = rest@;
        let mut found = false;
        if m > 0 && m <= n - i {
            assert(tail.subrange(0, m as int) =~= chars@.subrange(i as int, i + m));
            found = matches_at(&chars, i, &unwanted);
        }
        if found {
            rest.append(source.substring_char(kept, i));
            proof {
                assert(tail.skip(m as int) =~= chars@.skip(i + m));
                assert(rest@ + chars@.subrange(i + m, i + m) + without_text(
                    chars@.skip(i + m),
                    unwanted@,
                ) =~= before + chars@.subrange(kept as int, i as int) + without_text(
                    tail,
                    unwanted@,
                ));
            }
            i = i + m;
            kept = i;
        } else {
            proof {
                assert(tail.drop_first() =~= chars@.skip(i + 1));
                if m == 0 || tail.len() < m {
                    assert(without_text(tail, unwanted@) == tail);
                    assert(without_text(tail.drop_first(), unwanted@) == tail.drop_first());
                    assert(tail =~= seq![tail[0]] + tail.drop_first());
                }
                assert(without_text(tail, unwanted@) == seq![tail[0]] + without_text(
                    tail.drop_first(),
                    unwanted@,
                ));
                assert(rest@ + chars@.subrange(kept as int, i + 1) + without_text(
                    chars@.skip(i + 1),
                    unwanted@,
                ) =~= rest@ + chars@.subrange(kept as int, i as int) + without_text(
                    tail,
                    unwanted@,
                ));
            }
            i = i + 1;
        }
    }
    let ghost before = rest@;
    rest.append(source.substring_char(kept, n));
    proof {
        assert(chars@.skip(n as int) =~= Seq::<char>::empty());
        assert(rest@ =~= before + chars@.subrange(kept as int, n as int) + without_text(
            chars@.skip(n as int),
            unwanted@,
        ));
    }
    rest
}

} // verus!
