use vstd::prelude::*;

verus! {

/// The characters of `s`, in order.
pub fn chars_of(s: &str) -> (r: Vec<char>)
    ensures
        r@ == s@,
{
    let mut r: Vec<char> = Vec::new();
    for c in it: s.chars()
        invariant
            r@ == it.seq().take(it.index() as int),
            it.seq() == s@,
    {
        r.push(c);
    }
    r
}

/// `c` has the Unicode `White_Space` property, the set of characters that
/// `char::is_whitespace` and `str::trim` treat as white space.
pub open spec fn is_whitespace(c: char) -> bool {
    ||| '\u{9}' <= c && c <= '\u{d}'
    ||| c == ' '
    ||| c == '\u{85}'
    ||| c == '\u{a0}'
    ||| c == '\u{1680}'
    ||| '\u{2000}' <= c && c <= '\u{200a}'
    ||| c == '\u{2028}'
    ||| c == '\u{2029}'
    ||| c == '\u{202f}'
    ||| c == '\u{205f}'
    ||| c == '\u{3000}'
}

/// Executable form of [`is_whitespace`].
pub fn char_is_whitespace(c: char) -> (r: bool)
    ensures
        r == is_whitespace(c),
{
    ('\u{9}' <= c && c <= '\u{d}') || c == ' ' || c == '\u{85}' || c == '\u{a0}' || c
        == '\u{1680}' || ('\u{2000}' <= c && c <= '\u{200a}') || c == '\u{2028}' || c == '\u{2029}'
        || c == '\u{202f}' || c == '\u{205f}' || c == '\u{3000}'
}

/// `s` without its leading white space.
pub open spec fn spec_trim_start(s: Seq<char>) -> Seq<char>
    decreases s.len(),
{
    if s.len() > 0 && is_whitespace(s[0]) {
        spec_trim_start(s.drop_first())
    } else {
        s
    }
}

/// `s` without its trailing white space.
pub open spec fn spec_trim_end(s: Seq<char>) -> Seq<char>
    decreases s.len(),
{
    if s.len() > 0 && is_whitespace(s.last()) {
        spec_trim_end(s.drop_last())
    } else {
        s
    }
}

/// `s` without leading and trailing white space, as `str::trim` gives it.
pub open spec fn spec_trim(s: Seq<char>) -> Seq<char> {
    spec_trim_end(spec_trim_start(s))
}

/// The part of `s` before the first `c`, or all of `s` when it holds no
/// `c`: the first piece that `str::split(c)` yields.
pub open spec fn prefix_before(s: Seq<char>, c: char) -> Seq<char>
    decreases s.len(),
{
    if s.len() == 0 {
        s
    } else if s[0] == c {
        Seq::<char>::empty()
    } else {
        seq![s[0]] + prefix_before(s.drop_first(), c)
    }
}

/// The index of the last `c` in `s`, or -1 when `s` holds none.
pub open spec fn last_index_of(s: Seq<char>, c: char) -> int
    decreases s.len(),
{
    if s.len() == 0 {
        -1
    } else if s.last() == c {
        s.len() - 1
    } else {
        last_index_of(s.drop_last(), c)
    }
}

/// `last_index_of` lies inside `s` and points at a `c`, and no `c` follows it.
pub proof fn lemma_last_index_of(s: Seq<char>, c: char)
    ensures
        -1 <= last_index_of(s, c) < s.len(),
        last_index_of(s, c) >= 0 ==> s[last_index_of(s, c)] == c,
        forall|j: int| last_index_of(s, c) < j < s.len() ==> s[j] != c,
    decreases s.len(),
{
    if s.len() > 0 && s.last() != c {
        let p = s.drop_last();
        lemma_last_index_of(p, c);
        assert forall|j: int| last_index_of(s, c) < j < s.len() implies s[j] != c by {
            if j < s.len() - 1 {
                assert(s[j] == p[j]);
            }
        }
    }
}

/// `s` with leading and trailing white space removed, like `str::trim`.
pub fn trim(s: &str) -> (r: &str)
    ensures
        r@ == spec_trim(s@),
{
    let v = chars_of(s);
    let n = v.len();
    let mut start: usize = 0;
    assert(s@.skip(0) =~= s@);
    while start < n && char_is_whitespace(v[start])
        invariant
            n == s@.len(),
            v@ == s@,
            start <= n,
            spec_trim_start(s@) == spec_trim_start(s@.skip(start as int)),
        decreases n - start,
    {
        assert(s@.skip(start as int).drop_first() =~= s@.skip(start as int + 1));
        start = start + 1;
    }
    assert(spec_trim_start(s@) =~= s@.subrange(start as int, n as int));
    let mut end: usize = n;
    while end > start && char_is_whitespace(v[end - 1])
        invariant
            n == s@.len(),
            v@ == s@,
            start <= end <= n,
            spec_trim(s@) == spec_trim_end(s@.subrange(start as int, end as int)),
        decreases end,
    {
        assert(s@.subrange(start as int, end as int).drop_last() =~= s@.subrange(
            start as int,
            end as int - 1,
        ));
        end = end - 1;
    }
    s.substring_char(start, end)
}

/// The part of `s` before the first `c` (all of `s` when it holds none),
/// like `s.split(c).next()`.
pub fn before_first(s: &str, c: char) -> (r: &str)
    ensures
        r@ == prefix_before(s@, c),
{
    let v = chars_of(s);
    let n = v.len();
    let mut i: usize = 0;
    assert(s@.skip(0) =~= s@);
    assert(s@.take(0) + prefix_before(s@, c) =~= prefix_before(s@, c));
    while i < n && v[i] != c
        invariant
            n == s@.len(),
            v@ == s@,
            i <= n,
            prefix_before(s@, c) == s@.take(i as int) + prefix_before(s@.skip(i as int), c),
        decreases n - i,
    {
        let ghost rest = s@.skip(i as int);
        assert(rest.drop_first() =~= s@.skip(i as int + 1));
        assert(s@.take(i as int) + seq![rest[0]] =~= s@.take(i as int + 1));
        assert(s@.take(i as int) + (seq![rest[0]] + prefix_before(rest.drop_first(), c))
            =~= s@.take(i as int + 1) + prefix_before(s@.skip(i as int + 1), c));
        i = i + 1;
    }
    assert(prefix_before(s@.skip(i as int), c) =~= Seq::<char>::empty());
    assert(s@.take(i as int) + Seq::<char>::empty() =~= s@.take(i as int));
    s.substring_char(0, i)
}

} // verus!
