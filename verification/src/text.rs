//! Text as sequences of characters.
//!
//! Every rewriting rule of the calculator is stated over `Seq<char>`. The
//! executable functions work on `Vec<char>`, whose view is that sequence, and
//! on `String` only at the two ends.

use vstd::prelude::*;

verus! {

/// `String::push`: the character is appended at the end of the string.
pub assume_specification[ String::push ](s: &mut String, c: char)
    ensures
        final(s)@ == old(s)@.push(c),
;

/// The characters of `s`, in order.
pub fn chars_of(s: &str) -> (v: Vec<char>)
    ensures
        v@ == s@,
{
    let mut v: Vec<char> = Vec::new();
    for c in it: s.chars()
        invariant
            it.seq() == s@,
            v@ == it.seq().take(it.index()),
    {
        v.push(c);
    }
    v
}

/// The string made of the characters of `v`, in order.
pub fn string_of(v: &Vec<char>) -> (s: String)
    ensures
        s@ == v@,
{
    let mut s = String::new();
    let mut i: usize = 0;
    while i < v.len()
        invariant
            i <= v.len(),
            s@ == v@.take(i as int),
        decreases v.len() - i,
    {
        s.push(v[i]);
        i += 1;
    }
    s
}

/// The views of a sequence of strings.
pub open spec fn views(strings: Seq<String>) -> Seq<Seq<char>> {
    Seq::new(strings.len(), |i: int| strings[i]@)
}

/// Whether `c` has the Unicode property `White_Space`.
pub open spec fn is_whitespace(c: char) -> bool {
    ||| '\u{9}' <= c <= '\u{d}'
    ||| c == ' '
    ||| c == '\u{85}'
    ||| c == '\u{a0}'
    ||| c == '\u{1680}'
    ||| '\u{2000}' <= c <= '\u{200a}'
    ||| c == '\u{2028}'
    ||| c == '\u{2029}'
    ||| c == '\u{202f}'
    ||| c == '\u{205f}'
    ||| c == '\u{3000}'
}

/// Whether `c` is white space.
pub fn is_space(c: char) -> (b: bool)
    ensures
        b == is_whitespace(c),
{
    ('\u{9}' <= c && c <= '\u{d}') || c == ' ' || c == '\u{85}' || c == '\u{a0}' || c
        == '\u{1680}' || ('\u{2000}' <= c && c <= '\u{200a}') || c == '\u{2028}' || c
        == '\u{2029}' || c == '\u{202f}' || c == '\u{205f}' || c == '\u{3000}'
}

/// `s` without its leading white space.
pub open spec fn trim_start(s: Seq<char>) -> Seq<char>
    decreases s.len(),
{
    if s.len() > 0 && is_whitespace(s[0]) {
        trim_start(s.drop_first())
    } else {
        s
    }
}

/// `s` without its trailing white space.
pub open spec fn trim_end(s: Seq<char>) -> Seq<char>
    decreases s.len(),
{
    if s.len() > 0 && is_whitespace(s.last()) {
        trim_end(s.drop_last())
    } else {
        s
    }
}

/// `s` without leading and trailing white space.
pub open spec fn trim(s: Seq<char>) -> Seq<char> {
    trim_end(trim_start(s))
}

/// Skipping `k` leading white-space characters does not change what `trim_start` gives.
pub proof fn lemma_trim_start_skip(s: Seq<char>, k: int)
    requires
        0 <= k <= s.len(),
        forall|i: int| 0 <= i < k ==> is_whitespace(s[i]),
    ensures
        trim_start(s) == trim_start(s.skip(k)),
    decreases k,
{
    if k == 0 {
        assert(s.skip(0) == s);
    } else {
        assert(s.drop_first().skip(k - 1) == s.skip(k));
        lemma_trim_start_skip(s.drop_first(), k - 1);
    }
}

/// Dropping trailing white space down to length `k` does not change what `trim_end` gives.
pub proof fn lemma_trim_end_take(s: Seq<char>, k: int)
    requires
        0 <= k <= s.len(),
        forall|i: int| k <= i < s.len() ==> is_whitespace(s[i]),
    ensures
        trim_end(s) == trim_end(s.take(k)),
    decreases s.len() - k,
{
    if k == s.len() {
        assert(s.take(k) == s);
    } else {
        assert(s.drop_last().take(k) == s.take(k));
        lemma_trim_end_take(s.drop_last(), k);
    }
}

/// A copy of the characters of `v` from `from` up to `to`.
pub fn slice(v: &Vec<char>, from: usize, to: usize) -> (r: Vec<char>)
    requires
        from <= to <= v.len(),
    ensures
        r@ == v@.subrange(from as int, to as int),
{
    let mut r: Vec<char> = Vec::new();
    let mut i: usize = from;
    while i < to
        invariant
            from <= i <= to <= v.len(),
            r@ == v@.subrange(from as int, i as int),
        decreases to - i,
    {
        r.push(v[i]);
        i += 1;
    }
    r
}

/// Appends the characters of `tail` to `head`.
pub fn append(head: &mut Vec<char>, tail: &Vec<char>)
    ensures
        final(head)@ == old(head)@ + tail@,
{
    let mut i: usize = 0;
    while i < tail.len()
        invariant
            i <= tail.len(),
            head@ == old(head)@ + tail@.take(i as int),
        decreases tail.len() - i,
    {
        head.push(tail[i]);
        i += 1;
    }
    assert(tail@.take(tail.len() as int) == tail@);
}

/// Removes leading and trailing white space.
pub fn trimmed(v: &Vec<char>) -> (r: Vec<char>)
    ensures
        r@ == trim(v@),
{
    let mut start: usize = 0;
    while start < v.len() && is_space(v[start])
        invariant
            start <= v.len(),
            forall|i: int| 0 <= i < start ==> is_whitespace(v@[i]),
        decreases v.len() - start,
    {
        start += 1;
    }
    let mut end: usize = v.len();
    while end > start && is_space(v[end - 1])
        invariant
            start <= end <= v.len(),
            forall|i: int| end <= i < v.len() ==> is_whitespace(v@[i]),
        decreases end,
    {
        end -= 1;
    }
    proof {
        let rest = v@.skip(start as int);
        lemma_trim_start_skip(v@, start as int);
        assert(trim_start(rest) == rest);
        lemma_trim_end_take(rest, end - start);
        assert(rest.take(end - start) == v@.subrange(start as int, end as int));
        assert(trim_end(rest.take(end - start)) == rest.take(end - start));
    }
    slice(v, start, end)
}

/// Whether two texts hold the same characters.
pub fn same(a: &Vec<char>, b: &Vec<char>) -> (r: bool)
    ensures
        r == (a@ == b@),
{
    if a.len() != b.len() {
        return false;
    }
    let mut i: usize = 0;
    while i < a.len()
        invariant
            i <= a.len(),
            a.len() == b.len(),
            a@.take(i as int) == b@.take(i as int),
        decreases a.len() - i,
    {
        if a[i] != b[i] {
            return false;
        }
        assert(a@.take(i + 1) == a@.take(i as int).push(a@[i as int]));
        assert(b@.take(i + 1) == b@.take(i as int).push(b@[i as int]));
        i += 1;
    }
    assert(a@.take(a.len() as int) == a@);
    assert(b@.take(b.len() as int) == b@);
    true
}

/// Whether `pattern` stands in `s` at index `i`.
pub open spec fn occurs_at(s: Seq<char>, pattern: Seq<char>, i: int) -> bool {
    0 <= i && i + pattern.len() <= s.len() && s.subrange(i, i + pattern.len()) == pattern
}

/// Whether `pattern` stands somewhere in `s`.
pub open spec fn contains(s: Seq<char>, pattern: Seq<char>) -> bool {
    exists|i: int| occurs_at(s, pattern, i)
}

/// Whether `pattern` stands in `s` at index `i`.
pub fn matches_at(s: &Vec<char>, pattern: &Vec<char>, i: usize) -> (r: bool)
    ensures
        r == occurs_at(s@, pattern@, i as int),
{
    if i > s.len() || pattern.len() > s.len() - i {
        return false;
    }
    let mut k: usize = 0;
    while k < pattern.len()
        invariant
            k <= pattern.len(),
            i + pattern.len() <= s.len(),
            s@.subrange(i as int, i + k) == pattern@.take(k as int),
        decreases pattern.len() - k,
    {
        if s[i + k] != pattern[k] {
            assert(s@.subrange(i as int, i + pattern.len())[k as int] != pattern@[k as int]);
            return false;
        }
        assert(s@.subrange(i as int, i + k + 1) == s@.subrange(i as int, i + k).push(
            s@[i + k],
        ));
        assert(pattern@.take(k + 1) == pattern@.take(k as int).push(pattern@[k as int]));
        k += 1;
    }
    assert(pattern@.take(pattern.len() as int) == pattern@);
    true
}

/// Whether `s` begins with `pattern`.
pub fn starts_with(s: &Vec<char>, pattern: &Vec<char>) -> (r: bool)
    ensures
        r == pattern@.is_prefix_of(s@),
{
    let r = matches_at(s, pattern, 0);
    assert(r == pattern@.is_prefix_of(s@)) by {
        if r {
            assert(s@.subrange(0, pattern@.len() as int) == pattern@);
        }
        if pattern@.is_prefix_of(s@) {
            assert(s@.subrange(0, pattern@.len() as int) == pattern@);
        }
    }
    r
}

/// Whether `pattern` stands somewhere in `s`.
pub fn includes(s: &Vec<char>, pattern: &Vec<char>) -> (r: bool)
    ensures
        r == contains(s@, pattern@),
{
    let mut i: usize = 0;
    while i < s.len()
        invariant
            i <= s.len(),
            forall|j: int| 0 <= j < i ==> !occurs_at(s@, pattern@, j),
        decreases s.len() - i,
    {
        if matches_at(s, pattern, i) {
            return true;
        }
        i += 1;
    }
    matches_at(s, pattern, i)
}

/// `s` with every occurrence of `pattern` replaced by `with`, the occurrences
/// taken from the left and not overlapping. An empty pattern replaces nothing.
pub open spec fn replace(s: Seq<char>, pattern: Seq<char>, with: Seq<char>) -> Seq<char>
    decreases s.len(),
{
    if pattern.len() == 0 || s.len() < pattern.len() {
        s
    } else if pattern.is_prefix_of(s) {
        with + replace(s.skip(pattern.len() as int), pattern, with)
    } else {
        seq![s[0]] + replace(s.skip(1), pattern, with)
    }
}

/// A text without an occurrence of `pattern` is left as it is.
pub proof fn lemma_replace_absent(s: Seq<char>, pattern: Seq<char>, with: Seq<char>)
    requires
        !contains(s, pattern),
    ensures
        replace(s, pattern, with) == s,
    decreases s.len(),
{
    if pattern.len() == 0 || s.len() < pattern.len() {
    } else {
        if pattern.is_prefix_of(s) {
            assert(s.subrange(0, pattern.len() as int) == pattern);
            assert(occurs_at(s, pattern, 0));
        }
        assert(!contains(s.skip(1), pattern)) by {
            if contains(s.skip(1), pattern) {
                let i = choose|i: int| occurs_at(s.skip(1), pattern, i);
                assert(s.skip(1).subrange(i, i + pattern.len()) == s.subrange(
                    i + 1,
                    i + 1 + pattern.len(),
                ));
                assert(occurs_at(s, pattern, i + 1));
            }
        }
        lemma_replace_absent(s.skip(1), pattern, with);
        assert(seq![s[0]] + s.skip(1) == s);
    }
}

/// Replaces every occurrence of `pattern` in `s` by `with`.
pub fn replaced(s: &Vec<char>, pattern: &Vec<char>, with: &Vec<char>) -> (r: Vec<char>)
    ensures
        r@ == replace(s@, pattern@, with@),
{
    let mut out: Vec<char> = Vec::new();
    let mut i: usize = 0;
    if pattern.len() == 0 {
        assert(s@.subrange(0, s.len() as int) == s@);
        return slice(s, 0, s.len());
    }
    assert(s@.skip(0) == s@);
    while i < s.len()
        invariant
            i <= s.len(),
            pattern.len() > 0,
            out@ + replace(s@.skip(i as int), pattern@, with@) == replace(s@, pattern@, with@),
        decreases s.len() - i,
    {
        let ghost rest = s@.skip(i as int);
        let ghost before = out@;
        if matches_at(s, pattern, i) {
            proof {
                assert(rest.subrange(0, pattern.len() as int) == s@.subrange(
                    i as int,
                    i + pattern.len(),
                ));
                assert(pattern@.is_prefix_of(rest));
                assert(rest.skip(pattern.len() as int) == s@.skip(i + pattern.len()));
            }
            append(&mut out, with);
            i += pattern.len();
            assert(before + (with@ + replace(s@.skip(i as int), pattern@, with@)) == (before
                + with@) + replace(s@.skip(i as int), pattern@, with@));
        } else {
            proof {
                assert(rest.skip(1) == s@.skip(i + 1));
                if rest.len() < pattern.len() {
                    assert(replace(rest.skip(1), pattern@, with@) == rest.skip(1));
                    assert(seq![rest[0]] + rest.skip(1) == rest);
                } else {
                    if pattern@.is_prefix_of(rest) {
                        assert(rest.subrange(0, pattern.len() as int) == s@.subrange(
                            i as int,
                            i + pattern.len(),
                        ));
                    }
                }
                assert(replace(rest, pattern@, with@) == seq![rest[0]] + replace(
                    rest.skip(1),
                    pattern@,
                    with@,
                ));
            }
            out.push(s[i]);
            i += 1;
            assert(before + (seq![rest[0]] + replace(s@.skip(i as int), pattern@, with@))
                == before.push(rest[0]) + replace(s@.skip(i as int), pattern@, with@));
        }
    }
    assert(s@.skip(s.len() as int).len() == 0);
    out
}

/// Whether two strings hold the same characters.
pub fn same_str(a: &str, b: &str) -> (r: bool)
    ensures
        r == (a@ == b@),
{
    let a = chars_of(a);
    let b = chars_of(b);
    same(&a, &b)
}

/// A copy of `s`.
pub fn copy_str(s: &str) -> (r: String)
    ensures
        r@ == s@,
{
    let chars = chars_of(s);
    string_of(&chars)
}

/// A copy of a list of strings.
pub fn copy_strings(strings: &Vec<String>) -> (r: Vec<String>)
    ensures
        views(r@) == views(strings@),
{
    let mut r: Vec<String> = Vec::new();
    let mut i: usize = 0;
    while i < strings.len()
        invariant
            i <= strings.len(),
            r.len() == i,
            forall|j: int| 0 <= j < i ==> r@[j]@ == strings@[j]@,
        decreases strings.len() - i,
    {
        r.push(copy_str(strings[i].as_str()));
        i += 1;
    }
    assert(views(r@) =~= views(strings@));
    r
}

/// Whether `name` is among `strings`.
pub fn lists(strings: &Vec<String>, name: &str) -> (r: bool)
    ensures
        r == views(strings@).contains(name@),
{
    let mut i: usize = 0;
    while i < strings.len()
        invariant
            i <= strings.len(),
            forall|j: int| 0 <= j < i ==> views(strings@)[j] != name@,
        decreases strings.len() - i,
    {
        if same_str(strings[i].as_str(), name) {
            assert(views(strings@)[i as int] == name@);
            return true;
        }
        i += 1;
    }
    false
}

/// The index of the first character of `s` that is `a` or `b`, or the length
/// of `s` where there is none.
pub open spec fn first_of(s: Seq<char>, a: char, b: char) -> int
    decreases s.len(),
{
    if s.len() == 0 || s[0] == a || s[0] == b {
        0
    } else {
        1 + first_of(s.skip(1), a, b)
    }
}

/// Where no character before index `i` is `a` or `b`, and `i` is the end of
/// `s` or such a character stands there, `i` is the first such index.
pub proof fn lemma_first_of(s: Seq<char>, a: char, b: char, i: int)
    requires
        0 <= i <= s.len(),
        forall|j: int| 0 <= j < i ==> s[j] != a && s[j] != b,
        i == s.len() || s[i] == a || s[i] == b,
    ensures
        first_of(s, a, b) == i,
    decreases i,
{
    if i > 0 {
        lemma_first_of(s.skip(1), a, b, i - 1);
    }
}

/// The index of the first character of `s` that is `a` or `b`.
pub fn find_first(s: &Vec<char>, a: char, b: char) -> (i: usize)
    ensures
        i == first_of(s@, a, b),
        i <= s.len(),
{
    let mut i: usize = 0;
    while i < s.len() && s[i] != a && s[i] != b
        invariant
            i <= s.len(),
            forall|j: int| 0 <= j < i ==> s@[j] != a && s@[j] != b,
        decreases s.len() - i,
    {
        i += 1;
    }
    proof {
        lemma_first_of(s@, a, b, i as int);
    }
    i
}

/// The index that `first_of` gives lies within `s`.
pub proof fn lemma_first_of_bounds(s: Seq<char>, a: char, b: char)
    ensures
        0 <= first_of(s, a, b) <= s.len(),
    decreases s.len(),
{
    if s.len() == 0 || s[0] == a || s[0] == b {
    } else {
        lemma_first_of_bounds(s.skip(1), a, b);
    }
}

} // verus!
