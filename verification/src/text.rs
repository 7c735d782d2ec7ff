//! Character-level text operations, stated over `Seq<char>`.
//!
//! Executable code works on `Vec<char>`; [`chars_of`] and [`string_of`]
//! convert from and to Rust strings.

use vstd::prelude::*;

verus! {

/// `String::push` appends one character to the end of the string.
pub assume_specification[ String::push ](s: &mut String, c: char)
    ensures
        final(s)@ == old(s)@.push(c),
;

/// The characters of `s`, in order.
pub fn chars_of(s: &str) -> (v: Vec<char>)
    ensures
        v@ == s@,
{
    let mut v: Vec<char> = Vec::new();
    for c in it: s.chars()
        invariant
            v@ == it.seq().take(it.index()),
            it.seq() == s@,
    {
        v.push(c);
    }
    v
}

/// The string made of the characters of `v`, in order.
pub fn string_of(v: &Vec<char>) -> (s: String)
    ensures
        s@ == v@,
{
    let mut s = String::new();
    let mut i: usize = 0;
    while i < v.len()
        invariant
            i <= v.len(),
            s@ == v@.take(i as int),
        decreases v.len() - i,
    {
        s.push(v[i]);
        i += 1;
    }
    s
}

/// Whether `a` and `b` hold the same characters.
pub fn same_text(a: &str, b: &str) -> (r: bool)
    ensures
        r == (a@ == b@),
{
    let x = chars_of(a);
    let y = chars_of(b);
    same_chars(&x, &y)
}

/// Whether `a` and `b` hold the same characters.
pub fn same_chars(a: &Vec<char>, b: &Vec<char>) -> (r: bool)
    ensures
        r == (a@ == b@),
{
    if a.len() != b.len() {
        return false;
    }
    let mut i: usize = 0;
    while i < a.len()
        invariant
            i <= a.len(),
            a.len() == b.len(),
            a@.take(i as int) == b@.take(i as int),
        decreases a.len() - i,
    {
        if a[i] != b[i] {
            return false;
        }
        assert(a@.take(i + 1) == a@.take(i as int).push(a@[i as int]));
        assert(b@.take(i + 1) == b@.take(i as int).push(b@[i as int]));
        i += 1;
    }
    assert(a@ == a@.take(a.len() as int));
    assert(b@ == b@.take(b.len() as int));
    true
}

/// Whether `c` has the Unicode property White_Space.
pub open spec fn is_whitespace(c: char) -> bool {
    let n = c as int;
    ||| 0x09 <= n <= 0x0D
    ||| n == 0x20
    ||| n == 0x85
    ||| n == 0xA0
    ||| n == 0x1680
    ||| 0x2000 <= n <= 0x200A
    ||| n == 0x2028
    ||| n == 0x2029
    ||| n == 0x202F
    ||| n == 0x205F
    ||| n == 0x3000
}

/// Tests `c` for the Unicode property White_Space.
pub fn is_whitespace_char(c: char) -> (r: bool)
    ensures
        r == is_whitespace(c),
{
    let n: u32 = code_point(c);
    (0x09 <= n && n <= 0x0D) || n == 0x20 || n == 0x85 || n == 0xA0 || n == 0x1680 || (0x2000 <= n
        && n <= 0x200A) || n == 0x2028 || n == 0x2029 || n == 0x202F || n == 0x205F || n == 0x3000
}

/// `s` without its leading whitespace.
pub open spec fn trim_start(s: Seq<char>) -> Seq<char>
    decreases s.len(),
{
    if s.len() > 0 && is_whitespace(s[0]) {
        trim_start(s.skip(1))
    } else {
        s
    }
}

/// `s` without its trailing whitespace.
pub open spec fn trim_end(s: Seq<char>) -> Seq<char>
    decreases s.len(),
{
    if s.len() > 0 && is_whitespace(s.last()) {
        trim_end(s.drop_last())
    } else {
        s
    }
}

/// `s` without its leading and trailing whitespace.
pub open spec fn trimmed(s: Seq<char>) -> Seq<char> {
    trim_end(trim_start(s))
}

/// Removes leading and trailing whitespace.
pub fn trim(text: &Vec<char>) -> (r: Vec<char>)
    ensures
        r@ == trimmed(text@),
{
    let n = text.len();
    let mut start: usize = 0;
    assert(text@.skip(0) == text@);
    while start < n && is_whitespace_char(text[start])
        invariant
            start <= n,
            n == text.len(),
            trim_start(text@) == trim_start(text@.skip(start as int)),
        decreases n - start,
    {
        assert(text@.skip(start as int).skip(1) == text@.skip(start + 1));
        start += 1;
    }
    assert(trim_start(text@) == text@.skip(start as int));
    assert(text@.skip(start as int) == text@.subrange(start as int, n as int));
    let mut end: usize = n;
    while end > start && is_whitespace_char(text[end - 1])
        invariant
            start <= end <= n,
            n == text.len(),
            trimmed(text@) == trim_end(text@.subrange(start as int, end as int)),
        decreases end,
    {
        assert(text@.subrange(start as int, end as int).drop_last() == text@.subrange(
            start as int,
            end - 1,
        ));
        end -= 1;
    }
    let mut r: Vec<char> = Vec::new();
    let mut i: usize = start;
    while i < end
        invariant
            start <= i <= end <= n,
            n == text.len(),
            r@ == text@.subrange(start as int, i as int),
        decreases end - i,
    {
        r.push(text[i]);
        assert(text@.subrange(start as int, i + 1) == text@.subrange(start as int, i as int).push(
            text@[i as int],
        ));
        i += 1;
    }
    r
}

/// Whether `s` begins with `prefix`.
pub open spec fn starts_with(s: Seq<char>, prefix: Seq<char>) -> bool {
    prefix.len() <= s.len() && s.subrange(0, prefix.len() as int) == prefix
}

/// Whether `pattern` occurs in `s` as a run of consecutive characters.
pub open spec fn contains(s: Seq<char>, pattern: Seq<char>) -> bool {
    exists|i: int| 0 <= i <= s.len() && #[trigger] starts_with(s.skip(i), pattern)
}

/// Whether `pattern` stands in `text` at position `at`.
pub fn matches_at(text: &Vec<char>, at: usize, pattern: &Vec<char>) -> (r: bool)
    ensures
        r == (at <= text.len() && starts_with(text@.skip(at as int), pattern@)),
{
    let m = pattern.len();
    if at > text.len() || m > text.len() - at {
        return false;
    }
    let ghost rest = text@.skip(at as int);
    let mut k: usize = 0;
    while k < m
        invariant
            k <= m,
            m == pattern.len(),
            at + m <= text.len(),
            rest == text@.skip(at as int),
            rest.subrange(0, k as int) == pattern@.subrange(0, k as int),
        decreases m - k,
    {
        if text[at + k] != pattern[k] {
            assert(rest.subrange(0, m as int)[k as int] != pattern@[k as int]);
            return false;
        }
        assert(rest.subrange(0, k + 1) == rest.subrange(0, k as int).push(rest[k as int]));
        assert(pattern@.subrange(0, k + 1) == pattern@.subrange(0, k as int).push(
            pattern@[k as int],
        ));
        k += 1;
    }
    assert(pattern@.subrange(0, m as int) == pattern@);
    true
}

/// Whether `text` begins with `prefix`.
pub fn has_prefix(text: &Vec<char>, prefix: &Vec<char>) -> (r: bool)
    ensures
        r == starts_with(text@, prefix@),
{
    assert(text@.skip(0) == text@);
    matches_at(text, 0, prefix)
}

/// Whether `pattern` occurs in `text`.
pub fn has_occurrence(text: &Vec<char>, pattern: &Vec<char>) -> (r: bool)
    ensures
        r == contains(text@, pattern@),
{
    let mut i: usize = 0;
    while i <= text.len()
        invariant
            i <= text.len() + 1,
            forall|j: int| 0 <= j < i ==> !#[trigger] starts_with(text@.skip(j), pattern@),
        decreases text.len() + 1 - i,
    {
        if matches_at(text, i, pattern) {
            return true;
        }
        if i == text.len() {
            return false;
        }
        i += 1;
    }
    false
}

/// `s` with every occurrence of `from` replaced by `to`, taking occurrences
/// from left to right without overlap. An empty `from` replaces nothing.
pub open spec fn replaced(s: Seq<char>, from: Seq<char>, to: Seq<char>) -> Seq<char>
    decreases s.len(),
{
    if from.len() == 0 || s.len() == 0 {
        s
    } else if starts_with(s, from) {
        to + replaced(s.skip(from.len() as int), from, to)
    } else {
        seq![s[0]] + replaced(s.skip(1), from, to)
    }
}

/// Replaces every occurrence of `from` in `text` by `to`.
pub fn replace_all(text: &Vec<char>, from: &Vec<char>, to: &Vec<char>) -> (r: Vec<char>)
    ensures
        r@ == replaced(text@, from@, to@),
{
    let n = text.len();
    let m = from.len();
    let mut r: Vec<char> = Vec::new();
    let mut i: usize = 0;
    assert(text@.skip(0) == text@);
    while i < n
        invariant
            i <= n,
            n == text.len(),
            m == from.len(),
            replaced(text@, from@, to@) == r@ + replaced(text@.skip(i as int), from@, to@),
        decreases n - i,
    {
        let ghost rest = text@.skip(i as int);
        let ghost before = r@;
        if m > 0 && matches_at(text, i, from) {
            let mut k: usize = 0;
            while k < to.len()
                invariant
                    k <= to.len(),
                    r@ == before + to@.subrange(0, k as int),
                decreases to.len() - k,
            {
                r.push(to[k]);
                assert(to@.subrange(0, k + 1) == to@.subrange(0, k as int).push(to@[k as int]));
                k += 1;
            }
            assert(to@.subrange(0, to.len() as int) == to@);
            assert(rest.skip(m as int) == text@.skip(i + m));
            assert(replaced(rest, from@, to@) == to@ + replaced(rest.skip(m as int), from@, to@));
            assert(before + (to@ + replaced(rest.skip(m as int), from@, to@)) == (before + to@)
                + replaced(rest.skip(m as int), from@, to@));
            i += m;
        } else {
            r.push(text[i]);
            assert(rest.skip(1) == text@.skip(i + 1));
            assert(replaced(rest, from@, to@) == seq![rest[0]] + replaced(
                rest.skip(1),
                from@,
                to@,
            )) by {
                if m == 0 {
                    lemma_replaced_nothing(rest.skip(1), to@);
                    assert(seq![rest[0]] + rest.skip(1) == rest);
                }
            }
            assert(before + (seq![rest[0]] + replaced(rest.skip(1), from@, to@)) == before.push(
                rest[0],
            ) + replaced(rest.skip(1), from@, to@));
            i += 1;
        }
    }
    assert(replaced(text@.skip(n as int), from@, to@) == Seq::<char>::empty());
    assert(r@ + Seq::<char>::empty() == r@);
    r
}

/// Replacing an empty pattern leaves the text as it is.
pub proof fn lemma_replaced_nothing(s: Seq<char>, to: Seq<char>)
    ensures
        replaced(s, Seq::<char>::empty(), to) == s,
{
}

/// The position of the first `c` in `s`.
pub open spec fn first_index_of(s: Seq<char>, c: char) -> Option<int>
    decreases s.len(),
{
    if s.len() == 0 {
        None
    } else if s[0] == c {
        Some(0int)
    } else {
        match first_index_of(s.skip(1), c) {
            Some(i) => Some(i + 1),
            None => None,
        }
    }
}

/// Whether `s` starts with a tag: a `<` with a `>` somewhere behind it.
pub open spec fn starts_with_tag(s: Seq<char>) -> bool {
    &&& s.len() > 0
    &&& s[0] == '<'
    &&& first_index_of(s, '>') is Some
    &&& 0 <= first_index_of(s, '>')->0 < s.len()
}

/// `s` with each tag replaced by one space. A tag reaches from a `<` to the
/// next `>`; a `<` with no `>` behind it is no tag and stays.
pub open spec fn tags_replaced(s: Seq<char>) -> Seq<char>
    decreases s.len(),
{
    if s.len() == 0 {
        s
    } else if starts_with_tag(s) {
        seq![' '] + tags_replaced(s.skip(first_index_of(s, '>')->0 + 1))
    } else {
        seq![s[0]] + tags_replaced(s.skip(1))
    }
}

/// A position, where there is one, moved `by` places to the right.
pub open spec fn shifted(found: Option<int>, by: int) -> Option<int> {
    match found {
        Some(i) => Some(i + by),
        None => None,
    }
}

/// The first `c` of a text lies within the text.
pub proof fn lemma_first_index_of_bounds(s: Seq<char>, c: char)
    ensures
        first_index_of(s, c) matches Some(i) ==> 0 <= i < s.len() && s[i] == c,
    decreases s.len(),
{
    if s.len() > 0 && s[0] != c {
        lemma_first_index_of_bounds(s.skip(1), c);
    }
}

/// Finds the first `c` in `text` at or behind `from`.
pub fn find_first(text: &Vec<char>, from: usize, c: char) -> (r: Option<usize>)
    ensures
        from > text.len() ==> r is None,
        from <= text.len() ==> {
            &&& r is Some == first_index_of(text@.skip(from as int), c) is Some
            &&& r matches Some(i) ==> from <= i < text.len() && first_index_of(
                text@.skip(from as int),
                c,
            ) == Some(i - from)
        },
{
    if from > text.len() {
        return None;
    }
    let mut at: usize = from;
    while at < text.len()
        invariant
            from <= at <= text.len(),
            first_index_of(text@.skip(from as int), c) == shifted(
                first_index_of(text@.skip(at as int), c),
                at - from,
            ),
        decreases text.len() - at,
    {
        assert(text@.skip(at as int).skip(1) == text@.skip(at + 1));
        if text[at] == c {
            return Some(at);
        }
        at += 1;
    }
    None
}

/// Replaces each tag by one space.
pub fn replace_tags(text: &Vec<char>) -> (r: Vec<char>)
    ensures
        r@ == tags_replaced(text@),
{
    let n = text.len();
    let mut r: Vec<char> = Vec::new();
    let mut at: usize = 0;
    assert(text@.skip(0) == text@);
    while at < n
        invariant
            at <= n,
            n == text.len(),
            tags_replaced(text@) == r@ + tags_replaced(text@.skip(at as int)),
        decreases n - at,
    {
        let ghost rest = text@.skip(at as int);
        let ghost before = r@;
        let close = if text[at] == '<' {
            find_first(text, at, '>')
        } else {
            None
        };
        proof {
            lemma_first_index_of_bounds(rest, '>');
        }
        match close {
            Some(end) => {
                r.push(' ');
                assert(rest.skip(end - at + 1) == text@.skip(end + 1));
                assert(before + (seq![' '] + tags_replaced(text@.skip(end + 1))) == before.push(' ')
                    + tags_replaced(text@.skip(end + 1)));
                at = end + 1;
            },
            None => {
                r.push(text[at]);
                assert(rest.skip(1) == text@.skip(at + 1));
                assert(before + (seq![rest[0]] + tags_replaced(rest.skip(1))) == before.push(
                    rest[0],
                ) + tags_replaced(rest.skip(1)));
                at += 1;
            },
        }
    }
    assert(r@ + Seq::<char>::empty() == r@);
    r
}

/// `s` with each run of whitespace replaced by one space.
pub open spec fn collapse_whitespace(s: Seq<char>) -> Seq<char>
    decreases s.len(),
{
    if s.len() == 0 {
        s
    } else if is_whitespace(s[0]) {
        if s.len() > 1 && is_whitespace(s[1]) {
            collapse_whitespace(s.skip(1))
        } else {
            seq![' '] + collapse_whitespace(s.skip(1))
        }
    } else {
        seq![s[0]] + collapse_whitespace(s.skip(1))
    }
}

/// Whether no two whitespace characters stand side by side in `s`.
pub open spec fn has_single_spaces(s: Seq<char>) -> bool {
    forall|i: int| 0 <= i < s.len() - 1 ==> !(is_whitespace(#[trigger] s[i]) && is_whitespace(s[i + 1]))
}

/// Whether `s` neither starts nor ends with whitespace.
pub open spec fn is_trimmed(s: Seq<char>) -> bool {
    s.len() > 0 ==> !is_whitespace(s[0]) && !is_whitespace(s.last())
}

/// A collapsed text starts with the character that the text starts with,
/// or with a space where that is whitespace.
pub proof fn lemma_collapse_start(s: Seq<char>)
    requires
        s.len() > 0,
    ensures
        collapse_whitespace(s).len() > 0,
        collapse_whitespace(s)[0] == if is_whitespace(s[0]) {
            ' '
        } else {
            s[0]
        },
    decreases s.len(),
{
    if is_whitespace(s[0]) && s.len() > 1 && is_whitespace(s[1]) {
        lemma_collapse_start(s.skip(1));
    }
}

/// In a collapsed text no two whitespace characters stand side by side.
pub proof fn lemma_collapse_has_single_spaces(s: Seq<char>)
    ensures
        has_single_spaces(collapse_whitespace(s)),
    decreases s.len(),
{
    if s.len() > 0 {
        let rest = collapse_whitespace(s.skip(1));
        let all = collapse_whitespace(s);
        lemma_collapse_has_single_spaces(s.skip(1));
        if !(is_whitespace(s[0]) && s.len() > 1 && is_whitespace(s[1])) {
            assert(all == seq![all[0]] + rest);
            if s.len() > 1 {
                lemma_collapse_start(s.skip(1));
            }
            assert forall|i: int| 0 <= i < all.len() - 1 implies !(is_whitespace(#[trigger] all[i])
                && is_whitespace(all[i + 1])) by {
                if i > 0 {
                    assert(all[i] == rest[i - 1] && all[i + 1] == rest[i]);
                } else {
                    assert(all[1] == rest[0]);
                }
            }
        }
    }
}

/// Trimming the start leaves a text that does not start with whitespace,
/// and keeps whitespace single.
pub proof fn lemma_trim_start_is_tidy(s: Seq<char>)
    ensures
        trim_start(s).len() > 0 ==> !is_whitespace(trim_start(s)[0]),
        has_single_spaces(s) ==> has_single_spaces(trim_start(s)),
    decreases s.len(),
{
    if s.len() > 0 && is_whitespace(s[0]) {
        lemma_trim_start_is_tidy(s.skip(1));
        if has_single_spaces(s) {
            assert forall|i: int| 0 <= i < s.skip(1).len() - 1 implies !(is_whitespace(
                #[trigger] s.skip(1)[i],
            ) && is_whitespace(s.skip(1)[i + 1])) by {
                assert(s.skip(1)[i] == s[i + 1] && s.skip(1)[i + 1] == s[i + 2]);
            }
        }
    }
}

/// Trimming the end leaves a text that does not end with whitespace, keeps
/// whitespace single, and keeps a start that is no whitespace.
pub proof fn lemma_trim_end_is_tidy(s: Seq<char>)
    ensures
        trim_end(s).len() > 0 ==> !is_whitespace(trim_end(s).last()),
        has_single_spaces(s) ==> has_single_spaces(trim_end(s)),
        s.len() > 0 && !is_whitespace(s[0]) ==> trim_end(s).len() > 0 && trim_end(s)[0] == s[0],
    decreases s.len(),
{
    if s.len() > 0 && is_whitespace(s.last()) {
        lemma_trim_end_is_tidy(s.drop_last());
        if has_single_spaces(s) {
            assert forall|i: int| 0 <= i < s.drop_last().len() - 1 implies !(is_whitespace(
                #[trigger] s.drop_last()[i],
            ) && is_whitespace(s.drop_last()[i + 1])) by {
                assert(s.drop_last()[i] == s[i] && s.drop_last()[i + 1] == s[i + 1]);
            }
        }
    }
}

/// A text that was collapsed and trimmed neither starts nor ends with
/// whitespace, and no two whitespace characters stand side by side in it.
pub proof fn lemma_collapsed_and_trimmed_is_tidy(s: Seq<char>)
    ensures
        is_trimmed(trimmed(collapse_whitespace(s))),
        has_single_spaces(trimmed(collapse_whitespace(s))),
{
    let collapsed = collapse_whitespace(s);
    lemma_collapse_has_single_spaces(s);
    lemma_trim_start_is_tidy(collapsed);
    lemma_trim_end_is_tidy(trim_start(collapsed));
}

/// Whether `m` holds no whitespace.
pub open spec fn has_no_whitespace(m: Seq<char>) -> bool {
    forall|i: int| 0 <= i < m.len() ==> !is_whitespace(#[trigger] m[i])
}

/// A text starts with `m` where it starts with the first character of `m`
/// and goes on with the rest of `m`.
pub proof fn lemma_starts_with_step(s: Seq<char>, m: Seq<char>)
    requires
        m.len() > 0,
    ensures
        starts_with(s, m) == (s.len() > 0 && s[0] == m[0] && starts_with(s.skip(1), m.skip(1))),
{
    if starts_with(s, m) {
        assert(s[0] == s.subrange(0, m.len() as int)[0]);
        assert(s.skip(1).subrange(0, m.len() - 1) =~= s.subrange(0, m.len() as int).skip(1));
    }
    if s.len() > 0 && s[0] == m[0] && starts_with(s.skip(1), m.skip(1)) {
        assert(s.subrange(0, m.len() as int) =~= seq![s[0]] + s.skip(1).subrange(
            0,
            m.len() - 1,
        ));
        assert(m =~= seq![m[0]] + m.skip(1));
    }
}

/// What does not occur in a text does not occur in what is left of it
/// behind any place.
pub proof fn lemma_absent_behind(s: Seq<char>, m: Seq<char>, k: int)
    requires
        0 <= k <= s.len(),
        !contains(s, m),
    ensures
        !contains(s.skip(k), m),
{
    assert forall|p: int| 0 <= p <= s.skip(k).len() implies !#[trigger] starts_with(
        s.skip(k).skip(p),
        m,
    ) by {
        assert(s.skip(k).skip(p) == s.skip(k + p));
        assert(!starts_with(s.skip(k + p), m));
    }
}

/// What occurs in a text behind its first character, and what stands at its
/// start, occurs in it.
pub proof fn lemma_absent_by_parts(s: Seq<char>, rest: Seq<char>, m: Seq<char>)
    requires
        s.len() > 0,
        rest == s.skip(1),
        !starts_with(s, m),
        !contains(rest, m),
    ensures
        !contains(s, m),
{
    assert forall|p: int| 0 <= p <= s.len() implies !#[trigger] starts_with(s.skip(p), m) by {
        if p == 0 {
            assert(s.skip(0) == s);
        } else {
            assert(s.skip(p) == rest.skip(p - 1));
            assert(!starts_with(rest.skip(p - 1), m));
        }
    }
}

/// Where a text in which `from` was replaced by spaces starts with a mark
/// that holds no whitespace, the text itself starts with it.
pub proof fn lemma_replaced_start(s: Seq<char>, from: Seq<char>, m: Seq<char>)
    requires
        has_no_whitespace(m),
        starts_with(replaced(s, from, seq![' ']), m),
    ensures
        starts_with(s, m),
    decreases m.len(),
{
    let out = replaced(s, from, seq![' ']);
    if m.len() > 0 && from.len() > 0 && s.len() > 0 {
        lemma_starts_with_step(out, m);
        if starts_with(s, from) {
            assert(out[0] == ' ');
            assert(is_whitespace(m[0]));
        } else {
            assert(out.skip(1) == replaced(s.skip(1), from, seq![' ']));
            lemma_replaced_start(s.skip(1), from, m.skip(1));
            lemma_starts_with_step(s, m);
        }
    } else if m.len() == 0 {
        assert(s.subrange(0, 0) =~= m);
    }
}

/// A mark without whitespace does not occur in a text in which it was
/// replaced by spaces; and where another text was replaced, a mark that
/// did not occur before does not occur behind.
pub proof fn lemma_replaced_has_none(s: Seq<char>, from: Seq<char>, m: Seq<char>)
    requires
        m.len() > 0,
        has_no_whitespace(m),
        from == m || !contains(s, m),
    ensures
        !contains(replaced(s, from, seq![' ']), m),
    decreases s.len(),
{
    let out = replaced(s, from, seq![' ']);
    if from.len() == 0 || s.len() == 0 {
        if s.len() == 0 {
            assert forall|p: int| 0 <= p <= out.len() implies !#[trigger] starts_with(
                out.skip(p),
                m,
            ) by {}
        }
    } else if starts_with(s, from) {
        let rest = s.skip(from.len() as int);
        if from != m {
            lemma_absent_behind(s, m, from.len() as int);
        }
        lemma_replaced_has_none(rest, from, m);
        assert(out.skip(1) == replaced(rest, from, seq![' ']));
        if starts_with(out, m) {
            assert(out[0] == ' ');
            assert(out.subrange(0, m.len() as int)[0] == m[0]);
            assert(is_whitespace(m[0]));
        }
        lemma_absent_by_parts(out, replaced(rest, from, seq![' ']), m);
    } else {
        let rest = s.skip(1);
        if from != m {
            lemma_absent_behind(s, m, 1);
        }
        lemma_replaced_has_none(rest, from, m);
        assert(out.skip(1) == replaced(rest, from, seq![' ']));
        if starts_with(out, m) {
            lemma_replaced_start(s, from, m);
            if from != m {
                assert(s.skip(0) == s);
            }
        }
        lemma_absent_by_parts(out, replaced(rest, from, seq![' ']), m);
    }
}

/// Where a text whose tags were replaced starts with a mark that holds no
/// whitespace, the text itself starts with it.
pub proof fn lemma_tags_replaced_start(s: Seq<char>, m: Seq<char>)
    requires
        has_no_whitespace(m),
        starts_with(tags_replaced(s), m),
    ensures
        starts_with(s, m),
    decreases m.len(),
{
    let out = tags_replaced(s);
    if m.len() > 0 && s.len() > 0 {
        lemma_starts_with_step(out, m);
        if starts_with_tag(s) {
            assert(out[0] == ' ');
            assert(is_whitespace(m[0]));
        } else {
            assert(out.skip(1) == tags_replaced(s.skip(1)));
            lemma_tags_replaced_start(s.skip(1), m.skip(1));
            lemma_starts_with_step(s, m);
        }
    } else if m.len() == 0 {
        assert(s.subrange(0, 0) =~= m);
    }
}

/// A mark without whitespace that does not occur in a text does not occur
/// in it when its tags were replaced.
pub proof fn lemma_tags_replaced_has_none(s: Seq<char>, m: Seq<char>)
    requires
        m.len() > 0,
        has_no_whitespace(m),
        !contains(s, m),
    ensures
        !contains(tags_replaced(s), m),
    decreases s.len(),
{
    let out = tags_replaced(s);
    if s.len() == 0 {
        assert forall|p: int| 0 <= p <= out.len() implies !#[trigger] starts_with(
            out.skip(p),
            m,
        ) by {}
    } else {
        let step = if starts_with_tag(s) {
            first_index_of(s, '>')->0 + 1
        } else {
            1
        };
        let rest = s.skip(step);
        lemma_absent_behind(s, m, step);
        lemma_tags_replaced_has_none(rest, m);
        assert(out.skip(1) == tags_replaced(rest));
        if starts_with(out, m) {
            lemma_tags_replaced_start(s, m);
            assert(s.skip(0) == s);
        }
        lemma_absent_by_parts(out, tags_replaced(rest), m);
    }
}

/// Where a collapsed text starts with a mark that holds no whitespace, the
/// text itself starts with it.
pub proof fn lemma_collapse_starts_with(s: Seq<char>, m: Seq<char>)
    requires
        has_no_whitespace(m),
        starts_with(collapse_whitespace(s), m),
    ensures
        starts_with(s, m),
    decreases m.len(),
{
    let out = collapse_whitespace(s);
    if m.len() > 0 && s.len() > 0 {
        lemma_collapse_start(s);
        lemma_starts_with_step(out, m);
        if is_whitespace(s[0]) {
            assert(is_whitespace(m[0]));
        } else {
            assert(out.skip(1) == collapse_whitespace(s.skip(1)));
            lemma_collapse_starts_with(s.skip(1), m.skip(1));
            lemma_starts_with_step(s, m);
        }
    } else if m.len() == 0 {
        assert(s.subrange(0, 0) =~= m);
    }
}

/// A mark without whitespace that does not occur in a text does not occur
/// in the collapsed text.
pub proof fn lemma_collapse_has_none(s: Seq<char>, m: Seq<char>)
    requires
        m.len() > 0,
        has_no_whitespace(m),
        !contains(s, m),
    ensures
        !contains(collapse_whitespace(s), m),
    decreases s.len(),
{
    let out = collapse_whitespace(s);
    if s.len() == 0 {
        assert forall|p: int| 0 <= p <= out.len() implies !#[trigger] starts_with(
            out.skip(p),
            m,
        ) by {}
    } else {
        let rest = s.skip(1);
        lemma_absent_behind(s, m, 1);
        lemma_collapse_has_none(rest, m);
        if !(is_whitespace(s[0]) && s.len() > 1 && is_whitespace(s[1])) {
            assert(out.skip(1) == collapse_whitespace(rest));
            if starts_with(out, m) {
                lemma_collapse_starts_with(s, m);
                assert(s.skip(0) == s);
            }
            lemma_absent_by_parts(out, collapse_whitespace(rest), m);
        }
    }
}

/// What does not occur in a text does not occur in the trimmed text.
pub proof fn lemma_trimmed_has_none(s: Seq<char>, m: Seq<char>)
    requires
        !contains(s, m),
    ensures
        !contains(trimmed(s), m),
{
    lemma_trim_start_has_none(s, m);
    lemma_trim_end_has_none(trim_start(s), m);
}

/// What does not occur in a text does not occur in it without its leading
/// whitespace.
pub proof fn lemma_trim_start_has_none(s: Seq<char>, m: Seq<char>)
    requires
        !contains(s, m),
    ensures
        !contains(trim_start(s), m),
    decreases s.len(),
{
    if s.len() > 0 && is_whitespace(s[0]) {
        lemma_absent_behind(s, m, 1);
        lemma_trim_start_has_none(s.skip(1), m);
    }
}

/// What does not occur in a text does not occur in it without its trailing
/// whitespace.
pub proof fn lemma_trim_end_has_none(s: Seq<char>, m: Seq<char>)
    requires
        !contains(s, m),
    ensures
        !contains(trim_end(s), m),
    decreases s.len(),
{
    if s.len() > 0 && is_whitespace(s.last()) {
        let front = s.drop_last();
        assert forall|p: int| 0 <= p <= front.len() implies !#[trigger] starts_with(
            front.skip(p),
            m,
        ) by {
            if starts_with(front.skip(p), m) {
                assert(s.skip(p).subrange(0, m.len() as int) =~= front.skip(p).subrange(
                    0,
                    m.len() as int,
                ));
                assert(starts_with(s.skip(p), m));
            }
        }
        lemma_trim_end_has_none(front, m);
    }
}

/// Whether `a` comes strictly before `b` in lexicographic order of code points.
pub open spec fn precedes(a: Seq<char>, b: Seq<char>) -> bool
    decreases a.len(),
{
    if b.len() == 0 {
        false
    } else if a.len() == 0 {
        true
    } else if a[0] != b[0] {
        (a[0] as int) < (b[0] as int)
    } else {
        precedes(a.skip(1), b.skip(1))
    }
}

/// The code point of `c`.
pub fn code_point(c: char) -> (n: u32)
    ensures
        n == c as int,
{
    c as u32
}

/// Tests whether `a` comes strictly before `b` in lexicographic order of code points.
pub fn comes_before(a: &Vec<char>, b: &Vec<char>) -> (r: bool)
    ensures
        r == precedes(a@, b@),
{
    let mut i: usize = 0;
    assert(a@.skip(0) == a@ && b@.skip(0) == b@);
    while i < a.len() && i < b.len()
        invariant
            i <= a.len(),
            i <= b.len(),
            precedes(a@, b@) == precedes(a@.skip(i as int), b@.skip(i as int)),
        decreases a.len() - i,
    {
        let x: char = a[i];
        let y: char = b[i];
        if x != y {
            return code_point(x) < code_point(y);
        }
        assert(a@.skip(i as int).skip(1) == a@.skip(i + 1));
        assert(b@.skip(i as int).skip(1) == b@.skip(i + 1));
        i += 1;
    }
    i < b.len()
}

/// No text comes before itself.
pub proof fn lemma_precedes_irreflexive(a: Seq<char>)
    ensures
        !precedes(a, a),
    decreases a.len(),
{
    if a.len() > 0 {
        lemma_precedes_irreflexive(a.skip(1));
    }
}

/// Of two different texts, one comes before the other.
pub proof fn lemma_precedes_total(a: Seq<char>, b: Seq<char>)
    ensures
        a == b || precedes(a, b) || precedes(b, a),
    decreases a.len(),
{
    if a.len() > 0 && b.len() > 0 {
        if a[0] == b[0] {
            lemma_precedes_total(a.skip(1), b.skip(1));
            if a.skip(1) == b.skip(1) {
                assert(a == seq![a[0]] + a.skip(1));
                assert(b == seq![b[0]] + b.skip(1));
            }
        } else {
            assert((a[0] as int) != (b[0] as int));
        }
    } else if a.len() == 0 && b.len() == 0 {
        assert(a == b);
    }
}

/// Two texts never come before each other.
pub proof fn lemma_precedes_asymmetric(a: Seq<char>, b: Seq<char>)
    ensures
        !(precedes(a, b) && precedes(b, a)),
    decreases a.len(),
{
    if a.len() > 0 && b.len() > 0 && a[0] == b[0] {
        lemma_precedes_asymmetric(a.skip(1), b.skip(1));
    }
}

/// The order is transitive.
pub proof fn lemma_precedes_transitive(a: Seq<char>, b: Seq<char>, c: Seq<char>)
    requires
        precedes(a, b),
        precedes(b, c),
    ensures
        precedes(a, c),
    decreases a.len(),
{
    if a.len() > 0 && b.len() > 0 && c.len() > 0 && a[0] == b[0] && b[0] == c[0] {
        lemma_precedes_transitive(a.skip(1), b.skip(1), c.skip(1));
    }
}

} // verus!
