//! Text as sequences of characters: occurrences of a pattern, removal of a
//! pattern, splitting on a separator, and joining of pieces.
//!
//! The spec functions work on `Seq<char>`, the view of `str` and `String`; the
//! executable functions compute them on string slices and character vectors.
use vstd::prelude::*;
use vstd::string::*;

verus! {

/// Text in specifications: the view of `str` and of `String`.
pub type Text = Seq<char>;

/// `pat` stands in `s` at position `i`.
pub open spec fn occurs_at(s: Seq<char>, pat: Seq<char>, i: int) -> bool {
    0 <= i && i + pat.len() <= s.len() && s.subrange(i, i + pat.len()) == pat
}

/// `pat` stands somewhere in `s`.
pub open spec fn has_occurrence(s: Seq<char>, pat: Seq<char>) -> bool {
    exists|i: int| occurs_at(s, pat, i)
}

/// The position of the leftmost occurrence of `pat` in `s` that starts at
/// `from` or later.
pub open spec fn find_from(s: Seq<char>, pat: Seq<char>, from: int) -> Option<int>
    decreases s.len() + 1 - from,
{
    if from < 0 || from + pat.len() > s.len() {
        None
    } else if occurs_at(s, pat, from) {
        Some(from)
    } else {
        find_from(s, pat, from + 1)
    }
}

/// `s` without the occurrences of `pat`, taken from left to right without
/// overlap. An empty pattern removes nothing.
pub open spec fn remove_all(s: Seq<char>, pat: Seq<char>) -> Seq<char>
    decreases s.len(),
{
    if pat.len() == 0 || s.len() < pat.len() {
        s
    } else if occurs_at(s, pat, 0) {
        remove_all(s.skip(pat.len() as int), pat)
    } else {
        seq![s[0]] + remove_all(s.skip(1), pat)
    }
}

/// The pieces of `s` between the occurrences of `sep`, taken from left to
/// right without overlap. There is always at least one piece.
pub open spec fn split_on(s: Seq<char>, sep: Seq<char>) -> Seq<Seq<char>>
    decreases s.len(),
{
    match find_from(s, sep, 0) {
        Some(i) => if sep.len() > 0 && occurs_at(s, sep, i) {
            seq![s.take(i)] + split_on(s.skip(i + sep.len()), sep)
        } else {
            seq![s]
        },
        None => seq![s],
    }
}

/// The pieces one after another, with `sep` between each two.
pub open spec fn join_with(parts: Seq<Seq<char>>, sep: Seq<char>) -> Seq<char>
    decreases parts.len(),
{
    if parts.len() == 0 {
        Seq::empty()
    } else if parts.len() == 1 {
        parts[0]
    } else {
        join_with(parts.drop_last(), sep) + sep + parts.last()
    }
}

/// What `find_from` returns is an occurrence, it is not before `from`, and no
/// occurrence lies between `from` and it.
pub proof fn lemma_find_from(s: Seq<char>, pat: Seq<char>, from: int)
    requires
        0 <= from,
    ensures
        match find_from(s, pat, from) {
            Some(i) => from <= i && occurs_at(s, pat, i) && forall|j: int|
                from <= j < i ==> !occurs_at(s, pat, j),
            None => forall|j: int| from <= j ==> !occurs_at(s, pat, j),
        },
    decreases s.len() + 1 - from,
{
    if from + pat.len() > s.len() {
    } else if occurs_at(s, pat, from) {
    } else {
        lemma_find_from(s, pat, from + 1);
    }
}

/// A search from position 0 finds something exactly when the pattern occurs.
pub proof fn lemma_find_iff_occurs(s: Seq<char>, pat: Seq<char>)
    ensures
        find_from(s, pat, 0) is Some <==> has_occurrence(s, pat),
{
    lemma_find_from(s, pat, 0);
}

/// Searching the rest of `s` after `start` is searching `s` from `start`.
pub proof fn lemma_find_in_rest(s: Seq<char>, pat: Seq<char>, start: int)
    requires
        0 <= start <= s.len(),
    ensures
        find_from(s.skip(start), pat, 0) == match find_from(s, pat, start) {
            Some(i) => Some(i - start),
            None => None,
        },
{
    lemma_find_from(s, pat, start);
    lemma_find_from(s.skip(start), pat, 0);
    assert forall|j: int| 0 <= j implies (occurs_at(s.skip(start), pat, j) <==> occurs_at(
        s,
        pat,
        j + start,
    )) by {
        if 0 <= j && j + pat.len() <= s.len() - start {
            assert(s.skip(start).subrange(j, j + pat.len()) =~= s.subrange(
                j + start,
                j + start + pat.len(),
            ));
        }
    }
    match find_from(s, pat, start) {
        Some(i) => {
            assert(occurs_at(s.skip(start), pat, i - start));
            match find_from(s.skip(start), pat, 0) {
                Some(k) => {
                    assert(occurs_at(s, pat, k + start));
                    if k < i - start {
                        assert(!occurs_at(s, pat, k + start));
                    }
                    if i - start < k {
                        assert(!occurs_at(s.skip(start), pat, i - start));
                    }
                },
                None => {},
            }
        },
        None => {
            match find_from(s.skip(start), pat, 0) {
                Some(k) => {
                    assert(occurs_at(s, pat, k + start));
                },
                None => {},
            }
        },
    }
}

/// Removing a pattern that does not occur changes nothing.
pub proof fn lemma_remove_absent(s: Seq<char>, pat: Seq<char>)
    requires
        !has_occurrence(s, pat),
    ensures
        remove_all(s, pat) == s,
    decreases s.len(),
{
    if pat.len() == 0 || s.len() < pat.len() {
    } else {
        assert(!occurs_at(s, pat, 0));
        assert forall|j: int| !occurs_at(s.skip(1), pat, j) by {
            if occurs_at(s.skip(1), pat, j) {
                assert(s.skip(1).subrange(j, j + pat.len()) =~= s.subrange(
                    j + 1,
                    j + 1 + pat.len(),
                ));
                assert(occurs_at(s, pat, j + 1));
            }
        }
        lemma_remove_absent(s.skip(1), pat);
        assert(seq![s[0]] + s.skip(1) =~= s);
    }
}

/// Removing a pattern brings in no character that was not there.
pub proof fn lemma_remove_keeps_absent(s: Seq<char>, pat: Seq<char>, c: char)
    requires
        !s.contains(c),
    ensures
        !remove_all(s, pat).contains(c),
    decreases s.len(),
{
    if pat.len() == 0 || s.len() < pat.len() {
    } else if occurs_at(s, pat, 0) {
        let rest = s.skip(pat.len() as int);
        assert forall|j: int| 0 <= j < rest.len() implies rest[j] != c by {
            assert(rest[j] == s[j + pat.len()]);
        }
        lemma_remove_keeps_absent(rest, pat, c);
    } else {
        let rest = s.skip(1);
        assert forall|j: int| 0 <= j < rest.len() implies rest[j] != c by {
            assert(rest[j] == s[j + 1]);
        }
        lemma_remove_keeps_absent(rest, pat, c);
        let kept = remove_all(rest, pat);
        assert(s[0] != c);
        assert forall|j: int| 0 <= j < (seq![s[0]] + kept).len() implies (seq![s[0]] + kept)[j]
            != c by {
            if j > 0 {
                assert((seq![s[0]] + kept)[j] == kept[j - 1]);
            }
        }
    }
}

/// Removing a single character leaves none of it.
pub proof fn lemma_remove_char(s: Seq<char>, c: char)
    ensures
        !remove_all(s, seq![c]).contains(c),
    decreases s.len(),
{
    let pat = seq![c];
    if s.len() < 1 {
    } else if occurs_at(s, pat, 0) {
        lemma_remove_char(s.skip(1), c);
    } else {
        assert(s[0] != c) by {
            if s[0] == c {
                assert(s.subrange(0, 1) =~= pat);
            }
        }
        lemma_remove_char(s.skip(1), c);
        let kept = remove_all(s.skip(1), pat);
        assert forall|j: int| 0 <= j < (seq![s[0]] + kept).len() implies (seq![s[0]] + kept)[j]
            != c by {
            if j > 0 {
                assert((seq![s[0]] + kept)[j] == kept[j - 1]);
            }
        }
    }
}

/// A character that does not stand in a text does not occur in it as a
/// pattern.
pub proof fn lemma_absent_char(s: Seq<char>, c: char)
    requires
        !s.contains(c),
    ensures
        !has_occurrence(s, seq![c]),
{
    assert forall|j: int| !occurs_at(s, seq![c], j) by {
        if occurs_at(s, seq![c], j) {
            assert(s.subrange(j, j + 1)[0] == c);
            assert(s[j] == c);
        }
    }
}

/// An occurrence of a pattern holds the characters of the pattern, each
/// at its place.
pub proof fn lemma_occurrence_chars(s: Seq<char>, pat: Seq<char>, at: int, q: int)
    requires
        occurs_at(s, pat, at),
        at <= q < at + pat.len(),
    ensures
        s[q] == pat[q - at],
{
    assert(s.subrange(at, at + pat.len())[q - at] == s[q]);
}

/// A pattern that stands neither in `pre` nor in `post` does not stand in
/// `pre + sep + post` either, where no occurrence can begin or end in `sep`
/// or reach over it: `sep` holds neither the first nor the last character
/// of the pattern, and its character at `k` is none of the pattern.
pub proof fn lemma_separated(
    pre: Seq<char>,
    sep: Seq<char>,
    post: Seq<char>,
    pat: Seq<char>,
    k: int,
)
    requires
        pat.len() > 0,
        !has_occurrence(pre, pat),
        !has_occurrence(post, pat),
        !sep.contains(pat[0]),
        !sep.contains(pat.last()),
        0 <= k < sep.len(),
        !pat.contains(sep[k]),
    ensures
        !has_occurrence(pre + sep + post, pat),
{
    let whole = pre + sep + post;
    let from = pre.len() as int;
    let to = from + sep.len();
    assert forall|at: int| !occurs_at(whole, pat, at) by {
        if occurs_at(whole, pat, at) {
            let end = at + pat.len();
            if end <= from {
                assert(pre.subrange(at, end) =~= whole.subrange(at, end));
                assert(occurs_at(pre, pat, at));
            } else if at >= to {
                assert(post.subrange(at - to, end - to) =~= whole.subrange(at, end));
                assert(occurs_at(post, pat, at - to));
            } else if at >= from {
                lemma_occurrence_chars(whole, pat, at, at);
                assert(whole[at] == sep[at - from]);
                assert(sep.contains(pat[0]));
            } else if end <= to {
                lemma_occurrence_chars(whole, pat, at, end - 1);
                assert(whole[end - 1] == sep[end - 1 - from]);
                assert(sep.contains(pat.last()));
            } else {
                lemma_occurrence_chars(whole, pat, at, from + k);
                assert(whole[from + k] == sep[k]);
                assert(pat.contains(sep[k]));
            }
        }
    }
}

/// A pattern stands in `pre + pat + post`.
pub proof fn lemma_occurs_between(pre: Seq<char>, pat: Seq<char>, post: Seq<char>)
    ensures
        has_occurrence(pre + pat + post, pat),
{
    let whole = pre + pat + post;
    let at = pre.len() as int;
    assert(whole.subrange(at, at + pat.len()) =~= pat);
    assert(occurs_at(whole, pat, at));
}

/// The characters of a string slice, in order.
pub fn chars_of(s: &str) -> (v: Vec<char>)
    ensures
        v@ == s@,
{
    broadcast use vstd::string::group_string_axioms;

    let mut v: Vec<char> = Vec::new();
    for c in it: s.chars()
        invariant
            it.seq() == s@,
            v@ == s@.take(it.index() as int),
    {
        v.push(c);
    }
    assert(s@.take(s@.len() as int) == s@);
    v
}

/// Whether `pat` stands in `hay` at position `i`.
pub fn matches_at(hay: &Vec<char>, pat: &Vec<char>, i: usize) -> (r: bool)
    ensures
        r == occurs_at(hay@, pat@, i as int),
{
    let n: usize = hay.len();
    let m: usize = pat.len();
    if i > n || m > n - i {
        return false;
    }
    let mut k: usize = 0;
    while k < m
        invariant
            k <= m,
            i + m <= n,
            n == hay@.len(),
            m == pat@.len(),
            forall|j: int| 0 <= j < k ==> hay@[i + j] == pat@[j],
        decreases m - k,
    {
        if hay[i + k] != pat[k] {
            assert(hay@.subrange(i as int, i + m)[k as int] == hay@[i + k]);
            return false;
        }
        k += 1;
    }
    assert(hay@.subrange(i as int, i + m) =~= pat@);
    true
}

/// The position of the leftmost occurrence of `pat` in `hay` at or after
/// `from`.
pub fn find(hay: &Vec<char>, pat: &Vec<char>, from: usize) -> (r: Option<usize>)
    ensures
        match r {
            Some(i) => find_from(hay@, pat@, from as int) == Some(i as int),
            None => find_from(hay@, pat@, from as int) is None,
        },
{
    let n: usize = hay.len();
    let m: usize = pat.len();
    if from > n || m > n - from {
        return None;
    }
    let last: usize = n - m;
    let mut i: usize = from;
    loop
        invariant
            from <= i <= last,
            last == n - m,
            n == hay@.len(),
            m == pat@.len(),
            find_from(hay@, pat@, from as int) == find_from(hay@, pat@, i as int),
        decreases last - i,
    {
        if matches_at(hay, pat, i) {
            return Some(i);
        }
        if i == last {
            assert(find_from(hay@, pat@, i + 1) is None);
            return None;
        }
        i += 1;
    }
}

/// Whether `pat` stands somewhere in `hay`.
pub fn contains(hay: &Vec<char>, pat: &Vec<char>) -> (r: bool)
    ensures
        r == has_occurrence(hay@, pat@),
{
    proof {
        lemma_find_iff_occurs(hay@, pat@);
    }
    find(hay, pat, 0).is_some()
}

/// Whether two strings hold the same text.
pub fn same_string(a: &String, b: &String) -> (r: bool)
    ensures
        r == (a@ == b@),
{
    *a == *b
}

/// Whether two string slices hold the same characters.
pub fn same_text(a: &str, b: &str) -> (r: bool)
    ensures
        r == (a@ == b@),
{
    spells(&chars_of(a), b)
}

/// Whether the characters `chars` spell the text `word`.
pub fn spells(chars: &Vec<char>, word: &str) -> (r: bool)
    ensures
        r == (chars@ == word@),
{
    let other = chars_of(word);
    if chars.len() != other.len() {
        return false;
    }
    let r = matches_at(chars, &other, 0);
    proof {
        assert(chars@.subrange(0, chars@.len() as int) =~= chars@);
    }
    r
}

/// Appends `text` to the list `parts`.
pub fn push_text(parts: &mut Vec<String>, text: String)
    ensures
        final(parts).deep_view() == old(parts).deep_view().push(text@),
{
    parts.push(text);
    assert(parts.deep_view() =~= old(parts).deep_view().push(text@));
}

/// The texts of `parts` one after another, with `sep` between each two.
pub fn join(parts: &Vec<String>, sep: &str) -> (r: String)
    ensures
        r@ == join_with(parts.deep_view(), sep@),
{
    let mut out = String::new();
    let mut i: usize = 0;
    let ghost model = parts.deep_view();
    assert(model.take(0) =~= Seq::empty());
    while i < parts.len()
        invariant
            i <= parts.len(),
            model == parts.deep_view(),
            out@ == join_with(model.take(i as int), sep@),
        decreases parts.len() - i,
    {
        proof {
            let next = model.take(i + 1);
            assert(next.drop_last() =~= model.take(i as int));
            assert(next.last() == parts[i as int]@);
        }
        if i > 0 {
            out.append(sep);
        }
        out.append(parts[i].as_str());
        proof {
            if i == 0 {
                assert(out@ =~= parts[i as int]@);
                assert(model.take(1)[0] == parts[i as int]@);
            }
        }
        i += 1;
    }
    assert(model.take(parts.len() as int) =~= model);
    out
}

/// `s` without the occurrences of `pat`, as `str::replace` with an empty
/// replacement gives it.
pub fn without(s: &str, pat: &str) -> (r: String)
    ensures
        r@ == remove_all(s@, pat@),
{
    let hay = chars_of(s);
    let needle = chars_of(pat);
    let n: usize = hay.len();
    let m: usize = needle.len();
    if m == 0 {
        return s.to_owned();
    }
    let mut out = String::new();
    let mut i: usize = 0;
    proof {
        assert(s@.skip(0) =~= s@);
        assert(out@ + remove_all(s@, pat@) =~= remove_all(s@, pat@));
    }
    while i < n
        invariant
            i <= n,
            0 < m,
            n == s@.len(),
            m == pat@.len(),
            hay@ == s@,
            needle@ == pat@,
            out@ + remove_all(s@.skip(i as int), pat@) == remove_all(s@, pat@),
        decreases n - i,
    {
        let ghost rest = s@.skip(i as int);
        if n - i < m {
            out.append(s.substring_char(i, n));
            proof {
                assert(s@.subrange(i as int, n as int) =~= rest);
                assert(s@.skip(n as int) =~= Seq::<char>::empty());
            }
            i = n;
        } else if matches_at(&hay, &needle, i) {
            proof {
                assert(rest.subrange(0, m as int) =~= s@.subrange(i as int, i + m));
                assert(rest.skip(m as int) =~= s@.skip(i + m));
            }
            i += m;
        } else {
            out.append(s.substring_char(i, i + 1));
            proof {
                assert(rest.subrange(0, m as int) =~= s@.subrange(i as int, i + m));
                assert(rest.skip(1) =~= s@.skip(i + 1));
                assert(s@.subrange(i as int, i + 1) =~= seq![rest[0]]);
            }
            i += 1;
        }
    }
    proof {
        assert(s@.skip(n as int) =~= Seq::<char>::empty());
    }
    out
}

} // verus!
