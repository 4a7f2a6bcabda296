//! The three services that every backend shares: reading the nullable mark
//! of a type string, reading a range constraint, and finding the variant of
//! an error enumeration that reports a violated constraint.
use crate::number::{parse_int, parsed_int};
use crate::text::{
    chars_of, contains, find, find_from, has_occurrence, lemma_absent_char, lemma_find_from,
    lemma_find_in_rest, lemma_remove_absent, lemma_remove_char, lemma_remove_keeps_absent,
    matches_at, occurs_at, remove_all, same_text, split_on, Text,
};
use crate::udl::enums::{Enum, EnumKind, EnumKindView, EnumVariant, EnumVariantView, EnumView};
use vstd::prelude::*;

verus! {

/// A type string is nullable when it holds the mark `?`.
pub open spec fn nullable(raw: Text) -> bool {
    raw.contains('?')
}

/// Whether the type string `raw` is nullable.
pub fn is_nullable_type(raw: &str) -> (r: bool)
    ensures
        r == nullable(raw@),
{
    let chars = chars_of(raw);
    let mut i: usize = 0;
    while i < chars.len()
        invariant
            i <= chars.len(),
            chars@ == raw@,
            forall|j: int| 0 <= j < i ==> raw@[j] != '?',
        decreases chars.len() - i,
    {
        if chars[i] == '?' {
            return true;
        }
        i += 1;
    }
    false
}

/// The base name of a type string: the string without its marks. The
/// nullable mark `?` goes first, then the optional mark `^`, then the enum
/// mark `$enum::`, each wherever it stands.
pub open spec fn base_name(raw: Text) -> Text {
    remove_all(remove_all(remove_all(raw, "?"@), "^"@), "$enum::"@)
}

/// A base name holds neither the nullable mark nor the optional mark.
pub proof fn lemma_base_name_unmarked(raw: Text)
    ensures
        !base_name(raw).contains('?'),
        !base_name(raw).contains('^'),
        !nullable(base_name(raw)),
{
    reveal_strlit("?");
    reveal_strlit("^");
    assert("?"@ =~= seq!['?']);
    assert("^"@ =~= seq!['^']);
    let unmarked = remove_all(raw, "?"@);
    let required = remove_all(unmarked, "^"@);
    lemma_remove_char(raw, '?');
    lemma_remove_keeps_absent(unmarked, "^"@, '?');
    lemma_remove_char(unmarked, '^');
    lemma_remove_keeps_absent(required, "$enum::"@, '?');
    lemma_remove_keeps_absent(required, "$enum::"@, '^');
}

/// Stripping the marks of a type string a second time changes nothing, as
/// long as the first pass has not joined the pieces of a new enum mark (as
/// it does in `$enum$enum::::`, which it leaves as `$enum::`).
pub proof fn lemma_base_name_idempotent(raw: Text)
    requires
        !has_occurrence(base_name(raw), "$enum::"@),
    ensures
        base_name(base_name(raw)) == base_name(raw),
{
    reveal_strlit("?");
    reveal_strlit("^");
    assert("?"@ =~= seq!['?']);
    assert("^"@ =~= seq!['^']);
    let base = base_name(raw);
    lemma_base_name_unmarked(raw);
    lemma_absent_char(base, '?');
    lemma_remove_absent(base, "?"@);
    lemma_absent_char(base, '^');
    lemma_remove_absent(base, "^"@);
    lemma_remove_absent(base, "$enum::"@);
}

/// The separator of a range with two bounds: three dots.
pub open spec fn triple_dot() -> Text {
    seq!['.', '.', '.']
}

/// The separator of a range with a default: two dots.
pub open spec fn double_dot() -> Text {
    seq!['.', '.']
}

/// The number that `part` writes, or `fallback` where it writes none.
pub open spec fn number_or(part: Text, fallback: int) -> int {
    match parsed_int(part) {
        Some(v) => v,
        None => fallback,
    }
}

/// The bounds `(min, max, default)` that a range constraint writes, with -1
/// for a bound that is absent; `None` where `value` is no range constraint.
///
/// - `a...b` has the bounds `a` and `b` and no default; a side that is no
///   number is absent.
/// - `a..d..b` has the bounds `a` and `b` and the default `d`, which must be a
///   number; a minimum that is no number is 0, such a maximum is absent. A
///   text with more than three pieces around two dots is no range constraint.
/// - `..b` has the maximum `b`, which is the default too.
/// - `a..` has the minimum `a`, which is the default too.
pub open spec fn limit_bounds(value: Text) -> Option<(int, int, int)> {
    if has_occurrence(value, triple_dot()) {
        let parts = split_on(value, triple_dot());
        Some((number_or(parts[0], -1), number_or(parts[1], -1), -1))
    } else {
        let parts = split_on(value, double_dot());
        if parts.len() > 3 {
            None
        } else if parts.len() == 3 {
            match parsed_int(parts[1]) {
                Some(default) => Some((number_or(parts[0], 0), number_or(parts[2], -1), default)),
                None => None,
            }
        } else if occurs_at(value, double_dot(), 0) {
            let max = number_or(parts[1], -1);
            Some((-1, max, max))
        } else if occurs_at(value, double_dot(), value.len() - 2) {
            let min = number_or(parts[0], -1);
            Some((min, -1, min))
        } else {
            None
        }
    }
}

/// No dot stands in `s`.
pub open spec fn dotless(s: Text) -> bool {
    !s.contains('.')
}

/// A text without the separator is one piece.
proof fn lemma_split_none(s: Text, sep: Text)
    requires
        !has_occurrence(s, sep),
    ensures
        split_on(s, sep) == seq![s],
{
    lemma_find_from(s, sep, 0);
}

/// A text that holds the separator first behind `head` splits into `head`
/// and the pieces of what follows the separator.
proof fn lemma_split_first(head: Text, sep: Text, rest: Text)
    requires
        sep.len() > 0,
        forall|j: int| 0 <= j < head.len() ==> !occurs_at(head + sep + rest, sep, j),
    ensures
        split_on(head + sep + rest, sep) == seq![head] + split_on(rest, sep),
{
    let v = head + sep + rest;
    assert(v.subrange(head.len() as int, (head.len() + sep.len()) as int) =~= sep);
    assert(occurs_at(v, sep, head.len() as int));
    lemma_find_from(v, sep, 0);
    assert(find_from(v, sep, 0) == Some(head.len() as int));
    assert(v.take(head.len() as int) =~= head);
    assert(v.skip((head.len() + sep.len()) as int) =~= rest);
}

/// A separator of dots does not begin inside a piece without dots.
proof fn lemma_no_separator_in_head(head: Text, sep: Text, rest: Text)
    requires
        dotless(head),
        sep.len() > 0,
        sep[0] == '.',
    ensures
        forall|j: int| 0 <= j < head.len() ==> !occurs_at(head + sep + rest, sep, j),
{
    let v = head + sep + rest;
    assert forall|j: int| 0 <= j < head.len() implies !occurs_at(v, sep, j) by {
        if occurs_at(v, sep, j) {
            assert(v.subrange(j, j + sep.len())[0] == v[j]);
            assert(v[j] == head[j]);
            assert(head.contains(head[j]));
        }
    }
}

/// A separator of dots does not occur in a piece without dots.
proof fn lemma_no_separator_in_dotless(s: Text, sep: Text)
    requires
        dotless(s),
        sep.len() > 0,
        sep[0] == '.',
    ensures
        !has_occurrence(s, sep),
{
    assert forall|j: int| !occurs_at(s, sep, j) by {
        if occurs_at(s, sep, j) {
            assert(s.subrange(j, j + sep.len())[0] == s[j]);
            assert(s.contains(s[j]));
        }
    }
}

/// A text that begins with a piece without dots and a separator of dots
/// splits into that piece and the pieces of what follows the separator.
proof fn lemma_split_dotless_head(head: Text, sep: Text, rest: Text)
    requires
        dotless(head),
        sep.len() > 0,
        sep[0] == '.',
    ensures
        split_on(head + sep + rest, sep) == seq![head] + split_on(rest, sep),
{
    lemma_no_separator_in_head(head, sep, rest);
    lemma_split_first(head, sep, rest);
}

/// A text without dots is one piece for a separator of dots.
proof fn lemma_split_dotless(s: Text, sep: Text)
    requires
        dotless(s),
        sep.len() > 0,
        sep[0] == '.',
    ensures
        split_on(s, sep) == seq![s],
{
    lemma_no_separator_in_dotless(s, sep);
    lemma_split_none(s, sep);
}

/// The separator occurs in a text that is put together with it.
proof fn lemma_separator_occurs(head: Text, sep: Text, rest: Text)
    ensures
        occurs_at(head + sep + rest, sep, head.len() as int),
        has_occurrence(head + sep + rest, sep),
{
    let v = head + sep + rest;
    assert(v.subrange(head.len() as int, (head.len() + sep.len()) as int) =~= sep);
    assert(occurs_at(v, sep, head.len() as int));
}

/// The pieces `parts` are `a` and `b`.
spec fn is_pair(parts: Seq<Text>, a: Text, b: Text) -> bool {
    parts.len() == 2 && parts[0] == a && parts[1] == b
}

/// The pieces `parts` are `a`, `d` and `b`.
spec fn is_triple(parts: Seq<Text>, a: Text, d: Text, b: Text) -> bool {
    parts.len() == 3 && parts[0] == a && parts[1] == d && parts[2] == b
}

/// A piece before a pair of pieces makes three pieces.
proof fn lemma_piece_before_pair(a: Text, tail: Seq<Text>, d: Text, b: Text)
    requires
        is_pair(tail, d, b),
    ensures
        is_triple(seq![a] + tail, a, d, b),
{
}

/// A piece before a single piece makes a pair of pieces.
proof fn lemma_piece_before_piece(a: Text, b: Text)
    ensures
        is_pair(seq![a] + seq![b], a, b),
{
}

/// The pieces of a piece without dots, a separator of dots and another
/// piece without dots.
proof fn lemma_pieces_of_pair(a: Text, sep: Text, b: Text)
    requires
        dotless(a),
        dotless(b),
        sep.len() > 0,
        sep[0] == '.',
    ensures
        is_pair(split_on(a + sep + b, sep), a, b),
{
    lemma_split_dotless_head(a, sep, b);
    lemma_split_dotless(b, sep);
    lemma_piece_before_piece(a, b);
}

/// The bounds of a text with three dots in a row and the first pieces `a`
/// and `b`.
proof fn lemma_bounds_of_two_pieces(value: Text, a: Text, b: Text)
    requires
        has_occurrence(value, triple_dot()),
        is_pair(split_on(value, triple_dot()), a, b),
    ensures
        limit_bounds(value) == Some((number_or(a, -1), number_or(b, -1), -1)),
{
}

/// The range `a...b`: the two bounds that its sides write, and no default.
/// A side that writes no number, an empty one too, stands for an absent
/// bound.
pub proof fn lemma_range_of_two_bounds(a: Text, b: Text)
    requires
        dotless(a),
        dotless(b),
    ensures
        limit_bounds(a + triple_dot() + b) == Some((number_or(a, -1), number_or(b, -1), -1)),
{
    lemma_pieces_of_pair(a, triple_dot(), b);
    lemma_separator_occurs(a, triple_dot(), b);
    lemma_bounds_of_two_pieces(a + triple_dot() + b, a, b);
}

/// Where a dot stands in `a..d..b`, with no dot in `a`, `d` and `b`.
proof fn lemma_dots_with_default(a: Text, d: Text, b: Text, k: int)
    requires
        dotless(a),
        dotless(d),
        dotless(b),
        0 <= k < (a + double_dot() + d + double_dot() + b).len(),
        (a + double_dot() + d + double_dot() + b)[k] == '.',
    ensures
        k == a.len() || k == a.len() + 1 || k == a.len() + 2 + d.len() || k == a.len() + 3
            + d.len(),
{
    let v = a + double_dot() + d + double_dot() + b;
    if k < a.len() {
        assert(v[k] == a[k]);
        assert(a.contains(a[k]));
    } else if a.len() + 2 <= k < a.len() + 2 + d.len() {
        assert(v[k] == d[k - a.len() - 2]);
        assert(d.contains(d[k - a.len() - 2]));
    } else if k >= a.len() + 4 + d.len() {
        assert(v[k] == b[k - a.len() - 4 - d.len()]);
        assert(b.contains(b[k - a.len() - 4 - d.len()]));
    }
}

/// The text `a..d..b` holds no three dots in a row where `d` is not empty
/// and no dot stands in `a`, `d` and `b`.
proof fn lemma_no_triple_dot(a: Text, d: Text, b: Text)
    requires
        dotless(a),
        dotless(d),
        dotless(b),
        d.len() > 0,
    ensures
        !has_occurrence(a + double_dot() + d + double_dot() + b, triple_dot()),
{
    let v = a + double_dot() + d + double_dot() + b;
    assert forall|j: int| !occurs_at(v, triple_dot(), j) by {
        if occurs_at(v, triple_dot(), j) {
            let w = v.subrange(j, j + 3);
            assert(w[0] == v[j] && w[1] == v[j + 1] && w[2] == v[j + 2]);
            lemma_dots_with_default(a, d, b, j);
            lemma_dots_with_default(a, d, b, j + 1);
            lemma_dots_with_default(a, d, b, j + 2);
        }
    }
}

/// The pieces of `a..d..b`.
proof fn lemma_pieces_with_default(a: Text, d: Text, b: Text)
    requires
        dotless(a),
        dotless(d),
        dotless(b),
    ensures
        is_triple(split_on(a + double_dot() + d + double_dot() + b, double_dot()), a, d, b),
{
    let tail = d + double_dot() + b;
    assert(a + double_dot() + d + double_dot() + b =~= a + double_dot() + tail);
    lemma_split_dotless_head(a, double_dot(), tail);
    lemma_pieces_of_pair(d, double_dot(), b);
    lemma_piece_before_pair(a, split_on(tail, double_dot()), d, b);
}

/// The bounds of a text without three dots in a row and with the pieces
/// `a`, `d` and `b`.
proof fn lemma_bounds_of_three_pieces(value: Text, a: Text, d: Text, b: Text)
    requires
        !has_occurrence(value, triple_dot()),
        is_triple(split_on(value, double_dot()), a, d, b),
    ensures
        limit_bounds(value) == match parsed_int(d) {
            Some(default) => Some((number_or(a, 0), number_or(b, -1), default)),
            None => None,
        },
{
}

/// The range `a..d..b`: the bounds that `a` and `b` write, and the default
/// that `d` writes; no range where `d` writes no number. A minimum that
/// writes no number is 0, such a maximum is absent.
pub proof fn lemma_range_with_default(a: Text, d: Text, b: Text)
    requires
        dotless(a),
        dotless(d),
        dotless(b),
        d.len() > 0,
    ensures
        limit_bounds(a + double_dot() + d + double_dot() + b) == match parsed_int(d) {
            Some(default) => Some((number_or(a, 0), number_or(b, -1), default)),
            None => None,
        },
{
    lemma_no_triple_dot(a, d, b);
    lemma_pieces_with_default(a, d, b);
    lemma_bounds_of_three_pieces(a + double_dot() + d + double_dot() + b, a, d, b);
}

/// A text of two dots and a piece without dots holds no three dots in a
/// row.
proof fn lemma_no_triple_dot_in_maximum(b: Text)
    requires
        dotless(b),
    ensures
        !has_occurrence(double_dot() + b, triple_dot()),
{
    let v = double_dot() + b;
    assert forall|j: int| !occurs_at(v, triple_dot(), j) by {
        if occurs_at(v, triple_dot(), j) {
            let w = v.subrange(j, j + 3);
            assert(w[2] == v[j + 2]);
            assert(v[j + 2] == b[j]);
            assert(b.contains(b[j]));
        }
    }
}

/// The bounds of a text without three dots in a row that begins with two
/// and has two pieces, of which `b` is the second.
proof fn lemma_bounds_of_leading(value: Text, first: Text, b: Text)
    requires
        !has_occurrence(value, triple_dot()),
        is_pair(split_on(value, double_dot()), first, b),
        occurs_at(value, double_dot(), 0),
    ensures
        limit_bounds(value) == Some((-1, number_or(b, -1), number_or(b, -1))),
{
}

/// The range `..b`: the maximum that `b` writes, which is the default too.
pub proof fn lemma_range_of_maximum(b: Text)
    requires
        dotless(b),
    ensures
        limit_bounds(double_dot() + b) == Some((-1, number_or(b, -1), number_or(b, -1))),
{
    let head = Seq::<char>::empty();
    assert(double_dot() + b =~= head + double_dot() + b);
    lemma_no_triple_dot_in_maximum(b);
    lemma_pieces_of_pair(head, double_dot(), b);
    lemma_separator_occurs(head, double_dot(), b);
    lemma_bounds_of_leading(double_dot() + b, head, b);
}

/// A text of a piece without dots and two dots holds no three dots in a
/// row, and does not begin with two dots where the piece is not empty.
proof fn lemma_no_triple_dot_in_minimum(a: Text)
    requires
        dotless(a),
        a.len() > 0,
    ensures
        !has_occurrence(a + double_dot(), triple_dot()),
        !occurs_at(a + double_dot(), double_dot(), 0),
{
    let v = a + double_dot();
    assert forall|j: int| !occurs_at(v, triple_dot(), j) by {
        if occurs_at(v, triple_dot(), j) {
            let w = v.subrange(j, j + 3);
            assert(w[0] == v[j]);
            assert(v[j] == a[j]);
            assert(a.contains(a[j]));
        }
    }
    if occurs_at(v, double_dot(), 0) {
        assert(v.subrange(0, 2)[0] == v[0]);
        assert(v[0] == a[0]);
        assert(a.contains(a[0]));
    }
}

/// The bounds of a text without three dots in a row that ends in two
/// without beginning with them and has two pieces, of which `a` is the first.
proof fn lemma_bounds_of_trailing(value: Text, a: Text, last: Text)
    requires
        !has_occurrence(value, triple_dot()),
        is_pair(split_on(value, double_dot()), a, last),
        !occurs_at(value, double_dot(), 0),
        occurs_at(value, double_dot(), value.len() - 2),
    ensures
        limit_bounds(value) == Some((number_or(a, -1), -1, number_or(a, -1))),
{
}

/// The range `a..`: the minimum that `a` writes, which is the default too.
pub proof fn lemma_range_of_minimum(a: Text)
    requires
        dotless(a),
        a.len() > 0,
    ensures
        limit_bounds(a + double_dot()) == Some((number_or(a, -1), -1, number_or(a, -1))),
{
    let rest = Seq::<char>::empty();
    let v = a + double_dot();
    assert(v =~= a + double_dot() + rest);
    lemma_no_triple_dot_in_minimum(a);
    lemma_pieces_of_pair(a, double_dot(), rest);
    lemma_separator_occurs(a, double_dot(), rest);
    assert(a.len() == v.len() - 2);
    lemma_bounds_of_trailing(v, a, rest);
}

/// A text without three dots in a row that has more than three pieces
/// around two dots is no range constraint.
pub proof fn lemma_too_many_pieces_are_rejected(value: Text)
    requires
        !has_occurrence(value, triple_dot()),
        split_on(value, double_dot()).len() > 3,
    ensures
        limit_bounds(value) is None,
{
}

/// A text in which no two dots stand side by side is no range constraint.
pub proof fn lemma_no_separator_is_rejected(value: Text)
    requires
        !has_occurrence(value, double_dot()),
    ensures
        limit_bounds(value) is None,
{
    assert forall|i: int| !occurs_at(value, triple_dot(), i) by {
        if occurs_at(value, triple_dot(), i) {
            assert(value.subrange(i, i + 2) =~= value.subrange(i, i + 3).subrange(0, 2));
            assert(triple_dot().subrange(0, 2) =~= double_dot());
            assert(occurs_at(value, double_dot(), i));
        }
    }
    lemma_find_from(value, double_dot(), 0);
    assert(split_on(value, double_dot()) =~= seq![value]);
}

/// Splitting gives at least one piece, and at least two where the separator
/// occurs.
pub proof fn lemma_split_count(s: Text, sep: Text)
    ensures
        split_on(s, sep).len() >= 1,
        sep.len() > 0 && has_occurrence(s, sep) ==> split_on(s, sep).len() >= 2,
    decreases s.len(),
{
    lemma_find_from(s, sep, 0);
    match find_from(s, sep, 0) {
        Some(i) => {
            if sep.len() > 0 && occurs_at(s, sep, i) {
                lemma_split_count(s.skip(i + sep.len()), sep);
            }
        },
        None => {},
    }
}

/// The places of the pieces of `hay` between the occurrences of `sep`: the
/// `k`-th pair holds where the `k`-th piece begins and ends.
fn split_ranges(hay: &Vec<char>, sep: &Vec<char>) -> (ranges: Vec<(usize, usize)>)
    requires
        sep.len() > 0,
    ensures
        ranges.len() == split_on(hay@, sep@).len(),
        forall|k: int|
            0 <= k < ranges.len() ==> (#[trigger] ranges[k]).0 <= ranges[k].1 <= hay.len()
                && hay@.subrange(ranges[k].0 as int, ranges[k].1 as int) == split_on(
                hay@,
                sep@,
            )[k],
{
    let n: usize = hay.len();
    let m: usize = sep.len();
    let mut ranges: Vec<(usize, usize)> = Vec::new();
    let mut start: usize = 0;
    let ghost mut done: Seq<Text> = Seq::empty();
    proof {
        assert(hay@.skip(0) =~= hay@);
        assert(done + split_on(hay@, sep@) =~= split_on(hay@, sep@));
    }
    loop
        invariant
            start <= n,
            n == hay.len(),
            m == sep.len(),
            m > 0,
            done.len() == ranges.len(),
            forall|k: int|
                0 <= k < ranges.len() ==> (#[trigger] ranges[k]).0 <= ranges[k].1 <= n
                    && hay@.subrange(ranges[k].0 as int, ranges[k].1 as int) == done[k],
            done + split_on(hay@.skip(start as int), sep@) == split_on(hay@, sep@),
        decreases n - start,
    {
        let ghost rest = hay@.skip(start as int);
        proof {
            lemma_find_in_rest(hay@, sep@, start as int);
            lemma_find_from(rest, sep@, 0);
        }
        match find(hay, sep, start) {
            Some(i) => {
                proof {
                    assert(rest.take(i - start) =~= hay@.subrange(start as int, i as int));
                    assert(rest.skip(i - start + m) =~= hay@.skip(i + m));
                    assert(done + (seq![rest.take(i - start)] + split_on(
                        hay@.skip(i + m),
                        sep@,
                    )) =~= done.push(rest.take(i - start)) + split_on(hay@.skip(i + m), sep@));
                    done = done.push(rest.take(i - start));
                }
                ranges.push((start, i));
                start = i + m;
            },
            None => {
                proof {
                    assert(rest =~= hay@.subrange(start as int, n as int));
                    assert(done + seq![rest] =~= done.push(rest));
                    done = done.push(rest);
                }
                ranges.push((start, n));
                return ranges;
            },
        }
    }
}

/// The number that the piece at `range` writes, or `fallback`.
fn number_at(chars: &Vec<char>, range: (usize, usize), fallback: isize) -> (r: isize)
    requires
        range.0 <= range.1 <= chars.len(),
    ensures
        r == number_or(chars@.subrange(range.0 as int, range.1 as int), fallback as int),
{
    match parse_int(chars, range.0, range.1) {
        Some(v) => v,
        None => fallback,
    }
}

/// The bounds `(min, max, default)` that the range constraint `value`
/// writes, or `None` where it is no range constraint.
pub fn parse_limit(value: &str) -> (r: Option<(isize, isize, isize)>)
    ensures
        match r {
            Some(t) => limit_bounds(value@) == Some((t.0 as int, t.1 as int, t.2 as int)),
            None => limit_bounds(value@) is None,
        },
{
    let chars = chars_of(value);
    let three: Vec<char> = vec!['.', '.', '.'];
    let two: Vec<char> = vec!['.', '.'];
    assert(three@ =~= triple_dot());
    assert(two@ =~= double_dot());
    if contains(&chars, &three) {
        let parts = split_ranges(&chars, &three);
        proof {
            lemma_split_count(value@, triple_dot());
        }
        let min = number_at(&chars, parts[0], -1);
        let max = number_at(&chars, parts[1], -1);
        Some((min, max, -1))
    } else {
        let parts = split_ranges(&chars, &two);
        proof {
            lemma_split_count(value@, double_dot());
        }
        if parts.len() > 3 {
            None
        } else if parts.len() == 3 {
            match parse_int(&chars, parts[1].0, parts[1].1) {
                Some(default) => {
                    let min = number_at(&chars, parts[0], 0);
                    let max = number_at(&chars, parts[2], -1);
                    Some((min, max, default))
                },
                None => None,
            }
        } else if matches_at(&chars, &two, 0) {
            proof {
                assert(has_occurrence(value@, double_dot()));
            }
            let max = number_at(&chars, parts[1], -1);
            Some((-1, max, max))
        } else if chars.len() >= 2 && matches_at(&chars, &two, chars.len() - 2) {
            let min = number_at(&chars, parts[0], -1);
            Some((min, -1, min))
        } else {
            None
        }
    }
}

/// Whether `value` is a range constraint.
pub fn is_limit_validator(value: &str) -> (r: bool)
    ensures
        r == limit_bounds(value@) is Some,
{
    parse_limit(value).is_some()
}

/// The bounds `(min, max, default)` that the range constraint `value`
/// writes, with -1 for a bound that is absent.
pub fn parse_limit_validator(value: &str) -> (r: (isize, isize, isize))
    requires
        limit_bounds(value@) is Some,
    ensures
        limit_bounds(value@) == Some((r.0 as int, r.1 as int, r.2 as int)),
{
    match parse_limit(value) {
        Some(bounds) => bounds,
        None => (-1, -1, -1),
    }
}

/// The variant `kind` is a structured one that reports the constraint `tag`.
pub open spec fn reports(kind: EnumKindView, tag: Text) -> bool {
    kind matches EnumKindView::Complex(v) && v.target == Some(tag)
}

/// The structured variants among `variants` that report the constraint `tag`,
/// in their order.
pub open spec fn candidates(variants: Seq<EnumKindView>, tag: Text) -> Seq<EnumVariantView>
    decreases variants.len(),
{
    if variants.len() == 0 {
        Seq::empty()
    } else if reports(variants.last(), tag) {
        candidates(variants.drop_last(), tag).push(variants.last()->Complex_0)
    } else {
        candidates(variants.drop_last(), tag)
    }
}

/// The name of the first variant among `found` that is for `property`.
pub open spec fn first_for_field(found: Seq<EnumVariantView>, property: Text) -> Option<Text>
    decreases found.len(),
{
    if found.len() == 0 {
        None
    } else if found[0].target_field == Some(property) {
        Some(found[0].id)
    } else {
        first_for_field(found.skip(1), property)
    }
}

/// The variant of `errors` to raise when `property` violates the constraint
/// `tag`. Where exactly one variant reports `tag`, it is that one, whatever
/// property it names; else it is the first that reports `tag` for `property`,
/// if there is one.
pub open spec fn resolved_variant(errors: EnumView, tag: Text, property: Text) -> Option<Text> {
    let found = candidates(errors.variants, tag);
    if found.len() == 1 {
        Some(found[0].id)
    } else {
        first_for_field(found, property)
    }
}

/// The structured variants of `enumm` that report the constraint `filter`,
/// each as its name, its target and the property that it names.
pub fn extract_enum_variant<'a>(enumm: &'a Enum, filter: &str) -> (found: Vec<
    (&'a String, &'a String, &'a Option<String>),
>)
    ensures
        found.len() == candidates(enumm@.variants, filter@).len(),
        forall|k: int|
            0 <= k < found.len() ==> {
                let variant = candidates(enumm@.variants, filter@)[k];
                &&& (#[trigger] found[k]).0@ == variant.id
                &&& found[k].1@ == filter@
                &&& found[k].2.deep_view() == variant.target_field
            },
{
    let mut found: Vec<(&'a String, &'a String, &'a Option<String>)> = Vec::new();
    let mut i: usize = 0;
    assert(enumm@.variants.take(0) =~= Seq::empty());
    while i < enumm.variants.len()
        invariant
            i <= enumm.variants.len(),
            found.len() == candidates(enumm@.variants.take(i as int), filter@).len(),
            forall|k: int|
                0 <= k < found.len() ==> {
                    let variant = candidates(enumm@.variants.take(i as int), filter@)[k];
                    &&& (#[trigger] found[k]).0@ == variant.id
                    &&& found[k].1@ == filter@
                    &&& found[k].2.deep_view() == variant.target_field
                },
        decreases enumm.variants.len() - i,
    {
        proof {
            let next = enumm@.variants.take(i + 1);
            assert(next.drop_last() =~= enumm@.variants.take(i as int));
            assert(next.last() == enumm.variants[i as int]@);
        }
        match &enumm.variants[i] {
            EnumKind::Complex(EnumVariant { target: Some(target), target_field, id, .. }) => {
                if same_text(target.as_str(), filter) {
                    found.push((id, target, target_field));
                }
            },
            _ => {},
        }
        i += 1;
    }
    assert(enumm@.variants.take(i as int) =~= enumm@.variants);
    found
}

/// The variant of `errors` to raise when `property` violates the constraint
/// `tag`, if there is one.
pub fn resolve_error_variant<'a>(errors: &'a Enum, tag: &str, property: &str) -> (r: Option<
    &'a String,
>)
    ensures
        r.deep_view() == resolved_variant(errors@, tag@, property@),
{
    let found = extract_enum_variant(errors, tag);
    let ghost model = candidates(errors@.variants, tag@);
    if found.len() == 1 {
        return Some(found[0].0);
    }
    let mut i: usize = 0;
    assert(model.skip(0) =~= model);
    while i < found.len()
        invariant
            i <= found.len(),
            found.len() == model.len(),
            model.len() != 1,
            model == candidates(errors@.variants, tag@),
            forall|k: int|
                0 <= k < found.len() ==> (#[trigger] found[k]).0@ == model[k].id
                    && found[k].2.deep_view() == model[k].target_field,
            first_for_field(model, property@) == first_for_field(model.skip(i as int), property@),
        decreases found.len() - i,
    {
        assert(model.skip(i as int)[0] == model[i as int]);
        assert(model.skip(i as int).skip(1) =~= model.skip(i + 1));
        let entry = found[i];
        let named = match entry.2 {
            Some(field) => same_text(field.as_str(), property),
            None => false,
        };
        if named {
            return Some(entry.0);
        }
        i += 1;
    }
    None
}

/// Where exactly one variant of an enumeration reports a constraint, every
/// property that violates the constraint gets that variant, whatever property
/// the variant itself names.
pub proof fn lemma_single_candidate_resolves(errors: EnumView, tag: Text, at: int, property: Text)
    requires
        0 <= at < errors.variants.len(),
        reports(errors.variants[at], tag),
        forall|j: int| 0 <= j < errors.variants.len() && j != at ==> !reports(
            #[trigger] errors.variants[j],
            tag,
        ),
    ensures
        resolved_variant(errors, tag, property) == Some(errors.variants[at]->Complex_0.id),
{
    lemma_candidates_of_one(errors.variants, tag, at);
}

/// Where one variant alone reports a constraint, it alone is a candidate.
proof fn lemma_candidates_of_one(variants: Seq<EnumKindView>, tag: Text, at: int)
    requires
        0 <= at < variants.len(),
        reports(variants[at], tag),
        forall|j: int| 0 <= j < variants.len() && j != at ==> !reports(#[trigger] variants[j], tag),
    ensures
        candidates(variants, tag) == seq![variants[at]->Complex_0],
    decreases variants.len(),
{
    let front = variants.drop_last();
    if at == variants.len() - 1 {
        lemma_candidates_of_none(front, tag);
        assert(Seq::<EnumVariantView>::empty().push(variants[at]->Complex_0)
            =~= seq![variants[at]->Complex_0]);
    } else {
        assert(!reports(variants[variants.len() - 1], tag));
        lemma_candidates_of_one(front, tag, at);
    }
}

/// Where no variant reports a constraint, there is no candidate.
proof fn lemma_candidates_of_none(variants: Seq<EnumKindView>, tag: Text)
    requires
        forall|j: int| 0 <= j < variants.len() ==> !reports(#[trigger] variants[j], tag),
    ensures
        candidates(variants, tag) == Seq::<EnumVariantView>::empty(),
    decreases variants.len(),
{
    if variants.len() > 0 {
        assert(!reports(variants[variants.len() - 1], tag));
        lemma_candidates_of_none(variants.drop_last(), tag);
    }
}

/// Where several variants report a constraint, a property that violates it
/// gets the first of them that names the property.
pub proof fn lemma_resolves_by_field(errors: EnumView, tag: Text, property: Text, at: int)
    requires
        candidates(errors.variants, tag).len() != 1,
        0 <= at < candidates(errors.variants, tag).len(),
        candidates(errors.variants, tag)[at].target_field == Some(property),
        forall|j: int|
            0 <= j < at ==> (#[trigger] candidates(errors.variants, tag)[j]).target_field != Some(
                property,
            ),
    ensures
        resolved_variant(errors, tag, property) == Some(candidates(errors.variants, tag)[at].id),
{
    lemma_first_for_field(candidates(errors.variants, tag), property, at);
}

/// The first variant for a property is the one before which none names it.
proof fn lemma_first_for_field(found: Seq<EnumVariantView>, property: Text, at: int)
    requires
        0 <= at < found.len(),
        found[at].target_field == Some(property),
        forall|j: int| 0 <= j < at ==> (#[trigger] found[j]).target_field != Some(property),
    ensures
        first_for_field(found, property) == Some(found[at].id),
    decreases found.len(),
{
    if at > 0 {
        assert(found[0].target_field != Some(property));
        assert forall|j: int| 0 <= j < at - 1 implies (#[trigger] found.skip(1)[j]).target_field
            != Some(property) by {
            assert(found.skip(1)[j] == found[j + 1]);
        }
        lemma_first_for_field(found.skip(1), property, at - 1);
    }
}

/// Where no variant reports a constraint, or none of several names the
/// property, no variant is raised.
pub proof fn lemma_unresolved(errors: EnumView, tag: Text, property: Text)
    requires
        candidates(errors.variants, tag).len() != 1,
        forall|j: int|
            0 <= j < candidates(errors.variants, tag).len() ==> (#[trigger] candidates(
                errors.variants,
                tag,
            )[j]).target_field != Some(property),
    ensures
        resolved_variant(errors, tag, property) is None,
{
    lemma_none_for_field(candidates(errors.variants, tag), property);
}

/// Where no variant names a property, there is no first one for it.
proof fn lemma_none_for_field(found: Seq<EnumVariantView>, property: Text)
    requires
        forall|j: int|
            0 <= j < found.len() ==> (#[trigger] found[j]).target_field != Some(property),
    ensures
        first_for_field(found, property) is None,
    decreases found.len(),
{
    if found.len() > 0 {
        assert(found[0].target_field != Some(property));
        assert forall|j: int| 0 <= j < found.len() - 1 implies (#[trigger] found.skip(
            1,
        )[j]).target_field != Some(property) by {
            assert(found.skip(1)[j] == found[j + 1]);
        }
        lemma_none_for_field(found.skip(1), property);
    }
}

} // verus!
