//! Strings as sequences of characters: searching, cutting, comparing and joining.

use vstd::prelude::*;
use vstd::utf8::*;

verus! {

/// The characters of a string.
pub type Text = Seq<char>;

/// `String::push` appends one character to the end of the string.
pub assume_specification[ String::push ](s: &mut String, c: char)
    ensures
        final(s)@ == old(s)@.push(c),
;

// ---------------------------------------------------------------------------
// What the operations mean
// ---------------------------------------------------------------------------

/// Where `c` first occurs in `s`; the length of `s` if it does not occur.
pub open spec fn first_index(s: Text, c: char) -> int
    decreases s.len(),
{
    if s.len() == 0 || s[0] == c {
        0
    } else {
        1 + first_index(s.drop_first(), c)
    }
}

/// Where `c` last occurs in `s`; -1 if it does not occur.
pub open spec fn last_index(s: Text, c: char) -> int
    decreases s.len(),
{
    if s.len() == 0 {
        -1
    } else if s.last() == c {
        s.len() - 1
    } else {
        last_index(s.drop_last(), c)
    }
}

/// The text before and after the first `c`, if there is one.
pub open spec fn split_once_at(s: Text, c: char) -> Option<(Text, Text)> {
    let i = first_index(s, c);
    if i < s.len() {
        Some((s.take(i), s.skip(i + 1)))
    } else {
        None
    }
}

/// What stands after the last `c`: all of `s` if there is none.
pub open spec fn after_last(s: Text, c: char) -> Text {
    s.skip(last_index(s, c) + 1)
}

/// What stands before the last `c`, if there is one.
pub open spec fn before_last(s: Text, c: char) -> Option<Text> {
    let i = last_index(s, c);
    if i >= 0 {
        Some(s.take(i))
    } else {
        None
    }
}

/// The pieces of `s` between the occurrences of `c`; there is always at least one.
pub open spec fn split_at_each(s: Text, c: char) -> Seq<Text>
    decreases s.len(),
{
    if s.len() == 0 {
        seq![Seq::empty()]
    } else {
        let before = split_at_each(s.drop_last(), c);
        if s.last() == c {
            before.push(Seq::empty())
        } else {
            before.drop_last().push(before.last().push(s.last()))
        }
    }
}

/// The pieces with `sep` between each two of them.
pub open spec fn join_with(pieces: Seq<Text>, sep: char) -> Text
    decreases pieces.len(),
{
    if pieces.len() == 0 {
        Seq::empty()
    } else if pieces.len() == 1 {
        pieces[0]
    } else {
        join_with(pieces.drop_last(), sep).push(sep) + pieces.last()
    }
}

/// `s` without `prefix` at its start, if it starts so.
pub open spec fn without_prefix(s: Text, prefix: Text) -> Option<Text> {
    if prefix.is_prefix_of(s) {
        Some(s.skip(prefix.len() as int))
    } else {
        None
    }
}

/// `needle` stands in `s` at position `at`.
pub open spec fn occurs_at(s: Text, needle: Text, at: int) -> bool {
    &&& 0 <= at
    &&& at + needle.len() <= s.len()
    &&& s.subrange(at, at + needle.len()) == needle
}

/// `needle` stands somewhere in `s`.
pub open spec fn occurs_in(s: Text, needle: Text) -> bool {
    exists|at: int| occurs_at(s, needle, at)
}

/// `s` with every `pattern` in it, found from left to right without overlap, replaced.
pub open spec fn replace_each(s: Text, pattern: Text, with: Text) -> Text
    recommends
        pattern.len() > 0,
    decreases s.len(),
{
    if s.len() == 0 || pattern.len() == 0 {
        s
    } else if pattern.is_prefix_of(s) {
        with + replace_each(s.skip(pattern.len() as int), pattern, with)
    } else {
        seq![s[0]] + replace_each(s.drop_first(), pattern, with)
    }
}

/// `s` without the leading characters equal to `c`.
pub open spec fn trim_start_of(s: Text, c: char) -> Text
    decreases s.len(),
{
    if s.len() > 0 && s[0] == c {
        trim_start_of(s.drop_first(), c)
    } else {
        s
    }
}

/// `s` without the trailing characters equal to `c`.
pub open spec fn trim_end_of(s: Text, c: char) -> Text
    decreases s.len(),
{
    if s.len() > 0 && s.last() == c {
        trim_end_of(s.drop_last(), c)
    } else {
        s
    }
}

/// The characters with the Unicode property `White_Space`.
pub open spec fn is_white_space(c: char) -> bool {
    ||| '\u{9}' <= c <= '\u{d}'
    ||| c == ' '
    ||| c == '\u{85}'
    ||| c == '\u{a0}'
    ||| c == '\u{1680}'
    ||| '\u{2000}' <= c <= '\u{200a}'
    ||| c == '\u{2028}'
    ||| c == '\u{2029}'
    ||| c == '\u{202f}'
    ||| c == '\u{205f}'
    ||| c == '\u{3000}'
}

/// `s` without the white space at its start.
pub open spec fn trim_start_spaces(s: Text) -> Text
    decreases s.len(),
{
    if s.len() > 0 && is_white_space(s[0]) {
        trim_start_spaces(s.drop_first())
    } else {
        s
    }
}

/// `s` without the white space at its end.
pub open spec fn trim_end_spaces(s: Text) -> Text
    decreases s.len(),
{
    if s.len() > 0 && is_white_space(s.last()) {
        trim_end_spaces(s.drop_last())
    } else {
        s
    }
}

/// `s` without the white space at either end.
pub open spec fn trimmed(s: Text) -> Text {
    trim_end_spaces(trim_start_spaces(s))
}

/// An ASCII capital letter in its small form; any other character itself.
pub open spec fn ascii_lower(c: char) -> char {
    if 'A' <= c <= 'Z' {
        (c as u8 + 32) as char
    } else {
        c
    }
}

/// An ASCII small letter in its capital form; any other character itself.
pub open spec fn ascii_upper(c: char) -> char {
    if 'a' <= c <= 'z' {
        (c as u8 - 32) as char
    } else {
        c
    }
}

/// `s` with its ASCII capitals made small.
pub open spec fn lower_text(s: Text) -> Text {
    s.map_values(|c: char| ascii_lower(c))
}

/// `s` with its ASCII small letters made capital.
pub open spec fn upper_text(s: Text) -> Text {
    s.map_values(|c: char| ascii_upper(c))
}

/// Equal but for the case of ASCII letters.
pub open spec fn same_ignoring_case(a: Text, b: Text) -> bool {
    lower_text(a) == lower_text(b)
}

// ---------------------------------------------------------------------------
// Facts about them
// ---------------------------------------------------------------------------

/// `first_index` is the only position with no `c` before it and a `c` at it.
pub proof fn lemma_first_index(s: Text, c: char)
    ensures
        0 <= first_index(s, c) <= s.len(),
        forall|j: int| 0 <= j < first_index(s, c) ==> s[j] != c,
        first_index(s, c) < s.len() ==> s[first_index(s, c)] == c,
    decreases s.len(),
{
    if s.len() != 0 && s[0] != c {
        let rest = s.drop_first();
        lemma_first_index(rest, c);
        assert forall|j: int| 0 <= j < first_index(s, c) implies s[j] != c by {
            if j > 0 {
                assert(s[j] == rest[j - 1]);
            }
        }
    }
}

/// Any position with no `c` before it and a `c` at it is the first one.
pub proof fn lemma_first_index_is(s: Text, c: char, i: int)
    requires
        0 <= i <= s.len(),
        forall|j: int| 0 <= j < i ==> s[j] != c,
        i < s.len() ==> s[i] == c,
    ensures
        first_index(s, c) == i,
{
    lemma_first_index(s, c);
}

/// `last_index` has a `c` at it and none behind it.
pub proof fn lemma_last_index(s: Text, c: char)
    ensures
        -1 <= last_index(s, c) < s.len(),
        forall|j: int| last_index(s, c) < j < s.len() ==> s[j] != c,
        last_index(s, c) >= 0 ==> s[last_index(s, c)] == c,
    decreases s.len(),
{
    if s.len() != 0 && s.last() != c {
        let init = s.drop_last();
        lemma_last_index(init, c);
        assert forall|j: int| last_index(s, c) < j < s.len() implies s[j] != c by {
            if j < init.len() {
                assert(s[j] == init[j]);
            }
        }
    }
}

/// A split has at least one piece.
pub proof fn lemma_split_nonempty(s: Text, c: char)
    ensures
        split_at_each(s, c).len() >= 1,
    decreases s.len(),
{
    if s.len() > 0 {
        lemma_split_nonempty(s.drop_last(), c);
    }
}

/// No piece of a split holds the separator.
pub proof fn lemma_split_pieces(s: Text, c: char)
    ensures
        split_at_each(s, c).len() >= 1,
        forall|k: int|
            0 <= k < split_at_each(s, c).len() ==> !(#[trigger] split_at_each(s, c)[k]).contains(c),
    decreases s.len(),
{
    if s.len() > 0 {
        let before = split_at_each(s.drop_last(), c);
        lemma_split_pieces(s.drop_last(), c);
        let pieces = split_at_each(s, c);
        assert forall|k: int| 0 <= k < pieces.len() implies !(#[trigger] pieces[k]).contains(c) by {
            if k < before.len() - 1 {
                assert(pieces[k] == before[k]);
            } else if s.last() != c {
                let old_last = before.last();
                assert(before[before.len() - 1] == old_last);
                assert(pieces[k] == old_last.push(s.last()));
                if pieces[k].contains(c) {
                    let j = choose|j: int| 0 <= j < pieces[k].len() && pieces[k][j] == c;
                    assert(old_last[j] == c);
                    assert(old_last.contains(c));
                }
            } else {
                if k == before.len() - 1 {
                    assert(pieces[k] == before[k]);
                }
            }
        }
    }
}

/// Joining the pieces of a split with the separator gives the text back.
pub proof fn lemma_join_of_split(s: Text, c: char)
    ensures
        join_with(split_at_each(s, c), c) == s,
    decreases s.len(),
{
    if s.len() > 0 {
        let init = s.drop_last();
        let before = split_at_each(init, c);
        lemma_split_nonempty(init, c);
        lemma_join_of_split(init, c);
        let pieces = split_at_each(s, c);
        assert(s == init.push(s.last()));
        if s.last() == c {
            assert(pieces.drop_last() == before);
            assert(join_with(pieces, c) == init.push(c) + Seq::<char>::empty());
            assert(join_with(pieces, c) == s);
        } else {
            assert(pieces.drop_last() == before.drop_last());
            assert(pieces.last() == before.last().push(s.last()));
            if before.len() == 1 {
                assert(pieces[0] == before[0].push(s.last()));
            } else {
                let head = join_with(before.drop_last(), c).push(c);
                assert(head + before.last().push(s.last()) == (head + before.last()).push(s.last()));
            }
            assert(join_with(pieces, c) == s);
        }
    }
}

/// Splitting joined pieces gives the pieces back, if none of them holds the separator.
pub proof fn lemma_split_of_join(pieces: Seq<Text>, c: char)
    requires
        pieces.len() >= 1,
        forall|k: int| 0 <= k < pieces.len() ==> !(#[trigger] pieces[k]).contains(c),
    ensures
        split_at_each(join_with(pieces, c), c) == pieces,
    decreases pieces.len(),
{
    if pieces.len() == 1 {
        lemma_split_append(Seq::empty(), pieces[0], c);
        assert(Seq::<char>::empty() + pieces[0] == pieces[0]);
        assert(split_at_each(Seq::empty(), c) == seq![Seq::<char>::empty()]);
        assert(split_at_each(pieces[0], c) == pieces);
    } else {
        let init = pieces.drop_last();
        lemma_split_of_join(init, c);
        let head = join_with(init, c).push(c);
        assert(head.drop_last() == join_with(init, c));
        assert(split_at_each(head, c) == init.push(Seq::empty()));
        assert(!pieces[pieces.len() - 1].contains(c));
        lemma_split_append(head, pieces.last(), c);
        assert(split_at_each(head + pieces.last(), c) == pieces);
    }
}

/// Text without the separator only lengthens the last piece.
pub proof fn lemma_split_append(s: Text, tail: Text, c: char)
    requires
        !tail.contains(c),
    ensures
        split_at_each(s, c).len() >= 1,
        split_at_each(s + tail, c) == split_at_each(s, c).drop_last().push(
            split_at_each(s, c).last() + tail,
        ),
    decreases tail.len(),
{
    lemma_split_nonempty(s, c);
    let before = split_at_each(s, c);
    if tail.len() == 0 {
        assert(s + tail == s);
        assert(before.last() + tail == before.last());
        assert(before.drop_last().push(before.last()) == before);
    } else {
        let init = tail.drop_last();
        assert forall|j: int| 0 <= j < init.len() implies init[j] != c by {
            assert(tail[j] == init[j]);
            assert(tail.contains(tail[j]));
        }
        assert(tail.contains(tail.last())) by {
            assert(tail[tail.len() - 1] == tail.last());
        }
        lemma_split_append(s, init, c);
        assert((s + tail).drop_last() == s + init);
        assert((s + tail).last() == tail.last());
        let mid = split_at_each(s + init, c);
        assert(mid.drop_last() == before.drop_last());
        assert(mid.last() == before.last() + init);
        assert((before.last() + init).push(tail.last()) == before.last() + tail);
    }
}

/// Two strings with the same UTF-8 bytes have the same characters.
pub proof fn lemma_same_bytes_same_text(a: Text, b: Text)
    ensures
        encode_utf8(a) == encode_utf8(b) ==> a == b,
{
    encode_utf8_decode_utf8(a);
    encode_utf8_decode_utf8(b);
}

// ---------------------------------------------------------------------------
// The operations
// ---------------------------------------------------------------------------

/// The characters of `s`, one by one.
pub fn chars_of(s: &str) -> (r: Vec<char>)
    ensures
        r@ == s@,
{
    let mut r: Vec<char> = Vec::new();
    for c in it: s.chars()
        invariant
            r@ == it.seq().take(it.index()),
            it.seq() == s@,
    {
        r.push(c);
    }
    assert(s@.take(s@.len() as int) == s@);
    r
}

/// The string made of `chars[from..to]`.
pub fn text_between(chars: &Vec<char>, from: usize, to: usize) -> (r: String)
    requires
        from <= to <= chars@.len(),
    ensures
        r@ == chars@.subrange(from as int, to as int),
{
    let mut r = String::new();
    let mut i: usize = from;
    while i < to
        invariant
            from <= i <= to <= chars@.len(),
            r@ == chars@.subrange(from as int, i as int),
        decreases to - i,
    {
        r.push(chars[i]);
        i += 1;
    }
    r
}

/// Whether two strings are the same.
pub fn same_text(a: &str, b: &str) -> (r: bool)
    ensures
        r == (a@ == b@),
{
    let x = a.as_bytes();
    let y = b.as_bytes();
    proof {
        lemma_same_bytes_same_text(a@, b@);
    }
    if x.len() != y.len() {
        return false;
    }
    let mut i: usize = 0;
    while i < x.len()
        invariant
            i <= x@.len(),
            x@.len() == y@.len(),
            x@ == encode_utf8(a@),
            y@ == encode_utf8(b@),
            forall|j: int| 0 <= j < i ==> x@[j] == y@[j],
        decreases x@.len() - i,
    {
        if x[i] != y[i] {
            return false;
        }
        i += 1;
    }
    assert(x@ == y@);
    true
}

/// Whether `s` starts with `prefix`.
pub fn starts_with(s: &str, prefix: &str) -> (r: bool)
    ensures
        r == prefix@.is_prefix_of(s@),
{
    let a = chars_of(s);
    let p = chars_of(prefix);
    if p.len() > a.len() {
        return false;
    }
    let mut i: usize = 0;
    while i < p.len()
        invariant
            i <= p@.len() <= a@.len(),
            a@ == s@,
            p@ == prefix@,
            forall|j: int| 0 <= j < i ==> a@[j] == p@[j],
        decreases p@.len() - i,
    {
        if a[i] != p[i] {
            assert(s@.subrange(0, p@.len() as int)[i as int] != p@[i as int]);
            return false;
        }
        i += 1;
    }
    assert(p@ =~= s@.subrange(0, p@.len() as int));
    true
}

/// Whether `s` ends with the character `c`.
pub fn ends_with_char(s: &str, c: char) -> (r: bool)
    ensures
        r == (s@.len() > 0 && s@.last() == c),
{
    let a = chars_of(s);
    a.len() > 0 && a[a.len() - 1] == c
}

/// `s` without `prefix` at its start, if it starts so.
pub fn strip_prefix(s: &str, prefix: &str) -> (r: Option<String>)
    ensures
        r.deep_view() == without_prefix(s@, prefix@),
{
    if starts_with(s, prefix) {
        let a = chars_of(s);
        let p = chars_of(prefix);
        let rest = text_between(&a, p.len(), a.len());
        assert(rest@ == s@.skip(prefix@.len() as int));
        Some(rest)
    } else {
        None
    }
}

/// Whether `c` occurs in `s`.
pub fn contains_char(s: &str, c: char) -> (r: bool)
    ensures
        r == s@.contains(c),
{
    let a = chars_of(s);
    let mut i: usize = 0;
    while i < a.len()
        invariant
            i <= a@.len(),
            a@ == s@,
            forall|j: int| 0 <= j < i ==> a@[j] != c,
        decreases a@.len() - i,
    {
        if a[i] == c {
            assert(s@[i as int] == c);
            return true;
        }
        i += 1;
    }
    false
}

/// Whether `needle` occurs in `s`.
pub fn contains_text(s: &str, needle: &str) -> (r: bool)
    ensures
        r == occurs_in(s@, needle@),
{
    let a = chars_of(s);
    let n = chars_of(needle);
    let mut at: usize = 0;
    while at <= a.len() && n.len() <= a.len() - at
        invariant
            at <= a@.len() + 1,
            a@ == s@,
            n@ == needle@,
            forall|k: int| 0 <= k < at ==> !occurs_at(s@, needle@, k),
        decreases a@.len() + 1 - at,
    {
        if occurs_here(&a, &n, at) {
            return true;
        }
        if at == a.len() {
            return false;
        }
        at += 1;
    }
    false
}

/// Whether `n` stands in `a` at position `at`.
fn occurs_here(a: &Vec<char>, n: &Vec<char>, at: usize) -> (r: bool)
    requires
        at + n@.len() <= a@.len(),
    ensures
        r == occurs_at(a@, n@, at as int),
{
    let mut i: usize = 0;
    while i < n.len()
        invariant
            i <= n@.len(),
            at + n@.len() <= a.len(),
            forall|j: int| 0 <= j < i ==> a@[at + j] == n@[j],
        decreases n@.len() - i,
    {
        if a[at + i] != n[i] {
            assert(a@.subrange(at as int, at + n@.len())[i as int] != n@[i as int]);
            return false;
        }
        i += 1;
    }
    assert(a@.subrange(at as int, at + n@.len()) =~= n@);
    true
}

/// The text before and after the first `c`, if there is one.
pub fn split_once(s: &str, c: char) -> (r: Option<(String, String)>)
    ensures
        r.deep_view() == split_once_at(s@, c),
{
    let a = chars_of(s);
    let mut i: usize = 0;
    while i < a.len()
        invariant
            i <= a@.len(),
            a@ == s@,
            forall|j: int| 0 <= j < i ==> a@[j] != c,
        decreases a@.len() - i,
    {
        if a[i] == c {
            proof {
                lemma_first_index_is(s@, c, i as int);
            }
            let before = text_between(&a, 0, i);
            let after = text_between(&a, i + 1, a.len());
            assert(before@ == s@.take(i as int));
            assert(after@ == s@.skip(i + 1));
            return Some((before, after));
        }
        i += 1;
    }
    proof {
        lemma_first_index_is(s@, c, s@.len() as int);
    }
    None
}

/// What stands after the last `c`.
pub fn last_part(s: &str, c: char) -> (r: String)
    ensures
        r@ == after_last(s@, c),
{
    let a = chars_of(s);
    let i = after_last_position(&a, c);
    let r = text_between(&a, i, a.len());
    assert(r@ == s@.skip(i as int));
    r
}

/// The position behind the last `c`; 0 if there is none.
fn after_last_position(a: &Vec<char>, c: char) -> (r: usize)
    ensures
        r == last_index(a@, c) + 1,
        r <= a@.len(),
{
    let mut i: usize = a.len();
    assert(a@.take(i as int) == a@);
    while i > 0 && a[i - 1] != c
        invariant
            i <= a@.len(),
            last_index(a@, c) == last_index(a@.take(i as int), c),
        decreases i,
    {
        assert(a@.take(i as int).drop_last() == a@.take(i - 1));
        i -= 1;
    }
    assert(i > 0 ==> a@.take(i as int).last() == a@[i - 1]);
    i
}

/// What stands before the last `c`, if there is one.
pub fn parent_part(s: &str, c: char) -> (r: Option<String>)
    ensures
        r.deep_view() == before_last(s@, c),
{
    let a = chars_of(s);
    let i = after_last_position(&a, c);
    if i == 0 {
        None
    } else {
        let r = text_between(&a, 0, i - 1);
        assert(r@ == s@.take(i - 1));
        Some(r)
    }
}

/// The pieces of `s` between the occurrences of `c`.
pub fn split(s: &str, c: char) -> (r: Vec<String>)
    ensures
        r.deep_view() == split_at_each(s@, c),
{
    let a = chars_of(s);
    let mut done: Vec<String> = Vec::new();
    let mut piece = String::new();
    let mut i: usize = 0;
    assert(a@.take(0) == Seq::<char>::empty());
    assert(done.deep_view().push(piece@) == seq![Seq::<char>::empty()]);
    while i < a.len()
        invariant
            i <= a@.len(),
            done.deep_view().push(piece@) == split_at_each(a@.take(i as int), c),
        decreases a@.len() - i,
    {
        let ghost before = done.deep_view().push(piece@);
        assert(a@.take(i + 1).drop_last() == a@.take(i as int));
        assert(before.last() == piece@);
        assert(before.drop_last() == done.deep_view());
        if a[i] == c {
            let ghost old_done = done.deep_view();
            let ghost old_piece = piece@;
            done.push(piece);
            piece = String::new();
            assert(done.deep_view() == old_done.push(old_piece));
            assert(done.deep_view().push(piece@) == before.push(Seq::empty()));
        } else {
            piece.push(a[i]);
        }
        i += 1;
    }
    assert(a@.take(a@.len() as int) == a@);
    let ghost old_done = done.deep_view();
    let ghost old_piece = piece@;
    done.push(piece);
    assert(done.deep_view() == old_done.push(old_piece));
    done
}

/// The pieces with `sep` between each two of them.
pub fn join(pieces: &Vec<String>, sep: char) -> (r: String)
    ensures
        r@ == join_with(pieces.deep_view(), sep),
{
    let mut r = String::new();
    let mut i: usize = 0;
    let ghost all = pieces.deep_view();
    while i < pieces.len()
        invariant
            i <= pieces@.len(),
            all == pieces.deep_view(),
            r@ == join_with(all.take(i as int), sep),
        decreases pieces@.len() - i,
    {
        assert(all.take(i + 1).drop_last() == all.take(i as int));
        assert(all.take(i + 1).last() == pieces@[i as int]@);
        if i > 0 {
            r.push(sep);
        }
        r.append(pieces[i].as_str());
        assert(i == 0 ==> r@ == pieces@[0]@);
        i += 1;
    }
    assert(all.take(all.len() as int) == all);
    r
}

/// `s` with every `pattern` in it replaced.
pub fn replace_text(s: &str, pattern: &str, with: &str) -> (r: String)
    requires
        pattern@.len() > 0,
    ensures
        r@ == replace_each(s@, pattern@, with@),
{
    let a = chars_of(s);
    let p = chars_of(pattern);
    let mut r = String::new();
    let mut i: usize = 0;
    assert(s@.skip(0) == s@);
    while i < a.len()
        invariant
            i <= a@.len(),
            a@ == s@,
            p@ == pattern@,
            p@.len() > 0,
            r@ + replace_each(s@.skip(i as int), p@, with@) == replace_each(s@, p@, with@),
        decreases a@.len() - i,
    {
        let ghost here = s@.skip(i as int);
        if p.len() <= a.len() - i && occurs_here(&a, &p, i) {
            assert(here.subrange(0, p@.len() as int) == s@.subrange(i as int, i + p@.len()));
            assert(here.skip(p@.len() as int) == s@.skip(i + p@.len()));
            let ghost old_r = r@;
            r.append(with);
            assert(old_r + (with@ + replace_each(s@.skip(i + p@.len()), p@, with@)) == (old_r
                + with@) + replace_each(s@.skip(i + p@.len()), p@, with@));
            i += p.len();
        } else {
            proof {
                if p@.is_prefix_of(here) {
                    assert(s@.subrange(i as int, i + p@.len()) == here.subrange(0, p@.len() as int));
                }
            }
            assert(here.drop_first() == s@.skip(i + 1));
            let ghost old_r = r@;
            r.push(a[i]);
            assert(old_r + (seq![here[0]] + replace_each(s@.skip(i + 1), p@, with@)) == old_r.push(
                here[0],
            ) + replace_each(s@.skip(i + 1), p@, with@));
            i += 1;
        }
    }
    assert(s@.skip(i as int) == Seq::<char>::empty());
    assert(r@ + Seq::<char>::empty() == r@);
    r
}

/// `s` without the leading characters equal to `c`.
pub fn trim_start_char(s: &str, c: char) -> (r: String)
    ensures
        r@ == trim_start_of(s@, c),
{
    let a = chars_of(s);
    let mut i: usize = 0;
    assert(s@.skip(0) == s@);
    while i < a.len() && a[i] == c
        invariant
            i <= a@.len(),
            a@ == s@,
            trim_start_of(s@, c) == trim_start_of(s@.skip(i as int), c),
        decreases a@.len() - i,
    {
        assert(s@.skip(i as int).drop_first() == s@.skip(i + 1));
        i += 1;
    }
    let r = text_between(&a, i, a.len());
    assert(r@ == s@.skip(i as int));
    r
}

/// `s` without the trailing characters equal to `c`.
pub fn trim_end_char(s: &str, c: char) -> (r: String)
    ensures
        r@ == trim_end_of(s@, c),
{
    let a = chars_of(s);
    let mut i: usize = a.len();
    assert(s@.take(s@.len() as int) == s@);
    while i > 0 && a[i - 1] == c
        invariant
            i <= a@.len(),
            a@ == s@,
            trim_end_of(s@, c) == trim_end_of(s@.take(i as int), c),
        decreases i,
    {
        assert(s@.take(i as int).drop_last() == s@.take(i - 1));
        i -= 1;
    }
    assert(i > 0 ==> s@.take(i as int).last() == s@[i - 1]);
    let r = text_between(&a, 0, i);
    assert(r@ == s@.take(i as int));
    r
}

fn white_space(c: char) -> (r: bool)
    ensures
        r == is_white_space(c),
{
    ('\u{9}' <= c && c <= '\u{d}') || c == ' ' || c == '\u{85}' || c == '\u{a0}' || c == '\u{1680}'
        || ('\u{2000}' <= c && c <= '\u{200a}') || c == '\u{2028}' || c == '\u{2029}' || c
        == '\u{202f}' || c == '\u{205f}' || c == '\u{3000}'
}

/// `s` without the white space at its end.
pub fn trim_end(s: &str) -> (r: String)
    ensures
        r@ == trim_end_spaces(s@),
{
    let a = chars_of(s);
    let mut i: usize = a.len();
    assert(s@.take(i as int) =~= s@);
    while i > 0 && white_space(a[i - 1])
        invariant
            i <= a@.len(),
            a@ == s@,
            trim_end_spaces(s@) == trim_end_spaces(s@.take(i as int)),
        decreases i,
    {
        assert(s@.take(i as int).drop_last() =~= s@.take(i - 1));
        i -= 1;
    }
    assert(i > 0 ==> s@.take(i as int).last() == s@[i - 1]);
    let r = text_between(&a, 0, i);
    assert(r@ =~= s@.take(i as int));
    r
}

/// `s` without the white space at either end.
pub fn trim(s: &str) -> (r: String)
    ensures
        r@ == trimmed(s@),
{
    let a = chars_of(s);
    let mut i: usize = 0;
    assert(s@.skip(0) =~= s@);
    while i < a.len() && white_space(a[i])
        invariant
            i <= a@.len(),
            a@ == s@,
            trim_start_spaces(s@) == trim_start_spaces(s@.skip(i as int)),
        decreases a@.len() - i,
    {
        assert(s@.skip(i as int).drop_first() =~= s@.skip(i + 1));
        i += 1;
    }
    let kept = text_between(&a, i, a.len());
    assert(kept@ =~= s@.skip(i as int));
    trim_end(kept.as_str())
}

fn lower_char(c: char) -> (r: char)
    ensures
        r == ascii_lower(c),
{
    if 'A' <= c && c <= 'Z' {
        (c as u8 + 32) as char
    } else {
        c
    }
}

fn upper_char(c: char) -> (r: char)
    ensures
        r == ascii_upper(c),
{
    if 'a' <= c && c <= 'z' {
        (c as u8 - 32) as char
    } else {
        c
    }
}

/// `s` with its ASCII capitals made small.
pub fn to_ascii_lowercase(s: &str) -> (r: String)
    ensures
        r@ == lower_text(s@),
{
    let a = chars_of(s);
    let mut r = String::new();
    let mut i: usize = 0;
    while i < a.len()
        invariant
            i <= a@.len(),
            a@ == s@,
            r@ == lower_text(s@.take(i as int)),
        decreases a@.len() - i,
    {
        r.push(lower_char(a[i]));
        assert(r@ =~= lower_text(s@.take(i + 1)));
        i += 1;
    }
    assert(s@.take(s@.len() as int) == s@);
    r
}

/// `s` with its ASCII small letters made capital.
pub fn to_ascii_uppercase(s: &str) -> (r: String)
    ensures
        r@ == upper_text(s@),
{
    let a = chars_of(s);
    let mut r = String::new();
    let mut i: usize = 0;
    while i < a.len()
        invariant
            i <= a@.len(),
            a@ == s@,
            r@ == upper_text(s@.take(i as int)),
        decreases a@.len() - i,
    {
        r.push(upper_char(a[i]));
        assert(r@ =~= upper_text(s@.take(i + 1)));
        i += 1;
    }
    assert(s@.take(s@.len() as int) == s@);
    r
}

/// Whether two strings are equal but for the case of ASCII letters.
pub fn eq_ignore_ascii_case(a: &str, b: &str) -> (r: bool)
    ensures
        r == same_ignoring_case(a@, b@),
{
    let x = to_ascii_lowercase(a);
    let y = to_ascii_lowercase(b);
    same_text(x.as_str(), y.as_str())
}

} // verus!
