//! What holds of cutting, trimming and replacing text.

use crate::text::{self, Text};
use vstd::prelude::*;

verus! {

/// What stands behind the last `c` and ahead of it: a text without any is a last part as a whole.
pub proof fn law_last_parts_are_cut_off(head: Text, tail: Text, c: char)
    requires
        !tail.contains(c),
    ensures
        text::after_last(head + seq![c] + tail, c) == tail,
        text::before_last(head + seq![c] + tail, c) == Some(head),
        text::after_last(tail, c) == tail,
        text::before_last(tail, c) is None,
{
    let whole = head + seq![c] + tail;
    text::lemma_last_index(whole, c);
    text::lemma_last_index(tail, c);
    let i = text::last_index(whole, c);
    assert(whole[head.len() as int] == c);
    if i > head.len() {
        assert(tail[i - head.len() - 1] == c);
        assert(tail.contains(c));
    }
    assert(whole.skip(i + 1) =~= tail);
    assert(whole.take(i) =~= head);
    let j = text::last_index(tail, c);
    if j >= 0 {
        assert(tail.contains(tail[j]));
    }
    assert(tail.skip(0) =~= tail);
}

/// A text is cut at the first `c`; without one it is not cut.
pub proof fn law_texts_are_cut_at_the_first(head: Text, tail: Text, c: char)
    requires
        !head.contains(c),
    ensures
        text::split_once_at(head + seq![c] + tail, c) == Some((head, tail)),
        text::split_once_at(head, c) is None,
{
    let whole = head + seq![c] + tail;
    assert forall|j: int| 0 <= j < head.len() implies whole[j] != c && head[j] != c by {
        assert(head.contains(head[j]));
    }
    text::lemma_first_index_is(whole, c, head.len() as int);
    text::lemma_first_index_is(head, c, head.len() as int);
    assert(whole.take(head.len() as int) =~= head);
    assert(whole.skip(head.len() as int + 1) =~= tail);
}

/// White space as it is written in headers: blanks and tabs.
pub open spec fn is_blank(s: Text) -> bool {
    forall|i: int| 0 <= i < s.len() ==> #[trigger] s[i] == ' ' || s[i] == '\t'
}

/// The text begins and ends with something else than white space: a visible character of ASCII.
pub open spec fn has_visible_ends(s: Text) -> bool {
    s.len() > 0 && '!' <= s[0] <= '~' && '!' <= s.last() <= '~'
}

proof fn lemma_trim_start(front: Text, s: Text)
    requires
        is_blank(front),
        s.len() > 0,
        '!' <= s[0] <= '~',
    ensures
        text::trim_start_spaces(front + s) == s,
    decreases front.len(),
{
    if front.len() == 0 {
        assert(front + s =~= s);
    } else {
        let rest = front.drop_first();
        assert forall|i: int| 0 <= i < rest.len() implies #[trigger] rest[i] == ' ' || rest[i] == '\t' by {
            assert(rest[i] == front[i + 1]);
        }
        assert(front[0] == ' ' || front[0] == '\t');
        assert((front + s).drop_first() =~= rest + s);
        lemma_trim_start(rest, s);
    }
}

proof fn lemma_trim_end(s: Text, back: Text)
    requires
        is_blank(back),
        s.len() > 0,
        '!' <= s.last() <= '~',
    ensures
        text::trim_end_spaces(s + back) == s,
    decreases back.len(),
{
    if back.len() == 0 {
        assert(s + back =~= s);
    } else {
        let rest = back.drop_last();
        assert forall|i: int| 0 <= i < rest.len() implies #[trigger] rest[i] == ' ' || rest[i] == '\t' by {
            assert(rest[i] == back[i]);
        }
        assert(back[back.len() - 1] == ' ' || back[back.len() - 1] == '\t');
        assert((s + back).drop_last() =~= s + rest);
        lemma_trim_end(s, rest);
    }
}

/// Blanks around a text are trimmed, and nothing of the text itself.
pub proof fn law_blanks_are_trimmed(front: Text, s: Text, back: Text)
    requires
        is_blank(front),
        is_blank(back),
        has_visible_ends(s),
    ensures
        text::trimmed(front + s + back) == s,
        text::trim_end_spaces(s + back) == s,
{
    assert(front + s + back =~= front + (s + back));
    lemma_trim_start(front, s + back);
    lemma_trim_end(s, back);
}

/// Letters of the Latin alphabet have two cases; every other character stays as it is.
pub proof fn law_letters_change_case(s: Text, i: int)
    requires
        0 <= i < s.len(),
    ensures
        text::upper_text(s).len() == s.len(),
        text::lower_text(s).len() == s.len(),
        'a' <= s[i] <= 'z' ==> text::upper_text(s)[i] as int == s[i] as int - 'a' as int + 'A' as int,
        'A' <= s[i] <= 'Z' ==> text::lower_text(s)[i] as int == s[i] as int - 'A' as int + 'a' as int,
        !('a' <= s[i] <= 'z') ==> text::upper_text(s)[i] == s[i],
        !('A' <= s[i] <= 'Z') ==> text::lower_text(s)[i] == s[i],
{
}

/// The pattern does not stand in the text, nor begins in it and ends in what follows.
pub open spec fn is_free_of(s: Text, rest: Text, pattern: Text) -> bool {
    forall|i: int| 0 <= i < s.len() ==> !pattern.is_prefix_of(#[trigger] (s + rest).skip(i))
}

pub proof fn lemma_free(s: Text, rest: Text, pattern: Text, with: Text)
    requires
        pattern.len() > 0,
        is_free_of(s, rest, pattern),
    ensures
        text::replace_each(s + rest, pattern, with) == s + text::replace_each(rest, pattern, with),
    decreases s.len(),
{
    if s.len() == 0 {
        assert(s + rest =~= rest);
        assert(s + text::replace_each(rest, pattern, with) =~= text::replace_each(
            rest,
            pattern,
            with,
        ));
    } else {
        let tail = s.drop_first();
        assert((s + rest).drop_first() =~= tail + rest);
        assert((s + rest).skip(0) =~= s + rest);
        assert forall|i: int| 0 <= i < tail.len() implies !pattern.is_prefix_of(
            #[trigger] (tail + rest).skip(i),
        ) by {
            assert((tail + rest).skip(i) =~= (s + rest).skip(i + 1));
        }
        lemma_free(tail, rest, pattern, with);
        assert(seq![s[0]] + (tail + text::replace_each(rest, pattern, with)) =~= s
            + text::replace_each(rest, pattern, with));
    }
}

/// A text without the first letter of the pattern is free of it, whatever follows.
pub proof fn lemma_free_by_letter(s: Text, rest: Text, pattern: Text, with: Text)
    requires
        pattern.len() > 0,
        !s.contains(pattern[0]),
    ensures
        text::replace_each(s + rest, pattern, with) == s + text::replace_each(rest, pattern, with),
{
    assert forall|i: int| 0 <= i < s.len() implies !pattern.is_prefix_of(
        #[trigger] (s + rest).skip(i),
    ) by {
        let here = (s + rest).skip(i);
        if pattern.is_prefix_of(here) {
            assert(here.subrange(0, pattern.len() as int)[0] == s[i]);
            assert(s.contains(s[i]));
        }
    }
    lemma_free(s, rest, pattern, with);
}

/// Where a pattern stands it is replaced, and all else stays. The pattern begins with a letter that
/// does not stand elsewhere in the text.
pub proof fn law_patterns_are_replaced(before: Text, pattern: Text, behind: Text, with: Text)
    requires
        pattern.len() > 0,
        !before.contains(pattern[0]),
        !behind.contains(pattern[0]),
    ensures
        text::replace_each(before + pattern + behind, pattern, with) == before + with + behind,
{
    let rest = pattern + behind;
    assert(before + pattern + behind =~= before + rest);
    lemma_free_by_letter(before, rest, pattern, with);
    assert(rest.subrange(0, pattern.len() as int) =~= pattern);
    assert(rest.skip(pattern.len() as int) =~= behind);
    law_nothing_else_is_replaced(behind, pattern, with);
    assert(text::replace_each(rest, pattern, with) =~= with + behind);
    assert(before + (with + behind) =~= before + with + behind);
}

/// A text in which the pattern does not stand stays as it is.
pub proof fn law_nothing_else_is_replaced(s: Text, pattern: Text, with: Text)
    requires
        pattern.len() > 0,
        !s.contains(pattern[0]),
    ensures
        text::replace_each(s, pattern, with) == s,
{
    let nothing = Seq::<char>::empty();
    lemma_free_by_letter(s, nothing, pattern, with);
    assert(s + nothing =~= s);
    assert(text::replace_each(nothing, pattern, with) =~= nothing);
}

} // verus!
