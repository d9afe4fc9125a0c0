//! The `Range` header.

use crate::numbers::{self, parse_u64};
use crate::text::{self, contains_char, split_once, strip_prefix, Text};
use vstd::prelude::*;

verus! {

/// The first and last byte that a `Range` header asks for of an object with `size` bytes. Only a
/// single range is served: `a-b`, `a-` to the end, or `-n` for the last `n` bytes.
pub open spec fn requested_range(value: Text, size: nat) -> Option<(nat, nat)> {
    match text::without_prefix(value, "bytes="@) {
        Some(range) => {
            if range.contains(',') || size == 0 {
                None
            } else {
                match text::split_once_at(range, '-') {
                    Some((start, end)) => bounds(start, end, size),
                    None => None,
                }
            }
        },
        None => None,
    }
}

/// The bytes between the two ends of a range, each of which may be left out.
pub open spec fn bounds(start: Text, end: Text, size: nat) -> Option<(nat, nat)> {
    let max = u64::MAX as nat;
    if start.len() == 0 {
        match numbers::parsed(end, max) {
            Some(suffix) => {
                if suffix == 0 {
                    None
                } else {
                    Some((if suffix >= size { 0 } else { (size - suffix) as nat }, (size - 1) as nat))
                }
            },
            None => None,
        }
    } else {
        match numbers::parsed(start, max) {
            Some(first) => {
                let last = if end.len() == 0 {
                    Some((size - 1) as nat)
                } else {
                    match numbers::parsed(end, max) {
                        Some(n) => Some(if n < size { n } else { (size - 1) as nat }),
                        None => None,
                    }
                };
                match last {
                    Some(last) => {
                        if first < size && first <= last {
                            Some((first, last))
                        } else {
                            None
                        }
                    },
                    None => None,
                }
            },
            None => None,
        }
    }
}

/// The first and last byte that the `Range` header `value` asks for.
pub fn parse_range(value: &str, size: u64) -> (r: Result<(u64, u64), ()>)
    ensures
        match requested_range(value@, size as nat) {
            Some((first, last)) => r matches Ok((a, b)) && a == first && b == last,
            None => r is Err,
        },
{
    let range = match strip_prefix(value, "bytes=") {
        Some(range) => range,
        None => return Err(()),
    };
    if contains_char(range.as_str(), ',') || size == 0 {
        return Err(());
    }
    let (start, end) = match split_once(range.as_str(), '-') {
        Some(ends) => ends,
        None => return Err(()),
    };
    if start.as_str().is_empty() {
        return match parse_u64(end.as_str()) {
            Some(suffix) => {
                if suffix == 0 {
                    Err(())
                } else if suffix >= size {
                    Ok((0, size - 1))
                } else {
                    Ok((size - suffix, size - 1))
                }
            },
            None => Err(()),
        };
    }
    let first = match parse_u64(start.as_str()) {
        Some(n) => n,
        None => return Err(()),
    };
    if first >= size {
        return Err(());
    }
    let last = if end.as_str().is_empty() {
        size - 1
    } else {
        match parse_u64(end.as_str()) {
            Some(n) => if n < size {
                n
            } else {
                size - 1
            },
            None => return Err(()),
        }
    };
    if last < first {
        return Err(());
    }
    Ok((first, last))
}

/// A range that is served lies within the object.
pub proof fn law_served_ranges_lie_within(value: Text, size: nat)
    ensures
        requested_range(value, size) matches Some((first, last)) ==> first <= last < size,
{
}

/// A number that is written out holds neither a minus, nor a comma, nor a plus.
proof fn lemma_written(n: nat)
    ensures
        numbers::decimal(n).len() > 0,
        !numbers::decimal(n).contains('-'),
        !numbers::decimal(n).contains(','),
{
    numbers::lemma_decimal(n);
    let s = numbers::decimal(n);
    assert forall|i: int| 0 <= i < s.len() implies s[i] != '-' && s[i] != ',' by {
        assert(numbers::is_digit(s[i]));
    }
}

/// What stands behind `bytes=` is read as the two ends on both sides of the first minus.
proof fn lemma_ends(start: Text, end: Text, size: nat)
    requires
        !start.contains('-'),
        !start.contains(','),
        !end.contains(','),
        size > 0,
    ensures
        requested_range("bytes="@ + start + "-"@ + end, size) == bounds(start, end, size),
{
    reveal_strlit("bytes=");
    reveal_strlit("-");
    let value = "bytes="@ + start + "-"@ + end;
    let range = start + "-"@ + end;
    assert(value.subrange(0, 6) =~= "bytes="@);
    assert(value.skip(6) =~= range);
    assert(!range.contains(',')) by {
        assert forall|i: int| 0 <= i < range.len() implies range[i] != ',' by {
            if i < start.len() {
                assert(start.contains(start[i]));
            } else if i > start.len() {
                assert(end.contains(end[i - start.len() - 1]));
            }
        }
    }
    assert forall|j: int| 0 <= j < start.len() implies range[j] != '-' by {
        assert(start.contains(start[j]));
    }
    text::lemma_first_index_is(range, '-', start.len() as int);
    assert(range.take(start.len() as int) =~= start);
    assert(range.skip(start.len() as int + 1) =~= end);
}

/// What a range that begins at a byte of the object asks for: everything from there on, or what
/// lies up to and with its last byte. An end beyond the object is the end of the object; an end
/// ahead of the beginning is refused.
pub proof fn law_ranges_from_a_byte_are_served(first: nat, last: nat, size: nat)
    requires
        size <= u64::MAX,
        first <= u64::MAX,
        last <= u64::MAX,
    ensures
        ({
            let open_ended = "bytes="@ + numbers::decimal(first) + "-"@;
            let closed = open_ended + numbers::decimal(last);
            &&& first < size ==> requested_range(open_ended, size) == Some(
                (first, (size - 1) as nat),
            )
            &&& first <= last < size ==> requested_range(closed, size) == Some((first, last))
            &&& first < size <= last ==> requested_range(closed, size) == Some(
                (first, (size - 1) as nat),
            )
            &&& first >= size ==> requested_range(open_ended, size) is None
            &&& first >= size || last < first ==> requested_range(closed, size) is None
        }),
{
    let nothing = Seq::<char>::empty();
    let (start, end) = (numbers::decimal(first), numbers::decimal(last));
    lemma_written(first);
    lemma_written(last);
    numbers::lemma_parse_of_decimal(first, u64::MAX as nat);
    numbers::lemma_parse_of_decimal(last, u64::MAX as nat);
    let open_ended = "bytes="@ + start + "-"@;
    assert(open_ended + nothing =~= open_ended);
    if size > 0 {
        lemma_ends(start, nothing, size);
        lemma_ends(start, end, size);
    }
}

/// What a range counted from the end asks for: that many of the last bytes, or all of a shorter
/// object. None of them is refused.
pub proof fn law_ranges_from_the_end_are_served(count: nat, size: nat)
    requires
        0 < size <= u64::MAX,
        count <= u64::MAX,
    ensures
        ({
            let value = "bytes=-"@ + numbers::decimal(count);
            &&& 0 < count < size ==> requested_range(value, size) == Some(
                ((size - count) as nat, (size - 1) as nat),
            )
            &&& count >= size ==> requested_range(value, size) == Some((0nat, (size - 1) as nat))
            &&& count == 0 ==> requested_range(value, size) is None
        }),
{
    let nothing = Seq::<char>::empty();
    lemma_written(count);
    numbers::lemma_parse_of_decimal(count, u64::MAX as nat);
    reveal_strlit("bytes=");
    reveal_strlit("-");
    reveal_strlit("bytes=-");
    assert("bytes="@ + nothing + "-"@ =~= "bytes=-"@);
    lemma_ends(nothing, numbers::decimal(count), size);
}

/// Something stands in `s` that has no place in a number.
pub open spec fn holds_no_number(s: Text) -> bool {
    exists|i: int| 0 <= i < s.len() && !('0' <= #[trigger] s[i] <= '9') && s[i] != '+'
}

proof fn lemma_no_number(s: Text)
    requires
        holds_no_number(s),
    ensures
        numbers::parsed(s, u64::MAX as nat) is None,
{
    let i = choose|i: int| 0 <= i < s.len() && !('0' <= #[trigger] s[i] <= '9') && s[i] != '+';
    let digits = numbers::unsigned_digits(s);
    let k = if s[0] == '+' {
        i - 1
    } else {
        i
    };
    assert(digits[k] == s[i]);
    assert(!numbers::is_digit(digits[k]));
}

/// Whatever else a header says, nothing is served: it is not about bytes, asks for several ranges,
/// has no minus, or has something else than a number at one of its ends. Of an empty object there is
/// no range.
pub proof fn law_other_ranges_are_refused(value: Text, start: Text, end: Text, size: nat)
    ensures
        !"bytes="@.is_prefix_of(value) ==> requested_range(value, size) is None,
        value.contains(',') ==> requested_range(value, size) is None,
        !value.contains('-') ==> requested_range(value, size) is None,
        size == 0 ==> requested_range(value, size) is None,
        !start.contains('-') && (holds_no_number(start) || holds_no_number(end) || start.len() == 0
            && end.len() == 0) ==> requested_range("bytes="@ + start + "-"@ + end, size) is None,
        forall|n: nat|
            n > u64::MAX && !start.contains('-') && (start == #[trigger] numbers::decimal(n) || end
                == numbers::decimal(n)) ==> requested_range("bytes="@ + start + "-"@ + end, size)
                is None,
{
    reveal_strlit("bytes=");
    reveal_strlit("-");
    if "bytes="@.is_prefix_of(value) {
        let range = value.skip(6);
        if value.contains(',') {
            let i = choose|i: int| 0 <= i < value.len() && value[i] == ',';
            assert(value[i] == value.subrange(0, 6)[i] || i >= 6);
            assert(range[i - 6] == ',');
        }
        if !value.contains('-') {
            text::lemma_first_index(range, '-');
            let i = text::first_index(range, '-');
            if i < range.len() {
                assert(value[i + 6] == '-');
            }
        }
    }
    let between = "bytes="@ + start + "-"@ + end;
    assert forall|n: nat|
        n > u64::MAX && (start == #[trigger] numbers::decimal(n) || end == numbers::decimal(
            n,
        )) implies numbers::parsed(numbers::decimal(n), u64::MAX as nat) is None && numbers::decimal(
        n,
    ).len() > 0 by {
        numbers::law_numbers_are_read_back(n, u64::MAX as nat, Seq::empty());
        numbers::lemma_decimal(n);
    }
    if !start.contains('-') && size > 0 {
        if start.contains(',') || end.contains(',') {
            let i = if start.contains(',') {
                choose|i: int| 0 <= i < start.len() && start[i] == ','
            } else {
                choose|i: int| 0 <= i < end.len() && end[i] == ','
            };
            let at = if start.contains(',') {
                i
            } else {
                start.len() + 1 + i
            };
            assert(between.skip(6)[at] == ',');
            assert(between.skip(6).contains(','));
        } else {
            lemma_ends(start, end, size);
            if holds_no_number(start) {
                lemma_no_number(start);
            }
            if holds_no_number(end) {
                lemma_no_number(end);
            }
        }
    }
}

} // verus!
