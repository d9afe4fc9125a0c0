//! What holds of keys, paths and links as a whole.

use crate::codec;
use crate::keys;
use crate::text::{self, Text};
use vstd::prelude::*;
use vstd::utf8::*;

verus! {

// ---------------------------------------------------------------------------
// Steps of the proofs
// ---------------------------------------------------------------------------

/// What a filter keeps passes it and stood in the sequence.
proof fn lemma_kept(s: Seq<Text>, keep: spec_fn(Text) -> bool)
    ensures
        forall|i: int|
            0 <= i < s.filter(keep).len() ==> keep(#[trigger] s.filter(keep)[i]) && s.contains(
                s.filter(keep)[i],
            ),
    decreases s.len(),
{
    reveal(Seq::filter);
    if s.len() > 0 {
        lemma_kept(s.drop_last(), keep);
        let before = s.drop_last().filter(keep);
        let kept = s.filter(keep);
        assert forall|i: int| 0 <= i < kept.len() implies keep(#[trigger] kept[i]) && s.contains(
            kept[i],
        ) by {
            if i < before.len() {
                assert(kept[i] == before[i]);
                let j = choose|j: int| 0 <= j < s.len() - 1 && s.drop_last()[j] == before[i];
                assert(s[j] == kept[i]);
            } else {
                assert(s[s.len() - 1] == kept[i]);
            }
        }
    }
}

/// A filter that everything passes keeps the sequence.
proof fn lemma_all_kept(s: Seq<Text>, keep: spec_fn(Text) -> bool)
    requires
        forall|i: int| 0 <= i < s.len() ==> keep(#[trigger] s[i]),
    ensures
        s.filter(keep) == s,
    decreases s.len(),
{
    reveal(Seq::filter);
    if s.len() > 0 {
        let init = s.drop_last();
        assert forall|i: int| 0 <= i < init.len() implies keep(#[trigger] init[i]) by {
            assert(init[i] == s[i]);
        }
        lemma_all_kept(init, keep);
        assert(keep(s[s.len() - 1]));
        assert(init.push(s.last()) == s);
    }
}

/// A first piece goes in front, with a separator behind it.
proof fn lemma_join_in_front(first: Text, pieces: Seq<Text>, c: char)
    requires
        pieces.len() >= 1,
    ensures
        text::join_with(seq![first] + pieces, c) == first.push(c) + text::join_with(pieces, c),
    decreases pieces.len(),
{
    let all = seq![first] + pieces;
    if pieces.len() == 1 {
        assert(all.drop_last() == seq![first]);
        assert(all.last() == pieces[0]);
        assert(text::join_with(seq![first], c) == first);
    } else {
        let init = pieces.drop_last();
        lemma_join_in_front(first, init, c);
        assert(all.drop_last() == seq![first] + init);
        assert(all.last() == pieces.last());
        let a = first.push(c);
        let b = text::join_with(init, c);
        assert((a + b).push(c) + pieces.last() == a + (b.push(c) + pieces.last()));
    }
}

/// UTF-8 encodes texts one after another as one text.
pub proof fn lemma_utf8_concat(a: Text, b: Text)
    ensures
        encode_utf8(a + b) == encode_utf8(a) + encode_utf8(b),
    decreases a.len(),
{
    if a.len() == 0 {
        assert(a + b == b);
        assert(encode_utf8(a) + encode_utf8(b) == encode_utf8(b));
    } else {
        lemma_utf8_concat(a.drop_first(), b);
        assert((a + b).drop_first() == a.drop_first() + b);
        let head = encode_scalar(a[0] as u32);
        assert(head + (encode_utf8(a.drop_first()) + encode_utf8(b)) == (head + encode_utf8(
            a.drop_first(),
        )) + encode_utf8(b));
    }
}

/// An ASCII text is its own UTF-8 encoding.
pub proof fn lemma_utf8_of_ascii(s: Text)
    requires
        is_ascii_chars(s),
    ensures
        encode_utf8(s) == codec::ascii_bytes(s),
{
    is_ascii_chars_encode_utf8(s);
    assert(encode_utf8(s) =~= codec::ascii_bytes(s));
}

/// Encoded parts between slashes decode, whatever follows, to the parts between slashes.
proof fn lemma_decode_joined(parts: Seq<Text>, rest: Seq<u8>)
    requires
        parts.len() >= 1,
    ensures
        codec::percent_decoded(
            codec::ascii_bytes(text::join_with(keys::encoded_parts(parts), '/')) + rest,
        ) == encode_utf8(text::join_with(parts, '/')) + codec::percent_decoded(rest),
    decreases parts.len(),
{
    let encoded = keys::encoded_parts(parts);
    let last = parts.last();
    let last_code = codec::percent_encoded(encode_utf8(last));
    codec::lemma_percent_round_trip(encode_utf8(last), rest);
    if parts.len() == 1 {
        assert(encoded[0] == last_code);
    } else {
        let init = parts.drop_last();
        let init_code = text::join_with(keys::encoded_parts(init), '/');
        assert(encoded.drop_last() =~= keys::encoded_parts(init));
        assert(encoded.last() == last_code);
        let slash = seq!['/'];
        let tail = codec::ascii_bytes(last_code) + rest;
        let more = seq![47u8] + tail;
        lemma_decode_joined(init, more);
        assert(more.skip(1) == tail);
        assert(codec::percent_decoded(more) == seq![47u8] + codec::percent_decoded(tail));
        let whole = codec::ascii_bytes(text::join_with(encoded, '/')) + rest;
        assert(whole =~= codec::ascii_bytes(init_code) + more);
        let init_text = text::join_with(init, '/');
        let joined = text::join_with(parts, '/');
        assert(joined == init_text + (slash + last));
        lemma_utf8_concat(init_text, slash + last);
        lemma_utf8_concat(slash, last);
        lemma_utf8_of_ascii(slash);
        assert(encode_utf8(slash) =~= seq![47u8]);
        assert(encode_utf8(joined) + codec::percent_decoded(rest) =~= encode_utf8(init_text) + (
        seq![47u8] + (encode_utf8(last) + codec::percent_decoded(rest))));
    }
}

/// Encoded parts between slashes are ASCII and do not end in a slash, if the last is not empty.
proof fn lemma_joined_code(parts: Seq<Text>)
    requires
        parts.len() >= 1,
    ensures
        is_ascii_chars(text::join_with(keys::encoded_parts(parts), '/')),
        parts.last().len() > 0 ==> {
            let code = text::join_with(keys::encoded_parts(parts), '/');
            code.len() > 0 && code.last() != '/'
        },
    decreases parts.len(),
{
    let encoded = keys::encoded_parts(parts);
    let code = text::join_with(encoded, '/');
    let last = parts.last();
    let last_code = codec::percent_encoded(encode_utf8(last));
    codec::lemma_percent_encoded_ascii(encode_utf8(last));
    assert(encoded.last() == last_code);
    if last.len() > 0 {
        encode_utf8_first_scalar(last);
        assert(last_code.len() > 0);
        let end = last_code[last_code.len() - 1];
    }
    if parts.len() > 1 {
        lemma_joined_code(parts.drop_last());
        assert(encoded.drop_last() =~= keys::encoded_parts(parts.drop_last()));
        let head = text::join_with(encoded.drop_last(), '/');
        assert forall|i: int| 0 <= i < code.len() implies '\0' <= #[trigger] code[i] <= '\u{7f}' by {
            if i < head.len() {
                assert(code[i] == head[i]);
            } else if i > head.len() {
                assert(code[i] == last_code[i - head.len() - 1]);
            }
        }
    } else {
        assert(code == last_code);
        assert forall|i: int| 0 <= i < code.len() implies '\0' <= #[trigger] code[i] <= '\u{7f}' by {
            assert(code[i] == last_code[i]);
        }
    }
}

// ---------------------------------------------------------------------------
// Laws
// ---------------------------------------------------------------------------

/// Every key that a path names is well formed: none of its parts is empty, climbs, names a
/// directory marker or holds a NUL.
pub proof fn law_normalized_keys_are_well_formed(path: Text)
    ensures
        keys::normalized(path) matches Some(key) ==> keys::is_key(key),
{
    if let Some(key) = keys::normalized(path) {
        let decoded = codec::decoded_path(path)->0;
        let pieces = text::split_at_each(decoded, '/');
        let parts = keys::path_parts(decoded);
        lemma_kept(pieces, keys::is_not_empty());
        text::lemma_split_pieces(decoded, '/');
        assert forall|i: int| 0 <= i < parts.len() implies !(#[trigger] parts[i]).contains('/') && parts[i].len() > 0 by {
            let k = choose|k: int| 0 <= k < pieces.len() && pieces[k] == parts[i];
            assert(!pieces[k].contains('/'));
        }
        if parts.len() > 0 {
            text::lemma_split_of_join(parts, '/');
        }
    }
}

/// The text that a link decodes to: the key between slashes.
proof fn lemma_link_decodes(key: Text, tail: Text)
    requires
        key.len() > 0,
        tail == Seq::<char>::empty() || tail == seq!['/'],
    ensures
        codec::decoded_path(keys::plain_href(key) + tail) == Some(seq!['/'] + key + tail),
{
    let href = keys::plain_href(key) + tail;
    let parts = text::split_at_each(key, '/');
    text::lemma_split_nonempty(key, '/');
    text::lemma_join_of_split(key, '/');
    lemma_joined_code(parts);
    let code = text::join_with(keys::encoded_parts(parts), '/');
    assert forall|i: int| 0 <= i < href.len() implies '\0' <= #[trigger] href[i] <= '\u{7f}' by {
        if 0 < i <= code.len() {
            assert(href[i] == code[i - 1]);
        }
    }
    lemma_utf8_of_ascii(href);
    let rest = codec::ascii_bytes(tail);
    let body = codec::ascii_bytes(code) + rest;
    let bytes = encode_utf8(href);
    assert(bytes =~= seq![47u8] + body);
    assert(bytes.skip(1) =~= body);
    lemma_decode_joined(parts, rest);
    assert(codec::percent_decoded(rest) =~= rest) by {
        if tail.len() > 0 {
            assert(rest.skip(1) =~= Seq::<u8>::empty());
            assert(codec::percent_decoded(rest.skip(1)) =~= Seq::<u8>::empty());
        }
    }
    let decoded = seq!['/'] + key + tail;
    lemma_utf8_concat(seq!['/'] + key, tail);
    lemma_utf8_concat(seq!['/'], key);
    lemma_utf8_of_ascii(seq!['/']);
    lemma_utf8_of_ascii(tail);
    assert(encode_utf8(seq!['/']) =~= seq![47u8]);
    assert(codec::percent_decoded(bytes) =~= encode_utf8(decoded));
    encode_utf8_valid_utf8(decoded);
    encode_utf8_decode_utf8(decoded);
}

/// The parts of a key between slashes are the parts of the key.
proof fn lemma_link_parts(key: Text, tail: Text)
    requires
        key.len() > 0,
        keys::is_key(key),
        tail == Seq::<char>::empty() || tail == seq!['/'],
    ensures
        keys::path_parts(seq!['/'] + key + tail) == text::split_at_each(key, '/'),
{
    let nothing = Seq::<char>::empty();
    let parts = text::split_at_each(key, '/');
    text::lemma_split_pieces(key, '/');
    text::lemma_join_of_split(key, '/');
    let decoded = seq!['/'] + key + tail;
    let front = seq![nothing] + parts;
    lemma_join_in_front(nothing, parts, '/');
    assert(nothing.push('/') =~= seq!['/']);
    let end = if tail.len() > 0 {
        seq![nothing]
    } else {
        Seq::<Text>::empty()
    };
    let pieces = front + end;
    if tail.len() > 0 {
        assert(pieces.drop_last() =~= front);
        assert(pieces.last() == nothing);
        assert(text::join_with(pieces, '/') =~= decoded);
    } else {
        assert(pieces =~= front);
        assert(text::join_with(pieces, '/') =~= decoded);
    }
    assert forall|k: int| 0 <= k < pieces.len() implies !(#[trigger] pieces[k]).contains('/') by {
        if 0 < k <= parts.len() {
            assert(pieces[k] == parts[k - 1]);
        } else {
            assert(pieces[k] == nothing);
        }
    }
    text::lemma_split_of_join(pieces, '/');
    let keep = keys::is_not_empty();
    assert forall|i: int| 0 <= i < parts.len() implies keep(#[trigger] parts[i]) by {
        assert(keys::is_key_part(parts[i]));
    }
    lemma_all_kept(parts, keep);
    lemma_none_kept(seq![nothing]);
    lemma_none_kept(end);
    Seq::filter_distributes_over_add(front, end, keep);
    Seq::filter_distributes_over_add(seq![nothing], parts, keep);
    assert(keys::path_parts(decoded) =~= parts);
}

/// A link leads back: the path that `href_for_key` writes for a key names that very key, with a
/// trailing slash or without.
pub proof fn law_links_lead_back(key: Text, trailing_slash: bool)
    requires
        keys::is_key(key),
    ensures
        keys::normalized(keys::href_of(key, trailing_slash)) == Some(key),
{
    let href = keys::href_of(key, trailing_slash);
    let nothing = Seq::<char>::empty();
    if key.len() == 0 {
        assert(href =~= seq!['/']);
        lemma_utf8_of_ascii(href);
        let bytes = encode_utf8(href);
        assert(bytes =~= seq![47u8]);
        assert(bytes.skip(1) =~= Seq::<u8>::empty());
        assert(codec::percent_decoded(bytes.skip(1)) =~= Seq::<u8>::empty());
        assert(codec::percent_decoded(bytes) =~= bytes);
        encode_utf8_valid_utf8(href);
        encode_utf8_decode_utf8(href);
        let pieces = seq![nothing, nothing];
        assert(pieces.drop_last() =~= seq![nothing]);
        assert(text::join_with(seq![nothing], '/') == nothing);
        assert(text::join_with(pieces, '/') =~= href);
        text::lemma_split_of_join(pieces, '/');
        lemma_none_kept(pieces);
        assert(key =~= nothing);
    } else {
        let parts = text::split_at_each(key, '/');
        text::lemma_split_nonempty(key, '/');
        text::lemma_join_of_split(key, '/');
        assert(keys::is_key_part(parts[parts.len() - 1]));
        lemma_joined_code(parts);
        let code = text::join_with(keys::encoded_parts(parts), '/');
        let plain = keys::plain_href(key);
        assert(plain.last() == code.last());
        let tail = if trailing_slash {
            seq!['/']
        } else {
            nothing
        };
        assert(href =~= plain + tail);
        lemma_link_decodes(key, tail);
        lemma_link_parts(key, tail);
        assert forall|i: int| 0 <= i < parts.len() implies !keys::is_forbidden_part(
            #[trigger] parts[i],
        ) by {
            assert(keys::is_key_part(parts[i]));
        }
    }
}

/// Empty pieces are all left out.
proof fn lemma_none_kept(pieces: Seq<Text>)
    requires
        forall|i: int| 0 <= i < pieces.len() ==> (#[trigger] pieces[i]).len() == 0,
    ensures
        pieces.filter(keys::is_not_empty()) == Seq::<Text>::empty(),
    decreases pieces.len(),
{
    reveal(Seq::filter);
    if pieces.len() > 0 {
        let init = pieces.drop_last();
        assert forall|i: int| 0 <= i < init.len() implies (#[trigger] init[i]).len() == 0 by {
            assert(init[i] == pieces[i]);
        }
        lemma_none_kept(init);
        assert(pieces[pieces.len() - 1].len() == 0);
    }
}

/// Directory markers stay hidden: no path names the marker of any directory.
pub proof fn law_no_path_names_a_marker(path: Text, directory: Text)
    ensures
        keys::normalized(path) != Some(keys::marker_of_directory(directory)),
{
    law_normalized_keys_are_well_formed(path);
    let marker = keys::marker_of_directory(directory);
    let prefix = keys::prefix_of_directory(directory);
    let name = keys::DIRECTORY_MARKER@;
    reveal_strlit(".dufs-directory");
    assert(name.len() == 15);
    assert(!name.contains('/'));
    text::lemma_split_append(prefix, name, '/');
    let before = text::split_at_each(prefix, '/');
    assert(before.last() =~= Seq::<char>::empty()) by {
        if directory.len() > 0 {
            assert(prefix.last() == '/');
        }
    }
    assert(before.last() + name =~= name);
    let pieces = text::split_at_each(marker, '/');
    assert(pieces[pieces.len() - 1] == name);
    assert(marker.len() > 0);
    assert(!keys::is_key_part(pieces[pieces.len() - 1]));
}

/// A child of a well-formed directory key is well formed and lies below the directory.
pub proof fn law_children_lie_below(parent: Text, child: Text)
    requires
        keys::is_key(parent),
        keys::is_key_part(child),
        !child.contains('/'),
    ensures
        keys::is_key(keys::joined_key(parent, child)),
        keys::prefix_of_directory(parent).is_prefix_of(keys::joined_key(parent, child)),
{
    let key = keys::joined_key(parent, child);
    let prefix = keys::prefix_of_directory(parent);
    let nothing = Seq::<char>::empty();
    assert(key =~= prefix + child);
    assert(key.subrange(0, prefix.len() as int) =~= prefix);
    text::lemma_split_append(prefix, child, '/');
    let pieces = text::split_at_each(key, '/');
    let before = text::split_at_each(prefix, '/');
    if parent.len() == 0 {
        assert(prefix =~= nothing);
        assert(before =~= seq![nothing]);
        assert(pieces =~= seq![child]) by {
            assert(nothing + child =~= child);
        }
    } else {
        let parts = text::split_at_each(parent, '/');
        assert(prefix.drop_last() =~= parent);
        assert(before =~= parts.push(nothing));
        assert(nothing + child =~= child);
        assert(pieces =~= parts.push(child));
    }
    assert forall|i: int| 0 <= i < pieces.len() implies keys::is_key_part(#[trigger] pieces[i]) by {
        if parent.len() > 0 && i < pieces.len() - 1 {
            assert(pieces[i] == text::split_at_each(parent, '/')[i]);
        }
    }
}

/// The public share is exactly the key `share` and what lies below it: it holds every child of a
/// shared directory, and no key outside.
pub proof fn law_share_is_closed_below(parent: Text, child: Text)
    requires
        keys::in_public_share(parent),
    ensures
        keys::in_public_share(keys::joined_key(parent, child)),
        keys::PUBLIC_SHARE_ROOT@.push('/').is_prefix_of(keys::joined_key(parent, child)),
{
    reveal_strlit("share");
    let root = keys::PUBLIC_SHARE_ROOT@.push('/');
    let key = keys::joined_key(parent, child);
    assert(parent.len() >= 5);
    if parent != keys::PUBLIC_SHARE_ROOT@ {
        assert forall|i: int| 0 <= i < root.len() implies root[i] == key[i] by {
            assert(root[i] == parent.subrange(0, root.len() as int)[i]);
        }
    }
    assert(root =~= key.subrange(0, root.len() as int));
}

/// A name between slashes: it is not empty, does not climb, is not that of a marker, and holds
/// neither a slash nor a NUL.
pub open spec fn is_plain_name(name: Text) -> bool {
    &&& name.len() > 0
    &&& name != "."@
    &&& name != ".."@
    &&& name != ".dufs-directory"@
    &&& !name.contains('/')
    &&& !name.contains('\0')
}

/// The names between slashes make up the key.
pub open spec fn is_made_of(key: Text, names: Seq<Text>) -> bool {
    &&& key == text::join_with(names, '/')
    &&& forall|i: int| 0 <= i < names.len() ==> is_plain_name(#[trigger] names[i])
}

proof fn lemma_made_of(key: Text, names: Seq<Text>)
    requires
        is_made_of(key, names),
    ensures
        keys::is_key(key),
        names.len() > 0 ==> key.len() > 0 && text::split_at_each(key, '/') == names,
        names.len() == 0 ==> key.len() == 0,
{
    if names.len() > 0 {
        text::lemma_split_of_join(names, '/');
        assert(is_plain_name(names[names.len() - 1]));
        if key.len() == 0 {
            assert(text::split_at_each(key, '/') =~= seq![Seq::<char>::empty()]);
            assert(names[0].len() == 0);
        }
    }
}

/// Any names can be used: whatever names a key is made of, in letters of any case, the link to it
/// leads to exactly that key, with a slash at its end or without.
pub proof fn law_any_names_can_be_used(key: Text, names: Seq<Text>, trailing_slash: bool)
    requires
        is_made_of(key, names),
    ensures
        keys::normalized(keys::href_of(key, trailing_slash)) == Some(key),
{
    lemma_made_of(key, names);
    law_links_lead_back(key, trailing_slash);
}

/// The key that a path names is made of what stands between its slashes, once it is decoded: what
/// is empty is left out, and the rest is kept letter by letter and in its order. A path is refused
/// exactly if it cannot be decoded or holds something that is no plain name.
pub proof fn law_paths_name_what_stands_between_slashes(path: Text, pieces: Seq<Text>)
    requires
        codec::decoded_path(path) == Some(text::join_with(pieces, '/')),
        pieces.len() > 0,
        forall|i: int| 0 <= i < pieces.len() ==> !(#[trigger] pieces[i]).contains('/'),
    ensures
        ({
            let names = pieces.filter(|piece: Text| piece.len() > 0);
            if forall|i: int| 0 <= i < pieces.len() && (#[trigger] pieces[i]).len() > 0 ==> is_plain_name(pieces[i]) {
                keys::normalized(path) == Some(text::join_with(names, '/'))
            } else {
                keys::normalized(path) is None
            }
        }),
{
    let keep = |piece: Text| piece.len() > 0;
    assert(keep =~= keys::is_not_empty());
    text::lemma_split_of_join(pieces, '/');
    let names = pieces.filter(keep);
    lemma_kept(pieces, keep);
    lemma_all_in(pieces, keep);
    if forall|i: int| 0 <= i < pieces.len() && (#[trigger] pieces[i]).len() > 0 ==> is_plain_name(pieces[i]) {
        assert forall|i: int| 0 <= i < names.len() implies !keys::is_forbidden_part(
            #[trigger] names[i],
        ) by {
            let k = choose|k: int| 0 <= k < pieces.len() && pieces[k] == names[i];
            assert(is_plain_name(pieces[k]));
        }
    } else {
        let k = choose|k: int|
            0 <= k < pieces.len() && (#[trigger] pieces[k]).len() > 0 && !is_plain_name(pieces[k]);
        let i = choose|i: int| 0 <= i < names.len() && names[i] == pieces[k];
        assert(keys::is_forbidden_part(names[i]));
    }
}

/// What passes a filter is kept.
proof fn lemma_all_in(s: Seq<Text>, keep: spec_fn(Text) -> bool)
    ensures
        forall|i: int| 0 <= i < s.len() && keep(#[trigger] s[i]) ==> s.filter(keep).contains(s[i]),
    decreases s.len(),
{
    reveal(Seq::filter);
    if s.len() > 0 {
        lemma_all_in(s.drop_last(), keep);
        let before = s.drop_last().filter(keep);
        let kept = s.filter(keep);
        assert forall|i: int| 0 <= i < s.len() && keep(#[trigger] s[i]) implies kept.contains(
            s[i],
        ) by {
            if i < s.len() - 1 {
                assert(s.drop_last()[i] == s[i]);
                let j = choose|j: int| 0 <= j < before.len() && before[j] == s[i];
                assert(kept[j] == s[i]);
            } else {
                assert(kept[kept.len() - 1] == s[i]);
            }
        }
    }
}

/// A link to a key of letters and digits is the key behind a slash; every other character of a name
/// is written as the bytes of its UTF-8 encoding, each as a percent sign and two hexadecimal digits.
pub proof fn law_links_spell_out_their_key(names: Seq<Text>, trailing_slash: bool)
    requires
        names.len() > 0,
        is_made_of(text::join_with(names, '/'), names),
    ensures
        ({
            let code = Seq::new(
                names.len(),
                |i: int| codec::percent_encoded(encode_utf8(names[i])),
            );
            let link = seq!['/'] + text::join_with(code, '/');
            keys::href_of(text::join_with(names, '/'), trailing_slash) == if trailing_slash {
                link.push('/')
            } else {
                link
            }
        }),
{
    let key = text::join_with(names, '/');
    lemma_made_of(key, names);
    lemma_joined_code(names);
    let code = Seq::new(names.len(), |i: int| codec::percent_encoded(encode_utf8(names[i])));
    assert(code =~= keys::encoded_parts(names));
    let link = seq!['/'] + text::join_with(code, '/');
    assert(is_plain_name(names[names.len() - 1]));
    assert(link.last() == text::join_with(code, '/').last());
}

/// What lies below a directory starts with its key and a slash; everything lies below the root. The
/// marker lies there under its own name, and so does each entry.
pub proof fn law_directories_are_prefixes(key: Text, child: Text)
    ensures
        key.len() > 0 ==> keys::prefix_of_directory(key) == key + "/"@,
        key.len() == 0 ==> keys::prefix_of_directory(key).len() == 0,
        keys::joined_key(key, child) == keys::prefix_of_directory(key) + child,
        keys::marker_of_directory(key) == keys::prefix_of_directory(key) + ".dufs-directory"@,
{
    reveal_strlit("/");
    assert(key.push('/') =~= key + "/"@);
    assert(Seq::<char>::empty() + child =~= child);
}

/// The share is what is called `share` and what lies below it, and nothing else.
pub proof fn law_the_share_is_what_lies_below_it(key: Text)
    ensures
        keys::in_public_share(key) <==> key == "share"@ || "share/"@.is_prefix_of(key),
{
    reveal_strlit("share");
    reveal_strlit("share/");
    assert(keys::PUBLIC_SHARE_ROOT@.push('/') =~= "share/"@);
}

/// A destination is named by a link to it or by a URL with such a path: whatever names the key is
/// made of, in letters of any case, the header names exactly that key.
pub proof fn law_destinations_are_named_by_links(
    header: Text,
    key: Text,
    names: Seq<Text>,
    trailing_slash: bool,
)
    requires
        is_made_of(key, names),
        codec::url_path(header) == Some(keys::href_of(key, trailing_slash)) || codec::url_path(
            header,
        ) is None && header == keys::href_of(key, trailing_slash),
    ensures
        keys::destination_of(Some(header)) == Some(key),
{
    law_any_names_can_be_used(key, names, trailing_slash);
}

/// A destination is read as a request path is: whatever path the header carries names the same key
/// as a request for it.
pub proof fn law_destinations_are_read_like_paths(header: Text, path: Text)
    requires
        codec::url_path(header) == Some(path) || codec::url_path(header) is None && header == path,
    ensures
        keys::destination_of(Some(header)) == keys::normalized(path),
        keys::destination_of(None) is None,
{
}

} // verus!
