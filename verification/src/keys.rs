//! Object keys: how request paths, directories and links name them.

use crate::codec::{self, parse_url_path, percent_decode, percent_encode};
use crate::text::{self, contains_char, ends_with_char, join, same_text, split, starts_with, Text};
use vstd::prelude::*;
use vstd::utf8::*;

verus! {

/// The name of the object that keeps an empty directory in existence.
pub const DIRECTORY_MARKER: &'static str = ".dufs-directory";

/// The directory that is readable without credentials.
pub const PUBLIC_SHARE_ROOT: &'static str = "share";

// ---------------------------------------------------------------------------
// What keys are
// ---------------------------------------------------------------------------

/// A part that no path may hold: it would climb, or name a marker, or carry a NUL.
pub open spec fn is_forbidden_part(part: Text) -> bool {
    ||| part == "."@
    ||| part == ".."@
    ||| part == DIRECTORY_MARKER@
    ||| part.contains('\0')
}

/// Says of a part whether it holds anything.
pub open spec fn is_not_empty() -> spec_fn(Text) -> bool {
    |part: Text| part.len() > 0
}

/// The parts of a decoded path: what stands between slashes, empty parts left out.
pub open spec fn path_parts(decoded: Text) -> Seq<Text> {
    text::split_at_each(decoded, '/').filter(is_not_empty())
}

/// No part of `parts` is forbidden.
pub open spec fn all_allowed(parts: Seq<Text>) -> bool {
    forall|i: int| 0 <= i < parts.len() ==> !is_forbidden_part(#[trigger] parts[i])
}

/// The key that a request path names: its decoded parts joined by slashes. None if the path does
/// not decode to UTF-8 or holds a forbidden part.
pub open spec fn normalized(path: Text) -> Option<Text> {
    match codec::decoded_path(path) {
        Some(decoded) => {
            if all_allowed(path_parts(decoded)) {
                Some(text::join_with(path_parts(decoded), '/'))
            } else {
                None
            }
        },
        None => None,
    }
}

/// A part that a key may hold.
pub open spec fn is_key_part(part: Text) -> bool {
    part.len() > 0 && !is_forbidden_part(part)
}

/// A key that some path can name: the empty key of the root, or allowed parts between slashes.
pub open spec fn is_key(key: Text) -> bool {
    key.len() == 0 || forall|i: int|
        0 <= i < text::split_at_each(key, '/').len() ==> is_key_part(
            #[trigger] text::split_at_each(key, '/')[i],
        )
}

/// What every key below the directory `key` starts with.
pub open spec fn prefix_of_directory(key: Text) -> Text {
    if key.len() == 0 {
        Seq::empty()
    } else {
        key.push('/')
    }
}

/// The key of the marker that keeps the directory `key`.
pub open spec fn marker_of_directory(key: Text) -> Text {
    prefix_of_directory(key) + DIRECTORY_MARKER@
}

/// The key of `child` in the directory `parent`.
pub open spec fn joined_key(parent: Text, child: Text) -> Text {
    if parent.len() == 0 {
        child
    } else {
        parent.push('/') + child
    }
}

/// The parts of a key, each in percent-encoding.
pub open spec fn encoded_parts(parts: Seq<Text>) -> Seq<Text> {
    Seq::new(parts.len(), |i: int| codec::percent_encoded(encode_utf8(parts[i])))
}

/// The absolute path of a link to `key`, without regard to a trailing slash.
pub open spec fn plain_href(key: Text) -> Text {
    if key.len() == 0 {
        seq!['/']
    } else {
        seq!['/'] + text::join_with(encoded_parts(text::split_at_each(key, '/')), '/')
    }
}

/// The absolute path of a link to `key`.
pub open spec fn href_of(key: Text, trailing_slash: bool) -> Text {
    let href = plain_href(key);
    if trailing_slash && href.last() != '/' {
        href.push('/')
    } else {
        href
    }
}

/// Below the public share root, or the root itself.
pub open spec fn in_public_share(key: Text) -> bool {
    key == PUBLIC_SHARE_ROOT@ || PUBLIC_SHARE_ROOT@.push('/').is_prefix_of(key)
}

/// The key that a `Destination` header names: it may be an absolute URL or a bare path.
pub open spec fn destination_of(header: Option<Text>) -> Option<Text> {
    match header {
        Some(value) => match codec::url_path(value) {
            Some(path) => normalized(path),
            None => normalized(value),
        },
        None => None,
    }
}

// ---------------------------------------------------------------------------
// The functions
// ---------------------------------------------------------------------------

fn forbidden_part(part: &str) -> (r: bool)
    ensures
        r == is_forbidden_part(part@),
{
    same_text(part, ".") || same_text(part, "..") || same_text(part, DIRECTORY_MARKER)
        || contains_char(part, '\0')
}

/// The key that the request path `path` names.
pub fn normalize_key(path: &str) -> (r: Result<String, ()>)
    ensures
        match normalized(path@) {
            Some(key) => r matches Ok(k) && k@ == key,
            None => r is Err,
        },
{
    match percent_decode(path) {
        Some(decoded) => normalize_decoded(decoded.as_str()),
        None => Err(()),
    }
}

/// The key that a path names, once it is decoded.
pub fn normalize_decoded(decoded: &str) -> (r: Result<String, ()>)
    ensures
        match r {
            Ok(key) => all_allowed(path_parts(decoded@)) && key@ == text::join_with(
                path_parts(decoded@),
                '/',
            ),
            Err(_) => !all_allowed(path_parts(decoded@)),
        },
{
    let pieces = split(decoded, '/');
    let ghost all = text::split_at_each(decoded@, '/');
    let ghost keep = is_not_empty();
    let mut parts: Vec<String> = Vec::new();
    let mut i: usize = 0;
    assert(parts.deep_view() == all.take(0).filter(keep));
    while i < pieces.len()
        invariant
            i <= pieces@.len(),
            all == text::split_at_each(decoded@, '/'),
            keep == is_not_empty(),
            pieces.deep_view() == all,
            parts.deep_view() == all.take(i as int).filter(keep),
            all_allowed(parts.deep_view()),
        decreases pieces@.len() - i,
    {
        let piece = &pieces[i];
        assert(all[i as int] == piece@);
        assert(all.take(i + 1).drop_last() == all.take(i as int));
        let ghost before = parts.deep_view();
        proof {
            reveal(Seq::filter);
        }
        if piece.as_str().is_empty() {
            assert(all.take(i + 1).filter(keep) == before);
        } else {
            assert(all.take(i + 1).filter(keep) == before.push(piece@));
            if forbidden_part(piece.as_str()) {
                proof {
                    lemma_filter_grows(all, keep, i + 1);
                    let k = before.len() as int;
                    assert(before.push(piece@)[k] == piece@);
                    assert(path_parts(decoded@)[k] == piece@);
                }
                return Err(());
            }
            parts.push(piece.clone());
            assert(parts.deep_view() =~= before.push(piece@));
        }
        i += 1;
    }
    assert(all.take(all.len() as int) == all);
    Ok(join(&parts, '/'))
}

/// Filtering more of a sequence only adds at the end.
proof fn lemma_filter_grows(s: Seq<Text>, keep: spec_fn(Text) -> bool, i: int)
    requires
        0 <= i <= s.len(),
    ensures
        s.take(i).filter(keep).is_prefix_of(s.filter(keep)),
    decreases s.len() - i,
{
    if i == s.len() {
        assert(s.take(i) == s);
    } else {
        lemma_filter_grows(s, keep, i + 1);
        let next = s.take(i + 1);
        assert(next.drop_last() == s.take(i));
        reveal(Seq::filter);
        let a = s.take(i).filter(keep);
        let b = next.filter(keep);
        let whole = s.filter(keep);
        assert(a.is_prefix_of(b));
        assert forall|j: int| 0 <= j < a.len() implies a[j] == whole[j] by {
            assert(b[j] == b.subrange(0, a.len() as int)[j]);
            assert(whole[j] == whole.subrange(0, b.len() as int)[j]);
        }
        assert(a =~= whole.subrange(0, a.len() as int));
    }
}

/// What every key below the directory `key` starts with.
pub fn directory_prefix(key: &str) -> (r: String)
    ensures
        r@ == prefix_of_directory(key@),
{
    if key.is_empty() {
        String::new()
    } else {
        let mut prefix = key.to_owned();
        prefix.push('/');
        prefix
    }
}

/// The key of the marker that keeps the directory `key`.
pub fn directory_marker(key: &str) -> (r: String)
    ensures
        r@ == marker_of_directory(key@),
{
    let mut marker = directory_prefix(key);
    marker.append(DIRECTORY_MARKER);
    marker
}

/// The key of `child` in the directory `parent`.
pub fn join_key(parent: &str, child: &str) -> (r: String)
    ensures
        r@ == joined_key(parent@, child@),
{
    if parent.is_empty() {
        child.to_owned()
    } else {
        let mut key = parent.to_owned();
        key.push('/');
        key.append(child);
        key
    }
}

/// The absolute path of a link to `key`.
pub fn href_for_key(key: &str, trailing_slash: bool) -> (r: String)
    ensures
        r@ == href_of(key@, trailing_slash),
{
    let mut href = String::new();
    href.push('/');
    assert(href@ =~= seq!['/']);
    if !key.is_empty() {
        let parts = split(key, '/');
        let ghost all = text::split_at_each(key@, '/');
        let mut encoded: Vec<String> = Vec::new();
        let mut i: usize = 0;
        while i < parts.len()
            invariant
                i <= parts@.len(),
                parts.deep_view() == all,
                encoded.deep_view() == encoded_parts(all.take(i as int)),
            decreases parts@.len() - i,
        {
            let ghost before = encoded.deep_view();
            assert(all[i as int] == parts@[i as int]@);
            let code = percent_encode(parts[i].as_str());
            let ghost code_view = code@;
            encoded.push(code);
            assert(encoded.deep_view() =~= before.push(code_view));
            assert(before.push(code_view) =~= encoded_parts(all.take(i + 1)));
            i += 1;
        }
        assert(all.take(all.len() as int) == all);
        let joined = join(&encoded, '/');
        href.append(joined.as_str());
    }
    if trailing_slash && !ends_with_char(href.as_str(), '/') {
        href.push('/');
    }
    href
}

/// Whether `key` is the public share root or below it.
pub fn is_public_share_key(key: &str) -> (r: bool)
    ensures
        r == in_public_share(key@),
{
    let mut below = PUBLIC_SHARE_ROOT.to_owned();
    below.push('/');
    same_text(key, PUBLIC_SHARE_ROOT) || starts_with(key, below.as_str())
}

/// The key that a `Destination` header names.
pub fn destination_key(destination: Option<&str>) -> (r: Option<String>)
    ensures
        r.deep_view() == destination_of(destination.deep_view()),
{
    match destination {
        Some(value) => {
            let named = match parse_url_path(value) {
                Some(path) => normalize_key(path.as_str()),
                None => normalize_key(value),
            };
            match named {
                Ok(key) => Some(key),
                Err(_) => None,
            }
        },
        None => None,
    }
}

} // verus!
