//! Media types: which one a name suggests, and how a file of one is offered.

use crate::text::{
    self, chars_of, last_part, same_text, split_once, starts_with,
    to_ascii_lowercase, trim_end, Text,
};
use vstd::prelude::*;

verus! {

/// The media type that the extension of `key` suggests.
pub open spec fn suggested_type(key: Text) -> Text {
    let extension = text::lower_text(text::after_last(key, '.'));
    if extension == "html"@ || extension == "htm"@ {
        "text/html; charset=utf-8"@
    } else if extension == "css"@ {
        "text/css; charset=utf-8"@
    } else if extension == "js"@ || extension == "mjs"@ {
        "application/javascript; charset=utf-8"@
    } else if extension == "json"@ {
        "application/json; charset=utf-8"@
    } else if extension == "txt"@ || extension == "md"@ || extension == "rs"@ || extension
        == "toml"@ || extension == "yaml"@ || extension == "yml"@ {
        "text/plain; charset=utf-8"@
    } else if extension == "svg"@ {
        "image/svg+xml"@
    } else if extension == "png"@ {
        "image/png"@
    } else if extension == "jpg"@ || extension == "jpeg"@ {
        "image/jpeg"@
    } else if extension == "gif"@ {
        "image/gif"@
    } else if extension == "webp"@ {
        "image/webp"@
    } else if extension == "pdf"@ {
        "application/pdf"@
    } else if extension == "zip"@ {
        "application/zip"@
    } else if extension == "mp3"@ {
        "audio/mpeg"@
    } else if extension == "mp4"@ {
        "video/mp4"@
    } else {
        "application/octet-stream"@
    }
}

/// A media type whose files the editor opens.
pub open spec fn is_editable_type(value: Text) -> bool {
    ||| "text/"@.is_prefix_of(value)
    ||| "application/json"@.is_prefix_of(value)
    ||| "application/javascript"@.is_prefix_of(value)
    ||| "application/xml"@.is_prefix_of(value)
}

/// A media type without its parameters.
pub open spec fn essence(content_type: Text) -> Text {
    match text::split_once_at(content_type, ';') {
        Some((main, parameters)) => text::trim_end_spaces(main),
        None => text::trim_end_spaces(content_type),
    }
}

/// A media type without its parameters, in small letters: the case of letters and the parameters
/// make no other type of it.
pub open spec fn kind_of(content_type: Text) -> Text {
    text::lower_text(essence(content_type))
}

/// SVG: an image that can carry scripts.
pub open spec fn is_svg(content_type: Text) -> bool {
    kind_of(content_type) == "image/svg+xml"@
}

/// A passive media type, which a browser may show in place: images but for SVG, audio, video, PDF
/// and plain text.
pub open spec fn is_passive(content_type: Text) -> bool {
    ||| "image/"@.is_prefix_of(kind_of(content_type)) && !is_svg(content_type)
    ||| "audio/"@.is_prefix_of(kind_of(content_type))
    ||| "video/"@.is_prefix_of(kind_of(content_type))
    ||| kind_of(content_type) == "application/pdf"@
    ||| "text/plain"@.is_prefix_of(kind_of(content_type))
}

/// A character that may stand in a quoted file name: no line break and no quote.
pub open spec fn quotable(c: char) -> char {
    if c == '\r' || c == '\n' || c == '"' {
        '_'
    } else {
        c
    }
}

/// The file name in `key` as a quoted string holds it.
pub open spec fn quoted_name(key: Text) -> Text {
    text::after_last(key, '/').map_values(|c: char| quotable(c))
}

/// The `Content-Disposition` header for a file.
pub open spec fn disposition_value(key: Text, disposition: Text) -> Text {
    disposition + "; filename=\""@ + quoted_name(key) + "\""@
}

/// The `Content-Disposition` header for a publicly shared file: only passive types are shown in
/// place, all others are downloaded.
pub open spec fn public_disposition_value(key: Text, content_type: Text) -> Text {
    disposition_value(
        key,
        if is_passive(content_type) {
            "inline"@
        } else {
            "attachment"@
        },
    )
}

/// The media type that the extension of `key` suggests.
pub fn content_type_for(key: &str) -> (r: &'static str)
    ensures
        r@ == suggested_type(key@),
{
    let extension = to_ascii_lowercase(last_part(key, '.').as_str());
    let e = extension.as_str();
    if same_text(e, "html") || same_text(e, "htm") {
        "text/html; charset=utf-8"
    } else if same_text(e, "css") {
        "text/css; charset=utf-8"
    } else if same_text(e, "js") || same_text(e, "mjs") {
        "application/javascript; charset=utf-8"
    } else if same_text(e, "json") {
        "application/json; charset=utf-8"
    } else if same_text(e, "txt") || same_text(e, "md") || same_text(e, "rs") || same_text(
        e,
        "toml",
    ) || same_text(e, "yaml") || same_text(e, "yml") {
        "text/plain; charset=utf-8"
    } else if same_text(e, "svg") {
        "image/svg+xml"
    } else if same_text(e, "png") {
        "image/png"
    } else if same_text(e, "jpg") || same_text(e, "jpeg") {
        "image/jpeg"
    } else if same_text(e, "gif") {
        "image/gif"
    } else if same_text(e, "webp") {
        "image/webp"
    } else if same_text(e, "pdf") {
        "application/pdf"
    } else if same_text(e, "zip") {
        "application/zip"
    } else if same_text(e, "mp3") {
        "audio/mpeg"
    } else if same_text(e, "mp4") {
        "video/mp4"
    } else {
        "application/octet-stream"
    }
}

/// Whether the editor opens files of this media type.
pub fn is_text_content_type(value: &str) -> (r: bool)
    ensures
        r == is_editable_type(value@),
{
    starts_with(value, "text/") || starts_with(value, "application/json") || starts_with(
        value,
        "application/javascript",
    ) || starts_with(value, "application/xml")
}

fn kind(content_type: &str) -> (r: String)
    ensures
        r@ == kind_of(content_type@),
{
    let main = match split_once(content_type, ';') {
        Some((main, _)) => trim_end(main.as_str()),
        None => trim_end(content_type),
    };
    to_ascii_lowercase(main.as_str())
}

/// The `Content-Disposition` header for a file shown in place.
pub fn content_disposition(key: &str) -> (r: String)
    ensures
        r@ == disposition_value(key@, "inline"@),
{
    content_disposition_with_type(key, "inline")
}

/// The `Content-Disposition` header for a publicly shared file.
pub fn public_share_content_disposition(key: &str, content_type: &str) -> (r: String)
    ensures
        r@ == public_disposition_value(key@, content_type@),
{
    let kind = kind(content_type);
    let kind = kind.as_str();
    let inline = starts_with(kind, "image/") && !same_text(kind, "image/svg+xml") || starts_with(
        kind,
        "audio/",
    ) || starts_with(kind, "video/") || same_text(kind, "application/pdf") || starts_with(
        kind,
        "text/plain",
    );
    if inline {
        content_disposition_with_type(key, "inline")
    } else {
        content_disposition_with_type(key, "attachment")
    }
}

/// The `Content-Disposition` header for a file.
pub fn content_disposition_with_type(key: &str, disposition: &str) -> (r: String)
    ensures
        r@ == disposition_value(key@, disposition@),
{
    let name = last_part(key, '/');
    let a = chars_of(name.as_str());
    let mut quoted = String::new();
    let mut i: usize = 0;
    while i < a.len()
        invariant
            i <= a@.len(),
            a@ == name@,
            quoted@ == name@.take(i as int).map_values(|c: char| quotable(c)),
        decreases a@.len() - i,
    {
        let c = a[i];
        if c == '\r' || c == '\n' || c == '"' {
            quoted.push('_');
        } else {
            quoted.push(c);
        }
        assert(quoted@ =~= name@.take(i + 1).map_values(|c: char| quotable(c)));
        i += 1;
    }
    assert(name@.take(i as int) =~= name@);
    assert(quoted@ =~= quoted_name(key@));
    let mut r = disposition.to_owned();
    r.append("; filename=\"");
    r.append(quoted.as_str());
    r.append("\"");
    r
}

/// A file name never ends the header or its quotes: the quoted name holds no line break and no
/// quote, whatever the key.
pub proof fn law_file_names_stay_quoted(key: Text)
    ensures
        forall|i: int|
            0 <= i < quoted_name(key).len() ==> {
                let c = #[trigger] quoted_name(key)[i];
                c != '\r' && c != '\n' && c != '"'
            },
{
}

/// Active content is downloaded: a publicly shared file whose type is HTML, JavaScript or SVG, in
/// letters of any case and with any parameters, is offered as an attachment.
pub proof fn law_active_content_is_downloaded(key: Text, content_type: Text)
    requires
        ({
            let lower = text::lower_text(content_type);
            ||| "text/html"@.is_prefix_of(lower)
            ||| "text/javascript"@.is_prefix_of(lower)
            ||| "application/javascript"@.is_prefix_of(lower)
            ||| is_svg(content_type)
        }),
    ensures
        public_disposition_value(key, content_type) == disposition_value(key, "attachment"@),
{
    reveal_strlit("text/html");
    reveal_strlit("text/javascript");
    reveal_strlit("application/javascript");
    reveal_strlit("image/");
    reveal_strlit("audio/");
    reveal_strlit("video/");
    reveal_strlit("application/pdf");
    reveal_strlit("text/plain");
    reveal_strlit("image/svg+xml");
    let lower = text::lower_text(content_type);
    let kind = kind_of(content_type);
    lemma_essence_is_prefix(content_type);
    assert forall|i: int| 0 <= i < kind.len() implies kind[i] == lower[i] by {
        let e = essence(content_type);
        assert(e[i] == content_type.subrange(0, e.len() as int)[i]);
    }
    lemma_prefix_at(kind, "image/"@, 0);
    lemma_prefix_at(kind, "audio/"@, 0);
    lemma_prefix_at(kind, "audio/"@, 1);
    lemma_prefix_at(kind, "video/"@, 0);
    lemma_prefix_at(kind, "text/plain"@, 0);
    lemma_prefix_at(kind, "text/plain"@, 5);
    lemma_prefix_at(lower, "text/html"@, 0);
    lemma_prefix_at(lower, "text/html"@, 5);
    lemma_prefix_at(lower, "text/javascript"@, 0);
    lemma_prefix_at(lower, "text/javascript"@, 5);
    lemma_prefix_at(lower, "application/javascript"@, 0);
    lemma_prefix_at(lower, "application/javascript"@, 1);
    lemma_prefix_at(lower, "application/javascript"@, 12);
    if kind == "application/pdf"@ {
        assert(kind[0] == 'a' && kind[12] == 'p');
    }
    if is_svg(content_type) {
        assert(kind[0] == 'i');
    }
}

/// Passive content is shown in place: a publicly shared file whose type is an image but no SVG,
/// audio, video, PDF or plain text, in letters of any case and with any parameters.
pub proof fn law_passive_content_is_shown(key: Text, content_type: Text)
    requires
        ({
            let kind = kind_of(content_type);
            ||| "image/"@.is_prefix_of(kind) && kind != "image/svg+xml"@
            ||| "audio/"@.is_prefix_of(kind)
            ||| "video/"@.is_prefix_of(kind)
            ||| kind == "application/pdf"@
            ||| kind == "text/plain"@
        }),
    ensures
        public_disposition_value(key, content_type) == disposition_value(key, "inline"@),
{
    let plain = "text/plain"@;
    assert(plain.subrange(0, plain.len() as int) =~= plain);
}

proof fn lemma_prefix_at(s: Text, prefix: Text, i: int)
    requires
        0 <= i < prefix.len(),
    ensures
        prefix.is_prefix_of(s) ==> s.len() > i && s[i] == prefix[i],
{
    if prefix.is_prefix_of(s) {
        assert(s.subrange(0, prefix.len() as int)[i] == prefix[i]);
    }
}

/// The essence is what the media type starts with.
proof fn lemma_essence_is_prefix(content_type: Text)
    ensures
        essence(content_type).is_prefix_of(content_type),
{
    text::lemma_first_index(content_type, ';');
    let main = match text::split_once_at(content_type, ';') {
        Some((main, parameters)) => main,
        None => content_type,
    };
    lemma_trim_is_prefix(main);
    let e = essence(content_type);
    assert(e =~= content_type.subrange(0, e.len() as int)) by {
        assert forall|i: int| 0 <= i < e.len() implies e[i] == content_type[i] by {
            assert(e[i] == main.subrange(0, e.len() as int)[i]);
        }
    }
}

proof fn lemma_trim_is_prefix(s: Text)
    ensures
        text::trim_end_spaces(s).is_prefix_of(s),
    decreases s.len(),
{
    let t = text::trim_end_spaces(s);
    if s.len() > 0 && text::is_white_space(s.last()) {
        lemma_trim_is_prefix(s.drop_last());
        assert(t =~= s.subrange(0, t.len() as int)) by {
            assert forall|i: int| 0 <= i < t.len() implies t[i] == s[i] by {
                assert(t[i] == s.drop_last().subrange(0, t.len() as int)[i]);
            }
        }
    }
}

} // verus!
