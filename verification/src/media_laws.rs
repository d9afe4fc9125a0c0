//! What types and names files are sent with.

use crate::media;
use crate::text::{self, Text};
use crate::text_laws;
use vstd::prelude::*;

verus! {

/// The extensions differ in their length, their first or their last letter.
proof fn lemma_extensions()
    ensures
        "html"@.len() == 4 && "html"@[0] == 'h' && "html"@[3] == 'l',
        "htm"@.len() == 3 && "htm"@[0] == 'h' && "htm"@[2] == 'm',
        "css"@.len() == 3 && "css"@[0] == 'c' && "css"@[2] == 's',
        "js"@.len() == 2 && "js"@[0] == 'j' && "js"@[1] == 's',
        "mjs"@.len() == 3 && "mjs"@[0] == 'm' && "mjs"@[2] == 's',
        "json"@.len() == 4 && "json"@[0] == 'j' && "json"@[3] == 'n',
        "txt"@.len() == 3 && "txt"@[0] == 't' && "txt"@[2] == 't',
        "md"@.len() == 2 && "md"@[0] == 'm' && "md"@[1] == 'd',
        "rs"@.len() == 2 && "rs"@[0] == 'r' && "rs"@[1] == 's',
        "toml"@.len() == 4 && "toml"@[0] == 't' && "toml"@[3] == 'l',
        "yaml"@.len() == 4 && "yaml"@[0] == 'y' && "yaml"@[3] == 'l',
        "yml"@.len() == 3 && "yml"@[0] == 'y' && "yml"@[2] == 'l',
        "svg"@.len() == 3 && "svg"@[0] == 's' && "svg"@[2] == 'g',
        "png"@.len() == 3 && "png"@[0] == 'p' && "png"@[2] == 'g',
        "jpg"@.len() == 3 && "jpg"@[0] == 'j' && "jpg"@[2] == 'g',
        "jpeg"@.len() == 4 && "jpeg"@[0] == 'j' && "jpeg"@[3] == 'g',
        "gif"@.len() == 3 && "gif"@[0] == 'g' && "gif"@[2] == 'f',
        "webp"@.len() == 4 && "webp"@[0] == 'w' && "webp"@[3] == 'p',
        "pdf"@.len() == 3 && "pdf"@[0] == 'p' && "pdf"@[2] == 'f',
        "zip"@.len() == 3 && "zip"@[0] == 'z' && "zip"@[2] == 'p',
        "mp3"@.len() == 3 && "mp3"@[0] == 'm' && "mp3"@[2] == '3',
        "mp4"@.len() == 3 && "mp4"@[0] == 'm' && "mp4"@[2] == '4',
{
    reveal_strlit("html");
    reveal_strlit("htm");
    reveal_strlit("css");
    reveal_strlit("js");
    reveal_strlit("mjs");
    reveal_strlit("json");
    reveal_strlit("txt");
    reveal_strlit("md");
    reveal_strlit("rs");
    reveal_strlit("toml");
    reveal_strlit("yaml");
    reveal_strlit("yml");
    reveal_strlit("svg");
    reveal_strlit("png");
    reveal_strlit("jpg");
    reveal_strlit("jpeg");
    reveal_strlit("gif");
    reveal_strlit("webp");
    reveal_strlit("pdf");
    reveal_strlit("zip");
    reveal_strlit("mp3");
    reveal_strlit("mp4");
}

/// The type of a file is suggested by what stands behind the last dot of its key, in letters of any
/// case; a key without a dot is all extension. Other files are mere bytes.
pub proof fn law_extensions_suggest_types(key: Text, stem: Text, extension: Text)
    requires
        !extension.contains('.'),
        key == stem + seq!['.'] + extension || key == extension,
    ensures
        ({
            let lower = text::lower_text(extension);
            let suggested = media::suggested_type(key);
            &&& lower == "html"@ || lower == "htm"@
                ==> suggested == "text/html; charset=utf-8"@
            &&& lower == "css"@
                ==> suggested == "text/css; charset=utf-8"@
            &&& lower == "js"@ || lower == "mjs"@
                ==> suggested == "application/javascript; charset=utf-8"@
            &&& lower == "json"@
                ==> suggested == "application/json; charset=utf-8"@
            &&& lower == "txt"@ || lower == "md"@ || lower == "rs"@ || lower == "toml"@ || lower == "yaml"@ || lower == "yml"@
                ==> suggested == "text/plain; charset=utf-8"@
            &&& lower == "svg"@
                ==> suggested == "image/svg+xml"@
            &&& lower == "png"@
                ==> suggested == "image/png"@
            &&& lower == "jpg"@ || lower == "jpeg"@
                ==> suggested == "image/jpeg"@
            &&& lower == "gif"@
                ==> suggested == "image/gif"@
            &&& lower == "webp"@
                ==> suggested == "image/webp"@
            &&& lower == "pdf"@
                ==> suggested == "application/pdf"@
            &&& lower == "zip"@
                ==> suggested == "application/zip"@
            &&& lower == "mp3"@
                ==> suggested == "audio/mpeg"@
            &&& lower == "mp4"@
                ==> suggested == "video/mp4"@
            &&& lower != "html"@
                && lower != "htm"@
                && lower != "css"@
                && lower != "js"@
                && lower != "mjs"@
                && lower != "json"@
                && lower != "txt"@
                && lower != "md"@
                && lower != "rs"@
                && lower != "toml"@
                && lower != "yaml"@
                && lower != "yml"@
                && lower != "svg"@
                && lower != "png"@
                && lower != "jpg"@
                && lower != "jpeg"@
                && lower != "gif"@
                && lower != "webp"@
                && lower != "pdf"@
                && lower != "zip"@
                && lower != "mp3"@
                && lower != "mp4"@
                ==> suggested == "application/octet-stream"@
        }),
{
    lemma_extensions();
    text_laws::law_last_parts_are_cut_off(stem, extension, '.');
}

/// A file is offered under the last part of its key, in which line breaks and quotes become
/// underscores and everything else stays.
pub proof fn law_files_are_offered_under_their_name(
    key: Text,
    directory: Text,
    name: Text,
    disposition: Text,
)
    requires
        !name.contains('/'),
        key == directory + seq!['/'] + name || key == name,
    ensures
        ({
            let quoted = Seq::new(
                name.len(),
                |i: int|
                    if name[i] == '\r' || name[i] == '\n' || name[i] == '"' {
                        '_'
                    } else {
                        name[i]
                    },
            );
            media::disposition_value(key, disposition) == disposition + "; filename=\""@ + quoted
                + "\""@
        }),
{
    text_laws::law_last_parts_are_cut_off(directory, name, '/');
    let quoted = Seq::new(
        name.len(),
        |i: int|
            if name[i] == '\r' || name[i] == '\n' || name[i] == '"' {
                '_'
            } else {
                name[i]
            },
    );
    assert(media::quoted_name(key) =~= quoted);
}

/// A publicly shared file is shown in place exactly if its type is passive: an image but no SVG,
/// audio, video, PDF or plain text. Neither the case of letters nor parameters make a difference. All
/// else is downloaded.
pub proof fn law_only_passive_types_are_shown(
    key: Text,
    main: Text,
    blanks: Text,
    parameters: Text,
    content_type: Text,
)
    requires
        text_laws::has_visible_ends(main),
        !main.contains(';'),
        text_laws::is_blank(blanks),
        content_type == main + blanks || content_type == main + blanks + seq![';'] + parameters,
    ensures
        ({
            let lower = text::lower_text(main);
            let passive = {
                ||| "image/"@.is_prefix_of(lower) && lower != "image/svg+xml"@
                ||| "audio/"@.is_prefix_of(lower)
                ||| "video/"@.is_prefix_of(lower)
                ||| lower == "application/pdf"@
                ||| "text/plain"@.is_prefix_of(lower)
            };
            media::public_disposition_value(key, content_type) == media::disposition_value(
                key,
                if passive {
                    "inline"@
                } else {
                    "attachment"@
                },
            )
        }),
{
    let head = main + blanks;
    assert(!head.contains(';')) by {
        assert forall|i: int| 0 <= i < head.len() implies head[i] != ';' by {
            if i < main.len() {
                assert(main.contains(main[i]));
            } else {
                assert(blanks[i - main.len()] == ' ' || blanks[i - main.len()] == '\t');
            }
        }
    }
    text_laws::law_texts_are_cut_at_the_first(head, parameters, ';');
    text_laws::law_blanks_are_trimmed(Seq::empty(), main, blanks);
    assert(media::essence(content_type) == main);
}

} // verus!
