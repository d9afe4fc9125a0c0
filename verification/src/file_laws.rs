//! What is sent of a file, and what the user interface shows.

use crate::access_laws;
use crate::codec;
use crate::dav_laws;
use crate::files;
use crate::keys;
use crate::listing;
use crate::machine::{
    ActionView, ConditionsView, DocumentView, EventView, ListPlanView, PlanView, ReadPlanView,
    ServiceView, StepView, TaskView,
};
use crate::media;
use crate::model::{ListingView, NodeView, ObjectInfoView, PathItemView, PathType};
use crate::numbers;
use crate::pages::{self, DataKind, EditDataView, IndexDataView};
use crate::query;
use crate::range;
use crate::reply::{self, BodyView, ReplyView};
use crate::request_laws;
use crate::service;
use crate::sort;
use crate::text::{self, Text};
use crate::text_laws;
use vstd::prelude::*;
use vstd::utf8::*;

verus! {

// ---------------------------------------------------------------------------
// Conditions
// ---------------------------------------------------------------------------

/// The list holds these tags with commas between them, and blanks around them at will.
pub open spec fn is_tag_list(
    list: Text,
    fronts: Seq<Text>,
    tags: Seq<Text>,
    backs: Seq<Text>,
) -> bool {
    &&& tags.len() > 0
    &&& tags.len() == fronts.len()
    &&& tags.len() == backs.len()
    &&& forall|i: int|
        #![trigger tags[i]]
        0 <= i < tags.len() ==> {
            &&& text_laws::is_blank(fronts[i])
            &&& text_laws::is_blank(backs[i])
            &&& text_laws::has_visible_ends(tags[i])
            &&& !tags[i].contains(',')
        }
    &&& list == text::join_with(
        Seq::new(tags.len(), |i: int| fronts[i] + tags[i] + backs[i]),
        ',',
    )
}

proof fn lemma_tag_list(
    list: Text,
    fronts: Seq<Text>,
    tags: Seq<Text>,
    backs: Seq<Text>,
    etag: Text,
)
    requires
        is_tag_list(list, fronts, tags, backs),
    ensures
        files::lists_tag(list, etag) <==> tags.contains(etag),
{
    let pieces = Seq::new(tags.len(), |i: int| fronts[i] + tags[i] + backs[i]);
    assert forall|i: int| 0 <= i < pieces.len() implies !(#[trigger] pieces[i]).contains(',')
        && text::trimmed(pieces[i]) == tags[i] by {
        let piece = pieces[i];
        assert(text_laws::has_visible_ends(tags[i]));
        assert forall|j: int| 0 <= j < piece.len() implies piece[j] != ',' by {
            let (a, b) = (fronts[i].len() as int, fronts[i].len() + tags[i].len());
            if j < a {
                assert(fronts[i][j] == ' ' || fronts[i][j] == '\t');
            } else if j < b {
                assert(tags[i].contains(tags[i][j - a]));
            } else {
                assert(backs[i][j - b] == ' ' || backs[i][j - b] == '\t');
            }
        }
        text_laws::law_blanks_are_trimmed(fronts[i], tags[i], backs[i]);
    }
    text::lemma_split_of_join(pieces, ',');
    if files::lists_tag(list, etag) {
        let i = choose|i: int|
            0 <= i < text::split_at_each(list, ',').len() && text::trimmed(
                #[trigger] text::split_at_each(list, ',')[i],
            ) == etag;
        assert(pieces[i] == text::split_at_each(list, ',')[i]);
        assert(tags[i] == etag);
    }
    if tags.contains(etag) {
        let i = choose|i: int| 0 <= i < tags.len() && tags[i] == etag;
        assert(text::trimmed(text::split_at_each(list, ',')[i]) == etag) by {
            assert(text::trimmed(pieces[i]) == tags[i]);
        }
    }
}

/// The contents of a file are on their way: those of the range, or all of them. By `HEAD` only the
/// headers are sent.
pub open spec fn sends(
    step: StepView,
    key: Text,
    object: ObjectInfoView,
    part: Option<(nat, nat)>,
    head_only: bool,
    public_share: bool,
) -> bool {
    let headers = files::file_headers(key, object, part, public_share);
    if head_only {
        step == StepView::Reply(headers)
    } else {
        match part {
            Some((first, last)) => step == StepView::Ask(
                ActionView::Get { key, range: Some((first as u64, (last - first + 1) as u64)) },
                TaskView::Open(headers),
            ),
            None => step == StepView::Ask(
                ActionView::Get { key, range: None },
                TaskView::Open(headers),
            ),
        }
    }
}

/// The tags in a request decide first. If the client has this version, by its tag or by a star, it
/// is told so; if it insists on others, it is refused. Otherwise the file is sent, or the range of it
/// that was asked for; a range that it does not have is answered with its size.
pub proof fn law_conditions_decide(
    key: Text,
    object: ObjectInfoView,
    conditions: ConditionsView,
    head_only: bool,
    public_share: bool,
    known_fronts: Seq<Text>,
    known_tags: Seq<Text>,
    known_backs: Seq<Text>,
    wanted_fronts: Seq<Text>,
    wanted_tags: Seq<Text>,
    wanted_backs: Seq<Text>,
)
    requires
        conditions.if_none_match matches Some(list) ==> is_tag_list(
            list,
            known_fronts,
            known_tags,
            known_backs,
        ),
        conditions.if_match matches Some(list) ==> is_tag_list(
            list,
            wanted_fronts,
            wanted_tags,
            wanted_backs,
        ),
    ensures
        ({
            let step = files::file_step(key, object, conditions, head_only, public_share);
            let known = conditions.if_none_match matches Some(list) && (list == "*"@
                || known_tags.contains(object.etag));
            let unwanted = conditions.if_match matches Some(list) && list != "*"@
                && !wanted_tags.contains(object.etag);
            let bare = |status: u16|
                StepView::Reply(
                    ReplyView { status, headers: Seq::empty(), body: BodyView::Empty },
                );
            &&& known ==> step == bare(304)
            &&& !known && unwanted ==> step == bare(412)
            &&& !known && !unwanted && conditions.range is None ==> sends(
                step,
                key,
                object,
                None,
                head_only,
                public_share,
            )
            &&& !known && !unwanted && conditions.range is Some
                ==> match range::requested_range(conditions.range->0, object.size as nat) {
                Some(part) => sends(step, key, object, Some(part), head_only, public_share),
                None => step matches StepView::Reply(reply) && reply.status == 416
                    && access_laws::has_header(
                    reply,
                    "content-range"@,
                    "bytes */"@ + numbers::decimal(object.size as nat),
                ),
            }
        }),
{
    if let Some(list) = conditions.if_none_match {
        lemma_tag_list(list, known_fronts, known_tags, known_backs, object.etag);
    }
    if let Some(list) = conditions.if_match {
        lemma_tag_list(list, wanted_fronts, wanted_tags, wanted_backs, object.etag);
    }
    let missing = files::no_such_range_reply(object.size as nat);
    assert(missing.headers[0] == (
        "content-range"@,
        "bytes */"@ + numbers::decimal(object.size as nat),
    ));
}

// ---------------------------------------------------------------------------
// Headers
// ---------------------------------------------------------------------------

/// What is said of a file ahead of its contents: its type, its tag, its name, the number of bytes
/// that follow, and of a range which bytes of how many they are.
pub proof fn law_files_are_sent_with_their_headers(
    key: Text,
    object: ObjectInfoView,
    part: Option<(nat, nat)>,
    public_share: bool,
)
    ensures
        ({
            let headers = files::file_headers(key, object, part, public_share);
            let content_type = match object.content_type {
                Some(stored) => stored,
                None => media::suggested_type(key),
            };
            &&& headers.body == BodyView::Empty
            &&& access_laws::has_header(headers, "content-type"@, content_type)
            &&& access_laws::has_header(headers, "etag"@, object.etag)
            &&& access_laws::has_header(headers, "accept-ranges"@, "bytes"@)
            &&& !public_share ==> access_laws::has_header(
                headers,
                "content-disposition"@,
                media::disposition_value(key, "inline"@),
            )
            &&& part is None ==> headers.status == 200 && access_laws::has_header(
                headers,
                "content-length"@,
                numbers::decimal(object.size as nat),
            )
            &&& part matches Some((first, last)) ==> {
                &&& headers.status == 206
                &&& access_laws::has_header(
                    headers,
                    "content-length"@,
                    numbers::decimal((last - first + 1) as nat),
                )
                &&& access_laws::has_header(
                    headers,
                    "content-range"@,
                    "bytes "@ + numbers::decimal(first) + "-"@ + numbers::decimal(last) + "/"@
                        + numbers::decimal(object.size as nat),
                )
            }
        }),
{
    let headers = files::file_headers(key, object, part, public_share);
    let content_type = pages::effective_type(key, object);
    let n = headers.headers.len();
    assert(headers.headers[0] == ("content-type"@, content_type));
    assert(headers.headers[1] == ("accept-ranges"@, "bytes"@));
    assert(headers.headers[2] == ("etag"@, object.etag));
    if !public_share {
        assert(headers.headers[3] == (
            "content-disposition"@,
            media::disposition_value(key, "inline"@),
        ));
    }
    match part {
        Some((first, last)) => {
            assert(headers.headers[n - 1] == (
                "content-length"@,
                numbers::decimal((last - first + 1) as nat),
            ));
            assert(headers.headers[n - 2] == (
                "content-range"@,
                "bytes "@ + numbers::decimal(first) + "-"@ + numbers::decimal(last) + "/"@
                    + numbers::decimal(object.size as nat),
            ));
        },
        None => {
            assert(headers.headers[n - 1] == (
                "content-length"@,
                numbers::decimal(object.size as nat),
            ));
        },
    }
}

/// The opened file completes the reply, whose headers stay; one that has gone in the meantime is not
/// found.
pub proof fn law_opened_files_complete_the_reply(
    service: ServiceView,
    prepared: ReplyView,
    object: ObjectInfoView,
    now: nat,
)
    ensures
        service::next_step(
            service,
            TaskView::Open(prepared),
            EventView::Object(Some(object)),
            now,
        ) == StepView::Reply(
            ReplyView {
                status: prepared.status,
                headers: prepared.headers,
                body: BodyView::Object,
            },
        ),
        request_laws::says(
            service::next_step(service, TaskView::Open(prepared), EventView::Object(None), now),
            404,
            "Not Found"@,
        ),
{
    assert(reply::text_reply(404, "Not Found"@).headers =~= seq![
        ("content-type"@, "text/plain; charset=utf-8"@),
    ]);
}

// ---------------------------------------------------------------------------
// Reading
// ---------------------------------------------------------------------------

/// What a user is shown, by what stands there and what the query asks for.
pub proof fn law_the_query_decides_what_is_shown(key: Text, node: NodeView, read: ReadPlanView)
    ensures
        ({
            let step = listing::at_node_step(key, node, PlanView::Read(read));
            let asks = |name: Text| query::lookup(read.params, name) is Some;
            match node {
                NodeView::Missing => request_laws::says(step, 404, "Not Found"@),
                NodeView::File(object) => {
                    let page = asks("edit"@) || asks("view"@);
                    &&& page ==> (step matches StepView::Ask(action, task) && action matches
                        ActionView::Encode { document, pretty } && document matches
                        DocumentView::Edit(_) && !pretty && task == TaskView::Interface {
                        head_only: false,
                    })
                    &&& !page && asks("json"@) ==> step == StepView::Ask(
                        ActionView::Encode {
                            document: DocumentView::Item(
                                PathItemView {
                                    path_type: PathType::File,
                                    name: text::after_last(key, '/'),
                                    mtime: object.uploaded,
                                    size: object.size,
                                },
                            ),
                            pretty: false,
                        },
                        TaskView::Json { status: 200 },
                    )
                    &&& !page && !asks("json"@) && asks("hash"@) ==> (step matches StepView::Reply(
                        reply,
                    ) && reply.status == 501)
                    &&& !page && !asks("json"@) && !asks("hash"@) ==> step == files::file_step(
                        key,
                        object,
                        read.conditions,
                        read.head_only,
                        false,
                    )
                },
                NodeView::Dir => {
                    let listed = StepView::Ask(
                        ActionView::List {
                            prefix: keys::prefix_of_directory(key),
                            delimited: true,
                            limit: 1000,
                            cursor: None,
                        },
                        TaskView::List { key, show: ListPlanView::Index(read) },
                    );
                    &&& asks("zip"@) ==> (step matches StepView::Reply(reply) && reply.status
                        == 501)
                    &&& !asks("zip"@) && !asks("q"@) ==> step == listed
                    &&& !asks("zip"@) && asks("q"@) ==> step == listing::search_dir_step(
                        key,
                        query::lookup(read.params, "q"@)->0,
                        read,
                    )
                },
            }
        }),
{
    assert(reply::text_reply(404, "Not Found"@).headers =~= seq![
        ("content-type"@, "text/plain; charset=utf-8"@),
    ]);
}

/// What a listing shows in the end goes on as the entries of the directory: to the user, to a
/// visitor of the share, or to a WebDAV client.
pub proof fn law_listings_go_on(
    service: ServiceView,
    key: Text,
    page: ListingView,
    read: ReadPlanView,
    head_only: bool,
    now: nat,
)
    ensures
        ({
            let items = listing::entries(keys::prefix_of_directory(key), page);
            &&& service::next_step(
                service,
                TaskView::List { key, show: ListPlanView::Index(read) },
                EventView::Page(page),
                now,
            ) == files::index_step(key, items, read)
            &&& service::next_step(
                service,
                TaskView::List { key, show: ListPlanView::Share { head_only } },
                EventView::Page(page),
                now,
            ) == StepView::Reply(pages::share_page_reply(key, items, head_only))
        }),
{
}

/// The last of several values of a name in the query counts, and other names do not matter.
pub proof fn law_the_last_value_counts(
    params: Seq<(Text, Text)>,
    name: Text,
    other: Text,
    value: Text,
)
    ensures
        query::lookup(params.push((name, value)), name) == Some(value),
        name != other ==> query::lookup(params.push((other, value)), name) == query::lookup(
            params,
            name,
        ),
        query::lookup(Seq::empty(), name) is None,
{
    assert(params.push((name, value)).drop_last() =~= params);
    assert(params.push((other, value)).drop_last() =~= params);
}

// ---------------------------------------------------------------------------
// The pages of the user interface
// ---------------------------------------------------------------------------

/// The lines of a plain listing: the names of the entries, those of directories with a slash.
pub open spec fn lines_of(items: Seq<PathItemView>) -> Seq<Text> {
    Seq::new(
        items.len(),
        |i: int|
            if items[i].path_type == PathType::Dir {
                items[i].name + "/\n"@
            } else {
                items[i].name + "\n"@
            },
    )
}

proof fn lemma_lines(items: Seq<PathItemView>)
    ensures
        pages::simple_list(items) == dav_laws::one_after_another(lines_of(items)),
    decreases items.len(),
{
    if items.len() > 0 {
        lemma_lines(items.drop_last());
        let lines = lines_of(items);
        assert(lines.drop_last() =~= lines_of(items.drop_last()));
        let item = items.last();
        let before = pages::simple_list(items.drop_last());
        assert(before + item.name + "/\n"@ =~= before + (item.name + "/\n"@));
        assert(before + item.name + "\n"@ =~= before + (item.name + "\n"@));
    }
}

/// What is shown of entries, in the order that the query asks for: the plain names on lines of their
/// own; or the facts for the user interface, as JSON or in a page. Every entry is among them.
pub proof fn law_entries_are_shown(key: Text, items: Seq<PathItemView>, read: ReadPlanView)
    ensures
        ({
            let step = files::index_step(key, items, read);
            let paths = sort::arranged(items, read.params);
            let facts = IndexDataView {
                href: keys::href_of(key, false),
                kind: DataKind::Index,
                uri_prefix: "/"@,
                allow_upload: !read.read_only,
                allow_delete: !read.read_only,
                allow_search: true,
                allow_archive: false,
                dir_exists: true,
                auth: true,
                user: Some(read.user),
                paths,
            };
            let plain = encode_utf8(dav_laws::one_after_another(lines_of(paths)));
            &&& paths.to_multiset() == items.to_multiset()
            &&& query::lookup(read.params, "simple"@) is Some ==> (step matches StepView::Reply(
                reply,
            ) && is_fixed(reply, "text/plain; charset=utf-8"@, plain, read.head_only))
            &&& query::lookup(read.params, "simple"@) is None && query::lookup(
                read.params,
                "json"@,
            ) is Some ==> step == StepView::Ask(
                ActionView::Encode { document: DocumentView::Index(facts), pretty: true },
                TaskView::PrettyJson { head_only: read.head_only },
            )
            &&& query::lookup(read.params, "simple"@) is None && query::lookup(
                read.params,
                "json"@,
            ) is None ==> step == StepView::Ask(
                ActionView::Encode { document: DocumentView::Index(facts), pretty: false },
                TaskView::Interface { head_only: read.head_only },
            )
        }),
{
    let paths = sort::arranged(items, read.params);
    sort::law_arranging_keeps_every_entry(items, read.params);
    lemma_lines(paths);
    lemma_fixed(
        "text/plain; charset=utf-8"@,
        encode_utf8(pages::simple_list(paths)),
        read.head_only,
    );
}

/// The reply is this page, always to be revalidated; by `HEAD` it has no body, but the length of it.
pub open spec fn is_fixed(
    reply: ReplyView,
    content_type: Text,
    bytes: Seq<u8>,
    head_only: bool,
) -> bool {
    &&& reply.status == 200
    &&& reply.headers == seq![
        ("content-type"@, content_type),
        ("content-length"@, numbers::decimal(bytes.len())),
        ("cache-control"@, "no-cache"@),
    ]
    &&& reply.body == if head_only {
        BodyView::Empty
    } else {
        BodyView::Bytes(bytes)
    }
}

proof fn lemma_fixed(content_type: Text, bytes: Seq<u8>, head_only: bool)
    ensures
        is_fixed(
            reply::fixed_reply(200, content_type, bytes, head_only),
            content_type,
            bytes,
            head_only,
        ),
{
    assert(reply::fixed_reply(200, content_type, bytes, head_only).headers =~= seq![
        ("content-type"@, content_type),
        ("content-length"@, numbers::decimal(bytes.len())),
        ("cache-control"@, "no-cache"@),
    ]);
}

/// The facts as JSON are a page of their own.
pub proof fn law_facts_are_sent_as_json(
    service: ServiceView,
    json: Seq<u8>,
    head_only: bool,
    now: nat,
)
    ensures
        service::next_step(
            service,
            TaskView::PrettyJson { head_only },
            EventView::Bytes(json),
            now,
        ) matches StepView::Reply(reply) && is_fixed(
            reply,
            "application/json; charset=utf-8"@,
            json,
            head_only,
        ),
{
    lemma_fixed("application/json; charset=utf-8"@, json, head_only);
}

/// The page of the user interface is its template with two places filled in: where its own files
/// are, and the facts in base64.
pub proof fn law_pages_hold_their_facts(
    service: ServiceView,
    json: Seq<u8>,
    head_only: bool,
    now: nat,
    a: Text,
    b: Text,
    c: Text,
)
    requires
        service.assets.index_html == a + "__ASSETS_PREFIX__"@ + (b + "__INDEX_DATA__"@ + c),
        !a.contains('_'),
        !b.contains('_'),
        !c.contains('_'),
    ensures
        service::next_step(
            service,
            TaskView::Interface { head_only },
            EventView::Bytes(json),
            now,
        ) matches StepView::Reply(reply) && is_fixed(
            reply,
            "text/html; charset=utf-8"@,
            encode_utf8(
                a + "/__dufs_wasm_v7__/"@ + b + codec::standard_base64(json) + c,
            ),
            head_only,
        ),
{
    let template = service.assets.index_html;
    let (places, facts) = ("__ASSETS_PREFIX__"@, "__INDEX_DATA__"@);
    let prefix = "/__dufs_wasm_v7__/"@;
    let code = codec::standard_base64(json);
    lemma_prefix();
    lemma_first_place(a, b, c, prefix);
    lemma_second_place(a, prefix, b, c, code);
    assert(pages::interface_page(template, json) == (a + prefix + b) + code + c);
    lemma_fixed(
        "text/html; charset=utf-8"@,
        encode_utf8(pages::interface_page(template, json)),
        head_only,
    );
}

proof fn lemma_prefix()
    ensures
        "/"@ + reply::ASSET_PREFIX@ == "/__dufs_wasm_v7__/"@,
{
    reveal_strlit("/");
    reveal_strlit("__dufs_wasm_v7__/");
    reveal_strlit("/__dufs_wasm_v7__/");
    assert("/"@ + reply::ASSET_PREFIX@ =~= "/__dufs_wasm_v7__/"@);
}

proof fn lemma_first_place(a: Text, b: Text, c: Text, prefix: Text)
    requires
        !a.contains('_'),
        !b.contains('_'),
        !c.contains('_'),
    ensures
        text::replace_each(
            a + "__ASSETS_PREFIX__"@ + (b + "__INDEX_DATA__"@ + c),
            "__ASSETS_PREFIX__"@,
            prefix,
        ) == a + prefix + (b + "__INDEX_DATA__"@ + c),
{
    reveal_strlit("__ASSETS_PREFIX__");
    reveal_strlit("__INDEX_DATA__");
    let (pattern, facts) = ("__ASSETS_PREFIX__"@, "__INDEX_DATA__"@);
    let behind = b + facts + c;
    let nothing = Seq::<char>::empty();
    assert(a + pattern + behind =~= a + (pattern + behind));
    text_laws::lemma_free_by_letter(a, pattern + behind, pattern, prefix);
    let rest = pattern + behind;
    assert(rest.subrange(0, pattern.len() as int) =~= pattern);
    assert(rest.skip(pattern.len() as int) =~= behind);
    assert forall|i: int| 0 <= i < behind.len() implies !pattern.is_prefix_of(
        #[trigger] (behind + nothing).skip(i),
    ) by {
        let here = (behind + nothing).skip(i);
        if pattern.is_prefix_of(here) {
            let at = here.subrange(0, pattern.len() as int);
            assert(at[0] == '_' && at[1] == '_' && at[2] == 'A' && at[8] == '_');
            assert(behind[i] == '_' && behind[i + 1] == '_' && behind[i + 2] == 'A' && behind[i + 8]
                == '_');
            lemma_letters(b, facts, c, i);
        }
    }
    text_laws::lemma_free(behind, nothing, pattern, prefix);
    assert(behind + nothing =~= behind);
    assert(text::replace_each(nothing, pattern, prefix) =~= nothing);
    assert(text::replace_each(rest, pattern, prefix) =~= prefix + behind);
    assert(a + (prefix + behind) =~= a + prefix + behind);
}

/// The placeholder of the facts holds nothing that looks like the other one.
proof fn lemma_letters(b: Text, facts: Text, c: Text, i: int)
    requires
        facts == "__INDEX_DATA__"@,
        !b.contains('_'),
        !c.contains('_'),
        0 <= i,
        i + 8 < (b + facts + c).len(),
        (b + facts + c)[i] == '_',
        (b + facts + c)[i + 1] == '_',
        (b + facts + c)[i + 2] == 'A',
    ensures
        (b + facts + c)[i + 8] != '_',
{
    reveal_strlit("__INDEX_DATA__");
    let all = b + facts + c;
    let n = b.len() as int;
    if i < n {
        assert(b.contains(b[i]));
    } else if i >= n + 14 {
        assert(c[i - n - 14] == '_');
        assert(c.contains(c[i - n - 14]));
    } else {
        let k = i - n;
        assert(all[i] == facts[k]);
        if k + 1 >= 14 {
            assert(all[i + 1] == c[0]);
            assert(c.contains(c[0]));
        } else {
            assert(all[i + 1] == facts[k + 1]);
            assert(k == 0 || k == 12);
            if k == 12 {
                assert(all[i + 8] == c[6]);
                assert(c.contains(c[6]));
            } else {
                assert(all[i + 2] == facts[2]);
            }
        }
    }
}

proof fn lemma_second_place(a: Text, prefix: Text, b: Text, c: Text, with: Text)
    requires
        prefix == "/__dufs_wasm_v7__/"@,
        !a.contains('_'),
        !b.contains('_'),
        !c.contains('_'),
    ensures
        text::replace_each(
            a + prefix + (b + "__INDEX_DATA__"@ + c),
            "__INDEX_DATA__"@,
            with,
        ) == (a + prefix + b) + with + c,
{
    reveal_strlit("/__dufs_wasm_v7__/");
    reveal_strlit("__INDEX_DATA__");
    let pattern = "__INDEX_DATA__"@;
    let s = a + prefix + b;
    let rest = pattern + c;
    let nothing = Seq::<char>::empty();
    assert(a + prefix + (b + pattern + c) =~= s + rest);
    assert forall|i: int| 0 <= i < s.len() implies !pattern.is_prefix_of(
        #[trigger] (s + rest).skip(i),
    ) by {
        let here = (s + rest).skip(i);
        if pattern.is_prefix_of(here) {
            let at = here.subrange(0, pattern.len() as int);
            assert(at[0] == '_' && at[1] == '_' && at[2] == 'I');
            let all = s + rest;
            assert(all[i] == '_' && all[i + 1] == '_' && all[i + 2] == 'I');
            let n = a.len() as int;
            if i < n {
                assert(a.contains(a[i]));
            } else if i >= n + 18 {
                assert(b[i - n - 18] == '_');
                assert(b.contains(b[i - n - 18]));
            } else {
                let k = i - n;
                assert(all[i] == prefix[k]);
                assert(k < 17);
                assert(all[i + 1] == prefix[k + 1]);
                assert(k == 1 || k == 15);
                assert(all[i + 2] == prefix[k + 2]);
            }
        }
    }
    text_laws::lemma_free(s, rest, pattern, with);
    assert(rest.subrange(0, pattern.len() as int) =~= pattern);
    assert(rest.skip(pattern.len() as int) =~= c);
    text_laws::law_nothing_else_is_replaced(c, pattern, with);
    assert(text::replace_each(rest, pattern, with) =~= with + c);
    assert(s + (with + c) =~= s + with + c);
}

/// What the user interface is told of a file: whether it is to be edited or only looked at, whether
/// it may be changed, and whether it is text that can be edited, which it is up to 4 MiB.
pub proof fn law_files_are_shown_in_the_interface(
    key: Text,
    object: ObjectInfoView,
    read: ReadPlanView,
)
    requires
        query::lookup(read.params, "edit"@) is Some || query::lookup(read.params, "view"@) is Some,
    ensures
        ({
            let content_type = match object.content_type {
                Some(stored) => stored,
                None => media::suggested_type(key),
            };
            listing::at_node_step(key, NodeView::File(object), PlanView::Read(read))
                == StepView::Ask(
                ActionView::Encode {
                    document: DocumentView::Edit(
                        EditDataView {
                            href: keys::href_of(key, false),
                            kind: if query::lookup(read.params, "view"@) is Some {
                                DataKind::View
                            } else {
                                DataKind::Edit
                            },
                            uri_prefix: "/"@,
                            allow_upload: !read.read_only,
                            allow_delete: !read.read_only,
                            auth: true,
                            user: Some(read.user),
                            editable: object.size <= 4_194_304 && ("text/"@.is_prefix_of(
                                content_type,
                            ) || "application/json"@.is_prefix_of(content_type)
                                || "application/javascript"@.is_prefix_of(content_type)
                                || "application/xml"@.is_prefix_of(content_type)),
                        },
                    ),
                    pretty: false,
                },
                TaskView::Interface { head_only: false },
            )
        }),
{
}

} // verus!
