//! Showing files and directories to the user.

use crate::listing::{self, list_dir, search_dir};
use crate::machine::{
    Action, ActionView, Conditions, ConditionsView, Document, DocumentView, Event, EventView,
    ListPlan, ListPlanView, Plan, PlanView, ReadPlan, ReadPlanView, Step, StepView, Task, TaskView,
};
use crate::media::{self, content_disposition, public_share_content_disposition};
use crate::model::{Node, NodeView, ObjectInfo, ObjectInfoView, PathItem, PathItemView};
use crate::numbers::{self, decimal_text};
use crate::pages::{
    self, edit_data, effective_content_type, file_item, index_data, interface_html, simple_listing,
};
use crate::query;
use crate::range::{self, parse_range};
use crate::reply::{
    self, fixed_response, json_response_with_status, text_response, Reply, ReplyView,
};
use crate::sort::{self, sort_paths};
use crate::text::{self, same_text, split, trim, Text};
use vstd::prelude::*;
use vstd::string::*;
use vstd::utf8::*;

verus! {

// ---------------------------------------------------------------------------
// The contents of a file
// ---------------------------------------------------------------------------

/// `etag` is one of the tags of a list with commas between them.
pub open spec fn lists_tag(list: Text, etag: Text) -> bool {
    exists|i: int|
        0 <= i < text::split_at_each(list, ',').len() && text::trimmed(
            #[trigger] text::split_at_each(list, ',')[i],
        ) == etag
}

/// The client already has this version.
pub open spec fn is_unchanged(conditions: ConditionsView, etag: Text) -> bool {
    conditions.if_none_match matches Some(list) && (list == "*"@ || lists_tag(list, etag))
}

/// The client wants another version than this.
pub open spec fn is_mismatched(conditions: ConditionsView, etag: Text) -> bool {
    conditions.if_match matches Some(list) && list != "*"@ && !lists_tag(list, etag)
}

/// The first headers of a file.
pub open spec fn content_headers(
    status: u16,
    key: Text,
    object: ObjectInfoView,
    public_share: bool,
) -> ReplyView {
    let content_type = pages::effective_type(key, object);
    ReplyView::new(status).with("content-type"@, content_type).with(
        "accept-ranges"@,
        "bytes"@,
    ).with("etag"@, object.etag).with(
        "content-disposition"@,
        if public_share {
            media::public_disposition_value(key, content_type)
        } else {
            media::disposition_value(key, "inline"@)
        },
    )
}

/// The headers that keep a shared file from acting as a page of this origin.
pub open spec fn guarded(reply: ReplyView, public_share: bool) -> ReplyView {
    if public_share {
        reply.with("cache-control"@, "no-cache"@).with(
            "content-security-policy"@,
            "sandbox; default-src 'none'; frame-ancestors 'none'"@,
        ).with("referrer-policy"@, "no-referrer"@).with("x-content-type-options"@, "nosniff"@)
    } else {
        reply
    }
}

/// The reply with a file, or a range of it, still without its contents.
pub open spec fn file_headers(
    key: Text,
    object: ObjectInfoView,
    part: Option<(nat, nat)>,
    public_share: bool,
) -> ReplyView {
    match part {
        Some((start, end)) => guarded(
            content_headers(206, key, object, public_share),
            public_share,
        ).with(
            "content-range"@,
            "bytes "@ + numbers::decimal(start) + "-"@ + numbers::decimal(end) + "/"@
                + numbers::decimal(object.size as nat),
        ).with("content-length"@, numbers::decimal((end - start + 1) as nat)),
        None => guarded(content_headers(200, key, object, public_share), public_share).with(
            "content-length"@,
            numbers::decimal(object.size as nat),
        ),
    }
}

/// The reply to a request for a range that the file does not have.
pub open spec fn no_such_range_reply(size: nat) -> ReplyView {
    ReplyView::new(416).with("content-range"@, "bytes */"@ + numbers::decimal(size))
}

/// Sends the headers of a file, and its contents unless the headers alone are wanted.
pub open spec fn send_step(
    key: Text,
    object: ObjectInfoView,
    part: Option<(nat, nat)>,
    head_only: bool,
    public_share: bool,
) -> StepView {
    let reply = file_headers(key, object, part, public_share);
    if head_only {
        StepView::Reply(reply)
    } else {
        StepView::Ask(
            ActionView::Get {
                key,
                range: match part {
                    Some((start, end)) => Some((start as u64, (end - start + 1) as u64)),
                    None => None,
                },
            },
            TaskView::Open(reply),
        )
    }
}

/// Answers a request for a file: what the client has or insists on comes first, then the range.
pub open spec fn file_step(
    key: Text,
    object: ObjectInfoView,
    conditions: ConditionsView,
    head_only: bool,
    public_share: bool,
) -> StepView {
    if is_unchanged(conditions, object.etag) {
        StepView::Reply(ReplyView::new(304))
    } else if is_mismatched(conditions, object.etag) {
        StepView::Reply(ReplyView::new(412))
    } else {
        match conditions.range {
            Some(value) => match range::requested_range(value, object.size as nat) {
                Some(part) => send_step(key, object, Some(part), head_only, public_share),
                None => StepView::Reply(no_such_range_reply(object.size as nat)),
            },
            None => send_step(key, object, None, head_only, public_share),
        }
    }
}

/// The opened object completes the reply; it may have gone in the meantime.
pub open spec fn opened_step(prepared: ReplyView, event: EventView) -> StepView {
    match event {
        EventView::Object(Some(_)) => StepView::Reply(prepared.carrying()),
        EventView::Object(None) => StepView::Reply(reply::text_reply(404, "Not Found"@)),
        _ => StepView::Fail,
    }
}

fn tag_listed(list: &str, etag: &str) -> (r: bool)
    ensures
        r == lists_tag(list@, etag@),
{
    let tags = split(list, ',');
    let ghost all = text::split_at_each(list@, ',');
    let mut i: usize = 0;
    while i < tags.len()
        invariant
            i <= tags@.len(),
            tags.deep_view() == all,
            all == text::split_at_each(list@, ','),
            forall|j: int| 0 <= j < i ==> text::trimmed(#[trigger] all[j]) != etag@,
        decreases tags@.len() - i,
    {
        assert(all[i as int] == tags@[i as int]@);
        if same_text(trim(tags[i].as_str()).as_str(), etag) {
            return true;
        }
        i += 1;
    }
    false
}

fn unchanged(conditions: &Conditions, etag: &str) -> (r: bool)
    ensures
        r == is_unchanged(conditions@, etag@),
{
    match &conditions.if_none_match {
        Some(list) => same_text(list.as_str(), "*") || tag_listed(list.as_str(), etag),
        None => false,
    }
}

fn mismatched(conditions: &Conditions, etag: &str) -> (r: bool)
    ensures
        r == is_mismatched(conditions@, etag@),
{
    match &conditions.if_match {
        Some(list) => !same_text(list.as_str(), "*") && !tag_listed(list.as_str(), etag),
        None => false,
    }
}

fn begin_headers(status: u16, key: &str, object: &ObjectInfo, public_share: bool) -> (r: Reply)
    ensures
        r@ == guarded(content_headers(status, key@, object@, public_share), public_share),
{
    let content_type = effective_content_type(key, object);
    let disposition = if public_share {
        public_share_content_disposition(key, content_type.as_str())
    } else {
        content_disposition(key)
    };
    let reply = Reply::new(status).with("content-type", content_type.as_str()).with(
        "accept-ranges",
        "bytes",
    ).with("etag", object.etag.as_str()).with("content-disposition", disposition.as_str());
    if public_share {
        reply.with("cache-control", "no-cache").with(
            "content-security-policy",
            "sandbox; default-src 'none'; frame-ancestors 'none'",
        ).with("referrer-policy", "no-referrer").with("x-content-type-options", "nosniff")
    } else {
        reply
    }
}

fn send_part(
    key: &str,
    object: &ObjectInfo,
    start: u64,
    end: u64,
    head_only: bool,
    public_share: bool,
) -> (r: Step)
    requires
        start <= end < object@.size,
    ensures
        r@ == send_step(
            key@,
            object@,
            Some((start as nat, end as nat)),
            head_only,
            public_share,
        ),
{
    let length: u64 = end - start + 1;
    let mut content_range = "bytes ".to_owned();
    content_range.append(decimal_text(start).as_str());
    content_range.append("-");
    content_range.append(decimal_text(end).as_str());
    content_range.append("/");
    content_range.append(decimal_text(object.size).as_str());
    let reply = begin_headers(206, key, object, public_share).with(
        "content-range",
        content_range.as_str(),
    ).with("content-length", decimal_text(length).as_str());
    if head_only {
        Step::Reply(reply)
    } else {
        Step::Ask(
            Action::Get { key: key.to_owned(), range: Some((start, length)) },
            Task::Open(reply),
        )
    }
}

fn send_whole(key: &str, object: &ObjectInfo, head_only: bool, public_share: bool) -> (r: Step)
    ensures
        r@ == send_step(key@, object@, None, head_only, public_share),
{
    let reply = begin_headers(200, key, object, public_share).with(
        "content-length",
        decimal_text(object.size).as_str(),
    );
    if head_only {
        Step::Reply(reply)
    } else {
        Step::Ask(Action::Get { key: key.to_owned(), range: None }, Task::Open(reply))
    }
}

/// Answers a request for a file; see `file_step`.
pub fn file_response(
    key: &str,
    object: &ObjectInfo,
    conditions: &Conditions,
    head_only: bool,
    public_share: bool,
) -> (r: Step)
    ensures
        r@ == file_step(key@, object@, conditions@, head_only, public_share),
{
    if unchanged(conditions, object.etag.as_str()) {
        return Step::Reply(Reply::new(304));
    }
    if mismatched(conditions, object.etag.as_str()) {
        return Step::Reply(Reply::new(412));
    }
    match &conditions.range {
        Some(value) => {
            proof {
                range::law_served_ranges_lie_within(value@, object@.size as nat);
            }
            match parse_range(value.as_str(), object.size) {
                Ok((start, end)) => send_part(key, object, start, end, head_only, public_share),
                Err(_) => {
                    let mut content_range = "bytes */".to_owned();
                    content_range.append(decimal_text(object.size).as_str());
                    Step::Reply(Reply::new(416).with("content-range", content_range.as_str()))
                },
            }
        },
        None => send_whole(key, object, head_only, public_share),
    }
}

/// Completes the reply with the opened object.
pub fn file_response_resumed(prepared: Reply, event: Event) -> (r: Step)
    ensures
        r@ == opened_step(prepared@, event@),
{
    match event {
        Event::Object(Some(_)) => Step::Reply(prepared.carrying()),
        Event::Object(None) => Step::Reply(text_response(404, "Not Found")),
        _ => Step::Fail,
    }
}

// ---------------------------------------------------------------------------
// The pages of the user interface
// ---------------------------------------------------------------------------

/// Shows the entries of the directory `key`, in the order and the form that the query asks for:
/// the bare names, the facts as JSON, or a page of the user interface.
pub open spec fn index_step(key: Text, items: Seq<PathItemView>, read: ReadPlanView) -> StepView {
    let paths = sort::arranged(items, read.params);
    if query::lookup(read.params, "simple"@) is Some {
        StepView::Reply(
            reply::fixed_reply(
                200,
                "text/plain; charset=utf-8"@,
                encode_utf8(pages::simple_list(paths)),
                read.head_only,
            ),
        )
    } else {
        let pretty = query::lookup(read.params, "json"@) is Some;
        StepView::Ask(
            ActionView::Encode {
                document: DocumentView::Index(
                    pages::index_facts(key, paths, true, read.user, read.read_only),
                ),
                pretty,
            },
            if pretty {
                TaskView::PrettyJson { head_only: read.head_only }
            } else {
                TaskView::Interface { head_only: read.head_only }
            },
        )
    }
}

/// Shows the file `key` in the user interface.
pub open spec fn edit_step(key: Text, object: ObjectInfoView, read: ReadPlanView) -> StepView {
    StepView::Ask(
        ActionView::Encode {
            document: DocumentView::Edit(
                pages::edit_facts(
                    key,
                    object,
                    read.user,
                    read.read_only,
                    query::lookup(read.params, "view"@) is Some,
                ),
            ),
            pretty: false,
        },
        TaskView::Interface { head_only: false },
    )
}

/// The serialized document is the body.
pub open spec fn json_step(status: u16, event: EventView) -> StepView {
    match event {
        EventView::Bytes(json) => StepView::Reply(reply::json_reply(status, json)),
        _ => StepView::Fail,
    }
}

/// The serialized document is a page of its own.
pub open spec fn pretty_json_step(head_only: bool, event: EventView) -> StepView {
    match event {
        EventView::Bytes(json) => StepView::Reply(
            reply::fixed_reply(200, "application/json; charset=utf-8"@, json, head_only),
        ),
        _ => StepView::Fail,
    }
}

/// The serialized document is put into the page of the user interface.
pub open spec fn interface_step(template: Text, head_only: bool, event: EventView) -> StepView {
    match event {
        EventView::Bytes(json) => StepView::Reply(
            reply::fixed_reply(
                200,
                "text/html; charset=utf-8"@,
                encode_utf8(pages::interface_page(template, json)),
                head_only,
            ),
        ),
        _ => StepView::Fail,
    }
}

/// Shows the entries of the directory `key`; see `index_step`.
pub fn index_page(key: &str, items: Vec<PathItem>, read: &ReadPlan) -> (r: Step)
    ensures
        r@ == index_step(key@, items.deep_view(), read@),
{
    let paths = sort_paths(items, &read.params);
    if read.params.has("simple") {
        return Step::Reply(
            fixed_response(
                200,
                "text/plain; charset=utf-8",
                simple_listing(&paths).as_str().as_bytes_vec(),
                read.head_only,
            ),
        );
    }
    let data = index_data(key, paths, true, read.user.as_str(), read.read_only);
    let pretty = read.params.has("json");
    Step::Ask(
        Action::Encode { document: Document::Index(data), pretty },
        if pretty {
            Task::PrettyJson { head_only: read.head_only }
        } else {
            Task::Interface { head_only: read.head_only }
        },
    )
}

/// Shows the file `key` in the user interface.
pub fn edit_page(key: &str, object: &ObjectInfo, read: &ReadPlan) -> (r: Step)
    ensures
        r@ == edit_step(key@, object@, read@),
{
    let viewing = read.params.has("view");
    let data = edit_data(key, object, read.user.as_str(), read.read_only, viewing);
    Step::Ask(
        Action::Encode { document: Document::Edit(data), pretty: false },
        Task::Interface { head_only: false },
    )
}

/// Sends the serialized document.
pub fn json_resumed(status: u16, event: Event) -> (r: Step)
    ensures
        r@ == json_step(status, event@),
{
    match event {
        Event::Bytes(json) => Step::Reply(json_response_with_status(status, json)),
        _ => Step::Fail,
    }
}

/// Sends the serialized document as a page of its own.
pub fn pretty_json_resumed(head_only: bool, event: Event) -> (r: Step)
    ensures
        r@ == pretty_json_step(head_only, event@),
{
    match event {
        Event::Bytes(json) => Step::Reply(
            fixed_response(200, "application/json; charset=utf-8", json, head_only),
        ),
        _ => Step::Fail,
    }
}

/// Sends the page of the user interface with the serialized document in it.
pub fn interface_resumed(template: &str, head_only: bool, event: Event) -> (r: Step)
    ensures
        r@ == interface_step(template@, head_only, event@),
{
    match event {
        Event::Bytes(json) => Step::Reply(
            fixed_response(
                200,
                "text/html; charset=utf-8",
                interface_html(template, json.as_slice()).as_str().as_bytes_vec(),
                head_only,
            ),
        ),
        _ => Step::Fail,
    }
}

// ---------------------------------------------------------------------------
// Reading
// ---------------------------------------------------------------------------

/// Shows what stands at `key`.
pub open spec fn read_step(key: Text, node: NodeView, read: ReadPlanView) -> StepView {
    match node {
        NodeView::File(object) => {
            if query::lookup(read.params, "edit"@) is Some || query::lookup(read.params, "view"@)
                is Some {
                edit_step(key, object, read)
            } else if query::lookup(read.params, "json"@) is Some {
                StepView::Ask(
                    ActionView::Encode {
                        document: DocumentView::Item(pages::file_entry(key, object)),
                        pretty: false,
                    },
                    TaskView::Json { status: 200 },
                )
            } else if query::lookup(read.params, "hash"@) is Some {
                StepView::Reply(
                    reply::text_reply(501, "?hash is not available in the Worker target"@),
                )
            } else {
                file_step(key, object, read.conditions, read.head_only, false)
            }
        },
        NodeView::Dir => {
            if query::lookup(read.params, "zip"@) is Some {
                StepView::Reply(
                    reply::text_reply(
                        501,
                        "Directory archives are not available in the Worker target"@,
                    ),
                )
            } else {
                match query::lookup(read.params, "q"@) {
                    Some(sought) => listing::search_dir_step(key, sought, read),
                    None => listing::list_step(key, ListPlanView::Index(read)),
                }
            }
        },
        NodeView::Missing => StepView::Reply(reply::text_reply(404, "Not Found"@)),
    }
}

/// Shows what stands at `key`; see `read_step`.
pub fn handle_read_node(key: String, node: Node, read: ReadPlan) -> (r: Step)
    ensures
        r@ == read_step(key@, node@, read@),
{
    match node {
        Node::File(object) => {
            if read.params.has("edit") || read.params.has("view") {
                return edit_page(key.as_str(), &object, &read);
            }
            if read.params.has("json") {
                let item = file_item(key.as_str(), &object);
                return Step::Ask(
                    Action::Encode { document: Document::Item(item), pretty: false },
                    Task::Json { status: 200 },
                );
            }
            if read.params.has("hash") {
                return Step::Reply(
                    text_response(501, "?hash is not available in the Worker target"),
                );
            }
            file_response(key.as_str(), &object, &read.conditions, read.head_only, false)
        },
        Node::Dir => {
            if read.params.has("zip") {
                return Step::Reply(
                    text_response(
                        501,
                        "Directory archives are not available in the Worker target",
                    ),
                );
            }
            let sought = match read.params.get("q") {
                Some(sought) => Some(sought.to_owned()),
                None => None,
            };
            match sought {
                Some(sought) => search_dir(key, sought.as_str(), read),
                None => list_dir(key, ListPlan::Index(read)),
            }
        },
        Node::Missing => Step::Reply(text_response(404, "Not Found")),
    }
}

/// Shows what stands at `key`, once that is known.
pub fn handle_read(key: String, read: ReadPlan) -> (r: Step)
    ensures
        r@ == listing::node_step(key@, PlanView::Read(read@)),
{
    listing::node_type(key, Plan::Read(read))
}

} // verus!
