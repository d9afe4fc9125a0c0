//! Storing files: whole, by appending, and in parts.

use crate::auth::{Credentials, CredentialsView};
use crate::codec;
use crate::listing::{self, node_type};
use crate::machine::{
    Action, ActionView, After, AfterView, Document, DocumentView, Event, EventView,
    MultipartClientPart, MultipartClientPartView, Namespace, Plan, PlanView, SessionPlan,
    SessionPlanView, Step, StepView, Task, TaskView,
};
use crate::model::{Node, NodeView};
use crate::multipart::{
    self, decode_multipart_session, encode_multipart_session, multipart_part_count,
    multipart_part_length, session_is_usable, MultipartSession, MultipartSessionView,
    MAX_MULTIPART_PARTS, MULTIPART_PART_SIZE, MULTIPART_SESSION_TTL_MILLIS,
};
use crate::numbers::{self, parse_u16, parse_u64};
use crate::query::{self, Query};
use crate::reply::{self, text_response};
use crate::text::{contains_char, same_text, Text};
use vstd::prelude::*;

verus! {

/// The largest file that appending may lead to: 10 MiB.
pub const MAX_PATCH_BYTES: u64 = 10_485_760;

// ---------------------------------------------------------------------------
// Whole files
// ---------------------------------------------------------------------------

/// The length that a request declares for its body, if it declares one.
pub open spec fn declared(content_length: Option<Text>) -> Option<u64> {
    match content_length {
        Some(value) => match numbers::parsed(value, u64::MAX as nat) {
            Some(length) => Some(length as u64),
            None => None,
        },
        None => None,
    }
}

/// The length that a request declares for its body, if it declares one.
pub fn declared_length(content_length: Option<&str>) -> (r: Option<u64>)
    ensures
        r == declared(content_length.deep_view()),
{
    match content_length {
        Some(value) => parse_u64(value),
        None => None,
    }
}

/// Stores the body of a request at `key`.
pub open spec fn put_request_step(
    key: Text,
    content_length: Option<Text>,
    content_type: Option<Text>,
) -> StepView {
    if key.len() == 0 {
        StepView::Reply(reply::text_reply(405, "Cannot replace the root collection"@))
    } else {
        listing::node_step(key, PlanView::Put { length: declared(content_length), content_type })
    }
}

/// A directory is not replaced by a file.
pub open spec fn put_step(
    key: Text,
    node: NodeView,
    length: Option<u64>,
    content_type: Option<Text>,
) -> StepView {
    if node is Dir {
        StepView::Reply(reply::text_reply(405, "A collection already exists at this path"@))
    } else {
        StepView::Ask(
            ActionView::Head { key },
            TaskView::PutLook { key, length, content_type },
        )
    }
}

/// Stores the body; the reply tells whether there was a file before.
pub open spec fn put_looked_step(
    key: Text,
    length: Option<u64>,
    content_type: Option<Text>,
    event: EventView,
) -> StepView {
    match event {
        EventView::Object(existing) => StepView::Ask(
            ActionView::PutBody { key, length, content_type },
            TaskView::Work(
                AfterView::Reply {
                    status: if existing is Some {
                        204
                    } else {
                        201
                    },
                },
            ),
        ),
        _ => StepView::Fail,
    }
}

/// Stores the body of a request at `key`; see `put_request_step`.
pub fn handle_put(key: String, content_length: Option<&str>, content_type: Option<String>) -> (r:
    Step)
    ensures
        r@ == put_request_step(key@, content_length.deep_view(), content_type.deep_view()),
{
    if key.as_str().is_empty() {
        return Step::Reply(text_response(405, "Cannot replace the root collection"));
    }
    let length = declared_length(content_length);
    node_type(key, Plan::Put { length, content_type })
}

/// A directory is not replaced by a file.
pub fn handle_put_node(
    key: String,
    node: Node,
    length: Option<u64>,
    content_type: Option<String>,
) -> (r: Step)
    ensures
        r@ == put_step(key@, node@, length, content_type.deep_view()),
{
    match node {
        Node::Dir => Step::Reply(text_response(405, "A collection already exists at this path")),
        _ => Step::Ask(
            Action::Head { key: key.clone() },
            Task::PutLook { key, length, content_type },
        ),
    }
}

/// Stores the body of the request.
pub fn put_request_body(
    key: String,
    length: Option<u64>,
    content_type: Option<String>,
    event: Event,
) -> (r: Step)
    ensures
        r@ == put_looked_step(key@, length, content_type.deep_view(), event@),
{
    match event {
        Event::Object(existing) => {
            let status: u16 = if existing.is_some() {
                204
            } else {
                201
            };
            Step::Ask(
                Action::PutBody { key, length, content_type },
                Task::Work(After::Reply { status }),
            )
        },
        _ => Step::Fail,
    }
}

// ---------------------------------------------------------------------------
// Appending
// ---------------------------------------------------------------------------

/// Appends the body of a request to the file `key`. Nothing but appending is on offer.
pub open spec fn patch_request_step(
    key: Text,
    update_range: Option<Text>,
    content_type: Option<Text>,
) -> StepView {
    if update_range != Some("append"@) {
        StepView::Reply(reply::text_reply(405, "Only X-Update-Range: append is supported"@))
    } else {
        StepView::Ask(
            ActionView::Get { key, range: None },
            TaskView::PatchOpen { key, content_type },
        )
    }
}

/// The file has to be there.
pub open spec fn patch_opened_step(
    key: Text,
    content_type: Option<Text>,
    event: EventView,
) -> StepView {
    match event {
        EventView::Object(Some(object)) => StepView::Ask(
            ActionView::ReadBody,
            TaskView::PatchIncoming { key, content_type, size: object.size },
        ),
        EventView::Object(None) => StepView::Reply(reply::text_reply(404, "Not Found"@)),
        _ => StepView::Fail,
    }
}

/// The two together must not be too large.
pub open spec fn patch_incoming_step(
    key: Text,
    content_type: Option<Text>,
    size: u64,
    event: EventView,
) -> StepView {
    match event {
        EventView::Bytes(incoming) => {
            if size + incoming.len() > MAX_PATCH_BYTES {
                StepView::Reply(
                    reply::text_reply(
                        413,
                        "Resumable append is limited to 10 MiB in the Worker target; retry the PUT upload"@,
                    ),
                )
            } else {
                StepView::Ask(
                    ActionView::ReadHeld,
                    TaskView::PatchExisting { key, content_type, incoming },
                )
            }
        },
        _ => StepView::Fail,
    }
}

/// What was there comes first, then what is appended.
pub open spec fn patch_existing_step(
    key: Text,
    content_type: Option<Text>,
    incoming: Seq<u8>,
    event: EventView,
) -> StepView {
    match event {
        EventView::Bytes(existing) => StepView::Ask(
            ActionView::PutBytes { key, bytes: existing + incoming, content_type },
            TaskView::Work(AfterView::Reply { status: 204 }),
        ),
        _ => StepView::Fail,
    }
}

/// Appends the body of a request to the file `key`; see `patch_request_step`.
pub fn handle_patch(key: String, update_range: Option<&str>, content_type: Option<String>) -> (r:
    Step)
    ensures
        r@ == patch_request_step(key@, update_range.deep_view(), content_type.deep_view()),
{
    let append = match update_range {
        Some(value) => same_text(value, "append"),
        None => false,
    };
    if !append {
        return Step::Reply(text_response(405, "Only X-Update-Range: append is supported"));
    }
    Step::Ask(
        Action::Get { key: key.clone(), range: None },
        Task::PatchOpen { key, content_type },
    )
}

/// The file has to be there.
pub fn handle_patch_opened(key: String, content_type: Option<String>, event: Event) -> (r: Step)
    ensures
        r@ == patch_opened_step(key@, content_type.deep_view(), event@),
{
    match event {
        Event::Object(Some(object)) => Step::Ask(
            Action::ReadBody,
            Task::PatchIncoming { key, content_type, size: object.size },
        ),
        Event::Object(None) => Step::Reply(text_response(404, "Not Found")),
        _ => Step::Fail,
    }
}

/// The two together must not be too large.
pub fn handle_patch_incoming(
    key: String,
    content_type: Option<String>,
    size: u64,
    event: Event,
) -> (r: Step)
    ensures
        r@ == patch_incoming_step(key@, content_type.deep_view(), size, event@),
{
    match event {
        Event::Bytes(incoming) => {
            if size > MAX_PATCH_BYTES || incoming.len() as u64 > MAX_PATCH_BYTES - size {
                Step::Reply(
                    text_response(
                        413,
                        "Resumable append is limited to 10 MiB in the Worker target; retry the PUT upload",
                    ),
                )
            } else {
                Step::Ask(Action::ReadHeld, Task::PatchExisting { key, content_type, incoming })
            }
        },
        _ => Step::Fail,
    }
}

/// What was there comes first, then what is appended.
pub fn handle_patch_existing(
    key: String,
    content_type: Option<String>,
    incoming: Vec<u8>,
    event: Event,
) -> (r: Step)
    ensures
        r@ == patch_existing_step(key@, content_type.deep_view(), incoming@, event@),
{
    match event {
        Event::Bytes(existing) => {
            let mut bytes = existing;
            let mut rest = incoming;
            bytes.append(&mut rest);
            Step::Ask(
                Action::PutBytes { key, bytes, content_type },
                Task::Work(After::Reply { status: 204 }),
            )
        },
        _ => Step::Fail,
    }
}

// ---------------------------------------------------------------------------
// Beginning an upload in parts
// ---------------------------------------------------------------------------

/// Begins an upload to `key`.
pub open spec fn start_request_step(key: Text) -> StepView {
    if key.len() == 0 {
        StepView::Reply(reply::text_reply(405, "Cannot replace the root collection"@))
    } else {
        listing::node_step(key, PlanView::Start)
    }
}

/// A directory is not replaced by a file.
pub open spec fn start_step(key: Text, node: NodeView) -> StepView {
    if node is Dir {
        StepView::Reply(reply::text_reply(405, "A collection already exists at this path"@))
    } else {
        StepView::Ask(ActionView::ReadStart, TaskView::StartRead { key })
    }
}

/// The size has to be one that parts can make up.
pub open spec fn start_read_step(key: Text, event: EventView) -> StepView {
    match event {
        EventView::Start { size, content_type } => {
            if size == 0 {
                StepView::Reply(reply::text_reply(400, "Use PUT for an empty file"@))
            } else if multipart::part_count(size as nat) > MAX_MULTIPART_PARTS {
                StepView::Reply(
                    reply::text_reply(413, "File is too large for the multipart upload limit"@),
                )
            } else {
                StepView::Ask(
                    ActionView::CreateUpload { key, content_type },
                    TaskView::StartCreate { key, size },
                )
            }
        },
        _ => StepView::Fail,
    }
}

/// The session that holds the upload together lives for a day.
pub open spec fn start_created_step(key: Text, size: u64, event: EventView, now: nat) -> StepView {
    match event {
        EventView::Upload(upload_id) => StepView::Ask(
            ActionView::Encode {
                document: DocumentView::Session(
                    MultipartSessionView {
                        key,
                        upload_id,
                        size: size as nat,
                        expires_at: now + MULTIPART_SESSION_TTL_MILLIS as nat,
                    },
                ),
                pretty: false,
            },
            TaskView::StartSession,
        ),
        _ => StepView::Fail,
    }
}

/// The client gets the session under seal.
pub open spec fn start_session_step(
    credentials: Option<CredentialsView>,
    event: EventView,
) -> StepView {
    match (event, credentials) {
        (EventView::Bytes(json), Some(user)) => StepView::Ask(
            ActionView::Encode {
                document: DocumentView::Started {
                    session: multipart::sealed(json, user),
                    part_size: MULTIPART_PART_SIZE,
                },
                pretty: false,
            },
            TaskView::Json { status: 201 },
        ),
        _ => StepView::Fail,
    }
}

/// Begins an upload to `key`.
pub fn handle_multipart_start(key: String) -> (r: Step)
    ensures
        r@ == start_request_step(key@),
{
    if key.as_str().is_empty() {
        return Step::Reply(text_response(405, "Cannot replace the root collection"));
    }
    node_type(key, Plan::Start)
}

/// A directory is not replaced by a file.
pub fn handle_start_node(key: String, node: Node) -> (r: Step)
    ensures
        r@ == start_step(key@, node@),
{
    match node {
        Node::Dir => Step::Reply(text_response(405, "A collection already exists at this path")),
        _ => Step::Ask(Action::ReadStart, Task::StartRead { key }),
    }
}

/// The size has to be one that parts can make up.
pub fn handle_start_read(key: String, event: Event) -> (r: Step)
    ensures
        r@ == start_read_step(key@, event@),
{
    match event {
        Event::Start { size, content_type } => {
            if size == 0 {
                return Step::Reply(text_response(400, "Use PUT for an empty file"));
            }
            if multipart_part_count(size) > MAX_MULTIPART_PARTS {
                return Step::Reply(
                    text_response(413, "File is too large for the multipart upload limit"),
                );
            }
            Step::Ask(
                Action::CreateUpload { key: key.clone(), content_type },
                Task::StartCreate { key, size },
            )
        },
        _ => Step::Fail,
    }
}

/// The session that holds the upload together lives for a day.
pub fn handle_start_created(key: String, size: u64, event: Event, now: u64) -> (r: Step)
    requires
        now + MULTIPART_SESSION_TTL_MILLIS <= u64::MAX,
    ensures
        r@ == start_created_step(key@, size, event@, now as nat),
{
    match event {
        Event::Upload(upload_id) => Step::Ask(
            Action::Encode {
                document: Document::Session(
                    MultipartSession {
                        key,
                        upload_id,
                        size,
                        expires_at: now + MULTIPART_SESSION_TTL_MILLIS,
                    },
                ),
                pretty: false,
            },
            Task::StartSession,
        ),
        _ => Step::Fail,
    }
}

/// The client gets the session under seal.
pub fn handle_start_session(credentials: &Option<Credentials>, event: Event) -> (r: Step)
    ensures
        r@ == start_session_step(known(*credentials), event@),
{
    match (event, credentials) {
        (Event::Bytes(json), Some(user)) => {
            let session = encode_multipart_session(json.as_slice(), user);
            Step::Ask(
                Action::Encode {
                    document: Document::Started { session, part_size: MULTIPART_PART_SIZE },
                    pretty: false,
                },
                Task::Json { status: 201 },
            )
        },
        _ => Step::Fail,
    }
}

// ---------------------------------------------------------------------------
// Going on with an upload in parts
// ---------------------------------------------------------------------------

/// The credentials as they are spoken of.
pub open spec fn known(credentials: Option<Credentials>) -> Option<CredentialsView> {
    match credentials {
        Some(user) => Some(user@),
        None => None,
    }
}

/// The reply to a request without a session that is good for it.
pub open spec fn no_session() -> StepView {
    StepView::Reply(reply::text_reply(403, "Invalid or expired multipart upload session"@))
}

/// Breaks the seal of a session token.
pub open spec fn session_step(
    token: Option<Text>,
    credentials: Option<CredentialsView>,
    key: Text,
    plan: SessionPlanView,
) -> StepView {
    match token {
        Some(sealed) => {
            if !sealed.contains('.') {
                no_session()
            } else {
                match credentials {
                    Some(user) => match multipart::opened(sealed, user) {
                        Some(json) => StepView::Ask(
                            ActionView::ParseSession { json },
                            TaskView::Session { key, purpose: plan },
                        ),
                        None => no_session(),
                    },
                    None => StepView::Fail,
                }
            }
        },
        None => no_session(),
    }
}

/// The session has to be readable, still good, and for this key.
pub open spec fn session_known_step(
    key: Text,
    plan: SessionPlanView,
    event: EventView,
    now: nat,
) -> StepView {
    match event {
        EventView::Session(found) => match found {
            Some(session) => {
                if !multipart::is_usable(session, now) {
                    no_session()
                } else if session.key != key {
                    StepView::Reply(
                        reply::text_reply(
                            403,
                            "Multipart upload session does not match this path"@,
                        ),
                    )
                } else {
                    match plan {
                        SessionPlanView::Forward => StepView::Forward {
                            namespace: Namespace::MultipartUploadPart,
                            name: session.upload_id,
                        },
                        SessionPlanView::Part { part_number, content_length } => part_step(
                            key,
                            session,
                            part_number,
                            content_length,
                        ),
                        SessionPlanView::Complete { parts } => complete_step(key, session, parts),
                        SessionPlanView::Abort => StepView::Ask(
                            ActionView::AbortUpload { key, upload_id: session.upload_id },
                            TaskView::Work(AfterView::Reply { status: 204 }),
                        ),
                    }
                }
            },
            None => no_session(),
        },
        _ => StepView::Fail,
    }
}

/// The number of the part that a request brings.
pub open spec fn numbered(part_number: Option<Text>) -> Option<nat> {
    match part_number {
        Some(value) => numbers::parsed(value, u16::MAX as nat),
        None => None,
    }
}

/// Stores a part. Its number has to be one of the upload, and its length, if declared, the one
/// that this part has.
pub open spec fn part_step(
    key: Text,
    session: MultipartSessionView,
    part_number: Option<Text>,
    content_length: Option<Text>,
) -> StepView {
    match numbered(part_number) {
        Some(number) => match multipart::part_length(session.size, number) {
            Some(expected) => {
                if declared(content_length) matches Some(length) && length != expected {
                    StepView::Reply(
                        reply::text_reply(400, "Multipart part has an unexpected length"@),
                    )
                } else {
                    StepView::Ask(
                        ActionView::UploadPart {
                            key,
                            upload_id: session.upload_id,
                            part_number: number as u16,
                            size: expected as u64,
                        },
                        TaskView::PartStored,
                    )
                }
            },
            None => StepView::Reply(
                reply::text_reply(400, "Multipart part number is outside the upload range"@),
            ),
        },
        None => StepView::Reply(reply::text_reply(400, "Invalid multipart part number"@)),
    }
}

/// Tells the client what it has to report of the part in the end.
pub open spec fn part_stored_step(event: EventView) -> StepView {
    match event {
        EventView::Part { part_number, etag } => StepView::Ask(
            ActionView::Encode {
                document: DocumentView::Part { part_number, etag },
                pretty: false,
            },
            TaskView::Json { status: 200 },
        ),
        _ => StepView::Fail,
    }
}

/// The parts are numbered one after another from one, and each has a tag.
pub open spec fn is_complete_list(parts: Seq<MultipartClientPartView>) -> bool {
    forall|i: int|
        0 <= i < parts.len() ==> (#[trigger] parts[i]).part_number == i + 1 && parts[i].etag.len()
            > 0
}

/// Makes one object of all parts.
pub open spec fn complete_step(
    key: Text,
    session: MultipartSessionView,
    parts: Seq<MultipartClientPartView>,
) -> StepView {
    if parts.len() != multipart::part_count(session.size) {
        StepView::Reply(reply::text_reply(400, "Multipart upload is missing one or more parts"@))
    } else if !is_complete_list(parts) {
        StepView::Reply(reply::text_reply(400, "Invalid multipart completion part list"@))
    } else {
        StepView::Ask(
            ActionView::CompleteUpload { key, upload_id: session.upload_id, parts },
            TaskView::Work(AfterView::Reply { status: 201 }),
        )
    }
}

/// The list of parts names the session that it belongs to.
pub open spec fn complete_read_step(
    credentials: Option<CredentialsView>,
    key: Text,
    event: EventView,
) -> StepView {
    match event {
        EventView::Complete { session, parts } => session_step(
            Some(session),
            credentials,
            key,
            SessionPlanView::Complete { parts },
        ),
        _ => StepView::Fail,
    }
}

/// Breaks the seal of a session token.
pub fn open_session(
    token: Option<&str>,
    credentials: &Option<Credentials>,
    key: String,
    plan: SessionPlan,
) -> (r: Step)
    ensures
        r@ == session_step(token.deep_view(), known(*credentials), key@, plan@),
{
    let sealed = match token {
        Some(sealed) => sealed,
        None => return refuse_session(),
    };
    if !contains_char(sealed, '.') {
        return refuse_session();
    }
    match credentials {
        Some(user) => match decode_multipart_session(sealed, user) {
            Some(json) => Step::Ask(
                Action::ParseSession { json },
                Task::Session { key, purpose: plan },
            ),
            None => refuse_session(),
        },
        None => Step::Fail,
    }
}

fn refuse_session() -> (r: Step)
    ensures
        r@ == no_session(),
{
    Step::Reply(text_response(403, "Invalid or expired multipart upload session"))
}

/// Breaks the seal of the session token in the query.
pub fn multipart_session_from_query(
    params: &Query,
    credentials: &Option<Credentials>,
    key: String,
    plan: SessionPlan,
) -> (r: Step)
    ensures
        r@ == session_step(query::lookup(params@, "session"@), known(*credentials), key@, plan@),
{
    open_session(params.get("session"), credentials, key, plan)
}

/// Goes on once the session is known; see `session_known_step`.
pub fn session_resumed(key: String, plan: SessionPlan, event: Event, now: u64) -> (r: Step)
    ensures
        r@ == session_known_step(key@, plan@, event@, now as nat),
{
    let session = match event {
        Event::Session(Some(session)) => session,
        Event::Session(None) => return refuse_session(),
        _ => return Step::Fail,
    };
    if !session_is_usable(&session, now) {
        return refuse_session();
    }
    if !same_text(session.key.as_str(), key.as_str()) {
        return Step::Reply(
            text_response(403, "Multipart upload session does not match this path"),
        );
    }
    match plan {
        SessionPlan::Forward => Step::Forward {
            namespace: Namespace::MultipartUploadPart,
            name: session.upload_id,
        },
        SessionPlan::Part { part_number, content_length } => store_part(
            key,
            session,
            &part_number,
            &content_length,
        ),
        SessionPlan::Complete { parts } => complete_upload(key, session, parts),
        SessionPlan::Abort => Step::Ask(
            Action::AbortUpload { key, upload_id: session.upload_id },
            Task::Work(After::Reply { status: 204 }),
        ),
    }
}

/// Stores a part; see `part_step`.
pub fn store_part(
    key: String,
    session: MultipartSession,
    part_number: &Option<String>,
    content_length: &Option<String>,
) -> (r: Step)
    ensures
        r@ == part_step(key@, session@, part_number.deep_view(), content_length.deep_view()),
{
    let number = match part_number {
        Some(value) => parse_u16(value.as_str()),
        None => None,
    };
    let number: u16 = match number {
        Some(number) => number,
        None => return Step::Reply(text_response(400, "Invalid multipart part number")),
    };
    let expected = match multipart_part_length(&session, number) {
        Some(expected) => expected,
        None => {
            return Step::Reply(
                text_response(400, "Multipart part number is outside the upload range"),
            );
        },
    };
    let length = match content_length {
        Some(value) => declared_length(Some(value.as_str())),
        None => None,
    };
    let unexpected = match length {
        Some(length) => length != expected,
        None => false,
    };
    if unexpected {
        return Step::Reply(text_response(400, "Multipart part has an unexpected length"));
    }
    Step::Ask(
        Action::UploadPart {
            key,
            upload_id: session.upload_id,
            part_number: number,
            size: expected,
        },
        Task::PartStored,
    )
}

/// Tells the client what it has to report of the part in the end.
pub fn part_resumed(event: Event) -> (r: Step)
    ensures
        r@ == part_stored_step(event@),
{
    match event {
        Event::Part { part_number, etag } => Step::Ask(
            Action::Encode { document: Document::Part { part_number, etag }, pretty: false },
            Task::Json { status: 200 },
        ),
        _ => Step::Fail,
    }
}

fn complete_list(parts: &Vec<MultipartClientPart>) -> (r: bool)
    requires
        parts@.len() <= MAX_MULTIPART_PARTS,
    ensures
        r == is_complete_list(parts.deep_view()),
{
    let ghost all = parts.deep_view();
    let mut i: usize = 0;
    while i < parts.len()
        invariant
            i <= parts@.len(),
            parts@.len() <= MAX_MULTIPART_PARTS,
            all == parts.deep_view(),
            forall|j: int|
                0 <= j < i ==> (#[trigger] all[j]).part_number == j + 1 && all[j].etag.len() > 0,
        decreases parts@.len() - i,
    {
        let expected: u16 = (i + 1) as u16;
        assert(all[i as int] == parts@[i as int]@);
        if parts[i].part_number != expected || parts[i].etag.as_str().is_empty() {
            return false;
        }
        i += 1;
    }
    true
}

/// Makes one object of all parts; see `complete_step`.
pub fn complete_upload(
    key: String,
    session: MultipartSession,
    parts: Vec<MultipartClientPart>,
) -> (r: Step)
    requires
        multipart::part_count(session@.size) <= MAX_MULTIPART_PARTS,
    ensures
        r@ == complete_step(key@, session@, parts.deep_view()),
{
    if parts.len() as u64 != multipart_part_count(session.size) {
        return Step::Reply(text_response(400, "Multipart upload is missing one or more parts"));
    }
    if !complete_list(&parts) {
        return Step::Reply(text_response(400, "Invalid multipart completion part list"));
    }
    Step::Ask(
        Action::CompleteUpload { key, upload_id: session.upload_id, parts },
        Task::Work(After::Reply { status: 201 }),
    )
}

/// Asks for the list of parts with which an upload ends.
pub fn handle_multipart_complete(key: String) -> (r: Step)
    ensures
        r@ == StepView::Ask(ActionView::ReadComplete, TaskView::CompleteRead { key: key@ }),
{
    Step::Ask(Action::ReadComplete, Task::CompleteRead { key })
}

/// Goes on once the list of parts is known.
pub fn complete_resumed(credentials: &Option<Credentials>, key: String, event: Event) -> (r: Step)
    ensures
        r@ == complete_read_step(known(*credentials), key@, event@),
{
    match event {
        Event::Complete { session, parts } => open_session(
            Some(session.as_str()),
            credentials,
            key,
            SessionPlan::Complete { parts },
        ),
        _ => Step::Fail,
    }
}

/// Gives an upload up.
pub fn handle_multipart_abort(
    key: String,
    params: &Query,
    credentials: &Option<Credentials>,
) -> (r: Step)
    ensures
        r@ == session_step(
            query::lookup(params@, "session"@),
            known(*credentials),
            key@,
            SessionPlanView::Abort,
        ),
{
    multipart_session_from_query(params, credentials, key, SessionPlan::Abort)
}

/// Passes a part on to the place where all parts of its upload are handled.
pub fn handle_multipart_part_via_durable_object(
    key: String,
    params: &Query,
    credentials: &Option<Credentials>,
) -> (r: Step)
    ensures
        r@ == session_step(
            query::lookup(params@, "session"@),
            known(*credentials),
            key@,
            SessionPlanView::Forward,
        ),
{
    multipart_session_from_query(params, credentials, key, SessionPlan::Forward)
}

/// Stores a part, once its session is known.
pub open spec fn part_request_step(
    key: Text,
    params: Seq<(Text, Text)>,
    content_length: Option<Text>,
    credentials: Option<CredentialsView>,
) -> StepView {
    session_step(
        query::lookup(params, "session"@),
        credentials,
        key,
        SessionPlanView::Part {
            part_number: query::lookup(params, "partNumber"@),
            content_length,
        },
    )
}

/// Stores a part, once its session is known.
pub fn handle_multipart_part(
    key: String,
    params: &Query,
    content_length: Option<String>,
    credentials: &Option<Credentials>,
) -> (r: Step)
    ensures
        r@ == part_request_step(
            key@,
            params@,
            content_length.deep_view(),
            known(*credentials),
        ),
{
    let part_number = match params.get("partNumber") {
        Some(value) => Some(value.to_owned()),
        None => None,
    };
    multipart_session_from_query(
        params,
        credentials,
        key,
        SessionPlan::Part { part_number, content_length },
    )
}

/// What a request about an upload in parts comes to.
pub open spec fn multipart_step(
    key: Text,
    method: Text,
    action: Text,
    params: Seq<(Text, Text)>,
    credentials: Option<CredentialsView>,
) -> StepView {
    if method == "POST"@ && action == "start"@ {
        start_request_step(key)
    } else if method == "PUT"@ && action == "part"@ {
        session_step(
            query::lookup(params, "session"@),
            credentials,
            key,
            SessionPlanView::Forward,
        )
    } else if method == "POST"@ && action == "complete"@ {
        StepView::Ask(ActionView::ReadComplete, TaskView::CompleteRead { key })
    } else if method == "POST"@ && action == "abort"@ {
        session_step(
            query::lookup(params, "session"@),
            credentials,
            key,
            SessionPlanView::Abort,
        )
    } else {
        StepView::Reply(reply::text_reply(405, "Invalid multipart upload operation"@))
    }
}

/// What a request about an upload in parts comes to; see `multipart_step`.
pub fn handle_multipart_action(
    key: String,
    method: &str,
    action: &str,
    params: &Query,
    credentials: &Option<Credentials>,
) -> (r: Step)
    ensures
        r@ == multipart_step(key@, method@, action@, params@, known(*credentials)),
{
    if same_text(method, "POST") && same_text(action, "start") {
        handle_multipart_start(key)
    } else if same_text(method, "PUT") && same_text(action, "part") {
        handle_multipart_part_via_durable_object(key, params, credentials)
    } else if same_text(method, "POST") && same_text(action, "complete") {
        handle_multipart_complete(key)
    } else if same_text(method, "POST") && same_text(action, "abort") {
        handle_multipart_abort(key, params, credentials)
    } else {
        Step::Reply(text_response(405, "Invalid multipart upload operation"))
    }
}

// ---------------------------------------------------------------------------
// Laws
// ---------------------------------------------------------------------------

/// The session token that a client gets at the start of an upload is accepted for this key, until
/// the session expires, by everything that goes on with the upload.
pub proof fn law_sessions_hold_an_upload_together(
    key: Text,
    size: u64,
    content_type: Option<Text>,
    upload_id: Text,
    json: Seq<u8>,
    user: CredentialsView,
    plan: SessionPlanView,
    begun: nat,
    now: nat,
)
    requires
        start_read_step(key, EventView::Start { size, content_type }) is Ask,
    ensures
        ({
            let session = MultipartSessionView {
                key,
                upload_id,
                size: size as nat,
                expires_at: begun + MULTIPART_SESSION_TTL_MILLIS as nat,
            };
            &&& start_created_step(key, size, EventView::Upload(upload_id), begun)
                == StepView::Ask(
                ActionView::Encode { document: DocumentView::Session(session), pretty: false },
                TaskView::StartSession,
            )
            &&& session_step(Some(multipart::sealed(json, user)), Some(user), key, plan)
                == StepView::Ask(
                ActionView::ParseSession { json },
                TaskView::Session { key, purpose: plan },
            )
            &&& multipart::is_usable(session, now) <==> now <= begun + MULTIPART_SESSION_TTL_MILLIS
            &&& now > begun + MULTIPART_SESSION_TTL_MILLIS ==> session_known_step(
                key,
                plan,
                EventView::Session(Some(session)),
                now,
            ) == no_session()
        }),
{
    multipart::law_sessions_read_back(json, user);
    let token = multipart::sealed(json, user);
    assert(token[codec::url_base64(json).len() as int] == '.');
}

/// A session is good for its own key only: for every other one it is refused.
pub proof fn law_sessions_are_for_one_key(
    key: Text,
    plan: SessionPlanView,
    session: MultipartSessionView,
    now: nat,
)
    requires
        session.key != key,
    ensures
        session_known_step(key, plan, EventView::Session(Some(session)), now) matches
            StepView::Reply(reply) && reply.status == 403,
{
}

/// An upload is completed only from all of its parts in order: those that it is made of add up to
/// its size.
pub proof fn law_uploads_are_completed_whole(
    key: Text,
    session: MultipartSessionView,
    parts: Seq<MultipartClientPartView>,
)
    requires
        complete_step(key, session, parts) is Ask,
    ensures
        multipart::length_of_parts(session.size, parts.len()) == session.size,
        forall|i: int| 0 <= i < parts.len() ==> (#[trigger] parts[i]).part_number == i + 1,
{
    multipart::law_parts_make_up_the_file(session.size);
}

} // verus!
