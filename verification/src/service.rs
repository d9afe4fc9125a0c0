//! The service: what becomes of a request from its arrival to the reply.

use crate::auth::{
    self, authenticate, download_token, Credentials, CredentialsView, TOKEN_TTL_MILLIS,
};
use crate::codec;
use crate::dav::{self, handle_propfind, handle_propfind_resumed};
use crate::files::{
    self, file_response_resumed, handle_read, interface_resumed, json_resumed, pretty_json_resumed,
};
use crate::keys::{self, is_public_share_key, normalize_key};
use crate::listing::{
    self, list_all_keys_resumed, list_dir_resumed, node_type_resumed, search_dir_resumed,
};
use crate::machine::{
    Conditions, ConditionsView, Event, EventView, Namespace, PlanView, ReadPlan, ReadPlanView,
    Request, RequestView, Service, ServiceView, Step, StepView, Task, TaskView,
};
use crate::query::{self, query_params, Query};
use crate::reply::{
    self, failure_response, handle_lock, internal_response, options_response, proppatch_response,
    text_response, unauthorized_response, Reply, ReplyView,
};
use crate::share::{self, handle_public_share};
use crate::text::{self, ends_with_char, eq_ignore_ascii_case, same_text, to_ascii_uppercase, Text};
use crate::transfers::{
    self, copy_object, copy_resumed, delete_resumed, handle_copy_or_move, handle_delete,
    handle_mkcol, work_resumed,
};
use crate::uploads::{
    self, complete_resumed, handle_multipart_action, handle_multipart_part, handle_patch,
    handle_patch_existing, handle_patch_incoming, handle_patch_opened, handle_put,
    handle_start_created, handle_start_read, handle_start_session, part_resumed, put_request_body,
    session_resumed,
};
use vstd::prelude::*;

verus! {

// ---------------------------------------------------------------------------
// What becomes of a request
// ---------------------------------------------------------------------------

/// What a request for a file asks beyond its contents.
pub open spec fn conditions_of(request: RequestView) -> ConditionsView {
    ConditionsView {
        if_none_match: request.if_none_match,
        if_match: request.if_match,
        range: request.range,
    }
}

/// The first step of handling a request.
pub open spec fn request_step(request: RequestView, service: ServiceView, now: nat) -> StepView {
    match reply::internal_reply(request.method, request.path, service.assets) {
        Some(own) => StepView::Reply(own),
        None => match keys::normalized(request.path) {
            Some(key) => match codec::url_query_pairs(request.url) {
                Some(params) => routed_step(request, key, params, service, now),
                None => StepView::Fail,
            },
            None => StepView::Reply(reply::text_reply(400, "Invalid Path"@)),
        },
    }
}

/// Below the public share anybody without credentials is a visitor. Everywhere else, and with
/// credentials there too, the request has to be let in.
pub open spec fn routed_step(
    request: RequestView,
    key: Text,
    params: Seq<(Text, Text)>,
    service: ServiceView,
    now: nat,
) -> StepView {
    let method = text::upper_text(request.method);
    if keys::in_public_share(key) && request.authorization is None {
        if service.has_bucket {
            share::visit_step(
                key,
                method,
                request.path.len() > 0 && request.path.last() == '/',
                conditions_of(request),
            )
        } else {
            StepView::Fail
        }
    } else {
        match service.credentials {
            Some(user) => {
                if auth::is_authenticated(request.authorization, user, key, method, params, now) {
                    authorized_step(request, key, method, params, service, user, now)
                } else {
                    StepView::Reply(reply::unauthorized_reply())
                }
            },
            None => StepView::Fail,
        }
    }
}

/// The query asks for `name` in a POST request, or the method is `verb`. Browsers can send the
/// former only.
pub open spec fn asks_for(
    method: Text,
    params: Seq<(Text, Text)>,
    name: Text,
    verb: Text,
) -> bool {
    (method == "POST"@ && query::lookup(params, name) is Some) || method == verb
}

/// What becomes of a request that has been let in.
pub open spec fn authorized_step(
    request: RequestView,
    key: Text,
    method: Text,
    params: Seq<(Text, Text)>,
    service: ServiceView,
    user: CredentialsView,
    now: nat,
) -> StepView {
    if asks_for(method, params, "__dufs_checkauth"@, "CHECKAUTH"@) {
        StepView::Reply(reply::text_reply(200, user.username))
    } else if asks_for(method, params, "__dufs_logout"@, "LOGOUT"@) {
        StepView::Reply(reply::unauthorized_reply())
    } else if query::lookup(params, "tokengen"@) is Some {
        if method != "GET"@ && method != "HEAD"@ {
            StepView::Reply(reply::text_reply(405, "Method Not Allowed"@))
        } else {
            StepView::Reply(
                reply::text_reply(
                    200,
                    auth::token_text(key, now + TOKEN_TTL_MILLIS as nat, user),
                ),
            )
        }
    } else if !service.has_bucket {
        StepView::Fail
    } else {
        match query::lookup(params, "__dufs_multipart"@) {
            Some(action) => {
                if service.read_only {
                    StepView::Reply(reply::text_reply(403, "Read-only"@))
                } else {
                    uploads::multipart_step(key, method, action, params, service.credentials)
                }
            },
            None => method_step(request, key, method, params, service, user, now),
        }
    }
}

/// The methods that change something. A read-only service refuses them.
pub open spec fn is_writing(method: Text) -> bool {
    ||| method == "PUT"@
    ||| method == "PATCH"@
    ||| method == "DELETE"@
    ||| method == "MKCOL"@
    ||| method == "COPY"@
    ||| method == "MOVE"@
}

/// What becomes of a request, by its method.
pub open spec fn method_step(
    request: RequestView,
    key: Text,
    method: Text,
    params: Seq<(Text, Text)>,
    service: ServiceView,
    user: CredentialsView,
    now: nat,
) -> StepView {
    if method == "GET"@ || method == "HEAD"@ {
        listing::node_step(
            key,
            PlanView::Read(
                ReadPlanView {
                    params,
                    user: user.username,
                    read_only: service.read_only,
                    head_only: method == "HEAD"@,
                    conditions: conditions_of(request),
                },
            ),
        )
    } else if is_writing(method) && service.read_only {
        StepView::Reply(reply::text_reply(403, "Read-only"@))
    } else if method == "OPTIONS"@ {
        StepView::Reply(reply::dav_reply(200))
    } else if method == "PUT"@ || method == "PATCH"@ {
        upload_elsewhere_step(key)
    } else if method == "DELETE"@ {
        transfers::delete_request_step(key)
    } else if method == "PROPFIND"@ {
        dav::propfind_request_step(key, request.depth)
    } else if method == "PROPPATCH"@ {
        StepView::Reply(reply::proppatch_reply(key))
    } else if method == "MKCOL"@ {
        transfers::mkcol_request_step(key)
    } else if method == "COPY"@ || method == "MOVE"@ {
        transfer_elsewhere_step(key)
    } else if method == "LOCK"@ {
        StepView::Reply(reply::lock_reply(key, now))
    } else if method == "UNLOCK"@ {
        StepView::Reply(ReplyView::new(204))
    } else {
        StepView::Reply(reply::text_reply(405, "Method Not Allowed"@))
    }
}

/// Uploads to one key are handled in one place, one after another.
pub open spec fn upload_elsewhere_step(key: Text) -> StepView {
    StepView::Forward {
        namespace: Namespace::ObjectUpload,
        name: if key.len() == 0 {
            "/"@
        } else {
            key
        },
    }
}

/// Copies and moves of one source are handled in one place, one after another.
pub open spec fn transfer_elsewhere_step(key: Text) -> StepView {
    if key.len() == 0 {
        StepView::Reply(reply::text_reply(403, "Cannot copy or move the root collection"@))
    } else {
        StepView::Forward { namespace: Namespace::ObjectCopy, name: key }
    }
}

/// What follows on the answer to what was asked for.
pub open spec fn next_step(
    service: ServiceView,
    task: TaskView,
    event: EventView,
    now: nat,
) -> StepView {
    match task {
        TaskView::Probe { key, stage, plan } => listing::probed_step(key, stage, plan, event),
        TaskView::List { key, show } => listing::listed_step(key, show, event),
        TaskView::Scan { prefix, limit, keys, goal } => listing::scanned_step(
            prefix,
            limit,
            keys,
            goal,
            event,
        ),
        TaskView::Search { key, prefix, keys, at, found, read } => listing::searched_step(
            key,
            prefix,
            keys,
            at,
            found,
            read,
            event,
        ),
        TaskView::DeleteRest { keys, at, after } => transfers::deleted_step(keys, at, after, event),
        TaskView::CopyRead { transfer, keys, at } => transfers::copy_read_step(
            transfer,
            keys,
            at,
            event,
        ),
        TaskView::CopyWrite { transfer, keys, at } => transfers::copy_written_step(
            transfer,
            keys,
            at,
            event,
        ),
        TaskView::Work(after) => transfers::done_step(after, event),
        TaskView::PutLook { key, length, content_type } => uploads::put_looked_step(
            key,
            length,
            content_type,
            event,
        ),
        TaskView::PatchOpen { key, content_type } => uploads::patch_opened_step(
            key,
            content_type,
            event,
        ),
        TaskView::PatchIncoming { key, content_type, size } => uploads::patch_incoming_step(
            key,
            content_type,
            size,
            event,
        ),
        TaskView::PatchExisting { key, content_type, incoming } => uploads::patch_existing_step(
            key,
            content_type,
            incoming,
            event,
        ),
        TaskView::StartRead { key } => uploads::start_read_step(key, event),
        TaskView::StartCreate { key, size } => uploads::start_created_step(key, size, event, now),
        TaskView::StartSession => uploads::start_session_step(service.credentials, event),
        TaskView::CompleteRead { key } => uploads::complete_read_step(
            service.credentials,
            key,
            event,
        ),
        TaskView::Session { key, purpose } => uploads::session_known_step(
            key,
            purpose,
            event,
            now,
        ),
        TaskView::PartStored => uploads::part_stored_step(event),
        TaskView::Json { status } => files::json_step(status, event),
        TaskView::PrettyJson { head_only } => files::pretty_json_step(head_only, event),
        TaskView::Interface { head_only } => files::interface_step(
            service.assets.index_html,
            head_only,
            event,
        ),
        TaskView::Open(prepared) => files::opened_step(prepared, event),
        TaskView::Propfind { items, keys } => dav::dated_step(items, keys, event),
    }
}

/// What the client sees of a failure.
pub open spec fn answered_step(step: StepView) -> StepView {
    match step {
        StepView::Fail => StepView::Reply(reply::failure_reply()),
        _ => step,
    }
}

// ---------------------------------------------------------------------------
// The functions
// ---------------------------------------------------------------------------

/// The setting makes the service read-only: it says `true`, in whatever case.
pub open spec fn means_read_only(setting: Option<Text>) -> bool {
    setting matches Some(value) && text::same_ignoring_case(value, "true"@)
}

/// Whether the setting makes the service read-only.
pub fn is_read_only(setting: Option<&str>) -> (r: bool)
    ensures
        r == means_read_only(setting.deep_view()),
{
    match setting {
        Some(value) => eq_ignore_ascii_case(value, "true"),
        None => false,
    }
}

/// What the client sees of a failure.
pub fn answered(step: Step) -> (r: Step)
    ensures
        r@ == answered_step(step@),
{
    match step {
        Step::Fail => Step::Reply(failure_response()),
        other => other,
    }
}

fn borrowed(value: &Option<String>) -> (r: Option<&str>)
    ensures
        r.deep_view() == value.deep_view(),
{
    match value {
        Some(value) => Some(value.as_str()),
        None => None,
    }
}

/// Passes an upload to `key` on to the place where all uploads to it are handled.
pub fn handle_upload_via_durable_object(key: String) -> (r: Step)
    ensures
        r@ == upload_elsewhere_step(key@),
{
    let name = if key.as_str().is_empty() {
        "/".to_owned()
    } else {
        key
    };
    Step::Forward { namespace: Namespace::ObjectUpload, name }
}

/// Passes a copy or move of `key` on to the place where all of them are handled.
pub fn handle_copy_or_move_via_durable_object(key: String) -> (r: Step)
    ensures
        r@ == transfer_elsewhere_step(key@),
{
    if key.as_str().is_empty() {
        return Step::Reply(text_response(403, "Cannot copy or move the root collection"));
    }
    Step::Forward { namespace: Namespace::ObjectCopy, name: key }
}

/// The reply with a fresh download token for `key`.
pub fn token_response(key: &str, user: &Credentials, now: u64) -> (r: Reply)
    requires
        now + TOKEN_TTL_MILLIS <= u64::MAX,
    ensures
        r@ == reply::text_reply(
            200,
            auth::token_text(key@, now as nat + TOKEN_TTL_MILLIS as nat, user@),
        ),
{
    text_response(200, download_token(key, user, now).as_str())
}

fn writing(method: &str) -> (r: bool)
    ensures
        r == is_writing(method@),
{
    same_text(method, "PUT") || same_text(method, "PATCH") || same_text(method, "DELETE")
        || same_text(method, "MKCOL") || same_text(method, "COPY") || same_text(method, "MOVE")
}

fn asked_for(method: &str, params: &Query, name: &str, verb: &str) -> (r: bool)
    ensures
        r == asks_for(method@, params@, name@, verb@),
{
    (same_text(method, "POST") && params.has(name)) || same_text(method, verb)
}

impl Service {
    /// The first step of answering a request. Every failure is answered.
    pub fn fetch(&self, request: Request, now: u64) -> (r: Step)
        requires
            now + TOKEN_TTL_MILLIS <= u64::MAX,
        ensures
            r@ == answered_step(request_step(request@, self@, now as nat)),
    {
        answered(self.handle_request(request, now))
    }

    /// The next step of answering a request. Every failure is answered.
    pub fn fetch_resumed(&self, task: Task, event: Event, now: u64) -> (r: Step)
        requires
            now + TOKEN_TTL_MILLIS <= u64::MAX,
        ensures
            r@ == answered_step(next_step(self@, task@, event@, now as nat)),
    {
        answered(self.resume(task, event, now))
    }

    /// The first step of handling a request; see `request_step`.
    pub fn handle_request(&self, request: Request, now: u64) -> (r: Step)
        requires
            now + TOKEN_TTL_MILLIS <= u64::MAX,
        ensures
            r@ == request_step(request@, self@, now as nat),
    {
        match internal_response(request.method.as_str(), request.path.as_str(), &self.assets) {
            Some(own) => return Step::Reply(own),
            None => {},
        }
        let key = match normalize_key(request.path.as_str()) {
            Ok(key) => key,
            Err(_) => return Step::Reply(text_response(400, "Invalid Path")),
        };
        match query_params(request.url.as_str()) {
            Some(params) => self.route(request, key, params, now),
            None => Step::Fail,
        }
    }

    /// Sees who asks; see `routed_step`.
    pub fn route(&self, request: Request, key: String, params: Query, now: u64) -> (r: Step)
        requires
            now + TOKEN_TTL_MILLIS <= u64::MAX,
        ensures
            r@ == routed_step(request@, key@, params@, self@, now as nat),
    {
        let method = to_ascii_uppercase(request.method.as_str());
        if is_public_share_key(key.as_str()) && request.authorization.is_none() {
            if !self.has_bucket {
                return Step::Fail;
            }
            let slash = ends_with_char(request.path.as_str(), '/');
            let conditions = Conditions {
                if_none_match: request.if_none_match,
                if_match: request.if_match,
                range: request.range,
            };
            return handle_public_share(key, method.as_str(), slash, conditions);
        }
        match &self.credentials {
            Some(user) => {
                let name = authenticate(
                    borrowed(&request.authorization),
                    user,
                    key.as_str(),
                    method.as_str(),
                    &params,
                    now,
                );
                match name {
                    Some(_) => self.handle_authorized(
                        request,
                        key,
                        method.as_str(),
                        params,
                        user,
                        now,
                    ),
                    None => Step::Reply(unauthorized_response()),
                }
            },
            None => Step::Fail,
        }
    }

    /// Handles a request that has been let in; see `authorized_step`.
    pub fn handle_authorized(
        &self,
        request: Request,
        key: String,
        method: &str,
        params: Query,
        user: &Credentials,
        now: u64,
    ) -> (r: Step)
        requires
            now + TOKEN_TTL_MILLIS <= u64::MAX,
        ensures
            r@ == authorized_step(request@, key@, method@, params@, self@, user@, now as nat),
    {
        if asked_for(method, &params, "__dufs_checkauth", "CHECKAUTH") {
            return Step::Reply(text_response(200, user.username.as_str()));
        }
        if asked_for(method, &params, "__dufs_logout", "LOGOUT") {
            return Step::Reply(unauthorized_response());
        }
        if params.has("tokengen") {
            if !same_text(method, "GET") && !same_text(method, "HEAD") {
                return Step::Reply(text_response(405, "Method Not Allowed"));
            }
            return Step::Reply(token_response(key.as_str(), user, now));
        }
        if !self.has_bucket {
            return Step::Fail;
        }
        match params.get("__dufs_multipart") {
            Some(action) => {
                if self.read_only {
                    return Step::Reply(text_response(403, "Read-only"));
                }
                return handle_multipart_action(key, method, action, &params, &self.credentials);
            },
            None => {},
        }
        self.handle_method(request, key, method, params, user, now)
    }

    /// Handles a request by its method; see `method_step`.
    pub fn handle_method(
        &self,
        request: Request,
        key: String,
        method: &str,
        params: Query,
        user: &Credentials,
        now: u64,
    ) -> (r: Step)
        ensures
            r@ == method_step(request@, key@, method@, params@, self@, user@, now as nat),
    {
        let head_only = same_text(method, "HEAD");
        if same_text(method, "GET") || head_only {
            let conditions = Conditions {
                if_none_match: request.if_none_match,
                if_match: request.if_match,
                range: request.range,
            };
            let read = ReadPlan {
                params,
                user: user.username.clone(),
                read_only: self.read_only,
                head_only,
                conditions,
            };
            return handle_read(key, read);
        }
        if writing(method) && self.read_only {
            return Step::Reply(text_response(403, "Read-only"));
        }
        if same_text(method, "OPTIONS") {
            Step::Reply(options_response())
        } else if same_text(method, "PUT") || same_text(method, "PATCH") {
            handle_upload_via_durable_object(key)
        } else if same_text(method, "DELETE") {
            handle_delete(key)
        } else if same_text(method, "PROPFIND") {
            handle_propfind(key, borrowed(&request.depth))
        } else if same_text(method, "PROPPATCH") {
            Step::Reply(proppatch_response(key.as_str()))
        } else if same_text(method, "MKCOL") {
            handle_mkcol(key)
        } else if same_text(method, "COPY") || same_text(method, "MOVE") {
            handle_copy_or_move_via_durable_object(key)
        } else if same_text(method, "LOCK") {
            Step::Reply(handle_lock(key.as_str(), now))
        } else if same_text(method, "UNLOCK") {
            Step::Reply(Reply::new(204))
        } else {
            Step::Reply(text_response(405, "Method Not Allowed"))
        }
    }

    /// The next step of handling a request; see `next_step`.
    pub fn resume(&self, task: Task, event: Event, now: u64) -> (r: Step)
        requires
            now + TOKEN_TTL_MILLIS <= u64::MAX,
        ensures
            r@ == next_step(self@, task@, event@, now as nat),
    {
        match task {
            Task::Probe { key, stage, plan } => node_type_resumed(key, stage, plan, event),
            Task::List { key, show } => list_dir_resumed(key, show, event),
            Task::Scan { prefix, limit, keys, goal } => list_all_keys_resumed(
                prefix,
                limit,
                keys,
                goal,
                event,
            ),
            Task::Search { key, prefix, keys, at, found, read } => search_dir_resumed(
                key,
                prefix,
                keys,
                at,
                found,
                read,
                event,
            ),
            Task::DeleteRest { keys, at, after } => delete_resumed(keys, at, after, event),
            Task::CopyRead { transfer, keys, at } => copy_object(transfer, keys, at, event),
            Task::CopyWrite { transfer, keys, at } => copy_resumed(transfer, keys, at, event),
            Task::Work(after) => work_resumed(after, event),
            Task::PutLook { key, length, content_type } => put_request_body(
                key,
                length,
                content_type,
                event,
            ),
            Task::PatchOpen { key, content_type } => handle_patch_opened(
                key,
                content_type,
                event,
            ),
            Task::PatchIncoming { key, content_type, size } => handle_patch_incoming(
                key,
                content_type,
                size,
                event,
            ),
            Task::PatchExisting { key, content_type, incoming } => handle_patch_existing(
                key,
                content_type,
                incoming,
                event,
            ),
            Task::StartRead { key } => handle_start_read(key, event),
            Task::StartCreate { key, size } => handle_start_created(key, size, event, now),
            Task::StartSession => handle_start_session(&self.credentials, event),
            Task::CompleteRead { key } => complete_resumed(&self.credentials, key, event),
            Task::Session { key, purpose } => session_resumed(key, purpose, event, now),
            Task::PartStored => part_resumed(event),
            Task::Json { status } => json_resumed(status, event),
            Task::PrettyJson { head_only } => pretty_json_resumed(head_only, event),
            Task::Interface { head_only } => interface_resumed(
                self.assets.index_html.as_str(),
                head_only,
                event,
            ),
            Task::Open(prepared) => file_response_resumed(prepared, event),
            Task::Propfind { items, keys } => handle_propfind_resumed(items, keys, event),
        }
    }
}

// ---------------------------------------------------------------------------
// The places that requests are passed on to
// ---------------------------------------------------------------------------

/// The place where the parts of one upload are stored.
pub struct MultipartUploadPart {
    pub service: Service,
}

/// The place where the uploads to one key are handled.
pub struct ObjectUpload {
    pub service: Service,
}

/// The place where the copies and moves of one source are handled.
pub struct ObjectCopy {
    pub service: Service,
}

/// Stores a part of an upload.
pub open spec fn part_fetch_step(request: RequestView, service: ServiceView) -> StepView {
    match keys::normalized(request.path) {
        Some(key) => match codec::url_query_pairs(request.url) {
            Some(params) => part_routed_step(request, key, params, service),
            None => StepView::Fail,
        },
        None => StepView::Reply(reply::text_reply(400, "Invalid Path"@)),
    }
}

/// Stores a part of an upload, once the query is known.
pub open spec fn part_routed_step(
    request: RequestView,
    key: Text,
    params: Seq<(Text, Text)>,
    service: ServiceView,
) -> StepView {
    if request.method != "PUT"@ || query::lookup(params, "__dufs_multipart"@) != Some("part"@) {
        StepView::Reply(reply::text_reply(405, "Invalid multipart upload operation"@))
    } else if !service.has_bucket {
        StepView::Fail
    } else {
        uploads::part_request_step(key, params, request.content_length, service.credentials)
    }
}

/// Stores a file, or appends to it.
pub open spec fn upload_fetch_step(request: RequestView, service: ServiceView) -> StepView {
    let method = text::upper_text(request.method);
    if method != "PUT"@ && method != "PATCH"@ {
        StepView::Reply(reply::text_reply(405, "Invalid object upload operation"@))
    } else {
        match keys::normalized(request.path) {
            Some(key) => {
                if !service.has_bucket {
                    StepView::Fail
                } else if method == "PUT"@ {
                    uploads::put_request_step(key, request.content_length, request.content_type)
                } else {
                    uploads::patch_request_step(key, request.update_range, request.content_type)
                }
            },
            None => StepView::Reply(reply::text_reply(400, "Invalid Path"@)),
        }
    }
}

/// Copies or moves a file or a directory.
pub open spec fn copy_fetch_step(request: RequestView, service: ServiceView) -> StepView {
    let method = text::upper_text(request.method);
    if method != "COPY"@ && method != "MOVE"@ {
        StepView::Reply(reply::text_reply(405, "Invalid object copy operation"@))
    } else {
        match keys::normalized(request.path) {
            Some(key) => {
                if !service.has_bucket {
                    StepView::Fail
                } else {
                    transfers::transfer_request_step(
                        key,
                        keys::destination_of(request.destination),
                        transfers::keeps_destination(request.overwrite),
                        method == "MOVE"@,
                    )
                }
            },
            None => StepView::Reply(reply::text_reply(400, "Invalid Path"@)),
        }
    }
}

impl MultipartUploadPart {
    /// The place in a deployment.
    pub fn new(service: Service) -> (r: Self)
        ensures
            r.service == service,
    {
        MultipartUploadPart { service }
    }

    /// The first step of storing a part; see `part_fetch_step`.
    pub fn fetch(&self, request: Request) -> (r: Step)
        ensures
            r@ == part_fetch_step(request@, self.service@),
    {
        let key = match normalize_key(request.path.as_str()) {
            Ok(key) => key,
            Err(_) => return Step::Reply(text_response(400, "Invalid Path")),
        };
        match query_params(request.url.as_str()) {
            Some(params) => self.route(request, key, params),
            None => Step::Fail,
        }
    }

    /// Stores a part, once the query is known; see `part_routed_step`.
    pub fn route(&self, request: Request, key: String, params: Query) -> (r: Step)
        ensures
            r@ == part_routed_step(request@, key@, params@, self.service@),
    {
        if !same_text(request.method.as_str(), "PUT") || !params.is("__dufs_multipart", "part") {
            return Step::Reply(text_response(405, "Invalid multipart upload operation"));
        }
        if !self.service.has_bucket {
            return Step::Fail;
        }
        handle_multipart_part(key, &params, request.content_length, &self.service.credentials)
    }
}

impl ObjectUpload {
    /// The place in a deployment.
    pub fn new(service: Service) -> (r: Self)
        ensures
            r.service == service,
    {
        ObjectUpload { service }
    }

    /// The first step of storing or appending; see `upload_fetch_step`.
    pub fn fetch(&self, request: Request) -> (r: Step)
        ensures
            r@ == upload_fetch_step(request@, self.service@),
    {
        let method = to_ascii_uppercase(request.method.as_str());
        let put = same_text(method.as_str(), "PUT");
        if !put && !same_text(method.as_str(), "PATCH") {
            return Step::Reply(text_response(405, "Invalid object upload operation"));
        }
        let key = match normalize_key(request.path.as_str()) {
            Ok(key) => key,
            Err(_) => return Step::Reply(text_response(400, "Invalid Path")),
        };
        if !self.service.has_bucket {
            return Step::Fail;
        }
        if put {
            handle_put(key, borrowed(&request.content_length), request.content_type)
        } else {
            handle_patch(key, borrowed(&request.update_range), request.content_type)
        }
    }
}

impl ObjectCopy {
    /// The place in a deployment.
    pub fn new(service: Service) -> (r: Self)
        ensures
            r.service == service,
    {
        ObjectCopy { service }
    }

    /// The first step of copying or moving; see `copy_fetch_step`.
    pub fn fetch(&self, request: Request) -> (r: Step)
        ensures
            r@ == copy_fetch_step(request@, self.service@),
    {
        let method = to_ascii_uppercase(request.method.as_str());
        let move_source = same_text(method.as_str(), "MOVE");
        if !move_source && !same_text(method.as_str(), "COPY") {
            return Step::Reply(text_response(405, "Invalid object copy operation"));
        }
        let key = match normalize_key(request.path.as_str()) {
            Ok(key) => key,
            Err(_) => return Step::Reply(text_response(400, "Invalid Path")),
        };
        if !self.service.has_bucket {
            return Step::Fail;
        }
        handle_copy_or_move(
            key,
            borrowed(&request.destination),
            borrowed(&request.overwrite),
            move_source,
        )
    }
}

} // verus!
