//! What can happen to the bucket, and to whom: laws over whole conversations.

use crate::auth::{self, CredentialsView};
use crate::codec;
use crate::files;
use crate::keys::{self, PUBLIC_SHARE_ROOT};
use crate::machine::{
    ActionView, ConditionsView, EventView, PlanView, RequestView, ServiceView, StepView, TaskView,
};
use crate::model::{NodeView, ObjectInfoView, PathItemView};
use crate::pages;
use crate::query;
use crate::reply::{self, ReplyView};
use crate::service;
use crate::share;
use crate::text::{self, Text};
use vstd::prelude::*;

verus! {

/// What a conversation has come to after the given answers, each with the time at which it came.
/// Nothing follows on a reply, a request passed on, or a failure.
pub open spec fn run(
    service: ServiceView,
    step: StepView,
    answers: Seq<(EventView, nat)>,
) -> StepView
    decreases answers.len(),
{
    if answers.len() == 0 {
        step
    } else {
        match step {
            StepView::Ask(_, task) => run(
                service,
                service::next_step(service, task, answers[0].0, answers[0].1),
                answers.skip(1),
            ),
            _ => step,
        }
    }
}

/// The action changes what is in the bucket, or an upload to it.
pub open spec fn changes_something(action: ActionView) -> bool {
    match action {
        ActionView::Delete { .. } => true,
        ActionView::DeleteMany { .. } => true,
        ActionView::PutBytes { .. } => true,
        ActionView::PutBody { .. } => true,
        ActionView::PutHeld { .. } => true,
        ActionView::CreateUpload { .. } => true,
        ActionView::UploadPart { .. } => true,
        ActionView::CompleteUpload { .. } => true,
        ActionView::AbortUpload { .. } => true,
        _ => false,
    }
}

/// Nothing is changed by this step: neither does it ask for a change nor does it pass the request
/// on to where one could be made.
pub open spec fn changes_nothing(step: StepView) -> bool {
    match step {
        StepView::Reply(_) => true,
        StepView::Fail => true,
        StepView::Forward { .. } => false,
        StepView::Ask(action, _) => !changes_something(action),
    }
}

// ---------------------------------------------------------------------------
// Read-only service
// ---------------------------------------------------------------------------

/// The task belongs to a conversation that only reads.
spec fn is_reading(task: TaskView) -> bool {
    match task {
        TaskView::Probe { plan, .. } => match plan {
            PlanView::Read(_) => true,
            PlanView::Share { .. } => true,
            PlanView::Propfind { .. } => true,
            _ => false,
        },
        TaskView::List { .. } => true,
        TaskView::Scan { goal, .. } => goal is Search,
        TaskView::Search { .. } => true,
        TaskView::Json { .. } => true,
        TaskView::PrettyJson { .. } => true,
        TaskView::Interface { .. } => true,
        TaskView::Open(_) => true,
        TaskView::Propfind { .. } => true,
        _ => false,
    }
}

spec fn keeps_reading(step: StepView) -> bool {
    changes_nothing(step) && (step matches StepView::Ask(_, task) ==> is_reading(task))
}

proof fn lemma_reading_goes_on(
    service: ServiceView,
    task: TaskView,
    event: EventView,
    now: nat,
)
    requires
        is_reading(task),
    ensures
        keeps_reading(service::next_step(service, task, event, now)),
{
}

proof fn lemma_reading_runs(
    service: ServiceView,
    step: StepView,
    answers: Seq<(EventView, nat)>,
)
    requires
        keeps_reading(step),
    ensures
        keeps_reading(run(service, step, answers)),
    decreases answers.len(),
{
    if answers.len() > 0 {
        match step {
            StepView::Ask(_, task) => {
                lemma_reading_goes_on(service, task, answers[0].0, answers[0].1);
                lemma_reading_runs(
                    service,
                    service::next_step(service, task, answers[0].0, answers[0].1),
                    answers.skip(1),
                );
            },
            _ => {},
        }
    }
}

/// A read-only service changes nothing, whoever asks for what and whatever the bucket answers.
pub proof fn law_read_only_changes_nothing(
    service: ServiceView,
    request: RequestView,
    now: nat,
    answers: Seq<(EventView, nat)>,
)
    requires
        service.read_only,
    ensures
        changes_nothing(run(service, service::request_step(request, service, now), answers)),
{
    lemma_reading_runs(service, service::request_step(request, service, now), answers);
}

/// Reading changes nothing, with or without credentials: nor do the other methods that only ask.
pub proof fn law_reading_changes_nothing(
    service: ServiceView,
    request: RequestView,
    now: nat,
    answers: Seq<(EventView, nat)>,
)
    requires
        !service::is_writing(text::upper_text(request.method)),
        codec::url_query_pairs(request.url) matches Some(params) ==> query::lookup(
            params,
            "__dufs_multipart"@,
        ) is None,
    ensures
        changes_nothing(run(service, service::request_step(request, service, now), answers)),
{
    lemma_reading_runs(service, service::request_step(request, service, now), answers);
}

/// The request is for what is in the bucket: the service does not answer it by itself, its path
/// names `key`, and its query reads as `params`.
pub open spec fn is_routed(
    request: RequestView,
    service: ServiceView,
    key: Text,
    params: Seq<(Text, Text)>,
) -> bool {
    &&& reply::internal_reply(request.method, request.path, service.assets) is None
    &&& keys::normalized(request.path) == Some(key)
    &&& codec::url_query_pairs(request.url) == Some(params)
}

// ---------------------------------------------------------------------------
// The public share
// ---------------------------------------------------------------------------

/// What every key of a shared file starts with.
pub open spec fn share_prefix() -> Text {
    PUBLIC_SHARE_ROOT@.push('/')
}

/// The action looks at nothing but what lies in the public share.
pub open spec fn stays_in_share(action: ActionView) -> bool {
    match action {
        ActionView::Head { key } => share_prefix().is_prefix_of(key),
        ActionView::Get { key, .. } => share_prefix().is_prefix_of(key),
        ActionView::List { prefix, .. } => share_prefix().is_prefix_of(prefix),
        _ => false,
    }
}

/// The step shows nothing but what lies in the public share, and changes nothing.
pub open spec fn visits_share(step: StepView) -> bool {
    match step {
        StepView::Reply(_) => true,
        StepView::Fail => true,
        StepView::Forward { .. } => false,
        StepView::Ask(action, _) => stays_in_share(action),
    }
}

spec fn is_visiting(task: TaskView) -> bool {
    match task {
        TaskView::Probe { key, plan, .. } => plan is Share && share_prefix().is_prefix_of(key),
        TaskView::List { key, show } => show is Share && keys::in_public_share(key),
        TaskView::Open(_) => true,
        _ => false,
    }
}

spec fn keeps_visiting(step: StepView) -> bool {
    visits_share(step) && (step matches StepView::Ask(_, task) ==> is_visiting(task))
}

proof fn lemma_below_share(key: Text, tail: Text)
    requires
        share_prefix().is_prefix_of(key),
    ensures
        share_prefix().is_prefix_of(key + tail),
        share_prefix().is_prefix_of(keys::prefix_of_directory(key)),
        share_prefix().is_prefix_of(keys::marker_of_directory(key)),
        key.len() > 0,
{
    let p = share_prefix();
    assert(p.len() > 0);
    assert(key.subrange(0, p.len() as int) =~= p);
    assert((key + tail).subrange(0, p.len() as int) =~= p);
    assert(key.push('/').subrange(0, p.len() as int) =~= p);
    assert((key.push('/') + keys::DIRECTORY_MARKER@).subrange(0, p.len() as int) =~= p);
}

proof fn lemma_share_node(
    key: Text,
    node: NodeView,
    slash: bool,
    head_only: bool,
    conditions: ConditionsView,
)
    requires
        keys::in_public_share(key),
        node is File ==> share_prefix().is_prefix_of(key),
    ensures
        keeps_visiting(share::share_step(key, node, slash, head_only, conditions)),
{
    assert(share_prefix().is_prefix_of(keys::prefix_of_directory(key))) by {
        if key == PUBLIC_SHARE_ROOT@ {
            reveal_strlit("share");
            assert(keys::prefix_of_directory(key) =~= share_prefix());
        } else {
            lemma_below_share(key, Seq::empty());
        }
    }
}

proof fn lemma_visit_goes_on(service: ServiceView, task: TaskView, event: EventView, now: nat)
    requires
        is_visiting(task),
    ensures
        keeps_visiting(service::next_step(service, task, event, now)),
{
    match task {
        TaskView::Probe { key, stage, plan } => {
            lemma_below_share(key, Seq::empty());
            match plan {
                PlanView::Share { slash, head_only, conditions } => {
                    lemma_share_node(key, NodeView::Dir, slash, head_only, conditions);
                    lemma_share_node(key, NodeView::Missing, slash, head_only, conditions);
                    match event {
                        EventView::Object(Some(object)) => {
                            lemma_share_node(
                                key,
                                NodeView::File(object),
                                slash,
                                head_only,
                                conditions,
                            );
                        },
                        _ => {},
                    }
                },
                _ => {},
            }
        },
        _ => {},
    }
}

proof fn lemma_visit_runs(service: ServiceView, step: StepView, answers: Seq<(EventView, nat)>)
    requires
        keeps_visiting(step),
    ensures
        keeps_visiting(run(service, step, answers)),
    decreases answers.len(),
{
    if answers.len() > 0 {
        match step {
            StepView::Ask(_, task) => {
                lemma_visit_goes_on(service, task, answers[0].0, answers[0].1);
                lemma_visit_runs(
                    service,
                    service::next_step(service, task, answers[0].0, answers[0].1),
                    answers.skip(1),
                );
            },
            _ => {},
        }
    }
}

proof fn lemma_visit_begins(
    service: ServiceView,
    request: RequestView,
    key: Text,
    params: Seq<(Text, Text)>,
    now: nat,
)
    requires
        keys::in_public_share(key),
        request.authorization is None,
    ensures
        keeps_visiting(service::routed_step(request, key, params, service, now)),
{
    let method = text::upper_text(request.method);
    let slash = request.path.len() > 0 && request.path.last() == '/';
    let conditions = service::conditions_of(request);
    if key == PUBLIC_SHARE_ROOT@ {
        lemma_share_node(key, NodeView::Dir, slash, method == "HEAD"@, conditions);
    } else {
        lemma_below_share(key, Seq::empty());
    }
}

/// Whoever has neither the credentials nor a download token sees nothing of the bucket but objects
/// whose keys start with `share/`, and can change nothing, whatever the request and whatever the
/// bucket answers.
pub proof fn law_strangers_see_only_the_share(
    service: ServiceView,
    request: RequestView,
    now: nat,
    answers: Seq<(EventView, nat)>,
)
    requires
        request.authorization is None,
        codec::url_query_pairs(request.url) matches Some(params) ==> query::lookup(
            params,
            "token"@,
        ) is None,
    ensures
        visits_share(run(service, service::request_step(request, service, now), answers)),
{
    let step = service::request_step(request, service, now);
    match (keys::normalized(request.path), codec::url_query_pairs(request.url)) {
        (Some(key), Some(params)) => {
            if keys::in_public_share(key) {
                lemma_visit_begins(service, request, key, params, now);
            }
        },
        _ => {},
    }
    assert(keeps_visiting(step));
    lemma_visit_runs(service, step, answers);
}

/// Below the share this holds with a download token too: who visits it without credentials stays
/// in it.
pub proof fn law_visitors_stay_in_the_share(
    service: ServiceView,
    request: RequestView,
    key: Text,
    now: nat,
    answers: Seq<(EventView, nat)>,
)
    requires
        keys::normalized(request.path) == Some(key),
        keys::in_public_share(key),
        request.authorization is None,
    ensures
        visits_share(run(service, service::request_step(request, service, now), answers)),
{
    let step = service::request_step(request, service, now);
    match codec::url_query_pairs(request.url) {
        Some(params) => {
            lemma_visit_begins(service, request, key, params, now);
        },
        None => {},
    }
    assert(keeps_visiting(step));
    lemma_visit_runs(service, step, answers);
}

/// A visitor of the share who wants anything but to read is refused at once.
pub proof fn law_visitors_only_read(
    service: ServiceView,
    request: RequestView,
    key: Text,
    params: Seq<(Text, Text)>,
    now: nat,
)
    requires
        is_routed(request, service, key, params),
        keys::in_public_share(key),
        request.authorization is None,
        service.has_bucket,
        text::upper_text(request.method) != "GET"@,
        text::upper_text(request.method) != "HEAD"@,
    ensures
        service::request_step(request, service, now) == StepView::Reply(
            reply::share_method_reply(),
        ),
{
}

/// The reply has the header.
pub open spec fn has_header(reply: ReplyView, name: Text, value: Text) -> bool {
    reply.headers.contains((name, value))
}

/// Every shared file is sent with headers that keep it from acting as a page of this origin, and
/// that have it revalidated.
pub proof fn law_shared_files_are_guarded(
    key: Text,
    object: ObjectInfoView,
    part: Option<(nat, nat)>,
)
    ensures
        has_header(
            files::file_headers(key, object, part, true),
            "content-security-policy"@,
            "sandbox; default-src 'none'; frame-ancestors 'none'"@,
        ),
        has_header(
            files::file_headers(key, object, part, true),
            "x-content-type-options"@,
            "nosniff"@,
        ),
        has_header(
            files::file_headers(key, object, part, true),
            "cache-control"@,
            "no-cache"@,
        ),
        has_header(
            files::file_headers(key, object, part, true),
            "content-disposition"@,
            crate::media::public_disposition_value(key, pages::effective_type(key, object)),
        ),
{
    let all = files::file_headers(key, object, part, true);
    let status = all.status;
    let bare = files::content_headers(status, key, object, true);
    let n = bare.headers.len() as int;
    assert(all.headers[3] == (
        "content-disposition"@,
        crate::media::public_disposition_value(key, pages::effective_type(key, object)),
    ));
    assert(all.headers[n] == ("cache-control"@, "no-cache"@));
    assert(all.headers[n + 1] == (
        "content-security-policy"@,
        "sandbox; default-src 'none'; frame-ancestors 'none'"@,
    ));
    assert(all.headers[n + 3] == ("x-content-type-options"@, "nosniff"@));
}

/// The page of a shared directory runs no script and is revalidated.
pub proof fn law_shared_pages_are_guarded(key: Text, items: Seq<PathItemView>, head_only: bool)
    ensures
        has_header(
            pages::share_page_reply(key, items, head_only),
            "content-security-policy"@,
            "default-src 'none'; style-src 'unsafe-inline'; base-uri 'none'; frame-ancestors 'none'"@,
        ),
        has_header(
            pages::share_page_reply(key, items, head_only),
            "x-content-type-options"@,
            "nosniff"@,
        ),
        has_header(pages::share_page_reply(key, items, head_only), "cache-control"@, "no-cache"@),
{
    let all = pages::share_page_reply(key, items, head_only);
    assert(all.headers[2] == ("cache-control"@, "no-cache"@));
    assert(all.headers[3] == (
        "content-security-policy"@,
        "default-src 'none'; style-src 'unsafe-inline'; base-uri 'none'; frame-ancestors 'none'"@,
    ));
    assert(all.headers[5] == ("x-content-type-options"@, "nosniff"@));
}

// ---------------------------------------------------------------------------
// Who is let in
// ---------------------------------------------------------------------------

/// Outside the share, a request that is not let in is refused before anything is asked for.
pub proof fn law_strangers_are_refused(
    service: ServiceView,
    request: RequestView,
    key: Text,
    params: Seq<(Text, Text)>,
    user: CredentialsView,
    now: nat,
)
    requires
        is_routed(request, service, key, params),
        service.credentials == Some(user),
        !keys::in_public_share(key) || request.authorization is Some,
        !auth::is_authenticated(
            request.authorization,
            user,
            key,
            text::upper_text(request.method),
            params,
            now,
        ),
    ensures
        service::request_step(request, service, now) == StepView::Reply(
            reply::unauthorized_reply(),
        ),
{
}

/// The credentials let their holder in everywhere, whatever the request.
pub proof fn law_the_user_is_let_in(
    service: ServiceView,
    request: RequestView,
    key: Text,
    params: Seq<(Text, Text)>,
    user: CredentialsView,
    now: nat,
)
    requires
        is_routed(request, service, key, params),
        service.credentials == Some(user),
        !user.username.contains(':'),
        request.authorization == Some(auth::basic_header(user)),
    ensures
        service::request_step(request, service, now) == service::authorized_step(
            request,
            key,
            text::upper_text(request.method),
            params,
            service,
            user,
            now,
        ),
{
}

/// A link with a download token works without credentials until the token expires.
pub proof fn law_download_links_work(
    service: ServiceView,
    request: RequestView,
    key: Text,
    params: Seq<(Text, Text)>,
    user: CredentialsView,
    expiry: nat,
    now: nat,
)
    requires
        is_routed(request, service, key, params),
        service.credentials == Some(user),
        !keys::in_public_share(key),
        text::upper_text(request.method) == "GET"@ || text::upper_text(request.method) == "HEAD"@,
        query::lookup(params, "token"@) == Some(auth::token_text(key, expiry, user)),
        now <= expiry <= u64::MAX,
    ensures
        service::request_step(request, service, now) == service::authorized_step(
            request,
            key,
            text::upper_text(request.method),
            params,
            service,
            user,
            now,
        ),
{
    auth::law_tokens_open_until_they_expire(key, expiry, user, now);
}

/// Until credentials are set up nobody is let in: outside the share every request fails.
pub proof fn law_nobody_is_let_in_without_credentials(
    service: ServiceView,
    request: RequestView,
    key: Text,
    params: Seq<(Text, Text)>,
    now: nat,
)
    requires
        is_routed(request, service, key, params),
        service.credentials is None,
        !keys::in_public_share(key) || request.authorization is Some,
    ensures
        service::answered_step(service::request_step(request, service, now))
            == StepView::Reply(reply::failure_reply()),
{
}

// ---------------------------------------------------------------------------
// Failures
// ---------------------------------------------------------------------------

/// A failure outside ends the conversation, whatever was being done.
pub proof fn law_failures_end_the_conversation(service: ServiceView, task: TaskView, now: nat)
    ensures
        service::next_step(service, task, EventView::Failed, now) == StepView::Fail,
{
}

/// The client is always answered: what it sees of a failure is a reply.
pub proof fn law_failures_are_answered(step: StepView)
    ensures
        !(service::answered_step(step) is Fail),
        step is Fail ==> service::answered_step(step) == StepView::Reply(
            reply::text_reply(500, "Internal Server Error"@),
        ),
        !(step is Fail) ==> service::answered_step(step) == step,
{
}

/// A request for the headers alone gets those that a request for the contents gets.
pub proof fn law_headers_are_those_of_the_contents(
    key: Text,
    object: ObjectInfoView,
    part: Option<(nat, nat)>,
    public_share: bool,
    items: Seq<PathItemView>,
    content_type: Text,
    body: Seq<u8>,
)
    ensures
        files::send_step(key, object, part, true, public_share) == StepView::Reply(
            files::file_headers(key, object, part, public_share),
        ),
        files::send_step(key, object, part, false, public_share) matches StepView::Ask(_, task)
            && task == TaskView::Open(files::file_headers(key, object, part, public_share)),
        pages::share_page_reply(key, items, true).headers == pages::share_page_reply(
            key,
            items,
            false,
        ).headers,
        reply::fixed_reply(200, content_type, body, true).headers == reply::fixed_reply(
            200,
            content_type,
            body,
            false,
        ).headers,
{
}

} // verus!
