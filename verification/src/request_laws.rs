//! What requests come to, by their methods and queries.

use crate::access_laws;
use crate::auth::{self, CredentialsView};
use crate::codec;
use crate::dav;
use crate::escape;
use crate::files;
use crate::key_laws;
use crate::keys;
use crate::listing;
use crate::machine::{
    ActionView, AfterView, ConditionsView, EventView, ListPlanView, MultipartClientPartView,
    Namespace, PlanView, ProbeStage, ReadPlanView, RequestView, ScanPlanView, ServiceView,
    SessionPlanView, StepView, TaskView, TransferPlanView,
};
use crate::model::{NodeView, ObjectInfoView, PathItemView};
use crate::multipart;
use crate::numbers;
use crate::query;
use crate::reply::{self, AssetsView, BodyView, ReplyView};
use crate::service;
use crate::text::{self, Text};
use crate::transfer_laws;
use crate::transfers;
use crate::uploads;
use crate::world::{self, Scene};
use vstd::prelude::*;
use vstd::utf8::*;

verus! {

// ---------------------------------------------------------------------------
// Who asks, and for what
// ---------------------------------------------------------------------------

/// The request carries the name and the password of the user as HTTP Basic credentials.
pub open spec fn carries_credentials(request: RequestView, user: CredentialsView) -> bool {
    request.authorization == Some(
        "Basic "@ + codec::standard_base64(
            encode_utf8(user.username + ":"@ + user.password),
        ),
    )
}

/// The user asks for `key` of a service with a bucket; the query reads as `params`.
pub open spec fn asks(
    request: RequestView,
    service: ServiceView,
    user: CredentialsView,
    key: Text,
    params: Seq<(Text, Text)>,
) -> bool {
    &&& access_laws::is_routed(request, service, key, params)
    &&& service.credentials == Some(user)
    &&& service.has_bucket
    &&& !user.username.contains(':')
    &&& carries_credentials(request, user)
}

/// The query asks for nothing that goes before the method.
pub open spec fn is_plain_query(params: Seq<(Text, Text)>) -> bool {
    &&& query::lookup(params, "tokengen"@) is None
    &&& query::lookup(params, "__dufs_multipart"@) is None
}

/// The query neither signs in nor out.
pub open spec fn signs_nobody_in_or_out(params: Seq<(Text, Text)>) -> bool {
    &&& query::lookup(params, "__dufs_checkauth"@) is None
    &&& query::lookup(params, "__dufs_logout"@) is None
}

/// The reply has this status and says this in plain text.
pub open spec fn says(step: StepView, status: u16, message: Text) -> bool {
    &&& step matches StepView::Reply(reply)
    &&& reply.status == status
    &&& reply.headers == seq![("content-type"@, "text/plain; charset=utf-8"@)]
    &&& reply.body == BodyView::Bytes(encode_utf8(message))
}

/// The methods differ in their length or their first letter.
proof fn lemma_methods()
    ensures
        "GET"@.len() == 3 && "GET"@[0] == 'G',
        "PUT"@.len() == 3 && "PUT"@[0] == 'P',
        "HEAD"@.len() == 4 && "HEAD"@[0] == 'H',
        "POST"@.len() == 4 && "POST"@[0] == 'P',
        "COPY"@.len() == 4 && "COPY"@[0] == 'C',
        "MOVE"@.len() == 4 && "MOVE"@[0] == 'M',
        "LOCK"@.len() == 4 && "LOCK"@[0] == 'L',
        "PATCH"@.len() == 5 && "PATCH"@[0] == 'P',
        "MKCOL"@.len() == 5 && "MKCOL"@[0] == 'M',
        "DELETE"@.len() == 6 && "DELETE"@[0] == 'D',
        "UNLOCK"@.len() == 6 && "UNLOCK"@[0] == 'U',
        "LOGOUT"@.len() == 6 && "LOGOUT"@[0] == 'L',
        "OPTIONS"@.len() == 7 && "OPTIONS"@[0] == 'O',
        "PROPFIND"@.len() == 8 && "PROPFIND"@[0] == 'P',
        "PROPPATCH"@.len() == 9 && "PROPPATCH"@[0] == 'P',
        "CHECKAUTH"@.len() == 9 && "CHECKAUTH"@[0] == 'C',
{
    reveal_strlit("GET");
    reveal_strlit("PUT");
    reveal_strlit("HEAD");
    reveal_strlit("POST");
    reveal_strlit("COPY");
    reveal_strlit("MOVE");
    reveal_strlit("LOCK");
    reveal_strlit("PATCH");
    reveal_strlit("MKCOL");
    reveal_strlit("DELETE");
    reveal_strlit("UNLOCK");
    reveal_strlit("LOGOUT");
    reveal_strlit("OPTIONS");
    reveal_strlit("PROPFIND");
    reveal_strlit("PROPPATCH");
    reveal_strlit("CHECKAUTH");
}

proof fn lemma_let_in(
    service: ServiceView,
    request: RequestView,
    key: Text,
    params: Seq<(Text, Text)>,
    user: CredentialsView,
    now: nat,
)
    requires
        asks(request, service, user, key, params),
    ensures
        service::request_step(request, service, now) == service::authorized_step(
            request,
            key,
            text::upper_text(request.method),
            params,
            service,
            user,
            now,
        ),
{
    reveal_strlit(":");
    assert(user.username + ":"@ + user.password =~= user.username.push(':') + user.password);
    access_laws::law_the_user_is_let_in(service, request, key, params, user, now);
}

// ---------------------------------------------------------------------------
// Reading
// ---------------------------------------------------------------------------

/// A user who asks by `GET` or `HEAD`, in letters of any case, is shown what stands at the key, with
/// every condition of the request; by `HEAD` only the headers.
pub proof fn law_get_and_head_read(
    service: ServiceView,
    request: RequestView,
    key: Text,
    params: Seq<(Text, Text)>,
    user: CredentialsView,
    now: nat,
)
    requires
        asks(request, service, user, key, params),
        is_plain_query(params),
        text::upper_text(request.method) == "GET"@ || text::upper_text(request.method) == "HEAD"@,
    ensures
        service::request_step(request, service, now) == listing::node_step(
            key,
            PlanView::Read(
                ReadPlanView {
                    params,
                    user: user.username,
                    read_only: service.read_only,
                    head_only: text::upper_text(request.method) == "HEAD"@,
                    conditions: ConditionsView {
                        if_none_match: request.if_none_match,
                        if_match: request.if_match,
                        range: request.range,
                    },
                },
            ),
        ),
{
    lemma_let_in(service, request, key, params, user, now);
    lemma_methods();
}

/// A link with a download token reads as the user does, until the token expires.
pub proof fn law_tokens_read(
    service: ServiceView,
    request: RequestView,
    key: Text,
    params: Seq<(Text, Text)>,
    user: CredentialsView,
    expiry: nat,
    now: nat,
)
    requires
        access_laws::is_routed(request, service, key, params),
        service.credentials == Some(user),
        service.has_bucket,
        key != "share"@,
        !"share/"@.is_prefix_of(key),
        is_plain_query(params),
        text::upper_text(request.method) == "GET"@ || text::upper_text(request.method) == "HEAD"@,
        query::lookup(params, "token"@) == Some(auth::token_text(key, expiry, user)),
        now <= expiry <= u64::MAX,
    ensures
        service::request_step(request, service, now) == listing::node_step(
            key,
            PlanView::Read(
                ReadPlanView {
                    params,
                    user: user.username,
                    read_only: service.read_only,
                    head_only: text::upper_text(request.method) == "HEAD"@,
                    conditions: ConditionsView {
                        if_none_match: request.if_none_match,
                        if_match: request.if_match,
                        range: request.range,
                    },
                },
            ),
        ),
{
    key_laws::law_the_share_is_what_lies_below_it(key);
    access_laws::law_download_links_work(service, request, key, params, user, expiry, now);
    lemma_methods();
}

/// Whoever asks for a download token of a file gets one that opens this file and is good for three
/// days from now and no longer.
pub proof fn law_tokens_last_three_days(
    service: ServiceView,
    request: RequestView,
    key: Text,
    params: Seq<(Text, Text)>,
    user: CredentialsView,
    now: nat,
    later: nat,
)
    requires
        asks(request, service, user, key, params),
        query::lookup(params, "tokengen"@) is Some,
        text::upper_text(request.method) == "GET"@ || text::upper_text(request.method) == "HEAD"@,
        now + 259_200_000 <= u64::MAX,
    ensures
        exists|token: Text| #[trigger]
            says(service::request_step(request, service, now), 200, token) && (
            auth::token_opens(token, key, user, later) <==> later <= now + 259_200_000),
{
    lemma_let_in(service, request, key, params, user, now);
    lemma_methods();
    let expiry = now + auth::TOKEN_TTL_MILLIS as nat;
    let token = auth::token_text(key, expiry, user);
    auth::law_tokens_open_until_they_expire(key, expiry, user, later);
    assert(says(service::request_step(request, service, now), 200, token));
}

/// A token is given for reading only: by no other method is one to be had.
pub proof fn law_tokens_are_asked_for_by_reading(
    service: ServiceView,
    request: RequestView,
    key: Text,
    params: Seq<(Text, Text)>,
    user: CredentialsView,
    now: nat,
)
    requires
        asks(request, service, user, key, params),
        query::lookup(params, "tokengen"@) is Some,
        ({
            let method = text::upper_text(request.method);
            &&& method != "GET"@ && method != "HEAD"@ && method != "CHECKAUTH"@ && method
                != "LOGOUT"@
            &&& method == "POST"@ ==> signs_nobody_in_or_out(params)
        }),
    ensures
        says(service::request_step(request, service, now), 405, "Method Not Allowed"@),
{
    lemma_let_in(service, request, key, params, user, now);
    assert(reply::text_reply(405, "Method Not Allowed"@).headers =~= seq![
        ("content-type"@, "text/plain; charset=utf-8"@),
    ]);
}

// ---------------------------------------------------------------------------
// Changing
// ---------------------------------------------------------------------------

/// What a user asks for that changes the bucket is begun, unless the service is read-only: then it
/// is refused. Uploads to one key, and copies and moves of one source, each go to one place.
pub proof fn law_changes_are_begun(
    service: ServiceView,
    request: RequestView,
    key: Text,
    params: Seq<(Text, Text)>,
    user: CredentialsView,
    now: nat,
)
    requires
        asks(request, service, user, key, params),
        is_plain_query(params),
    ensures
        ({
            let method = text::upper_text(request.method);
            let step = service::request_step(request, service, now);
            let upload = method == "PUT"@ || method == "PATCH"@;
            let transfer = method == "COPY"@ || method == "MOVE"@;
            let changing = upload || transfer || method == "DELETE"@ || method == "MKCOL"@;
            &&& changing && service.read_only ==> says(step, 403, "Read-only"@)
            &&& !service.read_only ==> {
                &&& upload && key.len() > 0 ==> step == StepView::Forward {
                    namespace: Namespace::ObjectUpload,
                    name: key,
                }
                &&& upload && key.len() == 0 ==> step == StepView::Forward {
                    namespace: Namespace::ObjectUpload,
                    name: "/"@,
                }
                &&& transfer && key.len() > 0 ==> step == StepView::Forward {
                    namespace: Namespace::ObjectCopy,
                    name: key,
                }
                &&& transfer && key.len() == 0 ==> (step matches StepView::Reply(reply)
                    && reply.status == 403)
                &&& method == "DELETE"@ ==> step == transfers::delete_request_step(key)
                &&& method == "MKCOL"@ ==> step == transfers::mkcol_request_step(key)
            }
        }),
{
    lemma_let_in(service, request, key, params, user, now);
    lemma_methods();
}

/// What stands at the root cannot be removed or made.
pub proof fn law_the_root_stays()
    ensures
        transfers::delete_request_step(Seq::empty()) matches StepView::Reply(reply) && reply.status
            == 403,
        transfers::mkcol_request_step(Seq::empty()) matches StepView::Reply(reply) && reply.status
            == 405,
        uploads::start_request_step(Seq::empty()) matches StepView::Reply(reply) && reply.status
            == 405,
        forall|length: Option<Text>, content_type: Option<Text>|
            (#[trigger] uploads::put_request_step(Seq::empty(), length, content_type)) matches
                StepView::Reply(reply) && reply.status == 405,
{
}

// ---------------------------------------------------------------------------
// What WebDAV clients and browsers ask for besides
// ---------------------------------------------------------------------------

/// What WebDAV clients ask for besides: the properties of a file or a directory, what the service
/// can do, and locks, which lock nothing.
pub proof fn law_clients_are_answered(
    service: ServiceView,
    request: RequestView,
    key: Text,
    params: Seq<(Text, Text)>,
    user: CredentialsView,
    now: nat,
)
    requires
        asks(request, service, user, key, params),
        is_plain_query(params),
    ensures
        ({
            let method = text::upper_text(request.method);
            let step = service::request_step(request, service, now);
            &&& method == "PROPFIND"@ ==> step == dav::propfind_request_step(key, request.depth)
            &&& method == "OPTIONS"@ ==> (step matches StepView::Reply(reply) && reply.status == 200
                && access_laws::has_header(reply, "dav"@, "1, 2, 3"@) && access_laws::has_header(
                reply,
                "allow"@,
                "GET, HEAD, POST, PUT, OPTIONS, DELETE, PATCH, PROPFIND, PROPPATCH, MKCOL, COPY, MOVE, LOCK, UNLOCK"@,
            ))
            &&& method == "PROPPATCH"@ ==> step == StepView::Reply(reply::proppatch_reply(key))
            &&& method == "LOCK"@ ==> step == StepView::Reply(reply::lock_reply(key, now))
            &&& method == "UNLOCK"@ ==> step == StepView::Reply(ReplyView::new(204))
            &&& method == "POST"@ && signs_nobody_in_or_out(params) ==> says(
                step,
                405,
                "Method Not Allowed"@,
            )
        }),
{
    lemma_let_in(service, request, key, params, user, now);
    lemma_methods();
    if text::upper_text(request.method) == "OPTIONS"@ {
        let all = reply::dav_reply(200);
        assert(all.headers[0] == (
            "allow"@,
            "GET, HEAD, POST, PUT, OPTIONS, DELETE, PATCH, PROPFIND, PROPPATCH, MKCOL, COPY, MOVE, LOCK, UNLOCK"@,
        ));
        assert(all.headers[1] == ("dav"@, "1, 2, 3"@));
    }
}

/// A browser that signs in is told the name of the user, and one that signs out is asked for
/// credentials anew. Both can be asked for by a method of its own, or by `POST` and the query.
pub proof fn law_browsers_sign_in_and_out(
    service: ServiceView,
    request: RequestView,
    key: Text,
    params: Seq<(Text, Text)>,
    user: CredentialsView,
    now: nat,
)
    requires
        asks(request, service, user, key, params),
    ensures
        ({
            let method = text::upper_text(request.method);
            let step = service::request_step(request, service, now);
            let signs_in = method == "CHECKAUTH"@ || method == "POST"@ && query::lookup(
                params,
                "__dufs_checkauth"@,
            ) is Some;
            let signs_out = method == "LOGOUT"@ || method == "POST"@ && query::lookup(
                params,
                "__dufs_logout"@,
            ) is Some;
            &&& signs_in ==> says(step, 200, user.username)
            &&& signs_out && !signs_in ==> (step matches StepView::Reply(reply) && reply.status
                == 401 && access_laws::has_header(
                reply,
                "www-authenticate"@,
                "Basic realm=\"DUFS\", charset=\"UTF-8\""@,
            ))
        }),
{
    lemma_let_in(service, request, key, params, user, now);
    lemma_methods();
    let all = reply::unauthorized_reply();
    assert(all.headers[3] == (
        "www-authenticate"@,
        "Basic realm=\"DUFS\", charset=\"UTF-8\""@,
    ));
}

/// Outside the share, whoever carries neither the credentials nor a token of this key that is still
/// good for reading is asked for credentials, whatever the request.
pub proof fn law_nobody_else_is_let_in(
    service: ServiceView,
    request: RequestView,
    key: Text,
    params: Seq<(Text, Text)>,
    user: CredentialsView,
    now: nat,
)
    requires
        access_laws::is_routed(request, service, key, params),
        service.credentials == Some(user),
        key != "share"@ && !"share/"@.is_prefix_of(key) || request.authorization is Some,
        !carries_credentials(request, user),
        query::lookup(params, "token"@) matches Some(token) ==> !auth::token_opens(
            token,
            key,
            user,
            now,
        ) || text::upper_text(request.method) != "GET"@ && text::upper_text(request.method)
            != "HEAD"@,
    ensures
        service::request_step(request, service, now) matches StepView::Reply(reply) && reply.status
            == 401 && access_laws::has_header(
            reply,
            "www-authenticate"@,
            "Basic realm=\"DUFS\", charset=\"UTF-8\""@,
        ),
{
    key_laws::law_the_share_is_what_lies_below_it(key);
    reveal_strlit(":");
    assert(user.username + ":"@ + user.password =~= user.username.push(':') + user.password);
    access_laws::law_strangers_are_refused(service, request, key, params, user, now);
    let all = reply::unauthorized_reply();
    assert(all.headers[3] == (
        "www-authenticate"@,
        "Basic realm=\"DUFS\", charset=\"UTF-8\""@,
    ));
}

/// Nothing is done for other methods.
pub proof fn law_other_methods_are_refused(
    service: ServiceView,
    request: RequestView,
    key: Text,
    params: Seq<(Text, Text)>,
    user: CredentialsView,
    now: nat,
)
    requires
        asks(request, service, user, key, params),
        is_plain_query(params),
        ({
            let method = text::upper_text(request.method);
            &&& method != "GET"@ && method != "HEAD"@ && method != "PUT"@ && method != "PATCH"@
            &&& method != "DELETE"@ && method != "MKCOL"@ && method != "COPY"@ && method != "MOVE"@
            &&& method != "OPTIONS"@ && method != "PROPFIND"@ && method != "PROPPATCH"@
            &&& method != "LOCK"@ && method != "UNLOCK"@
            &&& method != "CHECKAUTH"@ && method != "LOGOUT"@
            &&& method == "POST"@ ==> signs_nobody_in_or_out(params)
        }),
    ensures
        says(service::request_step(request, service, now), 405, "Method Not Allowed"@),
{
    lemma_let_in(service, request, key, params, user, now);
}

// ---------------------------------------------------------------------------
// The share
// ---------------------------------------------------------------------------

/// A visitor who asks by `GET` or `HEAD`, in letters of any case, is shown what stands at a key
/// below the share, with every condition of the request; by `HEAD` only the headers. At the root of
/// the share there is always a directory.
pub proof fn law_visitors_are_shown_the_share(
    service: ServiceView,
    request: RequestView,
    key: Text,
    params: Seq<(Text, Text)>,
    now: nat,
)
    requires
        access_laws::is_routed(request, service, key, params),
        key == "share"@ || "share/"@.is_prefix_of(key),
        request.authorization is None,
        service.has_bucket,
        text::upper_text(request.method) == "GET"@ || text::upper_text(request.method) == "HEAD"@,
    ensures
        ({
            let step = service::request_step(request, service, now);
            let slash = request.path.len() > 0 && request.path.last() == '/';
            let head_only = text::upper_text(request.method) == "HEAD"@;
            let conditions = ConditionsView {
                if_none_match: request.if_none_match,
                if_match: request.if_match,
                range: request.range,
            };
            &&& key != "share"@ ==> step == listing::node_step(
                key,
                PlanView::Share { slash, head_only, conditions },
            )
            &&& key == "share"@ && slash ==> step == StepView::Ask(
                ActionView::List {
                    prefix: "share/"@,
                    delimited: true,
                    limit: 1000,
                    cursor: None,
                },
                TaskView::List { key, show: ListPlanView::Share { head_only } },
            )
            &&& key == "share"@ && !slash ==> (step matches StepView::Reply(reply) && reply.status
                == 308 && access_laws::has_header(reply, "location"@, keys::href_of(key, true)))
        }),
{
    key_laws::law_the_share_is_what_lies_below_it(key);
    lemma_methods();
    reveal_strlit("share");
    reveal_strlit("share/");
    assert("share"@.push('/') =~= "share/"@);
    let moved = reply::redirect_reply(keys::href_of(key, true));
    assert(moved.headers[0] == ("location"@, keys::href_of(key, true)));
}

/// What a visitor is shown of a directory: its page, at an address with a slash at its end; any
/// other address leads there for good. Where nothing stands there is nothing to show.
pub proof fn law_shared_directories_are_shown(
    key: Text,
    head_only: bool,
    conditions: ConditionsView,
    slash: bool,
)
    ensures
        ({
            let plan = PlanView::Share { slash, head_only, conditions };
            let shown = listing::at_node_step(key, NodeView::Dir, plan);
            &&& slash ==> shown == StepView::Ask(
                ActionView::List {
                    prefix: keys::prefix_of_directory(key),
                    delimited: true,
                    limit: 1000,
                    cursor: None,
                },
                TaskView::List { key, show: ListPlanView::Share { head_only } },
            )
            &&& !slash ==> (shown matches StepView::Reply(reply) && reply.status == 308
                && access_laws::has_header(reply, "location"@, keys::href_of(key, true)))
            &&& says(listing::at_node_step(key, NodeView::Missing, plan), 404, "Not Found"@)
        }),
{
    let moved = reply::redirect_reply(keys::href_of(key, true));
    assert(moved.headers[0] == ("location"@, keys::href_of(key, true)));
}

// ---------------------------------------------------------------------------
// Uploads in parts
// ---------------------------------------------------------------------------

/// A request about an upload in parts, by what the query asks for: one is begun, or the list of parts
/// that ends one is read. A read-only service refuses all of them, and nothing else can be asked for.
pub proof fn law_uploads_in_parts_are_begun(
    service: ServiceView,
    request: RequestView,
    key: Text,
    params: Seq<(Text, Text)>,
    user: CredentialsView,
    now: nat,
)
    requires
        asks(request, service, user, key, params),
        query::lookup(params, "tokengen"@) is None,
        query::lookup(params, "__dufs_multipart"@) is Some,
        ({
            let method = text::upper_text(request.method);
            &&& method != "CHECKAUTH"@ && method != "LOGOUT"@
            &&& method == "POST"@ ==> signs_nobody_in_or_out(params)
        }),
    ensures
        ({
            let method = text::upper_text(request.method);
            let step = service::request_step(request, service, now);
            let wanted = query::lookup(params, "__dufs_multipart"@)->0;
            let starts = method == "POST"@ && wanted == "start"@;
            let brings_part = method == "PUT"@ && wanted == "part"@;
            let completes = method == "POST"@ && wanted == "complete"@;
            let aborts = method == "POST"@ && wanted == "abort"@;
            &&& service.read_only ==> says(step, 403, "Read-only"@)
            &&& !service.read_only ==> {
                &&& starts ==> step == uploads::start_request_step(key)
                &&& completes ==> step == StepView::Ask(
                    ActionView::ReadComplete,
                    TaskView::CompleteRead { key },
                )
                &&& !starts && !brings_part && !completes && !aborts ==> (step matches
                    StepView::Reply(reply) && reply.status == 405)
            }
        }),
{
    lemma_let_in(service, request, key, params, user, now);
    lemma_methods();
    lemma_wishes();
    assert(reply::text_reply(403, "Read-only"@).headers =~= seq![
        ("content-type"@, "text/plain; charset=utf-8"@),
    ]);
}

/// What can be asked for differs in its first letter.
proof fn lemma_wishes()
    ensures
        "start"@.len() > 0 && "start"@[0] == 's',
        "part"@.len() > 0 && "part"@[0] == 'p',
        "complete"@.len() > 0 && "complete"@[0] == 'c',
        "abort"@.len() > 0 && "abort"@[0] == 'a',
{
    reveal_strlit("start");
    reveal_strlit("part");
    reveal_strlit("complete");
    reveal_strlit("abort");
}

/// A part goes to the place of its upload, and an upload is given up, with the session that was
/// sealed when the upload began. Without one, or with one that was not sealed with the credentials,
/// both are refused.
pub proof fn law_uploads_in_parts_go_on_with_their_session(
    service: ServiceView,
    request: RequestView,
    key: Text,
    params: Seq<(Text, Text)>,
    user: CredentialsView,
    json: Seq<u8>,
    now: nat,
)
    requires
        asks(request, service, user, key, params),
        !service.read_only,
        query::lookup(params, "tokengen"@) is None,
        ({
            let method = text::upper_text(request.method);
            let wanted = query::lookup(params, "__dufs_multipart"@);
            ||| method == "PUT"@ && wanted == Some("part"@)
            ||| method == "POST"@ && wanted == Some("abort"@) && signs_nobody_in_or_out(params)
        }),
    ensures
        ({
            let step = service::request_step(request, service, now);
            let session = query::lookup(params, "session"@);
            &&& session == Some(multipart::sealed(json, user)) ==> step == StepView::Ask(
                ActionView::ParseSession { json },
                TaskView::Session {
                    key,
                    purpose: if text::upper_text(request.method) == "PUT"@ {
                        SessionPlanView::Forward
                    } else {
                        SessionPlanView::Abort
                    },
                },
            )
            &&& (session matches Some(token) ==> forall|other: Seq<u8>|
                token != #[trigger] multipart::sealed(other, user)) ==> (step matches
                StepView::Reply(reply) && reply.status == 403)
        }),
{
    lemma_let_in(service, request, key, params, user, now);
    lemma_methods();
    lemma_wishes();
    lemma_session_opens(json, user, key, SessionPlanView::Forward);
    lemma_session_opens(json, user, key, SessionPlanView::Abort);
}

proof fn lemma_session_opens(
    json: Seq<u8>,
    user: CredentialsView,
    key: Text,
    plan: SessionPlanView,
)
    ensures
        uploads::session_step(Some(multipart::sealed(json, user)), Some(user), key, plan)
            == StepView::Ask(
            ActionView::ParseSession { json },
            TaskView::Session { key, purpose: plan },
        ),
{
    multipart::law_sessions_read_back(json, user);
    let token = multipart::sealed(json, user);
    assert(token[codec::url_base64(json).len() as int] == '.');
}

/// A part that has come to the place of its upload is stored under the number in the query, once
/// its session has been read.
pub proof fn law_parts_are_handled_in_their_place(
    service: ServiceView,
    request: RequestView,
    key: Text,
    params: Seq<(Text, Text)>,
    user: CredentialsView,
    json: Seq<u8>,
)
    requires
        keys::normalized(request.path) == Some(key),
        codec::url_query_pairs(request.url) == Some(params),
        service.credentials == Some(user),
        service.has_bucket,
        request.method == "PUT"@,
        query::lookup(params, "__dufs_multipart"@) == Some("part"@),
        query::lookup(params, "session"@) == Some(multipart::sealed(json, user)),
    ensures
        service::part_fetch_step(request, service) == StepView::Ask(
            ActionView::ParseSession { json },
            TaskView::Session {
                key,
                purpose: SessionPlanView::Part {
                    part_number: query::lookup(params, "partNumber"@),
                    content_length: request.content_length,
                },
            },
        ),
{
    lemma_session_opens(
        json,
        user,
        key,
        SessionPlanView::Part {
            part_number: query::lookup(params, "partNumber"@),
            content_length: request.content_length,
        },
    );
}

/// The list of parts that ends an upload goes with the session that it names.
pub proof fn law_lists_of_parts_name_their_session(
    service: ServiceView,
    user: CredentialsView,
    key: Text,
    json: Seq<u8>,
    parts: Seq<MultipartClientPartView>,
    now: nat,
)
    requires
        service.credentials == Some(user),
    ensures
        service::next_step(
            service,
            TaskView::CompleteRead { key },
            EventView::Complete { session: multipart::sealed(json, user), parts },
            now,
        ) == StepView::Ask(
            ActionView::ParseSession { json },
            TaskView::Session { key, purpose: SessionPlanView::Complete { parts } },
        ),
{
    lemma_session_opens(json, user, key, SessionPlanView::Complete { parts });
}

// ---------------------------------------------------------------------------
// Storing, copying and moving
// ---------------------------------------------------------------------------

/// In the place of their key, files are stored by `PUT` and appended to by `PATCH`, with the length
/// and the type that the request declares.
pub proof fn law_uploads_are_handled_in_their_place(
    service: ServiceView,
    request: RequestView,
    key: Text,
)
    requires
        keys::normalized(request.path) == Some(key),
        service.has_bucket,
    ensures
        ({
            let method = text::upper_text(request.method);
            let step = service::upload_fetch_step(request, service);
            &&& method == "PUT"@ ==> step == uploads::put_request_step(
                key,
                request.content_length,
                request.content_type,
            )
            &&& method == "PATCH"@ && request.update_range == Some("append"@) ==> step
                == StepView::Ask(
                ActionView::Get { key, range: None },
                TaskView::PatchOpen { key, content_type: request.content_type },
            ) && step == uploads::patch_request_step(key, Some("append"@), request.content_type)
            &&& method == "PATCH"@ && request.update_range != Some("append"@) ==> (step matches
                StepView::Reply(reply) && reply.status == 405)
            &&& method != "PUT"@ && method != "PATCH"@ ==> (step matches StepView::Reply(reply)
                && reply.status == 405)
        }),
{
    lemma_methods();
}

/// The letter that asks for a destination to be kept.
proof fn lemma_overwrite(overwrite: Option<Text>)
    ensures
        transfers::keeps_destination(overwrite) <==> overwrite == Some("F"@) || overwrite == Some(
            "f"@,
        ),
{
    reveal_strlit("F");
    reveal_strlit("f");
    if let Some(value) = overwrite {
        let (a, b) = (text::lower_text(value), text::lower_text("F"@));
        assert(b =~= seq!['f']);
        if a == b {
            assert(value.len() == 1);
            assert(a[0] == text::ascii_lower(value[0]));
            assert(value =~= "F"@ || value =~= "f"@);
        }
        if value == "f"@ {
            assert(a =~= b);
        }
    }
}

/// In the place of its source, what is to be copied or moved is looked for, and its destination is
/// the key that the header names. An existing destination is kept if `Overwrite` says `F`, in either
/// case, and replaced otherwise. Without a destination, or onto the root or the source itself,
/// nothing is copied.
pub proof fn law_transfers_are_handled_in_their_place(
    service: ServiceView,
    request: RequestView,
    source: Text,
)
    requires
        keys::normalized(request.path) == Some(source),
        source.len() > 0,
        service.has_bucket,
        text::upper_text(request.method) == "COPY"@ || text::upper_text(request.method) == "MOVE"@,
    ensures
        ({
            let step = service::copy_fetch_step(request, service);
            match keys::destination_of(request.destination) {
                Some(destination) => if destination.len() > 0 && destination != source {
                    step == StepView::Ask(
                        ActionView::Head { key: source },
                        TaskView::Probe {
                            key: source,
                            stage: ProbeStage::Object,
                            plan: PlanView::TransferSource {
                                destination,
                                keep: request.overwrite == Some("F"@) || request.overwrite == Some(
                                    "f"@,
                                ),
                                move_source: text::upper_text(request.method) == "MOVE"@,
                            },
                        },
                    )
                } else {
                    step matches StepView::Reply(reply) && reply.status == 400
                },
                None => step matches StepView::Reply(reply) && reply.status == 400,
            }
        }),
{
    lemma_methods();
    lemma_overwrite(request.overwrite);
}

/// What decides about a copy or a move, wherever the two places lie: the source has to be there, a
/// directory is not copied into itself, and an existing destination is kept where that was asked for
/// and cleared otherwise, before anything is copied.
pub proof fn law_transfers_are_decided(
    source: Text,
    source_node: NodeView,
    destination: Text,
    destination_node: NodeView,
    keep: bool,
    move_source: bool,
)
    ensures
        ({
            let from = listing::at_node_step(
                source,
                source_node,
                PlanView::TransferSource { destination, keep, move_source },
            );
            let inside = source_node is Dir && keys::prefix_of_directory(source).is_prefix_of(
                destination,
            );
            &&& source_node is Missing ==> (from matches StepView::Reply(reply) && reply.status
                == 404)
            &&& inside ==> (from matches StepView::Reply(reply) && reply.status == 409)
            &&& !(source_node is Missing) && !inside ==> from == StepView::Ask(
                ActionView::Head { key: destination },
                TaskView::Probe {
                    key: destination,
                    stage: ProbeStage::Object,
                    plan: PlanView::TransferTarget {
                        source,
                        source_is_dir: source_node is Dir,
                        keep,
                        move_source,
                    },
                },
            )
        }),
        forall|source_is_dir: bool|
            ({
                let plan = TransferPlanView {
                    source,
                    destination,
                    source_is_dir,
                    move_source,
                    destination_exists: !(destination_node is Missing),
                };
                let to = #[trigger] listing::at_node_step(
                    destination,
                    destination_node,
                    PlanView::TransferTarget { source, source_is_dir, keep, move_source },
                );
                let copying = if source_is_dir {
                    StepView::Ask(
                        ActionView::List {
                            prefix: keys::prefix_of_directory(source),
                            delimited: false,
                            limit: 1000,
                            cursor: None,
                        },
                        TaskView::Scan {
                            prefix: keys::prefix_of_directory(source),
                            limit: None,
                            keys: Seq::empty(),
                            goal: ScanPlanView::Copy(plan),
                        },
                    )
                } else {
                    StepView::Ask(
                        ActionView::Get { key: source, range: None },
                        TaskView::CopyRead { transfer: plan, keys: seq![source], at: 0 },
                    )
                };
                &&& destination_node is Missing ==> to == copying
                &&& !(destination_node is Missing) && keep ==> (to matches StepView::Reply(reply)
                    && reply.status == 412)
                &&& !(destination_node is Missing) && !keep ==> to == StepView::Ask(
                    ActionView::Head { key: destination },
                    TaskView::Probe {
                        key: destination,
                        stage: ProbeStage::Object,
                        plan: PlanView::TransferClear(plan),
                    },
                )
            }),
{
}

/// A request to copy or move what a link leads to arrives where another link leads to: whatever
/// names the two keys are made of, in letters of any case, it is those keys between which everything
/// is copied, with what else the request says.
pub proof fn law_transfer_requests_arrive(
    service: ServiceView,
    body: Seq<u8>,
    scenes: Seq<Scene>,
    answers: Seq<(EventView, nat)>,
    request: RequestView,
    source: Text,
    source_names: Seq<Text>,
    source_slash: bool,
    header: Text,
    destination: Text,
    destination_names: Seq<Text>,
    destination_slash: bool,
)
    requires
        service.has_bucket,
        text::upper_text(request.method) == "COPY"@ || text::upper_text(request.method) == "MOVE"@,
        key_laws::is_made_of(source, source_names),
        request.path == keys::href_of(source, source_slash),
        key_laws::is_made_of(destination, destination_names),
        request.destination == Some(header),
        codec::url_path(header) == Some(keys::href_of(destination, destination_slash))
            || codec::url_path(header) is None && header == keys::href_of(
            destination,
            destination_slash,
        ),
        ({
            let keep = request.overwrite == Some("F"@) || request.overwrite == Some("f"@);
            transfer_laws::is_transferable(scenes[0].world, source, destination, keep)
        }),
        world::is_countable(scenes[0].world, keys::prefix_of_directory(source)),
        world::is_countable(scenes[0].world, keys::prefix_of_directory(destination)),
        world::is_play(service, body, scenes, answers),
        scenes[0].step == service::copy_fetch_step(request, service),
    ensures
        ({
            let keep = request.overwrite == Some("F"@) || request.overwrite == Some("f"@);
            let move_source = text::upper_text(request.method) == "MOVE"@;
            &&& scenes.last().step matches StepView::Reply(reply)
                ==> transfer_laws::transfer_outcome(
                scenes[0].world,
                scenes.last().world,
                source,
                destination,
                keep,
                move_source,
                reply,
            )
            &&& world::nothing_failed(answers) && (keep || transfer_laws::survives_clearing(
                scenes[0].world,
                source,
                destination,
            )) ==> world::ends_in_reply(scenes)
        }),
{
    lemma_methods();
    lemma_overwrite(request.overwrite);
    key_laws::law_any_names_can_be_used(source, source_names, source_slash);
    key_laws::law_destinations_are_named_by_links(
        header,
        destination,
        destination_names,
        destination_slash,
    );
    transfer_laws::law_transfers_arrive(
        service,
        body,
        scenes,
        answers,
        source,
        destination,
        request.overwrite == Some("F"@) || request.overwrite == Some("f"@),
        text::upper_text(request.method) == "MOVE"@,
    );
}

// ---------------------------------------------------------------------------
// What the service answers by itself
// ---------------------------------------------------------------------------

/// The service answers nothing by itself but the health check and, for `GET`, what lies below the
/// path of its own files: every other path names something in the bucket.
pub proof fn law_all_other_paths_name_keys(
    method: Text,
    path: Text,
    rest: Text,
    slashes: Text,
    assets: AssetsView,
)
    requires
        path == slashes + rest,
        forall|i: int| 0 <= i < slashes.len() ==> slashes[i] == '/',
        rest.len() > 0 ==> rest[0] != '/',
        path != "/__dufs__/health"@,
        method != "GET"@ || !"__dufs_wasm_v7__/"@.is_prefix_of(rest),
    ensures
        reply::internal_reply(method, path, assets) is None,
{
    lemma_slashes(slashes, rest);
}

proof fn lemma_slashes(slashes: Text, rest: Text)
    requires
        forall|i: int| 0 <= i < slashes.len() ==> slashes[i] == '/',
        rest.len() > 0 ==> rest[0] != '/',
    ensures
        text::trim_start_of(slashes + rest, '/') == rest,
    decreases slashes.len(),
{
    if slashes.len() == 0 {
        assert(slashes + rest =~= rest);
    } else {
        assert((slashes + rest).drop_first() =~= slashes.drop_first() + rest);
        lemma_slashes(slashes.drop_first(), rest);
    }
}

/// The files of the user interface are served to everybody, each with its type and for good, and
/// so is the health check, whatever the method.
pub proof fn law_the_interface_is_served(method: Text, slashes: Text, name: Text, assets: AssetsView)
    requires
        forall|i: int| 0 <= i < slashes.len() ==> slashes[i] == '/',
    ensures
        ({
            let reply = reply::internal_reply(
                "GET"@,
                slashes + ("__dufs_wasm_v7__/"@ + name),
                assets,
            );
            &&& reply is Some
            &&& name == "index.js"@ ==> is_asset(
                reply->0,
                "application/javascript; charset=UTF-8"@,
                encode_utf8(assets.index_js),
            )
            &&& name == "index.css"@ ==> is_asset(
                reply->0,
                "text/css; charset=UTF-8"@,
                encode_utf8(assets.index_css),
            )
            &&& name == "favicon.ico"@ ==> is_asset(reply->0, "image/x-icon"@, assets.favicon)
            &&& name != "index.js"@ && name != "index.css"@ && name != "favicon.ico"@
                ==> reply->0.status == 404
        }),
        reply::internal_reply(method, "/__dufs__/health"@, assets) matches Some(reply)
            && reply.status == 200 && reply.body == BodyView::Bytes(
            encode_utf8("{\"status\":\"OK\"}"@),
        ),
{
    reveal_strlit("/__dufs__/health");
    reveal_strlit("__dufs_wasm_v7__/");
    reveal_strlit("index.js");
    reveal_strlit("index.css");
    reveal_strlit("favicon.ico");
    let prefix = "__dufs_wasm_v7__/"@;
    let rest = prefix + name;
    let path = slashes + rest;
    lemma_slashes(slashes, rest);
    assert(rest.subrange(0, 17) =~= prefix);
    assert(rest.skip(17) =~= name);
    assert(path != "/__dufs__/health"@) by {
        if slashes.len() == 0 {
            assert(path[0] == '_');
        } else if slashes.len() == 1 {
            assert(path[8] == 'w');
        } else {
            assert(path[1] == '/');
        }
    }
    assert("index.css"@.len() != "index.js"@.len());
    assert("favicon.ico"@.len() != "index.js"@.len());
    assert("favicon.ico"@.len() != "index.css"@.len());
    lemma_asset("application/javascript; charset=UTF-8"@, encode_utf8(assets.index_js));
    lemma_asset("text/css; charset=UTF-8"@, encode_utf8(assets.index_css));
    lemma_asset("image/x-icon"@, assets.favicon);
}

proof fn lemma_asset(content_type: Text, bytes: Seq<u8>)
    ensures
        is_asset(reply::asset_reply(content_type, bytes), content_type, bytes),
{
    assert(reply::asset_reply(content_type, bytes).headers =~= seq![
        ("content-type"@, content_type),
        ("cache-control"@, "public, max-age=31536000, immutable"@),
        ("x-content-type-options"@, "nosniff"@),
    ]);
}

/// The reply is the file, to be kept for a year.
pub open spec fn is_asset(reply: ReplyView, content_type: Text, bytes: Seq<u8>) -> bool {
    &&& reply.status == 200
    &&& reply.body == BodyView::Bytes(bytes)
    &&& reply.headers == seq![
        ("content-type"@, content_type),
        ("cache-control"@, "public, max-age=31536000, immutable"@),
        ("x-content-type-options"@, "nosniff"@),
    ]
}

// ---------------------------------------------------------------------------
// What cannot be answered
// ---------------------------------------------------------------------------

/// A path that names no key is refused, wherever the request has come to.
pub proof fn law_invalid_paths_are_refused(
    service: ServiceView,
    request: RequestView,
    now: nat,
)
    requires
        reply::internal_reply(request.method, request.path, service.assets) is None,
        keys::normalized(request.path) is None,
    ensures
        says(service::request_step(request, service, now), 400, "Invalid Path"@),
        says(service::part_fetch_step(request, service), 400, "Invalid Path"@),
        ({
            let method = text::upper_text(request.method);
            &&& method == "PUT"@ || method == "PATCH"@ ==> says(
                service::upload_fetch_step(request, service),
                400,
                "Invalid Path"@,
            )
            &&& method == "COPY"@ || method == "MOVE"@ ==> says(
                service::copy_fetch_step(request, service),
                400,
                "Invalid Path"@,
            )
        }),
{
    assert(reply::text_reply(400, "Invalid Path"@).headers =~= seq![
        ("content-type"@, "text/plain; charset=utf-8"@),
    ]);
}

/// At the root there is always a directory, whatever is in the bucket.
pub proof fn law_the_root_is_a_directory(plan: PlanView)
    ensures
        listing::node_step(Seq::empty(), plan) == listing::at_node_step(
            Seq::empty(),
            NodeView::Dir,
            plan,
        ),
{
}

/// The service is read-only if its setting says `true`, in letters of any case, and not otherwise.
pub proof fn law_the_setting_makes_it_read_only(setting: Text)
    ensures
        service::means_read_only(Some(setting)) <==> setting.len() == 4 && (setting[0] == 't'
            || setting[0] == 'T') && (setting[1] == 'r' || setting[1] == 'R') && (setting[2] == 'u'
            || setting[2] == 'U') && (setting[3] == 'e' || setting[3] == 'E'),
        !service::means_read_only(None),
{
    reveal_strlit("true");
    let (a, b) = (text::lower_text(setting), text::lower_text("true"@));
    assert(b =~= "true"@);
    if a == b {
        assert(setting.len() == 4);
        assert(a[0] == text::ascii_lower(setting[0]));
        assert(a[1] == text::ascii_lower(setting[1]));
        assert(a[2] == text::ascii_lower(setting[2]));
        assert(a[3] == text::ascii_lower(setting[3]));
    }
    if setting.len() == 4 && (setting[0] == 't' || setting[0] == 'T') && (setting[1] == 'r'
        || setting[1] == 'R') && (setting[2] == 'u' || setting[2] == 'U') && (setting[3] == 'e'
        || setting[3] == 'E') {
        assert(a =~= b);
    }
}

// ---------------------------------------------------------------------------
// What is handed to the bucket
// ---------------------------------------------------------------------------

/// The length that a request declares goes with its body to the bucket, and so does the type; what
/// is no number is no length.
pub proof fn law_lengths_are_handed_on(
    service: ServiceView,
    key: Text,
    length: u64,
    declared: Text,
    content_type: Option<Text>,
    found: Option<ObjectInfoView>,
    now: nat,
)
    requires
        key.len() > 0,
    ensures
        uploads::put_request_step(key, Some(numbers::decimal(length as nat)), content_type)
            == listing::node_step(
            key,
            PlanView::Put { length: Some(length), content_type },
        ),
        uploads::put_request_step(key, None, content_type) == listing::node_step(
            key,
            PlanView::Put { length: None, content_type },
        ),
        numbers::parsed(declared, u64::MAX as nat) is None ==> uploads::put_request_step(
            key,
            Some(declared),
            content_type,
        ) == listing::node_step(key, PlanView::Put { length: None, content_type }),
        service::next_step(
            service,
            TaskView::PutLook { key, length: Some(length), content_type },
            EventView::Object(found),
            now,
        ) == StepView::Ask(
            ActionView::PutBody { key, length: Some(length), content_type },
            TaskView::Work(
                AfterView::Reply {
                    status: if found is Some {
                        204
                    } else {
                        201
                    },
                },
            ),
        ),
{
    numbers::lemma_parse_of_decimal(length as nat, u64::MAX as nat);
}

/// A copy is as long as what is copied.
pub proof fn law_copies_are_as_long(
    service: ServiceView,
    plan: TransferPlanView,
    all: Seq<Text>,
    at: usize,
    object: ObjectInfoView,
    now: nat,
)
    requires
        at < all.len(),
    ensures
        service::next_step(
            service,
            TaskView::CopyRead { transfer: plan, keys: all, at },
            EventView::Object(Some(object)),
            now,
        ) matches StepView::Ask(action, _) && action matches ActionView::PutHeld { size, .. }
            && size == object.size,
{
}

/// No more than a thousand objects are removed at once.
pub proof fn law_batches_are_bounded(all: Seq<Text>, at: usize, after: AfterView)
    requires
        at < all.len() <= usize::MAX,
    ensures
        transfers::delete_step(all, at, after) matches StepView::Ask(action, _) && action matches
            ActionView::DeleteMany { keys } && 0 < keys.len() <= 1000,
{
}

/// A lock is granted at once and locks nothing: its token is made of the time. No property can be
/// changed.
pub proof fn law_locks_are_granted(key: Text, now: nat)
    ensures
        ({
            let lock = reply::lock_reply(key, now);
            let token = "opaquelocktoken:dufs-r2-"@ + numbers::decimal(now);
            &&& lock.status == 200
            &&& access_laws::has_header(lock, "lock-token"@, "<"@ + token + ">"@)
            &&& access_laws::has_header(
                lock,
                "content-type"@,
                "application/xml; charset=utf-8"@,
            )
            &&& lock.body == BodyView::Bytes(
                encode_utf8(
                    "<?xml version=\"1.0\" encoding=\"utf-8\"?>\n<D:prop xmlns:D=\"DAV:\"><D:lockdiscovery><D:activelock>\n<D:locktoken><D:href>"@
                        + token + "</D:href></D:locktoken>\n<D:lockroot><D:href>"@
                        + escape::xml_escaped(keys::href_of(key, false))
                        + "</D:href></D:lockroot>\n</D:activelock></D:lockdiscovery></D:prop>"@,
                ),
            )
        }),
        reply::proppatch_reply(key).status == 207,
        reply::proppatch_reply(key).body == BodyView::Bytes(
            encode_utf8(
                "<?xml version=\"1.0\" encoding=\"utf-8\" ?>\n<D:multistatus xmlns:D=\"DAV:\">"@
                    + ("<D:response><D:href>"@ + escape::xml_escaped(keys::href_of(key, false))
                    + "</D:href><D:propstat><D:prop></D:prop><D:status>HTTP/1.1 403 Forbidden</D:status></D:propstat></D:response>"@)
                    + "</D:multistatus>"@,
            ),
        ),
{
    let lock = reply::lock_reply(key, now);
    let token = "opaquelocktoken:dufs-r2-"@ + numbers::decimal(now);
    assert(lock.headers[0] == ("content-type"@, "application/xml; charset=utf-8"@));
    assert(lock.headers[1] == ("lock-token"@, "<"@ + token + ">"@));
}

// ---------------------------------------------------------------------------
// What fails or is refused before anything is asked for
// ---------------------------------------------------------------------------

/// Without a bucket nothing in it can be asked for, neither by the user nor by a visitor, and without
/// a query that can be read nothing at all: both are failures.
pub proof fn law_nothing_is_done_without_a_bucket(
    service: ServiceView,
    request: RequestView,
    key: Text,
    now: nat,
)
    requires
        reply::internal_reply(request.method, request.path, service.assets) is None,
        keys::normalized(request.path) == Some(key),
    ensures
        codec::url_query_pairs(request.url) is None ==> service::request_step(
            request,
            service,
            now,
        ) is Fail && service::part_fetch_step(request, service) is Fail,
        codec::url_query_pairs(request.url) is Some && !service.has_bucket && (key == "share"@
            || "share/"@.is_prefix_of(key)) && request.authorization is None
            ==> service::request_step(request, service, now) is Fail,
        ({
            let method = text::upper_text(request.method);
            &&& !service.has_bucket && (method == "PUT"@ || method == "PATCH"@)
                ==> service::upload_fetch_step(request, service) is Fail
            &&& !service.has_bucket && (method == "COPY"@ || method == "MOVE"@)
                ==> service::copy_fetch_step(request, service) is Fail
        }),
{
    key_laws::law_the_share_is_what_lies_below_it(key);
}

/// The user of a service without a bucket can sign in and out, and get a token; all else fails.
pub proof fn law_users_need_a_bucket(
    service: ServiceView,
    request: RequestView,
    key: Text,
    params: Seq<(Text, Text)>,
    user: CredentialsView,
    now: nat,
)
    requires
        access_laws::is_routed(request, service, key, params),
        service.credentials == Some(user),
        !service.has_bucket,
        !user.username.contains(':'),
        carries_credentials(request, user),
        query::lookup(params, "tokengen"@) is None,
        ({
            let method = text::upper_text(request.method);
            &&& method != "CHECKAUTH"@ && method != "LOGOUT"@
            &&& method == "POST"@ ==> signs_nobody_in_or_out(params)
        }),
    ensures
        service::request_step(request, service, now) is Fail,
{
    reveal_strlit(":");
    assert(user.username + ":"@ + user.password =~= user.username.push(':') + user.password);
    access_laws::law_the_user_is_let_in(service, request, key, params, user, now);
}

/// A visitor of the share who wants anything but to read is told what can be done there.
pub proof fn law_visitors_are_told_what_they_can_do(
    service: ServiceView,
    request: RequestView,
    key: Text,
    params: Seq<(Text, Text)>,
    now: nat,
)
    requires
        access_laws::is_routed(request, service, key, params),
        key == "share"@ || "share/"@.is_prefix_of(key),
        request.authorization is None,
        service.has_bucket,
        text::upper_text(request.method) != "GET"@,
        text::upper_text(request.method) != "HEAD"@,
    ensures
        service::request_step(request, service, now) matches StepView::Reply(reply) && reply.status
            == 405 && access_laws::has_header(reply, "allow"@, "GET, HEAD"@),
{
    key_laws::law_the_share_is_what_lies_below_it(key);
    assert(reply::share_method_reply().headers[0] == ("allow"@, "GET, HEAD"@));
}

/// What has come to the wrong place is refused there: each place handles only its own methods, and
/// the root is neither copied nor moved.
pub proof fn law_places_handle_their_own(
    service: ServiceView,
    request: RequestView,
    key: Text,
    params: Seq<(Text, Text)>,
)
    requires
        keys::normalized(request.path) == Some(key),
        codec::url_query_pairs(request.url) == Some(params),
    ensures
        ({
            let method = text::upper_text(request.method);
            let copy = service::copy_fetch_step(request, service);
            let part = service::part_fetch_step(request, service);
            &&& method != "COPY"@ && method != "MOVE"@ ==> (copy matches StepView::Reply(reply)
                && reply.status == 405)
            &&& (method == "COPY"@ || method == "MOVE"@) && service.has_bucket && key.len() == 0
                ==> (copy matches StepView::Reply(reply) && reply.status == 403)
            &&& request.method != "PUT"@ || query::lookup(params, "__dufs_multipart"@) != Some(
                "part"@,
            ) ==> (part matches StepView::Reply(reply) && reply.status == 405)
            &&& request.method == "PUT"@ && query::lookup(params, "__dufs_multipart"@) == Some(
                "part"@,
            ) && service.has_bucket && query::lookup(params, "session"@) is None ==> (part matches
                StepView::Reply(reply) && reply.status == 403)
        }),
{
}

// ---------------------------------------------------------------------------
// What vanishes in the meantime
// ---------------------------------------------------------------------------

/// A search goes on without an object that has gone in the meantime; a copy cannot.
pub proof fn law_vanished_objects_are_left_out(
    service: ServiceView,
    key: Text,
    prefix: Text,
    matching: Seq<Text>,
    at: usize,
    found: Seq<PathItemView>,
    read: ReadPlanView,
    plan: TransferPlanView,
    now: nat,
)
    requires
        at < matching.len() <= usize::MAX,
    ensures
        ({
            let next = service::next_step(
                service,
                TaskView::Search { key, prefix, keys: matching, at, found, read },
                EventView::Object(None),
                now,
            );
            if at + 1 < matching.len() && found.len() < 1000 {
                next == StepView::Ask(
                    ActionView::Head { key: matching[at + 1] },
                    TaskView::Search {
                        key,
                        prefix,
                        keys: matching,
                        at: (at + 1) as usize,
                        found,
                        read,
                    },
                )
            } else {
                next == files::index_step(key, found, read)
            }
        }),
        service::next_step(
            service,
            TaskView::CopyRead { transfer: plan, keys: matching, at },
            EventView::Object(None),
            now,
        ) is Fail,
{
}

} // verus!
