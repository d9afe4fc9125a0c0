//! What uploads in parts leave in the bucket.

use crate::auth::CredentialsView;
use crate::listing;
use crate::machine::{
    ActionView, AfterView, DocumentView, EventView, MultipartClientPartView, Namespace, PlanView,
    ServiceView, SessionPlanView, StepView, TaskView,
};
use crate::model::NodeView;
use crate::multipart::{self, MultipartSessionView, MULTIPART_PART_SIZE};
use crate::numbers;
use crate::reply::{self, BodyView, ReplyView};
use crate::service;
use crate::text::Text;
use crate::uploads;
use crate::world::{self, OpenUpload, Scene, StoredPart};
use vstd::prelude::*;

verus! {

// ---------------------------------------------------------------------------
// Beginning
// ---------------------------------------------------------------------------

/// An upload of a sensible size is begun: it is open under a name of its own, for the key and with
/// the type that were declared, and has no parts yet. The session that the client gets bears its
/// name.
pub proof fn law_begun_uploads_are_open(
    service: ServiceView,
    body: Seq<u8>,
    scenes: Seq<Scene>,
    answers: Seq<(EventView, nat)>,
    key: Text,
    size: u64,
    content_type: Option<Text>,
)
    requires
        world::is_play(service, body, scenes, answers),
        scenes[0].step == uploads::start_read_step(key, EventView::Start { size, content_type }),
        0 < size,
        multipart::part_count(size as nat) <= multipart::MAX_MULTIPART_PARTS,
        answers.len() >= 1,
        !(answers[0].0 is Failed),
    ensures
        answers[0].0 matches EventView::Upload(upload_id) && {
            &&& !scenes[0].uploads.contains_key(upload_id)
            &&& scenes[1].uploads == scenes[0].uploads.insert(
                upload_id,
                OpenUpload { key, metadata: world::typed(content_type), parts: Map::empty() },
            )
            &&& scenes[1].world == scenes[0].world
            &&& scenes[1].step matches StepView::Ask(action, _)
            &&& action matches ActionView::Encode { document, .. }
            &&& document matches DocumentView::Session(session)
            &&& session.key == key
            &&& session.upload_id == upload_id
            &&& session.size == size
        },
{
    assert(world::follows(service, body, scenes[0], answers[0], scenes[1]));
}

/// An upload is begun for every file that has a byte and no more than ten thousand parts, whatever
/// its key and type: the bucket is asked for an upload of them. An empty file and one that is too
/// large are refused.
pub proof fn law_uploads_of_any_size_are_begun(key: Text, size: u64, content_type: Option<Text>)
    ensures
        ({
            let step = uploads::start_read_step(key, EventView::Start { size, content_type });
            &&& 0 < size <= 10_000 * 16_777_216 ==> step == StepView::Ask(
                ActionView::CreateUpload { key, content_type },
                TaskView::StartCreate { key, size },
            )
            &&& size == 0 ==> (step matches StepView::Reply(reply) && reply.status == 400)
            &&& size > 10_000 * 16_777_216 ==> (step matches StepView::Reply(reply) && reply.status
                == 413)
        }),
{
    multipart::law_parts_are_counted(size as nat, 10_001);
}

/// An upload is not begun where a directory stands; everywhere else the client is asked what it
/// will be.
pub proof fn law_uploads_replace_no_directory(key: Text, node: NodeView)
    ensures
        node is Dir ==> (listing::at_node_step(key, node, PlanView::Start) matches StepView::Reply(
            reply,
        ) && reply.status == 405),
        !(node is Dir) ==> listing::at_node_step(key, node, PlanView::Start) == StepView::Ask(
            ActionView::ReadStart,
            TaskView::StartRead { key },
        ),
{
}

/// The client gets the session of its upload, good for a day, and is told that parts have 16 MiB.
pub proof fn law_clients_get_their_session(
    service: ServiceView,
    user: CredentialsView,
    key: Text,
    size: u64,
    upload_id: Text,
    json: Seq<u8>,
    now: nat,
)
    requires
        service.credentials == Some(user),
    ensures
        service::next_step(
            service,
            TaskView::StartCreate { key, size },
            EventView::Upload(upload_id),
            now,
        ) == StepView::Ask(
            ActionView::Encode {
                document: DocumentView::Session(
                    MultipartSessionView {
                        key,
                        upload_id,
                        size: size as nat,
                        expires_at: now + 86_400_000,
                    },
                ),
                pretty: false,
            },
            TaskView::StartSession,
        ),
        service::next_step(service, TaskView::StartSession, EventView::Bytes(json), now)
            == StepView::Ask(
            ActionView::Encode {
                document: DocumentView::Started {
                    session: multipart::sealed(json, user),
                    part_size: 16_777_216,
                },
                pretty: false,
            },
            TaskView::Json { status: 201 },
        ),
{
}

// ---------------------------------------------------------------------------
// Parts
// ---------------------------------------------------------------------------

/// The upload with one more part.
pub open spec fn with_part(upload: OpenUpload, number: u16, part: StoredPart) -> OpenUpload {
    OpenUpload { parts: upload.parts.insert(number, part), ..upload }
}

/// The body was kept as a part of the upload: under the number that was asked for, which the upload
/// has, and with the length of that part. Everything else is as it was.
pub open spec fn is_kept_as_part(
    before: Scene,
    after: Scene,
    key: Text,
    session: MultipartSessionView,
    part_number: Option<Text>,
    body: Seq<u8>,
) -> bool {
    let upload = before.uploads[session.upload_id];
    &&& uploads::numbered(part_number) matches Some(number)
    &&& multipart::part_length(session.size, number) == Some(body.len())
    &&& before.uploads.contains_key(session.upload_id)
    &&& upload.key == key
    &&& after.world == before.world
    &&& exists|etag: Text|
        after.uploads == before.uploads.insert(
            session.upload_id,
            #[trigger] with_part(upload, number as u16, StoredPart { bytes: body, etag }),
        )
}

spec fn keeping_part(
    first: Scene,
    scene: Scene,
    key: Text,
    session: MultipartSessionView,
    part_number: Option<Text>,
    content_length: Option<Text>,
    body: Seq<u8>,
) -> bool {
    let untouched = scene.world == first.world && scene.uploads == first.uploads;
    match scene.step {
        StepView::Ask(action, task) => match task {
            TaskView::PartStored => untouched && scene.step == uploads::part_step(
                key,
                session,
                part_number,
                content_length,
            ),
            TaskView::Json { status } => status == 200 && action is Encode && is_kept_as_part(
                first,
                scene,
                key,
                session,
                part_number,
                body,
            ),
            _ => false,
        },
        StepView::Reply(reply) => {
            ||| reply.status == 400 && untouched
            ||| reply.status == 200 && is_kept_as_part(
                first,
                scene,
                key,
                session,
                part_number,
                body,
            )
        },
        StepView::Fail => true,
        StepView::Forward { .. } => false,
    }
}

proof fn lemma_keeping_part(
    service: ServiceView,
    body: Seq<u8>,
    first: Scene,
    before: Scene,
    answer: (EventView, nat),
    after: Scene,
    key: Text,
    session: MultipartSessionView,
    part_number: Option<Text>,
    content_length: Option<Text>,
)
    requires
        session.size <= u64::MAX,
        keeping_part(first, before, key, session, part_number, content_length, body),
        world::follows(service, body, before, answer, after),
    ensures
        keeping_part(first, after, key, session, part_number, content_length, body),
        after.step is Fail ==> answer.0 is Failed,
{
    match before.step {
        StepView::Ask(
            ActionView::UploadPart { part_number: number, .. },
            TaskView::PartStored,
        ) => {
            match answer.0 {
                EventView::Part { etag, .. } => {
                    let upload = first.uploads[session.upload_id];
                    let part = StoredPart { bytes: body, etag };
                    assert(after.uploads == first.uploads.insert(
                        session.upload_id,
                        with_part(upload, number, part),
                    ));
                    assert(is_kept_as_part(first, after, key, session, part_number, body));
                },
                _ => {},
            }
        },
        _ => {},
    }
}

proof fn lemma_keeping_all(
    service: ServiceView,
    body: Seq<u8>,
    scenes: Seq<Scene>,
    answers: Seq<(EventView, nat)>,
    key: Text,
    session: MultipartSessionView,
    part_number: Option<Text>,
    content_length: Option<Text>,
    n: nat,
)
    requires
        session.size <= u64::MAX,
        world::is_play(service, body, scenes, answers),
        scenes[0].step == uploads::part_step(key, session, part_number, content_length),
        n <= answers.len(),
    ensures
        keeping_part(
            scenes[0],
            scenes[n as int],
            key,
            session,
            part_number,
            content_length,
            body,
        ),
        scenes[n as int].step is Fail ==> n > 0 && answers[n - 1].0 is Failed,
    decreases n,
{
    if n > 0 {
        lemma_keeping_all(
            service,
            body,
            scenes,
            answers,
            key,
            session,
            part_number,
            content_length,
            (n - 1) as nat,
        );
        assert(world::follows(service, body, scenes[n - 1], answers[n - 1], scenes[n as int]));
        lemma_keeping_part(
            service,
            body,
            scenes[0],
            scenes[n - 1],
            answers[n - 1],
            scenes[n as int],
            key,
            session,
            part_number,
            content_length,
        );
    }
}

/// Storing a part, once its session is known and however the conversation goes on: the reply says
/// that the body was kept as that part of the upload, or that it does not fit and nothing has
/// changed. Unless something fails, it ends in a reply.
pub proof fn law_parts_are_kept(
    service: ServiceView,
    body: Seq<u8>,
    scenes: Seq<Scene>,
    answers: Seq<(EventView, nat)>,
    key: Text,
    session: MultipartSessionView,
    part_number: Option<Text>,
    content_length: Option<Text>,
)
    requires
        session.size <= u64::MAX,
        world::is_play(service, body, scenes, answers),
        scenes[0].step == uploads::part_step(key, session, part_number, content_length),
    ensures
        scenes.last().step matches StepView::Reply(reply) ==> {
            ||| reply.status == 400 && scenes.last().world == scenes[0].world
                && scenes.last().uploads == scenes[0].uploads
            ||| reply.status == 200 && is_kept_as_part(
                scenes[0],
                scenes.last(),
                key,
                session,
                part_number,
                body,
            )
        },
        world::nothing_failed(answers) ==> world::ends_in_reply(scenes),
{
    lemma_keeping_all(
        service,
        body,
        scenes,
        answers,
        key,
        session,
        part_number,
        content_length,
        answers.len(),
    );
}

/// How many bytes part `number` of a file of `size` bytes has to hold: 16 MiB, or what is left.
pub open spec fn bytes_in_part(size: nat, number: nat) -> int {
    if number * 16_777_216 <= size {
        16_777_216
    } else {
        size - (number - 1) * 16_777_216
    }
}

/// Every part of the file can be stored: with a good session, a part whose number is one of those
/// that the file has, and whose length is the one of this part if it is declared, is handed to the
/// bucket under its number and with its length.
pub proof fn law_parts_that_fit_are_stored(
    key: Text,
    session: MultipartSessionView,
    number: nat,
    content_length: Option<Text>,
    now: nat,
)
    requires
        session.key == key,
        now <= session.expires_at,
        0 < session.size <= 10_000 * 16_777_216,
        0 < number && (number - 1) * 16_777_216 < session.size,
        content_length matches Some(value) ==> value == numbers::decimal(
            bytes_in_part(session.size, number) as nat,
        ) || numbers::parsed(value, u64::MAX as nat) is None,
    ensures
        uploads::session_known_step(
            key,
            SessionPlanView::Part { part_number: Some(numbers::decimal(number)), content_length },
            EventView::Session(Some(session)),
            now,
        ) == StepView::Ask(
            ActionView::UploadPart {
                key,
                upload_id: session.upload_id,
                part_number: number as u16,
                size: bytes_in_part(session.size, number) as u64,
            },
            TaskView::PartStored,
        ),
        number <= u16::MAX,
{
    multipart::law_sessions_are_good_until_they_expire(session, now);
    multipart::law_parts_have_their_length(session.size, number);
    let length = bytes_in_part(session.size, number) as nat;
    assert(number <= 10_000);
    assert(length <= 16_777_216);
    numbers::lemma_parse_of_decimal(number, u16::MAX as nat);
    numbers::lemma_parse_of_decimal(length, u64::MAX as nat);
}

/// A part that does not fit is refused and nothing is stored: its number is not one of those that
/// the file has, or none at all, or the declared length is not the one of this part.
pub proof fn law_parts_that_do_not_fit_are_refused(
    key: Text,
    session: MultipartSessionView,
    number: nat,
    length: nat,
    content_length: Option<Text>,
    part_number: Option<Text>,
)
    requires
        length <= u64::MAX,
    ensures
        number == 0 || (number - 1) * 16_777_216 >= session.size ==> (uploads::part_step(
            key,
            session,
            Some(numbers::decimal(number)),
            content_length,
        ) matches StepView::Reply(reply) && reply.status == 400),
        length != bytes_in_part(session.size, number) ==> (uploads::part_step(
            key,
            session,
            Some(numbers::decimal(number)),
            Some(numbers::decimal(length)),
        ) matches StepView::Reply(reply) && reply.status == 400),
        (part_number matches Some(value) ==> numbers::parsed(value, u16::MAX as nat) is None) ==> (
        uploads::part_step(key, session, part_number, content_length) matches StepView::Reply(reply)
            && reply.status == 400),
{
    multipart::law_parts_have_their_length(session.size, number);
    numbers::law_numbers_are_read_back(number, u16::MAX as nat, Seq::empty());
    numbers::lemma_parse_of_decimal(length, u64::MAX as nat);
}

/// A session is refused once it has expired, and for every key but its own, whatever it is to be
/// used for; so is one that cannot be read.
pub proof fn law_other_sessions_are_refused(
    key: Text,
    session: MultipartSessionView,
    plan: SessionPlanView,
    now: nat,
)
    ensures
        session.key != key || now > session.expires_at ==> (uploads::session_known_step(
            key,
            plan,
            EventView::Session(Some(session)),
            now,
        ) matches StepView::Reply(reply) && reply.status == 403),
        uploads::session_known_step(key, plan, EventView::Session(None), now) matches
            StepView::Reply(reply) && reply.status == 403,
{
}

/// With a good session a part goes to the place of its upload, and an upload is given up.
pub proof fn law_good_sessions_are_used(key: Text, session: MultipartSessionView, now: nat)
    requires
        session.key == key,
        now <= session.expires_at,
        0 < session.size <= 10_000 * 16_777_216,
    ensures
        uploads::session_known_step(
            key,
            SessionPlanView::Forward,
            EventView::Session(Some(session)),
            now,
        ) == (StepView::Forward {
            namespace: Namespace::MultipartUploadPart,
            name: session.upload_id,
        }),
        uploads::session_known_step(
            key,
            SessionPlanView::Abort,
            EventView::Session(Some(session)),
            now,
        ) == StepView::Ask(
            ActionView::AbortUpload { key, upload_id: session.upload_id },
            TaskView::Work(AfterView::Reply { status: 204 }),
        ),
{
    multipart::law_sessions_are_good_until_they_expire(session, now);
}

/// The client is told the number and the tag of a part that was stored.
pub proof fn law_stored_parts_are_reported(
    service: ServiceView,
    part_number: u16,
    etag: Text,
    json: Seq<u8>,
    now: nat,
)
    ensures
        service::next_step(
            service,
            TaskView::PartStored,
            EventView::Part { part_number, etag },
            now,
        ) == StepView::Ask(
            ActionView::Encode { document: DocumentView::Part { part_number, etag }, pretty: false },
            TaskView::Json { status: 200 },
        ),
        forall|status: u16|
            (#[trigger] service::next_step(
                service,
                TaskView::Json { status },
                EventView::Bytes(json),
                now,
            )) matches StepView::Reply(reply) && reply.status == status && reply.body
                == BodyView::Bytes(json) && reply.headers == seq![
                ("content-type"@, "application/json; charset=utf-8"@),
            ],
{
    assert forall|status: u16|
        (#[trigger] service::next_step(
            service,
            TaskView::Json { status },
            EventView::Bytes(json),
            now,
        )) matches StepView::Reply(reply) && reply.status == status && reply.body
            == BodyView::Bytes(json) && reply.headers == seq![
            ("content-type"@, "application/json; charset=utf-8"@),
        ] by {
        assert(reply::json_reply(status, json).headers =~= seq![
            ("content-type"@, "application/json; charset=utf-8"@),
        ]);
    }
}

// ---------------------------------------------------------------------------
// Completing and giving up
// ---------------------------------------------------------------------------

/// One object was made of the parts of the upload, in the order of the list and with the metadata
/// of the upload, and the upload is closed.
pub open spec fn is_completed(
    before: Scene,
    after: Scene,
    key: Text,
    session: MultipartSessionView,
    parts: Seq<MultipartClientPartView>,
) -> bool {
    let upload = before.uploads[session.upload_id];
    &&& parts.len() == multipart::part_count(session.size)
    &&& uploads::is_complete_list(parts)
    &&& before.uploads.contains_key(session.upload_id)
    &&& upload.key == key
    &&& world::names_parts(upload, parts)
    &&& world::is_stored(
        before.world,
        after.world,
        key,
        world::joined(upload, parts),
        upload.metadata,
    )
    &&& after.uploads == before.uploads.remove(session.upload_id)
}

/// Completing an upload, once its session is known: the reply says that its parts have become one
/// object, or that the list is not one of all its parts and nothing has changed. Unless something
/// fails, it ends in a reply.
pub proof fn law_parts_become_one_object(
    service: ServiceView,
    body: Seq<u8>,
    scenes: Seq<Scene>,
    answers: Seq<(EventView, nat)>,
    key: Text,
    session: MultipartSessionView,
    parts: Seq<MultipartClientPartView>,
)
    requires
        world::is_play(service, body, scenes, answers),
        scenes[0].step == uploads::complete_step(key, session, parts),
    ensures
        scenes.last().step matches StepView::Reply(reply) ==> {
            ||| reply.status == 400 && scenes.last().world == scenes[0].world
                && scenes.last().uploads == scenes[0].uploads
            ||| reply.status == 201 && is_completed(
                scenes[0],
                scenes.last(),
                key,
                session,
                parts,
            )
        },
        world::nothing_failed(answers) ==> world::ends_in_reply(scenes),
{
    if answers.len() > 0 {
        assert(world::follows(service, body, scenes[0], answers[0], scenes[1]));
        assert(!(answers[0].0 is Failed) ==> scenes[1].step is Reply);
        if answers.len() > 1 {
            assert(world::follows(service, body, scenes[1], answers[1], scenes[2]));
        }
    }
}

/// An upload is completed with any list of all its parts: their numbers count from one to the last
/// part of the file, and each has a tag. Every other list is refused.
pub proof fn law_complete_lists_are_accepted(
    key: Text,
    session: MultipartSessionView,
    parts: Seq<MultipartClientPartView>,
    now: nat,
)
    requires
        session.key == key,
        now <= session.expires_at,
        0 < session.size <= 10_000 * 16_777_216,
    ensures
        ({
            let step = uploads::session_known_step(
                key,
                SessionPlanView::Complete { parts },
                EventView::Session(Some(session)),
                now,
            );
            let all_parts = (parts.len() - 1) * 16_777_216 < session.size <= parts.len()
                * 16_777_216;
            let in_order = forall|i: int|
                0 <= i < parts.len() ==> (#[trigger] parts[i]).part_number == i + 1
                    && parts[i].etag.len() > 0;
            if all_parts && in_order {
                step == StepView::Ask(
                    ActionView::CompleteUpload { key, upload_id: session.upload_id, parts },
                    TaskView::Work(AfterView::Reply { status: 201 }),
                )
            } else {
                step matches StepView::Reply(reply) && reply.status == 400
            }
        }),
{
    multipart::law_sessions_are_good_until_they_expire(session, now);
    multipart::law_parts_are_counted(session.size, parts.len());
    multipart::law_parts_are_counted(session.size, parts.len() + 1);
}

/// Giving an upload up, once its session is known: the reply says that it is closed, and the bucket
/// is as it was. Unless something fails, it ends in a reply.
pub proof fn law_given_up_uploads_leave_nothing(
    service: ServiceView,
    body: Seq<u8>,
    scenes: Seq<Scene>,
    answers: Seq<(EventView, nat)>,
    key: Text,
    upload_id: Text,
)
    requires
        world::is_play(service, body, scenes, answers),
        scenes[0].step == StepView::Ask(
            ActionView::AbortUpload { key, upload_id },
            TaskView::Work(AfterView::Reply { status: 204 }),
        ),
    ensures
        scenes.last().step matches StepView::Reply(reply) ==> {
            &&& reply == ReplyView::new(204)
            &&& scenes.last().world == scenes[0].world
            &&& scenes.last().uploads == scenes[0].uploads.remove(upload_id)
        },
        world::nothing_failed(answers) ==> world::ends_in_reply(scenes),
{
    if answers.len() > 0 {
        assert(world::follows(service, body, scenes[0], answers[0], scenes[1]));
        assert(!(answers[0].0 is Failed) ==> scenes[1].step is Reply);
        if answers.len() > 1 {
            assert(world::follows(service, body, scenes[1], answers[1], scenes[2]));
        }
    }
}

/// Every part of a file of this size has come, each with the length of that part.
pub open spec fn has_all_parts(upload: OpenUpload, size: nat) -> bool {
    forall|number: nat|
        1 <= number <= multipart::part_count(size) ==> {
            &&& upload.parts.contains_key(number as u16)
            &&& Some(upload.parts[number as u16].bytes.len())
                == #[trigger] multipart::part_length(size, number)
        }
}

proof fn lemma_joined(
    upload: OpenUpload,
    size: nat,
    parts: Seq<MultipartClientPartView>,
    n: nat,
)
    requires
        has_all_parts(upload, size),
        uploads::is_complete_list(parts),
        parts.len() == multipart::part_count(size),
        parts.len() <= multipart::MAX_MULTIPART_PARTS,
        n <= parts.len(),
    ensures
        world::joined(upload, parts.take(n as int)).len() == multipart::length_of_parts(size, n),
    decreases n,
{
    if n > 0 {
        lemma_joined(upload, size, parts, (n - 1) as nat);
        assert(parts.take(n as int).drop_last() =~= parts.take(n - 1));
        assert(parts[n - 1].part_number == n);
        assert(multipart::part_length(size, n) is Some);
    }
}

/// What the first parts make up stands at the start of what all of them make up.
proof fn lemma_joined_grows(upload: OpenUpload, parts: Seq<MultipartClientPartView>, n: int)
    requires
        0 <= n <= parts.len(),
    ensures
        world::joined(upload, parts.take(n)).is_prefix_of(world::joined(upload, parts)),
    decreases parts.len() - n,
{
    let whole = world::joined(upload, parts);
    let here = world::joined(upload, parts.take(n));
    if n == parts.len() {
        assert(parts.take(n) =~= parts);
        assert(whole.subrange(0, whole.len() as int) =~= whole);
    } else {
        lemma_joined_grows(upload, parts, n + 1);
        assert(parts.take(n + 1).drop_last() =~= parts.take(n));
        let next = world::joined(upload, parts.take(n + 1));
        assert(next.subrange(0, here.len() as int) =~= here);
        assert(whole.subrange(0, next.len() as int) =~= next);
        assert(whole.subrange(0, here.len() as int) =~= here) by {
            assert forall|i: int| 0 <= i < here.len() implies whole[i] == here[i] by {
                assert(whole.subrange(0, next.len() as int)[i] == next[i]);
                assert(next.subrange(0, here.len() as int)[i] == here[i]);
            }
        }
    }
}

/// The object that an upload makes is the file: it has the declared size, and each part stands in
/// it where that part of the file begins.
pub proof fn law_completed_uploads_are_the_file(
    upload: OpenUpload,
    size: nat,
    parts: Seq<MultipartClientPartView>,
    number: nat,
)
    requires
        has_all_parts(upload, size),
        uploads::is_complete_list(parts),
        parts.len() == multipart::part_count(size),
        parts.len() <= multipart::MAX_MULTIPART_PARTS,
        1 <= number <= multipart::part_count(size),
    ensures
        world::joined(upload, parts).len() == size,
        ({
            let bytes = upload.parts[number as u16].bytes;
            let start = (number - 1) * MULTIPART_PART_SIZE;
            &&& start + bytes.len() <= size
            &&& world::joined(upload, parts).subrange(start, start + bytes.len()) == bytes
        }),
{
    let n = number as int;
    let whole = world::joined(upload, parts);
    let bytes = upload.parts[number as u16].bytes;
    multipart::law_parts_make_up_the_file(size);
    lemma_joined(upload, size, parts, parts.len());
    assert(parts.take(parts.len() as int) =~= parts);
    lemma_joined(upload, size, parts, (number - 1) as nat);
    lemma_joined_grows(upload, parts, n);
    assert(parts.take(n).drop_last() =~= parts.take(n - 1));
    assert(parts[n - 1].part_number == number);
    let before = world::joined(upload, parts.take(n - 1));
    let here = world::joined(upload, parts.take(n));
    assert(here == before + bytes);
    assert(multipart::length_of_parts(size, (number - 1) as nat) == (number - 1)
        * MULTIPART_PART_SIZE);
    assert(whole.subrange(0, here.len() as int) =~= here);
    let start = before.len() as int;
    assert(whole.subrange(start, start + bytes.len()) =~= bytes) by {
        assert forall|i: int| 0 <= i < bytes.len() implies whole[start + i] == bytes[i] by {
            assert(whole.subrange(0, here.len() as int)[start + i] == here[start + i]);
        }
    }
}

} // verus!
