//! What conversations leave in the bucket, and what they show of it.

use crate::files;
use crate::keys;
use crate::listing;
use crate::machine::{
    ActionView, AfterView, ConditionsView, EventView, PlanView, ProbeStage, ServiceView, StepView,
    TaskView,
};
use crate::query;
use crate::range;
use crate::reply::ReplyView;
use crate::service;
use crate::text::Text;
use crate::transfers;
use crate::uploads;
use crate::world::{self, Scene, Stored, World};
use vstd::prelude::*;
use vstd::seq_lib::*;

verus! {

// ---------------------------------------------------------------------------
// Looking for what stands at a key
// ---------------------------------------------------------------------------

/// The scene is one of the search for what stands at `key`, in the bucket `w`.
pub open spec fn probing(
    scene: Scene,
    w: World,
    key: Text,
    stage: ProbeStage,
    plan: PlanView,
) -> bool {
    &&& key.len() > 0
    &&& scene.world == w
    &&& scene.step matches StepView::Ask(action, task)
    &&& task == TaskView::Probe { key, stage, plan }
    &&& match stage {
        ProbeStage::Object => action == ActionView::Head { key },
        ProbeStage::Marker => action == ActionView::Head { key: keys::marker_of_directory(key) }
            && !w.contains_key(key),
        ProbeStage::Contents => action == ActionView::List {
            prefix: keys::prefix_of_directory(key),
            delimited: false,
            limit: 1,
            cursor: None,
        } && !w.contains_key(key),
    }
}

proof fn lemma_marker_lies_below(key: Text)
    requires
        key.len() > 0,
    ensures
        keys::prefix_of_directory(key).is_prefix_of(keys::marker_of_directory(key)),
{
    let p = keys::prefix_of_directory(key);
    assert(keys::marker_of_directory(key).subrange(0, p.len() as int) =~= p);
}

/// The search goes on, or it has found what stands at the key.
pub proof fn lemma_probe(
    service: ServiceView,
    body: Seq<u8>,
    before: Scene,
    answer: (EventView, nat),
    after: Scene,
    w: World,
    key: Text,
    stage: ProbeStage,
    plan: PlanView,
)
    requires
        probing(before, w, key, stage, plan),
        world::follows(service, body, before, answer, after),
    ensures
        ({
            ||| answer.0 is Failed && after.step is Fail
            ||| stage is Object && probing(after, w, key, ProbeStage::Marker, plan)
            ||| stage is Marker && probing(after, w, key, ProbeStage::Contents, plan)
            ||| after.world == w && after.step == listing::at_node_step(
                key,
                world::node_at(w, key),
                plan,
            )
        }),
        !(answer.0 is Failed) && stage is Contents ==> after.world == w && after.step
            == listing::at_node_step(key, world::node_at(w, key), plan),
{
    lemma_marker_lies_below(key);
    let prefix = keys::prefix_of_directory(key);
    let marker = keys::marker_of_directory(key);
    if w.contains_key(marker) {
        assert(world::has_below(w, prefix));
    }
    match answer.0 {
        EventView::Page(page) => {
            if stage is Contents {
                if page.objects.len() > 0 {
                    assert(w.contains_key(page.objects[0].key));
                    assert(world::has_below(w, prefix));
                } else {
                    let all = Seq::<Text>::empty() + listing::object_keys(page.objects);
                    assert(all.len() == 0);
                    assert(!world::has_below(w, prefix));
                }
            }
        },
        _ => {},
    }
}

/// Whatever is planned: after at most three questions, if none fails, it is done about what really
/// stands at the key.
pub proof fn law_what_stands_at_a_key_is_found(
    service: ServiceView,
    body: Seq<u8>,
    scenes: Seq<Scene>,
    answers: Seq<(EventView, nat)>,
    key: Text,
    plan: PlanView,
)
    requires
        key.len() > 0,
        world::is_play(service, body, scenes, answers),
        scenes[0].step == listing::node_step(key, plan),
        answers.len() >= 3,
        forall|i: int| 0 <= i < 3 ==> !((#[trigger] answers[i]).0 is Failed),
    ensures
        exists|n: int|
            1 <= n <= 3 && (#[trigger] scenes[n]).world == scenes[0].world && scenes[n].step
                == listing::at_node_step(key, world::node_at(scenes[0].world, key), plan),
{
    let w = scenes[0].world;
    assert(!(answers[0].0 is Failed));
    assert(!(answers[1].0 is Failed));
    assert(!(answers[2].0 is Failed));
    assert(probing(scenes[0], w, key, ProbeStage::Object, plan));
    assert(world::follows(service, body, scenes[0], answers[0], scenes[1]));
    lemma_probe(
        service,
        body,
        scenes[0],
        answers[0],
        scenes[1],
        w,
        key,
        ProbeStage::Object,
        plan,
    );
    if probing(scenes[1], w, key, ProbeStage::Marker, plan) {
        assert(world::follows(service, body, scenes[1], answers[1], scenes[2]));
        lemma_probe(
            service,
            body,
            scenes[1],
            answers[1],
            scenes[2],
            w,
            key,
            ProbeStage::Marker,
            plan,
        );
        if probing(scenes[2], w, key, ProbeStage::Contents, plan) {
            assert(world::follows(service, body, scenes[2], answers[2], scenes[3]));
            lemma_probe(
                service,
                body,
                scenes[2],
                answers[2],
                scenes[3],
                w,
                key,
                ProbeStage::Contents,
                plan,
            );
            assert(scenes[3].world == w);
        } else {
            assert(scenes[2].world == w);
        }
    } else {
        assert(scenes[1].world == w);
    }
}

// ---------------------------------------------------------------------------
// Storing
// ---------------------------------------------------------------------------

/// What a scene of storing a file has come to so far.
spec fn putting(
    scene: Scene,
    w: World,
    key: Text,
    body: Seq<u8>,
    length: Option<u64>,
    content_type: Option<Text>,
) -> bool {
    let plan = PlanView::Put { length, content_type };
    match scene.step {
        StepView::Ask(action, task) => match task {
            TaskView::Probe { stage, .. } => probing(scene, w, key, stage, plan),
            TaskView::PutLook { .. } => {
                &&& scene.world == w
                &&& !(world::node_at(w, key) is Dir)
                &&& action == ActionView::Head { key }
                &&& task == TaskView::PutLook { key, length, content_type }
            },
            TaskView::Work(after) => {
                &&& scene.world == w
                &&& !(world::node_at(w, key) is Dir)
                &&& action == ActionView::PutBody { key, length, content_type }
                &&& after == AfterView::Reply {
                    status: if w.contains_key(key) {
                        204
                    } else {
                        201
                    },
                }
            },
            _ => false,
        },
        StepView::Reply(reply) => put_outcome(w, scene.world, key, body, content_type, reply),
        StepView::Fail => true,
        StepView::Forward { .. } => false,
    }
}

/// A directory stays as it is; otherwise the body is stored, and the status tells whether there was
/// a file before. Everything else in the bucket stays.
pub open spec fn put_outcome(
    before: World,
    after: World,
    key: Text,
    body: Seq<u8>,
    content_type: Option<Text>,
    reply: ReplyView,
) -> bool {
    if world::node_at(before, key) is Dir {
        after == before && reply.status == 405
    } else {
        world::is_stored(before, after, key, body, world::typed(content_type)) && reply.status == if
            before.contains_key(key) {
            204u16
        } else {
            201u16
        }
    }
}

proof fn lemma_putting(
    service: ServiceView,
    body: Seq<u8>,
    before: Scene,
    answer: (EventView, nat),
    after: Scene,
    w: World,
    key: Text,
    length: Option<u64>,
    content_type: Option<Text>,
)
    requires
        putting(before, w, key, body, length, content_type),
        world::follows(service, body, before, answer, after),
    ensures
        putting(after, w, key, body, length, content_type),
        after.step is Fail ==> answer.0 is Failed,
{
    let plan = PlanView::Put { length, content_type };
    match before.step {
        StepView::Ask(_, TaskView::Probe { stage, .. }) => {
            lemma_probe(service, body, before, answer, after, w, key, stage, plan);
        },
        _ => {},
    }
}

/// Storing a file, however the conversation goes: once there is a reply, the body is at the key or
/// a directory was in the way. Unless something fails, it ends in a reply.
pub proof fn law_storing_stores(
    service: ServiceView,
    body: Seq<u8>,
    scenes: Seq<Scene>,
    answers: Seq<(EventView, nat)>,
    key: Text,
    content_length: Option<Text>,
    content_type: Option<Text>,
)
    requires
        key.len() > 0,
        world::is_play(service, body, scenes, answers),
        scenes[0].step == uploads::put_request_step(key, content_length, content_type),
    ensures
        scenes.last().step matches StepView::Reply(reply) ==> put_outcome(
            scenes[0].world,
            scenes.last().world,
            key,
            body,
            content_type,
            reply,
        ),
        world::nothing_failed(answers) ==> world::ends_in_reply(scenes),
{
    let length = uploads::declared(content_length);
    lemma_putting_all(service, body, scenes, answers, key, length, content_type, answers.len());
}

proof fn lemma_putting_all(
    service: ServiceView,
    body: Seq<u8>,
    scenes: Seq<Scene>,
    answers: Seq<(EventView, nat)>,
    key: Text,
    length: Option<u64>,
    content_type: Option<Text>,
    n: nat,
)
    requires
        key.len() > 0,
        world::is_play(service, body, scenes, answers),
        scenes[0].step == listing::node_step(key, PlanView::Put { length, content_type }),
        n <= answers.len(),
    ensures
        putting(scenes[n as int], scenes[0].world, key, body, length, content_type),
        scenes[n as int].step is Fail ==> n > 0 && answers[n - 1].0 is Failed,
    decreases n,
{
    if n > 0 {
        lemma_putting_all(
            service,
            body,
            scenes,
            answers,
            key,
            length,
            content_type,
            (n - 1) as nat,
        );
        assert(world::follows(service, body, scenes[n - 1], answers[n - 1], scenes[n as int]));
        lemma_putting(
            service,
            body,
            scenes[n - 1],
            answers[n - 1],
            scenes[n as int],
            scenes[0].world,
            key,
            length,
            content_type,
        );
    }
}

// ---------------------------------------------------------------------------
// Appending
// ---------------------------------------------------------------------------

/// Without a file there is nothing to append to, and too much is refused; otherwise the file ends
/// in the body.
pub open spec fn patch_outcome(
    before: World,
    after: World,
    key: Text,
    body: Seq<u8>,
    content_type: Option<Text>,
    reply: ReplyView,
) -> bool {
    if !before.contains_key(key) {
        after == before && reply.status == 404
    } else if before[key].bytes.len() + body.len() > 10_485_760 {
        after == before && reply.status == 413
    } else {
        world::is_stored(
            before,
            after,
            key,
            before[key].bytes + body,
            world::typed(content_type),
        ) && reply.status == 204
    }
}

spec fn patching(
    scene: Scene,
    w: World,
    key: Text,
    body: Seq<u8>,
    content_type: Option<Text>,
) -> bool {
    match scene.step {
        StepView::Ask(action, task) => scene.world == w && match task {
            TaskView::PatchOpen { .. } => action == ActionView::Get { key, range: None } && task
                == TaskView::PatchOpen { key, content_type },
            TaskView::PatchIncoming { .. } => {
                &&& action == ActionView::ReadBody
                &&& w.contains_key(key)
                &&& scene.held == Some(w[key])
                &&& task == TaskView::PatchIncoming {
                    key,
                    content_type,
                    size: w[key].bytes.len() as u64,
                }
            },
            TaskView::PatchExisting { .. } => {
                &&& action == ActionView::ReadHeld
                &&& w.contains_key(key)
                &&& scene.held == Some(w[key])
                &&& w[key].bytes.len() + body.len() <= uploads::MAX_PATCH_BYTES
                &&& task == TaskView::PatchExisting { key, content_type, incoming: body }
            },
            TaskView::Work(after) => {
                &&& w.contains_key(key)
                &&& w[key].bytes.len() + body.len() <= uploads::MAX_PATCH_BYTES
                &&& action == ActionView::PutBytes { key, bytes: w[key].bytes + body, content_type }
                &&& after == AfterView::Reply { status: 204 }
            },
            _ => false,
        },
        StepView::Reply(reply) => patch_outcome(w, scene.world, key, body, content_type, reply),
        StepView::Fail => true,
        StepView::Forward { .. } => false,
    }
}

proof fn lemma_patching_all(
    service: ServiceView,
    body: Seq<u8>,
    scenes: Seq<Scene>,
    answers: Seq<(EventView, nat)>,
    key: Text,
    content_type: Option<Text>,
    n: nat,
)
    requires
        world::is_play(service, body, scenes, answers),
        scenes[0].step == uploads::patch_request_step(key, Some("append"@), content_type),
        scenes[0].world.contains_key(key) ==> scenes[0].world[key].bytes.len() <= u64::MAX,
        n <= answers.len(),
    ensures
        patching(scenes[n as int], scenes[0].world, key, body, content_type),
        scenes[n as int].step is Fail ==> n > 0 && answers[n - 1].0 is Failed,
    decreases n,
{
    if n > 0 {
        lemma_patching_all(service, body, scenes, answers, key, content_type, (n - 1) as nat);
        assert(world::follows(service, body, scenes[n - 1], answers[n - 1], scenes[n as int]));
    }
}

/// Appending to a file, however the conversation goes: once there is a reply, the file is what it
/// was with the body behind it, or a reason not to do so was given and nothing has changed. Unless
/// something fails, it ends in a reply.
pub proof fn law_appending_appends(
    service: ServiceView,
    body: Seq<u8>,
    scenes: Seq<Scene>,
    answers: Seq<(EventView, nat)>,
    key: Text,
    content_type: Option<Text>,
)
    requires
        world::is_play(service, body, scenes, answers),
        scenes[0].step == uploads::patch_request_step(key, Some("append"@), content_type),
        scenes[0].world.contains_key(key) ==> scenes[0].world[key].bytes.len() <= u64::MAX,
    ensures
        scenes.last().step matches StepView::Reply(reply) ==> patch_outcome(
            scenes[0].world,
            scenes.last().world,
            key,
            body,
            content_type,
            reply,
        ),
        world::nothing_failed(answers) ==> world::ends_in_reply(scenes),
{
    lemma_patching_all(service, body, scenes, answers, key, content_type, answers.len());
}

// ---------------------------------------------------------------------------
// Making directories
// ---------------------------------------------------------------------------

/// What stands at the key already stays; otherwise a directory stands there, kept by its marker.
pub open spec fn mkcol_outcome(before: World, after: World, key: Text, reply: ReplyView) -> bool {
    if world::node_at(before, key) is Missing {
        &&& world::is_stored(
            before,
            after,
            keys::marker_of_directory(key),
            Seq::empty(),
            world::typed(Some("application/x-dufs-directory-marker"@)),
        )
        &&& world::node_at(after, key) is Dir
        &&& reply.status == 201
    } else {
        after == before && reply.status == 405
    }
}

spec fn making(scene: Scene, w: World, key: Text) -> bool {
    match scene.step {
        StepView::Ask(action, task) => match task {
            TaskView::Probe { stage, .. } => probing(scene, w, key, stage, PlanView::Mkcol),
            TaskView::Work(after) => {
                &&& scene.world == w
                &&& world::node_at(w, key) is Missing
                &&& action == ActionView::PutBytes {
                    key: keys::marker_of_directory(key),
                    bytes: Seq::empty(),
                    content_type: Some("application/x-dufs-directory-marker"@),
                }
                &&& after == AfterView::Reply { status: 201 }
            },
            _ => false,
        },
        StepView::Reply(reply) => mkcol_outcome(w, scene.world, key, reply),
        StepView::Fail => true,
        StepView::Forward { .. } => false,
    }
}

proof fn lemma_making_all(
    service: ServiceView,
    body: Seq<u8>,
    scenes: Seq<Scene>,
    answers: Seq<(EventView, nat)>,
    key: Text,
    n: nat,
)
    requires
        key.len() > 0,
        world::is_play(service, body, scenes, answers),
        scenes[0].step == transfers::mkcol_request_step(key),
        n <= answers.len(),
    ensures
        making(scenes[n as int], scenes[0].world, key),
        scenes[n as int].step is Fail ==> n > 0 && answers[n - 1].0 is Failed,
    decreases n,
{
    if n > 0 {
        lemma_making_all(service, body, scenes, answers, key, (n - 1) as nat);
        let (before, after) = (scenes[n - 1], scenes[n as int]);
        let w = scenes[0].world;
        assert(world::follows(service, body, before, answers[n - 1], after));
        match before.step {
            StepView::Ask(_, TaskView::Probe { stage, .. }) => {
                lemma_probe(
                    service,
                    body,
                    before,
                    answers[n - 1],
                    after,
                    w,
                    key,
                    stage,
                    PlanView::Mkcol,
                );
            },
            StepView::Ask(_, TaskView::Work(_)) => {
                lemma_marker_lies_below(key);
                if after.step is Reply {
                    let marker = keys::marker_of_directory(key);
                    assert(after.world.contains_key(marker));
                    assert(world::has_below(after.world, keys::prefix_of_directory(key)));
                    assert(marker.len() > key.len());
                    assert(!after.world.contains_key(key));
                }
            },
            _ => {},
        }
    }
}

/// Making a directory, however the conversation goes: once there is a reply, a directory stands at
/// the key, or something stood there before and nothing has changed. Unless something fails, it
/// ends in a reply.
pub proof fn law_made_directories_stand(
    service: ServiceView,
    body: Seq<u8>,
    scenes: Seq<Scene>,
    answers: Seq<(EventView, nat)>,
    key: Text,
)
    requires
        key.len() > 0,
        world::is_play(service, body, scenes, answers),
        scenes[0].step == transfers::mkcol_request_step(key),
    ensures
        scenes.last().step matches StepView::Reply(reply) ==> mkcol_outcome(
            scenes[0].world,
            scenes.last().world,
            key,
            reply,
        ),
        world::nothing_failed(answers) ==> world::ends_in_reply(scenes),
{
    lemma_making_all(service, body, scenes, answers, key, answers.len());
}

// ---------------------------------------------------------------------------
// Reading
// ---------------------------------------------------------------------------

/// The query asks for the file itself, not for a page about it.
pub open spec fn wants_contents(params: Seq<(Text, Text)>) -> bool {
    &&& query::lookup(params, "edit"@) is None
    &&& query::lookup(params, "view"@) is None
    &&& query::lookup(params, "json"@) is None
    &&& query::lookup(params, "hash"@) is None
}

/// A read of the file itself, by the user or by a visitor of the share.
pub open spec fn reads_contents(
    plan: PlanView,
    conditions: ConditionsView,
    head_only: bool,
    public_share: bool,
) -> bool {
    match plan {
        PlanView::Read(read) => {
            &&& wants_contents(read.params)
            &&& read.conditions == conditions
            &&& read.head_only == head_only
            &&& !public_share
        },
        PlanView::Share { head_only: headers, conditions: asked, .. } => {
            &&& asked == conditions
            &&& headers == head_only
            &&& public_share
        },
        _ => false,
    }
}

/// The reply sends these bytes of the object: its headers are those of this part, and unless the
/// headers alone are wanted, the object at hand holds exactly the bytes.
pub open spec fn sends(
    scene: Scene,
    reply: ReplyView,
    key: Text,
    object: Stored,
    part: Option<(nat, nat)>,
    bytes: Seq<u8>,
    head_only: bool,
    public_share: bool,
) -> bool {
    let headers = files::file_headers(key, world::info_of(key, object), part, public_share);
    if head_only {
        reply == headers
    } else {
        &&& reply == headers.carrying()
        &&& scene.held == Some(Stored { bytes, ..object })
    }
}

/// What reading a file comes to: the client has it already, or wants another version, or a range
/// that it does not have; otherwise the bytes that were asked for are sent.
pub open spec fn read_outcome(
    scene: Scene,
    reply: ReplyView,
    key: Text,
    object: Stored,
    conditions: ConditionsView,
    head_only: bool,
    public_share: bool,
) -> bool {
    if files::is_unchanged(conditions, object.etag) {
        reply == ReplyView::new(304)
    } else if files::is_mismatched(conditions, object.etag) {
        reply == ReplyView::new(412)
    } else {
        match conditions.range {
            Some(value) => match range::requested_range(value, object.bytes.len()) {
                Some((first, last)) => sends(
                    scene,
                    reply,
                    key,
                    object,
                    Some((first, last)),
                    object.bytes.subrange(first as int, last as int + 1),
                    head_only,
                    public_share,
                ),
                None => reply == files::no_such_range_reply(object.bytes.len()),
            },
            None => sends(
                scene,
                reply,
                key,
                object,
                None,
                object.bytes,
                head_only,
                public_share,
            ),
        }
    }
}

spec fn opening(
    scene: Scene,
    w: World,
    key: Text,
    plan: PlanView,
    conditions: ConditionsView,
    head_only: bool,
    public_share: bool,
) -> bool {
    let info = world::info_of(key, w[key]);
    match scene.step {
        StepView::Ask(action, task) => scene.world == w && match task {
            TaskView::Probe { stage, .. } => probing(scene, w, key, stage, plan),
            TaskView::Open(_) => !head_only && scene.step == files::file_step(
                key,
                info,
                conditions,
                head_only,
                public_share,
            ),
            _ => false,
        },
        StepView::Reply(reply) => scene.world == w && read_outcome(
            scene,
            reply,
            key,
            w[key],
            conditions,
            head_only,
            public_share,
        ),
        StepView::Fail => true,
        StepView::Forward { .. } => false,
    }
}

/// Answering a request for a file replies at once or opens it.
proof fn lemma_file_step(
    scene: Scene,
    w: World,
    key: Text,
    plan: PlanView,
    conditions: ConditionsView,
    head_only: bool,
    public_share: bool,
)
    requires
        w[key].bytes.len() <= u64::MAX,
        scene.world == w,
        scene.step == files::file_step(
            key,
            world::info_of(key, w[key]),
            conditions,
            head_only,
            public_share,
        ),
    ensures
        opening(scene, w, key, plan, conditions, head_only, public_share),
        !(scene.step is Fail),
{
}

/// The opened file completes the reply.
proof fn lemma_opened(
    service: ServiceView,
    body: Seq<u8>,
    before: Scene,
    answer: (EventView, nat),
    after: Scene,
    w: World,
    key: Text,
    plan: PlanView,
    conditions: ConditionsView,
    public_share: bool,
)
    requires
        w.contains_key(key),
        w[key].bytes.len() <= u64::MAX,
        before.world == w,
        before.step is Ask,
        before.step == files::file_step(
            key,
            world::info_of(key, w[key]),
            conditions,
            false,
            public_share,
        ),
        world::follows(service, body, before, answer, after),
    ensures
        opening(after, w, key, plan, conditions, false, public_share),
        after.step is Fail ==> answer.0 is Failed,
{
    match conditions.range {
        Some(value) => {
            range::law_served_ranges_lie_within(value, w[key].bytes.len());
        },
        None => {},
    }
    if !(answer.0 is Failed) {
        match before.step {
            StepView::Ask(ActionView::Get { range: asked, .. }, TaskView::Open(prepared)) => {
                assert(after.step == files::opened_step(prepared, answer.0));
                assert(after.held == Some(world::part_of(w[key], asked)));
            },
            _ => {},
        }
    }
}

proof fn lemma_opening_all(
    service: ServiceView,
    body: Seq<u8>,
    scenes: Seq<Scene>,
    answers: Seq<(EventView, nat)>,
    key: Text,
    plan: PlanView,
    conditions: ConditionsView,
    head_only: bool,
    public_share: bool,
    n: nat,
)
    requires
        key.len() > 0,
        scenes[0].world.contains_key(key),
        scenes[0].world[key].bytes.len() <= u64::MAX,
        reads_contents(plan, conditions, head_only, public_share),
        world::is_play(service, body, scenes, answers),
        scenes[0].step == listing::node_step(key, plan),
        n <= answers.len(),
    ensures
        opening(
            scenes[n as int],
            scenes[0].world,
            key,
            plan,
            conditions,
            head_only,
            public_share,
        ),
        scenes[n as int].step is Fail ==> n > 0 && answers[n - 1].0 is Failed,
    decreases n,
{
    let w = scenes[0].world;
    if n > 0 {
        lemma_opening_all(
            service,
            body,
            scenes,
            answers,
            key,
            plan,
            conditions,
            head_only,
            public_share,
            (n - 1) as nat,
        );
        let (before, after) = (scenes[n - 1], scenes[n as int]);
        assert(world::follows(service, body, before, answers[n - 1], after));
        match before.step {
            StepView::Ask(_, TaskView::Probe { stage, .. }) => {
                lemma_probe(service, body, before, answers[n - 1], after, w, key, stage, plan);
                let node = world::node_at(w, key);
                if after.world == w && after.step == listing::at_node_step(key, node, plan) {
                    lemma_file_step(
                        after,
                        w,
                        key,
                        plan,
                        conditions,
                        head_only,
                        public_share,
                    );
                }
            },
            _ => {
                lemma_opened(
                    service,
                    body,
                    before,
                    answers[n - 1],
                    after,
                    w,
                    key,
                    plan,
                    conditions,
                    public_share,
                );
            },
        }
    }
}

/// Reading a file gives back what is stored under its key, to the user and to a visitor of the
/// share: once there is a reply, it carries the stored bytes, or those of the range that was asked
/// for and no others, with the length and the type of what was stored, unless the conditions of the
/// request forbid it. The bucket is as it was. Unless something fails, it ends in a reply.
pub proof fn law_files_read_back(
    service: ServiceView,
    body: Seq<u8>,
    scenes: Seq<Scene>,
    answers: Seq<(EventView, nat)>,
    key: Text,
    plan: PlanView,
    conditions: ConditionsView,
    head_only: bool,
    public_share: bool,
)
    requires
        key.len() > 0,
        scenes[0].world.contains_key(key),
        scenes[0].world[key].bytes.len() <= u64::MAX,
        reads_contents(plan, conditions, head_only, public_share),
        world::is_play(service, body, scenes, answers),
        scenes[0].step == listing::node_step(key, plan),
    ensures
        scenes.last().step matches StepView::Reply(reply) ==> {
            &&& read_outcome(
                scenes.last(),
                reply,
                key,
                scenes[0].world[key],
                conditions,
                head_only,
                public_share,
            )
            &&& scenes.last().world == scenes[0].world
        },
        world::nothing_failed(answers) ==> world::ends_in_reply(scenes),
{
    lemma_opening_all(
        service,
        body,
        scenes,
        answers,
        key,
        plan,
        conditions,
        head_only,
        public_share,
        answers.len(),
    );
}

} // verus!
