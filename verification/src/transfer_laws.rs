//! What removing, copying and moving leave in the bucket.

use crate::keys;
use crate::listing;
use crate::machine::{
    ActionView, AfterView, EventView, PlanView, ProbeStage, ScanPlanView, ServiceView, StepView,
    TaskView, TransferPlanView,
};
use crate::model::NodeView;
use crate::reply::ReplyView;
use crate::service;
use crate::storage_laws;
use crate::text::Text;
use crate::transfers;
use crate::world::{self, Scene, Stored, World};
use vstd::prelude::*;
use vstd::seq_lib::*;

verus! {

// ---------------------------------------------------------------------------
// Collecting keys
// ---------------------------------------------------------------------------

/// The keys are those of what lies below the prefix, each once.
pub open spec fn lists_below(world: World, prefix: Text, all: Seq<Text>) -> bool {
    &&& all.no_duplicates()
    &&& forall|key: Text| #[trigger]
        all.contains(key) <==> world.contains_key(key) && prefix.is_prefix_of(key)
}

/// The keys are those of what lies below the prefix, each once, or `limit` of them.
pub open spec fn is_collection(
    world: World,
    prefix: Text,
    limit: Option<u64>,
    all: Seq<Text>,
) -> bool {
    match limit {
        Some(most) if all.len() >= most => {
            &&& all.len() == most
            &&& all.no_duplicates()
            &&& forall|key: Text| #[trigger]
                all.contains(key) ==> world.contains_key(key) && prefix.is_prefix_of(key)
        },
        _ => lists_below(world, prefix, all),
    }
}

/// The scene is one of collecting the keys below the prefix, in the bucket `w`.
pub open spec fn scanning(
    scene: Scene,
    w: World,
    prefix: Text,
    limit: Option<u64>,
    goal: ScanPlanView,
) -> bool {
    &&& scene.world == w
    &&& scene.step matches StepView::Ask(action, task)
    &&& action matches ActionView::List { prefix: asked, delimited, cursor, .. }
    &&& asked == prefix
    &&& !delimited
    &&& task matches TaskView::Scan { keys: found, .. }
    &&& task == TaskView::Scan { prefix, limit, keys: found, goal }
    &&& limit matches Some(most) ==> found.len() < most
    &&& found == if cursor is None {
        Seq::empty()
    } else {
        scene.seen
    }
    &&& found.no_duplicates()
    &&& forall|key: Text| #[trigger]
        found.contains(key) ==> w.contains_key(key) && prefix.is_prefix_of(key)
}

/// The collection goes on, or it is complete.
pub proof fn lemma_scan(
    service: ServiceView,
    body: Seq<u8>,
    before: Scene,
    answer: (EventView, nat),
    after: Scene,
    w: World,
    prefix: Text,
    limit: Option<u64>,
    goal: ScanPlanView,
) -> (all: Seq<Text>)
    requires
        scanning(before, w, prefix, limit, goal),
        world::follows(service, body, before, answer, after),
    ensures
        ({
            ||| answer.0 is Failed && after.step is Fail
            ||| scanning(after, w, prefix, limit, goal)
            ||| after.world == w && is_collection(w, prefix, limit, all) && after.step
                == listing::collected_step(prefix, all, goal)
        }),
{
    let found = match before.step {
        StepView::Ask(_, TaskView::Scan { keys: found, .. }) => found,
        _ => Seq::empty(),
    };
    match answer.0 {
        EventView::Page(page) => {
            let all = found + listing::object_keys(page.objects);
            assert(world::is_page(w, prefix, found, page));
            assert forall|key: Text| #[trigger] all.contains(key) implies w.contains_key(key)
                && prefix.is_prefix_of(key) by {
                let i = choose|i: int| 0 <= i < all.len() && all[i] == key;
                if i < found.len() {
                    assert(found.contains(found[i]));
                } else {
                    assert(page.objects[i - found.len()].key == key);
                }
            }
            match limit {
                Some(most) if all.len() >= most => {
                    let first = all.take(most as int);
                    assert forall|key: Text| #[trigger] first.contains(
                        key,
                    ) implies w.contains_key(key) && prefix.is_prefix_of(key) by {
                        let i = choose|i: int| 0 <= i < first.len() && first[i] == key;
                        assert(all[i] == key);
                        assert(all.contains(key));
                    }
                    first
                },
                _ => all,
            }
        },
        _ => Seq::empty(),
    }
}

/// What lies below a countable prefix is listed in a sequence whose length a machine can count.
proof fn lemma_countable(w: World, prefix: Text, all: Seq<Text>)
    requires
        world::is_countable(w, prefix),
        lists_below(w, prefix, all),
    ensures
        all.len() < usize::MAX,
{
    let below = Set::new(|key: Text| w.contains_key(key) && prefix.is_prefix_of(key));
    assert(all.to_set() =~= below);
    all.unique_seq_to_set();
}

// ---------------------------------------------------------------------------
// Removing what has been collected
// ---------------------------------------------------------------------------

/// The scene is one of removing the keys `all`, from the bucket `w`.
spec fn deleting(scene: Scene, w: World, all: Seq<Text>, after: AfterView) -> bool {
    &&& all.len() < usize::MAX
    &&& scene.step matches StepView::Ask(action, task)
    &&& action matches ActionView::DeleteMany { keys: batch }
    &&& task matches TaskView::DeleteRest { at, .. }
    &&& task == TaskView::DeleteRest { keys: all, at, after }
    &&& at <= all.len()
    &&& batch.len() <= at
    &&& batch == all.subrange(at - batch.len(), at as int)
    &&& scene.world == world::without_keys(w, all.take(at - batch.len()))
}

proof fn lemma_delete_step(scene: Scene, w: World, all: Seq<Text>, at: usize, after: AfterView)
    requires
        all.len() < usize::MAX,
        at <= all.len(),
        scene.world == world::without_keys(w, all.take(at as int)),
        scene.step == transfers::delete_step(all, at, after),
    ensures
        ({
            ||| deleting(scene, w, all, after)
            ||| scene.world == world::without_keys(w, all) && scene.step == transfers::after_step(
                after,
            )
        }),
{
    if at >= all.len() {
        assert(all.take(at as int) =~= all);
    }
}

/// Removing a batch more.
proof fn lemma_without_more(w: World, all: Seq<Text>, from: int, at: int)
    requires
        0 <= from <= at <= all.len(),
    ensures
        world::without_keys(world::without_keys(w, all.take(from)), all.subrange(from, at))
            == world::without_keys(w, all.take(at)),
{
    let batch = all.subrange(from, at);
    assert(all.take(at) =~= all.take(from) + batch);
    assert forall|key: Text| #[trigger] all.take(at).contains(key) <==> (all.take(from).contains(
        key,
    ) || batch.contains(key)) by {
        lemma_concat_contains(all.take(from), batch, key);
    }
    assert(world::without_keys(world::without_keys(w, all.take(from)), batch)
        =~= world::without_keys(w, all.take(at)));
}

/// The removal goes on, or everything has been removed.
#[verifier::rlimit(40)]
proof fn lemma_delete(
    service: ServiceView,
    body: Seq<u8>,
    before: Scene,
    answer: (EventView, nat),
    after: Scene,
    w: World,
    all: Seq<Text>,
    then: AfterView,
)
    requires
        deleting(before, w, all, then),
        world::follows(service, body, before, answer, after),
    ensures
        ({
            ||| answer.0 is Failed && after.step is Fail
            ||| deleting(after, w, all, then)
            ||| after.world == world::without_keys(w, all) && after.step == transfers::after_step(
                then,
            )
        }),
{
    match before.step {
        StepView::Ask(ActionView::DeleteMany { keys: batch }, TaskView::DeleteRest { at, .. }) => {
            if !(answer.0 is Failed) {
                lemma_without_more(w, all, at - batch.len(), at as int);
                lemma_delete_step(after, w, all, at, then);
            }
        },
        _ => {},
    }
}

proof fn lemma_concat_contains(a: Seq<Text>, b: Seq<Text>, x: Text)
    ensures
        (a + b).contains(x) <==> a.contains(x) || b.contains(x),
{
    if a.contains(x) {
        let i = choose|i: int| 0 <= i < a.len() && a[i] == x;
        assert((a + b)[i] == x);
    }
    if b.contains(x) {
        let i = choose|i: int| 0 <= i < b.len() && b[i] == x;
        assert((a + b)[a.len() + i] == x);
    }
}

/// Removing exactly the keys below a prefix leaves everything else.
proof fn lemma_without(w: World, prefix: Text, all: Seq<Text>)
    requires
        lists_below(w, prefix, all),
    ensures
        world::without_keys(w, all) == world::without_below(w, prefix),
{
    assert(world::without_keys(w, all) =~= world::without_below(w, prefix));
}

/// The scene is one of removing everything below the prefix, from the bucket `w`: the keys are
/// being collected, or the collected keys are being removed.
spec fn clearing(scene: Scene, w: World, prefix: Text, then: AfterView) -> bool {
    ||| scanning(scene, w, prefix, None, ScanPlanView::Delete(then))
    ||| exists|all: Seq<Text>|
        lists_below(w, prefix, all) && #[trigger] deleting(scene, w, all, then)
}

proof fn lemma_clear(
    service: ServiceView,
    body: Seq<u8>,
    before: Scene,
    answer: (EventView, nat),
    after: Scene,
    w: World,
    prefix: Text,
    then: AfterView,
)
    requires
        world::is_countable(w, prefix),
        clearing(before, w, prefix, then),
        world::follows(service, body, before, answer, after),
    ensures
        ({
            ||| answer.0 is Failed && after.step is Fail
            ||| clearing(after, w, prefix, then)
            ||| after.world == world::without_below(w, prefix) && after.step
                == transfers::after_step(then)
        }),
{
    if scanning(before, w, prefix, None, ScanPlanView::Delete(then)) {
        let all = lemma_scan(
            service,
            body,
            before,
            answer,
            after,
            w,
            prefix,
            None,
            ScanPlanView::Delete(then),
        );
        if !(after.step is Fail) && !scanning(after, w, prefix, None, ScanPlanView::Delete(then)) {
            lemma_countable(w, prefix, all);
            assert(world::without_keys(w, all.take(0)) =~= w);
            lemma_delete_step(after, w, all, 0, then);
            lemma_without(w, prefix, all);
        }
    } else {
        let all = choose|all: Seq<Text>|
            lists_below(w, prefix, all) && #[trigger] deleting(before, w, all, then);
        lemma_delete(service, body, before, answer, after, w, all, then);
        lemma_without(w, prefix, all);
    }
}

// ---------------------------------------------------------------------------
// Removing
// ---------------------------------------------------------------------------

/// What stood at the key is gone, and nothing else; there was something, or the reply says that
/// there was nothing.
pub open spec fn delete_outcome(before: World, after: World, key: Text, reply: ReplyView) -> bool {
    &&& after == world::without_node(before, key)
    &&& reply.status == if world::node_at(before, key) is Missing {
        404u16
    } else {
        204u16
    }
}

spec fn removing(scene: Scene, w: World, key: Text) -> bool {
    let then = AfterView::Reply { status: 204 };
    match scene.step {
        StepView::Ask(action, task) => match task {
            TaskView::Probe { stage, .. } => storage_laws::probing(
                scene,
                w,
                key,
                stage,
                PlanView::Delete,
            ),
            TaskView::Work(after) => {
                &&& scene.world == w
                &&& world::node_at(w, key) is File
                &&& action == ActionView::Delete { key }
                &&& after == then
            },
            _ => world::node_at(w, key) is Dir && clearing(
                scene,
                w,
                keys::prefix_of_directory(key),
                then,
            ),
        },
        StepView::Reply(reply) => delete_outcome(w, scene.world, key, reply),
        StepView::Fail => true,
        StepView::Forward { .. } => false,
    }
}

proof fn lemma_removing_all(
    service: ServiceView,
    body: Seq<u8>,
    scenes: Seq<Scene>,
    answers: Seq<(EventView, nat)>,
    key: Text,
    n: nat,
)
    requires
        key.len() > 0,
        world::is_countable(scenes[0].world, keys::prefix_of_directory(key)),
        world::is_play(service, body, scenes, answers),
        scenes[0].step == transfers::delete_request_step(key),
        n <= answers.len(),
    ensures
        removing(scenes[n as int], scenes[0].world, key),
        scenes[n as int].step is Fail ==> n > 0 && answers[n - 1].0 is Failed,
    decreases n,
{
    let w = scenes[0].world;
    let then = AfterView::Reply { status: 204 };
    let prefix = keys::prefix_of_directory(key);
    if n > 0 {
        lemma_removing_all(service, body, scenes, answers, key, (n - 1) as nat);
        let (before, after) = (scenes[n - 1], scenes[n as int]);
        assert(world::follows(service, body, before, answers[n - 1], after));
        match before.step {
            StepView::Ask(_, TaskView::Probe { stage, .. }) => {
                storage_laws::lemma_probe(
                    service,
                    body,
                    before,
                    answers[n - 1],
                    after,
                    w,
                    key,
                    stage,
                    PlanView::Delete,
                );
            },
            StepView::Ask(_, TaskView::Work(_)) => {},
            _ => {
                lemma_clear(service, body, before, answers[n - 1], after, w, prefix, then);
            },
        }
    }
}

/// Removing, however the conversation goes: once there is a reply, the file or everything below the
/// directory is gone and all else is there. Unless something fails, it ends in a reply.
pub proof fn law_removing_removes(
    service: ServiceView,
    body: Seq<u8>,
    scenes: Seq<Scene>,
    answers: Seq<(EventView, nat)>,
    key: Text,
)
    requires
        key.len() > 0,
        world::is_countable(scenes[0].world, keys::prefix_of_directory(key)),
        world::is_play(service, body, scenes, answers),
        scenes[0].step == transfers::delete_request_step(key),
    ensures
        scenes.last().step matches StepView::Reply(reply) ==> delete_outcome(
            scenes[0].world,
            scenes.last().world,
            key,
            reply,
        ),
        world::nothing_failed(answers) ==> world::ends_in_reply(scenes),
{
    lemma_removing_all(service, body, scenes, answers, key, answers.len());
}

/// What has been removed is gone: where a directory was nothing stands any more, and where a file
/// was no file does.
pub proof fn law_what_is_removed_is_gone(before: World, key: Text)
    requires
        key.len() > 0,
    ensures
        world::node_at(before, key) is Dir ==> world::node_at(
            world::without_node(before, key),
            key,
        ) is Missing,
        !(world::node_at(world::without_node(before, key), key) is File),
{
}

// ---------------------------------------------------------------------------
// Copying and moving
// ---------------------------------------------------------------------------

/// Neither of two places lies within the other.
spec fn are_apart(source: Text, destination: Text) -> bool {
    &&& source != destination
    &&& !keys::prefix_of_directory(source).is_prefix_of(destination)
    &&& !keys::prefix_of_directory(destination).is_prefix_of(source)
}

/// The object belongs to what stands at `source`.
pub open spec fn belongs_to(before: World, source: Text, key: Text) -> bool {
    if before.contains_key(source) {
        key == source
    } else {
        before.contains_key(key) && keys::prefix_of_directory(source).is_prefix_of(key)
    }
}

/// Where an object that belongs to what stands at `source` is copied to: it keeps its place
/// relative to the directory.
pub open spec fn new_place(before: World, source: Text, destination: Text, key: Text) -> Text {
    if before.contains_key(source) {
        destination
    } else {
        keys::prefix_of_directory(destination) + key.skip(
            keys::prefix_of_directory(source).len() as int,
        )
    }
}

/// Some object is copied to `place`.
pub open spec fn is_new_place(
    before: World,
    source: Text,
    destination: Text,
    place: Text,
) -> bool {
    exists|key: Text| #[trigger]
        belongs_to(before, source, key) && new_place(before, source, destination, key) == place
}

/// The two buckets have the same at `key`.
pub open spec fn same_at(a: World, b: World, key: Text) -> bool {
    &&& a.contains_key(key) <==> b.contains_key(key)
    &&& a.contains_key(key) ==> a[key] == b[key]
}

/// Two objects hold the same, and the same is kept of them.
pub open spec fn same_content(a: Stored, b: Stored) -> bool {
    a.bytes == b.bytes && a.metadata == b.metadata
}

/// Everything that belongs to the source is at its new place, and at its old one unless it was
/// moved. What stood at the destination is gone, and all else is as it was.
pub open spec fn is_transferred(
    before: World,
    after: World,
    source: Text,
    destination: Text,
    move_source: bool,
) -> bool {
    &&& forall|key: Text| #[trigger]
        belongs_to(before, source, key) ==> {
            let place = new_place(before, source, destination, key);
            &&& after.contains_key(place)
            &&& same_content(after[place], before[key])
            &&& if move_source {
                !after.contains_key(key)
            } else {
                same_at(after, before, key)
            }
        }
    &&& forall|key: Text|
        !belongs_to(before, source, key) && !is_new_place(before, source, destination, key)
            ==> #[trigger] same_at(after, world::without_node(before, destination), key)
}

/// What copying or moving comes to.
pub open spec fn transfer_outcome(
    before: World,
    after: World,
    source: Text,
    destination: Text,
    keep: bool,
    move_source: bool,
    reply: ReplyView,
) -> bool {
    let replaces = !(world::node_at(before, destination) is Missing);
    if world::node_at(before, source) is Missing {
        after == before && reply.status == 404
    } else if world::node_at(before, source) is Dir && keys::prefix_of_directory(
        source,
    ).is_prefix_of(destination) {
        after == before && reply.status == 409
    } else if replaces && keep {
        after == before && reply.status == 412
    } else {
        is_transferred(before, after, source, destination, move_source) && reply.status == if
            replaces {
            204u16
        } else {
            201u16
        }
    }
}

/// A directory and the place it is copied to lie apart; a file only has to go elsewhere.
spec fn is_well_placed(plan: TransferPlanView) -> bool {
    &&& plan.source.len() > 0
    &&& plan.destination.len() > 0
    &&& plan.source != plan.destination
    &&& plan.source_is_dir ==> are_apart(plan.source, plan.destination)
}

/// The keys to be copied, in the bucket `w`.
spec fn lists_source(w: World, plan: TransferPlanView, all: Seq<Text>) -> bool {
    if plan.source_is_dir {
        lists_below(w, keys::prefix_of_directory(plan.source), all)
    } else {
        all == seq![plan.source]
    }
}

spec fn targets(plan: TransferPlanView, all: Seq<Text>) -> Seq<Text> {
    Seq::new(all.len(), |i: int| transfers::copy_target(plan, all[i]))
}

/// The bucket is `w` with the first `n` keys copied.
spec fn copied(w: World, now: World, plan: TransferPlanView, all: Seq<Text>, n: int) -> bool {
    &&& forall|i: int| 0 <= i < n ==> w.contains_key(#[trigger] all[i])
    &&& forall|i: int|
        0 <= i < n ==> now.contains_key(#[trigger] targets(plan, all)[i]) && same_content(
            now[targets(plan, all)[i]],
            w[all[i]],
        )
    &&& forall|key: Text|
        !targets(plan, all).take(n).contains(key) ==> #[trigger] same_at(now, w, key)
}

/// Two prefixes of directories that are apart have no key in common.
proof fn lemma_apart(source: Text, destination: Text, key: Text)
    requires
        source.len() > 0,
        destination.len() > 0,
        are_apart(source, destination),
        keys::prefix_of_directory(source).is_prefix_of(key),
    ensures
        !keys::prefix_of_directory(destination).is_prefix_of(key),
        key != destination,
{
    let (p, q) = (keys::prefix_of_directory(source), keys::prefix_of_directory(destination));
    assert(p =~= key.subrange(0, p.len() as int));
    if q.is_prefix_of(key) {
        assert(q =~= key.subrange(0, q.len() as int));
        if p.len() == q.len() {
            assert(source =~= p.take(source.len() as int));
            assert(destination =~= q.take(destination.len() as int));
        } else if p.len() < q.len() {
            assert(p =~= destination.subrange(0, p.len() as int)) by {
                assert forall|i: int| 0 <= i < p.len() implies p[i] == destination[i] by {
                    assert(q[i] == key[i]);
                }
            }
        } else {
            assert(q =~= source.subrange(0, q.len() as int)) by {
                assert forall|i: int| 0 <= i < q.len() implies q[i] == source[i] by {
                    assert(p[i] == key[i]);
                }
            }
        }
    }
}

/// The place to which a key of the source is copied is no key of the source, and no other key is
/// copied there.
proof fn lemma_targets(w: World, plan: TransferPlanView, all: Seq<Text>)
    requires
        is_well_placed(plan),
        lists_source(w, plan, all),
    ensures
        targets(plan, all).no_duplicates(),
        forall|i: int, j: int|
            0 <= i < all.len() && 0 <= j < all.len() ==> #[trigger] targets(plan, all)[i]
                != #[trigger] all[j],
        plan.source_is_dir ==> forall|i: int|
            0 <= i < all.len() ==> !keys::prefix_of_directory(plan.source).is_prefix_of(
                #[trigger] targets(plan, all)[i],
            ),
{
    if plan.source_is_dir {
        let p = keys::prefix_of_directory(plan.source);
        let q = keys::prefix_of_directory(plan.destination);
        let places = targets(plan, all);
        assert forall|i: int| 0 <= i < all.len() implies p.is_prefix_of(#[trigger] all[i])
            && all[i] =~= p + all[i].skip(p.len() as int) && places[i] == q + all[i].skip(
            p.len() as int,
        ) by {
            assert(all.contains(all[i]));
            assert(all[i].subrange(0, p.len() as int) =~= p);
        }
        assert forall|i: int| 0 <= i < all.len() implies !p.is_prefix_of(#[trigger] places[i]) by {
            let _ = all[i];
            assert(q.is_prefix_of(places[i])) by {
                assert(places[i].subrange(0, q.len() as int) =~= q);
            }
            if p.is_prefix_of(places[i]) {
                lemma_apart(plan.source, plan.destination, places[i]);
            }
        }
        assert forall|i: int, j: int|
            0 <= i < all.len() && 0 <= j < all.len() && i != j implies places[i] != places[j] by {
            let (a, b) = (all[i], all[j]);
            if places[i] == places[j] {
                assert(a.skip(p.len() as int) =~= places[i].skip(q.len() as int));
                assert(b.skip(p.len() as int) =~= places[j].skip(q.len() as int));
                assert(a =~= b);
            }
        }
        assert forall|i: int, j: int|
            0 <= i < all.len() && 0 <= j < all.len() implies #[trigger] places[i]
            != #[trigger] all[j] by {
            assert(p.is_prefix_of(all[j]));
            assert(!p.is_prefix_of(places[i]));
        }
    }
}

/// Clearing the destination leaves a source directory alone, and changes no object.
proof fn lemma_cleared(w: World, source: Text, destination: Text)
    requires
        source.len() > 0,
        destination.len() > 0,
    ensures
        forall|key: Text| #[trigger]
            world::without_node(w, destination).contains_key(key) ==> same_at(
                world::without_node(w, destination),
                w,
                key,
            ),
        are_apart(source, destination) ==> forall|key: Text|
            keys::prefix_of_directory(source).is_prefix_of(key) ==> #[trigger] same_at(
                world::without_node(w, destination),
                w,
                key,
            ),
{
    if are_apart(source, destination) {
        assert forall|key: Text| keys::prefix_of_directory(source).is_prefix_of(
            key,
        ) implies #[trigger] same_at(world::without_node(w, destination), w, key) by {
            lemma_apart(source, destination, key);
        }
    }
}

/// Storing the next copy.
proof fn lemma_copied_one_more(
    w: World,
    now: World,
    then: World,
    plan: TransferPlanView,
    all: Seq<Text>,
    at: int,
)
    requires
        is_well_placed(plan),
        lists_source(w, plan, all),
        0 <= at < all.len(),
        copied(w, now, plan, all, at),
        w.contains_key(all[at]),
        world::is_stored(
            now,
            then,
            targets(plan, all)[at],
            w[all[at]].bytes,
            w[all[at]].metadata,
        ),
    ensures
        copied(w, then, plan, all, at + 1),
{
    lemma_targets(w, plan, all);
    let places = targets(plan, all);
    assert forall|i: int| 0 <= i < at + 1 implies then.contains_key(#[trigger] places[i])
        && same_content(then[places[i]], w[all[i]]) by {
        if i < at {
            assert(places[i] != places[at]);
        }
    }
    assert forall|key: Text| !places.take(at + 1).contains(key) implies #[trigger] same_at(
        then,
        w,
        key,
    ) by {
        assert(places.take(at + 1)[at] == places[at]);
        assert(!places.take(at).contains(key)) by {
            if places.take(at).contains(key) {
                let i = choose|i: int| 0 <= i < at && places.take(at)[i] == key;
                assert(places.take(at + 1)[i] == key);
            }
        }
        assert(same_at(now, w, key));
    }
}

/// A key of the source is untouched by copying.
proof fn lemma_source_untouched(
    w: World,
    now: World,
    plan: TransferPlanView,
    all: Seq<Text>,
    n: int,
)
    requires
        is_well_placed(plan),
        lists_source(w, plan, all),
        0 <= n <= all.len(),
        copied(w, now, plan, all, n),
    ensures
        forall|i: int| 0 <= i < all.len() ==> same_at(now, w, #[trigger] all[i]),
        plan.source_is_dir ==> forall|key: Text|
            keys::prefix_of_directory(plan.source).is_prefix_of(key) ==> #[trigger] same_at(
                now,
                w,
                key,
            ),
{
    lemma_targets(w, plan, all);
    let places = targets(plan, all);
    assert forall|i: int| 0 <= i < all.len() implies same_at(now, w, #[trigger] all[i]) by {
        if places.take(n).contains(all[i]) {
            let j = choose|j: int| 0 <= j < n && places.take(n)[j] == all[i];
            assert(places[j] == all[i]);
        }
    }
    if plan.source_is_dir {
        let p = keys::prefix_of_directory(plan.source);
        assert forall|key: Text| p.is_prefix_of(key) implies #[trigger] same_at(now, w, key) by {
            if places.take(n).contains(key) {
                let j = choose|j: int| 0 <= j < n && places.take(n)[j] == key;
                assert(places[j] == key);
            }
        }
    }
}

/// What is meant by the parameters of a transfer, in the bucket in which it begins.
spec fn is_plan_for(plan: TransferPlanView, w: World) -> bool {
    &&& is_well_placed(plan)
    &&& !(world::node_at(w, plan.source) is Missing)
    &&& plan.source_is_dir == (world::node_at(w, plan.source) is Dir)
    &&& plan.destination_exists == !(world::node_at(w, plan.destination) is Missing)
    &&& world::is_countable(w, keys::prefix_of_directory(plan.source))
    &&& world::is_countable(w, keys::prefix_of_directory(plan.destination))
}

/// Everything has been copied into the cleared bucket, and `now` is what is there then.
spec fn all_copied(w: World, now: World, plan: TransferPlanView, all: Seq<Text>) -> bool {
    let cleared = world::without_node(w, plan.destination);
    lists_source(cleared, plan, all) && copied(cleared, now, plan, all, all.len() as int)
}

/// Once everything has been copied, and in a move the source removed, the transfer is done.
#[verifier::rlimit(40)]
proof fn lemma_transferred(
    w: World,
    now: World,
    after: World,
    plan: TransferPlanView,
    all: Seq<Text>,
)
    requires
        is_plan_for(plan, w),
        all_copied(w, now, plan, all),
        if !plan.move_source {
            after == now
        } else if plan.source_is_dir {
            after == world::without_below(now, keys::prefix_of_directory(plan.source))
        } else {
            after == now.remove(plan.source)
        },
    ensures
        is_transferred(w, after, plan.source, plan.destination, plan.move_source),
{
    let cleared = world::without_node(w, plan.destination);
    let (source, destination) = (plan.source, plan.destination);
    let p = keys::prefix_of_directory(source);
    let places = targets(plan, all);
    lemma_targets(cleared, plan, all);
    lemma_cleared(w, source, destination);
    lemma_source_untouched(cleared, now, plan, all, all.len() as int);
    assert(places.take(all.len() as int) =~= places);
    assert forall|key: Text| #[trigger] belongs_to(w, source, key) implies {
        let place = new_place(w, source, destination, key);
        &&& after.contains_key(place)
        &&& same_content(after[place], w[key])
        &&& if plan.move_source {
            !after.contains_key(key)
        } else {
            same_at(after, w, key)
        }
    } by {
        assert(all.contains(key)) by {
            if !plan.source_is_dir {
                assert(all[0] == key);
            } else {
                assert(same_at(cleared, w, key));
            }
        }
        let i = choose|i: int| 0 <= i < all.len() && all[i] == key;
        assert(places[i] == new_place(w, source, destination, key)) by {
            if plan.source_is_dir {
                assert(key.subrange(0, p.len() as int) =~= p);
            }
        }
        assert(cleared.contains_key(all[i]));
        assert(same_at(cleared, w, key));
        assert(same_at(now, cleared, all[i]));
        assert(places[i] != all[i]);
        assert(plan.source_is_dir ==> !p.is_prefix_of(places[i]));
    }
    assert forall|key: Text|
        !belongs_to(w, source, key) && !is_new_place(w, source, destination, key) implies #[trigger] same_at(
        after,
        cleared,
        key,
    ) by {
        if places.contains(key) {
            let i = choose|i: int| 0 <= i < places.len() && places[i] == key;
            let from = all[i];
            assert(all.contains(from));
            assert(cleared.contains_key(all[i]));
            assert(same_at(cleared, w, from));
            assert(belongs_to(w, source, from));
            assert(new_place(w, source, destination, from) == key) by {
                if plan.source_is_dir {
                    assert(from.subrange(0, p.len() as int) =~= p);
                }
            }
        }
        assert(same_at(now, cleared, key));
        if plan.source_is_dir && p.is_prefix_of(key) {
            assert(same_at(cleared, w, key));
        }
    }
}

/// The scene is one of copying from the cleared bucket.
spec fn copying(scene: Scene, w: World, plan: TransferPlanView) -> bool {
    let cleared = world::without_node(w, plan.destination);
    &&& scene.step matches StepView::Ask(action, task)
    &&& match task {
        TaskView::CopyRead { transfer, keys: all, at } => {
            &&& transfer == plan
            &&& at < all.len() < usize::MAX
            &&& lists_source(cleared, plan, all)
            &&& copied(cleared, scene.world, plan, all, at as int)
            &&& action == ActionView::Get { key: all[at as int], range: None }
        },
        TaskView::CopyWrite { transfer, keys: all, at } => {
            &&& transfer == plan
            &&& at < all.len() < usize::MAX
            &&& lists_source(cleared, plan, all)
            &&& copied(cleared, scene.world, plan, all, at as int)
            &&& cleared.contains_key(all[at as int])
            &&& scene.held == Some(cleared[all[at as int]])
            &&& action matches ActionView::PutHeld { key, .. }
            &&& key == targets(plan, all)[at as int]
        },
        _ => scanning(
            scene,
            cleared,
            keys::prefix_of_directory(plan.source),
            None,
            ScanPlanView::Copy(plan),
        ) && plan.source_is_dir,
    }
}

/// The scene is one of removing the source of a move, after everything has been copied.
spec fn leaving(scene: Scene, w: World, plan: TransferPlanView) -> bool {
    let then = AfterView::Reply { status: transfers::transfer_status(plan) };
    &&& plan.move_source
    &&& if plan.source_is_dir {
        exists|now: World, all: Seq<Text>| #[trigger]
            all_copied(w, now, plan, all) && clearing(
                scene,
                now,
                keys::prefix_of_directory(plan.source),
                then,
            )
    } else {
        (exists|all: Seq<Text>| #[trigger] all_copied(w, scene.world, plan, all)) && scene.step
            == StepView::Ask(ActionView::Delete { key: plan.source }, TaskView::Work(then))
    }
}

/// The transfer is over.
spec fn arrived(scene: Scene, w: World, plan: TransferPlanView) -> bool {
    &&& scene.step == StepView::Reply(ReplyView::new(transfers::transfer_status(plan)))
    &&& is_transferred(w, scene.world, plan.source, plan.destination, plan.move_source)
}

proof fn lemma_copy_step(
    scene: Scene,
    w: World,
    plan: TransferPlanView,
    all: Seq<Text>,
    at: usize,
)
    requires
        is_plan_for(plan, w),
        lists_source(world::without_node(w, plan.destination), plan, all),
        at <= all.len() < usize::MAX,
        copied(world::without_node(w, plan.destination), scene.world, plan, all, at as int),
        scene.step == transfers::copy_step(plan, all, at),
    ensures
        copying(scene, w, plan) || leaving(scene, w, plan) || arrived(scene, w, plan),
{
    if at >= all.len() {
        assert(all_copied(w, scene.world, plan, all));
        if !plan.move_source {
            lemma_transferred(w, scene.world, scene.world, plan, all);
        } else if plan.source_is_dir {
            let then = AfterView::Reply { status: transfers::transfer_status(plan) };
            assert(scanning(
                scene,
                scene.world,
                keys::prefix_of_directory(plan.source),
                None,
                ScanPlanView::Delete(then),
            ));
        }
    }
}

proof fn lemma_transfer_step(scene: Scene, w: World, plan: TransferPlanView)
    requires
        is_plan_for(plan, w),
        scene.world == world::without_node(w, plan.destination),
        scene.step == transfers::transfer_step(plan),
    ensures
        copying(scene, w, plan) || leaving(scene, w, plan) || arrived(scene, w, plan),
{
    let cleared = scene.world;
    lemma_cleared(w, plan.source, plan.destination);
    if !plan.source_is_dir {
        let all = seq![plan.source];
        assert(targets(plan, all).take(0) =~= Seq::empty());
        assert(copied(cleared, cleared, plan, all, 0));
        lemma_copy_step(scene, w, plan, all, 0);
    }
}

proof fn lemma_same_below(a: World, b: World, prefix: Text, all: Seq<Text>)
    requires
        forall|key: Text| prefix.is_prefix_of(key) ==> #[trigger] same_at(a, b, key),
    ensures
        lists_below(a, prefix, all) == lists_below(b, prefix, all),
        world::is_countable(a, prefix) == world::is_countable(b, prefix),
{
    assert forall|key: Text| prefix.is_prefix_of(key) implies (#[trigger] a.contains_key(key)
        <==> b.contains_key(key)) by {
        assert(same_at(a, b, key));
    }
    assert(Set::new(|key: Text| a.contains_key(key) && prefix.is_prefix_of(key)) =~= Set::new(
        |key: Text| b.contains_key(key) && prefix.is_prefix_of(key),
    ));
}

#[verifier::rlimit(40)]
proof fn lemma_copying(
    service: ServiceView,
    body: Seq<u8>,
    before: Scene,
    answer: (EventView, nat),
    after: Scene,
    w: World,
    plan: TransferPlanView,
)
    requires
        is_plan_for(plan, w),
        copying(before, w, plan),
        world::follows(service, body, before, answer, after),
    ensures
        after.step is Fail || copying(after, w, plan) || leaving(after, w, plan) || arrived(
            after,
            w,
            plan,
        ),
        after.step is Fail ==> answer.0 is Failed || !survives_clearing(
            w,
            plan.source,
            plan.destination,
        ),
{
    let cleared = world::without_node(w, plan.destination);
    let p = keys::prefix_of_directory(plan.source);
    lemma_cleared(w, plan.source, plan.destination);
    match before.step {
        StepView::Ask(_, TaskView::CopyRead { keys: all, at, .. }) => {
            lemma_source_untouched(cleared, before.world, plan, all, at as int);
            assert(same_at(before.world, cleared, all[at as int]));
            if plan.source_is_dir {
                assert(all.contains(all[at as int]));
            }
        },
        StepView::Ask(_, TaskView::CopyWrite { keys: all, at, .. }) => {
            if !(answer.0 is Failed) {
                lemma_copied_one_more(
                    cleared,
                    before.world,
                    after.world,
                    plan,
                    all,
                    at as int,
                );
                lemma_copy_step(after, w, plan, all, (at + 1) as usize);
            }
        },
        _ => {
            let goal = ScanPlanView::Copy(plan);
            let all = lemma_scan(service, body, before, answer, after, cleared, p, None, goal);
            if !(after.step is Fail) && !scanning(after, cleared, p, None, goal) {
                lemma_same_below(cleared, w, p, all);
                lemma_countable(cleared, p, all);
                assert(targets(plan, all).take(0) =~= Seq::empty());
                assert(copied(cleared, cleared, plan, all, 0));
                lemma_copy_step(after, w, plan, all, 0);
            }
        },
    }
}

#[verifier::rlimit(40)]
proof fn lemma_leaving(
    service: ServiceView,
    body: Seq<u8>,
    before: Scene,
    answer: (EventView, nat),
    after: Scene,
    w: World,
    plan: TransferPlanView,
)
    requires
        is_plan_for(plan, w),
        leaving(before, w, plan),
        world::follows(service, body, before, answer, after),
    ensures
        answer.0 is Failed && after.step is Fail || leaving(after, w, plan) || arrived(
            after,
            w,
            plan,
        ),
{
    let then = AfterView::Reply { status: transfers::transfer_status(plan) };
    let p = keys::prefix_of_directory(plan.source);
    let cleared = world::without_node(w, plan.destination);
    if plan.source_is_dir {
        let (now, all) = choose|now: World, all: Seq<Text>| #[trigger]
            all_copied(w, now, plan, all) && clearing(before, now, p, then);
        lemma_cleared(w, plan.source, plan.destination);
        lemma_same_below(cleared, w, p, all);
        lemma_source_untouched(cleared, now, plan, all, all.len() as int);
        lemma_same_below(now, cleared, p, all);
        lemma_clear(service, body, before, answer, after, now, p, then);
        if after.step == transfers::after_step(then) && after.world == world::without_below(
            now,
            p,
        ) {
            lemma_transferred(w, now, after.world, plan, all);
        }
    } else {
        let all = choose|all: Seq<Text>| #[trigger] all_copied(w, before.world, plan, all);
        if !(answer.0 is Failed) {
            lemma_transferred(w, before.world, after.world, plan, all);
        }
    }
}

/// The scene is one of clearing the destination.
spec fn emptying(scene: Scene, w: World, plan: TransferPlanView) -> bool {
    let then = AfterView::Transfer(plan);
    match world::node_at(w, plan.destination) {
        NodeView::File(_) => scene.world == w && scene.step == StepView::Ask(
            ActionView::Delete { key: plan.destination },
            TaskView::Work(then),
        ),
        NodeView::Dir => clearing(scene, w, keys::prefix_of_directory(plan.destination), then),
        NodeView::Missing => false,
    }
}

proof fn lemma_emptying(
    service: ServiceView,
    body: Seq<u8>,
    before: Scene,
    answer: (EventView, nat),
    after: Scene,
    w: World,
    plan: TransferPlanView,
)
    requires
        is_plan_for(plan, w),
        emptying(before, w, plan),
        world::follows(service, body, before, answer, after),
    ensures
        answer.0 is Failed && after.step is Fail || emptying(after, w, plan) || copying(after, w, plan) || leaving(
            after,
            w,
            plan,
        ) || arrived(after, w, plan),
{
    let then = AfterView::Transfer(plan);
    let q = keys::prefix_of_directory(plan.destination);
    match world::node_at(w, plan.destination) {
        NodeView::File(_) => {
            if !(answer.0 is Failed) {
                lemma_transfer_step(after, w, plan);
            }
        },
        _ => {
            lemma_clear(service, body, before, answer, after, w, q, then);
            if !(after.step is Fail) && !clearing(after, w, q, then) {
                lemma_transfer_step(after, w, plan);
            }
        },
    }
}

/// What a scene of copying or moving has come to so far.
spec fn transferring(
    scene: Scene,
    w: World,
    source: Text,
    destination: Text,
    keep: bool,
    move_source: bool,
) -> bool {
    let plan = plan_of(w, source, destination, move_source);
    let replaces = plan.destination_exists;
    ||| scene.step is Fail
    ||| scene.step matches StepView::Reply(reply) && transfer_outcome(
        w,
        scene.world,
        source,
        destination,
        keep,
        move_source,
        reply,
    )
    ||| exists|stage: ProbeStage| #[trigger]
        storage_laws::probing(
            scene,
            w,
            source,
            stage,
            PlanView::TransferSource { destination, keep, move_source },
        )
    ||| is_ready(w, source, destination) && exists|stage: ProbeStage| #[trigger]
        storage_laws::probing(
            scene,
            w,
            destination,
            stage,
            PlanView::TransferTarget {
                source,
                source_is_dir: plan.source_is_dir,
                keep,
                move_source,
            },
        )
    ||| is_ready(w, source, destination) && replaces && !keep && exists|stage: ProbeStage|
        #[trigger] storage_laws::probing(
            scene,
            w,
            destination,
            stage,
            PlanView::TransferClear(plan),
        )
    ||| is_ready(w, source, destination) && !(replaces && keep) && under_way(scene, w, plan)
}

/// There is something to copy, and it is not copied into itself.
spec fn is_ready(w: World, source: Text, destination: Text) -> bool {
    &&& !(world::node_at(w, source) is Missing)
    &&& world::node_at(w, source) is Dir ==> !keys::prefix_of_directory(source).is_prefix_of(
        destination,
    )
}

/// The two are different places, and a directory is not copied over one that it lies in: that
/// would be cleared first, unless it is to be kept.
pub open spec fn is_transferable(w: World, source: Text, destination: Text, keep: bool) -> bool {
    &&& source.len() > 0
    &&& destination.len() > 0
    &&& source != destination
    &&& !keep && world::node_at(w, source) is Dir ==> !keys::prefix_of_directory(
        destination,
    ).is_prefix_of(source)
}

/// A file that lies in the directory it is copied over is cleared away with it. Every other one
/// survives.
pub open spec fn survives_clearing(w: World, source: Text, destination: Text) -> bool {
    w.contains_key(source) ==> world::without_node(w, destination).contains_key(source)
}

/// What a directory lies in is there too.
proof fn lemma_ancestors_stand(w: World, source: Text, destination: Text)
    requires
        source.len() > 0,
        destination.len() > 0,
        world::node_at(w, source) is Dir,
        keys::prefix_of_directory(destination).is_prefix_of(source),
    ensures
        !(world::node_at(w, destination) is Missing),
{
    let (p, q) = (keys::prefix_of_directory(source), keys::prefix_of_directory(destination));
    let key = choose|key: Text| #[trigger] w.contains_key(key) && p.is_prefix_of(key);
    assert(q =~= source.subrange(0, q.len() as int));
    assert(p =~= key.subrange(0, p.len() as int));
    assert(q =~= key.subrange(0, q.len() as int)) by {
        assert forall|i: int| 0 <= i < q.len() implies q[i] == key[i] by {
            assert(q[i] == source[i]);
            assert(p[i] == key[i]);
        }
    }
    assert(world::has_below(w, q));
}

spec fn plan_of(w: World, source: Text, destination: Text, move_source: bool) -> TransferPlanView {
    TransferPlanView {
        source,
        destination,
        source_is_dir: world::node_at(w, source) is Dir,
        move_source,
        destination_exists: !(world::node_at(w, destination) is Missing),
    }
}

spec fn under_way(scene: Scene, w: World, plan: TransferPlanView) -> bool {
    emptying(scene, w, plan) || copying(scene, w, plan) || leaving(scene, w, plan)
}

#[verifier::rlimit(40)]
proof fn lemma_transferring(
    service: ServiceView,
    body: Seq<u8>,
    before: Scene,
    answer: (EventView, nat),
    after: Scene,
    w: World,
    source: Text,
    destination: Text,
    keep: bool,
    move_source: bool,
)
    requires
        is_transferable(w, source, destination, keep),
        world::is_countable(w, keys::prefix_of_directory(source)),
        world::is_countable(w, keys::prefix_of_directory(destination)),
        transferring(before, w, source, destination, keep, move_source),
        world::follows(service, body, before, answer, after),
    ensures
        transferring(after, w, source, destination, keep, move_source),
        after.step is Fail ==> answer.0 is Failed || !(keep || survives_clearing(
            w,
            source,
            destination,
        )),
{
    let plan = plan_of(w, source, destination, move_source);
    if plan.source_is_dir && keys::prefix_of_directory(destination).is_prefix_of(source) {
        lemma_ancestors_stand(w, source, destination);
    }
    let to_source = PlanView::TransferSource { destination, keep, move_source };
    let to_target = PlanView::TransferTarget {
        source,
        source_is_dir: plan.source_is_dir,
        keep,
        move_source,
    };
    let to_clear = PlanView::TransferClear(plan);
    if exists|stage: ProbeStage| #[trigger]
        storage_laws::probing(before, w, source, stage, to_source) {
        let stage = choose|stage: ProbeStage| #[trigger]
            storage_laws::probing(before, w, source, stage, to_source);
        storage_laws::lemma_probe(
            service,
            body,
            before,
            answer,
            after,
            w,
            source,
            stage,
            to_source,
        );
        if after.step == listing::probe_step(destination, to_target) && after.world == w {
            assert(storage_laws::probing(
                after,
                w,
                destination,
                ProbeStage::Object,
                to_target,
            ));
        }
    } else if exists|stage: ProbeStage| #[trigger]
        storage_laws::probing(before, w, destination, stage, to_target) {
        let stage = choose|stage: ProbeStage| #[trigger]
            storage_laws::probing(before, w, destination, stage, to_target);
        storage_laws::lemma_probe(
            service,
            body,
            before,
            answer,
            after,
            w,
            destination,
            stage,
            to_target,
        );
        let node = world::node_at(w, destination);
        if after.world == w && after.step == listing::at_node_step(destination, node, to_target) {
            if !plan.destination_exists {
                lemma_transfer_step(after, w, plan);
            } else if !keep {
                assert(storage_laws::probing(
                    after,
                    w,
                    destination,
                    ProbeStage::Object,
                    to_clear,
                ));
            }
        }
    } else if exists|stage: ProbeStage| #[trigger]
        storage_laws::probing(before, w, destination, stage, to_clear) {
        let stage = choose|stage: ProbeStage| #[trigger]
            storage_laws::probing(before, w, destination, stage, to_clear);
        storage_laws::lemma_probe(
            service,
            body,
            before,
            answer,
            after,
            w,
            destination,
            stage,
            to_clear,
        );
        let node = world::node_at(w, destination);
        if after.world == w && after.step == listing::at_node_step(destination, node, to_clear) {
            assert(emptying(after, w, plan));
        }
    } else if under_way(before, w, plan) {
        if emptying(before, w, plan) {
            lemma_emptying(service, body, before, answer, after, w, plan);
        } else if copying(before, w, plan) {
            lemma_copying(service, body, before, answer, after, w, plan);
        } else {
            lemma_leaving(service, body, before, answer, after, w, plan);
        }
    }
}

proof fn lemma_transferring_all(
    service: ServiceView,
    body: Seq<u8>,
    scenes: Seq<Scene>,
    answers: Seq<(EventView, nat)>,
    source: Text,
    destination: Text,
    keep: bool,
    move_source: bool,
    n: nat,
)
    requires
        is_transferable(scenes[0].world, source, destination, keep),
        world::is_countable(scenes[0].world, keys::prefix_of_directory(source)),
        world::is_countable(scenes[0].world, keys::prefix_of_directory(destination)),
        world::is_play(service, body, scenes, answers),
        scenes[0].step == transfers::transfer_request_step(
            source,
            Some(destination),
            keep,
            move_source,
        ),
        n <= answers.len(),
    ensures
        transferring(scenes[n as int], scenes[0].world, source, destination, keep, move_source),
        scenes[n as int].step is Fail ==> n > 0 && answers[n - 1].0 is Failed || !(keep
            || survives_clearing(scenes[0].world, source, destination)),
    decreases n,
{
    let w = scenes[0].world;
    if n == 0 {
        let to_source = PlanView::TransferSource { destination, keep, move_source };
        assert(storage_laws::probing(scenes[0], w, source, ProbeStage::Object, to_source));
    } else {
        lemma_transferring_all(
            service,
            body,
            scenes,
            answers,
            source,
            destination,
            keep,
            move_source,
            (n - 1) as nat,
        );
        assert(world::follows(service, body, scenes[n - 1], answers[n - 1], scenes[n as int]));
        lemma_transferring(
            service,
            body,
            scenes[n - 1],
            answers[n - 1],
            scenes[n as int],
            w,
            source,
            destination,
            keep,
            move_source,
        );
    }
}

/// Copying and moving, however the conversation goes: once there is a reply, everything is at its
/// new place, or a reason not to do so was given and nothing has changed. Unless something fails, or
/// the source is cleared away with the destination, it ends in a reply.
pub proof fn law_transfers_arrive(
    service: ServiceView,
    body: Seq<u8>,
    scenes: Seq<Scene>,
    answers: Seq<(EventView, nat)>,
    source: Text,
    destination: Text,
    keep: bool,
    move_source: bool,
)
    requires
        is_transferable(scenes[0].world, source, destination, keep),
        world::is_countable(scenes[0].world, keys::prefix_of_directory(source)),
        world::is_countable(scenes[0].world, keys::prefix_of_directory(destination)),
        world::is_play(service, body, scenes, answers),
        scenes[0].step == transfers::transfer_request_step(
            source,
            Some(destination),
            keep,
            move_source,
        ),
    ensures
        scenes.last().step matches StepView::Reply(reply) ==> transfer_outcome(
            scenes[0].world,
            scenes.last().world,
            source,
            destination,
            keep,
            move_source,
            reply,
        ),
        world::nothing_failed(answers) && (keep || survives_clearing(
            scenes[0].world,
            source,
            destination,
        )) ==> world::ends_in_reply(scenes),
{
    lemma_transferring_all(
        service,
        body,
        scenes,
        answers,
        source,
        destination,
        keep,
        move_source,
        answers.len(),
    );
}

} // verus!
