//! What WebDAV clients are told of files and directories.

use crate::dav;
use crate::escape;
use crate::key_laws;
use crate::keys;
use crate::listing;
use crate::listing_laws;
use crate::machine::{ActionView, EventView, ListPlanView, PlanView, ServiceView, StepView, TaskView};
use crate::model::{ListingView, NodeView, PathItemView, PathType};
use crate::numbers;
use crate::pages;
use crate::reply::{BodyView, ReplyView};
use crate::storage_laws;
use crate::text::{self, Text};
use crate::world::{self, Scene, World};
use vstd::prelude::*;
use vstd::utf8::*;

verus! {

// ---------------------------------------------------------------------------
// What is said of one entry
// ---------------------------------------------------------------------------

/// The piece stands somewhere in the text.
pub open spec fn holds(whole: Text, piece: Text) -> bool {
    exists|before: Text, behind: Text| whole == #[trigger] (before + piece + behind)
}

/// The response is about the entry: it begins with the link to its key, and says its name, its time
/// if it has one, and for a file its length; of a directory it says that it is a collection.
pub open spec fn describes(response: Text, item: PathItemView, key: Text, date: Text) -> bool {
    let dir = item.path_type == PathType::Dir;
    &&& ("<D:response><D:href>"@ + escape::xml_escaped(keys::href_of(key, dir))
        + "</D:href>"@).is_prefix_of(response)
    &&& holds(
        response,
        "<D:displayname>"@ + escape::xml_escaped(text::after_last(item.name, '/'))
            + "</D:displayname>"@,
    )
    &&& item.mtime > 0 ==> holds(
        response,
        "<D:getlastmodified>"@ + date + "</D:getlastmodified>"@,
    )
    &&& item.mtime == 0 ==> holds(response, "<D:getlastmodified></D:getlastmodified>"@)
    &&& !dir ==> holds(
        response,
        "<D:getcontentlength>"@ + numbers::decimal(item.size as nat) + "</D:getcontentlength>"@,
    )
    &&& !dir ==> holds(response, "<D:resourcetype></D:resourcetype>"@)
    &&& dir ==> holds(response, "<D:resourcetype><D:collection/></D:resourcetype>"@)
    &&& holds(response, "<D:status>HTTP/1.1 200 OK</D:status>"@)
}

/// Everything that is said of an entry is there; see `describes`.
pub proof fn law_responses_describe_entries(item: PathItemView, key: Text, date: Text)
    ensures
        describes(pages::dav_item(item, key, date), item, key, date),
{
    let dir = item.path_type == PathType::Dir;
    let response = pages::dav_item(item, key, date);
    let href = escape::xml_escaped(keys::href_of(key, dir));
    let name = escape::xml_escaped(text::after_last(item.name, '/'));
    let (length, modified, kind) = (
        pages::dav_length(item),
        pages::dav_modified(item, date),
        pages::dav_type(item),
    );
    let a = "<D:response><D:href>"@ + href;
    reveal_strlit("</D:href><D:propstat><D:prop><D:displayname>");
    reveal_strlit("</D:href>");
    reveal_strlit("<D:propstat><D:prop>");
    reveal_strlit("<D:displayname>");
    assert("</D:href><D:propstat><D:prop><D:displayname>"@ =~= "</D:href>"@ + "<D:propstat><D:prop>"@
        + "<D:displayname>"@);
    reveal_strlit("</D:prop><D:status>HTTP/1.1 200 OK</D:status></D:propstat></D:response>");
    reveal_strlit("</D:prop>");
    reveal_strlit("<D:status>HTTP/1.1 200 OK</D:status>");
    reveal_strlit("</D:propstat></D:response>");
    assert("</D:prop><D:status>HTTP/1.1 200 OK</D:status></D:propstat></D:response>"@
        =~= "</D:prop>"@ + "<D:status>HTTP/1.1 200 OK</D:status>"@
        + "</D:propstat></D:response>"@);
    reveal_strlit("<D:getlastmodified></D:getlastmodified>");
    reveal_strlit("<D:getlastmodified>");
    reveal_strlit("</D:getlastmodified>");
    let first = a + "</D:href>"@;
    let named = "<D:displayname>"@ + name + "</D:displayname>"@;
    let timed = "<D:getlastmodified>"@ + modified + "</D:getlastmodified>"@;
    let status = "<D:status>HTTP/1.1 200 OK</D:status>"@;
    let middle = "<D:propstat><D:prop>"@;
    let end = "</D:propstat></D:response>"@;
    let p = "</D:prop>"@;
    lemma_response(response, a, name, length, modified, kind);
    assert(response =~= first + (middle + named + length + timed + kind + p + status + end));
    assert(response.subrange(0, first.len() as int) =~= first);
    assert(response =~= (first + middle) + named + (length + timed + kind + p + status + end));
    assert(holds(response, named));
    assert(response =~= (first + middle + named) + length + (timed + kind + p + status + end));
    assert(holds(response, length));
    assert(response =~= (first + middle + named + length) + timed + (kind + p + status + end));
    assert(holds(response, timed));
    assert(item.mtime == 0 ==> timed =~= "<D:getlastmodified></D:getlastmodified>"@);
    assert(response =~= (first + middle + named + length + timed) + kind + (p + status + end));
    assert(holds(response, kind));
    assert(response =~= (first + middle + named + length + timed + kind + p) + status + end);
    assert(holds(response, status));
}

proof fn lemma_response(
    response: Text,
    a: Text,
    name: Text,
    length: Text,
    modified: Text,
    kind: Text,
)
    requires
        response == a + "</D:href><D:propstat><D:prop><D:displayname>"@ + name + "</D:displayname>"@
            + length + "<D:getlastmodified>"@ + modified + "</D:getlastmodified>"@ + kind
            + "</D:prop><D:status>HTTP/1.1 200 OK</D:status></D:propstat></D:response>"@,
        "</D:href><D:propstat><D:prop><D:displayname>"@ == "</D:href>"@ + "<D:propstat><D:prop>"@
            + "<D:displayname>"@,
        "</D:prop><D:status>HTTP/1.1 200 OK</D:status></D:propstat></D:response>"@ == "</D:prop>"@
            + "<D:status>HTTP/1.1 200 OK</D:status>"@ + "</D:propstat></D:response>"@,
    ensures
        response == (a + "</D:href>"@) + ("<D:propstat><D:prop>"@ + ("<D:displayname>"@ + name
            + "</D:displayname>"@) + length + ("<D:getlastmodified>"@ + modified
            + "</D:getlastmodified>"@) + kind + "</D:prop>"@
            + "<D:status>HTTP/1.1 200 OK</D:status>"@ + "</D:propstat></D:response>"@),
{
    assert(response =~= (a + "</D:href>"@) + ("<D:propstat><D:prop>"@ + ("<D:displayname>"@ + name
        + "</D:displayname>"@) + length + ("<D:getlastmodified>"@ + modified
        + "</D:getlastmodified>"@) + kind + "</D:prop>"@
        + "<D:status>HTTP/1.1 200 OK</D:status>"@ + "</D:propstat></D:response>"@));
}

// ---------------------------------------------------------------------------
// What is said of a file or a directory
// ---------------------------------------------------------------------------

/// The texts one after another.
pub open spec fn one_after_another(texts: Seq<Text>) -> Text
    decreases texts.len(),
{
    if texts.len() == 0 {
        Seq::empty()
    } else {
        one_after_another(texts.drop_last()) + texts.last()
    }
}

/// The reply is a multi-status document of exactly these responses.
pub open spec fn is_multistatus(reply: ReplyView, responses: Seq<Text>) -> bool {
    &&& reply.status == 207
    &&& reply.headers == seq![("content-type"@, "application/xml; charset=utf-8"@)]
    &&& reply.body == BodyView::Bytes(
        encode_utf8(
            "<?xml version=\"1.0\" encoding=\"utf-8\" ?>\n<D:multistatus xmlns:D=\"DAV:\">"@
                + one_after_another(responses) + "</D:multistatus>"@,
        ),
    )
}

/// There is one response for each entry, in their order.
pub open spec fn describe_all(
    responses: Seq<Text>,
    items: Seq<PathItemView>,
    item_keys: Seq<Text>,
    dates: Seq<Text>,
) -> bool {
    &&& responses.len() == items.len()
    &&& forall|i: int|
        0 <= i < items.len() ==> describes(
            #[trigger] responses[i],
            items[i],
            item_keys[i],
            dates[i],
        )
}

/// The entries are what a client wants to know of: the file; or the directory itself, and behind it,
/// if they are wanted too, its entries. Each goes with its key.
pub open spec fn are_wanted(
    world: World,
    key: Text,
    deep: bool,
    items: Seq<PathItemView>,
    item_keys: Seq<Text>,
) -> bool {
    let name = text::after_last(key, '/');
    &&& items.len() == item_keys.len()
    &&& items.len() > 0
    &&& item_keys[0] == key
    &&& match world::node_at(world, key) {
        NodeView::File(info) => items == seq![
            PathItemView {
                path_type: PathType::File,
                name,
                mtime: info.uploaded,
                size: info.size,
            },
        ],
        NodeView::Dir => {
            &&& items[0] == PathItemView { path_type: PathType::Dir, name, mtime: 0, size: 0 }
            &&& !deep ==> items.len() == 1
            &&& deep ==> exists|whole: bool| #[trigger]
                is_listed(world, keys::prefix_of_directory(key), items, whole)
            &&& forall|i: int|
                1 <= i < items.len() ==> #[trigger] item_keys[i] == keys::prefix_of_directory(key)
                    + items[i].name
        },
        NodeView::Missing => false,
    }
}

/// Behind the directory itself come its entries; `whole` says that all of them do.
pub open spec fn is_listed(
    world: World,
    prefix: Text,
    items: Seq<PathItemView>,
    whole: bool,
) -> bool {
    listing_laws::shows_directory(world, prefix, items.skip(1), whole)
}

/// What a request for properties comes to: one response for each entry that is wanted, or the
/// message that nothing stands there.
pub open spec fn propfind_outcome(world: World, key: Text, deep: bool, reply: ReplyView) -> bool {
    if world::node_at(world, key) is Missing {
        reply.status == 404
    } else {
        exists|
            responses: Seq<Text>,
            items: Seq<PathItemView>,
            item_keys: Seq<Text>,
            dates: Seq<Text>,
        | #[trigger]
            describe_all(responses, items, item_keys, dates) && are_wanted(
                world,
                key,
                deep,
                items,
                item_keys,
            ) && is_multistatus(reply, responses)
    }
}

spec fn finding(scene: Scene, w: World, key: Text, deep: bool) -> bool {
    let plan = PlanView::Propfind { deep };
    match scene.step {
        StepView::Ask(action, task) => match task {
            TaskView::Probe { stage, .. } => storage_laws::probing(scene, w, key, stage, plan),
            TaskView::List { .. } => {
                &&& scene.world == w
                &&& deep
                &&& world::node_at(w, key) is Dir
                &&& scene.step == listing::list_step(key, ListPlanView::Propfind)
            },
            TaskView::Propfind { items, keys: item_keys } => {
                &&& scene.world == w
                &&& are_wanted(w, key, deep, items, item_keys)
                &&& scene.step == dav::dates_step(items, item_keys)
            },
            _ => false,
        },
        StepView::Reply(reply) => scene.world == w && propfind_outcome(w, key, deep, reply),
        StepView::Fail => true,
        StepView::Forward { .. } => false,
    }
}

proof fn lemma_wanted(scene: Scene, w: World, key: Text, deep: bool)
    requires
        scene.world == w,
        scene.step == dav::propfind_step(key, world::node_at(w, key), deep),
    ensures
        finding(scene, w, key, deep),
        !(scene.step is Fail),
{
    let name = text::after_last(key, '/');
    match world::node_at(w, key) {
        NodeView::File(info) => {
            assert(are_wanted(w, key, deep, seq![pages::file_entry(key, info)], seq![key]));
        },
        NodeView::Dir => {
            if !deep {
                assert(are_wanted(w, key, deep, seq![dav::self_entry(key)], seq![key]));
            }
        },
        NodeView::Missing => {},
    }
}

proof fn lemma_listed(w: World, key: Text, page: ListingView)
    requires
        world::node_at(w, key) is Dir,
        world::is_directory_page(w, keys::prefix_of_directory(key), page),
    ensures
        ({
            let entries = listing::entries(keys::prefix_of_directory(key), page);
            are_wanted(
                w,
                key,
                true,
                seq![dav::self_entry(key)] + entries,
                seq![key] + dav::child_keys(key, entries),
            )
        }),
{
    let prefix = keys::prefix_of_directory(key);
    let entries = listing::entries(prefix, page);
    let items = seq![dav::self_entry(key)] + entries;
    let item_keys = seq![key] + dav::child_keys(key, entries);
    listing_laws::law_listings_show_the_directory(w, prefix, page);
    assert(items.skip(1) =~= entries);
    assert(is_listed(w, prefix, items, !page.truncated));
    assert forall|i: int| 1 <= i < items.len() implies #[trigger] item_keys[i] == prefix
        + items[i].name by {
        key_laws::law_directories_are_prefixes(key, items[i].name);
    }
}

proof fn lemma_properties(
    items: Seq<PathItemView>,
    item_keys: Seq<Text>,
    dates: Seq<Text>,
    n: nat,
)
    requires
        n <= items.len(),
    ensures
        dav::properties(items, item_keys, dates, n) == one_after_another(
            Seq::new(n, |i: int| pages::dav_item(items[i], item_keys[i], dates[i])),
        ),
    decreases n,
{
    let all = Seq::new(n, |i: int| pages::dav_item(items[i], item_keys[i], dates[i]));
    if n > 0 {
        let before = (n - 1) as nat;
        lemma_properties(items, item_keys, dates, before);
        assert(all.drop_last() =~= Seq::new(
            before,
            |i: int| pages::dav_item(items[i], item_keys[i], dates[i]),
        ));
    }
}

proof fn lemma_finding(
    service: ServiceView,
    body: Seq<u8>,
    before: Scene,
    answer: (EventView, nat),
    after: Scene,
    w: World,
    key: Text,
    deep: bool,
)
    requires
        finding(before, w, key, deep),
        world::follows(service, body, before, answer, after),
    ensures
        finding(after, w, key, deep),
        after.step is Fail ==> answer.0 is Failed,
{
    match before.step {
        StepView::Ask(_, TaskView::Probe { stage, .. }) => {
            storage_laws::lemma_probe(
                service,
                body,
                before,
                answer,
                after,
                w,
                key,
                stage,
                PlanView::Propfind { deep },
            );
            if after.step == listing::at_node_step(
                key,
                world::node_at(w, key),
                PlanView::Propfind { deep },
            ) && after.world == w {
                lemma_wanted(after, w, key, deep);
            }
        },
        StepView::Ask(_, TaskView::List { .. }) => {
            match answer.0 {
                EventView::Page(page) => {
                    lemma_listed(w, key, page);
                },
                _ => {},
            }
        },
        StepView::Ask(_, TaskView::Propfind { items, keys: item_keys }) => {
            match answer.0 {
                EventView::Dates(dates) => {
                    let responses = Seq::new(
                        items.len(),
                        |i: int| pages::dav_item(items[i], item_keys[i], dates[i]),
                    );
                    lemma_properties(items, item_keys, dates, items.len());
                    assert forall|i: int| 0 <= i < items.len() implies describes(
                        #[trigger] responses[i],
                        items[i],
                        item_keys[i],
                        dates[i],
                    ) by {
                        law_responses_describe_entries(items[i], item_keys[i], dates[i]);
                    }
                    assert(describe_all(responses, items, item_keys, dates));
                    match after.step {
                        StepView::Reply(reply) => {
                            assert(reply.headers =~= seq![
                                ("content-type"@, "application/xml; charset=utf-8"@),
                            ]);
                            assert(is_multistatus(reply, responses));
                        },
                        _ => {},
                    }
                },
                _ => {},
            }
        },
        _ => {},
    }
}

proof fn lemma_finding_all(
    service: ServiceView,
    body: Seq<u8>,
    scenes: Seq<Scene>,
    answers: Seq<(EventView, nat)>,
    key: Text,
    deep: bool,
    n: nat,
)
    requires
        world::is_play(service, body, scenes, answers),
        scenes[0].step == listing::node_step(key, PlanView::Propfind { deep }),
        n <= answers.len(),
    ensures
        finding(scenes[n as int], scenes[0].world, key, deep),
        scenes[n as int].step is Fail ==> n > 0 && answers[n - 1].0 is Failed,
    decreases n,
{
    if n > 0 {
        lemma_finding_all(service, body, scenes, answers, key, deep, (n - 1) as nat);
        assert(world::follows(service, body, scenes[n - 1], answers[n - 1], scenes[n as int]));
        lemma_finding(
            service,
            body,
            scenes[n - 1],
            answers[n - 1],
            scenes[n as int],
            scenes[0].world,
            key,
            deep,
        );
    } else if key.len() == 0 {
        lemma_wanted(scenes[0], scenes[0].world, key, deep);
    }
}

/// Properties, however the conversation goes: once there is a reply, it has one response for the
/// file; or one for the directory and, at depth one or without a depth, one for each of its entries,
/// each with its own link. At depth zero the directory is alone. The bucket is as it was. Unless
/// something fails, it ends in a reply.
pub proof fn law_properties_are_found(
    service: ServiceView,
    body: Seq<u8>,
    scenes: Seq<Scene>,
    answers: Seq<(EventView, nat)>,
    key: Text,
    depth: Option<Text>,
)
    requires
        depth is None || depth == Some("1"@) || depth == Some("0"@),
        world::is_play(service, body, scenes, answers),
        scenes[0].step == dav::propfind_request_step(key, depth),
    ensures
        scenes.last().step matches StepView::Reply(reply) ==> {
            &&& propfind_outcome(scenes[0].world, key, depth != Some("0"@), reply)
            &&& scenes.last().world == scenes[0].world
        },
        world::nothing_failed(answers) ==> world::ends_in_reply(scenes),
{
    reveal_strlit("0");
    reveal_strlit("1");
    assert("0"@[0] != "1"@[0]);
    lemma_finding_all(
        service,
        body,
        scenes,
        answers,
        key,
        depth != Some("0"@),
        answers.len(),
    );
}

/// Any other depth is refused.
pub proof fn law_other_depths_are_refused(key: Text, depth: Text)
    requires
        depth != "0"@,
        depth != "1"@,
    ensures
        dav::propfind_request_step(key, Some(depth)) matches StepView::Reply(reply) && reply.status
            == 400,
{
}

/// The times of the entries are asked for in their order, and each is said of its own entry.
pub proof fn law_times_go_with_their_entries(items: Seq<PathItemView>, item_keys: Seq<Text>)
    ensures
        dav::dates_step(items, item_keys) == StepView::Ask(
            ActionView::FormatDates {
                millis: Seq::new(items.len(), |i: int| items[i].mtime),
            },
            TaskView::Propfind { items, keys: item_keys },
        ),
{
}

} // verus!
