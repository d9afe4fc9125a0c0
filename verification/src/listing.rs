//! Walking through the bucket: what stands at a key, what a directory holds, and what lies below
//! a prefix.

use crate::codec::{self, to_lowercase};
use crate::dav::{self, handle_propfind_node, handle_propfind_items};
use crate::files::{self, handle_read_node, index_page};
use crate::keys::{self, directory_marker, directory_prefix, DIRECTORY_MARKER};
use crate::machine::{
    Action, ActionView, Event, EventView, ListPlan, ListPlanView, Plan, PlanView, ProbeStage,
    ReadPlan, ReadPlanView, ScanPlan, ScanPlanView, Step, StepView, Task, TaskView,
};
use crate::model::{
    Listing, ListingView, Node, NodeView, ObjectInfo, ObjectInfoView, PathItem, PathItemView,
    PathType,
};
use crate::pages::{self, dir_item, public_share_index};
use crate::share::{self, handle_share_node};
use crate::text::{self, contains_text, same_text, strip_prefix, trim_end_char, Text};
use crate::transfers::{self, copy_keys, delete_keys};
use crate::uploads::{self, handle_put_node, handle_start_node};
use vstd::prelude::*;

verus! {

/// The most objects on one page of a listing.
pub const MAX_LIST_RESULTS: u32 = 1000;

/// The most objects that a search looks at.
pub const MAX_SEARCH_SCAN: u64 = 5000;

// ---------------------------------------------------------------------------
// What stands at a key
// ---------------------------------------------------------------------------

/// Looks for what stands at `key`, which is not the root.
pub open spec fn probe_step(key: Text, plan: PlanView) -> StepView {
    StepView::Ask(
        ActionView::Head { key },
        TaskView::Probe { key, stage: ProbeStage::Object, plan },
    )
}

/// Looks for what stands at `key`. At the root there is always a directory.
pub open spec fn node_step(key: Text, plan: PlanView) -> StepView {
    if key.len() == 0 {
        at_node_step(key, NodeView::Dir, plan)
    } else {
        probe_step(key, plan)
    }
}

/// An object of that name is a file; without one, a marker or anything below makes a directory.
pub open spec fn probed_step(
    key: Text,
    stage: ProbeStage,
    plan: PlanView,
    event: EventView,
) -> StepView {
    match (stage, event) {
        (ProbeStage::Object, EventView::Object(Some(object))) => at_node_step(
            key,
            NodeView::File(object),
            plan,
        ),
        (ProbeStage::Object, EventView::Object(None)) => StepView::Ask(
            ActionView::Head { key: keys::marker_of_directory(key) },
            TaskView::Probe { key, stage: ProbeStage::Marker, plan },
        ),
        (ProbeStage::Marker, EventView::Object(Some(_))) => at_node_step(
            key,
            NodeView::Dir,
            plan,
        ),
        (ProbeStage::Marker, EventView::Object(None)) => StepView::Ask(
            ActionView::List {
                prefix: keys::prefix_of_directory(key),
                delimited: false,
                limit: 1,
                cursor: None,
            },
            TaskView::Probe { key, stage: ProbeStage::Contents, plan },
        ),
        (ProbeStage::Contents, EventView::Page(page)) => at_node_step(
            key,
            if page.objects.len() == 0 && page.prefixes.len() == 0 {
                NodeView::Missing
            } else {
                NodeView::Dir
            },
            plan,
        ),
        _ => StepView::Fail,
    }
}

/// What is done about what stands at `key`.
pub open spec fn at_node_step(key: Text, node: NodeView, plan: PlanView) -> StepView {
    match plan {
        PlanView::Read(read) => files::read_step(key, node, read),
        PlanView::Share { slash, head_only, conditions } => share::share_step(
            key,
            node,
            slash,
            head_only,
            conditions,
        ),
        PlanView::Put { length, content_type } => uploads::put_step(
            key,
            node,
            length,
            content_type,
        ),
        PlanView::Start => uploads::start_step(key, node),
        PlanView::Delete => transfers::delete_node_step(key, node),
        PlanView::Mkcol => transfers::mkcol_step(key, node),
        PlanView::Propfind { deep } => dav::propfind_step(key, node, deep),
        PlanView::TransferSource { destination, keep, move_source } => transfers::source_step(
            key,
            node,
            destination,
            keep,
            move_source,
        ),
        PlanView::TransferTarget { source, source_is_dir, keep, move_source } =>
            transfers::target_step(key, node, source, source_is_dir, keep, move_source),
        PlanView::TransferClear(transfer) => transfers::clear_step(node, transfer),
    }
}

/// Looks for what stands at `key`.
pub fn node_type(key: String, plan: Plan) -> (r: Step)
    ensures
        r@ == node_step(key@, plan@),
{
    if key.as_str().is_empty() {
        at_node(key, Node::Dir, plan)
    } else {
        probe(key, plan)
    }
}

/// Looks for what stands at `key`, which is not the root.
pub fn probe(key: String, plan: Plan) -> (r: Step)
    ensures
        r@ == probe_step(key@, plan@),
{
    Step::Ask(
        Action::Head { key: key.clone() },
        Task::Probe { key, stage: ProbeStage::Object, plan },
    )
}

/// Goes on looking for what stands at `key`.
pub fn node_type_resumed(key: String, stage: ProbeStage, plan: Plan, event: Event) -> (r: Step)
    ensures
        r@ == probed_step(key@, stage, plan@, event@),
{
    match (stage, event) {
        (ProbeStage::Object, Event::Object(Some(object))) => at_node(
            key,
            Node::File(object),
            plan,
        ),
        (ProbeStage::Object, Event::Object(None)) => {
            let marker = directory_marker(key.as_str());
            Step::Ask(
                Action::Head { key: marker },
                Task::Probe { key, stage: ProbeStage::Marker, plan },
            )
        },
        (ProbeStage::Marker, Event::Object(Some(_))) => at_node(key, Node::Dir, plan),
        (ProbeStage::Marker, Event::Object(None)) => {
            let prefix = directory_prefix(key.as_str());
            Step::Ask(
                Action::List { prefix, delimited: false, limit: 1, cursor: None },
                Task::Probe { key, stage: ProbeStage::Contents, plan },
            )
        },
        (ProbeStage::Contents, Event::Page(page)) => {
            let node = if page.objects.len() == 0 && page.prefixes.len() == 0 {
                Node::Missing
            } else {
                Node::Dir
            };
            at_node(key, node, plan)
        },
        _ => Step::Fail,
    }
}

fn at_node(key: String, node: Node, plan: Plan) -> (r: Step)
    ensures
        r@ == at_node_step(key@, node@, plan@),
{
    match plan {
        Plan::Read(read) => handle_read_node(key, node, read),
        Plan::Share { slash, head_only, conditions } => handle_share_node(
            key,
            node,
            slash,
            head_only,
            &conditions,
        ),
        Plan::Put { length, content_type } => handle_put_node(key, node, length, content_type),
        Plan::Start => handle_start_node(key, node),
        Plan::Delete => transfers::handle_delete_node(key, node),
        Plan::Mkcol => transfers::handle_mkcol_node(key.as_str(), node),
        Plan::Propfind { deep } => handle_propfind_node(key, node, deep),
        Plan::TransferSource { destination, keep, move_source } => transfers::handle_source_node(
            key,
            node,
            destination,
            keep,
            move_source,
        ),
        Plan::TransferTarget { source, source_is_dir, keep, move_source } =>
            transfers::handle_target_node(key, node, source, source_is_dir, keep, move_source),
        Plan::TransferClear(transfer) => transfers::handle_clear_node(node, transfer),
    }
}

// ---------------------------------------------------------------------------
// What a directory holds
// ---------------------------------------------------------------------------

/// The subdirectories on a page, by their names below `prefix`.
pub open spec fn dir_entries(prefix: Text, prefixes: Seq<Text>) -> Seq<PathItemView>
    decreases prefixes.len(),
{
    if prefixes.len() == 0 {
        Seq::empty()
    } else {
        let before = dir_entries(prefix, prefixes.drop_last());
        let whole = prefixes.last();
        let name = text::trim_end_of(text::without_prefix(whole, prefix).unwrap_or(whole), '/');
        if name.len() == 0 {
            before
        } else {
            before.push(pages::dir_entry(name))
        }
    }
}

/// The name of an object below `prefix`; empty for an object that does not lie there.
pub open spec fn relative_name(key: Text, prefix: Text) -> Text {
    text::without_prefix(key, prefix).unwrap_or(Seq::empty())
}

/// An object as an entry under the name `name`.
pub open spec fn object_entry(name: Text, object: ObjectInfoView) -> PathItemView {
    PathItemView { path_type: PathType::File, name, mtime: object.uploaded, size: object.size }
}

/// The files on a page, by their names below `prefix`. The marker of the directory is hidden.
pub open spec fn file_entries(prefix: Text, objects: Seq<ObjectInfoView>) -> Seq<PathItemView>
    decreases objects.len(),
{
    if objects.len() == 0 {
        Seq::empty()
    } else {
        let before = file_entries(prefix, objects.drop_last());
        let name = relative_name(objects.last().key, prefix);
        if name.len() == 0 || name == DIRECTORY_MARKER@ {
            before
        } else {
            before.push(object_entry(name, objects.last()))
        }
    }
}

/// The entries of a directory: its subdirectories, then its files.
pub open spec fn entries(prefix: Text, page: ListingView) -> Seq<PathItemView> {
    dir_entries(prefix, page.prefixes) + file_entries(prefix, page.objects)
}

/// Asks what the directory `key` holds.
pub open spec fn list_step(key: Text, plan: ListPlanView) -> StepView {
    StepView::Ask(
        ActionView::List {
            prefix: keys::prefix_of_directory(key),
            delimited: true,
            limit: MAX_LIST_RESULTS,
            cursor: None,
        },
        TaskView::List { key, show: plan },
    )
}

/// What is done about what the directory `key` holds.
pub open spec fn listed_step(key: Text, plan: ListPlanView, event: EventView) -> StepView {
    match event {
        EventView::Page(page) => {
            let items = entries(keys::prefix_of_directory(key), page);
            match plan {
                ListPlanView::Index(read) => files::index_step(key, items, read),
                ListPlanView::Share { head_only } => StepView::Reply(
                    pages::share_page_reply(key, items, head_only),
                ),
                ListPlanView::Propfind => dav::propfind_items_step(key, items),
            }
        },
        _ => StepView::Fail,
    }
}

/// Asks what the directory `key` holds.
pub fn list_dir(key: String, plan: ListPlan) -> (r: Step)
    ensures
        r@ == list_step(key@, plan@),
{
    let prefix = directory_prefix(key.as_str());
    Step::Ask(
        Action::List { prefix, delimited: true, limit: MAX_LIST_RESULTS, cursor: None },
        Task::List { key, show: plan },
    )
}

fn dir_items(prefix: &str, prefixes: &Vec<String>) -> (r: Vec<PathItem>)
    ensures
        r.deep_view() == dir_entries(prefix@, prefixes.deep_view()),
{
    let mut items: Vec<PathItem> = Vec::new();
    let ghost all = prefixes.deep_view();
    assert(items.deep_view() =~= Seq::empty());
    let mut i: usize = 0;
    while i < prefixes.len()
        invariant
            i <= prefixes@.len(),
            all == prefixes.deep_view(),
            items.deep_view() == dir_entries(prefix@, all.take(i as int)),
        decreases prefixes@.len() - i,
    {
        assert(all.take(i + 1).drop_last() =~= all.take(i as int));
        assert(all.take(i + 1).last() == prefixes@[i as int]@);
        let name = match strip_prefix(prefixes[i].as_str(), prefix) {
            Some(rest) => trim_end_char(rest.as_str(), '/'),
            None => trim_end_char(prefixes[i].as_str(), '/'),
        };
        let ghost before = items.deep_view();
        if !name.as_str().is_empty() {
            items.push(dir_item(name));
            assert(items.deep_view() =~= before.push(pages::dir_entry(name@)));
        }
        i += 1;
    }
    assert(all.take(all.len() as int) =~= all);
    items
}

fn relative(key: &str, prefix: &str) -> (r: String)
    ensures
        r@ == relative_name(key@, prefix@),
{
    match strip_prefix(key, prefix) {
        Some(rest) => rest,
        None => String::new(),
    }
}

fn object_item(name: String, object: &ObjectInfo) -> (r: PathItem)
    ensures
        r@ == object_entry(name@, object@),
{
    PathItem { path_type: PathType::File, name, mtime: object.uploaded, size: object.size }
}

/// The entries of a directory; see `entries`.
pub fn directory_items(prefix: &str, page: &Listing) -> (r: Vec<PathItem>)
    ensures
        r.deep_view() == entries(prefix@, page@),
{
    let mut items = dir_items(prefix, &page.prefixes);
    let ghost dirs = items.deep_view();
    let ghost all = page.objects.deep_view();
    let mut i: usize = 0;
    assert(items.deep_view() =~= dirs + file_entries(prefix@, all.take(0)));
    while i < page.objects.len()
        invariant
            i <= page.objects@.len(),
            all == page.objects.deep_view(),
            items.deep_view() == dirs + file_entries(prefix@, all.take(i as int)),
        decreases page.objects@.len() - i,
    {
        assert(all.take(i + 1).drop_last() =~= all.take(i as int));
        assert(all.take(i + 1).last() == page.objects@[i as int]@);
        let object = &page.objects[i];
        let name = relative(object.key.as_str(), prefix);
        let ghost before = items.deep_view();
        if !name.as_str().is_empty() && !same_text(name.as_str(), DIRECTORY_MARKER) {
            items.push(object_item(name, object));
            assert(items.deep_view() =~= before.push(object_entry(name@, object@)));
        }
        assert(items.deep_view() =~= dirs + file_entries(prefix@, all.take(i + 1)));
        i += 1;
    }
    assert(all.take(all.len() as int) =~= all);
    items
}

/// Goes on with what the directory `key` holds.
pub fn list_dir_resumed(key: String, plan: ListPlan, event: Event) -> (r: Step)
    ensures
        r@ == listed_step(key@, plan@, event@),
{
    match event {
        Event::Page(page) => {
            let prefix = directory_prefix(key.as_str());
            let items = directory_items(prefix.as_str(), &page);
            match plan {
                ListPlan::Index(read) => index_page(key.as_str(), items, &read),
                ListPlan::Share { head_only } => Step::Reply(
                    public_share_index(key.as_str(), items, head_only),
                ),
                ListPlan::Propfind => handle_propfind_items(key.as_str(), items),
            }
        },
        _ => Step::Fail,
    }
}

// ---------------------------------------------------------------------------
// What lies below a prefix
// ---------------------------------------------------------------------------

/// The keys of the objects.
pub open spec fn object_keys(objects: Seq<ObjectInfoView>) -> Seq<Text> {
    Seq::new(objects.len(), |i: int| objects[i].key)
}

/// Asks for all keys that start with `prefix`, or for the first `limit` of them.
pub open spec fn scan_step(prefix: Text, limit: Option<u64>, plan: ScanPlanView) -> StepView {
    StepView::Ask(
        ActionView::List { prefix, delimited: false, limit: MAX_LIST_RESULTS, cursor: None },
        TaskView::Scan { prefix, limit, keys: Seq::empty(), goal: plan },
    )
}

/// How many keys end a collection of which `count` are there. The limit is looked at behind each
/// key that is added, so a collection that has reached it ends with the next key.
pub open spec fn enough(count: nat, most: u64) -> nat {
    if count < most {
        most as nat
    } else {
        count + 1
    }
}

/// Adds the keys on a page to those collected so far, until there are enough. As long as there are
/// not and there is another page, that page is asked for.
pub open spec fn scanned_step(
    prefix: Text,
    limit: Option<u64>,
    collected: Seq<Text>,
    plan: ScanPlanView,
    event: EventView,
) -> StepView {
    match event {
        EventView::Page(page) => {
            let all = collected + object_keys(page.objects);
            if limit matches Some(most) && all.len() >= enough(collected.len(), most) {
                collected_step(
                    prefix,
                    all.take(enough(collected.len(), limit->Some_0) as int),
                    plan,
                )
            } else if page.truncated && page.cursor is Some {
                StepView::Ask(
                    ActionView::List {
                        prefix,
                        delimited: false,
                        limit: MAX_LIST_RESULTS,
                        cursor: page.cursor,
                    },
                    TaskView::Scan { prefix, limit, keys: all, goal: plan },
                )
            } else {
                collected_step(prefix, all, plan)
            }
        },
        _ => StepView::Fail,
    }
}

/// What is done about the keys that start with `prefix`.
pub open spec fn collected_step(prefix: Text, all: Seq<Text>, plan: ScanPlanView) -> StepView {
    match plan {
        ScanPlanView::Search { key, needle, read } => search_step(
            key,
            prefix,
            all.filter(found_by(prefix, needle)),
            0,
            Seq::empty(),
            read,
        ),
        ScanPlanView::Delete(after) => transfers::delete_step(all, 0, after),
        ScanPlanView::Copy(transfer) => transfers::copy_step(transfer, all, 0),
    }
}

/// Asks for the first `limit` keys that start with `prefix`.
pub fn list_all_keys_limited(prefix: String, limit: Option<u64>, plan: ScanPlan) -> (r: Step)
    ensures
        r@ == scan_step(prefix@, limit, plan@),
{
    let keys: Vec<String> = Vec::new();
    assert(keys.deep_view() =~= Seq::empty());
    Step::Ask(
        Action::List {
            prefix: prefix.clone(),
            delimited: false,
            limit: MAX_LIST_RESULTS,
            cursor: None,
        },
        Task::Scan { prefix, limit, keys, goal: plan },
    )
}

/// Asks for all keys that start with `prefix`.
pub fn list_all_keys(prefix: String, plan: ScanPlan) -> (r: Step)
    ensures
        r@ == scan_step(prefix@, None, plan@),
{
    list_all_keys_limited(prefix, None, plan)
}

/// Goes on collecting the keys that start with `prefix`.
pub fn list_all_keys_resumed(
    prefix: String,
    limit: Option<u64>,
    collected: Vec<String>,
    plan: ScanPlan,
    event: Event,
) -> (r: Step)
    ensures
        r@ == scanned_step(prefix@, limit, collected.deep_view(), plan@, event@),
{
    let page = match event {
        Event::Page(page) => page,
        _ => return Step::Fail,
    };
    let ghost before = collected.deep_view();
    let ghost added = object_keys(page@.objects);
    let ghost all = before + added;
    let mut keys = collected;
    let mut i: usize = 0;
    assert(all.take(before.len() as int) =~= before);
    while i < page.objects.len()
        invariant
            i <= page.objects@.len(),
            page@ == event->Page_0@,
            event is Page,
            added == object_keys(page.objects.deep_view()),
            before == collected.deep_view(),
            all == before + added,
            keys.deep_view() == all.take(before.len() + i),
            keys@.len() == before.len() + i,
            limit matches Some(most) ==> before.len() + i < enough(before.len(), most),
        decreases page.objects@.len() - i,
    {
        let ghost old_keys = keys.deep_view();
        keys.push(page.objects[i].key.clone());
        assert(keys.deep_view() =~= old_keys.push(added[i as int]));
        assert(all.take(before.len() + i + 1) =~= all.take(before.len() + i).push(added[i as int]));
        i += 1;
        if reached(&keys, limit) {
            assert(keys.deep_view() =~= all.take(enough(before.len(), limit->Some_0) as int));
            return keys_collected(prefix, keys, plan);
        }
    }
    assert(keys.deep_view() =~= all);
    if page.truncated {
        match page.cursor {
            Some(cursor) => {
                return Step::Ask(
                    Action::List {
                        prefix: prefix.clone(),
                        delimited: false,
                        limit: MAX_LIST_RESULTS,
                        cursor: Some(cursor),
                    },
                    Task::Scan { prefix, limit, keys, goal: plan },
                );
            },
            None => {},
        }
    }
    keys_collected(prefix, keys, plan)
}

fn reached(keys: &Vec<String>, limit: Option<u64>) -> (r: bool)
    ensures
        r == (limit matches Some(most) && keys@.len() >= most),
{
    match limit {
        Some(most) => keys.len() as u64 >= most,
        None => false,
    }
}

fn keys_collected(prefix: String, keys: Vec<String>, plan: ScanPlan) -> (r: Step)
    ensures
        r@ == collected_step(prefix@, keys.deep_view(), plan@),
{
    match plan {
        ScanPlan::Search { key, needle, read } => {
            let matching = matching_keys(prefix.as_str(), needle.as_str(), &keys);
            let found: Vec<PathItem> = Vec::new();
            assert(found.deep_view() =~= Seq::empty());
            search_next(key, prefix, matching, 0, found, read)
        },
        ScanPlan::Delete(after) => delete_keys(keys, 0, after),
        ScanPlan::Copy(transfer) => copy_keys(transfer, keys, 0),
    }
}

// ---------------------------------------------------------------------------
// Searching
// ---------------------------------------------------------------------------

/// The name of a marker, at any depth.
pub open spec fn is_marker_name(name: Text) -> bool {
    text::after_last(name, '/') == DIRECTORY_MARKER@
}

/// Says of a key whether a search below `prefix` finds it: its name below the prefix holds the
/// needle, in whatever case, and is not that of a marker. The needle is in lower case.
pub open spec fn found_by(prefix: Text, needle: Text) -> spec_fn(Text) -> bool {
    |key: Text|
        {
            let name = relative_name(key, prefix);
            !is_marker_name(name) && text::occurs_in(codec::unicode_lowercase(name), needle)
        }
}

/// Asks for what lies below the directory `key` and has `sought` in its name. Nothing in
/// particular is what the directory itself holds.
pub open spec fn search_dir_step(key: Text, sought: Text, read: ReadPlanView) -> StepView {
    if sought.len() == 0 {
        list_step(key, ListPlanView::Index(read))
    } else {
        scan_step(
            keys::prefix_of_directory(key),
            Some(MAX_SEARCH_SCAN),
            ScanPlanView::Search { key, needle: codec::unicode_lowercase(sought), read },
        )
    }
}

/// Looks at the next of the keys, until none is left or enough has been found.
pub open spec fn search_step(
    key: Text,
    prefix: Text,
    matching: Seq<Text>,
    at: usize,
    found: Seq<PathItemView>,
    read: ReadPlanView,
) -> StepView {
    if at < matching.len() && found.len() < MAX_LIST_RESULTS {
        StepView::Ask(
            ActionView::Head { key: matching[at as int] },
            TaskView::Search { key, prefix, keys: matching, at, found, read },
        )
    } else {
        files::index_step(key, found, read)
    }
}

/// An object that is still there is an entry of the result.
pub open spec fn searched_step(
    key: Text,
    prefix: Text,
    matching: Seq<Text>,
    at: usize,
    found: Seq<PathItemView>,
    read: ReadPlanView,
    event: EventView,
) -> StepView {
    match event {
        EventView::Object(object) => {
            if at < matching.len() {
                let more = match object {
                    Some(info) => found.push(
                        object_entry(relative_name(matching[at as int], prefix), info),
                    ),
                    None => found,
                };
                search_step(key, prefix, matching, (at + 1) as usize, more, read)
            } else {
                StepView::Fail
            }
        },
        _ => StepView::Fail,
    }
}

/// Asks for what lies below the directory `key` and has `sought` in its name.
pub fn search_dir(key: String, sought: &str, read: ReadPlan) -> (r: Step)
    ensures
        r@ == search_dir_step(key@, sought@, read@),
{
    if sought.is_empty() {
        return list_dir(key, ListPlan::Index(read));
    }
    let prefix = directory_prefix(key.as_str());
    let needle = to_lowercase(sought);
    list_all_keys_limited(prefix, Some(MAX_SEARCH_SCAN), ScanPlan::Search { key, needle, read })
}

/// Whether a search for `needle` finds the name whose lower case is `lowered`.
pub fn name_matches(name: &str, lowered: &str, needle: &str) -> (r: bool)
    ensures
        r == (!is_marker_name(name@) && text::occurs_in(lowered@, needle@)),
{
    !same_text(text::last_part(name, '/').as_str(), DIRECTORY_MARKER) && contains_text(
        lowered,
        needle,
    )
}

fn matching_keys(prefix: &str, needle: &str, keys: &Vec<String>) -> (r: Vec<String>)
    ensures
        r.deep_view() == keys.deep_view().filter(found_by(prefix@, needle@)),
{
    reveal(Seq::filter);
    let mut matching: Vec<String> = Vec::new();
    let ghost all = keys.deep_view();
    let ghost pred = found_by(prefix@, needle@);
    assert(matching.deep_view() =~= all.take(0).filter(pred));
    let mut i: usize = 0;
    while i < keys.len()
        invariant
            i <= keys@.len(),
            all == keys.deep_view(),
            pred == found_by(prefix@, needle@),
            matching.deep_view() == all.take(i as int).filter(pred),
        decreases keys@.len() - i,
    {
        reveal(Seq::filter);
        assert(all.take(i + 1).drop_last() =~= all.take(i as int));
        assert(all.take(i + 1).last() == keys@[i as int]@);
        let name = relative(keys[i].as_str(), prefix);
        let lowered = to_lowercase(name.as_str());
        let ghost before = matching.deep_view();
        if name_matches(name.as_str(), lowered.as_str(), needle) {
            assert(pred(keys@[i as int]@));
            matching.push(keys[i].clone());
            assert(matching.deep_view() =~= before.push(keys@[i as int]@));
        } else {
            assert(!pred(keys@[i as int]@));
        }
        i += 1;
    }
    assert(all.take(all.len() as int) =~= all);
    matching
}

fn search_next(
    key: String,
    prefix: String,
    matching: Vec<String>,
    at: usize,
    found: Vec<PathItem>,
    read: ReadPlan,
) -> (r: Step)
    ensures
        r@ == search_step(
            key@,
            prefix@,
            matching.deep_view(),
            at,
            found.deep_view(),
            read@,
        ),
{
    if at < matching.len() && (found.len() as u64) < MAX_LIST_RESULTS as u64 {
        Step::Ask(
            Action::Head { key: matching[at].clone() },
            Task::Search { key, prefix, keys: matching, at, found, read },
        )
    } else {
        index_page(key.as_str(), found, &read)
    }
}

/// Goes on with a search.
pub fn search_dir_resumed(
    key: String,
    prefix: String,
    matching: Vec<String>,
    at: usize,
    found: Vec<PathItem>,
    read: ReadPlan,
    event: Event,
) -> (r: Step)
    ensures
        r@ == searched_step(
            key@,
            prefix@,
            matching.deep_view(),
            at,
            found.deep_view(),
            read@,
            event@,
        ),
{
    let object = match event {
        Event::Object(object) => object,
        _ => return Step::Fail,
    };
    if at >= matching.len() {
        return Step::Fail;
    }
    let mut more = found;
    match object {
        Some(info) => {
            let name = relative(matching[at].as_str(), prefix.as_str());
            let ghost before = more.deep_view();
            more.push(object_item(name, &info));
            assert(more.deep_view() =~= before.push(object_entry(name@, info@)));
        },
        None => {},
    }
    search_next(key, prefix, matching, at + 1, more, read)
}

} // verus!
