//! Properties of files and directories for WebDAV clients.

use crate::keys::{self, join_key};
use crate::listing::{self, list_dir, node_type};
use crate::machine::{
    Action, ActionView, Event, EventView, ListPlan, ListPlanView, Plan, PlanView, Step, StepView,
    Task, TaskView,
};
use crate::model::{Node, NodeView, PathItem, PathItemView};
use crate::pages::{self, dav_item_xml, dir_item, file_item};
use crate::reply::{self, dav_multistatus, text_response};
use crate::text::{self, last_part, same_text, Text};
use vstd::prelude::*;

verus! {

/// Answers a request for properties. `depth` says whether those of the entries of a directory are
/// wanted too, which they are unless it is zero.
pub open spec fn propfind_request_step(key: Text, depth: Option<Text>) -> StepView {
    if depth is None || depth == Some("1"@) {
        listing::node_step(key, PlanView::Propfind { deep: true })
    } else if depth == Some("0"@) {
        listing::node_step(key, PlanView::Propfind { deep: false })
    } else {
        StepView::Reply(reply::text_reply(400, "Invalid depth: only 0 and 1 are allowed."@))
    }
}

/// The entry of the directory `key` itself.
pub open spec fn self_entry(key: Text) -> PathItemView {
    pages::dir_entry(text::after_last(key, '/'))
}

/// Collects the entries whose properties are wanted.
pub open spec fn propfind_step(key: Text, node: NodeView, deep: bool) -> StepView {
    match node {
        NodeView::File(object) => dates_step(seq![pages::file_entry(key, object)], seq![key]),
        NodeView::Dir => {
            if deep {
                listing::list_step(key, ListPlanView::Propfind)
            } else {
                dates_step(seq![self_entry(key)], seq![key])
            }
        },
        NodeView::Missing => StepView::Reply(reply::text_reply(404, "Not Found"@)),
    }
}

/// The keys of the entries of the directory `key`.
pub open spec fn child_keys(key: Text, items: Seq<PathItemView>) -> Seq<Text> {
    Seq::new(items.len(), |i: int| keys::joined_key(key, items[i].name))
}

/// The directory `key` itself comes first, then its entries.
pub open spec fn propfind_items_step(key: Text, items: Seq<PathItemView>) -> StepView {
    dates_step(seq![self_entry(key)] + items, seq![key] + child_keys(key, items))
}

/// The times of the entries.
pub open spec fn mtimes(items: Seq<PathItemView>) -> Seq<u64> {
    Seq::new(items.len(), |i: int| items[i].mtime)
}

/// Asks for the times of the entries in writing.
pub open spec fn dates_step(items: Seq<PathItemView>, item_keys: Seq<Text>) -> StepView {
    StepView::Ask(
        ActionView::FormatDates { millis: mtimes(items) },
        TaskView::Propfind { items, keys: item_keys },
    )
}

/// The properties of the first `n` entries.
pub open spec fn properties(
    items: Seq<PathItemView>,
    item_keys: Seq<Text>,
    dates: Seq<Text>,
    n: nat,
) -> Text
    decreases n,
{
    if n == 0 {
        Seq::empty()
    } else {
        properties(items, item_keys, dates, (n - 1) as nat) + pages::dav_item(
            items[n - 1],
            item_keys[n - 1],
            dates[n - 1],
        )
    }
}

/// The reply with the properties of all entries.
pub open spec fn dated_step(
    items: Seq<PathItemView>,
    item_keys: Seq<Text>,
    event: EventView,
) -> StepView {
    match event {
        EventView::Dates(dates) => {
            if dates.len() == items.len() && item_keys.len() == items.len() {
                StepView::Reply(
                    reply::multistatus_reply(properties(items, item_keys, dates, items.len())),
                )
            } else {
                StepView::Fail
            }
        },
        _ => StepView::Fail,
    }
}

/// Answers a request for properties; see `propfind_request_step`.
pub fn handle_propfind(key: String, depth: Option<&str>) -> (r: Step)
    ensures
        r@ == propfind_request_step(key@, depth.deep_view()),
{
    let deep = match depth {
        None => true,
        Some(value) => {
            if same_text(value, "1") {
                true
            } else if same_text(value, "0") {
                false
            } else {
                return Step::Reply(
                    text_response(400, "Invalid depth: only 0 and 1 are allowed."),
                );
            }
        },
    };
    proof {
        reveal_strlit("0");
        reveal_strlit("1");
        assert("0"@[0] != "1"@[0]);
    }
    node_type(key, Plan::Propfind { deep })
}

fn ask_dates(items: Vec<PathItem>, keys: Vec<String>) -> (r: Step)
    ensures
        r@ == dates_step(items.deep_view(), keys.deep_view()),
{
    let mut millis: Vec<u64> = Vec::new();
    let ghost all = items.deep_view();
    let mut i: usize = 0;
    while i < items.len()
        invariant
            i <= items@.len(),
            all == items.deep_view(),
            millis@ == mtimes(all).take(i as int),
        decreases items@.len() - i,
    {
        millis.push(items[i].mtime);
        assert(all[i as int] == items@[i as int]@);
        assert(mtimes(all).take(i + 1) =~= mtimes(all).take(i as int).push(all[i as int].mtime));
        i += 1;
    }
    assert(millis@ =~= mtimes(all));
    Step::Ask(Action::FormatDates { millis }, Task::Propfind { items, keys })
}

fn one_entry(item: PathItem, key: String) -> (r: Step)
    ensures
        r@ == dates_step(seq![item@], seq![key@]),
{
    let mut items: Vec<PathItem> = Vec::new();
    items.push(item);
    let mut keys: Vec<String> = Vec::new();
    keys.push(key);
    assert(items.deep_view() =~= seq![item@]);
    assert(keys.deep_view() =~= seq![key@]);
    ask_dates(items, keys)
}

/// Collects the entries whose properties are wanted.
pub fn handle_propfind_node(key: String, node: Node, deep: bool) -> (r: Step)
    ensures
        r@ == propfind_step(key@, node@, deep),
{
    match node {
        Node::File(object) => {
            let item = file_item(key.as_str(), &object);
            one_entry(item, key)
        },
        Node::Dir => {
            if deep {
                list_dir(key, ListPlan::Propfind)
            } else {
                let item = dir_item(last_part(key.as_str(), '/'));
                one_entry(item, key)
            }
        },
        Node::Missing => Step::Reply(text_response(404, "Not Found")),
    }
}

/// Collects the directory `key` and its entries.
pub fn handle_propfind_items(key: &str, children: Vec<PathItem>) -> (r: Step)
    ensures
        r@ == propfind_items_step(key@, children.deep_view()),
{
    let ghost all = children.deep_view();
    let ghost names = child_keys(key@, all);
    let mut keys: Vec<String> = Vec::new();
    keys.push(key.to_owned());
    assert(keys.deep_view() =~= seq![key@] + names.take(0));
    let mut i: usize = 0;
    while i < children.len()
        invariant
            i <= children@.len(),
            all == children.deep_view(),
            names == child_keys(key@, all),
            keys.deep_view() == seq![key@] + names.take(i as int),
        decreases children@.len() - i,
    {
        let ghost before = keys.deep_view();
        let child = join_key(key, children[i].name.as_str());
        assert(all[i as int] == children@[i as int]@);
        keys.push(child);
        assert(keys.deep_view() =~= before.push(names[i as int]));
        assert(keys.deep_view() =~= seq![key@] + names.take(i + 1));
        i += 1;
    }
    assert(names.take(names.len() as int) =~= names);
    let item = dir_item(last_part(key, '/'));
    let mut items: Vec<PathItem> = Vec::new();
    items.push(item);
    let mut rest = children;
    items.append(&mut rest);
    assert(items.deep_view() =~= seq![self_entry(key@)] + all);
    ask_dates(items, keys)
}

/// The reply with the properties of all entries.
pub fn handle_propfind_resumed(items: Vec<PathItem>, keys: Vec<String>, event: Event) -> (r: Step)
    ensures
        r@ == dated_step(items.deep_view(), keys.deep_view(), event@),
{
    let dates = match event {
        Event::Dates(dates) => dates,
        _ => return Step::Fail,
    };
    if dates.len() != items.len() || keys.len() != items.len() {
        return Step::Fail;
    }
    let ghost (all, all_keys, all_dates) = (
        items.deep_view(),
        keys.deep_view(),
        dates.deep_view(),
    );
    let mut xml = String::new();
    let mut i: usize = 0;
    while i < items.len()
        invariant
            i <= items@.len(),
            items@.len() == keys@.len(),
            items@.len() == dates@.len(),
            all == items.deep_view(),
            all_keys == keys.deep_view(),
            all_dates == dates.deep_view(),
            xml@ == properties(all, all_keys, all_dates, i as nat),
        decreases items@.len() - i,
    {
        assert(all[i as int] == items@[i as int]@);
        assert(all_keys[i as int] == keys@[i as int]@);
        assert(all_dates[i as int] == dates@[i as int]@);
        xml.append(dav_item_xml(&items[i], keys[i].as_str(), dates[i].as_str()).as_str());
        i += 1;
    }
    Step::Reply(dav_multistatus(xml.as_str()))
}

} // verus!
