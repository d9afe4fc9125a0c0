//! Removing, copying and moving files and directories, and making directories.

use crate::keys::{self, destination_key, directory_marker, directory_prefix};
use crate::listing::{self, list_all_keys, node_type, probe, MAX_LIST_RESULTS};
use crate::machine::{
    Action, ActionView, After, AfterView, Event, EventView, Plan, PlanView, ScanPlan, ScanPlanView,
    Step, StepView, Task, TaskView, TransferPlan, TransferPlanView,
};
use crate::model::{Node, NodeView};
use crate::reply::{self, text_response, Reply, ReplyView};
use crate::text::{self, eq_ignore_ascii_case, same_text, starts_with, strip_prefix, Text};
use vstd::prelude::*;

verus! {

/// What follows once something has been removed or stored.
pub open spec fn after_step(after: AfterView) -> StepView {
    match after {
        AfterView::Reply { status } => StepView::Reply(ReplyView::new(status)),
        AfterView::Transfer(plan) => transfer_step(plan),
    }
}

/// Something has been done; on to what follows.
pub open spec fn done_step(after: AfterView, event: EventView) -> StepView {
    match event {
        EventView::Done => after_step(after),
        _ => StepView::Fail,
    }
}

fn follow(after: After) -> (r: Step)
    ensures
        r@ == after_step(after@),
{
    match after {
        After::Reply { status } => Step::Reply(Reply::new(status)),
        After::Transfer(plan) => transfer(plan),
    }
}

/// Goes on once something has been done.
pub fn work_resumed(after: After, event: Event) -> (r: Step)
    ensures
        r@ == done_step(after@, event@),
{
    match event {
        Event::Done => follow(after),
        _ => Step::Fail,
    }
}

// ---------------------------------------------------------------------------
// Removing
// ---------------------------------------------------------------------------

/// Removes what stands at `key`.
pub open spec fn delete_request_step(key: Text) -> StepView {
    if key.len() == 0 {
        StepView::Reply(reply::text_reply(403, "Cannot delete the root collection"@))
    } else {
        listing::node_step(key, PlanView::Delete)
    }
}

/// Removes what stands at `key`: the file, or everything below the directory.
pub open spec fn remove_step(key: Text, is_dir: bool, after: AfterView) -> StepView {
    if is_dir {
        listing::scan_step(keys::prefix_of_directory(key), None, ScanPlanView::Delete(after))
    } else {
        StepView::Ask(ActionView::Delete { key }, TaskView::Work(after))
    }
}

/// Removes what stands at `key`, if anything does.
pub open spec fn delete_node_step(key: Text, node: NodeView) -> StepView {
    match node {
        NodeView::File(_) => remove_step(key, false, AfterView::Reply { status: 204 }),
        NodeView::Dir => remove_step(key, true, AfterView::Reply { status: 204 }),
        NodeView::Missing => StepView::Reply(reply::text_reply(404, "Not Found"@)),
    }
}

/// Where the batch that begins at `at` ends.
pub open spec fn batch_end(all: Seq<Text>, at: usize) -> usize {
    if all.len() - at > MAX_LIST_RESULTS {
        (at + MAX_LIST_RESULTS) as usize
    } else {
        all.len() as usize
    }
}

/// Removes the keys from `at` on, batch by batch.
pub open spec fn delete_step(all: Seq<Text>, at: usize, after: AfterView) -> StepView {
    if at < all.len() {
        let end = batch_end(all, at);
        StepView::Ask(
            ActionView::DeleteMany { keys: all.subrange(at as int, end as int) },
            TaskView::DeleteRest { keys: all, at: end, after },
        )
    } else {
        after_step(after)
    }
}

/// A batch has been removed; on to the next.
pub open spec fn deleted_step(
    all: Seq<Text>,
    at: usize,
    after: AfterView,
    event: EventView,
) -> StepView {
    match event {
        EventView::Done => delete_step(all, at, after),
        _ => StepView::Fail,
    }
}

/// Removes what stands at `key`; see `delete_request_step`.
pub fn handle_delete(key: String) -> (r: Step)
    ensures
        r@ == delete_request_step(key@),
{
    if key.as_str().is_empty() {
        return Step::Reply(text_response(403, "Cannot delete the root collection"));
    }
    node_type(key, Plan::Delete)
}

/// Removes everything that starts with `prefix`.
pub fn delete_prefix(prefix: String, after: After) -> (r: Step)
    ensures
        r@ == listing::scan_step(prefix@, None, ScanPlanView::Delete(after@)),
{
    list_all_keys(prefix, ScanPlan::Delete(after))
}

fn remove(key: String, is_dir: bool, after: After) -> (r: Step)
    ensures
        r@ == remove_step(key@, is_dir, after@),
{
    if is_dir {
        delete_prefix(directory_prefix(key.as_str()), after)
    } else {
        Step::Ask(Action::Delete { key }, Task::Work(after))
    }
}

/// Removes what stands at `key`, if anything does.
pub fn handle_delete_node(key: String, node: Node) -> (r: Step)
    ensures
        r@ == delete_node_step(key@, node@),
{
    match node {
        Node::File(_) => remove(key, false, After::Reply { status: 204 }),
        Node::Dir => remove(key, true, After::Reply { status: 204 }),
        Node::Missing => Step::Reply(text_response(404, "Not Found")),
    }
}

/// Removes the keys from `at` on, batch by batch.
pub fn delete_keys(keys: Vec<String>, at: usize, after: After) -> (r: Step)
    ensures
        r@ == delete_step(keys.deep_view(), at, after@),
{
    if at >= keys.len() {
        return follow(after);
    }
    let ghost all = keys.deep_view();
    let end: usize = if (keys.len() - at) as u64 > MAX_LIST_RESULTS as u64 {
        at + MAX_LIST_RESULTS as usize
    } else {
        keys.len()
    };
    let mut batch: Vec<String> = Vec::new();
    let mut i: usize = at;
    assert(batch.deep_view() =~= all.subrange(at as int, at as int));
    while i < end
        invariant
            at <= i <= end <= keys@.len(),
            all == keys.deep_view(),
            batch.deep_view() == all.subrange(at as int, i as int),
        decreases end - i,
    {
        let ghost before = batch.deep_view();
        batch.push(keys[i].clone());
        assert(batch.deep_view() =~= before.push(all[i as int]));
        assert(all.subrange(at as int, i + 1) =~= all.subrange(at as int, i as int).push(
            all[i as int],
        ));
        i += 1;
    }
    Step::Ask(Action::DeleteMany { keys: batch }, Task::DeleteRest { keys, at: end, after })
}

/// Goes on removing.
pub fn delete_resumed(keys: Vec<String>, at: usize, after: After, event: Event) -> (r: Step)
    ensures
        r@ == deleted_step(keys.deep_view(), at, after@, event@),
{
    match event {
        Event::Done => delete_keys(keys, at, after),
        _ => Step::Fail,
    }
}

// ---------------------------------------------------------------------------
// Making directories
// ---------------------------------------------------------------------------

/// Makes the directory `key`.
pub open spec fn mkcol_request_step(key: Text) -> StepView {
    if key.len() == 0 {
        StepView::Reply(reply::text_reply(405, "Already exists"@))
    } else {
        listing::node_step(key, PlanView::Mkcol)
    }
}

/// A marker keeps the directory while it is empty.
pub open spec fn mkcol_step(key: Text, node: NodeView) -> StepView {
    if node is Missing {
        StepView::Ask(
            ActionView::PutBytes {
                key: keys::marker_of_directory(key),
                bytes: Seq::empty(),
                content_type: Some("application/x-dufs-directory-marker"@),
            },
            TaskView::Work(AfterView::Reply { status: 201 }),
        )
    } else {
        StepView::Reply(reply::text_reply(405, "Already exists"@))
    }
}

/// Makes the directory `key`.
pub fn handle_mkcol(key: String) -> (r: Step)
    ensures
        r@ == mkcol_request_step(key@),
{
    if key.as_str().is_empty() {
        return Step::Reply(text_response(405, "Already exists"));
    }
    node_type(key, Plan::Mkcol)
}

/// Makes the directory `key`, if nothing stands there.
pub fn handle_mkcol_node(key: &str, node: Node) -> (r: Step)
    ensures
        r@ == mkcol_step(key@, node@),
{
    match node {
        Node::Missing => Step::Ask(
            Action::PutBytes {
                key: directory_marker(key),
                bytes: Vec::new(),
                content_type: Some("application/x-dufs-directory-marker".to_owned()),
            },
            Task::Work(After::Reply { status: 201 }),
        ),
        _ => Step::Reply(text_response(405, "Already exists")),
    }
}

// ---------------------------------------------------------------------------
// Copying and moving
// ---------------------------------------------------------------------------

/// The request wants an existing destination to be kept.
pub open spec fn keeps_destination(overwrite: Option<Text>) -> bool {
    overwrite matches Some(value) && text::same_ignoring_case(value, "F"@)
}

/// Copies or moves `source`.
pub open spec fn transfer_request_step(
    source: Text,
    destination: Option<Text>,
    keep: bool,
    move_source: bool,
) -> StepView {
    if source.len() == 0 {
        StepView::Reply(reply::text_reply(403, "Cannot copy or move the root collection"@))
    } else {
        match destination {
            Some(target) => {
                if target.len() == 0 || target == source {
                    StepView::Reply(reply::text_reply(400, "Invalid Destination"@))
                } else {
                    listing::probe_step(
                        source,
                        PlanView::TransferSource { destination: target, keep, move_source },
                    )
                }
            },
            None => StepView::Reply(reply::text_reply(400, "Invalid Destination"@)),
        }
    }
}

/// The source has to be there, and a directory is not copied into itself.
pub open spec fn source_step(
    source: Text,
    node: NodeView,
    destination: Text,
    keep: bool,
    move_source: bool,
) -> StepView {
    if node is Missing {
        StepView::Reply(reply::text_reply(404, "Not Found"@))
    } else if node is Dir && keys::prefix_of_directory(source).is_prefix_of(destination) {
        StepView::Reply(reply::text_reply(409, "Cannot copy a collection into itself"@))
    } else {
        listing::probe_step(
            destination,
            PlanView::TransferTarget { source, source_is_dir: node is Dir, keep, move_source },
        )
    }
}

/// An existing destination is cleared first, unless it is to be kept.
pub open spec fn target_step(
    destination: Text,
    node: NodeView,
    source: Text,
    source_is_dir: bool,
    keep: bool,
    move_source: bool,
) -> StepView {
    let destination_exists = !(node is Missing);
    let plan = TransferPlanView {
        source,
        destination,
        source_is_dir,
        move_source,
        destination_exists,
    };
    if destination_exists && keep {
        StepView::Reply(reply::text_reply(412, "Destination exists"@))
    } else if destination_exists {
        listing::probe_step(destination, PlanView::TransferClear(plan))
    } else {
        transfer_step(plan)
    }
}

/// Removes what stands at the destination.
pub open spec fn clear_step(node: NodeView, plan: TransferPlanView) -> StepView {
    match node {
        NodeView::File(_) => remove_step(plan.destination, false, AfterView::Transfer(plan)),
        NodeView::Dir => remove_step(plan.destination, true, AfterView::Transfer(plan)),
        NodeView::Missing => transfer_step(plan),
    }
}

/// Copies the file, or everything below the directory.
pub open spec fn transfer_step(plan: TransferPlanView) -> StepView {
    if plan.source_is_dir {
        listing::scan_step(
            keys::prefix_of_directory(plan.source),
            None,
            ScanPlanView::Copy(plan),
        )
    } else {
        copy_step(plan, seq![plan.source], 0)
    }
}

/// The key to which `key` is copied.
pub open spec fn copy_target(plan: TransferPlanView, key: Text) -> Text {
    if plan.source_is_dir {
        keys::prefix_of_directory(plan.destination) + listing::relative_name(
            key,
            keys::prefix_of_directory(plan.source),
        )
    } else {
        plan.destination
    }
}

/// Copies the keys from `at` on, one after another.
pub open spec fn copy_step(plan: TransferPlanView, all: Seq<Text>, at: usize) -> StepView {
    if at < all.len() {
        StepView::Ask(
            ActionView::Get { key: all[at as int], range: None },
            TaskView::CopyRead { transfer: plan, keys: all, at },
        )
    } else {
        finish_step(plan)
    }
}

/// The opened object is stored under its new key. An object that has gone ends everything.
pub open spec fn copy_read_step(
    plan: TransferPlanView,
    all: Seq<Text>,
    at: usize,
    event: EventView,
) -> StepView {
    match event {
        EventView::Object(Some(object)) => {
            if at < all.len() {
                StepView::Ask(
                    ActionView::PutHeld {
                        key: copy_target(plan, all[at as int]),
                        size: object.size,
                    },
                    TaskView::CopyWrite { transfer: plan, keys: all, at },
                )
            } else {
                StepView::Fail
            }
        },
        _ => StepView::Fail,
    }
}

/// One object has been copied; on to the next.
pub open spec fn copy_written_step(
    plan: TransferPlanView,
    all: Seq<Text>,
    at: usize,
    event: EventView,
) -> StepView {
    match event {
        EventView::Done => {
            if at < all.len() {
                copy_step(plan, all, (at + 1) as usize)
            } else {
                StepView::Fail
            }
        },
        _ => StepView::Fail,
    }
}

/// The status with which a copy or move ends.
pub open spec fn transfer_status(plan: TransferPlanView) -> u16 {
    if plan.destination_exists {
        204
    } else {
        201
    }
}

/// Everything has been copied. Only now a move removes the source.
pub open spec fn finish_step(plan: TransferPlanView) -> StepView {
    if plan.move_source {
        remove_step(
            plan.source,
            plan.source_is_dir,
            AfterView::Reply { status: transfer_status(plan) },
        )
    } else {
        StepView::Reply(ReplyView::new(transfer_status(plan)))
    }
}

/// Copies or moves `source` to where the `Destination` header says.
pub fn handle_copy_or_move(
    source: String,
    destination: Option<&str>,
    overwrite: Option<&str>,
    move_source: bool,
) -> (r: Step)
    ensures
        r@ == transfer_request_step(
            source@,
            keys::destination_of(destination.deep_view()),
            keeps_destination(overwrite.deep_view()),
            move_source,
        ),
{
    let keep = match overwrite {
        Some(value) => eq_ignore_ascii_case(value, "F"),
        None => false,
    };
    if source.as_str().is_empty() {
        return Step::Reply(text_response(403, "Cannot copy or move the root collection"));
    }
    copy_or_move_to(source, destination_key(destination), keep, move_source)
}

/// Copies or moves `source`; see `transfer_request_step`.
pub fn copy_or_move_to(
    source: String,
    destination: Option<String>,
    keep: bool,
    move_source: bool,
) -> (r: Step)
    ensures
        r@ == transfer_request_step(source@, destination.deep_view(), keep, move_source),
{
    if source.as_str().is_empty() {
        return Step::Reply(text_response(403, "Cannot copy or move the root collection"));
    }
    match destination {
        Some(target) => {
            if target.as_str().is_empty() || same_text(target.as_str(), source.as_str()) {
                return Step::Reply(text_response(400, "Invalid Destination"));
            }
            probe(source, Plan::TransferSource { destination: target, keep, move_source })
        },
        None => Step::Reply(text_response(400, "Invalid Destination")),
    }
}

/// The source has to be there, and a directory is not copied into itself.
pub fn handle_source_node(
    source: String,
    node: Node,
    destination: String,
    keep: bool,
    move_source: bool,
) -> (r: Step)
    ensures
        r@ == source_step(source@, node@, destination@, keep, move_source),
{
    let source_is_dir = match node {
        Node::File(_) => false,
        Node::Dir => true,
        Node::Missing => return Step::Reply(text_response(404, "Not Found")),
    };
    if source_is_dir && starts_with(
        destination.as_str(),
        directory_prefix(source.as_str()).as_str(),
    ) {
        return Step::Reply(text_response(409, "Cannot copy a collection into itself"));
    }
    probe(destination, Plan::TransferTarget { source, source_is_dir, keep, move_source })
}

/// An existing destination is cleared first, unless it is to be kept.
pub fn handle_target_node(
    destination: String,
    node: Node,
    source: String,
    source_is_dir: bool,
    keep: bool,
    move_source: bool,
) -> (r: Step)
    ensures
        r@ == target_step(destination@, node@, source@, source_is_dir, keep, move_source),
{
    let destination_exists = match node {
        Node::Missing => false,
        _ => true,
    };
    if destination_exists && keep {
        return Step::Reply(text_response(412, "Destination exists"));
    }
    let plan = TransferPlan {
        source,
        destination: destination.clone(),
        source_is_dir,
        move_source,
        destination_exists,
    };
    if destination_exists {
        probe(destination, Plan::TransferClear(plan))
    } else {
        transfer(plan)
    }
}

/// Removes what stands at the destination.
pub fn handle_clear_node(node: Node, plan: TransferPlan) -> (r: Step)
    ensures
        r@ == clear_step(node@, plan@),
{
    match node {
        Node::File(_) => remove(plan.destination.clone(), false, After::Transfer(plan)),
        Node::Dir => remove(plan.destination.clone(), true, After::Transfer(plan)),
        Node::Missing => transfer(plan),
    }
}

fn transfer(plan: TransferPlan) -> (r: Step)
    ensures
        r@ == transfer_step(plan@),
{
    if plan.source_is_dir {
        list_all_keys(directory_prefix(plan.source.as_str()), ScanPlan::Copy(plan))
    } else {
        let mut keys: Vec<String> = Vec::new();
        keys.push(plan.source.clone());
        assert(keys.deep_view() =~= seq![plan@.source]);
        copy_keys(plan, keys, 0)
    }
}

fn target_of(plan: &TransferPlan, key: &str) -> (r: String)
    ensures
        r@ == copy_target(plan@, key@),
{
    if plan.source_is_dir {
        let mut target = directory_prefix(plan.destination.as_str());
        match strip_prefix(key, directory_prefix(plan.source.as_str()).as_str()) {
            Some(suffix) => target.append(suffix.as_str()),
            None => {},
        }
        assert(target@ =~= copy_target(plan@, key@));
        target
    } else {
        plan.destination.clone()
    }
}

/// Copies the keys from `at` on, one after another.
pub fn copy_keys(plan: TransferPlan, keys: Vec<String>, at: usize) -> (r: Step)
    ensures
        r@ == copy_step(plan@, keys.deep_view(), at),
{
    if at < keys.len() {
        Step::Ask(
            Action::Get { key: keys[at].clone(), range: None },
            Task::CopyRead { transfer: plan, keys, at },
        )
    } else {
        finish_transfer(plan)
    }
}

/// Stores the opened object under its new key.
pub fn copy_object(plan: TransferPlan, keys: Vec<String>, at: usize, event: Event) -> (r: Step)
    ensures
        r@ == copy_read_step(plan@, keys.deep_view(), at, event@),
{
    match event {
        Event::Object(Some(object)) => {
            if at < keys.len() {
                let target = target_of(&plan, keys[at].as_str());
                Step::Ask(
                    Action::PutHeld { key: target, size: object.size },
                    Task::CopyWrite { transfer: plan, keys, at },
                )
            } else {
                Step::Fail
            }
        },
        _ => Step::Fail,
    }
}

/// Goes on to the next object.
pub fn copy_resumed(plan: TransferPlan, keys: Vec<String>, at: usize, event: Event) -> (r: Step)
    ensures
        r@ == copy_written_step(plan@, keys.deep_view(), at, event@),
{
    match event {
        Event::Done => {
            if at < keys.len() {
                copy_keys(plan, keys, at + 1)
            } else {
                Step::Fail
            }
        },
        _ => Step::Fail,
    }
}

fn finish_transfer(plan: TransferPlan) -> (r: Step)
    ensures
        r@ == finish_step(plan@),
{
    let status: u16 = if plan.destination_exists {
        204
    } else {
        201
    };
    if plan.move_source {
        remove(plan.source, plan.source_is_dir, After::Reply { status })
    } else {
        Step::Reply(Reply::new(status))
    }
}

} // verus!
