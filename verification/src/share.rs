//! The public share: what anybody may read.

use crate::files::{self, file_response};
use crate::keys::{self, href_for_key, PUBLIC_SHARE_ROOT};
use crate::listing::{self, list_dir, node_type};
use crate::machine::{
    Conditions, ConditionsView, ListPlan, ListPlanView, Plan, PlanView, Step, StepView,
};
use crate::model::{Node, NodeView};
use crate::reply::{self, public_share_method_not_allowed, public_share_redirect, text_response};
use crate::text::{same_text, Text};
use vstd::prelude::*;

verus! {

/// Shows a visitor what stands at `key`. The address of a directory ends in a slash.
pub open spec fn share_step(
    key: Text,
    node: NodeView,
    slash: bool,
    head_only: bool,
    conditions: ConditionsView,
) -> StepView {
    match node {
        NodeView::File(object) => files::file_step(key, object, conditions, head_only, true),
        NodeView::Dir => {
            if !slash {
                StepView::Reply(reply::redirect_reply(keys::href_of(key, true)))
            } else {
                listing::list_step(key, ListPlanView::Share { head_only })
            }
        },
        NodeView::Missing => StepView::Reply(reply::text_reply(404, "Not Found"@)),
    }
}

/// Answers a visitor who asks for `key`. The root of the share is a directory even while it is
/// empty, and an object of its name is not shown.
pub open spec fn visit_step(
    key: Text,
    method: Text,
    slash: bool,
    conditions: ConditionsView,
) -> StepView {
    if method != "GET"@ && method != "HEAD"@ {
        StepView::Reply(reply::share_method_reply())
    } else {
        let head_only = method == "HEAD"@;
        if key == PUBLIC_SHARE_ROOT@ {
            share_step(key, NodeView::Dir, slash, head_only, conditions)
        } else {
            listing::node_step(key, PlanView::Share { slash, head_only, conditions })
        }
    }
}

/// Shows a visitor what stands at `key`; see `share_step`.
pub fn handle_share_node(
    key: String,
    node: Node,
    slash: bool,
    head_only: bool,
    conditions: &Conditions,
) -> (r: Step)
    ensures
        r@ == share_step(key@, node@, slash, head_only, conditions@),
{
    match node {
        Node::File(object) => file_response(key.as_str(), &object, conditions, head_only, true),
        Node::Dir => {
            if !slash {
                return Step::Reply(
                    public_share_redirect(href_for_key(key.as_str(), true).as_str()),
                );
            }
            list_dir(key, ListPlan::Share { head_only })
        },
        Node::Missing => Step::Reply(text_response(404, "Not Found")),
    }
}

/// Answers a visitor who asks for `key`; see `visit_step`.
pub fn handle_public_share(key: String, method: &str, slash: bool, conditions: Conditions) -> (r:
    Step)
    ensures
        r@ == visit_step(key@, method@, slash, conditions@),
{
    let head_only = same_text(method, "HEAD");
    if !same_text(method, "GET") && !head_only {
        return Step::Reply(public_share_method_not_allowed());
    }
    if same_text(key.as_str(), PUBLIC_SHARE_ROOT) {
        handle_share_node(key, Node::Dir, slash, head_only, &conditions)
    } else {
        node_type(key, Plan::Share { slash, head_only, conditions })
    }
}

} // verus!
