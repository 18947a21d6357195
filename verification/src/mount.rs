//! Helpers for testing a frontend made with `yew`.
use vstd::prelude::*;
use yew::virtual_dom::VNode;

verus! {

/// `yew::virtual_dom::VNode`, the virtual node that yew also calls `Html`.
/// Nothing is known of what such a node holds.
#[verifier::external_type_specification]
#[verifier::external_body]
pub struct ExVNode(yew::virtual_dom::VNode);

/// What the component that mounts a piece of html is given: the html that
/// it shows.
pub struct WrapperProps {
    pub content: VNode,
}

/// Calls `VNode::clone`: the copy is a virtual node of the same variant,
/// made of the clones of what the node holds, and so the same virtual node.
#[verifier::external_body]
fn clone_node(node: &VNode) -> (copy: VNode)
    ensures
        copy == *node,
{
    node.clone()
}

/// Renders the wrapping component: it shows its content and adds nothing.
pub fn wrapper(props: &WrapperProps) -> (html: VNode)
    ensures
        html == props.content,
{
    clone_node(&props.content)
}

} // verus!
