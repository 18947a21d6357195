//! Find various elements across a document as the user would.
//!
//! Matchers should be prioritized like so:
//! - [`HasRole`] should always be used where possible. It finds elements by
//!   what they are exposed as in the accessibility tree.
//! - [`HasLabel`] should also be used where possible. Labels are read out by
//!   screen readers and make focusing an element easier.
//! - [`HasPlaceholder`] is not as good as its predecessors, but still better
//!   than [`HasText`] for accessible elements.
//! - [`HasText`] matches the text in the way it is presented to the user.
//!   Text that style rules hide is never matched.
use crate::dom::{
    descends, in_document_order, is_child, lemma_child_is_below, lemma_children_end,
    lemma_descends_behind, lemma_subtree_ends, lemma_subtree_goes_on, Document, Element,
    ElementKind, Node,
};
pub use crate::roles::element_to_aria_roles;
use crate::roles::{names, roles_of};
use crate::text::{contains, is_substring, same_text, trim, trimmed};
use vstd::prelude::*;

verus! {

/// Trait implemented by types that can be used as a predicate for an [`Element`].
///
/// One can implement this trait to create custom [`Matcher`]s. A matcher
/// decides by what the document holds and by nothing else: an implementation
/// says in `accepts` what it decides, and shows that `matches` computes that.
pub trait Matcher {
    /// Whether the matcher accepts the node at `index` of `nodes`.
    spec fn accepts(&self, nodes: Seq<Node>, index: usize) -> bool;

    /// Returns `true` if the element was matched by the [`Matcher`].
    fn matches(&self, elem: &Element) -> (matched: bool)
        ensures
            matched == self.accepts(elem.doc()@, elem.index()),
    ;
}

/// Consumes a [`Matcher`] and returns a negation of it.
pub struct Not<M: Matcher>(pub M);

impl<M: Matcher> Matcher for Not<M> {
    open spec fn accepts(&self, nodes: Seq<Node>, index: usize) -> bool {
        !self.0.accepts(nodes, index)
    }

    fn matches(&self, elem: &Element) -> (matched: bool) {
        !self.0.matches(elem)
    }
}

/// Result of joining two [`Matcher`]s by applying a logical [`and`] operation on them.
///
/// [`and`]: Joinable::and
pub struct And<A: Matcher, B: Matcher>(pub A, pub B);

impl<A: Matcher, B: Matcher> Matcher for And<A, B> {
    open spec fn accepts(&self, nodes: Seq<Node>, index: usize) -> bool {
        self.0.accepts(nodes, index) && self.1.accepts(nodes, index)
    }

    fn matches(&self, elem: &Element) -> (matched: bool) {
        self.0.matches(elem) && self.1.matches(elem)
    }
}

/// Result of combining two [`Matcher`]s by applying a logical [`or`] operation on them.
///
/// [`or`]: Joinable::or
pub struct Or<A: Matcher, B: Matcher>(pub A, pub B);

impl<A: Matcher, B: Matcher> Matcher for Or<A, B> {
    open spec fn accepts(&self, nodes: Seq<Node>, index: usize) -> bool {
        self.0.accepts(nodes, index) || self.1.accepts(nodes, index)
    }

    fn matches(&self, elem: &Element) -> (matched: bool) {
        self.0.matches(elem) || self.1.matches(elem)
    }
}

/// A trait for joining multiple matchers.
///
/// It is automatically implemented for all matchers. Its methods `and` and
/// `or` consume both matchers and return the joined matcher, so calls can be
/// chained.
pub trait Joinable: Matcher + Sized {
    /// Join two matchers by applying logical `and` operation.
    fn and<M: Matcher>(self, other: M) -> (joined: And<Self, M>)
        ensures
            joined == And(self, other),
    {
        And(self, other)
    }

    /// Join two matchers by applying logical `or` operation.
    fn or<M: Matcher>(self, other: M) -> (joined: Or<Self, M>)
        ensures
            joined == Or(self, other),
    {
        Or(self, other)
    }
}

impl<M: Matcher> Joinable for M {

}

/// Whether the rendered text of `node` contains `text`.
pub open spec fn shows_text(node: Node, text: Seq<char>) -> bool {
    is_substring(text, node.inner_text@)
}

/// Matches components that have visible text that contains given substring.
///
/// [`HasText`] is case-sensitive and goes by the text as it is presented to
/// the user. An element whose child element also shows the text is not
/// matched: the match belongs to the innermost element that holds the text.
pub struct HasText<'a>(pub &'a str);

impl<'a> Matcher for HasText<'a> {
    open spec fn accepts(&self, nodes: Seq<Node>, index: usize) -> bool {
        &&& shows_text(nodes[index as int], self.0@)
        &&& forall|c: int|
            is_child(nodes, c, index) && (#[trigger] nodes[c]).is_html() ==> !shows_text(
                nodes[c],
                self.0@,
            )
    }

    fn matches(&self, elem: &Element) -> (matched: bool) {
        if !contains(elem.node().inner_text.as_str(), self.0) {
            return false;
        }
        let doc = elem.document();
        let id = elem.id();
        let count = doc.len();
        let mut c: usize = id + 1;
        proof {
            assert forall|k: int| 0 <= k <= id implies !is_child(doc@, k, id) by {
                if is_child(doc@, k, id) {
                    lemma_child_is_below(doc@, k, id);
                }
            }
        }
        // The children stand among the nodes below the element, right behind it.
        while c < count && doc.node(c).hangs_from(id)
            invariant
                id < c <= count == doc@.len(),
                doc == elem.doc(),
                id == elem.index(),
                in_document_order(doc@),
                forall|j: int| id < j < c ==> descends(doc@, j, id as int),
                forall|k: int|
                    0 <= k < c && is_child(doc@, k, id) && (#[trigger] doc@[k]).is_html()
                        ==> !shows_text(doc@[k], self.0@),
            decreases count - c,
        {
            proof {
                lemma_subtree_goes_on(doc@, id as int, c as int);
            }
            let child = doc.node(c);
            if child.is_child_of(id) && child.is_html_element() && contains(
                child.inner_text.as_str(),
                self.0,
            ) {
                assert(is_child(doc@, c as int, id) && doc@[c as int].is_html());
                return false;
            }
            c += 1;
        }
        proof {
            lemma_children_end(doc@, id, c as int);
        }
        true
    }
}

/// An element and an HTML element that is its child never both match the
/// same text: where the child shows the text, the match is the child's.
pub proof fn lemma_text_belongs_to_child(
    rules: HasText,
    nodes: Seq<Node>,
    parent: usize,
    child: usize,
)
    requires
        is_child(nodes, child as int, parent),
        nodes[child as int].is_html(),
    ensures
        !(rules.accepts(nodes, parent) && rules.accepts(nodes, child)),
{
}

/// Whether `role` is among the roles that the table gives `node`, or is the
/// value of its `role` attribute.
pub open spec fn has_role(node: Node, role: Seq<char>) -> bool {
    roles_of(node).contains(role) || node.attribute("role"@) == Some(role)
}

/// Matches components that have given aria role.
///
/// The role is one that [`element_to_aria_roles`] deduces from the tag, or
/// the one that the `role` attribute assigns. Either suffices: an assigned
/// role does not take away the deduced ones.
pub struct HasRole<'a>(pub &'a str);

impl<'a> Matcher for HasRole<'a> {
    open spec fn accepts(&self, nodes: Seq<Node>, index: usize) -> bool {
        has_role(nodes[index as int], self.0@)
    }

    fn matches(&self, elem: &Element) -> (matched: bool) {
        let roles = element_to_aria_roles(elem);
        let mut i: usize = 0;
        while i < roles.len()
            invariant
                i <= roles@.len(),
                names(roles@) == roles_of(elem.data()),
                forall|k: int| 0 <= k < i ==> names(roles@)[k] != self.0@,
            decreases roles@.len() - i,
        {
            if same_text(roles[i], self.0) {
                assert(names(roles@)[i as int] == self.0@);
                return true;
            }
            i += 1;
        }
        match elem.node().get_attribute("role") {
            Some(role) => same_text(role, self.0),
            None => false,
        }
    }
}

/// Whether an element of this kind can have a label: an `<input>` that is
/// not hidden, a button, a meter, an output, a progress bar, a select or a
/// text area.
pub open spec fn labelable(kind: Option<ElementKind>) -> bool {
    match kind {
        Some(ElementKind::Input { input_type, .. }) => input_type@ != "hidden"@,
        Some(ElementKind::Button) => true,
        Some(ElementKind::Meter) => true,
        Some(ElementKind::Output) => true,
        Some(ElementKind::Progress) => true,
        Some(ElementKind::Select) => true,
        Some(ElementKind::TextArea { .. }) => true,
        _ => false,
    }
}

/// Whether one of the labels that the host associates with `node` reads
/// exactly `text`.
pub open spec fn labelled_explicitly(node: Node, text: Seq<char>) -> bool {
    exists|k: int| 0 <= k < node.labels@.len() && (#[trigger] node.labels@[k])@ == text
}

/// Whether the parent of the node at `index` is a `<label>` with another
/// child node whose text, without the white space around it, is `text`.
pub open spec fn labelled_by_wrapping(nodes: Seq<Node>, index: usize, text: Seq<char>) -> bool {
    match nodes[index as int].parent {
        Some(p) => p < nodes.len() && nodes[p as int].is_label() && exists|c: int|
            is_child(nodes, c, p) && c != index && trimmed((#[trigger] nodes[c]).text_content@)
                == text,
        None => false,
    }
}

/// Whether the node at `index` names, in its `aria-labelledby` attribute, the
/// id of an element that the document holds. The text of that element is not
/// compared with anything.
pub open spec fn labelled_by_reference(nodes: Seq<Node>, index: usize) -> bool {
    match nodes[index as int].attribute("aria-labelledby"@) {
        Some(id) => exists|j: int| 0 <= j < nodes.len() && (#[trigger] nodes[j]).has_id(id),
        None => false,
    }
}

fn is_labelable(node: &Node) -> (can: bool)
    ensures
        can == labelable(node.element),
{
    match &node.element {
        Some(ElementKind::Input { input_type, .. }) => !same_text(input_type.as_str(), "hidden"),
        Some(ElementKind::Button) => true,
        Some(ElementKind::Meter) => true,
        Some(ElementKind::Output) => true,
        Some(ElementKind::Progress) => true,
        Some(ElementKind::Select) => true,
        Some(ElementKind::TextArea { .. }) => true,
        _ => false,
    }
}

fn has_explicit_label(node: &Node, text: &str) -> (found: bool)
    ensures
        found == labelled_explicitly(*node, text@),
{
    let mut k: usize = 0;
    while k < node.labels.len()
        invariant
            k <= node.labels@.len(),
            forall|j: int| 0 <= j < k ==> (#[trigger] node.labels@[j])@ != text@,
        decreases node.labels@.len() - k,
    {
        if same_text(node.labels[k].as_str(), text) {
            return true;
        }
        k += 1;
    }
    false
}

fn has_wrapping_label(elem: &Element, text: &str) -> (found: bool)
    ensures
        found == labelled_by_wrapping(elem.doc()@, elem.index(), text@),
{
    let id = elem.id();
    let parent = match elem.parent() {
        Some(p) => p,
        None => {
            return false;
        },
    };
    if !parent.node().is_label_element() {
        return false;
    }
    let doc = elem.document();
    let p = parent.id();
    let count = doc.len();
    let mut c: usize = p + 1;
    proof {
        assert forall|k: int| 0 <= k <= p implies !is_child(doc@, k, p) by {
            if is_child(doc@, k, p) {
                lemma_child_is_below(doc@, k, p);
            }
        }
    }
    // The children of the label stand among the nodes below it, right behind it.
    while c < count && doc.node(c).hangs_from(p)
        invariant
            p < c <= count == doc@.len(),
            doc == elem.doc(),
            id == elem.index(),
            in_document_order(doc@),
            elem.data().parent == Some(p),
            doc@[p as int].is_label(),
            forall|j: int| p < j < c ==> descends(doc@, j, p as int),
            forall|k: int|
                0 <= k < c && is_child(doc@, k, p) && k != id ==> trimmed(
                    (#[trigger] doc@[k]).text_content@,
                ) != text@,
        decreases count - c,
    {
        proof {
            lemma_subtree_goes_on(doc@, p as int, c as int);
        }
        let child = doc.node(c);
        if child.is_child_of(p) && c != id && same_text(trim(child.text_content.as_str()), text) {
            assert(is_child(doc@, c as int, p) && trimmed(doc@[c as int].text_content@) == text@);
            return true;
        }
        c += 1;
    }
    proof {
        lemma_children_end(doc@, p, c as int);
    }
    false
}

fn has_referenced_label(elem: &Element) -> (found: bool)
    ensures
        found == labelled_by_reference(elem.doc()@, elem.index()),
{
    let id = match elem.node().get_attribute("aria-labelledby") {
        Some(id) => id,
        None => {
            return false;
        },
    };
    if id.is_empty() {
        return false;
    }
    let doc = elem.document();
    let mut j: usize = 0;
    while j < doc.len()
        invariant
            j <= doc@.len(),
            doc == elem.doc(),
            elem.data().attribute("aria-labelledby"@) == Some(id@),
            id@.len() > 0,
            forall|k: int| 0 <= k < j ==> !(#[trigger] doc@[k]).has_id(id@),
        decreases doc@.len() - j,
    {
        let node = doc.node(j);
        if node.connected {
            let found = match node.get_attribute("id") {
                Some(value) => same_text(value, id),
                None => false,
            };
            if found {
                assert(doc@[j as int].has_id(id@));
                return true;
            }
        }
        j += 1;
    }
    false
}

/// Matches components that have given label.
///
/// Labeling is supported for input elements (except `type="hidden"`),
/// button, meter, output, progress, select and text area. An element has
/// the label when a label associated with it reads exactly so, when it
/// stands in a `<label>` beside a node that reads so, or when its
/// `aria-labelledby` attribute names an element of the document. The
/// `aria-label` attribute is not looked at: it is not visible to the user.
pub struct HasLabel<'a>(pub &'a str);

impl<'a> Matcher for HasLabel<'a> {
    open spec fn accepts(&self, nodes: Seq<Node>, index: usize) -> bool {
        &&& labelable(nodes[index as int].element)
        &&& (labelled_explicitly(nodes[index as int], self.0@) || labelled_by_wrapping(
            nodes,
            index,
            self.0@,
        ) || labelled_by_reference(nodes, index))
    }

    fn matches(&self, elem: &Element) -> (matched: bool) {
        let node = elem.node();
        if !is_labelable(node) {
            return false;
        }
        has_explicit_label(node, self.0) || has_wrapping_label(elem, self.0)
            || has_referenced_label(elem)
    }
}

/// The placeholder of an element of this kind, if the kind has one.
pub open spec fn placeholder_of(kind: Option<ElementKind>) -> Option<Seq<char>> {
    match kind {
        Some(ElementKind::Input { placeholder, .. }) => Some(placeholder@),
        Some(ElementKind::TextArea { placeholder }) => Some(placeholder@),
        _ => None,
    }
}

/// Matches components that have given placeholder text.
///
/// Only an `<input>` and a `<textarea>` have a placeholder. The match is
/// case-sensitive, and the text may be any part of the placeholder.
pub struct HasPlaceholder<'a>(pub &'a str);

impl<'a> Matcher for HasPlaceholder<'a> {
    open spec fn accepts(&self, nodes: Seq<Node>, index: usize) -> bool {
        match placeholder_of(nodes[index as int].element) {
            Some(placeholder) => is_substring(self.0@, placeholder),
            None => false,
        }
    }

    fn matches(&self, elem: &Element) -> (matched: bool) {
        match &elem.node().element {
            Some(ElementKind::Input { placeholder, .. }) => contains(placeholder.as_str(), self.0),
            Some(ElementKind::TextArea { placeholder }) => contains(placeholder.as_str(), self.0),
            _ => false,
        }
    }
}

/// More than one element was matched where at most one was expected.
pub struct AmbiguousMatch {
    /// How many elements were matched.
    pub count: usize,
}

/// Whether the node at `index` is an HTML element below the node at `root`
/// that `rules` accepts.
pub open spec fn is_match<M: Matcher>(
    nodes: Seq<Node>,
    root: usize,
    rules: &M,
    index: usize,
) -> bool {
    &&& nodes[index as int].is_html()
    &&& descends(nodes, index as int, root as int)
    &&& rules.accepts(nodes, index)
}

/// The first `count` indices, in rising order.
pub open spec fn indices(count: nat) -> Seq<usize> {
    Seq::new(count, |i: int| i as usize)
}

/// The indices below `count` of the nodes that match, in rising order.
pub open spec fn matching_among<M: Matcher>(
    nodes: Seq<Node>,
    root: usize,
    rules: &M,
    count: nat,
) -> Seq<usize> {
    indices(count).filter(|i: usize| is_match(nodes, root, rules, i))
}

/// The indices of all nodes that match, in document order.
pub open spec fn matching<M: Matcher>(nodes: Seq<Node>, root: usize, rules: &M) -> Seq<usize> {
    matching_among(nodes, root, rules, nodes.len())
}

/// The handles to the nodes of `doc` at the indices `ids`, in the same order.
pub open spec fn handles<'a>(doc: &'a Document, ids: Seq<usize>) -> Seq<Element<'a>> {
    ids.map_values(|i: usize| Element::at(doc, i))
}

/// What a search for at most one element gives when `all` is what matched:
/// nothing, the one element, or the complaint that there are several.
pub open spec fn sole<E>(all: Seq<E>) -> Result<Option<E>, AmbiguousMatch> {
    if all.len() == 0 {
        Ok(None)
    } else if all.len() == 1 {
        Ok(Some(all[0]))
    } else {
        Err(AmbiguousMatch { count: all.len() as usize })
    }
}

/// Looking at one node more adds its index to the matches if it matches, and
/// changes nothing else.
pub proof fn lemma_matching_step<M: Matcher>(nodes: Seq<Node>, root: usize, rules: &M, count: nat)
    ensures
        matching_among(nodes, root, rules, count + 1) == if is_match(
            nodes,
            root,
            rules,
            count as usize,
        ) {
            matching_among(nodes, root, rules, count).push(count as usize)
        } else {
            matching_among(nodes, root, rules, count)
        },
{
    reveal(Seq::filter);
    assert(indices(count + 1).drop_last() =~= indices(count));
}

/// Looking at nodes that do not lie below the root adds nothing to the matches.
pub proof fn lemma_matching_rests<M: Matcher>(
    nodes: Seq<Node>,
    root: usize,
    rules: &M,
    from: nat,
    to: nat,
)
    requires
        from <= to <= usize::MAX,
        forall|j: int| from <= j < to ==> !descends(nodes, j, root as int),
    ensures
        matching_among(nodes, root, rules, to) == matching_among(nodes, root, rules, from),
    decreases to,
{
    if from < to {
        lemma_matching_rests(nodes, root, rules, from, (to - 1) as nat);
        lemma_matching_step(nodes, root, rules, (to - 1) as nat);
    }
}

/// Allows selecting [`Element`]s using [`Matcher`]s.
///
/// By default implemented for [`Element`], where it selects the HTML
/// elements below it that match the provided pattern. The element itself is
/// never selected.
pub trait Query: Sized {
    /// Tries to get a unique component. Returns `None` when nothing matches
    /// and the element when exactly one does.
    ///
    /// # Errors
    /// [`AmbiguousMatch`], with the number of matches, if more than one
    /// element is found.
    fn get<M: Matcher>(&self, rules: &M) -> (found: Result<Option<Self>, AmbiguousMatch>);

    /// Returns a [`Vec`] of all components matched by a [`Matcher`].
    fn get_all<M: Matcher>(&self, rules: &M) -> (found: Vec<Self>);
}

/// What `rules` selects below `root`: the handles to the HTML elements below
/// it that `rules` accepts, in document order.
pub open spec fn selection<'a, M: Matcher>(root: &Element<'a>, rules: &M) -> Seq<Element<'a>> {
    handles(root.doc(), matching(root.doc()@, root.index(), rules))
}

impl<'a> Query for Element<'a> {
    fn get<M: Matcher>(&self, rules: &M) -> (found: Result<Option<Self>, AmbiguousMatch>)
        ensures
            found == sole(selection(self, rules)),
    {
        let mut all = self.get_all(rules);
        let count = all.len();
        if count == 0 {
            Ok(None)
        } else if count == 1 {
            Ok(all.pop())
        } else {
            Err(AmbiguousMatch { count })
        }
    }

    fn get_all<M: Matcher>(&self, rules: &M) -> (found: Vec<Self>)
        ensures
            found@ == selection(self, rules),
            forall|k: int|
                0 <= k < found@.len() ==> (#[trigger] found@[k]).doc() == self.doc()
                    && self.index() < found@[k].index() < self.doc()@.len(),
    {
        let doc = self.document();
        let root = self.id();
        let count = doc.len();
        let mut found: Vec<Element<'a>> = Vec::new();
        let mut i: usize = root + 1;
        proof {
            assert forall|j: int| 0 <= j < i implies !descends(doc@, j, root as int) by {
                if descends(doc@, j, root as int) {
                    lemma_descends_behind(doc@, j, root as int);
                }
            }
            lemma_matching_rests(doc@, root, rules, 0, i as nat);
        }
        // The elements below the root stand right behind it.
        while i < count && doc.node(i).hangs_from(root)
            invariant
                root < i <= count == doc@.len(),
                doc == self.doc(),
                root == self.index(),
                in_document_order(doc@),
                forall|j: int| root < j < i ==> descends(doc@, j, root as int),
                found@ == handles(doc, matching_among(doc@, root, rules, i as nat)),
            decreases count - i,
        {
            proof {
                lemma_subtree_goes_on(doc@, root as int, i as int);
                lemma_matching_step(doc@, root, rules, i as nat);
            }
            if let Some(elem) = doc.element(i) {
                if elem.node().is_html_element() && rules.matches(&elem) {
                    found.push(elem);
                }
            }
            i += 1;
        }
        proof {
            if i < count {
                lemma_subtree_goes_on(doc@, root as int, i as int);
                assert forall|j: int| i <= j < count implies !descends(doc@, j, root as int) by {
                    lemma_subtree_ends(doc@, root as int, i as int, j);
                }
            }
            lemma_matching_rests(doc@, root, rules, i as nat, count as nat);
            lemma_selection(self, rules);
        }
        found
    }
}

/// `Not` matches exactly what its matcher does not match.
pub proof fn lemma_not<P: Matcher>(p: P, nodes: Seq<Node>, index: usize)
    ensures
        Not(p).accepts(nodes, index) == !p.accepts(nodes, index),
{
}

/// `And` matches exactly what both of its matchers match.
pub proof fn lemma_and<P: Matcher, Q: Matcher>(p: P, q: Q, nodes: Seq<Node>, index: usize)
    ensures
        And(p, q).accepts(nodes, index) == (p.accepts(nodes, index) && q.accepts(nodes, index)),
{
}

/// `Or` matches exactly what one of its matchers matches.
pub proof fn lemma_or<P: Matcher, Q: Matcher>(p: P, q: Q, nodes: Seq<Node>, index: usize)
    ensures
        Or(p, q).accepts(nodes, index) == (p.accepts(nodes, index) || q.accepts(nodes, index)),
{
}

/// Not both is the same as not one or not the other.
pub proof fn lemma_not_and<P: Matcher, Q: Matcher>(p: P, q: Q, nodes: Seq<Node>, index: usize)
    ensures
        Not(And(p, q)).accepts(nodes, index) == Or(Not(p), Not(q)).accepts(nodes, index),
{
}

/// Neither is the same as not one and not the other.
pub proof fn lemma_not_or<P: Matcher, Q: Matcher>(p: P, q: Q, nodes: Seq<Node>, index: usize)
    ensures
        Not(Or(p, q)).accepts(nodes, index) == And(Not(p), Not(q)).accepts(nodes, index),
{
}

/// Negating twice changes nothing.
pub proof fn lemma_not_not<P: Matcher>(p: P, nodes: Seq<Node>, index: usize)
    ensures
        Not(Not(p)).accepts(nodes, index) == p.accepts(nodes, index),
{
}

/// `And` and `Or` do not care for the order of their matchers.
pub proof fn lemma_commutes<P: Matcher, Q: Matcher>(p: P, q: Q, nodes: Seq<Node>, index: usize)
    ensures
        And(p, q).accepts(nodes, index) == And(q, p).accepts(nodes, index),
        Or(p, q).accepts(nodes, index) == Or(q, p).accepts(nodes, index),
{
}

/// The matches are the indices of the matching nodes, each once, in rising
/// order: the order of the document.
pub proof fn lemma_matching_among<M: Matcher>(nodes: Seq<Node>, root: usize, rules: &M, count: nat)
    requires
        count <= usize::MAX,
    ensures
        forall|k: int|
            0 <= k < matching_among(nodes, root, rules, count).len() ==> (#[trigger] matching_among(
                nodes,
                root,
                rules,
                count,
            )[k]) < count,
        forall|j: int, k: int|
            0 <= j < k < matching_among(nodes, root, rules, count).len() ==> matching_among(
                nodes,
                root,
                rules,
                count,
            )[j] < matching_among(nodes, root, rules, count)[k],
        forall|index: usize|
            index < count ==> (#[trigger] matching_among(nodes, root, rules, count).contains(index)
                <==> is_match(nodes, root, rules, index)),
    decreases count,
{
    if count == 0 {
        reveal(Seq::filter);
        assert(indices(0) =~= Seq::<usize>::empty());
    } else {
        let before = matching_among(nodes, root, rules, (count - 1) as nat);
        let now = matching_among(nodes, root, rules, count);
        lemma_matching_among(nodes, root, rules, (count - 1) as nat);
        lemma_matching_step(nodes, root, rules, (count - 1) as nat);
        assert forall|index: usize| index < count implies (#[trigger] now.contains(index)
            <==> is_match(nodes, root, rules, index)) by {
            if index < count - 1 {
                if before.contains(index) {
                    let k = choose|k: int| 0 <= k < before.len() && before[k] == index;
                    assert(now[k] == index);
                }
            } else {
                if is_match(nodes, root, rules, index) {
                    assert(now[now.len() - 1] == index);
                }
            }
        }
    }
}

/// The matches of a whole tree are the indices of its matching nodes, each
/// once, in the order of the document.
pub proof fn lemma_matching<M: Matcher>(nodes: Seq<Node>, root: usize, rules: &M)
    requires
        nodes.len() <= usize::MAX,
    ensures
        forall|j: int, k: int|
            0 <= j < k < matching(nodes, root, rules).len() ==> matching(nodes, root, rules)[j]
                < matching(nodes, root, rules)[k],
        forall|index: usize|
            index < nodes.len() ==> (#[trigger] matching(nodes, root, rules).contains(index)
                <==> is_match(nodes, root, rules, index)),
        forall|k: int|
            0 <= k < matching(nodes, root, rules).len() ==> (#[trigger] matching(
                nodes,
                root,
                rules,
            )[k]) < nodes.len(),
{
    lemma_matching_among(nodes, root, rules, nodes.len());
}

/// What a search finds are handles into the document of the root, to
/// exactly the HTML elements below the root that the rules accept, each once
/// and in document order. The root itself is not among them.
pub proof fn lemma_selection<'a, M: Matcher>(root: &Element<'a>, rules: &M)
    requires
        root.doc()@.len() <= usize::MAX,
    ensures
        forall|k: int|
            0 <= k < selection(root, rules).len() ==> {
                let found = #[trigger] selection(root, rules)[k];
                &&& found.doc() == root.doc()
                &&& root.index() < found.index() < root.doc()@.len()
                &&& is_match(root.doc()@, root.index(), rules, found.index())
            },
        forall|j: int, k: int|
            0 <= j < k < selection(root, rules).len() ==> selection(root, rules)[j].index()
                < selection(root, rules)[k].index(),
        forall|index: usize|
            index < root.doc()@.len() && is_match(root.doc()@, root.index(), rules, index)
                ==> selection(root, rules).contains(#[trigger] Element::at(root.doc(), index)),
{
    let ids = matching(root.doc()@, root.index(), rules);
    let all = selection(root, rules);
    lemma_matching(root.doc()@, root.index(), rules);
    assert forall|k: int| 0 <= k < all.len() implies {
        let found = #[trigger] all[k];
        &&& found.doc() == root.doc()
        &&& root.index() < found.index() < root.doc()@.len()
        &&& is_match(root.doc()@, root.index(), rules, found.index())
    } by {
        Element::lemma_at(root.doc(), ids[k]);
        assert(ids.contains(ids[k]));
        lemma_descends_behind(root.doc()@, ids[k] as int, root.index() as int);
    }
    assert forall|j: int, k: int| 0 <= j < k < all.len() implies all[j].index()
        < all[k].index() by {
        Element::lemma_at(root.doc(), ids[j]);
        Element::lemma_at(root.doc(), ids[k]);
    }
    assert forall|index: usize|
        index < root.doc()@.len() && is_match(
            root.doc()@,
            root.index(),
            rules,
            index,
        ) implies all.contains(#[trigger] Element::at(root.doc(), index)) by {
        assert(ids.contains(index));
        let k = choose|k: int| 0 <= k < ids.len() && ids[k] == index;
        assert(all[k] == Element::at(root.doc(), index));
    }
}

/// A search for at most one element fails exactly when several elements
/// match, finds nothing exactly when none does, and finds an element exactly
/// when it is the only match. The failure tells how many matched.
pub proof fn lemma_sole<E>(all: Seq<E>)
    ensures
        sole(all) is Err <==> all.len() > 1,
        sole(all) matches Err(e) ==> all.len() <= usize::MAX ==> e.count == all.len(),
        sole(all) == Ok::<Option<E>, AmbiguousMatch>(None) <==> all.len() == 0,
        forall|e: E| sole(all) == Ok::<Option<E>, AmbiguousMatch>(Some(e)) <==> all == seq![e],
{
    assert forall|e: E| sole(all) == Ok::<Option<E>, AmbiguousMatch>(Some(e)) <==> all
        == seq![e] by {
        if all.len() == 1 && all[0] == e {
            assert(all =~= seq![e]);
        }
        if all == seq![e] {
            assert(all.len() == 1 && all[0] == e);
        }
    }
}

/// Searching twice below the same element with the same rules gives the same
/// elements in the same order, however the two results were come by.
pub proof fn lemma_selection_repeats<'a, M: Matcher>(
    root: &Element<'a>,
    rules: &M,
    first: Seq<Element<'a>>,
    second: Seq<Element<'a>>,
)
    requires
        first == selection(root, rules),
        second == selection(root, rules),
    ensures
        first == second,
        sole(first) == sole(second),
{
}

} // verus!
