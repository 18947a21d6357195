//! A snapshot of a document tree, and handles into it.
//!
//! The nodes of a [`Document`] stand in document order: every node comes
//! after its parent, and a subtree is laid out before the next sibling begins.
//! What only a rendering host can tell (the text that an element shows, the
//! labels that belong to a control) is stored with the node.
use vstd::prelude::*;

verus! {

/// One attribute of an element.
pub struct Attribute {
    pub name: String,
    pub value: String,
}

/// The kinds of HTML element that the matchers tell apart.
pub enum ElementKind {
    /// An `<input>`, with the type of control it resolves to and its placeholder.
    Input { input_type: String, placeholder: String },
    Button,
    Meter,
    Output,
    Progress,
    Select,
    /// A `<textarea>`, with its placeholder.
    TextArea { placeholder: String },
    Label,
    /// Any other HTML element.
    Other,
}

/// A node of the tree.
pub struct Node {
    /// The index of the parent node, if the node has one.
    pub parent: Option<usize>,
    /// The kind of HTML element that this node is. `None` for text, comments
    /// and elements that are not HTML elements.
    pub element: Option<ElementKind>,
    /// The tag name, in whatever case the host reports it.
    pub tag: String,
    pub attributes: Vec<Attribute>,
    /// The text of the node and of everything below it.
    pub text_content: String,
    /// The text as it is rendered: what style rules hide is not part of it.
    pub inner_text: String,
    /// The text content of each label that the host associates with this node.
    pub labels: Vec<String>,
    /// Whether the node is part of the document, not of a detached tree.
    pub connected: bool,
}

/// The value of the first attribute called `name` at or after `start`.
pub open spec fn attribute_from(attrs: Seq<Attribute>, name: Seq<char>, start: int) -> Option<
    Seq<char>,
>
    decreases attrs.len() - start,
{
    if start < 0 || start >= attrs.len() {
        None
    } else if attrs[start].name@ == name {
        Some(attrs[start].value@)
    } else {
        attribute_from(attrs, name, start + 1)
    }
}

impl Node {
    /// The value of the attribute called `name`, if the node carries one.
    pub open spec fn attribute(&self, name: Seq<char>) -> Option<Seq<char>> {
        attribute_from(self.attributes@, name, 0)
    }

    /// Whether the node is an HTML element.
    pub open spec fn is_html(&self) -> bool {
        self.element.is_some()
    }

    /// Whether the node is an HTML `<label>`.
    pub open spec fn is_label(&self) -> bool {
        self.element == Some(ElementKind::Label)
    }

    /// Whether the node is the element of the document that has the id `id`.
    /// An empty `id` attribute gives an element no id.
    pub open spec fn has_id(&self, id: Seq<char>) -> bool {
        self.connected && id.len() > 0 && self.attribute("id"@) == Some(id)
    }

    /// Whether the node is an HTML element.
    pub fn is_html_element(&self) -> (html: bool)
        ensures
            html == self.is_html(),
    {
        self.element.is_some()
    }

    /// Whether the node is an HTML `<label>`.
    pub fn is_label_element(&self) -> (label: bool)
        ensures
            label == self.is_label(),
    {
        match &self.element {
            Some(ElementKind::Label) => true,
            _ => false,
        }
    }

    /// Whether the parent of the node is the node at index `parent`.
    pub fn is_child_of(&self, parent: usize) -> (child: bool)
        ensures
            child == (self.parent == Some(parent)),
    {
        match self.parent {
            Some(p) => p == parent,
            None => false,
        }
    }

    /// Whether the node has a parent that does not come before the node at
    /// index `first`.
    pub fn hangs_from(&self, first: usize) -> (hangs: bool)
        ensures
            hangs == (self.parent matches Some(p) && p >= first),
    {
        match self.parent {
            Some(p) => p >= first,
            None => false,
        }
    }

    /// Looks an attribute up by its name.
    pub fn get_attribute(&self, name: &str) -> (value: Option<&str>)
        ensures
            match value {
                Some(v) => self.attribute(name@) == Some(v@),
                None => self.attribute(name@).is_none(),
            },
    {
        let mut i: usize = 0;
        while i < self.attributes.len()
            invariant
                i <= self.attributes@.len(),
                attribute_from(self.attributes@, name@, i as int) == self.attribute(name@),
            decreases self.attributes@.len() - i,
        {
            if crate::text::same_text(self.attributes[i].name.as_str(), name) {
                return Some(self.attributes[i].value.as_str());
            }
            i += 1;
        }
        None
    }
}

/// Whether `child` is the index of a node whose parent is the node at `parent`.
pub open spec fn is_child(nodes: Seq<Node>, child: int, parent: usize) -> bool {
    0 <= child < nodes.len() && nodes[child].parent == Some(parent)
}

/// Whether the node at `index` lies below the node at `root`: whether `root`
/// is its parent, or the parent of its parent, and so on. Only parents that
/// come before their children are followed.
pub open spec fn descends(nodes: Seq<Node>, index: int, root: int) -> bool
    decreases index,
{
    0 <= index < nodes.len() && match nodes[index].parent {
        Some(p) => p < index && (p == root || descends(nodes, p as int, root)),
        None => false,
    }
}

/// Whether the node at `index` stands where document order puts it: behind
/// its parent, with nothing but other nodes of that parent in between.
pub open spec fn placed(nodes: Seq<Node>, index: int) -> bool {
    match nodes[index].parent {
        Some(p) => p < index && forall|j: int|
            p < j < index ==> #[trigger] descends(nodes, j, p as int),
        None => true,
    }
}

/// Whether the nodes stand in document order: every node behind its parent,
/// and the nodes below a node right behind it, one subtree after the other.
pub open spec fn in_document_order(nodes: Seq<Node>) -> bool {
    forall|i: int| 0 <= i < nodes.len() ==> #[trigger] placed(nodes, i)
}

/// Whether a node with this parent comes next in document order: a node
/// without a parent, which begins a new tree, or a node below the last node
/// or below one of the nodes that the last node lies below.
pub open spec fn comes_next(nodes: Seq<Node>, parent: Option<usize>) -> bool {
    match parent {
        Some(p) => nodes.len() > 0 && (p == nodes.len() - 1 || descends(
            nodes,
            nodes.len() - 1,
            p as int,
        )),
        None => true,
    }
}

/// A node lies behind every node that it lies below.
pub proof fn lemma_descends_behind(nodes: Seq<Node>, index: int, root: int)
    requires
        descends(nodes, index, root),
    ensures
        0 <= root < index < nodes.len(),
    decreases index,
{
    let p = nodes[index].parent->Some_0;
    if p != root {
        lemma_descends_behind(nodes, p as int, root);
    }
}

/// What lies below a node lies below everything that the node lies below.
pub proof fn lemma_descends_transitive(nodes: Seq<Node>, index: int, middle: int, root: int)
    requires
        descends(nodes, index, middle),
        descends(nodes, middle, root),
    ensures
        descends(nodes, index, root),
    decreases index,
{
    let p = nodes[index].parent->Some_0;
    if p != middle {
        lemma_descends_transitive(nodes, p as int, middle, root);
    }
}

/// Adding a node at the end changes nothing below the nodes that were there.
pub proof fn lemma_descends_push(nodes: Seq<Node>, node: Node, index: int, root: int)
    requires
        index < nodes.len(),
    ensures
        descends(nodes.push(node), index, root) == descends(nodes, index, root),
    decreases index,
{
    if 0 <= index {
        if let Some(p) = nodes[index].parent {
            if p < index && p != root {
                lemma_descends_push(nodes, node, p as int, root);
            }
        }
    }
}

/// In document order a subtree has no gaps: between a node and a node below
/// it stand only nodes below it.
pub proof fn lemma_subtree_is_contiguous(nodes: Seq<Node>, index: int, root: int, between: int)
    requires
        in_document_order(nodes),
        descends(nodes, index, root),
        root < between <= index,
    ensures
        descends(nodes, between, root),
    decreases index,
{
    if between < index {
        let p = nodes[index].parent->Some_0;
        assert(placed(nodes, index));
        if p == root {
        } else if p < between {
            lemma_descends_transitive(nodes, between, p as int, root);
        } else {
            lemma_subtree_is_contiguous(nodes, p as int, root, between);
        }
    }
}

/// In document order the nodes below a node are the run of nodes right
/// behind it whose parents do not come before it: where all nodes between
/// `root` and `index` lie below `root`, the node at `index` does so exactly
/// when its parent is `root` or comes behind `root`.
pub proof fn lemma_subtree_goes_on(nodes: Seq<Node>, root: int, index: int)
    requires
        in_document_order(nodes),
        0 <= root < index < nodes.len(),
        forall|j: int| root < j < index ==> descends(nodes, j, root),
    ensures
        descends(nodes, index, root) == (nodes[index].parent matches Some(p) && p >= root),
{
    assert(placed(nodes, index));
    if let Some(p) = nodes[index].parent {
        if descends(nodes, index, root) && p != root {
            lemma_descends_behind(nodes, p as int, root);
        }
        if p > root {
            assert(descends(nodes, p as int, root));
        }
    }
}

/// In document order nothing lies below a node behind the first node that
/// does not.
pub proof fn lemma_subtree_ends(nodes: Seq<Node>, root: int, end: int, index: int)
    requires
        in_document_order(nodes),
        root < end <= index,
        !descends(nodes, end, root),
    ensures
        !descends(nodes, index, root),
{
    if descends(nodes, index, root) {
        lemma_subtree_is_contiguous(nodes, index, root, end);
    }
}

/// In document order a child lies below its parent, and so behind it.
pub proof fn lemma_child_is_below(nodes: Seq<Node>, child: int, parent: usize)
    requires
        in_document_order(nodes),
        is_child(nodes, child, parent),
    ensures
        descends(nodes, child, parent as int),
        parent < child,
{
    assert(placed(nodes, child));
}

/// In document order the children of a node stand in the run of nodes behind
/// it that lie below it: where the run ends at `end`, no child follows.
pub proof fn lemma_children_end(nodes: Seq<Node>, parent: usize, end: int)
    requires
        in_document_order(nodes),
        parent < end <= nodes.len(),
        forall|j: int| parent < j < end ==> descends(nodes, j, parent as int),
        end < nodes.len() ==> !(nodes[end].parent matches Some(p) && p >= parent),
    ensures
        forall|k: int| end <= k ==> !is_child(nodes, k, parent),
{
    assert forall|k: int| end <= k implies !is_child(nodes, k, parent) by {
        if is_child(nodes, k, parent) {
            lemma_child_is_below(nodes, k, parent);
            lemma_subtree_goes_on(nodes, parent as int, end);
            lemma_subtree_ends(nodes, parent as int, end, k);
        }
    }
}

/// Document order is kept when a node is added where it comes next.
pub proof fn lemma_push_keeps_order(nodes: Seq<Node>, node: Node)
    requires
        in_document_order(nodes),
        comes_next(nodes, node.parent),
    ensures
        in_document_order(nodes.push(node)),
{
    let after = nodes.push(node);
    assert forall|i: int| 0 <= i < after.len() implies #[trigger] placed(after, i) by {
        if i < nodes.len() {
            assert(placed(nodes, i));
            if let Some(p) = nodes[i].parent {
                assert forall|j: int| p < j < i implies #[trigger] descends(
                    after,
                    j,
                    p as int,
                ) by {
                    assert(descends(nodes, j, p as int));
                    lemma_descends_push(nodes, node, j, p as int);
                }
            }
        } else if let Some(p) = node.parent {
            if p != nodes.len() - 1 {
                lemma_descends_behind(nodes, nodes.len() - 1, p as int);
            }
            assert forall|j: int| p < j < i implies #[trigger] descends(after, j, p as int) by {
                lemma_subtree_is_contiguous(nodes, nodes.len() - 1, p as int, j);
                lemma_descends_push(nodes, node, j, p as int);
            }
        }
    }
}

/// A snapshot of a document tree: its nodes, in document order.
pub struct Document {
    nodes: Vec<Node>,
}

impl View for Document {
    type V = Seq<Node>;

    closed spec fn view(&self) -> Seq<Node> {
        self.nodes@
    }
}

impl Document {
    /// The nodes stand in document order.
    #[verifier::type_invariant]
    spec fn wf(&self) -> bool {
        in_document_order(self.nodes@)
    }

    /// A document without nodes.
    pub fn new() -> (doc: Document)
        ensures
            doc@.len() == 0,
    {
        Document { nodes: Vec::new() }
    }

    /// The number of nodes.
    pub fn len(&self) -> (n: usize)
        ensures
            n == self@.len(),
    {
        self.nodes.len()
    }

    /// Adds `node` behind the nodes that are there and returns its index.
    /// A node that does not come next in document order is not added: its
    /// parent must be the last node or a node that the last node lies below.
    pub fn push(&mut self, node: Node) -> (index: Option<usize>)
        ensures
            in_document_order(final(self)@),
            match index {
                Some(i) => comes_next(old(self)@, node.parent) && i == old(self)@.len()
                    && final(self)@ == old(self)@.push(node),
                None => !comes_next(old(self)@, node.parent) && final(self)@ == old(self)@,
            },
    {
        proof {
            use_type_invariant(&*self);
        }
        let count = self.nodes.len();
        let valid = match node.parent {
            Some(p) => match self.last() {
                Some(last) => p == count - 1 || last.descends_from(p),
                None => false,
            },
            None => true,
        };
        if valid {
            proof {
                lemma_push_keeps_order(self.nodes@, node);
            }
            let mut taken = Document::new();
            core::mem::swap(self, &mut taken);
            let mut nodes = taken.nodes;
            let i = nodes.len();
            nodes.push(node);
            *self = Document { nodes };
            Some(i)
        } else {
            None
        }
    }

    /// A handle to the last node, if the document has nodes.
    pub fn last(&self) -> (handle: Option<Element<'_>>)
        ensures
            match handle {
                Some(e) => self@.len() > 0 && e == Element::at(self, (self@.len() - 1) as usize)
                    && e.doc() == self && e.index() == self@.len() - 1,
                None => self@.len() == 0,
            },
    {
        let count = self.nodes.len();
        if count > 0 {
            self.element(count - 1)
        } else {
            None
        }
    }

    /// The node at `index`.
    pub fn node(&self, index: usize) -> (node: &Node)
        requires
            index < self@.len(),
        ensures
            *node == self@[index as int],
    {
        &self.nodes[index]
    }

    /// A handle to the node at `index`, if there is one.
    pub fn element(&self, index: usize) -> (handle: Option<Element<'_>>)
        ensures
            match handle {
                Some(e) => index < self@.len() && e == Element::at(self, index) && e.doc() == self
                    && e.index() == index,
                None => index >= self@.len(),
            },
    {
        if index < self.nodes.len() {
            Some(Element { doc: self, id: index })
        } else {
            None
        }
    }
}

/// A handle to one node of a document.
#[derive(Clone, Copy)]
pub struct Element<'a> {
    doc: &'a Document,
    id: usize,
}

impl<'a> Element<'a> {
    #[verifier::type_invariant]
    closed spec fn inv(&self) -> bool {
        self.id < self.doc@.len()
    }

    /// The handle to the node at `index` of `doc`.
    pub closed spec fn at(doc: &'a Document, index: usize) -> Element<'a> {
        Element { doc, id: index }
    }

    /// A handle is known by its document and its index.
    pub broadcast proof fn lemma_at(doc: &'a Document, index: usize)
        ensures
            (#[trigger] Element::at(doc, index)).doc() == doc,
            Element::at(doc, index).index() == index,
    {
    }

    /// The document that the handle points into.
    pub closed spec fn doc(&self) -> &'a Document {
        self.doc
    }

    /// The index of the node in its document.
    pub closed spec fn index(&self) -> usize {
        self.id
    }

    /// The node that the handle points at.
    pub open spec fn data(&self) -> Node {
        self.doc()@[self.index() as int]
    }

    /// The index of the node in its document.
    pub fn id(&self) -> (id: usize)
        ensures
            id == self.index(),
            id < self.doc()@.len(),
    {
        proof {
            use_type_invariant(self);
        }
        self.id
    }

    /// The document that the handle points into.
    pub fn document(&self) -> (doc: &'a Document)
        ensures
            doc == self.doc(),
            in_document_order(doc@),
    {
        proof {
            use_type_invariant(self.doc);
        }
        self.doc
    }

    /// A handle to the parent node, if the node has one. The parent comes
    /// before the node.
    pub fn parent(&self) -> (parent: Option<Element<'a>>)
        ensures
            self.index() < self.doc()@.len(),
            match parent {
                Some(p) => self.data().parent == Some(p.index()) && p.doc() == self.doc()
                    && p.index() < self.index(),
                None => self.data().parent.is_none(),
            },
    {
        proof {
            use_type_invariant(self);
            use_type_invariant(self.doc);
            assert(placed(self.doc.nodes@, self.id as int));
        }
        match self.doc.nodes[self.id].parent {
            Some(p) => Some(Element { doc: self.doc, id: p }),
            None => None,
        }
    }

    /// Whether the node lies below the node at index `root`.
    pub fn descends_from(&self, root: usize) -> (below: bool)
        ensures
            below == descends(self.doc()@, self.index() as int, root as int),
    {
        let mut current = *self;
        loop
            invariant
                current.doc() == self.doc(),
                descends(self.doc()@, current.index() as int, root as int) == descends(
                    self.doc()@,
                    self.index() as int,
                    root as int,
                ),
            decreases current.index(),
        {
            match current.parent() {
                Some(p) => {
                    if p.id() == root {
                        return true;
                    }
                    if p.id() < root {
                        // What a node lies below comes before it.
                        proof {
                            if descends(self.doc()@, p.index() as int, root as int) {
                                lemma_descends_behind(self.doc()@, p.index() as int, root as int);
                            }
                        }
                        return false;
                    }
                    current = p;
                },
                None => {
                    return false;
                },
            }
        }
    }

    /// The node that the handle points at.
    pub fn node(&self) -> (node: &'a Node)
        ensures
            *node == self.data(),
    {
        proof {
            use_type_invariant(self);
        }
        self.doc.node(self.id)
    }
}

} // verus!
