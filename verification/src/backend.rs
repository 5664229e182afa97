//! The backend capability interface: handles into a live node tree, the
//! mathematical view of such a tree, and the contract that every concrete
//! host binding satisfies.

use vstd::prelude::*;

use crate::listener::{
    change_payload_matches, change_supported, spec_input_value, ChangeData, InputData, InputEvent,
};

verus! {

/// The kind of a live node: an element or a text node.
#[derive(Clone, Copy, PartialEq, Eq, Structural, Debug)]
pub enum NodeKind {
    ElementKind,
    TextKind,
}

/// A generic handle to a live node. Handles are non-owning lookup keys into
/// the backend's node table; they carry the node's kind so that narrowing
/// conversions need no backend access.
#[derive(Clone, Copy, PartialEq, Eq, Structural, Debug)]
pub struct Node {
    pub id: usize,
    pub kind: NodeKind,
}

/// A handle to a live element.
#[derive(Clone, Copy, PartialEq, Eq, Structural, Debug)]
pub struct Element {
    pub id: usize,
}

/// A handle to a live text node.
#[derive(Clone, Copy, PartialEq, Eq, Structural, Debug)]
pub struct TextNode {
    pub id: usize,
}

/// A handle to the host window.
#[derive(Clone, Copy, Debug)]
pub struct Window {
    pub id: usize,
}

/// A handle to the host document.
#[derive(Clone, Copy, Debug)]
pub struct Document {
    pub id: usize,
}

/// The widening of a text-node handle into a generic node handle.
pub open spec fn node_of_text(t: TextNode) -> Node {
    Node { id: t.id, kind: NodeKind::TextKind }
}

/// The widening of an element handle into a generic node handle.
pub open spec fn node_of_element(e: Element) -> Node {
    Node { id: e.id, kind: NodeKind::ElementKind }
}

/// A non-owning reference used to locate "the next sibling to insert before"
/// during patching; empty before the node it tracks has been rendered.
#[derive(Clone, Copy, Debug)]
pub struct NodeRef {
    node: Option<Node>,
}

impl View for NodeRef {
    type V = Option<Node>;

    closed spec fn view(&self) -> Option<Node> {
        self.node
    }
}

impl Default for NodeRef {
    /// A reference that points at nothing yet.
    fn default() -> (r: NodeRef)
        ensures
            r@ == None::<Node>,
    {
        NodeRef { node: None }
    }
}

impl NodeRef {
    /// A reference that points at the given live node.
    pub fn new(node: Node) -> (r: NodeRef)
        ensures
            r@ == Some(node),
    {
        NodeRef { node: Some(node) }
    }

    /// A reference that points at nothing yet.
    pub fn empty() -> (r: NodeRef)
        ensures
            r@ == None::<Node>,
    {
        NodeRef { node: None }
    }

    /// The node this reference currently points at, if any.
    pub fn get(&self) -> (r: Option<Node>)
        ensures
            r == self@,
    {
        self.node
    }
}

/// What the logic reads of a live element: its tag name, its `type`
/// attribute, its current control value, its textual content (absent on
/// nodes that carry none), and the file list of a file-upload control.
#[derive(Clone, Debug)]
pub struct ElementData {
    pub tag: String,
    pub type_attr: Option<String>,
    pub value: String,
    pub text_content: Option<String>,
    pub files: Vec<String>,
}

/// The mathematical view of an element's data.
#[verifier::ext_equal]
pub ghost struct ElementDataView {
    pub tag: Seq<char>,
    pub type_attr: Option<Seq<char>>,
    pub value: Seq<char>,
    pub text_content: Option<Seq<char>>,
    pub files: Seq<Seq<char>>,
}

impl View for ElementData {
    type V = ElementDataView;

    open spec fn view(&self) -> ElementDataView {
        ElementDataView {
            tag: self.tag@,
            type_attr: match self.type_attr {
                Some(s) => Some(s@),
                None => None,
            },
            value: self.value@,
            text_content: match self.text_content {
                Some(s) => Some(s@),
                None => None,
            },
            files: self.files.deep_view(),
        }
    }
}

/// The mathematical view of a live element: its data and its children, in
/// document order.
#[verifier::ext_equal]
pub ghost struct ElemView {
    pub data: ElementDataView,
    pub children: Seq<Node>,
}

/// The mathematical view of a whole backend: the live text nodes and their
/// contents, the live elements with their children, how many node ids have
/// been handed out, how many content writes (text-node creations and value
/// updates) have been issued, and the origin and host strings the
/// environment exposes (`Err` carries the host's diagnostic, if it gave one).
#[verifier::ext_equal]
pub ghost struct DomView {
    pub texts: Map<int, Seq<char>>,
    pub elems: Map<int, ElemView>,
    pub next_id: int,
    pub writes: nat,
    pub origin: Result<Seq<char>, Option<Seq<char>>>,
    pub host: Result<Seq<char>, Option<Seq<char>>>,
}

/// Whether the view holds a live text node for this handle.
pub open spec fn live_text(v: DomView, t: TextNode) -> bool {
    v.texts.dom().contains(t.id as int)
}

/// Whether the view holds a live element for this handle.
pub open spec fn live_elem(v: DomView, e: Element) -> bool {
    v.elems.dom().contains(e.id as int)
}

/// Whether the view holds a live node of the handle's kind.
pub open spec fn node_live(v: DomView, n: Node) -> bool {
    match n.kind {
        NodeKind::ElementKind => v.elems.dom().contains(n.id as int),
        NodeKind::TextKind => v.texts.dom().contains(n.id as int),
    }
}

/// The children of a live element, in document order.
pub open spec fn children_of(v: DomView, e: Element) -> Seq<Node> {
    v.elems[e.id as int].children
}

/// Whether the node hangs under no element: it is fresh, or has been
/// detached.
pub open spec fn node_detached(v: DomView, n: Node) -> bool {
    forall|e: int| v.elems.dom().contains(e) ==> !(#[trigger] v.elems[e].children).contains(n)
}

/// The position of a node in a child list. Under a well-formed view a node
/// occurs at most once, so the position is determined.
pub open spec fn node_index(cs: Seq<Node>, n: Node) -> int {
    choose|i: int| 0 <= i < cs.len() && cs[i] == n
}

/// A child list into which a node was inserted immediately before the given
/// sibling, or at the end when no sibling is given.
pub open spec fn inserted_before(cs: Seq<Node>, n: Node, next_sibling: Option<Node>) -> Seq<
    Node,
> {
    match next_sibling {
        Some(s) => cs.insert(node_index(cs, s), n),
        None => cs.push(n),
    }
}

/// A child list from which the given node was removed, if it was there at
/// all.
pub open spec fn removed_node(cs: Seq<Node>, n: Node) -> Seq<Node> {
    if cs.contains(n) {
        cs.remove(node_index(cs, n))
    } else {
        cs
    }
}

/// The view, with the children of one element replaced. Nothing else
/// changes.
pub open spec fn with_children(v: DomView, e: Element, cs: Seq<Node>) -> DomView {
    DomView {
        elems: v.elems.insert(
            e.id as int,
            ElemView { data: v.elems[e.id as int].data, children: cs },
        ),
        ..v
    }
}

/// The view after a detach: the node no longer hangs under the parent.
/// Detaching a node that was not there changes nothing.
pub open spec fn detached_view(v: DomView, parent: Element, n: Node) -> DomView {
    with_children(v, parent, removed_node(children_of(v, parent), n))
}

/// The view after a fresh mount: a new text node with the given content,
/// hung under the parent immediately before the given sibling (or last), at
/// the cost of one content write.
pub open spec fn mounted_fresh(
    v: DomView,
    text: Seq<char>,
    parent: Element,
    next_sibling: Option<Node>,
) -> DomView {
    let n = Node { id: v.next_id as usize, kind: NodeKind::TextKind };
    DomView {
        texts: v.texts.insert(v.next_id, text),
        elems: v.elems.insert(
            parent.id as int,
            ElemView {
                data: v.elems[parent.id as int].data,
                children: inserted_before(children_of(v, parent), n, next_sibling),
            },
        ),
        next_id: v.next_id + 1,
        writes: v.writes + 1,
        ..v
    }
}

/// Well-formedness of a backend view: the id watermark is a machine-sized
/// count, every handle that a child list holds is live and below it, text
/// and element ids never collide, and no node hangs under two parents or
/// twice under one.
pub open spec fn view_wf(v: DomView) -> bool {
    &&& 0 <= v.next_id <= usize::MAX as int
    &&& forall|i: int| #[trigger] v.texts.dom().contains(i) ==> 0 <= i < v.next_id
    &&& forall|i: int| #[trigger] v.elems.dom().contains(i) ==> 0 <= i < v.next_id
    &&& forall|i: int| v.texts.dom().contains(i) ==> !(#[trigger] v.elems.dom().contains(i))
    &&& forall|e: int, j: int|
        v.elems.dom().contains(e) && 0 <= j < v.elems[e].children.len() ==> node_live(
            v,
            #[trigger] v.elems[e].children[j],
        )
    &&& forall|e1: int, j1: int, e2: int, j2: int|
        v.elems.dom().contains(e1) && 0 <= j1 < v.elems[e1].children.len()
            && v.elems.dom().contains(e2) && 0 <= j2 < v.elems[e2].children.len() && (
        #[trigger] v.elems[e1].children[j1]).id == (#[trigger] v.elems[e2].children[j2]).id
            ==> e1 == e2 && j1 == j2
}

/// The last child of the list that is an element, if any.
pub open spec fn last_element_child(cs: Seq<Node>) -> Option<Element>
    decreases cs.len(),
{
    if cs.len() == 0 {
        None
    } else if cs.last().kind is ElementKind {
        Some(Element { id: cs.last().id })
    } else {
        last_element_child(cs.drop_last())
    }
}

/// A recoverable environment error: the host refused to expose a location
/// component; the message carries its diagnostic, or a fixed fallback.
#[derive(Clone, Debug)]
pub struct EnvError {
    pub message: String,
}

impl EnvError {
    /// Wraps the host's diagnostic; the fixed fallback message stands in
    /// when the host gives none.
    pub fn from_diagnostic(diag: Option<String>) -> (r: EnvError)
        ensures
            (match diag {
                Some(d) => r.message == d,
                None => r.message@ == "error not recoverable"@,
            }),
    {
        EnvError {
            message: match diag {
                Some(d) => d,
                None => "error not recoverable".to_owned(),
            },
        }
    }
}

/// How a location read (`origin` or `host`) relates to what the environment
/// exposes: success passes the string through; refusal carries the host's
/// diagnostic when there is one, and the fixed fallback message otherwise.
pub open spec fn location_result_matches(
    r: Result<String, EnvError>,
    info: Result<Seq<char>, Option<Seq<char>>>,
) -> bool {
    match (r, info) {
        (Ok(s), Ok(o)) => s@ == o,
        (Err(e), Err(diag)) => match diag {
            Some(d) => e.message@ == d,
            None => e.message@ == "error not recoverable"@,
        },
        _ => false,
    }
}

/// The minimum a host environment must provide: obtain window and document
/// handles, create, remove and insert nodes, read an element's identity and
/// textual content, derive origin and host strings from the current
/// location, and normalize input and change occurrences. The engine depends
/// only on this contract, never on a concrete binding.
pub trait DomBackend: Sized + View<V = DomView> {
    /// Returns the current window.
    fn get_window(&self) -> Window;

    /// Returns the current document.
    fn get_document(&self) -> Document;

    /// Returns the `origin` of the current window, or the environment's
    /// refusal with its diagnostic (with a fixed fallback message when the
    /// host gives none).
    fn get_origin(&self) -> (r: Result<String, EnvError>)
        ensures
            location_result_matches(r, self@.origin),
    ;

    /// Returns the `host` of the current location, under the same contract
    /// as the origin.
    fn get_host(&self) -> (r: Result<String, EnvError>)
        ensures
            location_result_matches(r, self@.host),
    ;

    /// The widening conversion from an element handle to a generic node
    /// handle; total, never fails.
    fn element_as_node(element: &Element) -> (n: Node)
        ensures
            n == node_of_element(*element),
    ;

    /// The last child of the element that is itself an element; nothing when
    /// it has no such child.
    fn element_last_child(&self, element: &Element) -> (r: Option<Element>)
        requires
            live_elem(self@, *element),
        ensures
            r == last_element_child(children_of(self@, *element)),
    ;

    /// Removes a child from an element and hands it back; fails, changing
    /// nothing, when the node is not actually a child of the element.
    fn element_remove_child(&mut self, element: &Element, child: &Node) -> (r: Result<Node, ()>)
        requires
            view_wf(old(self)@),
            live_elem(old(self)@, *element),
        ensures
            view_wf(final(self)@),
            (if children_of(old(self)@, *element).contains(*child) {
                r == Ok::<Node, ()>(*child) && final(self)@ == with_children(
                    old(self)@,
                    *element,
                    removed_node(children_of(old(self)@, *element), *child),
                )
            } else {
                r == Err::<Node, ()>(()) && final(self)@ == old(self)@
            }),
    ;

    /// Creates a fresh, not yet inserted text node with the given content;
    /// one content write.
    fn create_text_node(&mut self, text: &String) -> (t: TextNode)
        requires
            view_wf(old(self)@),
            old(self)@.next_id < usize::MAX as int,
            old(self)@.writes < u64::MAX,
        ensures
            view_wf(final(self)@),
            t.id as int == old(self)@.next_id,
            final(self)@ == (DomView {
                texts: old(self)@.texts.insert(t.id as int, text@),
                next_id: old(self)@.next_id + 1,
                writes: old(self)@.writes + 1,
                ..old(self)@
            }),
            node_detached(final(self)@, node_of_text(t)),
    ;

    /// Inserts a detached live node into an element's child list,
    /// immediately before the given sibling, or as the last child when no
    /// sibling is given; no content write.
    fn insert_node(&mut self, node: &Node, parent: &Element, next_sibling: Option<Node>)
        requires
            view_wf(old(self)@),
            live_elem(old(self)@, *parent),
            node_live(old(self)@, *node),
            node_detached(old(self)@, *node),
            (match next_sibling {
                Some(s) => children_of(old(self)@, *parent).contains(s),
                None => true,
            }),
        ensures
            view_wf(final(self)@),
            final(self)@ == with_children(
                old(self)@,
                *parent,
                inserted_before(children_of(old(self)@, *parent), *node, next_sibling),
            ),
    ;

    /// Replaces a live text node's content; one content write.
    fn set_node_value(&mut self, node: &TextNode, text: &String)
        requires
            view_wf(old(self)@),
            live_text(old(self)@, *node),
            old(self)@.writes < u64::MAX,
        ensures
            view_wf(final(self)@),
            final(self)@ == (DomView {
                texts: old(self)@.texts.insert(node.id as int, text@),
                writes: old(self)@.writes + 1,
                ..old(self)@
            }),
    ;

    /// Reads a live text node's content.
    fn text_value(&self, node: &TextNode) -> (r: String)
        requires
            live_text(self@, *node),
        ensures
            r@ == self@.texts[node.id as int],
    ;

    /// Reads an element's identity: its tag name.
    fn element_node_name(&self, element: &Element) -> (r: String)
        requires
            live_elem(self@, *element),
        ensures
            r@ == self@.elems[element.id as int].data.tag,
    ;

    /// Attempts to narrow a node reference to the given capability; nothing
    /// when the reference is empty or points at a node of another kind.
    /// Never panics.
    fn cast_node_ref<INTO: FromNode>(node_ref: &NodeRef) -> (r: Option<INTO>)
        ensures
            r == (match node_ref@ {
                Some(n) => if INTO::accepts(n) {
                    Some(INTO::of_node(n))
                } else {
                    None::<INTO>
                },
                None => None::<INTO>,
            }),
    ;

    /// Normalizes an input occurrence on an element that can produce one.
    fn oninput_handler(&self, this: &Element, event: InputEvent) -> (d: InputData)
        requires
            live_elem(self@, *this),
            spec_input_value(self@.elems[this.id as int].data) is Some,
        ensures
            Some(d.value@) == spec_input_value(self@.elems[this.id as int].data),
            d.event == event,
    ;

    /// Normalizes a change occurrence on an element that can produce one.
    fn onchange_handler(&self, this: &Element) -> (d: ChangeData)
        requires
            live_elem(self@, *this),
            change_supported(self@.elems[this.id as int].data),
        ensures
            change_payload_matches(*this, self@.elems[this.id as int].data, d),
    ;
}

/// The capability types a generic node handle can be narrowed to.
pub trait FromNode: Sized {
    /// Whether this capability accepts the node.
    spec fn accepts(n: Node) -> bool;

    /// The narrowed handle, on an accepted node.
    spec fn of_node(n: Node) -> Self;

    /// Narrows the node handle; nothing on a kind mismatch, never a panic.
    fn from_node(n: &Node) -> (r: Option<Self>)
        ensures
            r == (if Self::accepts(*n) {
                Some(Self::of_node(*n))
            } else {
                None::<Self>
            }),
    ;
}

impl FromNode for Element {
    open spec fn accepts(n: Node) -> bool {
        n.kind is ElementKind
    }

    open spec fn of_node(n: Node) -> Element {
        Element { id: n.id }
    }

    fn from_node(n: &Node) -> (r: Option<Element>) {
        match n.kind {
            NodeKind::ElementKind => Some(Element { id: n.id }),
            NodeKind::TextKind => None,
        }
    }
}

impl FromNode for TextNode {
    open spec fn accepts(n: Node) -> bool {
        n.kind is TextKind
    }

    open spec fn of_node(n: Node) -> TextNode {
        TextNode { id: n.id }
    }

    fn from_node(n: &Node) -> (r: Option<TextNode>) {
        match n.kind {
            NodeKind::TextKind => Some(TextNode { id: n.id }),
            NodeKind::ElementKind => None,
        }
    }
}

impl FromNode for Node {
    open spec fn accepts(n: Node) -> bool {
        true
    }

    open spec fn of_node(n: Node) -> Node {
        n
    }

    fn from_node(n: &Node) -> (r: Option<Node>) {
        Some(*n)
    }
}

/// The position a contained node occupies is a position where it stands.
pub proof fn lemma_node_index_of_contained(cs: Seq<Node>, n: Node)
    requires
        cs.contains(n),
    ensures
        0 <= node_index(cs, n) < cs.len(),
        cs[node_index(cs, n)] == n,
{
    let i = choose|i: int| 0 <= i < cs.len() && cs[i] == n;
    assert(0 <= i < cs.len() && cs[i] == n);
}

/// Under a well-formed view, a node stands at only one position of its
/// parent's child list, so its position is determined.
pub proof fn lemma_node_index_unique(v: DomView, e: Element, i: int, n: Node)
    requires
        view_wf(v),
        live_elem(v, e),
        0 <= i < children_of(v, e).len(),
        children_of(v, e)[i] == n,
    ensures
        children_of(v, e).contains(n),
        node_index(children_of(v, e), n) == i,
{
    let cs = children_of(v, e);
    assert(cs.contains(n));
    lemma_node_index_of_contained(cs, n);
    let j = node_index(cs, n);
    assert(cs[j].id == cs[i].id);
}

/// Removing one node from a child list keeps every other node in it.
pub proof fn lemma_removed_node_keeps(cs: Seq<Node>, n: Node, m: Node)
    requires
        cs.contains(m),
        m != n,
    ensures
        removed_node(cs, n).contains(m),
{
    if cs.contains(n) {
        lemma_node_index_of_contained(cs, n);
        let k = node_index(cs, n);
        let j = choose|j: int| 0 <= j < cs.len() && cs[j] == m;
        let cs2 = cs.remove(k);
        if j < k {
            assert(cs2[j] == m);
        } else {
            assert(j != k);
            assert(cs2[j - 1] == m);
        }
    }
}

/// Under a well-formed view a node hangs under its parent only once, so
/// removing it removes it for good.
pub proof fn lemma_removed_node_gone(v: DomView, e: Element, n: Node)
    requires
        view_wf(v),
        live_elem(v, e),
    ensures
        !removed_node(children_of(v, e), n).contains(n),
{
    let cs = children_of(v, e);
    if cs.contains(n) {
        lemma_node_index_of_contained(cs, n);
        let k = node_index(cs, n);
        let cs2 = cs.remove(k);
        if cs2.contains(n) {
            let j = choose|j: int| 0 <= j < cs2.len() && cs2[j] == n;
            if j < k {
                assert(cs[j] == n);
                lemma_node_index_unique(v, e, j, n);
            } else {
                assert(cs[j + 1] == n);
                lemma_node_index_unique(v, e, j + 1, n);
            }
            lemma_node_index_unique(v, e, k, n);
        }
    }
}

/// Replacing an element's children with nodes drawn, one position each, from
/// its previous children keeps the view well-formed.
pub proof fn lemma_wf_children_from_old(
    v: DomView,
    e: Element,
    cs2: Seq<Node>,
    f: spec_fn(int) -> int,
)
    requires
        view_wf(v),
        live_elem(v, e),
        forall|j: int|
            0 <= j < cs2.len() ==> 0 <= #[trigger] f(j) < children_of(v, e).len() && cs2[j]
                == children_of(v, e)[f(j)],
        forall|j1: int, j2: int|
            0 <= j1 < cs2.len() && 0 <= j2 < cs2.len() && j1 != j2 ==> #[trigger] f(j1)
                != #[trigger] f(j2),
    ensures
        view_wf(with_children(v, e, cs2)),
{
    let ei = e.id as int;
    let cs = children_of(v, e);
    let v2 = with_children(v, e, cs2);
    assert(v2.elems.dom() =~= v.elems.dom());
    assert forall|p: int, j: int|
        v2.elems.dom().contains(p) && 0 <= j < v2.elems[p].children.len() implies node_live(
        v2,
        v2.elems[p].children[j],
    ) by {
        if p == ei {
            assert(cs2[j] == cs[f(j)]);
            assert(node_live(v, cs[f(j)]));
        } else {
            assert(node_live(v, v.elems[p].children[j]));
        }
    }
    assert forall|e1: int, j1: int, e2: int, j2: int|
        v2.elems.dom().contains(e1) && 0 <= j1 < v2.elems[e1].children.len()
            && v2.elems.dom().contains(e2) && 0 <= j2 < v2.elems[e2].children.len()
            && (v2.elems[e1].children[j1]).id == (v2.elems[e2].children[j2]).id implies e1 == e2
        && j1 == j2 by {
        let o1 = if e1 == ei {
            f(j1)
        } else {
            j1
        };
        let o2 = if e2 == ei {
            f(j2)
        } else {
            j2
        };
        assert(v.elems[e1].children[o1] == v2.elems[e1].children[j1]);
        assert(v.elems[e2].children[o2] == v2.elems[e2].children[j2]);
        assert(e1 == e2 && o1 == o2);
        if e1 == ei {
            assert(f(j1) == f(j2));
            if j1 != j2 {
                assert(f(j1) != f(j2));
            }
        }
    }
}

/// Inserting one detached live node among nodes drawn, one position each,
/// from the element's previous children keeps the view well-formed.
pub proof fn lemma_wf_children_with_fresh(
    v: DomView,
    e: Element,
    cs2: Seq<Node>,
    f: spec_fn(int) -> int,
    k: int,
    n: Node,
)
    requires
        view_wf(v),
        live_elem(v, e),
        node_live(v, n),
        node_detached(v, n),
        0 <= k < cs2.len(),
        cs2[k] == n,
        forall|j: int|
            0 <= j < cs2.len() && j != k ==> 0 <= #[trigger] f(j) < children_of(v, e).len()
                && cs2[j] == children_of(v, e)[f(j)],
        forall|j1: int, j2: int|
            0 <= j1 < cs2.len() && 0 <= j2 < cs2.len() && j1 != j2 && j1 != k && j2 != k
                ==> #[trigger] f(j1) != #[trigger] f(j2),
    ensures
        view_wf(with_children(v, e, cs2)),
{
    let ei = e.id as int;
    let cs = children_of(v, e);
    let v2 = with_children(v, e, cs2);
    assert(v2.elems.dom() =~= v.elems.dom());
    assert forall|p: int, j: int|
        v2.elems.dom().contains(p) && 0 <= j < v2.elems[p].children.len() implies node_live(
        v2,
        v2.elems[p].children[j],
    ) by {
        if p == ei {
            if j == k {
                assert(node_live(v, n));
            } else {
                assert(cs2[j] == cs[f(j)]);
                assert(node_live(v, cs[f(j)]));
            }
        } else {
            assert(node_live(v, v.elems[p].children[j]));
        }
    }
    // No live node of another position carries the fresh node's id: it would
    // be a live child of the same kind, hence the node itself, which hangs
    // nowhere.
    assert forall|p: int, j: int|
        v.elems.dom().contains(p) && 0 <= j < v.elems[p].children.len() && (
    v.elems[p].children[j]).id == n.id implies false by {
        let c = v.elems[p].children[j];
        assert(node_live(v, c));
        if c.kind != n.kind {
            assert(v.texts.dom().contains(n.id as int) && v.elems.dom().contains(n.id as int));
        } else {
            assert(c == n);
            assert(v.elems[p].children.contains(n));
        }
    }
    assert forall|e1: int, j1: int, e2: int, j2: int|
        v2.elems.dom().contains(e1) && 0 <= j1 < v2.elems[e1].children.len()
            && v2.elems.dom().contains(e2) && 0 <= j2 < v2.elems[e2].children.len()
            && (v2.elems[e1].children[j1]).id == (v2.elems[e2].children[j2]).id implies e1 == e2
        && j1 == j2 by {
        let is_new_1 = e1 == ei && j1 == k;
        let is_new_2 = e2 == ei && j2 == k;
        if is_new_1 && is_new_2 {
        } else if is_new_1 {
            let o2 = if e2 == ei {
                f(j2)
            } else {
                j2
            };
            assert(v.elems[e2].children[o2] == v2.elems[e2].children[j2]);
            assert((v.elems[e2].children[o2]).id == n.id);
        } else if is_new_2 {
            let o1 = if e1 == ei {
                f(j1)
            } else {
                j1
            };
            assert(v.elems[e1].children[o1] == v2.elems[e1].children[j1]);
            assert((v.elems[e1].children[o1]).id == n.id);
        } else {
            let o1 = if e1 == ei {
                f(j1)
            } else {
                j1
            };
            let o2 = if e2 == ei {
                f(j2)
            } else {
                j2
            };
            assert(v.elems[e1].children[o1] == v2.elems[e1].children[j1]);
            assert(v.elems[e2].children[o2] == v2.elems[e2].children[j2]);
            assert(e1 == e2 && o1 == o2);
            if e1 == ei {
                if j1 != j2 {
                    assert(f(j1) != f(j2));
                }
            }
        }
    }
}

} // verus!
