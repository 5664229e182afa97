//! The headless backend binding: a node tree held in one side table, an
//! entry per handed-out id. It realizes the backend capability contract
//! exactly, so the engine and the tests can run against it with no host
//! environment.

use vstd::prelude::*;

use crate::backend::{
    children_of, last_element_child, lemma_node_index_unique, lemma_wf_children_from_old,
    lemma_wf_children_with_fresh, live_elem, node_detached, node_live, node_of_text, view_wf,
    with_children, Document, DomBackend, DomView, ElemView, Element, ElementData, EnvError, Node,
    NodeKind, NodeRef, TextNode, Window,
};
use crate::listener::{
    classify_change, classify_input, clone_strings, ChangeData, InputData, InputEvent,
};

verus! {

/// One node of the tree. A text node's content sits in `text`; an element's
/// data and children sit in `data` and `children`; the fields of the other
/// kind are unused padding.
struct Entry {
    kind: NodeKind,
    text: String,
    data: ElementData,
    children: Vec<Node>,
}

/// The headless binding: node entries indexed by id, the count of content
/// writes issued so far, and what the environment exposes as its location
/// (`Err` carries the host's diagnostic, if it gave one).
pub struct Renderer {
    nodes: Vec<Entry>,
    writes: u64,
    origin: Result<String, Option<String>>,
    host: Result<String, Option<String>>,
}

/// The view of a stored location string.
pub open spec fn location_view(r: Result<String, Option<String>>) -> Result<
    Seq<char>,
    Option<Seq<char>>,
> {
    match r {
        Ok(s) => Ok(s@),
        Err(d) => Err(
            match d {
                Some(s) => Some(s@),
                None => None,
            },
        ),
    }
}

impl View for Renderer {
    type V = DomView;

    closed spec fn view(&self) -> DomView {
        DomView {
            texts: Map::new(
                |i: int| 0 <= i < self.nodes@.len() && self.nodes@[i].kind is TextKind,
                |i: int| self.nodes@[i].text@,
            ),
            elems: Map::new(
                |i: int| 0 <= i < self.nodes@.len() && self.nodes@[i].kind is ElementKind,
                |i: int| ElemView { data: self.nodes@[i].data@, children: self.nodes@[i].children@ },
            ),
            next_id: self.nodes@.len() as int,
            writes: self.writes as nat,
            origin: location_view(self.origin),
            host: location_view(self.host),
        }
    }
}

/// Element data that pads the entry of a text node.
fn empty_element_data() -> ElementData {
    ElementData {
        tag: String::new(),
        type_attr: None,
        value: String::new(),
        text_content: None,
        files: Vec::new(),
    }
}

/// Copies a child list.
fn clone_nodes(v: &Vec<Node>) -> (r: Vec<Node>)
    ensures
        r@ == v@,
{
    let mut r: Vec<Node> = Vec::new();
    let mut i: usize = 0;
    while i < v.len()
        invariant
            i <= v@.len(),
            r@ == v@.subrange(0, i as int),
        decreases v@.len() - i,
    {
        r.push(v[i]);
        i = i + 1;
    }
    proof {
        assert(r@ =~= v@);
    }
    r
}

/// Copies an element's data.
fn clone_element_data(d: &ElementData) -> (r: ElementData)
    ensures
        r@ == d@,
{
    let type_attr = match &d.type_attr {
        Some(s) => Some(s.clone()),
        None => None,
    };
    let text_content = match &d.text_content {
        Some(s) => Some(s.clone()),
        None => None,
    };
    let r = ElementData {
        tag: d.tag.clone(),
        type_attr,
        value: d.value.clone(),
        text_content,
        files: clone_strings(&d.files),
    };
    proof {
        assert(r@ =~= d@);
    }
    r
}

/// The first position of a node in a child list, if it stands there at all.
fn find_child(cs: &Vec<Node>, n: Node) -> (r: Option<usize>)
    ensures
        (match r {
            Some(i) => i < cs@.len() && cs@[i as int] == n,
            None => !cs@.contains(n),
        }),
{
    let mut i: usize = 0;
    while i < cs.len()
        invariant
            i <= cs@.len(),
            forall|j: int| 0 <= j < i ==> cs@[j] != n,
        decreases cs@.len() - i,
    {
        if cs[i] == n {
            return Some(i);
        }
        i = i + 1;
    }
    None
}

impl Renderer {
    /// A fresh environment: no nodes yet, no writes issued, and a location
    /// that exposes empty origin and host strings.
    pub fn new() -> (r: Renderer)
        ensures
            r@.texts == Map::<int, Seq<char>>::empty(),
            r@.elems == Map::<int, ElemView>::empty(),
            r@.next_id == 0,
            r@.writes == 0,
            r@.origin == Ok::<Seq<char>, Option<Seq<char>>>(Seq::<char>::empty()),
            r@.host == Ok::<Seq<char>, Option<Seq<char>>>(Seq::<char>::empty()),
            view_wf(r@),
    {
        let r = Renderer {
            nodes: Vec::new(),
            writes: 0,
            origin: Ok(String::new()),
            host: Ok(String::new()),
        };
        proof {
            assert(r@.texts =~= Map::<int, Seq<char>>::empty());
            assert(r@.elems =~= Map::<int, ElemView>::empty());
        }
        r
    }

    /// Replaces what the environment exposes as its location.
    pub fn set_location(
        &mut self,
        origin: Result<String, Option<String>>,
        host: Result<String, Option<String>>,
    )
        ensures
            final(self)@ == (DomView {
                origin: location_view(origin),
                host: location_view(host),
                ..old(self)@
            }),
    {
        self.origin = origin;
        self.host = host;
        proof {
            assert(final(self)@ =~= (DomView {
                origin: location_view(origin),
                host: location_view(host),
                ..old(self)@
            }));
        }
    }

    /// Creates a fresh element with the given data and no children. Element
    /// creation is host-side scaffolding, so it counts as no content write.
    pub fn create_element(&mut self, data: ElementData) -> (e: Element)
        requires
            old(self)@.next_id < usize::MAX as int,
        ensures
            e.id as int == old(self)@.next_id,
            final(self)@ == (DomView {
                elems: old(self)@.elems.insert(
                    e.id as int,
                    ElemView { data: data@, children: Seq::<Node>::empty() },
                ),
                next_id: old(self)@.next_id + 1,
                ..old(self)@
            }),
            view_wf(old(self)@) ==> view_wf(final(self)@),
    {
        let id = self.nodes.len();
        let ghost datav = data@;
        self.nodes.push(
            Entry { kind: NodeKind::ElementKind, text: String::new(), data, children: Vec::new() },
        );
        proof {
            assert(final(self)@.texts =~= old(self)@.texts);
            assert(final(self)@.elems =~= old(self)@.elems.insert(
                id as int,
                ElemView { data: datav, children: Seq::<Node>::empty() },
            ));
            if view_wf(old(self)@) {
                lemma_wf_new_elem(old(self)@, final(self)@, id);
            }
        }
        Element { id }
    }

    /// Replaces the children of a live element; its data and everything else
    /// stay.
    fn set_children(&mut self, eid: usize, cs: Vec<Node>)
        requires
            old(self)@.elems.dom().contains(eid as int),
        ensures
            final(self)@ == with_children(old(self)@, (Element { id: eid }), cs@),
    {
        proof {
            assert(eid < self.nodes@.len());
        }
        let entry = &self.nodes[eid];
        let new_entry = Entry {
            kind: NodeKind::ElementKind,
            text: String::new(),
            data: clone_element_data(&entry.data),
            children: cs,
        };
        self.nodes[eid] = new_entry;
        proof {
            assert(final(self)@.texts =~= old(self)@.texts);
            assert(final(self)@.elems =~= with_children(
                old(self)@,
                (Element { id: eid }),
                new_entry.children@,
            ).elems);
            assert(final(self)@ =~= with_children(old(self)@, (Element { id: eid }), new_entry.children@));
        }
    }

    /// How many children a live element holds right now.
    pub fn child_count(&self, e: &Element) -> (n: usize)
        requires
            live_elem(self@, *e),
        ensures
            n == children_of(self@, *e).len(),
    {
        proof {
            assert(e.id < self.nodes@.len());
        }
        self.nodes[e.id].children.len()
    }

    /// The child of a live element at the given position.
    pub fn child_at(&self, e: &Element, i: usize) -> (n: Node)
        requires
            live_elem(self@, *e),
            i < children_of(self@, *e).len(),
        ensures
            n == children_of(self@, *e)[i as int],
    {
        proof {
            assert(e.id < self.nodes@.len());
        }
        self.nodes[e.id].children[i]
    }

    /// How many content writes (text-node creations and value updates) have
    /// been issued so far.
    pub fn write_count(&self) -> (n: u64)
        ensures
            n as nat == self@.writes,
    {
        self.writes
    }
}

/// Appending a fresh text entry keeps a well-formed view well-formed, and
/// the fresh node hangs nowhere: every child was live below the old
/// watermark.
proof fn lemma_wf_new_text(v: DomView, v2: DomView, idu: usize, text: Seq<char>)
    requires
        view_wf(v),
        v.next_id < usize::MAX as int,
        idu as int == v.next_id,
        v2.texts == v.texts.insert(idu as int, text),
        v2.elems == v.elems,
        v2.next_id == v.next_id + 1,
    ensures
        view_wf(v2),
        node_detached(v2, node_of_text((TextNode { id: idu }))),
{
    let id = v.next_id;
    assert forall|p: int, j: int|
        v2.elems.dom().contains(p) && 0 <= j < v2.elems[p].children.len() implies node_live(
        v2,
        #[trigger] v2.elems[p].children[j],
    ) && (v2.elems[p].children[j]).id as int != id by {
        assert(v.elems.dom().contains(p));
        assert(node_live(v, v.elems[p].children[j]));
        let c = v.elems[p].children[j];
        match c.kind {
            NodeKind::ElementKind => assert(v.elems.dom().contains(c.id as int)),
            NodeKind::TextKind => assert(v.texts.dom().contains(c.id as int)),
        }
    }
    assert forall|p: int| #[trigger] v2.elems.dom().contains(p) implies !v2.elems[p].children.contains(
        node_of_text((TextNode { id: idu })),
    ) by {
        if v2.elems[p].children.contains(node_of_text((TextNode { id: idu }))) {
            let j = choose|j: int|
                0 <= j < v2.elems[p].children.len() && v2.elems[p].children[j] == node_of_text(
                    (TextNode { id: idu }),
                );
            assert((v2.elems[p].children[j]).id as int != id);
        }
    }
}

/// Appending a fresh, childless element entry keeps a well-formed view
/// well-formed.
proof fn lemma_wf_new_elem(v: DomView, v2: DomView, idu: usize)
    requires
        view_wf(v),
        v.next_id < usize::MAX as int,
        idu as int == v.next_id,
        v2.elems == v.elems.insert(
            idu as int,
            ElemView { data: v2.elems[idu as int].data, children: Seq::<Node>::empty() },
        ),
        v2.texts == v.texts,
        v2.next_id == v.next_id + 1,
    ensures
        view_wf(v2),
{
    let id = v.next_id;
    assert forall|p: int, j: int|
        v2.elems.dom().contains(p) && 0 <= j < v2.elems[p].children.len() implies node_live(
        v2,
        #[trigger] v2.elems[p].children[j],
    ) by {
        assert(p != id);
        assert(v.elems.dom().contains(p));
        assert(node_live(v, v.elems[p].children[j]));
    }
    assert forall|e1: int, j1: int, e2: int, j2: int|
        v2.elems.dom().contains(e1) && 0 <= j1 < v2.elems[e1].children.len()
            && v2.elems.dom().contains(e2) && 0 <= j2 < v2.elems[e2].children.len()
            && (v2.elems[e1].children[j1]).id == (v2.elems[e2].children[j2]).id implies e1 == e2
        && j1 == j2 by {
        assert(e1 != id && e2 != id);
        assert(v.elems.dom().contains(e1) && v.elems.dom().contains(e2));
        assert(v2.elems[e1].children == v.elems[e1].children);
        assert(v2.elems[e2].children == v.elems[e2].children);
    }
}

impl DomBackend for Renderer {
    fn get_window(&self) -> Window {
        Window { id: 0 }
    }

    fn get_document(&self) -> Document {
        Document { id: 0 }
    }

    fn get_origin(&self) -> (r: Result<String, EnvError>) {
        match &self.origin {
            Ok(s) => Ok(s.clone()),
            Err(d) => Err(
                EnvError::from_diagnostic(
                    match d {
                        Some(m) => Some(m.clone()),
                        None => None,
                    },
                ),
            ),
        }
    }

    fn get_host(&self) -> (r: Result<String, EnvError>) {
        match &self.host {
            Ok(s) => Ok(s.clone()),
            Err(d) => Err(
                EnvError::from_diagnostic(
                    match d {
                        Some(m) => Some(m.clone()),
                        None => None,
                    },
                ),
            ),
        }
    }

    fn element_as_node(element: &Element) -> (n: Node) {
        Node { id: element.id, kind: NodeKind::ElementKind }
    }

    fn cast_node_ref<INTO: crate::backend::FromNode>(node_ref: &NodeRef) -> (r: Option<INTO>) {
        match node_ref.get() {
            Some(n) => INTO::from_node(&n),
            None => None,
        }
    }

    fn element_last_child(&self, element: &Element) -> (r: Option<Element>) {
        proof {
            assert(element.id < self.nodes@.len());
        }
        let cs = &self.nodes[element.id].children;
        proof {
            assert(children_of(self@, *element) == cs@);
            assert(cs@.subrange(0, cs@.len() as int) =~= cs@);
        }
        let mut i: usize = cs.len();
        while i > 0
            invariant
                i <= cs@.len(),
                children_of(self@, *element) == cs@,
                last_element_child(cs@) == last_element_child(cs@.subrange(0, i as int)),
        decreases i,
        {
            let n = cs[i - 1];
            proof {
                assert(cs@.subrange(0, i as int).last() == cs@[i - 1]);
                assert(cs@.subrange(0, i as int).drop_last() =~= cs@.subrange(0, i - 1));
            }
            match n.kind {
                NodeKind::ElementKind => {
                    proof {
                        assert(last_element_child(cs@.subrange(0, i as int)) == Some(
                            (Element { id: n.id }),
                        ));
                    }
                    return Some(Element { id: n.id });
                },
                NodeKind::TextKind => {
                    i = i - 1;
                },
            }
        }
        proof {
            assert(cs@.subrange(0, 0) =~= Seq::<Node>::empty());
        }
        None
    }

    fn element_remove_child(&mut self, element: &Element, child: &Node) -> (r: Result<Node, ()>) {
        proof {
            assert(element.id < self.nodes@.len());
        }
        let found = find_child(&self.nodes[element.id].children, *child);
        match found {
            Some(i) => {
                let mut cs = clone_nodes(&self.nodes[element.id].children);
                cs.remove(i);
                self.set_children(element.id, cs);
                proof {
                    let v = old(self)@;
                    let cs0 = children_of(v, *element);
                    lemma_node_index_unique(v, *element, i as int, *child);
                    assert(cs@ =~= crate::backend::removed_node(cs0, *child));
                    let f = (|j: int| if j < i { j } else { j + 1 });
                    lemma_wf_children_from_old(v, *element, cs@, f);
                }
                Ok(*child)
            },
            None => Err(()),
        }
    }

    fn create_text_node(&mut self, text: &String) -> (t: TextNode) {
        let id = self.nodes.len();
        self.nodes.push(
            Entry {
                kind: NodeKind::TextKind,
                text: text.clone(),
                data: empty_element_data(),
                children: Vec::new(),
            },
        );
        self.writes = self.writes + 1;
        proof {
            assert(final(self)@.texts =~= old(self)@.texts.insert(id as int, text@));
            assert(final(self)@.elems =~= old(self)@.elems);
            assert(final(self)@ =~= (DomView {
                texts: old(self)@.texts.insert(id as int, text@),
                next_id: old(self)@.next_id + 1,
                writes: old(self)@.writes + 1,
                ..old(self)@
            }));
            lemma_wf_new_text(old(self)@, final(self)@, id, text@);
        }
        TextNode { id }
    }

    fn insert_node(&mut self, node: &Node, parent: &Element, next_sibling: Option<Node>) {
        proof {
            assert(parent.id < self.nodes@.len());
        }
        let pos: usize = match &next_sibling {
            Some(s) => {
                match find_child(&self.nodes[parent.id].children, *s) {
                    Some(i) => i,
                    None => vstd::pervasive::unreached(),
                }
            },
            None => self.nodes[parent.id].children.len(),
        };
        let mut cs = clone_nodes(&self.nodes[parent.id].children);
        cs.insert(pos, *node);
        self.set_children(parent.id, cs);
        proof {
            let v = old(self)@;
            let cs0 = children_of(v, *parent);
            match next_sibling {
                Some(s) => {
                    lemma_node_index_unique(v, *parent, pos as int, s);
                },
                None => {
                    assert(cs0.push(*node) =~= cs0.insert(cs0.len() as int, *node));
                },
            }
            let f = (|j: int| if j < pos { j } else { j - 1 });
            lemma_wf_children_with_fresh(v, *parent, cs@, f, pos as int, *node);
        }
    }

    fn set_node_value(&mut self, node: &TextNode, text: &String) {
        proof {
            assert(node.id < self.nodes@.len());
        }
        let new_entry = Entry {
            kind: NodeKind::TextKind,
            text: text.clone(),
            data: empty_element_data(),
            children: Vec::new(),
        };
        self.nodes[node.id] = new_entry;
        self.writes = self.writes + 1;
        proof {
            assert(final(self)@.texts =~= old(self)@.texts.insert(node.id as int, text@));
            assert(final(self)@.elems =~= old(self)@.elems);
            assert(final(self)@ =~= (DomView {
                texts: old(self)@.texts.insert(node.id as int, text@),
                writes: old(self)@.writes + 1,
                ..old(self)@
            }));
            assert forall|p: int, j: int|
                final(self)@.elems.dom().contains(p) && 0 <= j < final(self)@.elems[p].children.len()
                    implies node_live(final(self)@, #[trigger] final(self)@.elems[p].children[j]) by {
                assert(node_live(old(self)@, old(self)@.elems[p].children[j]));
            }
        }
    }

    fn text_value(&self, node: &TextNode) -> (r: String) {
        proof {
            assert(node.id < self.nodes@.len());
        }
        self.nodes[node.id].text.clone()
    }

    fn element_node_name(&self, element: &Element) -> (r: String) {
        proof {
            assert(element.id < self.nodes@.len());
        }
        self.nodes[element.id].data.tag.clone()
    }

    fn oninput_handler(&self, this: &Element, event: InputEvent) -> (d: InputData) {
        proof {
            assert(this.id < self.nodes@.len());
        }
        match classify_input(&self.nodes[this.id].data, event) {
            Ok(d) => d,
            Err(_) => vstd::pervasive::unreached(),
        }
    }

    fn onchange_handler(&self, this: &Element) -> (d: ChangeData) {
        proof {
            assert(this.id < self.nodes@.len());
        }
        match classify_change(this, &self.nodes[this.id].data) {
            Ok(d) => d,
            Err(_) => vstd::pervasive::unreached(),
        }
    }
}

} // verus!
