//! The virtual text node and its reconciliation against the previous
//! render: adopt and patch a text ancestor in place, replace an ancestor of
//! another variant, or mount fresh — always delegating the actual mutations
//! to the backend capability interface.

use vstd::prelude::*;

use crate::backend::{
    children_of, detached_view, lemma_removed_node_keeps, lemma_removed_node_gone,
    lemma_node_index_of_contained, live_elem, live_text, mounted_fresh, node_index, node_live,
    node_of_text, view_wf, DomBackend, DomView, Element, Node, NodeKind, NodeRef, TextNode,
};
use crate::listener::ContractViolation;
use vstd::std_specs::cmp::PartialEqSpec;

verus! {

/// The scope a parent component hands down; the text-node engine never reads
/// it.
pub struct AnyScope {}

/// A virtual text node: its content, and a reference to the live text node
/// it is mounted on — nothing before the first render, and nothing again
/// after a detach.
#[derive(Clone, Debug)]
pub struct VText {
    pub text: String,
    pub reference: Option<TextNode>,
}

impl VText {
    /// Creates a new virtual text node with a content.
    pub fn new(text: String) -> (v: VText)
        ensures
            v.text == text,
            v.reference is None,
    {
        VText { text, reference: None }
    }
}

/// Two virtual text nodes are equal exactly when their contents are equal:
/// mount state plays no part, since equality keys list-diffing on content,
/// not on render history.
impl PartialEq for VText {
    fn eq(&self, other: &VText) -> (r: bool) {
        self.text == other.text
    }
}

impl vstd::std_specs::cmp::PartialEqSpecImpl for VText {
    open spec fn obeys_eq_spec() -> bool {
        true
    }

    open spec fn eq_spec(&self, other: &VText) -> bool {
        self.text@ == other.text@
    }
}

/// Law: equality of virtual text nodes goes by text content alone, whatever
/// the two nodes' mount states are.
pub proof fn lemma_vtext_eq_ignores_mount_state(
    a: Seq<char>,
    b: Seq<char>,
    ra: Option<TextNode>,
    rb: Option<TextNode>,
    x: VText,
    y: VText,
)
    requires
        x.text@ == a,
        x.reference == ra,
        y.text@ == b,
        y.reference == rb,
    ensures
        x.eq_spec(&y) <==> a == b,
{
}

/// A virtual node: the tagged union over the node kinds the engine patches.
/// The text variant carries the full engine of this crate; the reference
/// variant wraps a live node that is managed outside the virtual tree.
#[derive(Clone, Debug)]
pub enum VNode {
    VText(VText),
    VRef(Node),
}

impl VNode {
    /// The live node this virtual node is mounted on, if any.
    pub open spec fn spec_reference(&self) -> Option<Node> {
        match self {
            VNode::VText(vt) => match vt.reference {
                Some(t) => Some(node_of_text(t)),
                None => None,
            },
            VNode::VRef(n) => Some(*n),
        }
    }

    /// Removes this virtual node's live node from the parent. A text node
    /// must be mounted; its reference is released. A reference variant keeps
    /// its node value, since it never owned the node.
    pub fn detach<B: DomBackend>(&mut self, dom: &mut B, parent: &Element)
        requires
            view_wf(old(dom)@),
            live_elem(old(dom)@, *parent),
            old(self).spec_reference() is Some,
        ensures
            view_wf(final(dom)@),
            final(dom)@ == detached_view(old(dom)@, *parent, old(self).spec_reference().unwrap()),
            (match *old(self) {
                VNode::VText(vt) => *final(self) == VNode::VText(
                    (VText { text: vt.text, reference: None }),
                ),
                VNode::VRef(n) => *final(self) == *old(self),
            }),
    {
        match self {
            VNode::VText(vt) => {
                vt.detach(dom, parent);
            },
            VNode::VRef(n) => {
                let node = *n;
                let _ = dom.element_remove_child(parent, &node);
                proof {
                    assert(final(dom)@ =~= detached_view(old(dom)@, *parent, node));
                }
            },
        }
    }
}

impl VText {
    /// Removes this virtual text node's live node from the parent and
    /// releases the reference. The node must be mounted. When the host
    /// reports the node already absent, the end state is right regardless,
    /// and the call succeeds all the same.
    pub fn detach<B: DomBackend>(&mut self, dom: &mut B, parent: &Element)
        requires
            view_wf(old(dom)@),
            live_elem(old(dom)@, *parent),
            old(self).reference is Some,
        ensures
            final(self).text == old(self).text,
            final(self).reference is None,
            view_wf(final(dom)@),
            final(dom)@ == detached_view(
                old(dom)@,
                *parent,
                node_of_text(old(self).reference.unwrap()),
            ),
    {
        let node = match self.reference {
            Some(t) => t,
            None => vstd::pervasive::unreached(),
        };
        self.reference = None;
        let _ = dom.element_remove_child(
            parent,
            &Node { id: node.id, kind: NodeKind::TextKind },
        );
        proof {
            assert(final(dom)@ =~= detached_view(old(dom)@, *parent, node_of_text(node)));
        }
    }

    /// Like `detach`, but instead of demanding a mounted node it reports the
    /// contract violation of detaching one that was never rendered, changing
    /// nothing.
    pub fn try_detach<B: DomBackend>(&mut self, dom: &mut B, parent: &Element) -> (r: Result<
        (),
        ContractViolation,
    >)
        requires
            view_wf(old(dom)@),
            live_elem(old(dom)@, *parent),
        ensures
            (match old(self).reference {
                Some(t) => {
                    &&& r == Ok::<(), ContractViolation>(())
                    &&& final(self).text == old(self).text
                    &&& final(self).reference is None
                    &&& view_wf(final(dom)@)
                    &&& final(dom)@ == detached_view(old(dom)@, *parent, node_of_text(t))
                },
                None => {
                    &&& r == Err::<(), ContractViolation>(ContractViolation::DetachBeforeRender)
                    &&& *final(self) == *old(self)
                    &&& final(dom)@ == old(dom)@
                },
            }),
    {
        match self.reference {
            Some(_) => {
                self.detach(dom, parent);
                Ok(())
            },
            None => Err(ContractViolation::DetachBeforeRender),
        }
    }

    /// Renders this node over the previous render's node at the same tree
    /// position. A text ancestor hands over its live node, which is patched
    /// only when the content actually differs; an ancestor of another
    /// variant is detached first; with no ancestor a fresh text node is
    /// created and inserted before the given sibling. Returns a reference to
    /// the node this virtual node is now mounted on, the insertion anchor
    /// for the next sibling.
    pub fn apply<B: DomBackend>(
        &mut self,
        _parent_scope: &AnyScope,
        dom: &mut B,
        parent: &Element,
        next_sibling: NodeRef,
        ancestor: Option<VNode>,
    ) -> (r: NodeRef)
        requires
            view_wf(old(dom)@),
            live_elem(old(dom)@, *parent),
            old(dom)@.next_id < usize::MAX as int,
            old(dom)@.writes < u64::MAX,
            (match ancestor {
                Some(VNode::VText(vt)) => {
                    &&& vt.reference is Some
                    &&& live_text(old(dom)@, vt.reference.unwrap())
                    &&& old(dom)@.texts[vt.reference.unwrap().id as int] == vt.text@
                },
                Some(VNode::VRef(n)) => (match next_sibling@ {
                    Some(s) => children_of(old(dom)@, *parent).contains(s) && s != n,
                    None => true,
                }),
                None => (match next_sibling@ {
                    Some(s) => children_of(old(dom)@, *parent).contains(s),
                    None => true,
                }),
            }),
        ensures
            final(self).text == old(self).text,
            final(self).reference is Some,
            view_wf(final(dom)@),
            r@ == Some(node_of_text(final(self).reference.unwrap())),
            live_text(final(dom)@, final(self).reference.unwrap()),
            final(dom)@.texts[final(self).reference.unwrap().id as int] == final(self).text@,
            (match ancestor {
                Some(VNode::VText(vt)) => {
                    &&& final(self).reference == vt.reference
                    &&& (if old(self).text@ != vt.text@ {
                        final(dom)@ == (DomView {
                            texts: old(dom)@.texts.insert(
                                vt.reference.unwrap().id as int,
                                old(self).text@,
                            ),
                            writes: old(dom)@.writes + 1,
                            ..old(dom)@
                        })
                    } else {
                        final(dom)@ == old(dom)@
                    })
                },
                Some(VNode::VRef(n)) => {
                    &&& final(self).reference == Some(
                        (TextNode { id: old(dom)@.next_id as usize }),
                    )
                    &&& final(dom)@ == mounted_fresh(
                        detached_view(old(dom)@, *parent, n),
                        old(self).text@,
                        *parent,
                        next_sibling@,
                    )
                },
                None => {
                    &&& final(self).reference == Some(
                        (TextNode { id: old(dom)@.next_id as usize }),
                    )
                    &&& final(dom)@ == mounted_fresh(
                        old(dom)@,
                        old(self).text@,
                        *parent,
                        next_sibling@,
                    )
                },
            }),
    {
        match ancestor {
            Some(VNode::VText(vtext)) => {
                let text_node = match vtext.reference {
                    Some(t) => t,
                    None => vstd::pervasive::unreached(),
                };
                self.reference = Some(text_node);
                if self.text != vtext.text {
                    dom.set_node_value(&text_node, &self.text);
                }
                NodeRef::new(Node { id: text_node.id, kind: NodeKind::TextKind })
            },
            Some(VNode::VRef(refnode)) => {
                let mut anc = VNode::VRef(refnode);
                anc.detach(dom, parent);
                proof {
                    if next_sibling@ is Some {
                        lemma_removed_node_keeps(
                            children_of(old(dom)@, *parent),
                            refnode,
                            next_sibling@.unwrap(),
                        );
                    }
                }
                let text_node = dom.create_text_node(&self.text);
                let ghost v1 = detached_view(old(dom)@, *parent, refnode);
                dom.insert_node(
                    &Node { id: text_node.id, kind: NodeKind::TextKind },
                    parent,
                    next_sibling.get(),
                );
                self.reference = Some(text_node);
                proof {
                    assert(final(dom)@ =~= mounted_fresh(
                        v1,
                        old(self).text@,
                        *parent,
                        next_sibling@,
                    ));
                }
                NodeRef::new(Node { id: text_node.id, kind: NodeKind::TextKind })
            },
            None => {
                let text_node = dom.create_text_node(&self.text);
                dom.insert_node(
                    &Node { id: text_node.id, kind: NodeKind::TextKind },
                    parent,
                    next_sibling.get(),
                );
                self.reference = Some(text_node);
                proof {
                    assert(final(dom)@ =~= mounted_fresh(
                        old(dom)@,
                        old(self).text@,
                        *parent,
                        next_sibling@,
                    ));
                }
                NodeRef::new(Node { id: text_node.id, kind: NodeKind::TextKind })
            },
        }
    }
}

/// Law: a fresh mount yields a mounted node whose live content equals the
/// virtual content, hung under the parent, and costs exactly one content
/// write.
pub proof fn lemma_fresh_mount_content(
    v: DomView,
    text: Seq<char>,
    parent: Element,
    next_sibling: Option<Node>,
)
    requires
        view_wf(v),
        live_elem(v, parent),
        (match next_sibling {
            Some(s) => children_of(v, parent).contains(s),
            None => true,
        }),
    ensures
        ({
            let v2 = mounted_fresh(v, text, parent, next_sibling);
            let t = TextNode { id: v.next_id as usize };
            &&& live_text(v2, t)
            &&& v2.texts[t.id as int] == text
            &&& children_of(v2, parent).contains(node_of_text(t))
            &&& v2.writes == v.writes + 1
        }),
{
    let v2 = mounted_fresh(v, text, parent, next_sibling);
    let t = TextNode { id: v.next_id as usize };
    let cs = children_of(v, parent);
    let cs2 = children_of(v2, parent);
    match next_sibling {
        Some(s) => {
            lemma_node_index_of_contained(cs, s);
            assert(cs2[node_index(cs, s)] == node_of_text(t));
        },
        None => {
            assert(cs2.last() == node_of_text(t));
        },
    }
}

/// Law: a fresh mount with a sibling anchor puts the new node immediately
/// before the anchor, so reconciling siblings in document order, each
/// anchored on its successor, keeps the live order equal to the virtual
/// order.
pub proof fn lemma_mount_lands_before_anchor(
    v: DomView,
    text: Seq<char>,
    parent: Element,
    s: Node,
)
    requires
        view_wf(v),
        live_elem(v, parent),
        children_of(v, parent).contains(s),
    ensures
        ({
            let v2 = mounted_fresh(v, text, parent, Some(s));
            let cs2 = children_of(v2, parent);
            let k = node_index(children_of(v, parent), s);
            &&& cs2.len() == children_of(v, parent).len() + 1
            &&& cs2[k] == node_of_text((TextNode { id: v.next_id as usize }))
            &&& cs2[k + 1] == s
        }),
{
    lemma_node_index_of_contained(children_of(v, parent), s);
}

/// Law: detaching a mounted node removes exactly one node from its parent —
/// the node itself, which hangs there no more — and neither issues a content
/// write nor touches any text node's content.
pub proof fn lemma_detach_removes_exactly_one(v: DomView, parent: Element, n: Node)
    requires
        view_wf(v),
        live_elem(v, parent),
        children_of(v, parent).contains(n),
    ensures
        ({
            let v2 = detached_view(v, parent, n);
            &&& children_of(v2, parent).len() == children_of(v, parent).len() - 1
            &&& !children_of(v2, parent).contains(n)
            &&& v2.writes == v.writes
            &&& v2.texts == v.texts
        }),
{
    lemma_node_index_of_contained(children_of(v, parent), n);
    lemma_removed_node_gone(v, parent, n);
}

/// Law: replacing an ancestor of another variant is one detach and one
/// fresh creation, never an in-place update: the replaced node is gone from
/// the parent, exactly one text node is added, the content of every text
/// node that already existed stays untouched, and exactly one content write
/// is issued.
pub proof fn lemma_replace_never_in_place(
    v: DomView,
    parent: Element,
    n: Node,
    text: Seq<char>,
    next_sibling: Option<Node>,
)
    requires
        view_wf(v),
        live_elem(v, parent),
        children_of(v, parent).contains(n),
        (match next_sibling {
            Some(s) => children_of(v, parent).contains(s) && s != n,
            None => true,
        }),
    ensures
        ({
            let v2 = mounted_fresh(detached_view(v, parent, n), text, parent, next_sibling);
            &&& !children_of(v2, parent).contains(n)
            &&& v2.texts.dom() =~= v.texts.dom().insert(v.next_id)
            &&& forall|i: int| #[trigger] v.texts.dom().contains(i) ==> v2.texts[i] == v.texts[i]
            &&& v2.writes == v.writes + 1
        }),
{
    let v1 = detached_view(v, parent, n);
    let v2 = mounted_fresh(v1, text, parent, next_sibling);
    let cs = children_of(v, parent);
    let cs1 = children_of(v1, parent);
    let cs2 = children_of(v2, parent);
    let fresh = Node { id: v.next_id as usize, kind: NodeKind::TextKind };
    lemma_removed_node_gone(v, parent, n);
    assert(node_live(v, n));
    assert((n.id as int) < v.next_id);
    assert(fresh != n);
    if cs2.contains(n) {
        let j = choose|j: int| 0 <= j < cs2.len() && cs2[j] == n;
        match next_sibling {
            Some(s) => {
                lemma_removed_node_keeps(cs, n, s);
                lemma_node_index_of_contained(cs1, s);
                let k = node_index(cs1, s);
                if j < k {
                    assert(cs1[j] == n);
                } else {
                    assert(j != k);
                    assert(cs1[j - 1] == n);
                }
            },
            None => {
                assert(j < cs1.len());
                assert(cs1[j] == n);
            },
        }
        assert(cs1.contains(n));
        assert(false);
    }
}

} // verus!
