use vdom::backend::{DomBackend, ElementData, NodeKind, NodeRef};
use vdom::listener::ContractViolation;
use vdom::renderer::Renderer;
use vdom::vtext::{AnyScope, VNode, VText};

fn div_data() -> ElementData {
    ElementData {
        tag: "DIV".to_string(),
        type_attr: None,
        value: String::new(),
        text_content: None,
        files: Vec::new(),
    }
}

#[test]
fn fresh_apply_mounts_with_content() {
    let mut dom = Renderer::new();
    let parent = dom.create_element(div_data());
    let scope = AnyScope {};
    let mut v = VText::new("a".to_string());
    let r = v.apply(&scope, &mut dom, &parent, NodeRef::empty(), None);
    let t = v.reference.expect("applied node must be mounted");
    assert_eq!(dom.text_value(&t), "a".to_string());
    assert_eq!(dom.write_count(), 1);
    assert_eq!(dom.child_count(&parent), 1);
    let n = r.get().expect("apply must return the live node");
    assert_eq!(n.id, t.id);
    assert!(matches!(n.kind, NodeKind::TextKind));
    assert_eq!(dom.child_at(&parent, 0).id, t.id);
}

#[test]
fn apply_same_text_issues_no_write() {
    let mut dom = Renderer::new();
    let parent = dom.create_element(div_data());
    let scope = AnyScope {};
    let mut v1 = VText::new("a".to_string());
    v1.apply(&scope, &mut dom, &parent, NodeRef::empty(), None);
    let before = dom.write_count();
    let old_ref = v1.reference.unwrap();
    let mut v2 = VText::new("a".to_string());
    v2.apply(&scope, &mut dom, &parent, NodeRef::empty(), Some(VNode::VText(v1)));
    assert_eq!(dom.write_count(), before);
    assert_eq!(v2.reference.unwrap().id, old_ref.id);
    assert_eq!(dom.text_value(&v2.reference.unwrap()), "a".to_string());
}

#[test]
fn apply_changed_text_issues_one_write() {
    let mut dom = Renderer::new();
    let parent = dom.create_element(div_data());
    let scope = AnyScope {};
    let mut v1 = VText::new("a".to_string());
    v1.apply(&scope, &mut dom, &parent, NodeRef::empty(), None);
    let before = dom.write_count();
    let old_ref = v1.reference.unwrap();
    let mut v2 = VText::new("b".to_string());
    v2.apply(&scope, &mut dom, &parent, NodeRef::empty(), Some(VNode::VText(v1)));
    assert_eq!(dom.write_count(), before + 1);
    assert_eq!(v2.reference.unwrap().id, old_ref.id);
    assert_eq!(dom.text_value(&v2.reference.unwrap()), "b".to_string());
}

#[test]
fn sequential_renders_write_counts() {
    // Renders of "a", "a", "b" cost one write (create), zero writes (no-op),
    // one write (update).
    let mut dom = Renderer::new();
    let parent = dom.create_element(div_data());
    let scope = AnyScope {};

    let mut v1 = VText::new("a".to_string());
    v1.apply(&scope, &mut dom, &parent, NodeRef::empty(), None);
    assert_eq!(dom.write_count(), 1);

    let mut v2 = VText::new("a".to_string());
    v2.apply(&scope, &mut dom, &parent, NodeRef::empty(), Some(VNode::VText(v1)));
    assert_eq!(dom.write_count(), 1);

    let mut v3 = VText::new("b".to_string());
    v3.apply(&scope, &mut dom, &parent, NodeRef::empty(), Some(VNode::VText(v2)));
    assert_eq!(dom.write_count(), 2);
    assert_eq!(dom.text_value(&v3.reference.unwrap()), "b".to_string());
    assert_eq!(dom.child_count(&parent), 1);
}

#[test]
fn detach_removes_the_mounted_node() {
    let mut dom = Renderer::new();
    let parent = dom.create_element(div_data());
    let scope = AnyScope {};
    let mut v = VText::new("a".to_string());
    v.apply(&scope, &mut dom, &parent, NodeRef::empty(), None);
    assert_eq!(dom.child_count(&parent), 1);
    let writes = dom.write_count();
    v.detach(&mut dom, &parent);
    assert_eq!(dom.child_count(&parent), 0);
    assert!(v.reference.is_none());
    assert_eq!(dom.write_count(), writes);
}

#[test]
fn detach_of_unmounted_node_is_a_contract_violation() {
    let mut dom = Renderer::new();
    let parent = dom.create_element(div_data());
    let mut v = VText::new("a".to_string());
    let r = v.try_detach(&mut dom, &parent);
    assert_eq!(r, Err(ContractViolation::DetachBeforeRender));
    assert_eq!(
        ContractViolation::DetachBeforeRender.message(),
        "tried to remove not rendered VText from DOM".to_string()
    );
}

#[test]
fn mismatched_ancestor_is_detached_and_replaced() {
    let mut dom = Renderer::new();
    let parent = dom.create_element(div_data());
    let scope = AnyScope {};
    let mut v1 = VText::new("a".to_string());
    let r1 = v1.apply(&scope, &mut dom, &parent, NodeRef::empty(), None);
    let old_node = r1.get().unwrap();
    assert_eq!(dom.write_count(), 1);

    // The previous render's node at this position is of another variant.
    let ancestor = VNode::VRef(old_node);
    let mut v2 = VText::new("x".to_string());
    v2.apply(&scope, &mut dom, &parent, NodeRef::empty(), Some(ancestor));

    // One detach, one fresh creation: still one child, but a new one.
    assert_eq!(dom.child_count(&parent), 1);
    let new_node = dom.child_at(&parent, 0);
    assert_ne!(new_node.id, old_node.id);
    assert_eq!(v2.reference.unwrap().id, new_node.id);
    assert_eq!(dom.text_value(&v2.reference.unwrap()), "x".to_string());
    assert_eq!(dom.write_count(), 2);
}

#[test]
fn siblings_keep_document_order() {
    let mut dom = Renderer::new();
    let parent = dom.create_element(div_data());
    let scope = AnyScope {};
    let mut va = VText::new("a".to_string());
    let ra = va.apply(&scope, &mut dom, &parent, NodeRef::empty(), None);
    let mut vb = VText::new("b".to_string());
    vb.apply(&scope, &mut dom, &parent, ra, None);
    assert_eq!(dom.child_count(&parent), 2);
    assert_eq!(dom.child_at(&parent, 0).id, vb.reference.unwrap().id);
    assert_eq!(dom.child_at(&parent, 1).id, va.reference.unwrap().id);
}

#[test]
fn equality_goes_by_text_alone() {
    let mut dom = Renderer::new();
    let parent = dom.create_element(div_data());
    let scope = AnyScope {};
    let unmounted = VText::new("a".to_string());
    let mut mounted = VText::new("a".to_string());
    mounted.apply(&scope, &mut dom, &parent, NodeRef::empty(), None);
    assert!(mounted.reference.is_some());
    assert!(unmounted == mounted);
    assert!(mounted == unmounted);
    let other = VText::new("b".to_string());
    assert!(unmounted != other);
    assert!(mounted != other);
}
