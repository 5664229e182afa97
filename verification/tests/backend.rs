use vdom::backend::{DomBackend, Element, ElementData, Node, NodeKind, NodeRef, TextNode};
use vdom::renderer::Renderer;

fn data_with_tag(tag: &str) -> ElementData {
    ElementData {
        tag: tag.to_string(),
        type_attr: None,
        value: String::new(),
        text_content: None,
        files: Vec::new(),
    }
}

#[test]
fn origin_and_host_pass_through() {
    let mut dom = Renderer::new();
    dom.set_location(
        Ok("https://example.test".to_string()),
        Ok("example.test".to_string()),
    );
    assert_eq!(dom.get_origin().unwrap(), "https://example.test".to_string());
    assert_eq!(dom.get_host().unwrap(), "example.test".to_string());
}

#[test]
fn origin_refusal_carries_the_diagnostic() {
    let mut dom = Renderer::new();
    dom.set_location(Err(Some("denied by sandbox".to_string())), Err(None));
    let origin_err = dom.get_origin().unwrap_err();
    assert_eq!(origin_err.message, "denied by sandbox".to_string());
    let host_err = dom.get_host().unwrap_err();
    assert_eq!(host_err.message, "error not recoverable".to_string());
}

#[test]
fn element_as_node_widens() {
    let e = Element { id: 7 };
    let n = <Renderer as DomBackend>::element_as_node(&e);
    assert_eq!(n.id, 7);
    assert!(matches!(n.kind, NodeKind::ElementKind));
}

#[test]
fn last_child_skips_text_nodes() {
    let mut dom = Renderer::new();
    let parent = dom.create_element(data_with_tag("DIV"));
    assert!(dom.element_last_child(&parent).is_none());

    let inner = dom.create_element(data_with_tag("SPAN"));
    dom.insert_node(
        &Node { id: inner.id, kind: NodeKind::ElementKind },
        &parent,
        None,
    );
    let t = dom.create_text_node(&"tail".to_string());
    dom.insert_node(&Node { id: t.id, kind: NodeKind::TextKind }, &parent, None);

    // The last child is a text node; the last element child is the span.
    let last = dom.element_last_child(&parent).expect("span must be found");
    assert_eq!(last.id, inner.id);
}

#[test]
fn last_child_of_text_only_parent_is_none() {
    let mut dom = Renderer::new();
    let parent = dom.create_element(data_with_tag("DIV"));
    let t = dom.create_text_node(&"only".to_string());
    dom.insert_node(&Node { id: t.id, kind: NodeKind::TextKind }, &parent, None);
    assert!(dom.element_last_child(&parent).is_none());
}

#[test]
fn remove_child_fails_on_a_stranger() {
    let mut dom = Renderer::new();
    let parent = dom.create_element(data_with_tag("DIV"));
    let t = dom.create_text_node(&"loose".to_string());
    // Never inserted: the host reports the anomaly.
    let r = dom.element_remove_child(&parent, &Node { id: t.id, kind: NodeKind::TextKind });
    assert!(r.is_err());
    // Once inserted, removal succeeds and hands the node back.
    dom.insert_node(&Node { id: t.id, kind: NodeKind::TextKind }, &parent, None);
    assert_eq!(dom.child_count(&parent), 1);
    let removed = dom
        .element_remove_child(&parent, &Node { id: t.id, kind: NodeKind::TextKind })
        .expect("child must be removable");
    assert_eq!(removed.id, t.id);
    assert_eq!(dom.child_count(&parent), 0);
}

#[test]
fn set_node_value_rewrites_content() {
    let mut dom = Renderer::new();
    let t = dom.create_text_node(&"before".to_string());
    assert_eq!(dom.write_count(), 1);
    dom.set_node_value(&t, &"after".to_string());
    assert_eq!(dom.text_value(&t), "after".to_string());
    assert_eq!(dom.write_count(), 2);
}

#[test]
fn node_refs_narrow_by_kind() {
    let text_node = Node { id: 3, kind: NodeKind::TextKind };
    let r = NodeRef::new(text_node);
    let as_text: Option<TextNode> = Renderer::cast_node_ref(&r);
    assert_eq!(as_text.map(|t| t.id), Some(3));
    let as_element: Option<Element> = Renderer::cast_node_ref(&r);
    assert!(as_element.is_none());
    let as_node: Option<Node> = Renderer::cast_node_ref(&r);
    assert_eq!(as_node.map(|n| n.id), Some(3));
    let empty = NodeRef::empty();
    let nothing: Option<Node> = Renderer::cast_node_ref(&empty);
    assert!(nothing.is_none());
    let default_ref = NodeRef::default();
    let also_nothing: Option<Node> = Renderer::cast_node_ref(&default_ref);
    assert!(also_nothing.is_none());
}

#[test]
fn window_and_document_are_available() {
    let dom = Renderer::new();
    let _w = dom.get_window();
    let _d = dom.get_document();
}
