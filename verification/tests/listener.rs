use vdom::backend::{DomBackend, Element, ElementData};
use vdom::listener::{
    classify_change, classify_input, ChangeData, ContractViolation, InputEvent,
};
use vdom::renderer::Renderer;

fn element_data(
    tag: &str,
    type_attr: Option<&str>,
    value: &str,
    text_content: Option<&str>,
    files: Vec<&str>,
) -> ElementData {
    ElementData {
        tag: tag.to_string(),
        type_attr: type_attr.map(|s| s.to_string()),
        value: value.to_string(),
        text_content: text_content.map(|s| s.to_string()),
        files: files.into_iter().map(|s| s.to_string()).collect(),
    }
}

#[test]
fn change_on_file_input_yields_files() {
    let this = Element { id: 0 };
    let data = element_data("INPUT", Some("file"), "", None, vec!["a.txt", "b.txt"]);
    match classify_change(&this, &data) {
        Ok(ChangeData::Files(fl)) => {
            assert_eq!(fl.files, vec!["a.txt".to_string(), "b.txt".to_string()]);
        }
        other => panic!("expected Files, got {:?}", other),
    }
}

#[test]
fn file_type_attribute_is_case_insensitive() {
    let this = Element { id: 0 };
    let data = element_data("INPUT", Some("FiLe"), "", None, vec!["a.txt"]);
    assert!(matches!(
        classify_change(&this, &data),
        Ok(ChangeData::Files(_))
    ));
}

#[test]
fn change_on_plain_input_yields_value() {
    let this = Element { id: 0 };
    let data = element_data("INPUT", Some("text"), "typed", None, vec![]);
    match classify_change(&this, &data) {
        Ok(ChangeData::Value(v)) => assert_eq!(v, "typed".to_string()),
        other => panic!("expected Value, got {:?}", other),
    }
    // An input without a type attribute is no file control either.
    let data = element_data("INPUT", None, "typed", None, vec![]);
    assert!(matches!(
        classify_change(&this, &data),
        Ok(ChangeData::Value(_))
    ));
}

#[test]
fn change_on_textarea_yields_value() {
    let this = Element { id: 0 };
    let data = element_data("TEXTAREA", None, "many\nlines", None, vec![]);
    match classify_change(&this, &data) {
        Ok(ChangeData::Value(v)) => assert_eq!(v, "many\nlines".to_string()),
        other => panic!("expected Value, got {:?}", other),
    }
}

#[test]
fn change_on_select_yields_the_handle() {
    let this = Element { id: 42 };
    let data = element_data("SELECT", None, "choice", None, vec![]);
    match classify_change(&this, &data) {
        Ok(ChangeData::Select(e)) => assert_eq!(e.id, 42),
        other => panic!("expected Select, got {:?}", other),
    }
}

#[test]
fn change_on_other_tag_is_a_contract_violation() {
    let this = Element { id: 0 };
    let data = element_data("DIV", None, "", Some("text"), vec![]);
    let r = classify_change(&this, &data);
    assert_eq!(r.unwrap_err(), ContractViolation::ChangeListenerOnUnsupported);
    assert_eq!(
        ContractViolation::ChangeListenerOnUnsupported.message(),
        "only an InputElement, TextAreaElement or SelectElement can have an onchange event listener"
            .to_string()
    );
}

#[test]
fn input_prefers_the_single_line_value() {
    let data = element_data("INPUT", None, "single", Some("shadowed"), vec![]);
    let event = InputEvent { data: Some("s".to_string()) };
    let payload = classify_input(&data, event).unwrap();
    assert_eq!(payload.value, "single".to_string());
    assert_eq!(payload.event.data, Some("s".to_string()));
}

#[test]
fn input_falls_back_to_the_multi_line_value() {
    let data = element_data("TEXTAREA", None, "multi", Some("shadowed"), vec![]);
    let payload = classify_input(&data, InputEvent { data: None }).unwrap();
    assert_eq!(payload.value, "multi".to_string());
}

#[test]
fn input_falls_back_to_text_content() {
    let data = element_data("DIV", None, "", Some("editable text"), vec![]);
    let payload = classify_input(&data, InputEvent { data: None }).unwrap();
    assert_eq!(payload.value, "editable text".to_string());
}

#[test]
fn input_without_any_source_is_a_contract_violation() {
    let data = element_data("DIV", None, "", None, vec![]);
    let r = classify_input(&data, InputEvent { data: None });
    assert_eq!(r.unwrap_err(), ContractViolation::InputListenerOnUnsupported);
    assert_eq!(
        ContractViolation::InputListenerOnUnsupported.message(),
        "only an InputElement or TextAreaElement or an element with contenteditable=true can have an oninput event listener"
            .to_string()
    );
}

#[test]
fn handlers_read_the_live_element() {
    let mut dom = Renderer::new();
    let input = dom.create_element(element_data("INPUT", Some("text"), "abc", None, vec![]));
    let payload = dom.oninput_handler(&input, InputEvent { data: Some("c".to_string()) });
    assert_eq!(payload.value, "abc".to_string());
    assert_eq!(payload.event.data, Some("c".to_string()));
    match dom.onchange_handler(&input) {
        ChangeData::Value(v) => assert_eq!(v, "abc".to_string()),
        other => panic!("expected Value, got {:?}", other),
    }
}
