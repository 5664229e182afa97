//! Normalization of input and change occurrences: given what the logic reads
//! of a live element, classify the element and produce exactly one payload,
//! or report the fatal misuse of a listener hung on an element kind that can
//! never produce one.

use vstd::prelude::*;
use vstd::string::StrSliceExecFns;

use crate::backend::{Element, ElementData, ElementDataView};

verus! {

/// The raw input occurrence handed over by the host: the inserted
/// characters, when the host reports them.
#[derive(Clone, PartialEq, Eq, Debug)]
pub struct InputEvent {
    pub data: Option<String>,
}

/// A type representing data from an input occurrence: the control's current
/// value, and the raw occurrence it came from.
#[derive(Clone, Debug)]
pub struct InputData {
    pub value: String,
    pub event: InputEvent,
}

/// A handle-free copy of the file list of a file-upload control: the file
/// names, in the host's order.
#[derive(Clone, Debug)]
pub struct FileList {
    pub files: Vec<String>,
}

/// A type representing the change of value(s) of an element after being
/// committed by the user: the value itself for single- and multi-line input
/// controls, the control's handle for a selection control, the file list for
/// a file-upload control.
#[derive(Clone, Debug)]
pub enum ChangeData {
    Value(String),
    Select(Element),
    Files(FileList),
}

/// A fatal misuse of the calling layer: not a runtime condition to recover
/// from, but a defect to fix.
#[derive(Clone, Copy, PartialEq, Eq, Structural, Debug)]
pub enum ContractViolation {
    /// An input listener hung on an element that is no single-line input
    /// control, no multi-line input control, and carries no text content.
    InputListenerOnUnsupported,
    /// A change listener hung on an element that is no single-line input
    /// control, no multi-line input control and no selection control.
    ChangeListenerOnUnsupported,
    /// A detach of a virtual node that was never rendered.
    DetachBeforeRender,
}

impl ContractViolation {
    /// The diagnostic carried by this violation.
    pub open spec fn spec_message(&self) -> Seq<char> {
        match self {
            ContractViolation::InputListenerOnUnsupported => "only an InputElement or TextAreaElement or an element with contenteditable=true can have an oninput event listener"@,
            ContractViolation::ChangeListenerOnUnsupported => "only an InputElement, TextAreaElement or SelectElement can have an onchange event listener"@,
            ContractViolation::DetachBeforeRender => "tried to remove not rendered VText from DOM"@,
        }
    }

    /// The diagnostic carried by this violation.
    pub fn message(&self) -> (r: String)
        ensures
            r@ == self.spec_message(),
    {
        match self {
            ContractViolation::InputListenerOnUnsupported => "only an InputElement or TextAreaElement or an element with contenteditable=true can have an oninput event listener".to_owned(),
            ContractViolation::ChangeListenerOnUnsupported => "only an InputElement, TextAreaElement or SelectElement can have an onchange event listener".to_owned(),
            ContractViolation::DetachBeforeRender => "tried to remove not rendered VText from DOM".to_owned(),
        }
    }
}

/// Character-for-character equality of two strings.
fn str_eq(a: &str, b: &str) -> (r: bool)
    ensures
        r == (a@ == b@),
{
    let alen = a.unicode_len();
    let blen = b.unicode_len();
    if alen != blen {
        return false;
    }
    let mut i: usize = 0;
    while i < alen
        invariant
            i <= alen,
            alen == a@.len(),
            alen == b@.len(),
            forall|j: int| 0 <= j < i ==> a@[j] == b@[j],
        decreases alen - i,
    {
        if a.get_char(i) != b.get_char(i) {
            return false;
        }
        i = i + 1;
    }
    proof {
        assert(a@ =~= b@);
    }
    true
}

/// The lower-cased code point of a character, folding only the ASCII
/// uppercase letters.
pub open spec fn ascii_lower(c: char) -> int {
    if 'A' <= c && c <= 'Z' {
        c as int + 32
    } else {
        c as int
    }
}

/// ASCII case-insensitive equality of two character sequences.
pub open spec fn ascii_caseless_eq(a: Seq<char>, b: Seq<char>) -> bool {
    a.len() == b.len() && forall|i: int| 0 <= i < a.len() ==> ascii_lower(a[i]) == ascii_lower(b[i])
}

/// ASCII case-insensitive comparison of two strings.
fn str_eq_ignore_ascii_case(a: &str, b: &str) -> (r: bool)
    ensures
        r == ascii_caseless_eq(a@, b@),
{
    let alen = a.unicode_len();
    let blen = b.unicode_len();
    if alen != blen {
        return false;
    }
    let mut i: usize = 0;
    while i < alen
        invariant
            i <= alen,
            alen == a@.len(),
            alen == b@.len(),
            forall|j: int| 0 <= j < i ==> ascii_lower(a@[j]) == ascii_lower(b@[j]),
        decreases alen - i,
    {
        let ca = a.get_char(i);
        let cb = b.get_char(i);
        let la: u32 = if ca >= 'A' && ca <= 'Z' {
            ca as u32 + 32
        } else {
            ca as u32
        };
        let lb: u32 = if cb >= 'A' && cb <= 'Z' {
            cb as u32 + 32
        } else {
            cb as u32
        };
        if la != lb {
            return false;
        }
        i = i + 1;
    }
    true
}

/// Copies a list of strings.
pub(crate) fn clone_strings(v: &Vec<String>) -> (r: Vec<String>)
    ensures
        r.deep_view() == v.deep_view(),
{
    let mut r: Vec<String> = Vec::new();
    let mut i: usize = 0;
    while i < v.len()
        invariant
            i <= v@.len(),
            r@.len() == i,
            forall|j: int| 0 <= j < i ==> r@[j] == v@[j],
        decreases v@.len() - i,
    {
        r.push(v[i].clone());
        i = i + 1;
    }
    proof {
        assert(r@ =~= v@);
        assert(r.deep_view() =~= v.deep_view());
    }
    r
}

/// The value an input occurrence yields on an element: the single-line
/// control value when the element is one, else the multi-line control value,
/// else the element's raw text content; nothing when even that is absent.
pub open spec fn spec_input_value(d: ElementDataView) -> Option<Seq<char>> {
    if d.tag == "INPUT"@ {
        Some(d.value)
    } else if d.tag == "TEXTAREA"@ {
        Some(d.value)
    } else {
        d.text_content
    }
}

/// Whether a change listener can produce a payload on this element at all.
pub open spec fn change_supported(d: ElementDataView) -> bool {
    d.tag == "INPUT"@ || d.tag == "TEXTAREA"@ || d.tag == "SELECT"@
}

/// Whether the `type` attribute marks a single-line input control as a
/// file-upload control.
pub open spec fn is_file_input(d: ElementDataView) -> bool {
    match d.type_attr {
        Some(t) => ascii_caseless_eq(t, "file"@),
        None => false,
    }
}

/// What payload a change occurrence on a supported element yields: the file
/// list of a file-type input control, the current value of any other input
/// control and of a multi-line control, the handle of a selection control.
pub open spec fn change_payload_matches(this: Element, d: ElementDataView, r: ChangeData) -> bool {
    if d.tag == "INPUT"@ {
        if is_file_input(d) {
            r matches ChangeData::Files(fl) && fl.files.deep_view() == d.files
        } else {
            r matches ChangeData::Value(v) && v@ == d.value
        }
    } else if d.tag == "TEXTAREA"@ {
        r matches ChangeData::Value(v) && v@ == d.value
    } else if d.tag == "SELECT"@ {
        r matches ChangeData::Select(e) && e == this
    } else {
        false
    }
}

/// Classifies an element for an input occurrence and produces the normalized
/// payload: the single-line control value when available, else the
/// multi-line value, else the raw text content, in that precedence order; a
/// contract violation when all three are absent.
pub fn classify_input(data: &ElementData, event: InputEvent) -> (r: Result<
    InputData,
    ContractViolation,
>)
    ensures
        (match spec_input_value(data@) {
            Some(v) => r matches Ok(d) && d.value@ == v && d.event == event,
            None => r == Err::<InputData, ContractViolation>(
                ContractViolation::InputListenerOnUnsupported,
            ),
        }),
{
    if str_eq(data.tag.as_str(), "INPUT") {
        Ok(InputData { value: data.value.clone(), event })
    } else if str_eq(data.tag.as_str(), "TEXTAREA") {
        Ok(InputData { value: data.value.clone(), event })
    } else {
        match &data.text_content {
            Some(t) => Ok(InputData { value: t.clone(), event }),
            None => Err(ContractViolation::InputListenerOnUnsupported),
        }
    }
}

/// Classifies an element for a change occurrence, keyed by its tag name:
/// a file-type input control yields its file list, any other input control
/// and a multi-line control yield their current value, a selection control
/// yields its own handle, and every other tag is a contract violation.
pub fn classify_change(this: &Element, data: &ElementData) -> (r: Result<
    ChangeData,
    ContractViolation,
>)
    ensures
        change_supported(data@) ==> (r matches Ok(c) && change_payload_matches(*this, data@, c)),
        !change_supported(data@) ==> r == Err::<ChangeData, ContractViolation>(
            ContractViolation::ChangeListenerOnUnsupported,
        ),
{
    if str_eq(data.tag.as_str(), "INPUT") {
        let is_file = match &data.type_attr {
            Some(t) => str_eq_ignore_ascii_case(t.as_str(), "file"),
            None => false,
        };
        if is_file {
            Ok(ChangeData::Files(FileList { files: clone_strings(&data.files) }))
        } else {
            Ok(ChangeData::Value(data.value.clone()))
        }
    } else if str_eq(data.tag.as_str(), "TEXTAREA") {
        Ok(ChangeData::Value(data.value.clone()))
    } else if str_eq(data.tag.as_str(), "SELECT") {
        Ok(ChangeData::Select(*this))
    } else {
        Err(ContractViolation::ChangeListenerOnUnsupported)
    }
}

} // verus!
