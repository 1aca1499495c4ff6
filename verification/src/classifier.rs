//! The classifier: which attribute names and which call targets carry class
//! lists.

use vstd::prelude::*;
use crate::registry::texts_of;
use crate::whitespace::chars_of;

verus! {

/// The configured names, beyond the built-in ones, that mark a class list.
/// An unset list matches nothing.
#[derive(Debug, Clone, PartialEq, Eq)]
pub struct TailwindcssOptions {
    /// Further attribute names treated like `class` and `className`.
    pub tailwind_attributes: Option<Vec<String>>,
    /// Names of functions whose arguments hold class lists.
    pub tailwind_functions: Option<Vec<String>>,
}

/// The mathematical value of `TailwindcssOptions`.
pub ghost struct OptionsView {
    pub attributes: Option<Seq<Seq<char>>>,
    pub functions: Option<Seq<Seq<char>>>,
}

impl View for TailwindcssOptions {
    type V = OptionsView;

    open spec fn view(&self) -> OptionsView {
        OptionsView {
            attributes: match self.tailwind_attributes {
                Some(list) => Some(texts_of(list@)),
                None => None,
            },
            functions: match self.tailwind_functions {
                Some(list) => Some(texts_of(list@)),
                None => None,
            },
        }
    }
}

/// The name of an attribute: a plain identifier, or a name inside a
/// namespace (`ns:name`).
#[derive(Debug, Clone, PartialEq, Eq)]
pub enum JsxAttributeName {
    Identifier(String),
    NamespacedName { namespace: String, name: String },
}

/// The target of a call: a bare identifier, or any other expression (a
/// member access, a computed expression, ...).
#[derive(Debug, Clone, PartialEq, Eq)]
pub enum Callee {
    Identifier(String),
    Other,
}

/// The text `class`.
pub open spec fn class_text() -> Seq<char> {
    seq!['c', 'l', 'a', 's', 's']
}

/// The text `className`.
pub open spec fn class_name_text() -> Seq<char> {
    seq!['c', 'l', 'a', 's', 's', 'N', 'a', 'm', 'e']
}

/// `name` is `class` or `className`, or one of the configured attribute
/// names. Names are compared character by character, case included.
pub open spec fn is_tailwind_attribute(name: Seq<char>, options: OptionsView) -> bool {
    name == class_text() || name == class_name_text() || match options.attributes {
        Some(list) => list.contains(name),
        None => false,
    }
}

/// `name` is one of the configured function names.
pub open spec fn is_tailwind_call(name: Seq<char>, options: OptionsView) -> bool {
    match options.functions {
        Some(list) => list.contains(name),
        None => false,
    }
}

impl JsxAttributeName {
    /// An attribute of this name holds a class list: the name is a plain
    /// identifier that `is_tailwind_attribute` accepts.
    pub open spec fn holds_classes(&self, options: OptionsView) -> bool {
        match *self {
            JsxAttributeName::Identifier(name) => is_tailwind_attribute(name@, options),
            JsxAttributeName::NamespacedName { .. } => false,
        }
    }

    /// Two names are the same name: both plain with the same text, or both
    /// namespaced with the same two texts.
    pub open spec fn same_name(&self, other: &JsxAttributeName) -> bool {
        match (*self, *other) {
            (JsxAttributeName::Identifier(a), JsxAttributeName::Identifier(b)) => a@ == b@,
            (
                JsxAttributeName::NamespacedName { namespace: n1, name: a },
                JsxAttributeName::NamespacedName { namespace: n2, name: b },
            ) => n1@ == n2@ && a@ == b@,
            _ => false,
        }
    }
}

impl Callee {
    /// A call of this target takes class lists: the target is a bare
    /// identifier that `is_tailwind_call` accepts.
    pub open spec fn takes_classes(&self, options: OptionsView) -> bool {
        match *self {
            Callee::Identifier(name) => is_tailwind_call(name@, options),
            Callee::Other => false,
        }
    }

    /// Two targets are the same: both bare identifiers with the same text, or
    /// neither a bare identifier.
    pub open spec fn same_target(&self, other: &Callee) -> bool {
        match (*self, *other) {
            (Callee::Identifier(a), Callee::Identifier(b)) => a@ == b@,
            (Callee::Other, Callee::Other) => true,
            _ => false,
        }
    }
}

/// Classification is decided by the name and the configured lists alone: the
/// same name under the same configuration is classified the same way, every
/// time and whichever values carry the texts.
pub proof fn lemma_classification_is_deterministic(
    attr_a: JsxAttributeName,
    attr_b: JsxAttributeName,
    callee_a: Callee,
    callee_b: Callee,
    options_a: TailwindcssOptions,
    options_b: TailwindcssOptions,
)
    requires
        options_a@ == options_b@,
    ensures
        attr_a.same_name(&attr_b) ==> attr_a.holds_classes(options_a@) == attr_b.holds_classes(
            options_b@,
        ),
        callee_a.same_target(&callee_b) ==> callee_a.takes_classes(options_a@)
            == callee_b.takes_classes(options_b@),
{
}

/// Whether two texts hold the same characters.
pub fn text_equals(a: &str, b: &str) -> (r: bool)
    ensures
        r == (a@ == b@),
{
    let x = chars_of(a);
    let y = chars_of(b);
    if x.len() != y.len() {
        return false;
    }
    let mut i: usize = 0;
    while i < x.len()
        invariant
            i <= x@.len(),
            x@ == a@,
            y@ == b@,
            x@.len() == y@.len(),
            forall|j: int| 0 <= j < i ==> x@[j] == y@[j],
        decreases x@.len() - i,
    {
        if x[i] != y[i] {
            return false;
        }
        i += 1;
    }
    assert(x@ =~= y@);
    true
}

/// Whether `name` is one of `list`.
pub fn contains_name(list: &Vec<String>, name: &str) -> (r: bool)
    ensures
        r == texts_of(list@).contains(name@),
{
    let mut i: usize = 0;
    while i < list.len()
        invariant
            i <= list@.len(),
            forall|j: int| 0 <= j < i ==> texts_of(list@)[j] != name@,
        decreases list@.len() - i,
    {
        if text_equals(list[i].as_str(), name) {
            assert(texts_of(list@)[i as int] == name@);
            return true;
        }
        i += 1;
    }
    false
}

/// Whether an attribute holds a class list: its name is a plain identifier
/// that is `class`, `className` or one of the configured attribute names.
pub fn is_tailwind_jsx_attribute(
    attr_name: &JsxAttributeName,
    tailwind_options: &TailwindcssOptions,
) -> (b: bool)
    ensures
        b == attr_name.holds_classes(tailwind_options@),
{
    match attr_name {
        JsxAttributeName::Identifier(ident) => {
            let name: &str = ident.as_str();
            proof {
                reveal_strlit("class");
                reveal_strlit("className");
                assert("class"@ =~= class_text());
                assert("className"@ =~= class_name_text());
            }
            if text_equals(name, "class") || text_equals(name, "className") {
                return true;
            }
            match &tailwind_options.tailwind_attributes {
                Some(attrs) => contains_name(attrs, name),
                None => false,
            }
        },
        JsxAttributeName::NamespacedName { .. } => false,
    }
}

/// Whether a call's arguments hold class lists: the callee is a bare
/// identifier and one of the configured function names.
pub fn is_tailwind_function_call(callee: &Callee, tailwind_options: &TailwindcssOptions) -> (b:
    bool)
    ensures
        b == callee.takes_classes(tailwind_options@),
{
    match &tailwind_options.tailwind_functions {
        None => false,
        Some(functions) => match callee {
            Callee::Identifier(ident) => contains_name(functions, ident.as_str()),
            Callee::Other => false,
        },
    }
}

} // verus!
