use tailwind_fragments::classifier::{
    contains_name, is_tailwind_function_call, is_tailwind_jsx_attribute, text_equals, Callee,
    JsxAttributeName, TailwindcssOptions,
};

fn options(attributes: Option<Vec<&str>>, functions: Option<Vec<&str>>) -> TailwindcssOptions {
    TailwindcssOptions {
        tailwind_attributes: attributes.map(|l| l.into_iter().map(String::from).collect()),
        tailwind_functions: functions.map(|l| l.into_iter().map(String::from).collect()),
    }
}

fn ident(name: &str) -> JsxAttributeName {
    JsxAttributeName::Identifier(name.to_string())
}

#[test]
fn default_attributes_match_without_options() {
    let o = options(None, None);
    assert!(is_tailwind_jsx_attribute(&ident("class"), &o));
    assert!(is_tailwind_jsx_attribute(&ident("className"), &o));
}

#[test]
fn other_attributes_do_not_match_without_options() {
    let o = options(None, None);
    assert!(!is_tailwind_jsx_attribute(&ident("id"), &o));
    assert!(!is_tailwind_jsx_attribute(&ident(""), &o));
    assert!(!is_tailwind_jsx_attribute(&ident("clas"), &o));
    assert!(!is_tailwind_jsx_attribute(&ident("classes"), &o));
    assert!(!is_tailwind_jsx_attribute(&ident("classNames"), &o));
}

#[test]
fn attribute_comparison_is_case_sensitive() {
    let o = options(Some(vec!["tw"]), None);
    assert!(!is_tailwind_jsx_attribute(&ident("Class"), &o));
    assert!(!is_tailwind_jsx_attribute(&ident("classname"), &o));
    assert!(!is_tailwind_jsx_attribute(&ident("CLASSNAME"), &o));
    assert!(!is_tailwind_jsx_attribute(&ident("TW"), &o));
    assert!(is_tailwind_jsx_attribute(&ident("tw"), &o));
}

#[test]
fn custom_attributes_match_in_any_place_of_the_list() {
    let o = options(Some(vec!["classList", "tw", "styles"]), None);
    assert!(is_tailwind_jsx_attribute(&ident("classList"), &o));
    assert!(is_tailwind_jsx_attribute(&ident("tw"), &o));
    assert!(is_tailwind_jsx_attribute(&ident("styles"), &o));
    assert!(is_tailwind_jsx_attribute(&ident("class"), &o));
    assert!(!is_tailwind_jsx_attribute(&ident("style"), &o));
}

#[test]
fn empty_attribute_list_keeps_the_defaults_only() {
    let o = options(Some(vec![]), None);
    assert!(is_tailwind_jsx_attribute(&ident("className"), &o));
    assert!(!is_tailwind_jsx_attribute(&ident("tw"), &o));
}

#[test]
fn namespaced_attribute_never_matches() {
    let o = options(Some(vec!["class", "xlink:class"]), None);
    let name = JsxAttributeName::NamespacedName {
        namespace: "xlink".to_string(),
        name: "class".to_string(),
    };
    assert!(!is_tailwind_jsx_attribute(&name, &o));
}

#[test]
fn function_list_does_not_widen_attributes() {
    let o = options(None, Some(vec!["tw"]));
    assert!(!is_tailwind_jsx_attribute(&ident("tw"), &o));
}

#[test]
fn function_call_needs_configured_list() {
    let o = options(Some(vec!["clsx"]), None);
    assert!(!is_tailwind_function_call(&Callee::Identifier("clsx".to_string()), &o));
    assert!(!is_tailwind_function_call(&Callee::Other, &o));
}

#[test]
fn function_call_matches_listed_identifier() {
    let o = options(None, Some(vec!["clsx", "cn", "tw"]));
    assert!(is_tailwind_function_call(&Callee::Identifier("clsx".to_string()), &o));
    assert!(is_tailwind_function_call(&Callee::Identifier("cn".to_string()), &o));
    assert!(is_tailwind_function_call(&Callee::Identifier("tw".to_string()), &o));
    assert!(!is_tailwind_function_call(&Callee::Identifier("Cn".to_string()), &o));
    assert!(!is_tailwind_function_call(&Callee::Identifier("classnames".to_string()), &o));
    assert!(!is_tailwind_function_call(&Callee::Identifier("class".to_string()), &o));
}

#[test]
fn function_call_rejects_other_callees() {
    let o = options(None, Some(vec!["clsx"]));
    assert!(!is_tailwind_function_call(&Callee::Other, &o));
}

#[test]
fn classification_gives_the_same_answer_each_time() {
    let o = options(Some(vec!["tw"]), Some(vec!["cn"]));
    let again = o.clone();
    for name in ["class", "className", "tw", "cn", "other", ""] {
        let first = is_tailwind_jsx_attribute(&ident(name), &o);
        assert_eq!(first, is_tailwind_jsx_attribute(&ident(name), &o));
        assert_eq!(first, is_tailwind_jsx_attribute(&ident(name), &again));
        let callee = Callee::Identifier(name.to_string());
        let called = is_tailwind_function_call(&callee, &o);
        assert_eq!(called, is_tailwind_function_call(&callee, &o));
        assert_eq!(called, is_tailwind_function_call(&callee.clone(), &again));
    }
}

#[test]
fn text_equals_compares_characters() {
    assert!(text_equals("", ""));
    assert!(text_equals("class", "class"));
    assert!(!text_equals("class", "clasz"));
    assert!(!text_equals("class", "className"));
    assert!(!text_equals("className", "class"));
    assert!(text_equals("h\u{e9}llo", "h\u{e9}llo"));
    assert!(!text_equals("h\u{e9}llo", "hello"));
}

#[test]
fn contains_name_finds_exact_entries() {
    let list = vec!["a".to_string(), "bc".to_string()];
    assert!(contains_name(&list, "a"));
    assert!(contains_name(&list, "bc"));
    assert!(!contains_name(&list, "b"));
    assert!(!contains_name(&list, "abc"));
    assert!(!contains_name(&Vec::new(), "a"));
}
