use tailwind_fragments::position::{
    get_template_position, index_of_span, Span, TemplateElement, TemplateParent,
};
use tailwind_fragments::registry::{ClassRegistry, OutputToken, TokenStream};
use tailwind_fragments::splitter::write_tailwind_template_element;

fn span(start: u32, end: u32) -> Span {
    Span { start, end }
}

fn text(s: &str) -> OutputToken {
    OutputToken::VerbatimText(s.to_string())
}

fn three_quasis() -> Vec<Span> {
    vec![span(1, 4), span(8, 12), span(15, 15)]
}

#[test]
fn position_in_template_literal() {
    let parent = TemplateParent::TemplateLiteral { quasis: three_quasis(), expressions: 2 };
    assert_eq!(get_template_position(span(1, 4), &parent), Some((0, 2)));
    assert_eq!(get_template_position(span(8, 12), &parent), Some((1, 2)));
    assert_eq!(get_template_position(span(15, 15), &parent), Some((2, 2)));
}

#[test]
fn position_in_template_literal_type() {
    let parent = TemplateParent::TsTemplateLiteralType { quasis: three_quasis(), types: 2 };
    assert_eq!(get_template_position(span(8, 12), &parent), Some((1, 2)));
}

#[test]
fn unmatched_span_counts_as_a_lone_fragment() {
    let parent = TemplateParent::TemplateLiteral { quasis: three_quasis(), expressions: 2 };
    assert_eq!(get_template_position(span(8, 13), &parent), Some((0, 0)));
    assert_eq!(get_template_position(span(9, 12), &parent), Some((0, 0)));
    let parent = TemplateParent::TsTemplateLiteralType { quasis: three_quasis(), types: 2 };
    assert_eq!(get_template_position(span(0, 0), &parent), Some((0, 0)));
    let empty = TemplateParent::TemplateLiteral { quasis: Vec::new(), expressions: 0 };
    assert_eq!(get_template_position(span(0, 0), &empty), Some((0, 0)));
    let no_fragments = TemplateParent::TemplateLiteral { quasis: Vec::new(), expressions: 3 };
    assert_eq!(get_template_position(span(0, 0), &no_fragments), Some((0, 0)));
}

#[test]
fn element_with_unmatched_span_is_first_and_last() {
    let element = TemplateElement {
        text: "a".to_string(),
        span: span(8, 13),
        parent: TemplateParent::TemplateLiteral { quasis: three_quasis(), expressions: 2 },
    };
    let mut registry = ClassRegistry::new();
    let mut out = TokenStream::new();
    write_tailwind_template_element(&element, false, &mut registry, &mut out);
    assert_eq!(out.tokens().clone(), vec![OutputToken::SortableClassRef(0)]);
    assert_eq!(registry.classes().clone(), vec!["a".to_string()]);
}

#[test]
fn other_parent_has_no_position() {
    assert_eq!(get_template_position(span(1, 4), &TemplateParent::Other), None);
}

#[test]
fn first_of_equal_spans_wins() {
    let spans = vec![span(0, 1), span(5, 6), span(5, 6)];
    assert_eq!(index_of_span(&spans, span(5, 6)), Some(1));
    assert_eq!(index_of_span(&spans, span(0, 1)), Some(0));
    assert_eq!(index_of_span(&spans, span(7, 8)), None);
    assert_eq!(index_of_span(&Vec::new(), span(0, 1)), None);
}

#[test]
fn element_is_split_by_its_place_in_the_template() {
    // `a${x}px-2 mt-1${y}b`: the middle fragment touches both expressions.
    let quasis = vec![span(1, 2), span(6, 15), span(19, 20)];
    let element = TemplateElement {
        text: "px-2 mt-1 b".to_string(),
        span: span(6, 15),
        parent: TemplateParent::TemplateLiteral { quasis, expressions: 2 },
    };
    let mut registry = ClassRegistry::new();
    let mut out = TokenStream::new();
    write_tailwind_template_element(&element, false, &mut registry, &mut out);
    assert_eq!(
        out.tokens().clone(),
        vec![text("px-2"), text(" "), OutputToken::SortableClassRef(0), text(" "), text("b")]
    );
    assert_eq!(registry.classes().clone(), vec!["mt-1".to_string()]);
}

#[test]
fn element_under_other_parent_is_a_lone_fragment() {
    let element = TemplateElement {
        text: "px-2 mt-1".to_string(),
        span: span(3, 12),
        parent: TemplateParent::Other,
    };
    let mut registry = ClassRegistry::new();
    let mut out = TokenStream::new();
    write_tailwind_template_element(&element, false, &mut registry, &mut out);
    assert_eq!(out.tokens().clone(), vec![OutputToken::SortableClassRef(0)]);
    assert_eq!(registry.classes().clone(), vec!["px-2 mt-1".to_string()]);
}

#[test]
fn element_with_preserved_whitespace_is_registered_whole() {
    let element = TemplateElement {
        text: "px-2  mt-1 ".to_string(),
        span: span(6, 17),
        parent: TemplateParent::TemplateLiteral {
            quasis: vec![span(1, 2), span(6, 17)],
            expressions: 1,
        },
    };
    let mut registry = ClassRegistry::new();
    let mut out = TokenStream::new();
    write_tailwind_template_element(&element, true, &mut registry, &mut out);
    assert_eq!(out.tokens().clone(), vec![OutputToken::SortableClassRef(0)]);
    assert_eq!(registry.classes().clone(), vec!["px-2  mt-1 ".to_string()]);
}

#[test]
fn last_element_of_a_template_keeps_its_touching_class() {
    // `${x}px-2 mt-1`: the last fragment touches the expression before it.
    let element = TemplateElement {
        text: "px-2 mt-1".to_string(),
        span: span(5, 14),
        parent: TemplateParent::TemplateLiteral {
            quasis: vec![span(1, 1), span(5, 14)],
            expressions: 1,
        },
    };
    let mut registry = ClassRegistry::new();
    let mut out = TokenStream::new();
    write_tailwind_template_element(&element, false, &mut registry, &mut out);
    assert_eq!(out.tokens().clone(), vec![text("px-2"), text(" "), OutputToken::SortableClassRef(0)]);
    assert_eq!(registry.classes().clone(), vec!["mt-1".to_string()]);
}

#[test]
fn fragments_of_either_template_kind() {
    let literal = TemplateParent::TemplateLiteral { quasis: three_quasis(), expressions: 2 };
    assert_eq!(literal.fragments(), Some((&three_quasis(), 2)));
    let literal_type = TemplateParent::TsTemplateLiteralType { quasis: three_quasis(), types: 3 };
    assert_eq!(literal_type.fragments(), Some((&three_quasis(), 3)));
    assert_eq!(TemplateParent::Other.fragments(), None);
}

#[test]
fn each_fragment_is_found_at_its_own_place() {
    let quasis = three_quasis();
    let parent = TemplateParent::TemplateLiteral { quasis: quasis.clone(), expressions: 2 };
    for (i, q) in quasis.iter().enumerate() {
        let (position, expr_count) = get_template_position(*q, &parent).unwrap();
        assert_eq!(position, i);
        assert_eq!(position == 0, i == 0);
        assert_eq!(position >= expr_count, i == quasis.len() - 1);
    }
}
