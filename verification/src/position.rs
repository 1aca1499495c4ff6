//! The position resolver: where a template fragment stands among its
//! siblings, and how many expressions the template holds.

use vstd::prelude::*;

verus! {

/// A range of the source text, by its two offsets. A fragment is told from
/// its siblings by its span.
#[derive(Debug, Clone, Copy, PartialEq, Eq, Structural)]
pub struct Span {
    pub start: u32,
    pub end: u32,
}

/// What a template fragment hangs under: a template literal, a template
/// literal type, or anything else. The two template kinds hold the spans of
/// their fragments in source order and the number of expressions (or types)
/// interleaved with them.
#[derive(Debug, Clone, PartialEq, Eq)]
pub enum TemplateParent {
    TemplateLiteral { quasis: Vec<Span>, expressions: usize },
    TsTemplateLiteralType { quasis: Vec<Span>, types: usize },
    Other,
}

/// A run of literal text inside a template: its content, its span, and the
/// structure it hangs under.
#[derive(Debug, Clone, PartialEq, Eq)]
pub struct TemplateElement {
    pub text: String,
    pub span: Span,
    pub parent: TemplateParent,
}

impl TemplateParent {
    /// Whether this is one of the two template kinds.
    pub open spec fn is_template(&self) -> bool {
        !(self is Other)
    }

    /// The spans of the fragments, in source order; empty for `Other`.
    pub open spec fn fragment_spans(&self) -> Seq<Span> {
        match self {
            TemplateParent::TemplateLiteral { quasis, .. } => quasis@,
            TemplateParent::TsTemplateLiteralType { quasis, .. } => quasis@,
            TemplateParent::Other => Seq::<Span>::empty(),
        }
    }

    /// The number of interleaved expressions; 0 for `Other`.
    pub open spec fn expression_count(&self) -> nat {
        match self {
            TemplateParent::TemplateLiteral { expressions, .. } => *expressions as nat,
            TemplateParent::TsTemplateLiteralType { types, .. } => *types as nat,
            TemplateParent::Other => 0,
        }
    }

    /// The spans of the fragments and the number of expressions, for either
    /// template kind; `None` for `Other`.
    pub fn fragments(&self) -> (r: Option<(&Vec<Span>, usize)>)
        ensures
            match r {
                Some((spans, count)) => self.is_template() && spans@ == self.fragment_spans()
                    && count as nat == self.expression_count(),
                None => !self.is_template(),
            },
    {
        match self {
            TemplateParent::TemplateLiteral { quasis, expressions } => Some(
                (quasis, *expressions),
            ),
            TemplateParent::TsTemplateLiteralType { quasis, types } => Some((quasis, *types)),
            TemplateParent::Other => None,
        }
    }
}

/// `i` is the index of the first of `spans` equal to `span`.
pub open spec fn is_first_match(spans: Seq<Span>, span: Span, i: int) -> bool {
    &&& 0 <= i < spans.len()
    &&& spans[i] == span
    &&& forall|j: int| 0 <= j < i ==> #[trigger] spans[j] != span
}

/// The index of the first of `spans` equal to `span`, if any is.
pub open spec fn index_among(spans: Seq<Span>, span: Span) -> Option<int> {
    if exists|i: int| is_first_match(spans, span, i) {
        Some(choose|i: int| is_first_match(spans, span, i))
    } else {
        None
    }
}

/// The position and expression count used for a fragment with `span` under
/// `parent`: its index among the parent's fragments with the parent's number
/// of expressions where the parent is a template and holds a fragment with
/// that span, and `(0, 0)`, the place of a lone first fragment, otherwise.
pub open spec fn position_of(span: Span, parent: TemplateParent) -> (nat, nat) {
    if parent.is_template() {
        match index_among(parent.fragment_spans(), span) {
            Some(i) => (i as nat, parent.expression_count()),
            None => (0, 0),
        }
    } else {
        (0, 0)
    }
}

/// No two of `spans` are equal.
pub open spec fn distinct_spans(spans: Seq<Span>) -> bool {
    forall|i: int, j: int| 0 <= i < j < spans.len() ==> spans[i] != spans[j]
}

/// A fragment is found at its own place: where the fragments of a template
/// have distinct spans, the `i`-th of them gets position `i`, together with
/// the template's number of expressions.
pub proof fn lemma_position_of_fragment(parent: TemplateParent, i: int)
    requires
        parent.is_template(),
        distinct_spans(parent.fragment_spans()),
        0 <= i < parent.fragment_spans().len(),
    ensures
        position_of(parent.fragment_spans()[i], parent) == (i as nat, parent.expression_count()),
{
    let spans = parent.fragment_spans();
    assert(is_first_match(spans, spans[i], i));
    let k = index_among(spans, spans[i])->0;
    assert(is_first_match(spans, spans[i], k));
    if k < i {
        assert(spans[k] != spans[i]);
    } else if i < k {
        assert(spans[i] != spans[k]);
    }
}

/// A span that none of a template's fragments has is placed like a lone
/// fragment, first and last at once, whatever the template holds.
pub proof fn lemma_position_of_unmatched(span: Span, parent: TemplateParent)
    requires
        forall|i: int|
            0 <= i < parent.fragment_spans().len() ==> #[trigger] parent.fragment_spans()[i]
                != span,
    ensures
        position_of(span, parent) == (0nat, 0nat),
{
    assert forall|k: int| !is_first_match(parent.fragment_spans(), span, k) by {
        if 0 <= k < parent.fragment_spans().len() {
            assert(parent.fragment_spans()[k] != span);
        }
    }
}

/// In a template that ends with a fragment (one fragment more than it has
/// expressions) and whose fragments have distinct spans, the first fragment
/// alone has position 0 and the last alone has a position that reaches the
/// number of expressions.
pub proof fn lemma_first_and_last_fragment(parent: TemplateParent, i: int)
    requires
        parent.is_template(),
        distinct_spans(parent.fragment_spans()),
        0 <= i < parent.fragment_spans().len(),
        parent.fragment_spans().len() == parent.expression_count() + 1,
    ensures
        position_of(parent.fragment_spans()[i], parent).0 == 0 <==> i == 0,
        position_of(parent.fragment_spans()[i], parent).0 >= position_of(
            parent.fragment_spans()[i],
            parent,
        ).1 <==> i == parent.fragment_spans().len() - 1,
{
    lemma_position_of_fragment(parent, i);
}

/// Finds the first of `spans` equal to `span`.
pub fn index_of_span(spans: &Vec<Span>, span: Span) -> (r: Option<usize>)
    ensures
        match r {
            Some(i) => index_among(spans@, span) == Some(i as int) && i < spans@.len(),
            None => index_among(spans@, span) is None,
        },
{
    let mut i: usize = 0;
    while i < spans.len()
        invariant
            i <= spans@.len(),
            forall|j: int| 0 <= j < i ==> #[trigger] spans@[j] != span,
        decreases spans@.len() - i,
    {
        if spans[i] == span {
            assert(is_first_match(spans@, span, i as int));
            assert forall|k: int| is_first_match(spans@, span, k) implies k == i by {
                if k < i {
                    assert(spans@[k] != span);
                } else if k > i {
                    assert(spans@[i as int] == span);
                }
            }
            return Some(i);
        }
        i += 1;
    }
    assert forall|k: int| !is_first_match(spans@, span, k) by {
        if 0 <= k < spans@.len() {
            assert(spans@[k] != span);
        }
    }
    None
}

/// For a fragment with `span` under `parent`, the position and expression
/// count to split it by; `None` when the parent is no template. Under a
/// template that holds a fragment with that span this is the fragment's index
/// and the template's number of expressions. Under a template that holds
/// none, it is `(0, 0)`: the fragment is taken for a lone first fragment.
pub fn get_template_position(span: Span, parent: &TemplateParent) -> (r: Option<(usize, usize)>)
    ensures
        match r {
            Some((index, count)) => parent.is_template() && (index as nat, count as nat)
                == position_of(span, *parent),
            None => !parent.is_template(),
        },
{
    match parent.fragments() {
        Some((spans, count)) => match index_of_span(spans, span) {
            Some(index) => Some((index, count)),
            None => Some((0, 0)),
        },
        None => None,
    }
}

} // verus!
