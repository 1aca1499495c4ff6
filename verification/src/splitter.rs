//! The boundary splitter: which part of a template fragment may be reordered
//! and which parts stay glued to the neighbouring expressions.

use vstd::prelude::*;
use vstd::string::StrSliceExecFns;
use crate::position::{get_template_position, position_of, TemplateElement};
use crate::registry::{ClassRegistry, Token, TokenStream};
use crate::whitespace::{
    chars_of, first_ws, is_ascii_whitespace, is_ascii_ws, last_ws, leading_run_len,
    lemma_first_and_last_ws, lemma_leading_run_ends, lemma_trailing_run_ends, trailing_run_len,
    trim, trimmed, CharClass,
};

verus! {

/// The fragment touches the expression before it: it is not the first
/// fragment and does not start with whitespace.
pub open spec fn ignore_first(s: Seq<char>, position: nat) -> bool {
    position != 0 && !(s.len() > 0 && is_ascii_ws(s[0]))
}

/// The fragment touches the expression after it: it is not the last fragment
/// and does not end with whitespace.
pub open spec fn ignore_last(s: Seq<char>, position: nat, expr_count: nat) -> bool {
    position < expr_count && !(s.len() > 0 && is_ascii_ws(s.last()))
}

/// Where the sortable region starts and ends in `s`: the prefix is
/// `s[..start]`, the sortable region `s[start..end]`, the suffix `s[end..]`.
pub open spec fn split_bounds(s: Seq<char>, position: nat, expr_count: nat) -> (int, int) {
    let first = if ignore_first(s, position) {
        first_ws(s)
    } else {
        None
    };
    let last = if ignore_last(s, position, expr_count) {
        last_ws(s)
    } else {
        None
    };
    match (first, last) {
        (Some(f), Some(l)) => if f < l {
            (f, l + 1)
        } else {
            (f, s.len() as int)
        },
        (Some(f), None) => (f, s.len() as int),
        (None, Some(l)) => (0, l + 1),
        (None, None) => (0, s.len() as int),
    }
}

/// The text kept verbatim in front of the sortable region.
pub open spec fn prefix_of(s: Seq<char>, position: nat, expr_count: nat) -> Seq<char> {
    s.subrange(0, split_bounds(s, position, expr_count).0)
}

/// The region that may be reordered, with the whitespace at its two ends.
pub open spec fn sortable_of(s: Seq<char>, position: nat, expr_count: nat) -> Seq<char> {
    let b = split_bounds(s, position, expr_count);
    s.subrange(b.0, b.1)
}

/// The text kept verbatim behind the sortable region.
pub open spec fn suffix_of(s: Seq<char>, position: nat, expr_count: nat) -> Seq<char> {
    s.subrange(split_bounds(s, position, expr_count).1, s.len() as int)
}

/// A single space.
pub open spec fn space() -> Seq<char> {
    seq![' ']
}

/// A verbatim token for `s`, or nothing when `s` is empty.
pub open spec fn text_tokens(s: Seq<char>) -> Seq<Token> {
    if s.len() > 0 {
        seq![Token::Text(s)]
    } else {
        Seq::<Token>::empty()
    }
}

/// One space token when `wanted`, else nothing.
pub open spec fn space_tokens(wanted: bool) -> Seq<Token> {
    if wanted {
        seq![Token::Text(space())]
    } else {
        Seq::<Token>::empty()
    }
}

/// The tokens that stand for the sortable region: a lone space when it holds
/// only whitespace, nothing when it is empty, and otherwise a reference to
/// handle `id`, with one space in front when `lead` and one behind when
/// `trail`.
pub open spec fn sortable_tokens(sortable: Seq<char>, lead: bool, trail: bool, id: nat) -> Seq<
    Token,
> {
    if trimmed(sortable).len() == 0 {
        space_tokens(sortable.len() > 0)
    } else {
        space_tokens(lead).push(Token::ClassRef(id)) + space_tokens(trail)
    }
}

/// Whether a space is owed in front of a non-empty sortable core.
pub open spec fn leads_with_space(s: Seq<char>, position: nat, expr_count: nat) -> bool {
    position != 0 || prefix_of(s, position, expr_count).len() > 0
}

/// Whether a space is owed behind a non-empty sortable core.
pub open spec fn trails_with_space(s: Seq<char>, position: nat, expr_count: nat) -> bool {
    position < expr_count || suffix_of(s, position, expr_count).len() > 0
}

/// The tokens emitted for fragment `s` at `position` among fragments that
/// surround `expr_count` expressions, when the next free handle is `id`.
pub open spec fn fragment_tokens(s: Seq<char>, position: nat, expr_count: nat, id: nat) -> Seq<
    Token,
> {
    text_tokens(prefix_of(s, position, expr_count)) + sortable_tokens(
        sortable_of(s, position, expr_count),
        leads_with_space(s, position, expr_count),
        trails_with_space(s, position, expr_count),
        id,
    ) + text_tokens(suffix_of(s, position, expr_count))
}

/// The texts registered for fragment `s`: the trimmed sortable region, unless
/// it is empty.
pub open spec fn fragment_registered(s: Seq<char>, position: nat, expr_count: nat) -> Seq<
    Seq<char>,
> {
    let core = trimmed(sortable_of(s, position, expr_count));
    if core.len() > 0 {
        seq![core]
    } else {
        Seq::<Seq<char>>::empty()
    }
}

/// The tokens emitted for a template fragment. With `preserve_whitespace` the
/// whole fragment is one reference.
pub open spec fn template_tokens(
    s: Seq<char>,
    preserve_whitespace: bool,
    position: nat,
    expr_count: nat,
    id: nat,
) -> Seq<Token> {
    if preserve_whitespace {
        seq![Token::ClassRef(id)]
    } else {
        fragment_tokens(s, position, expr_count, id)
    }
}

/// The texts registered for a template fragment. With `preserve_whitespace`
/// the whole fragment is registered as it stands.
pub open spec fn template_registered(
    s: Seq<char>,
    preserve_whitespace: bool,
    position: nat,
    expr_count: nat,
) -> Seq<Seq<char>> {
    if preserve_whitespace {
        seq![s]
    } else {
        fragment_registered(s, position, expr_count)
    }
}

/// The bounds of the sortable region lie in order inside the fragment.
pub proof fn lemma_split_bounds_in_range(s: Seq<char>, position: nat, expr_count: nat)
    ensures
        0 <= split_bounds(s, position, expr_count).0 <= split_bounds(s, position, expr_count).1
            <= s.len(),
{
    lemma_leading_run_ends(s, CharClass::NotAsciiWhitespace);
    lemma_trailing_run_ends(s, CharClass::NotAsciiWhitespace);
}

/// The prefix, the sortable region and the suffix of a fragment, in this
/// order, make up the fragment: nothing is lost and nothing is counted twice.
pub proof fn lemma_regions_partition(s: Seq<char>, position: nat, expr_count: nat)
    ensures
        prefix_of(s, position, expr_count) + sortable_of(s, position, expr_count) + suffix_of(
            s,
            position,
            expr_count,
        ) == s,
{
    lemma_split_bounds_in_range(s, position, expr_count);
    assert(prefix_of(s, position, expr_count) + sortable_of(s, position, expr_count) + suffix_of(
        s,
        position,
        expr_count,
    ) =~= s);
}

/// The first fragment of a template has no prefix, and the last has no
/// suffix: only an expression next to the fragment can glue text to itself.
pub proof fn lemma_outer_boundaries_respected(s: Seq<char>, position: nat, expr_count: nat)
    ensures
        position == 0 ==> prefix_of(s, position, expr_count).len() == 0,
        position >= expr_count ==> suffix_of(s, position, expr_count).len() == 0,
{
    lemma_split_bounds_in_range(s, position, expr_count);
}

/// A fragment that holds no ASCII whitespace is sortable throughout, wherever
/// it stands: with no whitespace to cut at, nothing is set apart as prefix or
/// suffix.
pub proof fn lemma_fragment_without_whitespace(s: Seq<char>, position: nat, expr_count: nat)
    requires
        first_ws(s) is None,
    ensures
        prefix_of(s, position, expr_count).len() == 0,
        suffix_of(s, position, expr_count).len() == 0,
        sortable_of(s, position, expr_count) == s,
{
    lemma_first_and_last_ws(s);
    assert(sortable_of(s, position, expr_count) =~= s);
}

/// A prefix, where there is one, ends just before the fragment's first
/// whitespace and holds none; a suffix starts just after the last whitespace
/// and holds none.
pub proof fn lemma_ignored_text_has_no_whitespace(s: Seq<char>, position: nat, expr_count: nat)
    ensures
        forall|i: int|
            0 <= i < prefix_of(s, position, expr_count).len() ==> !is_ascii_ws(
                #[trigger] prefix_of(s, position, expr_count)[i],
            ),
        forall|i: int|
            0 <= i < suffix_of(s, position, expr_count).len() ==> !is_ascii_ws(
                #[trigger] suffix_of(s, position, expr_count)[i],
            ),
{
    lemma_split_bounds_in_range(s, position, expr_count);
    lemma_leading_run_ends(s, CharClass::NotAsciiWhitespace);
    lemma_trailing_run_ends(s, CharClass::NotAsciiWhitespace);
    let p = prefix_of(s, position, expr_count);
    let x = suffix_of(s, position, expr_count);
    let b = split_bounds(s, position, expr_count);
    assert forall|i: int| 0 <= i < p.len() implies !is_ascii_ws(#[trigger] p[i]) by {
        assert(p[i] == s[i]);
    }
    assert forall|i: int| 0 <= i < x.len() implies !is_ascii_ws(#[trigger] x[i]) by {
        assert(x[i] == s[b.1 + i]);
    }
}

/// Index of the first ASCII whitespace character of `chars`, if there is
/// one.
pub fn find_first_whitespace(chars: &Vec<char>) -> (r: Option<usize>)
    ensures
        r is Some <==> first_ws(chars@) is Some,
        r is Some ==> r->0 as int == first_ws(chars@)->0 && r->0 < chars@.len(),
{
    let n: usize = leading_run_len(chars, CharClass::NotAsciiWhitespace);
    if n < chars.len() {
        Some(n)
    } else {
        None
    }
}

/// Index of the last ASCII whitespace character of `chars`, if there is one.
pub fn find_last_whitespace(chars: &Vec<char>) -> (r: Option<usize>)
    ensures
        r is Some <==> last_ws(chars@) is Some,
        r is Some ==> r->0 as int == last_ws(chars@)->0 && r->0 < chars@.len(),
{
    let n: usize = trailing_run_len(chars, CharClass::NotAsciiWhitespace);
    let len: usize = chars.len();
    if n < len {
        Some(len - 1 - n)
    } else {
        None
    }
}

/// Cuts a fragment into the prefix that stays attached to the expression
/// before it, the sortable region, and the suffix that stays attached to the
/// expression after it.
pub fn split_regions<'a>(content: &'a str, position: usize, expr_count: usize) -> (parts: (
    &'a str,
    &'a str,
    &'a str,
))
    ensures
        parts.0@ == prefix_of(content@, position as nat, expr_count as nat),
        parts.1@ == sortable_of(content@, position as nat, expr_count as nat),
        parts.2@ == suffix_of(content@, position as nat, expr_count as nat),
        parts.0@ + parts.1@ + parts.2@ == content@,
        position == 0 ==> parts.0@.len() == 0,
        position >= expr_count ==> parts.2@.len() == 0,
{
    proof {
        lemma_regions_partition(content@, position as nat, expr_count as nat);
        lemma_outer_boundaries_respected(content@, position as nat, expr_count as nat);
    }
    let chars = chars_of(content);
    let len: usize = chars.len();
    let starts_with_ws = len > 0 && is_ascii_whitespace(chars[0]);
    let ends_with_ws = len > 0 && is_ascii_whitespace(chars[len - 1]);
    let first_ws = if position != 0 && !starts_with_ws {
        find_first_whitespace(&chars)
    } else {
        None
    };
    let last_ws = if position < expr_count && !ends_with_ws {
        find_last_whitespace(&chars)
    } else {
        None
    };
    let (start, end): (usize, usize) = match (first_ws, last_ws) {
        (Some(f), Some(l)) => if f < l {
            (f, l + 1)
        } else {
            (f, len)
        },
        (Some(f), None) => (f, len),
        (None, Some(l)) => (0, l + 1),
        (None, None) => (0, len),
    };
    (
        content.substring_char(0, start),
        content.substring_char(start, end),
        content.substring_char(end, len),
    )
}

/// Emits the tokens for one template fragment and registers its sortable
/// core, at a position given by the caller. `position` is the fragment's
/// index among the template's fragments and `expr_count` the number of
/// expressions between them.
pub fn write_template_fragment(
    content: &str,
    preserve_whitespace: bool,
    position: usize,
    expr_count: usize,
    registry: &mut ClassRegistry,
    out: &mut TokenStream,
)
    ensures
        final(out)@ == old(out)@ + template_tokens(
            content@,
            preserve_whitespace,
            position as nat,
            expr_count as nat,
            old(registry)@.len(),
        ),
        final(registry)@ == old(registry)@ + template_registered(
            content@,
            preserve_whitespace,
            position as nat,
            expr_count as nat,
        ),
{
    if preserve_whitespace {
        let id: usize = registry.add_tailwind_class(content.to_owned());
        out.write_class_ref(id);
        assert(out@ =~= old(out)@ + seq![Token::ClassRef(old(registry)@.len())]);
        assert(registry@ =~= old(registry)@ + seq![content@]);
        return ;
    }
    let (prefix, sortable, suffix) = split_regions(content, position, expr_count);
    let has_prefix = !prefix.is_empty();
    let has_suffix = !suffix.is_empty();
    let lead = position != 0 || has_prefix;
    let trail = position < expr_count || has_suffix;
    proof {
        reveal_strlit(" ");
        assert(" "@ =~= space());
    }

    if has_prefix {
        out.write_text(prefix);
    }
    assert(out@ =~= old(out)@ + text_tokens(prefix@));

    let core = trim(sortable);
    if core.is_empty() {
        if !sortable.is_empty() {
            out.write_text(" ");
        }
        assert(registry@ =~= old(registry)@ + Seq::<Seq<char>>::empty());
    } else {
        if lead {
            out.write_text(" ");
        }
        let id: usize = registry.add_tailwind_class(core.to_owned());
        out.write_class_ref(id);
        if trail {
            out.write_text(" ");
        }
        assert(registry@ =~= old(registry)@ + seq![core@]);
    }
    assert(out@ =~= old(out)@ + text_tokens(prefix@) + sortable_tokens(
        sortable@,
        lead,
        trail,
        old(registry)@.len(),
    ));

    if has_suffix {
        out.write_text(suffix);
    }
    assert(out@ =~= old(out)@ + (text_tokens(prefix@) + sortable_tokens(
        sortable@,
        lead,
        trail,
        old(registry)@.len(),
    ) + text_tokens(suffix@)));
}

/// Emits the tokens for a template fragment and registers its sortable core.
/// With `preserve_whitespace` the whole fragment is registered as it stands.
/// Otherwise the fragment's place in its template decides which of its ends
/// stay verbatim; under a parent that is no template it is treated as a lone
/// first fragment.
pub fn write_tailwind_template_element(
    element: &TemplateElement,
    preserve_whitespace: bool,
    registry: &mut ClassRegistry,
    out: &mut TokenStream,
)
    ensures
        final(out)@ == old(out)@ + template_tokens(
            element.text@,
            preserve_whitespace,
            position_of(element.span, element.parent).0,
            position_of(element.span, element.parent).1,
            old(registry)@.len(),
        ),
        final(registry)@ == old(registry)@ + template_registered(
            element.text@,
            preserve_whitespace,
            position_of(element.span, element.parent).0,
            position_of(element.span, element.parent).1,
        ),
{
    let (position, expr_count): (usize, usize) = match get_template_position(
        element.span,
        &element.parent,
    ) {
        Some(found) => found,
        None => (0, 0),
    };
    write_template_fragment(
        element.text.as_str(),
        preserve_whitespace,
        position,
        expr_count,
        registry,
        out,
    );
}

} // verus!
