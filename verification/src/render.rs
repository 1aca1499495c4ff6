//! What the emitted tokens amount to once every reference is replaced by the
//! text registered under it, with no reordering applied; and the laws that
//! tie the splitter's output back to the fragment it was given.

use vstd::prelude::*;
use crate::literal::{literal_registered, literal_tokens, middle_of};
use crate::registry::Token;
use crate::splitter::{
    fragment_registered, leads_with_space, lemma_regions_partition, prefix_of, sortable_of,
    sortable_tokens, space, space_tokens, suffix_of, template_registered, template_tokens,
    text_tokens, trails_with_space,
};
use crate::whitespace::{
    all_in_class, in_class, is_ascii_ws, is_white_space, leading_part, lemma_leading_run_ends,
    lemma_strip_decomposition, lemma_stripped_empty_iff_all, lemma_stripped_has_bare_ends,
    lemma_trailing_run_ends, lemma_trim_decomposition, lemma_trim_empty_iff_all_whitespace,
    lemma_trim_has_bare_ends, trailing_part, trailing_run, trimmed, CharClass,
};

verus! {

/// The text of one token: its own text, or the text registered under its
/// handle (nothing for a handle the registry does not hold).
pub open spec fn token_text(t: Token, registry: Seq<Seq<char>>) -> Seq<char> {
    match t {
        Token::Text(s) => s,
        Token::ClassRef(id) => if id < registry.len() {
            registry[id as int]
        } else {
            Seq::<char>::empty()
        },
    }
}

/// The texts of `tokens`, one after the other.
pub open spec fn render(tokens: Seq<Token>, registry: Seq<Seq<char>>) -> Seq<char>
    decreases tokens.len(),
{
    if tokens.len() == 0 {
        Seq::<char>::empty()
    } else {
        render(tokens.drop_last(), registry) + token_text(tokens.last(), registry)
    }
}

/// One space when `wanted`, else nothing.
pub open spec fn spacing(wanted: bool) -> Seq<char> {
    if wanted {
        space()
    } else {
        Seq::<char>::empty()
    }
}

/// The sortable region with the whitespace at its ends normalised: trimmed,
/// then given one space in front when `lead` and one behind when `trail`; a
/// region of whitespace alone becomes one space.
pub open spec fn normalized(sortable: Seq<char>, lead: bool, trail: bool) -> Seq<char> {
    let core = trimmed(sortable);
    if core.len() == 0 {
        spacing(sortable.len() > 0)
    } else {
        spacing(lead) + core + spacing(trail)
    }
}

/// The sortable region of the fragment is already in normalised form.
pub open spec fn spacing_is_normal(s: Seq<char>, position: nat, expr_count: nat) -> bool {
    sortable_of(s, position, expr_count) == normalized(
        sortable_of(s, position, expr_count),
        leads_with_space(s, position, expr_count),
        trails_with_space(s, position, expr_count),
    )
}

/// `s` without its White_Space characters.
pub open spec fn without_whitespace(s: Seq<char>) -> Seq<char>
    decreases s.len(),
{
    if s.len() == 0 {
        s
    } else if is_white_space(s.last()) {
        without_whitespace(s.drop_last())
    } else {
        without_whitespace(s.drop_last()).push(s.last())
    }
}

/// Rendering one token gives its text.
pub proof fn lemma_render_one(t: Token, registry: Seq<Seq<char>>)
    ensures
        render(seq![t], registry) == token_text(t, registry),
{
    let one = seq![t];
    assert(one.drop_last() =~= Seq::<Token>::empty());
    assert(render(one.drop_last(), registry) =~= Seq::<char>::empty());
    assert(render(one, registry) =~= token_text(t, registry));
}

/// Rendering distributes over concatenation.
pub proof fn lemma_render_concat(a: Seq<Token>, b: Seq<Token>, registry: Seq<Seq<char>>)
    ensures
        render(a + b, registry) == render(a, registry) + render(b, registry),
    decreases b.len(),
{
    if b.len() == 0 {
        assert(a + b =~= a);
        assert(render(a, registry) + render(b, registry) =~= render(a, registry));
    } else {
        assert((a + b).drop_last() =~= a + b.drop_last());
        assert((a + b).last() == b.last());
        lemma_render_concat(a, b.drop_last(), registry);
        assert(render(a + b, registry) =~= render(a, registry) + render(b, registry));
    }
}

/// Rendering the verbatim tokens of a text gives the text.
pub proof fn lemma_render_text(s: Seq<char>, registry: Seq<Seq<char>>)
    ensures
        render(text_tokens(s), registry) == s,
{
    if s.len() > 0 {
        lemma_render_one(Token::Text(s), registry);
    } else {
        assert(render(text_tokens(s), registry) =~= s);
    }
}

/// Whatever whitespace surrounds the sortable core, the spacing emitted for
/// it is single spaces. Every verbatim token that stands
/// for the sortable region is exactly one space, there are at most two of
/// them, and a region of whitespace alone, however long, gives exactly one.
pub proof fn lemma_whitespace_collapses(sortable: Seq<char>, lead: bool, trail: bool, id: nat)
    ensures
        forall|i: int|
            0 <= i < sortable_tokens(sortable, lead, trail, id).len() ==> (#[trigger] sortable_tokens(
                sortable,
                lead,
                trail,
                id,
            )[i] == Token::Text(space()) || sortable_tokens(sortable, lead, trail, id)[i]
                == Token::ClassRef(id)),
        sortable_tokens(sortable, lead, trail, id).len() <= 3,
        sortable.len() > 0 && trimmed(sortable).len() == 0 ==> sortable_tokens(
            sortable,
            lead,
            trail,
            id,
        ) == seq![Token::Text(space())],
{
}

/// Rendering the tokens that stand for the sortable region, against a
/// registry that holds the trimmed core under `id`, gives the normalised
/// region.
pub proof fn lemma_render_sortable(
    sortable: Seq<char>,
    lead: bool,
    trail: bool,
    id: nat,
    registry: Seq<Seq<char>>,
)
    requires
        trimmed(sortable).len() > 0 ==> id < registry.len() && registry[id as int]
            == trimmed(sortable),
    ensures
        render(sortable_tokens(sortable, lead, trail, id), registry) == normalized(
            sortable,
            lead,
            trail,
        ),
{
    lemma_render_text(space(), registry);
    assert(text_tokens(space()) =~= space_tokens(true));
    assert(render(space_tokens(false), registry) =~= Seq::<char>::empty());
    if trimmed(sortable).len() > 0 {
        let r = Token::ClassRef(id);
        lemma_render_one(r, registry);
        assert(space_tokens(lead).push(r) =~= space_tokens(lead) + seq![r]);
        lemma_render_concat(space_tokens(lead), seq![r], registry);
        lemma_render_concat(space_tokens(lead) + seq![r], space_tokens(trail), registry);
    }
}

/// What a template fragment renders to when nothing is reordered: the prefix,
/// the normalised sortable region, and the suffix; or the fragment itself
/// where whitespace is preserved.
pub proof fn lemma_render_template(
    s: Seq<char>,
    preserve_whitespace: bool,
    position: nat,
    expr_count: nat,
    registry: Seq<Seq<char>>,
)
    ensures
        render(
            template_tokens(s, preserve_whitespace, position, expr_count, registry.len()),
            registry + template_registered(s, preserve_whitespace, position, expr_count),
        ) == if preserve_whitespace {
            s
        } else {
            prefix_of(s, position, expr_count) + normalized(
                sortable_of(s, position, expr_count),
                leads_with_space(s, position, expr_count),
                trails_with_space(s, position, expr_count),
            ) + suffix_of(s, position, expr_count)
        },
{
    let id = registry.len();
    let after = registry + template_registered(s, preserve_whitespace, position, expr_count);
    if preserve_whitespace {
        lemma_render_one(Token::ClassRef(id), after);
    } else {
        let p = prefix_of(s, position, expr_count);
        let m = sortable_of(s, position, expr_count);
        let x = suffix_of(s, position, expr_count);
        let lead = leads_with_space(s, position, expr_count);
        let trail = trails_with_space(s, position, expr_count);
        let mt = sortable_tokens(m, lead, trail, id);
        lemma_render_text(p, after);
        lemma_render_text(x, after);
        lemma_render_sortable(m, lead, trail, id, after);
        lemma_render_concat(text_tokens(p), mt, after);
        lemma_render_concat(text_tokens(p) + mt, text_tokens(x), after);
    }
}

/// With nothing reordered, the emitted tokens reproduce the fragment
/// exactly when, and only when, the whitespace around the sortable
/// core is already in normalised form (or whitespace is preserved).
pub proof fn lemma_template_reproduces_fragment(
    s: Seq<char>,
    preserve_whitespace: bool,
    position: nat,
    expr_count: nat,
    registry: Seq<Seq<char>>,
)
    ensures
        render(
            template_tokens(s, preserve_whitespace, position, expr_count, registry.len()),
            registry + template_registered(s, preserve_whitespace, position, expr_count),
        ) == s <==> (preserve_whitespace || spacing_is_normal(s, position, expr_count)),
{
    lemma_render_template(s, preserve_whitespace, position, expr_count, registry);
    lemma_regions_partition(s, position, expr_count);
    if !preserve_whitespace {
        let p = prefix_of(s, position, expr_count);
        let m = sortable_of(s, position, expr_count);
        let x = suffix_of(s, position, expr_count);
        let n = normalized(
            m,
            leads_with_space(s, position, expr_count),
            trails_with_space(s, position, expr_count),
        );
        if p + n + x == s {
            assert((p + n + x).len() == (p + m + x).len());
            assert(n.len() == m.len());
            assert forall|i: int| 0 <= i < n.len() implies n[i] == m[i] by {
                assert((p + n + x)[p.len() + i] == n[i]);
                assert((p + m + x)[p.len() + i] == m[i]);
            }
            assert(n =~= m);
        }
    }
}

/// Removing whitespace distributes over concatenation.
pub proof fn lemma_without_whitespace_concat(a: Seq<char>, b: Seq<char>)
    ensures
        without_whitespace(a + b) == without_whitespace(a) + without_whitespace(b),
    decreases b.len(),
{
    if b.len() == 0 {
        assert(a + b =~= a);
        assert(without_whitespace(a) + without_whitespace(b) =~= without_whitespace(a));
    } else {
        assert((a + b).drop_last() =~= a + b.drop_last());
        assert((a + b).last() == b.last());
        lemma_without_whitespace_concat(a, b.drop_last());
        assert(without_whitespace(a + b) =~= without_whitespace(a) + without_whitespace(b));
    }
}

/// Nothing is left of a text that is whitespace throughout.
pub proof fn lemma_without_whitespace_of_whitespace(s: Seq<char>)
    requires
        all_in_class(s, CharClass::WhiteSpace),
    ensures
        without_whitespace(s).len() == 0,
    decreases s.len(),
{
    if s.len() > 0 {
        let t = s.drop_last();
        assert(in_class(s[s.len() - 1], CharClass::WhiteSpace));
        assert forall|i: int| 0 <= i < t.len() implies in_class(
            #[trigger] t[i],
            CharClass::WhiteSpace,
        ) by {
            assert(t[i] == s[i]);
        }
        lemma_without_whitespace_of_whitespace(t);
    }
}

/// The run of characters of one sort at either end of a text is of that sort
/// throughout.
pub proof fn lemma_parts_are_in_class(s: Seq<char>, class: CharClass)
    ensures
        all_in_class(leading_part(s, class), class),
        all_in_class(trailing_part(s, class), class),
{
    lemma_leading_run_ends(s, class);
    lemma_trailing_run_ends(s, class);
    let l = leading_part(s, class);
    let t = trailing_part(s, class);
    assert forall|i: int| 0 <= i < l.len() implies in_class(#[trigger] l[i], class) by {
        assert(l[i] == s[i]);
    }
    assert forall|i: int| 0 <= i < t.len() implies in_class(#[trigger] t[i], class) by {
        assert(t[i] == s[s.len() - trailing_run(s, class) + i]);
    }
}

/// Trimming changes whitespace only.
pub proof fn lemma_trim_keeps_classes(s: Seq<char>)
    ensures
        without_whitespace(trimmed(s)) == without_whitespace(s),
{
    let ws = CharClass::WhiteSpace;
    lemma_trim_empty_iff_all_whitespace(s);
    if trimmed(s).len() == 0 {
        lemma_without_whitespace_of_whitespace(s);
        assert(without_whitespace(trimmed(s)) =~= without_whitespace(s));
    } else {
        let l = leading_part(s, ws);
        let t = trailing_part(s, ws);
        lemma_trim_decomposition(s);
        lemma_parts_are_in_class(s, ws);
        lemma_without_whitespace_of_whitespace(l);
        lemma_without_whitespace_of_whitespace(t);
        lemma_without_whitespace_concat(l, trimmed(s));
        lemma_without_whitespace_concat(l + trimmed(s), t);
        assert(without_whitespace(l + trimmed(s) + t) =~= without_whitespace(trimmed(s)));
    }
}

/// Normalising the sortable region changes whitespace only.
pub proof fn lemma_normalized_keeps_classes(sortable: Seq<char>, lead: bool, trail: bool)
    ensures
        without_whitespace(normalized(sortable, lead, trail)) == without_whitespace(sortable),
{
    let core = trimmed(sortable);
    let ws = CharClass::WhiteSpace;
    lemma_trim_keeps_classes(sortable);
    assert(all_in_class(space(), ws));
    assert(all_in_class(Seq::<char>::empty(), ws));
    lemma_without_whitespace_of_whitespace(spacing(lead));
    lemma_without_whitespace_of_whitespace(spacing(trail));
    if core.len() == 0 {
        lemma_without_whitespace_of_whitespace(spacing(sortable.len() > 0));
        assert(without_whitespace(normalized(sortable, lead, trail)) =~= without_whitespace(
            sortable,
        ));
    } else {
        lemma_without_whitespace_concat(spacing(lead), core);
        lemma_without_whitespace_concat(spacing(lead) + core, spacing(trail));
        assert(without_whitespace(spacing(lead) + core + spacing(trail)) =~= without_whitespace(
            core,
        ));
    }
}

/// With nothing reordered, the output for a template fragment differs from
/// the fragment in whitespace only: both hold the same characters other than
/// whitespace, in the same order.
pub proof fn lemma_template_changes_whitespace_only(
    s: Seq<char>,
    preserve_whitespace: bool,
    position: nat,
    expr_count: nat,
    registry: Seq<Seq<char>>,
)
    ensures
        without_whitespace(
            render(
                template_tokens(s, preserve_whitespace, position, expr_count, registry.len()),
                registry + template_registered(s, preserve_whitespace, position, expr_count),
            ),
        ) == without_whitespace(s),
{
    lemma_render_template(s, preserve_whitespace, position, expr_count, registry);
    if !preserve_whitespace {
        let p = prefix_of(s, position, expr_count);
        let m = sortable_of(s, position, expr_count);
        let x = suffix_of(s, position, expr_count);
        let n = normalized(
            m,
            leads_with_space(s, position, expr_count),
            trails_with_space(s, position, expr_count),
        );
        lemma_regions_partition(s, position, expr_count);
        lemma_normalized_keeps_classes(
            m,
            leads_with_space(s, position, expr_count),
            trails_with_space(s, position, expr_count),
        );
        lemma_without_whitespace_concat(p, m);
        lemma_without_whitespace_concat(p + m, x);
        lemma_without_whitespace_concat(p, n);
        lemma_without_whitespace_concat(p + n, x);
    }
}

/// With nothing reordered, a string literal renders to its content, direct
/// or nested: writing it only splits it, and never drops, repeats or moves a
/// character.
pub proof fn lemma_render_literal(s: Seq<char>, direct: bool, registry: Seq<Seq<char>>)
    ensures
        render(
            literal_tokens(s, direct, registry.len()),
            registry + literal_registered(s, direct),
        ) == s,
{
    let id = registry.len();
    let after = registry + literal_registered(s, direct);
    let r = Token::ClassRef(id);
    lemma_render_one(r, after);
    if !direct {
        if middle_of(s).len() == 0 {
            lemma_render_text(s, after);
        } else {
            let l = leading_part(s, CharClass::AsciiWhitespace);
            let t = trailing_part(s, CharClass::AsciiWhitespace);
            lemma_stripped_empty_iff_all(s, CharClass::AsciiWhitespace);
            lemma_strip_decomposition(s, CharClass::AsciiWhitespace);
            lemma_render_text(l, after);
            lemma_render_text(t, after);
            assert(text_tokens(l).push(r) =~= text_tokens(l) + seq![r]);
            lemma_render_concat(text_tokens(l), seq![r], after);
            lemma_render_concat(text_tokens(l) + seq![r], text_tokens(t), after);
        }
    }
}

/// The parts of a nested literal: the ASCII whitespace at its start, its
/// middle and the ASCII whitespace at its end make up the literal, unless it
/// is ASCII whitespace throughout; then it has no middle and is emitted as
/// one piece.
pub proof fn lemma_literal_parts(s: Seq<char>)
    ensures
        middle_of(s).len() == 0 <==> all_in_class(s, CharClass::AsciiWhitespace),
        middle_of(s).len() > 0 ==> leading_part(s, CharClass::AsciiWhitespace) + middle_of(s)
            + trailing_part(s, CharClass::AsciiWhitespace) == s,
        all_in_class(leading_part(s, CharClass::AsciiWhitespace), CharClass::AsciiWhitespace),
        all_in_class(trailing_part(s, CharClass::AsciiWhitespace), CharClass::AsciiWhitespace),
{
    lemma_stripped_empty_iff_all(s, CharClass::AsciiWhitespace);
    lemma_parts_are_in_class(s, CharClass::AsciiWhitespace);
    if middle_of(s).len() > 0 {
        lemma_strip_decomposition(s, CharClass::AsciiWhitespace);
    }
}

/// References and registrations go together: a call registers at most one
/// text; every reference it emits is the handle of that text; and a text is
/// never registered without a reference to it.
pub proof fn lemma_references_resolve(
    s: Seq<char>,
    preserve_whitespace: bool,
    direct: bool,
    position: nat,
    expr_count: nat,
    id: nat,
)
    ensures
        ({
            let tokens = template_tokens(s, preserve_whitespace, position, expr_count, id);
            let registered = template_registered(s, preserve_whitespace, position, expr_count);
            &&& registered.len() <= 1
            &&& registered.len() == 1 <==> tokens.contains(Token::ClassRef(id))
            &&& forall|i: int|
                0 <= i < tokens.len() && #[trigger] tokens[i] is ClassRef ==> tokens[i]
                    == Token::ClassRef(id)
        }),
        ({
            let tokens = literal_tokens(s, direct, id);
            let registered = literal_registered(s, direct);
            &&& registered.len() <= 1
            &&& registered.len() == 1 <==> tokens.contains(Token::ClassRef(id))
            &&& forall|i: int|
                0 <= i < tokens.len() && #[trigger] tokens[i] is ClassRef ==> tokens[i]
                    == Token::ClassRef(id)
        }),
{
    let r = Token::ClassRef(id);
    let p = text_tokens(prefix_of(s, position, expr_count));
    let m = sortable_tokens(
        sortable_of(s, position, expr_count),
        leads_with_space(s, position, expr_count),
        trails_with_space(s, position, expr_count),
        id,
    );
    let tokens = template_tokens(s, preserve_whitespace, position, expr_count, id);
    if preserve_whitespace {
        assert(tokens[0] == r);
    } else if trimmed(sortable_of(s, position, expr_count)).len() > 0 {
        let lead = space_tokens(leads_with_space(s, position, expr_count));
        assert(m[lead.len() as int] == r);
        assert(tokens[(p.len() + lead.len()) as int] == r);
    }
    let l = text_tokens(leading_part(s, CharClass::AsciiWhitespace));
    let literal = literal_tokens(s, direct, id);
    if direct {
        assert(literal[0] == r);
    } else if middle_of(s).len() > 0 {
        assert(literal[l.len() as int] == r);
    }
}

/// What is registered for a fragment is never empty and neither starts nor
/// ends with whitespace; what is registered for a nested literal is never
/// empty and neither starts nor ends with ASCII whitespace.
pub proof fn lemma_registered_core_is_bare(s: Seq<char>, position: nat, expr_count: nat)
    ensures
        forall|i: int|
            0 <= i < fragment_registered(s, position, expr_count).len() ==> {
                let core = #[trigger] fragment_registered(s, position, expr_count)[i];
                &&& core.len() > 0
                &&& !is_white_space(core.first())
                &&& !is_white_space(core.last())
            },
        forall|i: int|
            0 <= i < literal_registered(s, false).len() ==> {
                let core = #[trigger] literal_registered(s, false)[i];
                &&& core.len() > 0
                &&& !is_ascii_ws(core.first())
                &&& !is_ascii_ws(core.last())
            },
{
    lemma_trim_has_bare_ends(sortable_of(s, position, expr_count));
    lemma_stripped_has_bare_ends(s, CharClass::AsciiWhitespace);
}

} // verus!
