//! The string-literal writer: a literal that is an attribute's own value is
//! registered whole; one nested deeper keeps the ASCII whitespace at its two
//! ends verbatim and has what stands between registered.

use vstd::prelude::*;
use vstd::string::StrSliceExecFns;
use crate::registry::{ClassRegistry, Token, TokenStream};
use crate::splitter::text_tokens;
use crate::whitespace::{
    chars_of, leading_part, leading_run_len, stripped, trailing_part, trailing_run_len, CharClass,
};

verus! {

/// A quoted string: its content, and whether it is used directly as the value
/// of an attribute rather than nested inside another expression.
#[derive(Debug, Clone, PartialEq, Eq)]
pub struct StringLiteral {
    pub text: String,
    pub is_direct_attribute_value: bool,
}

/// What stands in `s` between the ASCII whitespace at its start and the
/// ASCII whitespace at its end; empty when `s` is ASCII whitespace
/// throughout.
pub open spec fn middle_of(s: Seq<char>) -> Seq<char> {
    stripped(s, CharClass::AsciiWhitespace)
}

/// The tokens emitted for a string literal with content `s`, when the next
/// free handle is `id`. A direct attribute value is one reference. A nested
/// literal is its leading whitespace, a reference to its middle and its
/// trailing whitespace; with no middle it is its whitespace, once.
pub open spec fn literal_tokens(s: Seq<char>, direct: bool, id: nat) -> Seq<Token> {
    if direct {
        seq![Token::ClassRef(id)]
    } else if middle_of(s).len() == 0 {
        text_tokens(s)
    } else {
        text_tokens(leading_part(s, CharClass::AsciiWhitespace)).push(Token::ClassRef(id))
            + text_tokens(trailing_part(s, CharClass::AsciiWhitespace))
    }
}

/// The texts registered for a string literal with content `s`: the content
/// of a direct attribute value, the middle of a nested literal that has one.
pub open spec fn literal_registered(s: Seq<char>, direct: bool) -> Seq<Seq<char>> {
    if direct {
        seq![s]
    } else if middle_of(s).len() > 0 {
        seq![middle_of(s)]
    } else {
        Seq::<Seq<char>>::empty()
    }
}

/// Emits the tokens for a string literal. A direct attribute value is
/// registered as it stands. A nested literal has the ASCII whitespace at its
/// start and at its end emitted verbatim and what stands between registered;
/// where it holds nothing but ASCII whitespace, that whitespace is emitted
/// once and nothing is registered.
pub fn write_tailwind_string_literal(
    string_literal: &StringLiteral,
    registry: &mut ClassRegistry,
    out: &mut TokenStream,
)
    ensures
        final(out)@ == old(out)@ + literal_tokens(
            string_literal.text@,
            string_literal.is_direct_attribute_value,
            old(registry)@.len(),
        ),
        final(registry)@ == old(registry)@ + literal_registered(
            string_literal.text@,
            string_literal.is_direct_attribute_value,
        ),
{
    let content: &str = string_literal.text.as_str();
    if string_literal.is_direct_attribute_value {
        let id: usize = registry.add_tailwind_class(content.to_owned());
        out.write_class_ref(id);
        assert(out@ =~= old(out)@ + seq![Token::ClassRef(old(registry)@.len())]);
        assert(registry@ =~= old(registry)@ + seq![content@]);
        return ;
    }
    let chars = chars_of(content);
    let len: usize = chars.len();
    let lead: usize = leading_run_len(&chars, CharClass::AsciiWhitespace);
    let trail: usize = trailing_run_len(&chars, CharClass::AsciiWhitespace);
    if lead >= len - trail {
        if len > 0 {
            out.write_text(content);
        }
        assert(out@ =~= old(out)@ + text_tokens(content@));
        assert(registry@ =~= old(registry)@ + Seq::<Seq<char>>::empty());
        return ;
    }
    let leading_ws = content.substring_char(0, lead);
    let middle = content.substring_char(lead, len - trail);
    let trailing_ws = content.substring_char(len - trail, len);

    if lead > 0 {
        out.write_text(leading_ws);
    }
    let id: usize = registry.add_tailwind_class(middle.to_owned());
    out.write_class_ref(id);
    assert(registry@ =~= old(registry)@ + seq![middle@]);
    assert(out@ =~= old(out)@ + text_tokens(leading_ws@).push(
        Token::ClassRef(old(registry)@.len()),
    ));

    if trail > 0 {
        out.write_text(trailing_ws);
    }
    assert(out@ =~= old(out)@ + (text_tokens(leading_ws@).push(
        Token::ClassRef(old(registry)@.len()),
    ) + text_tokens(trailing_ws@)));
}

} // verus!
