//! What the splitter hands to its host: output tokens, the stream that takes
//! them in order, and the registry of class lists awaiting reordering.

use vstd::prelude::*;

verus! {

/// One item of output: text to print as it stands, or the handle of a
/// registered class list whose text is filled in when the output is rendered.
#[derive(Debug, Clone, PartialEq, Eq)]
pub enum OutputToken {
    VerbatimText(String),
    SortableClassRef(usize),
}

/// The mathematical value of an `OutputToken`.
pub ghost enum Token {
    Text(Seq<char>),
    ClassRef(nat),
}

impl View for OutputToken {
    type V = Token;

    open spec fn view(&self) -> Token {
        match self {
            OutputToken::VerbatimText(s) => Token::Text(s@),
            OutputToken::SortableClassRef(id) => Token::ClassRef(*id as nat),
        }
    }
}

/// The tokens emitted so far, in the order of emission.
#[derive(Debug)]
pub struct TokenStream {
    tokens: Vec<OutputToken>,
}

/// The values of a run of tokens, in order.
pub open spec fn values_of(tokens: Seq<OutputToken>) -> Seq<Token> {
    tokens.map_values(|t: OutputToken| t@)
}

/// The texts of a run of strings, in order.
pub open spec fn texts_of(strings: Seq<String>) -> Seq<Seq<char>> {
    strings.map_values(|s: String| s@)
}

impl View for TokenStream {
    type V = Seq<Token>;

    closed spec fn view(&self) -> Seq<Token> {
        values_of(self.tokens@)
    }
}

impl TokenStream {
    /// A stream with no tokens.
    pub fn new() -> (s: TokenStream)
        ensures
            s@ == Seq::<Token>::empty(),
    {
        let s = TokenStream { tokens: Vec::new() };
        assert(s@ =~= Seq::<Token>::empty());
        s
    }

    /// The tokens emitted so far.
    pub fn tokens(&self) -> (r: &Vec<OutputToken>)
        ensures
            values_of(r@) == self@,
    {
        &self.tokens
    }

    /// Appends `text` unchanged as a verbatim token.
    pub fn write_text(&mut self, text: &str)
        ensures
            final(self)@ == old(self)@.push(Token::Text(text@)),
    {
        self.tokens.push(OutputToken::VerbatimText(text.to_owned()));
        assert(self@ =~= old(self)@.push(Token::Text(text@)));
    }

    /// Appends a reference to the registered class list `id`.
    pub fn write_class_ref(&mut self, id: usize)
        ensures
            final(self)@ == old(self)@.push(Token::ClassRef(id as nat)),
    {
        self.tokens.push(OutputToken::SortableClassRef(id));
        assert(self@ =~= old(self)@.push(Token::ClassRef(id as nat)));
    }
}

/// The class lists registered during one formatting pass, in registration
/// order. A handle is the index of its entry; entries are never removed,
/// merged or reordered, so equal texts registered twice get two handles.
#[derive(Debug)]
pub struct ClassRegistry {
    classes: Vec<String>,
}

impl View for ClassRegistry {
    type V = Seq<Seq<char>>;

    closed spec fn view(&self) -> Seq<Seq<char>> {
        texts_of(self.classes@)
    }
}

impl ClassRegistry {
    /// A registry with no entries.
    pub fn new() -> (r: ClassRegistry)
        ensures
            r@ == Seq::<Seq<char>>::empty(),
    {
        let r = ClassRegistry { classes: Vec::new() };
        assert(r@ =~= Seq::<Seq<char>>::empty());
        r
    }

    /// Number of entries, which is also the handle the next entry will get.
    pub fn len(&self) -> (n: usize)
        ensures
            n == self@.len(),
    {
        self.classes.len()
    }

    /// The registered texts, each at the index that is its handle.
    pub fn classes(&self) -> (r: &Vec<String>)
        ensures
            texts_of(r@) == self@,
    {
        &self.classes
    }

    /// Registers `class` as a new entry and returns its handle.
    pub fn add_tailwind_class(&mut self, class: String) -> (id: usize)
        ensures
            id == old(self)@.len(),
            final(self)@ == old(self)@.push(class@),
    {
        let id: usize = self.classes.len();
        self.classes.push(class);
        assert(self@ =~= old(self)@.push(class@));
        id
    }

    /// The text registered under `id`, if `id` is a handle of this registry.
    pub fn get(&self, id: usize) -> (r: Option<&str>)
        ensures
            id < self@.len() ==> r is Some && r->0@ == self@[id as int],
            id >= self@.len() ==> r is None,
    {
        if id < self.classes.len() {
            Some(self.classes[id].as_str())
        } else {
            None
        }
    }
}

} // verus!
