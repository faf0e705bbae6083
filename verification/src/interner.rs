//! Symbols and the string interner that hands them out.
use vstd::prelude::*;
use string_interner::Symbol;

verus! {

/// A dense integer handle for one distinct identifier string.
#[derive(Clone, Copy, Debug, PartialEq, Eq, Structural, Hash)]
pub struct SymbolId {
    pub index: usize,
}

/// The interner of one import run. It keeps every distinct identifier once
/// and numbers them in the order in which they first arrive.
///
/// It holds a `string_interner::StringInterner` with `Sym` symbols and the Fx
/// hasher. The verifier does not look inside: what it knows of an interner is
/// what the four functions below say of `interned`, and those are taken from
/// the crate's source on trust.
#[verifier::external_body]
pub struct StringInterner {
    inner: string_interner::StringInterner<string_interner::Sym, fxhash::FxBuildHasher>,
}

/// The strings that an interner holds, in the order in which they were first
/// interned: the string at position `i` is the one that symbol `i` stands for.
pub uninterp spec fn interned(interner: StringInterner) -> Seq<Seq<char>>;

/// `StringInterner::with_hasher`: an interner that holds no string yet.
#[verifier::external_body]
pub(crate) fn interner_new() -> (interner: StringInterner)
    ensures
        interned(interner) == Seq::<Seq<char>>::empty(),
{
    StringInterner {
        inner: string_interner::StringInterner::with_hasher(fxhash::FxBuildHasher::default()),
    }
}

/// `StringInterner::len`: the number of distinct strings interned so far.
#[verifier::external_body]
pub(crate) fn interner_len(interner: &StringInterner) -> (n: usize)
    ensures
        n == interned(*interner).len(),
{
    interner.inner.len()
}

/// `StringInterner::get_or_intern`: a string that is already held keeps the
/// symbol under which it is held and leaves the interner as it was; any other
/// string is appended and gets the next symbol. The crate refuses to number a
/// new symbol from `u32::MAX` on, hence the bound for a string not yet held.
#[verifier::external_body]
pub(crate) fn interner_get_or_intern(interner: &mut StringInterner, text: &str) -> (symbol:
    SymbolId)
    requires
        interned(*old(interner)).contains(text@) || interned(*old(interner)).len() < u32::MAX,
    ensures
        symbol.index < interned(*final(interner)).len(),
        interned(*final(interner))[symbol.index as int] == text@,
        interned(*old(interner)).contains(text@) ==> interned(*final(interner)) == interned(
            *old(interner),
        ),
        !interned(*old(interner)).contains(text@) ==> interned(*final(interner)) == interned(
            *old(interner),
        ).push(text@) && symbol.index == interned(*old(interner)).len(),
{
    SymbolId { index: interner.inner.get_or_intern(text).to_usize() }
}

/// `StringInterner::resolve`: the string that a symbol stands for, if the
/// interner has handed that symbol out. `Sym::from_usize` refuses an index
/// from `u32::MAX` on, hence the bound.
#[verifier::external_body]
pub(crate) fn interner_resolve<'a>(interner: &'a StringInterner, symbol: SymbolId) -> (text:
    Option<&'a str>)
    requires
        symbol.index < u32::MAX,
    ensures
        symbol.index < interned(*interner).len() ==> text.is_some() && text.unwrap()@ == interned(
            *interner,
        )[symbol.index as int],
        symbol.index >= interned(*interner).len() ==> text.is_none(),
{
    interner.inner.resolve(string_interner::Sym::from_usize(symbol.index))
}


/// The interner's contents after `text` has been interned: unchanged where
/// the string is already held, one longer otherwise.
pub open spec fn intern_strings(strings: Seq<Seq<char>>, text: Seq<char>) -> Seq<Seq<char>> {
    if strings.contains(text) {
        strings
    } else {
        strings.push(text)
    }
}

/// The symbol that interning `text` gives: the position at which the string
/// is held, or the next free position.
pub open spec fn intern_position(strings: Seq<Seq<char>>, text: Seq<char>) -> int {
    if strings.contains(text) {
        strings.index_of(text)
    } else {
        strings.len() as int
    }
}

/// The string that a symbol stands for, if it has been handed out.
pub open spec fn resolve_symbol(strings: Seq<Seq<char>>, symbol: SymbolId) -> Option<Seq<char>> {
    if symbol.index < strings.len() {
        Some(strings[symbol.index as int])
    } else {
        None
    }
}

/// In a sequence without duplicates a value is found only where it stands.
pub proof fn lemma_index_of_unique<A>(s: Seq<A>, i: int)
    requires
        s.no_duplicates(),
        0 <= i < s.len(),
    ensures
        s.contains(s[i]),
        s.index_of(s[i]) == i,
{
    let j = s.index_of(s[i]);
    assert(0 <= j < s.len() && s[j] == s[i]);
}

/// Interning keeps what is already held where it is, and never stores a
/// string twice.
pub proof fn law_intern_extends(strings: Seq<Seq<char>>, text: Seq<char>)
    requires
        strings.no_duplicates(),
    ensures
        strings.is_prefix_of(intern_strings(strings, text)),
        intern_strings(strings, text).no_duplicates(),
        intern_strings(strings, text).contains(text),
        0 <= intern_position(strings, text) < intern_strings(strings, text).len(),
        intern_strings(strings, text)[intern_position(strings, text)] == text,
{
    let after = intern_strings(strings, text);
    if strings.contains(text) {
        let j = strings.index_of(text);
        assert(0 <= j < strings.len() && strings[j] == text);
    } else {
        assert(after[strings.len() as int] == text);
        assert forall|i: int, j: int| 0 <= i < after.len() && 0 <= j < after.len() && i != j implies after[i] != after[j] by {
            if i < strings.len() {
                assert(strings.contains(strings[i]));
            }
            if j < strings.len() {
                assert(strings.contains(strings[j]));
            }
        }
    }
    assert(strings =~= after.subrange(0, strings.len() as int));
}

/// Interning the same string a second time gives the same symbol and leaves
/// the interner as the first call left it.
pub proof fn law_intern_same_string(strings: Seq<Seq<char>>, text: Seq<char>)
    requires
        strings.no_duplicates(),
    ensures
        intern_position(intern_strings(strings, text), text) == intern_position(strings, text),
        intern_strings(intern_strings(strings, text), text) == intern_strings(strings, text),
{
    law_intern_extends(strings, text);
    let after = intern_strings(strings, text);
    lemma_index_of_unique(after, intern_position(strings, text));
}

/// Two different strings never share a symbol: once `first` has its symbol,
/// whatever else is interned afterwards, a different string gets another one.
pub proof fn law_intern_distinct_strings(
    strings: Seq<Seq<char>>,
    later: Seq<Seq<char>>,
    first: Seq<char>,
    second: Seq<char>,
)
    requires
        strings.no_duplicates(),
        later.no_duplicates(),
        intern_strings(strings, first).is_prefix_of(later),
        first != second,
    ensures
        intern_position(strings, first) != intern_position(later, second),
{
    law_intern_extends(strings, first);
    let held = intern_strings(strings, first);
    let at = intern_position(strings, first);
    assert(later[at] == held[at]);
    if later.contains(second) {
        let j = later.index_of(second);
        assert(0 <= j < later.len() && later[j] == second);
    }
}

/// Resolving the symbol that interning a string gave returns that string.
pub proof fn law_resolve_interned(strings: Seq<Seq<char>>, text: Seq<char>, symbol: SymbolId)
    requires
        strings.no_duplicates(),
        symbol.index == intern_position(strings, text),
    ensures
        resolve_symbol(intern_strings(strings, text), symbol) == Some(text),
{
    law_intern_extends(strings, text);
}

impl View for StringInterner {
    type V = Seq<Seq<char>>;

    open spec fn view(&self) -> Seq<Seq<char>> {
        interned(*self)
    }
}

impl StringInterner {
    /// No string is held twice, and every position can be numbered.
    pub open spec fn wf(&self) -> bool {
        &&& self@.no_duplicates()
        &&& self@.len() <= u32::MAX
    }

    /// Whether `text` can be interned: it is held already, or there is still
    /// a symbol left for it.
    pub open spec fn has_room_for(&self, text: Seq<char>) -> bool {
        self@.contains(text) || self@.len() < u32::MAX
    }

    /// An interner that holds nothing.
    pub fn new() -> (interner: StringInterner)
        ensures
            interner.wf(),
            interner@ == Seq::<Seq<char>>::empty(),
    {
        interner_new()
    }

    /// The number of distinct strings held.
    pub fn len(&self) -> (n: usize)
        ensures
            n == self@.len(),
    {
        interner_len(self)
    }

    /// The symbol of `text`, which is interned first if it is not yet held.
    pub fn get_or_intern(&mut self, text: &str) -> (symbol: SymbolId)
        requires
            old(self).wf(),
            old(self).has_room_for(text@),
        ensures
            final(self).wf(),
            final(self)@ == intern_strings(old(self)@, text@),
            symbol.index == intern_position(old(self)@, text@),
            symbol.index < final(self)@.len(),
            final(self)@[symbol.index as int] == text@,
    {
        let symbol = interner_get_or_intern(self, text);
        proof {
            law_intern_extends(old(self)@, text@);
            lemma_index_of_unique(self@, symbol.index as int);
        }
        symbol
    }

    /// The string that `symbol` stands for; `None` for a symbol that this
    /// interner has not handed out.
    pub fn resolve(&self, symbol: SymbolId) -> (text: Option<&str>)
        requires
            self.wf(),
        ensures
            text.is_some() == resolve_symbol(self@, symbol).is_some(),
            text.is_some() ==> text.unwrap()@ == resolve_symbol(self@, symbol).unwrap(),
    {
        if symbol.index >= interner_len(self) {
            None
        } else {
            interner_resolve(self, symbol)
        }
    }
}

} // verus!
