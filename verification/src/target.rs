//! Field names, interned by the `string_cache` crate.

use vstd::prelude::*;
use string_cache::DefaultAtom;

verus! {

/// `string_cache::Atom`, an interned string; nothing of its inside is known
/// here.
#[verifier::external_type_specification]
#[verifier::external_body]
#[verifier::reject_recursive_types(Static)]
pub struct ExAtom<Static>(string_cache::Atom<Static>);

/// `string_cache::EmptyStaticAtomSet`, the set of the atoms known beforehand
/// where there are none: the parameter of the atoms used here.
#[verifier::external_type_specification]
#[verifier::external_body]
pub struct ExEmptyStaticAtomSet(string_cache::EmptyStaticAtomSet);

/// The text that an atom stands for.
pub uninterp spec fn atom_text(atom: DefaultAtom) -> Seq<char>;

/// Interns a string with `Atom::from`. The atom stands for that string.
#[verifier::external_body]
pub(crate) fn intern(text: String) -> (atom: DefaultAtom)
    ensures
        atom_text(atom) == text@,
{
    DefaultAtom::from(text)
}

/// Borrows the text of an atom through its `Deref`.
#[verifier::external_body]
pub(crate) fn atom_str(atom: &DefaultAtom) -> (text: &str)
    ensures
        text@ == atom_text(*atom),
{
    std::ops::Deref::deref(atom)
}

} // verus!
