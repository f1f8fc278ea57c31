//! The string arena: `lasso`'s `Rodeo`, which hands out one `Spur` per
//! distinct interned text, and what this library assumes of it.
//!
//! Nothing here is proved. Each contract restates what the source of
//! `lasso` shows of the function that the item calls.

use vstd::prelude::*;
use lasso::{Key, LassoError, Rodeo, Spur};

verus! {

/// `lasso::Rodeo`, the arena. Opaque: what it holds is `interned`.
#[verifier::external_type_specification]
#[verifier::external_body]
#[verifier::reject_recursive_types(K)]
#[verifier::reject_recursive_types(S)]
pub struct ExRodeo<K, S>(Rodeo<K, S>);

/// `lasso::Spur`, the key of an interned text. Opaque: what it stands for
/// is `key_index`.
#[verifier::external_type_specification]
#[verifier::external_body]
pub struct ExSpur(Spur);

/// `lasso::LassoError`, why an arena refused a text. Opaque.
#[verifier::external_type_specification]
#[verifier::external_body]
pub struct ExLassoError(LassoError);

/// The texts that an arena holds, in the order in which they were interned.
/// The arena keeps them in a vector of that order.
pub uninterp spec fn interned(arena: Rodeo) -> Seq<Seq<char>>;

/// The index that a key stands for: what `Key::into_usize` returns for it.
/// An arena resolves a key to the text at this index.
pub uninterp spec fn key_index(key: Spur) -> nat;

/// `Rodeo::try_get_or_intern`. A text that the arena holds already is
/// answered with a key to it and the arena stays as it is. A new text is
/// appended and gets the key of its index. The arena may refuse (it ran
/// out of keys or of memory); then it stays as it is.
#[verifier::external_body]
pub(crate) fn try_intern(arena: &mut Rodeo, text: &str) -> (key: Result<Spur, LassoError>)
    ensures
        match key {
            Ok(k) => {
                &&& key_index(k) < interned(*final(arena)).len()
                &&& interned(*final(arena))[key_index(k) as int] == text@
                &&& interned(*final(arena)) == if interned(*old(arena)).contains(text@) {
                    interned(*old(arena))
                } else {
                    interned(*old(arena)).push(text@)
                }
            },
            Err(_) => interned(*final(arena)) == interned(*old(arena)),
        },
{
    arena.try_get_or_intern(text)
}

/// `Rodeo::try_resolve`: the text at the key's index, or `None` where the
/// arena holds no text at that index.
#[verifier::external_body]
pub(crate) fn try_resolve<'a>(arena: &'a Rodeo, key: &Spur) -> (text: Option<&'a str>)
    ensures
        text is Some <==> key_index(*key) < interned(*arena).len(),
        text matches Some(t) ==> t@ == interned(*arena)[key_index(*key) as int],
{
    arena.try_resolve(key)
}

/// `Key::into_usize` for `Spur`: the index that the key stands for. A
/// `Spur` holds a nonzero `u32`, and its index is that number less 1.
#[verifier::external_body]
pub(crate) fn index_of(key: &Spur) -> (index: usize)
    ensures
        index == key_index(*key),
        index < u32::MAX,
{
    key.into_usize()
}

/// `PartialEq::eq` for `Spur`: two keys are equal exactly when they stand
/// for the same index.
#[verifier::external_body]
pub(crate) fn same_key(a: &Spur, b: &Spur) -> (same: bool)
    ensures
        same == (key_index(*a) == key_index(*b)),
{
    a == b
}

} // verus!
