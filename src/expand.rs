use vstd::prelude::*;
use crate::decl::Decl;
use crate::walk::{walk, walked};

verus! {

/// What the instrumenting entry point hands back for one annotated item.
#[derive(PartialEq, Eq, Debug)]
pub enum Expansion<S> {
    /// The item was read, and this is its rewritten tree.
    Rewritten(Decl),
    /// The item could not be read: the source as it came, and one diagnostic.
    Unchanged { source: S, diagnostic: String },
}

/// Makes an annotated item and its sub-items interceptable. `parsed` is the
/// item read from `source`, or the reader's error message. The annotation on
/// the item itself counts as `Instrument`. On a read failure the source comes
/// back as it is, with the error as the single diagnostic.
pub fn mockable<S>(source: S, parsed: Result<Decl, String>) -> (r: Expansion<S>)
    ensures
        match parsed {
            Ok(d) => r matches Expansion::Rewritten(t) && walked(d, t, true, Seq::empty(), false),
            Err(e) => r == (Expansion::Unchanged { source, diagnostic: e }),
        },
{
    match parsed {
        Ok(d) => Expansion::Rewritten(walk(d, true)),
        Err(e) => Expansion::Unchanged { source, diagnostic: e },
    }
}

/// Guards an item from an enclosing `mockable`: by itself it leaves the item
/// as it is; the traversal reads it as a `Suppress` marker.
pub fn not_mockable<S>(item: S) -> (r: S)
    ensures
        r == item,
{
    item
}

} // verus!
