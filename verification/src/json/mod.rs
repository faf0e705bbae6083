//! The shape of the export documents.
use vstd::prelude::*;

/// Structures for loading the lookup map
pub mod lookup;
/// Structures for loading the recipe documents
pub mod recipe;
/// Structures for loading the tooltip map
pub mod tooltip;

verus! {

/// The entries of a list that are present, in their order. An export list
/// may hold null placeholders between its stacks; a placeholder is no
/// alternative and leaves no trace.
pub open spec fn present<T>(list: Seq<Option<T>>) -> Seq<T> {
    list.filter_map(|entry: Option<T>| entry)
}

/// Drops the null placeholders from a list as it was read.
pub fn skip_nulls_list<T>(list: Vec<Option<T>>) -> (kept: Vec<T>)
    ensures
        kept@ == present(list@),
{
    let ghost all = list@;
    let mut kept: Vec<T> = Vec::new();
    for entry in iter: list
        invariant
            iter.seq() == all,
            kept@ == present(all.take(iter.index() as int)),
    {
        proof {
            all.lemma_filter_map_take_succ(|entry: Option<T>| entry, iter.index() as int);
        }
        match entry {
            Some(value) => {
                kept.push(value);
            },
            None => {},
        }
    }
    proof {
        assert(all.take(all.len() as int) =~= all);
    }
    kept
}

} // verus!
