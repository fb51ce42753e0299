//! Locating named model outputs among the labelled output slots of a graph.

use vstd::prelude::*;

verus! {

/// Position in `labels` of the first slot labelled `name`.
pub open spec fn first_label_position(labels: Seq<(usize, String)>, name: Seq<char>, a: int) -> bool {
    &&& 0 <= a < labels.len()
    &&& labels[a].1@ == name
    &&& forall|b: int| 0 <= b < a ==> (#[trigger] labels[b]).1@ != name
}

/// Output slot index of the first labelled output called `name`, from a list
/// of `(slot index, label)` pairs; `None` when no output carries that label.
pub fn find_output_index(labels: &Vec<(usize, String)>, name: &String) -> (found: Option<usize>)
    ensures
        match found {
            Some(slot) => exists|a: int|
                first_label_position(labels@, name@, a) && #[trigger] labels@[a].0 == slot,
            None => forall|a: int| 0 <= a < labels@.len() ==> (#[trigger] labels@[a]).1@ != name@,
        },
{
    let mut i: usize = 0;
    while i < labels.len()
        invariant
            i <= labels@.len(),
            forall|b: int| 0 <= b < i ==> (#[trigger] labels@[b]).1@ != name@,
        decreases labels@.len() - i,
    {
        let entry = &labels[i];
        if entry.1 == *name {
            proof {
                assert(first_label_position(labels@, name@, i as int));
            }
            return Some(entry.0);
        }
        i = i + 1;
    }
    None
}

} // verus!
