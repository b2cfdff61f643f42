//! The interception layer that stands in front of the service: before a
//! request is passed on, its text is scanned for a banned two-character
//! sequence, and a request that carries it is rejected without reaching the
//! engine.  Which pair is banned is the surrounding process's policy; the
//! scan itself is the rule verified here.
use vstd::prelude::*;

verus! {

/// Whether the pair `a`,`b` occurs adjacently in `text`.
pub open spec fn has_bigram(text: Seq<char>, a: char, b: char) -> bool {
    exists|i: int| 0 <= i && i + 1 < text.len() && #[trigger] text[i] == a && text[i + 1] == b
}

/// The filtering layer in front of the service.
pub struct LogLayer;

impl LogLayer {
    /// Whether a request whose text is `text` may pass: it may unless the
    /// banned pair occurs somewhere in it.
    pub fn permits(text: &Vec<char>, a: char, b: char) -> (r: bool)
        ensures
            r == !has_bigram(text@, a, b),
    {
        if text.len() == 0 {
            return true;
        }
        let mut i: usize = 0;
        while i < text.len() - 1
            invariant
                i < text@.len(),
                forall|j: int| 0 <= j && j + 1 <= i ==> !(#[trigger] text@[j] == a && text@[j + 1]
                    == b),
            decreases text@.len() - i,
        {
            if text[i] == a && text[i + 1] == b {
                return false;
            }
            i = i + 1;
        }
        true
    }
}

} // verus!
