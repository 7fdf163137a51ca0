//! A run of orders as one line of text.

use vstd::prelude::*;
use crate::model::Order;
use crate::queue::views;
use crate::text::{append, orders_text};

verus! {

/// A borrowed run of orders, to be shown on one line.
pub struct SliceDisplay<'a>(pub &'a [Order]);

impl<'a> SliceDisplay<'a> {
    /// The orders as text, one after the other, with a comma and a space
    /// between neighbours.
    pub fn to_text(&self) -> (text: String)
        ensures
            text@ == orders_text(views(self.0@)),
    {
        let mut text = String::new();
        let ghost shown = views(self.0@);
        let mut i: usize = 0;
        while i < self.0.len()
            invariant
                i <= self.0@.len(),
                shown == views(self.0@),
                text@ == orders_text(shown.take(i as int)),
            decreases self.0@.len() - i,
        {
            let item = self.0[i].to_text();
            if i > 0 {
                append(&mut text, ", ");
            }
            append(&mut text, item.as_str());
            proof {
                let now = shown.take(i + 1);
                assert(now.drop_last() =~= shown.take(i as int));
                assert(now.last() == self.0@[i as int]@);
                if i == 0 {
                    assert(text@ =~= item@);
                }
            }
            i += 1;
        }
        assert(shown.take(i as int) =~= shown);
        text
    }
}

} // verus!
