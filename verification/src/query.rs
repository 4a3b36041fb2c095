//! The text of the queries that a source is asked.

use vstd::prelude::*;

verus! {

/// A line feed.
pub const LINE_FEED: u8 = 10;

/// A space.
pub const SPACE: u8 = 32;

/// The text with every line feed turned into a space.
pub open spec fn on_one_line(text: Seq<u8>) -> Seq<u8> {
    Seq::new(
        text.len(),
        |i: int|
            if text[i] == LINE_FEED {
                SPACE
            } else {
                text[i]
            },
    )
}

/// Puts the text of a query on one line: every line feed becomes a space,
/// every other byte stays.
pub fn flatten_query(text: &[u8]) -> (flat: Vec<u8>)
    ensures
        flat@ == on_one_line(text@),
{
    let mut flat: Vec<u8> = Vec::new();
    let mut i: usize = 0;
    while i < text.len()
        invariant
            0 <= i <= text@.len(),
            flat@ == on_one_line(text@).take(i as int),
        decreases text@.len() - i,
    {
        let byte = text[i];
        if byte == LINE_FEED {
            flat.push(SPACE);
        } else {
            flat.push(byte);
        }
        proof {
            assert(flat@ =~= on_one_line(text@).take(i as int + 1));
        }
        i = i + 1;
    }
    proof {
        assert(on_one_line(text@).take(i as int) =~= on_one_line(text@));
    }
    flat
}

} // verus!
