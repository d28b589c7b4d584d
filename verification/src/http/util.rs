//! Start line helpers.
use vstd::prelude::*;

use crate::header::line_len;
use crate::scan::{find_byte_from, lemma_find_byte_props};

verus! {

/// Splits a header into the first line and remainder.
///
/// The first line ends after the first LF, or is the whole buffer.
pub fn cut_start_line(buf: &[u8]) -> (r: (&[u8], &[u8]))
    requires
        buf@.len() > 0,
    ensures
        r.0@ == buf@.take(line_len(buf@) as int),
        r.1@ == buf@.skip(line_len(buf@) as int),
{
    let len = buf.len();
    assert(buf@.skip(0) =~= buf@);
    proof {
        lemma_find_byte_props(buf@, 0x0A);
    }
    let index = match find_byte_from(buf, 0, 0x0A) {
        Some(i) => i,
        None => len - 1,
    };
    buf.split_at(index + 1)
}

} // verus!
