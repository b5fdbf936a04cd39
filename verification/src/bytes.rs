//! Copying runs of bytes.

use vstd::prelude::*;

verus! {

/// Copies `source[from..to]`.
pub fn copy_of(source: &[u8], from: usize, to: usize) -> (copy: Vec<u8>)
    requires
        from <= to <= source.len(),
    ensures
        copy@ == source@.subrange(from as int, to as int),
{
    let mut copy: Vec<u8> = Vec::with_capacity(to - from);
    let mut index: usize = from;
    while index < to
        invariant
            from <= index <= to <= source.len(),
            copy@ == source@.subrange(from as int, index as int),
        decreases to - index,
    {
        copy.push(source[index]);
        assert(copy@ =~= source@.subrange(from as int, index + 1));
        index = index + 1;
    }
    copy
}

} // verus!
