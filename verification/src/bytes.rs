//! Small operations on byte buffers.

use vstd::prelude::*;

verus! {

/// Appends a slice to a buffer.
pub fn append_slice(out: &mut Vec<u8>, data: &[u8])
    ensures
        final(out)@ == old(out)@ + data@,
{
    out.extend_from_slice(data);
    assert(out@ =~= old(out)@ + data@);
}

/// Drops the first `count` bytes of a buffer.
pub fn drop_front(buffer: &mut Vec<u8>, count: usize)
    requires
        count <= old(buffer)@.len(),
    ensures
        final(buffer)@ == old(buffer)@.skip(count as int),
{
    if count > 0 {
        let rest: Vec<u8> = buffer.split_off(count);
        *buffer = rest;
        assert(buffer@ =~= old(buffer)@.skip(count as int));
    } else {
        assert(buffer@ =~= old(buffer)@.skip(0));
    }
}

} // verus!
