//! What the decoders do to the bytes that they have not used yet.

use std::collections::VecDeque;
use vstd::prelude::*;

verus! {

/// Appends bytes.
pub fn extend(buffer: &mut VecDeque<u8>, bytes: &[u8])
    ensures
        final(buffer)@ == old(buffer)@ + bytes@,
{
    let mut i: usize = 0;
    while i < bytes.len()
        invariant
            i <= bytes@.len(),
            buffer@ == old(buffer)@ + bytes@.take(i as int),
        decreases bytes@.len() - i,
    {
        buffer.push_back(bytes[i]);
        assert(bytes@.take(i + 1) =~= bytes@.take(i as int).push(bytes@[i as int]));
        i = i + 1;
    }
    assert(bytes@.take(i as int) =~= bytes@);
}

/// Drops the first byte.
pub fn drop_byte(buffer: &mut VecDeque<u8>)
    requires
        old(buffer)@.len() > 0,
    ensures
        final(buffer)@ == old(buffer)@.skip(1),
{
    let _ = buffer.pop_front();
    assert(buffer@ =~= old(buffer)@.skip(1));
}

/// Drops the first byte and counts it.
pub fn skip_one(buffer: &mut VecDeque<u8>, skipped: &mut usize)
    requires
        old(buffer)@.len() > 0,
        *old(skipped) < usize::MAX,
    ensures
        final(buffer)@ == old(buffer)@.skip(1),
        *final(skipped) == *old(skipped) + 1,
{
    drop_byte(buffer);
    *skipped = *skipped + 1;
}

/// Drops the first `n` bytes.
pub fn drop_front(buffer: &mut VecDeque<u8>, n: usize)
    requires
        n <= old(buffer)@.len(),
    ensures
        final(buffer)@ == old(buffer)@.skip(n as int),
{
    let rest: VecDeque<u8> = buffer.split_off(n);
    *buffer = rest;
    assert(buffer@ =~= old(buffer)@.skip(n as int));
}

/// A copy of the first `n` bytes.
pub fn front(buffer: &VecDeque<u8>, n: usize) -> (copy: Vec<u8>)
    requires
        n <= buffer@.len(),
    ensures
        copy@ == buffer@.take(n as int),
{
    let mut copy: Vec<u8> = Vec::new();
    let mut i: usize = 0;
    while i < n
        invariant
            i <= n <= buffer@.len(),
            copy@ =~= buffer@.take(i as int),
        decreases n - i,
    {
        copy.push(buffer[i]);
        i = i + 1;
    }
    copy
}

} // verus!
