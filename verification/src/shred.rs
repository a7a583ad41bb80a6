//! The plan by which the file of a removed payload is overwritten before it
//! is unlinked: four passes of fixed patterns over its whole length, then one
//! pass of random bytes, each written in pieces of at most one buffer.

use vstd::prelude::*;
use crate::crypto::random_bytes;

verus! {

/// Length of the buffer that one write fills.
pub const SHRED_BUFFER_LEN: usize = 4096;

/// The byte of the single pass that is tried where the full plan fails.
pub const FALLBACK_PATTERN: u8 = 0x00;

/// The bytes of the four fixed passes, in the order of the passes.
pub open spec fn fixed_patterns() -> Seq<u8> {
    seq![0x00u8, 0xFFu8, 0xAAu8, 0x55u8]
}

/// The bytes of the four fixed passes, in the order of the passes.
pub fn shred_patterns() -> (patterns: Vec<u8>)
    ensures
        patterns@ == fixed_patterns(),
{
    let mut patterns: Vec<u8> = Vec::new();
    patterns.push(0x00);
    patterns.push(0xFF);
    patterns.push(0xAA);
    patterns.push(0x55);
    assert(patterns@ =~= fixed_patterns());
    patterns
}

/// How many bytes the next write of a pass covers: what is left of the
/// file, but no more than one buffer.
pub open spec fn write_len(file_size: u64, written: u64) -> int {
    if file_size - written < SHRED_BUFFER_LEN {
        file_size - written
    } else {
        SHRED_BUFFER_LEN as int
    }
}

/// How many writes a pass still needs.
pub open spec fn writes_left(file_size: u64, written: u64) -> int {
    (file_size - written + SHRED_BUFFER_LEN - 1) / (SHRED_BUFFER_LEN as int)
}

/// How many bytes the next write of a pass covers. Zero once the pass has
/// covered the file.
pub fn next_write_len(file_size: u64, written: u64) -> (len: usize)
    requires
        written <= file_size,
    ensures
        len == write_len(file_size, written),
        len <= SHRED_BUFFER_LEN,
        written + len <= file_size,
        len == 0 <==> written == file_size,
{
    let left: u64 = file_size - written;
    if left < SHRED_BUFFER_LEN as u64 {
        left as usize
    } else {
        SHRED_BUFFER_LEN
    }
}

/// Every write but the last fills the buffer, and each leaves one write
/// fewer to do: a pass ends, having covered the file exactly.
pub proof fn lemma_pass_covers_file(file_size: u64, written: u64)
    requires
        written < file_size,
    ensures
        writes_left(file_size, written) >= 1,
        writes_left(file_size, (written + write_len(file_size, written)) as u64) == writes_left(
            file_size,
            written,
        ) - 1,
        writes_left(file_size, file_size) == 0,
{
}

/// A buffer of `len` bytes that all are `pattern`.
pub fn pattern_buffer(pattern: u8, len: usize) -> (buffer: Vec<u8>)
    ensures
        buffer.len() == len,
        forall|i: int| 0 <= i < len ==> buffer[i] == pattern,
{
    let mut buffer: Vec<u8> = Vec::new();
    let mut i: usize = 0;
    while i < len
        invariant
            i <= len,
            buffer.len() == i,
            forall|k: int| 0 <= k < i ==> buffer[k] == pattern,
        decreases len - i,
    {
        buffer.push(pattern);
        i += 1;
    }
    buffer
}

/// A buffer of `len` random bytes, for the last pass.
pub fn random_buffer(len: usize) -> (buffer: Vec<u8>)
    ensures
        buffer.len() == len,
{
    random_bytes(len)
}

} // verus!
