use vstd::prelude::*;

verus! {

/// `wgpu::COPY_BUFFER_ALIGNMENT`: the granularity, in bytes, of buffer sizes and of buffer
/// copies. wgpu-types defines it as the constant 4; the contract states that value.
#[verifier::external_body]
fn copy_buffer_alignment() -> (alignment: u64)
    ensures
        alignment == 4,
{
    wgpu::COPY_BUFFER_ALIGNMENT
}

/// The size that a GPU buffer gets for `length` bytes of content: `length` rounded up to
/// a multiple of the copy alignment, and never less than one alignment unit.
pub open spec fn padded_length(length: int) -> int {
    if length <= 4 {
        4
    } else {
        ((length + 3) / 4) * 4
    }
}

/// Law: the padded size is the least multiple of 4 that holds `length` bytes and is not 0.
pub proof fn lemma_padded_length_least(length: int)
    requires
        0 <= length,
    ensures
        padded_length(length) % 4 == 0,
        padded_length(length) >= length,
        padded_length(length) >= 4,
        padded_length(length) < length + 4 || length == 0,
{
}

/// The size in bytes of a GPU buffer that is to hold `length` bytes.
pub fn valid_length(length: usize) -> (size: u64)
    requires
        length + 3 <= u64::MAX,
    ensures
        size == padded_length(length as int),
{
    let unpadded_size = length as u64;
    let alignment = copy_buffer_alignment();
    let align_mask = alignment - 1;
    let sum = unpadded_size + align_mask;
    let rounded = sum & !align_mask;
    assert(rounded == sum - sum % 4) by (bit_vector)
        requires
            rounded == sum & !align_mask,
            align_mask == 3u64,
    ;
    let padded_size = rounded.max(alignment);
    padded_size
}

/// Whether a GPU buffer of `buffer_length` bytes must be made anew before `content_len`
/// bytes are written into it: exactly when the contents do not fit.
pub fn needs_recreate(content_len: usize, buffer_length: u64) -> (grow: bool)
    ensures
        grow == (content_len > buffer_length as usize),
{
    content_len > buffer_length as usize
}

/// The bytes of an index buffer and the number of indices in it.
#[derive(Clone)]
pub struct IndexBufferDescriptor {
    pub contents: Vec<u8>,
    pub content_len: usize,
}

/// Where the source of a shader comes from: a file with this path, or this text.
pub enum ShaderDataDescriptor<'a> {
    File(&'a str),
    RawData(&'a str),
}

} // verus!
