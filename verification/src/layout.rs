//! The sizes of the graph file. All of them are in bytes.
use vstd::prelude::*;

verus! {

/// The file header: four integers.
pub const FILE_HEADER_SIZE: usize = 16;

/// The header of a page: four integers.
pub const NODE_HEADER_SIZE: usize = 16;

/// A link: one integer.
pub const LINK_SIZE: usize = 4;

/// The bytes that a page with so many links takes in the file, its header and its links.
pub open spec fn node_size(num_links: int) -> int {
    NODE_HEADER_SIZE + num_links * LINK_SIZE
}

/// Where a page begins that follows one of the given place and size.
pub fn compute_byte_offset(prev_offset: usize, prev_length: usize) -> (offset: usize)
    requires
        prev_offset + prev_length <= usize::MAX,
    ensures
        offset == prev_offset + prev_length,
{
    prev_offset + prev_length
}

/// The bytes that a page with so many links takes in the file.
pub fn compute_length(num_links: usize) -> (length: usize)
    requires
        node_size(num_links as int) <= usize::MAX,
    ensures
        length == node_size(num_links as int),
{
    NODE_HEADER_SIZE + num_links * LINK_SIZE
}

/// The headers take sixteen bytes each and a link four, so a page takes four bytes more for each
/// link more.
pub proof fn law_sizes(num_links: int)
    ensures
        FILE_HEADER_SIZE == 16,
        NODE_HEADER_SIZE == 16,
        LINK_SIZE == 4,
        node_size(0) == 16,
        node_size(num_links + 1) == node_size(num_links) + 4,
        node_size(num_links) == 16 + 4 * num_links,
{
}

} // verus!
