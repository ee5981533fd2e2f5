//! A singly linked list kept in an arena of nodes addressed by integer
//! indices: append, indexed lookup, sorted merge, and in-place reversal,
//! each verified against a sequence view of the list.

pub mod laws;
pub mod list;
pub mod order;
pub mod render;

pub use laws::lemma_merge_length;
pub use laws::lemma_merge_multiset;
pub use laws::lemma_merge_sorted;
pub use laws::lemma_merge_stable_tie;
pub use laws::lemma_reverse_involution;
pub use laws::lemma_reverse_short;
pub use list::LinkedList;
pub use list::Node;
pub use order::Cmp;
pub use order::TotalOrder;
pub use order::merge_seqs;
pub use order::sorted;
pub use render::rendered_ints;
pub use render::rendered_strings;
