//! A binary min-heap over any totally preordered element type.
//!
//! - [`heap`] holds the executable [`BinaryHeap`].
//! - [`model`] says what each of its operations computes, over sequences.
//! - [`laws`] states what holds of the operations: the heap property is kept,
//!   the elements are accounted for, and `pop` hands them out in ascending
//!   order.
//! - [`lemmas`] proves that the walks up and down the tree restore the heap
//!   property.
//! - [`order`] defines the order of the elements.
//!
//! With `Reverse` as the element type the greatest element is at the root.

pub mod heap;
pub mod laws;
pub mod lemmas;
pub mod model;
pub mod order;

pub use heap::BinaryHeap;
