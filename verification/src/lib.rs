//! A growable UTF-8 string that keeps short text inline and moves to the heap
//! once the text outgrows the inline buffer.
//!
//! The text of a [`SmallString`] is modelled as a sequence of characters; byte
//! offsets are offsets into the UTF-8 encoding of that sequence.

pub mod backend;
pub mod compare;
pub mod convert;
pub mod edit;
pub mod error;
pub mod laws;
pub mod model;
pub mod order;
pub mod small_string;
pub mod std_specs;
pub mod traits;

pub use error::InvalidUtf8;
pub use small_string::SmallString;
