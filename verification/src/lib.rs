//! A cheaply cloneable, cheaply sliceable UTF-8 text value.
//!
//! An [`ImString`] behaves like an owned string: changing one value never
//! changes another. Inside, clones and substrings share one buffer, and a
//! buffer is only written in place while a single value refers to it.
pub mod address;
pub mod buffer;
pub mod bytes;
pub mod compare;
pub mod convert;
pub mod data;
pub mod encoding;
pub mod error;
pub mod index;
pub mod laws;
pub mod lines;
pub mod range;
pub mod string;

pub use data::{Cloned, Data, Local, Threadsafe};
pub use error::{FromUtf8Error, SliceError};
pub use lines::{ImStringIterator, Lines};
pub use range::ByteRange;
pub use string::ImString;
