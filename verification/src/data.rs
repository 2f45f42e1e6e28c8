//! Storage for the buffer behind a string.
//!
//! A [`Data`] handle owns or shares one value. The string asks it for
//! exclusive access before writing in place; a handle that shares its value
//! with another answers `None`, and the string then writes to a copy.
use std::rc::Rc;
use std::sync::Arc;
use vstd::prelude::*;

verus! {

/// Storage shared between threads.
pub type Threadsafe = Arc<String>;

/// Storage shared within one thread.
pub type Local = Rc<String>;

/// A handle to one stored value of type `T`.
pub trait Data<T>: Sized {
    /// The value stored behind this handle.
    spec fn content(&self) -> T;

    /// Stores `value` behind a handle that nothing else refers to.
    fn new(value: T) -> (r: Self)
        ensures
            r.content() == value,
    ;

    /// The stored value.
    fn get(&self) -> (r: &T)
        ensures
            *r == self.content(),
    ;

    /// The stored value for writing, if this handle is the only one that
    /// refers to it, and `None` otherwise. What is written through the
    /// reference is what the handle stores afterwards.
    fn get_mut(&mut self) -> (r: Option<&mut T>)
        ensures
            match r {
                Some(value) => {
                    &&& *value == old(self).content()
                    &&& final(self).content() == *final(value)
                },
                None => final(self).content() == old(self).content(),
            },
    ;

    /// Another handle to an equal value: to the same one where the storage is
    /// shared, to a copy of it where it is not.
    fn duplicate(&self) -> (r: Self)
        ensures
            r.content() == self.content(),
    ;
}

/// `Arc::get_mut`: exclusive access to the value if no other `Arc` or `Weak`
/// points to it. The contract says that a returned reference starts at the
/// stored value and that the `Arc` holds what is written through it; it does
/// not say when a reference is returned.
#[verifier::external_body]
fn arc_get_mut<T>(handle: &mut Arc<T>) -> (r: Option<&mut T>)
    ensures
        match r {
            Some(value) => *value == **old(handle) && **final(handle) == *final(value),
            None => **final(handle) == **old(handle),
        },
{
    Arc::get_mut(handle)
}

/// `Arc::clone`: a new pointer to the same allocation, hence to the same value.
#[verifier::external_body]
fn arc_clone<T>(handle: &Arc<T>) -> (r: Arc<T>)
    ensures
        *r == **handle,
{
    Arc::clone(handle)
}

/// `Rc::get_mut`: exclusive access to the value if no other `Rc` or `Weak`
/// points to it. The contract says that a returned reference starts at the
/// stored value and that the `Rc` holds what is written through it; it does
/// not say when a reference is returned.
#[verifier::external_body]
fn rc_get_mut<T>(handle: &mut Rc<T>) -> (r: Option<&mut T>)
    ensures
        match r {
            Some(value) => *value == **old(handle) && **final(handle) == *final(value),
            None => **final(handle) == **old(handle),
        },
{
    Rc::get_mut(handle)
}

/// `Rc::clone`: a new pointer to the same allocation, hence to the same value.
#[verifier::external_body]
fn rc_clone<T>(handle: &Rc<T>) -> (r: Rc<T>)
    ensures
        *r == **handle,
{
    Rc::clone(handle)
}

impl<T> Data<T> for Arc<T> {
    open spec fn content(&self) -> T {
        **self
    }

    fn new(value: T) -> (r: Self) {
        Arc::new(value)
    }

    fn get(&self) -> (r: &T) {
        &**self
    }

    fn get_mut(&mut self) -> (r: Option<&mut T>) {
        arc_get_mut(self)
    }

    fn duplicate(&self) -> (r: Self) {
        arc_clone(self)
    }
}

impl<T> Data<T> for Rc<T> {
    open spec fn content(&self) -> T {
        **self
    }

    fn new(value: T) -> (r: Self) {
        Rc::new(value)
    }

    fn get(&self) -> (r: &T) {
        &**self
    }

    fn get_mut(&mut self) -> (r: Option<&mut T>) {
        rc_get_mut(self)
    }

    fn duplicate(&self) -> (r: Self) {
        rc_clone(self)
    }
}

/// A box owns its value alone: it can always be written, and a duplicate is
/// a copy.
impl Data<String> for Box<String> {
    open spec fn content(&self) -> String {
        **self
    }

    fn new(value: String) -> (r: Self) {
        Box::new(value)
    }

    fn get(&self) -> (r: &String) {
        &**self
    }

    /// A box is never shared, so it can always be written.
    fn get_mut(&mut self) -> (r: Option<&mut String>)
        ensures
            r is Some,
    {
        Some(&mut **self)
    }

    fn duplicate(&self) -> (r: Self) {
        Box::new((**self).clone())
    }
}

/// Storage that is never shared: every duplicate holds a copy of its own.
pub struct Cloned<T> {
    value: T,
}

impl Data<String> for Cloned<String> {
    closed spec fn content(&self) -> String {
        self.value
    }

    fn new(value: String) -> (r: Self) {
        Cloned { value }
    }

    fn get(&self) -> (r: &String) {
        &self.value
    }

    /// The value is never shared, so it can always be written.
    fn get_mut(&mut self) -> (r: Option<&mut String>)
        ensures
            r is Some,
    {
        Some(&mut self.value)
    }

    fn duplicate(&self) -> (r: Self) {
        Cloned { value: self.value.clone() }
    }
}

} // verus!
