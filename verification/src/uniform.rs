//! Host-mirrored uniform values with lazy upload.
//!
//! A uniform helper holds the host copy of a GPU uniform value and a dirty
//! flag.  Mutation goes through an explicit setter that marks the value
//! dirty; before the value is used on the GPU, one upload call reports
//! whether the buffer write is owed and clears the flag.  The buffer write
//! itself is the caller's: this type decides when it happens.

use vstd::prelude::*;

verus! {

/// The host side of a GPU uniform: the current value and whether the GPU
/// copy is stale.
pub struct SimpleUniformHelper<T> {
    pub inner: T,
    pub dirty: bool,
}

impl<T> SimpleUniformHelper<T> {
    /// The value the GPU copy should hold.
    pub open spec fn spec_inner(self) -> T {
        self.inner
    }

    /// Whether the GPU copy is stale and an upload is owed.
    pub open spec fn spec_dirty(self) -> bool {
        self.dirty
    }

    /// A helper as built around an initial value: the buffer is created
    /// from that value, so nothing is owed.
    pub open spec fn spec_new(inner: T) -> SimpleUniformHelper<T> {
        SimpleUniformHelper { inner, dirty: false }
    }

    /// The helper after a mutation: the new value, marked dirty.
    pub open spec fn spec_set(self, value: T) -> SimpleUniformHelper<T> {
        SimpleUniformHelper { inner: value, dirty: true }
    }

    /// The helper after an upload call: the same value, nothing owed.
    pub open spec fn spec_uploaded(self) -> SimpleUniformHelper<T> {
        SimpleUniformHelper { inner: self.inner, dirty: false }
    }

    /// Wraps an initial value whose buffer was just created from it: no
    /// upload is pending.
    pub fn from_inner(inner: T) -> (r: SimpleUniformHelper<T>)
        ensures
            r == SimpleUniformHelper::spec_new(inner),
            r.spec_inner() == inner,
            !r.spec_dirty(),
    {
        SimpleUniformHelper { inner, dirty: false }
    }

    /// Replaces the held value and marks it dirty: mutation implies a
    /// pending upload.
    pub fn update_inner(&mut self, value: T)
        ensures
            *final (self) == old(self).spec_set(value),
            final (self).spec_inner() == value,
            final (self).spec_dirty(),
    {
        self.inner = value;
        self.dirty = true;
    }

    /// Decides whether the GPU copy must be rewritten: reports the dirty
    /// flag and clears it.  The caller performs the buffer write exactly
    /// when this returns true.
    pub fn update_buffer(&mut self) -> (upload: bool)
        ensures
            upload == old(self).spec_dirty(),
            *final (self) == old(self).spec_uploaded(),
            final (self).spec_inner() == old(self).spec_inner(),
            !final (self).spec_dirty(),
    {
        let upload = self.dirty;
        self.dirty = false;
        upload
    }

    /// Sets a new value and immediately decides the upload: the write is
    /// always owed.
    pub fn update(&mut self, value: T) -> (upload: bool)
        ensures
            upload,
            final (self).spec_inner() == value,
            !final (self).spec_dirty(),
    {
        self.update_inner(value);
        self.update_buffer()
    }

    /// Reads the held value.
    pub fn inner(&self) -> (r: &T)
        ensures
            *r == self.spec_inner(),
    {
        &self.inner
    }
}

/// The dirty/upload cycle: a freshly built helper owes no upload; after a
/// mutation the next upload call performs the write and clears the flag;
/// a second consecutive upload call with no intervening mutation performs
/// no write and changes nothing.
pub proof fn lemma_dirty_upload_cycle<T>(u: SimpleUniformHelper<T>, inner: T, value: T)
    ensures
        !SimpleUniformHelper::spec_new(inner).spec_dirty(),
        u.spec_set(value).spec_dirty(),
        u.spec_set(value).spec_uploaded().spec_inner() == value,
        !u.spec_set(value).spec_uploaded().spec_dirty(),
        !u.spec_uploaded().spec_uploaded().spec_dirty(),
        u.spec_uploaded().spec_uploaded() == u.spec_uploaded(),
{
}

} // verus!
