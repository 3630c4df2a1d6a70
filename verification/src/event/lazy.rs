//! Parse-on-first-access storage for a typed event body: the first read
//! parses and caches the outcome, success or failure, for the life of the
//! cell; later reads never reparse.

use vstd::prelude::*;

use crate::event::format::EventFormat;

verus! {

/// A once-parsed typed body: raw bytes until first read, then the parse
/// outcome forever.
pub struct LazyParseCell<T: EventFormat> {
    data: Vec<u8>,
    value: Option<Result<T, T::FormatError>>,
}

impl<T: EventFormat> LazyParseCell<T> {
    /// No parse has happened yet.
    pub closed spec fn pending(&self) -> bool {
        self.value is None
    }

    /// The raw bytes the cell was created over.
    pub closed spec fn raw_data(&self) -> Seq<u8> {
        self.data@
    }

    /// The cached parse outcome, once there is one.
    pub closed spec fn cached(&self) -> Option<Result<T, T::FormatError>> {
        self.value
    }

    /// The owned bytes the parser is handed on the first read.
    pub closed spec fn input(&self) -> Vec<u8> {
        self.data
    }

    pub fn new(data: Vec<u8>) -> (r: Self)
        ensures
            r.pending(),
            r.input() == data,
            r.raw_data() == data@,
    {
        LazyParseCell { data, value: None }
    }

    /// The parse outcome: the first call runs the format's parser on the
    /// stored bytes and caches what it returned, and every later call
    /// returns that cache — a cell that already holds an outcome is
    /// never changed again.
    pub fn get(&mut self) -> (r: &Result<T, T::FormatError>)
        ensures
            !final(self).pending(),
            final(self).raw_data() == old(self).raw_data(),
            final(self).cached() == Some(*r),
            !old(self).pending() ==> *final(self) == *old(self),
            old(self).pending() ==> call_ensures(T::try_from_raw, (&old(self).input(),), *r),
    {
        if self.value.is_none() {
            let parsed = T::try_from_raw(&self.data);
            self.value = Some(parsed);
        }
        self.value.as_ref().unwrap()
    }

    /// Whether the first read is still to come.
    pub fn is_pending(&self) -> (r: bool)
        ensures
            r == self.pending(),
    {
        self.value.is_none()
    }
}

} // verus!
