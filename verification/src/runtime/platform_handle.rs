//! A platform descriptor wrapped in a handle.

use vstd::prelude::*;

use crate::runtime::dispatcher::{Dispatcher, DispatcherType};

verus! {

/// A dispatcher wrapping a platform descriptor.
#[derive(Debug, PartialEq, Eq)]
pub struct PlatformHandleDispatcher {
    /// The descriptor.
    pub fd: i32,
}

impl PlatformHandleDispatcher {
    /// Wrap a descriptor.
    pub fn new(fd: i32) -> (r: PlatformHandleDispatcher)
        ensures
            r.fd == fd,
    {
        PlatformHandleDispatcher { fd }
    }

    /// The wrapped descriptor.
    pub fn as_raw_fd(&self) -> (r: i32)
        ensures
            r == self.fd,
    {
        self.fd
    }
}

impl Dispatcher for PlatformHandleDispatcher {
    open spec fn kind(&self) -> DispatcherType {
        DispatcherType::PlatformHandle
    }

    open spec fn duplicable(&self) -> bool {
        false
    }

    fn dispatcher_type(&self) -> (r: DispatcherType) {
        DispatcherType::PlatformHandle
    }

    fn is_duplicable(&self) -> (r: bool) {
        false
    }
}

} // verus!
