//! Dispatchers: the objects behind handles.

use vstd::prelude::*;

use crate::runtime::data_pipe::DataPipeEnd;
use crate::runtime::pipe::{End, MessagePipeDispatcher};

verus! {

/// The kind of dispatcher.
#[derive(Debug, Clone, Copy, PartialEq, Eq, Hash, Structural)]
pub enum DispatcherType {
    /// A message pipe endpoint.
    MessagePipe,
    /// A data pipe producer endpoint.
    DataPipeProducer,
    /// A data pipe consumer endpoint.
    DataPipeConsumer,
    /// A shared buffer.
    SharedBuffer,
    /// A trap.
    Trap,
    /// An invitation.
    Invitation,
    /// A wrapped platform handle.
    PlatformHandle,
    /// A watcher (deprecated).
    Watcher,
}

impl DispatcherType {
    /// The public handle type name.
    pub open spec fn spec_name(self) -> Seq<char> {
        match self {
            DispatcherType::MessagePipe => "MOJO_HANDLE_TYPE_MESSAGE_PIPE"@,
            DispatcherType::DataPipeProducer => "MOJO_HANDLE_TYPE_DATA_PIPE_PRODUCER"@,
            DispatcherType::DataPipeConsumer => "MOJO_HANDLE_TYPE_DATA_PIPE_CONSUMER"@,
            DispatcherType::SharedBuffer => "MOJO_HANDLE_TYPE_SHARED_BUFFER"@,
            DispatcherType::Trap => "MOJO_HANDLE_TYPE_TRAP"@,
            DispatcherType::Invitation => "MOJO_HANDLE_TYPE_INVITATION"@,
            DispatcherType::PlatformHandle => "MOJO_HANDLE_TYPE_PLATFORM_HANDLE"@,
            DispatcherType::Watcher => "MOJO_HANDLE_TYPE_WATCHER"@,
        }
    }

    /// The public handle type name.
    pub fn name(self) -> (r: &'static str)
        ensures
            r@ == self.spec_name(),
    {
        match self {
            DispatcherType::MessagePipe => "MOJO_HANDLE_TYPE_MESSAGE_PIPE",
            DispatcherType::DataPipeProducer => "MOJO_HANDLE_TYPE_DATA_PIPE_PRODUCER",
            DispatcherType::DataPipeConsumer => "MOJO_HANDLE_TYPE_DATA_PIPE_CONSUMER",
            DispatcherType::SharedBuffer => "MOJO_HANDLE_TYPE_SHARED_BUFFER",
            DispatcherType::Trap => "MOJO_HANDLE_TYPE_TRAP",
            DispatcherType::Invitation => "MOJO_HANDLE_TYPE_INVITATION",
            DispatcherType::PlatformHandle => "MOJO_HANDLE_TYPE_PLATFORM_HANDLE",
            DispatcherType::Watcher => "MOJO_HANDLE_TYPE_WATCHER",
        }
    }
}

/// An object that handles refer to.
pub trait Dispatcher {
    /// The dispatcher kind.
    spec fn kind(&self) -> DispatcherType;

    /// Whether the dispatcher can be duplicated.
    spec fn duplicable(&self) -> bool;

    /// The dispatcher kind.
    fn dispatcher_type(&self) -> (r: DispatcherType)
        ensures
            r == self.kind(),
    ;

    /// Whether the dispatcher can be duplicated (only shared buffers can).
    fn is_duplicable(&self) -> (r: bool)
        ensures
            r == self.duplicable(),
    ;
}

/// A reference to the object behind a handle, by the number that its owner
/// gave it.
#[derive(Debug, Clone, Copy, PartialEq, Eq, Structural)]
pub enum DispatcherRef {
    /// One end of a message pipe.
    MessagePipe {
        /// The pipe.
        pipe: usize,
        /// The end.
        end: End,
    },
    /// One end of a data pipe.
    DataPipe {
        /// The pipe.
        pipe: usize,
        /// The end.
        end: DataPipeEnd,
    },
    /// A shared buffer.
    SharedBuffer(usize),
    /// A trap.
    Trap(u64),
    /// A wrapped platform descriptor.
    PlatformHandle(i32),
}

impl Dispatcher for DispatcherRef {
    open spec fn kind(&self) -> DispatcherType {
        match *self {
            DispatcherRef::MessagePipe { .. } => DispatcherType::MessagePipe,
            DispatcherRef::DataPipe { end, .. } => match end {
                DataPipeEnd::Producer => DispatcherType::DataPipeProducer,
                DataPipeEnd::Consumer => DispatcherType::DataPipeConsumer,
            },
            DispatcherRef::SharedBuffer(_) => DispatcherType::SharedBuffer,
            DispatcherRef::Trap(_) => DispatcherType::Trap,
            DispatcherRef::PlatformHandle(_) => DispatcherType::PlatformHandle,
        }
    }

    open spec fn duplicable(&self) -> bool {
        self is SharedBuffer
    }

    fn dispatcher_type(&self) -> (r: DispatcherType) {
        match *self {
            DispatcherRef::MessagePipe { .. } => DispatcherType::MessagePipe,
            DispatcherRef::DataPipe { end, .. } => match end {
                DataPipeEnd::Producer => DispatcherType::DataPipeProducer,
                DataPipeEnd::Consumer => DispatcherType::DataPipeConsumer,
            },
            DispatcherRef::SharedBuffer(_) => DispatcherType::SharedBuffer,
            DispatcherRef::Trap(_) => DispatcherType::Trap,
            DispatcherRef::PlatformHandle(_) => DispatcherType::PlatformHandle,
        }
    }

    fn is_duplicable(&self) -> (r: bool) {
        match *self {
            DispatcherRef::SharedBuffer(_) => true,
            _ => false,
        }
    }
}

/// The message pipe endpoint that a reference stands for, if it is one.
pub fn message_pipe_ref(d: DispatcherRef) -> (r: Option<MessagePipeDispatcher>)
    ensures
        r == match d {
            DispatcherRef::MessagePipe { pipe, end } => Some(MessagePipeDispatcher { pipe, end }),
            _ => None::<MessagePipeDispatcher>,
        },
{
    match d {
        DispatcherRef::MessagePipe { pipe, end } => Some(MessagePipeDispatcher { pipe, end }),
        _ => None,
    }
}

} // verus!
