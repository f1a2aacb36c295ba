//! Channel framing: the receiving and sending side of a node link.
//!
//! Messages are framed with the 16-byte channel header and sent one at a time;
//! descriptors arrive with the first byte of the message that carried them. The
//! receiving side puts the stream together again, keeps note of which
//! descriptors arrived at which offset, and hands out complete messages with
//! their descriptors. It asks for exactly the bytes that complete the message
//! at the front, so that no read spans two messages.

use std::collections::VecDeque;
use vstd::prelude::*;

use crate::bytes::{get_u16, get_u32};
#[allow(unused_imports)]
use crate::bytes::{le16, le32};
use crate::ipcz::wire::{parse_channel_message, WireError, IPCZ_HEADER_SIZE};
#[allow(unused_imports)]
use crate::ipcz::wire::{channel_header, channel_message_at_start};
use crate::text::joined;

verus! {

/// The largest message that is taken.
pub const MAX_MESSAGE_SIZE: usize = 268435456;

/// A complete channel message: the payload plus attached descriptors.
#[derive(Debug, PartialEq, Eq)]
pub struct IncomingMessage {
    /// The payload (starting at the message header).
    pub payload: Vec<u8>,
    /// Attached descriptors, in order.
    pub fds: Vec<i32>,
}

/// What an incoming message holds.
#[verifier::ext_equal]
pub struct IncomingView {
    /// The payload.
    pub payload: Seq<u8>,
    /// Attached descriptors, in order.
    pub fds: Seq<i32>,
}

impl View for IncomingMessage {
    type V = IncomingView;

    open spec fn view(&self) -> IncomingView {
        IncomingView { payload: self.payload@, fds: self.fds@ }
    }
}

/// Descriptors with the offset at which they arrived.
#[derive(Debug)]
pub struct FdMark {
    /// The offset in the received bytes.
    pub offset: usize,
    /// The descriptors.
    pub fds: Vec<i32>,
}

/// What a mark holds.
#[verifier::ext_equal]
pub struct MarkView {
    /// The offset in the received bytes.
    pub offset: int,
    /// The descriptors.
    pub fds: Seq<i32>,
}

impl View for FdMark {
    type V = MarkView;

    open spec fn view(&self) -> MarkView {
        MarkView { offset: self.offset as int, fds: self.fds@ }
    }
}

/// Errors from channel operation.
#[derive(Debug, Clone, Copy, PartialEq, Eq, Structural)]
pub enum ChannelError {
    /// I/O failure, with the number that the operating system gave.
    Io(i32),
    /// A read timed out.
    TimedOut,
    /// The peer closed the channel.
    PeerClosed,
    /// Malformed framing.
    Wire(WireError),
}

impl ChannelError {
    /// The message of the error; that of an I/O failure is in `io`.
    pub open spec fn spec_text(self, io: Seq<char>) -> Seq<char> {
        match self {
            ChannelError::Io(_) => "channel io: "@ + io,
            ChannelError::TimedOut => "channel io: channel read timed out"@,
            ChannelError::PeerClosed => "channel peer closed"@,
            ChannelError::Wire(e) => "channel wire: "@ + e.spec_text(),
        }
    }

    /// The message of the error; that of an I/O failure is in `io`.
    pub fn text(self, io: &str) -> (r: String)
        ensures
            r@ == self.spec_text(io@),
    {
        match self {
            ChannelError::Io(_) => joined("channel io: ", io),
            ChannelError::TimedOut => "channel io: channel read timed out".to_owned(),
            ChannelError::PeerClosed => "channel peer closed".to_owned(),
            ChannelError::Wire(e) => joined("channel wire: ", e.text().as_str()),
        }
    }
}

/// What happened on the socket.
#[derive(Debug)]
pub enum RecvEvent {
    /// Nothing yet.
    Start,
    /// Bytes arrived, maybe with descriptors.
    Data {
        /// The bytes.
        data: Vec<u8>,
        /// The descriptors.
        fds: Vec<i32>,
    },
    /// The peer closed the channel.
    Eof,
    /// There is nothing to read now.
    WouldBlock,
    /// The read was interrupted.
    Interrupted,
    /// The read failed.
    Failed(i32),
}

/// The result of a receive attempt.
#[derive(Debug)]
pub enum RecvResult {
    /// A complete message was put together.
    Message(IncomingMessage),
    /// At most this many bytes are to be read next.
    Read(usize),
    /// No complete message and nothing to read.
    WouldBlock,
    /// The peer closed the channel.
    PeerClosed,
}

/// What a receive attempt comes to.
pub enum RecvStep {
    /// A complete message.
    Message(IncomingView),
    /// At most this many bytes are to be read next.
    Read(int),
    /// No complete message and nothing to read.
    WouldBlock,
    /// The peer closed the channel.
    PeerClosed,
    /// An error.
    Failed(ChannelError),
}

/// The view of the result of a receive attempt.
pub open spec fn recv_view(r: Result<RecvResult, ChannelError>) -> RecvStep {
    match r {
        Ok(RecvResult::Message(m)) => RecvStep::Message(m@),
        Ok(RecvResult::Read(n)) => RecvStep::Read(n as int),
        Ok(RecvResult::WouldBlock) => RecvStep::WouldBlock,
        Ok(RecvResult::PeerClosed) => RecvStep::PeerClosed,
        Err(e) => RecvStep::Failed(e),
    }
}

/// The receiving side of a channel.
#[derive(Debug)]
pub struct Channel {
    /// The socket.
    pub fd: i32,
    /// Received bytes not yet consumed by a complete message.
    pub recv_buf: Vec<u8>,
    /// Where descriptors arrived in `recv_buf`.
    pub fd_marks: VecDeque<FdMark>,
}

/// What a channel has received and not yet handed out.
#[verifier::ext_equal]
pub struct ChannelView {
    /// The bytes.
    pub buf: Seq<u8>,
    /// Where descriptors arrived in them.
    pub marks: Seq<MarkView>,
}

impl View for Channel {
    type V = ChannelView;

    open spec fn view(&self) -> ChannelView {
        ChannelView {
            buf: self.recv_buf@,
            marks: self.fd_marks@.map_values(|m: FdMark| m@),
        }
    }
}

/// The descriptors of the marks at the very front.
pub open spec fn front_fds(marks: Seq<MarkView>) -> Seq<i32>
    decreases marks.len(),
{
    if marks.len() > 0 && marks[0].offset == 0 {
        marks[0].fds + front_fds(marks.drop_first())
    } else {
        Seq::empty()
    }
}

/// The marks behind those at the very front.
pub open spec fn later_marks(marks: Seq<MarkView>) -> Seq<MarkView>
    decreases marks.len(),
{
    if marks.len() > 0 && marks[0].offset == 0 {
        later_marks(marks.drop_first())
    } else {
        marks
    }
}

/// The mark after `n` bytes before it were consumed.
pub open spec fn shifted(m: MarkView, n: int) -> MarkView {
    MarkView {
        offset: if m.offset < n {
            0
        } else {
            m.offset - n
        },
        ..m
    }
}

impl ChannelView {
    /// Whether a complete message is there.
    pub open spec fn complete(self) -> bool {
        self.buf.len() >= IPCZ_HEADER_SIZE && IPCZ_HEADER_SIZE <= le32(self.buf, 4)
            <= self.buf.len()
    }

    /// What is found at the front: nothing complete yet, a message, or an
    /// error.
    pub open spec fn assembled(self) -> (Result<Option<IncomingView>, WireError>, ChannelView) {
        let total = le32(self.buf, 4);
        if self.buf.len() < IPCZ_HEADER_SIZE {
            (Ok(None), self)
        } else if le16(self.buf, 0) != IPCZ_HEADER_SIZE {
            (Err(WireError::UnknownChannelHeaderSize(le16(self.buf, 0))), self)
        } else if total < IPCZ_HEADER_SIZE {
            (Err(WireError::BadChannelMessageSize(total)), self)
        } else if total > self.buf.len() {
            if total > MAX_MESSAGE_SIZE {
                (Err(WireError::BadChannelMessageSize(total)), self)
            } else {
                (Ok(None), self)
            }
        } else {
            let fds = front_fds(self.marks);
            let rest = later_marks(self.marks);
            if fds.len() != le16(self.buf, 2) {
                (Err(WireError::BadDriverObjects), ChannelView { marks: rest, ..self })
            } else {
                (
                    Ok(
                        Some(
                            IncomingView {
                                payload: self.buf.subrange(IPCZ_HEADER_SIZE as int, total as int),
                                fds,
                            },
                        ),
                    ),
                    ChannelView {
                        buf: self.buf.skip(total as int),
                        marks: rest.map_values(|m: MarkView| shifted(m, total as int)),
                    },
                )
            }
        }
    }

    /// How many bytes complete the header, or else the message, at the front;
    /// there is no complete message.
    pub open spec fn read_size(self) -> int {
        if self.buf.len() < IPCZ_HEADER_SIZE {
            IPCZ_HEADER_SIZE - self.buf.len()
        } else {
            le32(self.buf, 4) - self.buf.len()
        }
    }

    /// With more bytes, and the descriptors that came with them.
    pub open spec fn received(self, data: Seq<u8>, fds: Seq<i32>) -> ChannelView {
        ChannelView {
            buf: self.buf + data,
            marks: if fds.len() > 0 {
                self.marks.push(MarkView { offset: self.buf.len() as int, fds })
            } else {
                self.marks
            },
        }
    }

    /// What to do next: hand out the message at the front, or read on.
    pub open spec fn next(self) -> (RecvStep, ChannelView) {
        let (r, after) = self.assembled();
        match r {
            Err(e) => (RecvStep::Failed(ChannelError::Wire(e)), after),
            Ok(Some(m)) => (RecvStep::Message(m), after),
            Ok(None) => (RecvStep::Read(self.read_size()), after),
        }
    }

    /// What a receive attempt comes to after something happened on the socket.
    pub open spec fn stepped(self, event: RecvEvent) -> (RecvStep, ChannelView) {
        match event {
            RecvEvent::Start => self.next(),
            RecvEvent::Interrupted => self.next(),
            RecvEvent::Data { data, fds } => self.received(data@, fds@).next(),
            RecvEvent::Eof => if self.buf.len() > 0 {
                (RecvStep::Failed(ChannelError::Wire(WireError::TruncatedMessage)), self)
            } else {
                (RecvStep::PeerClosed, self)
            },
            RecvEvent::WouldBlock => (RecvStep::WouldBlock, self),
            RecvEvent::Failed(e) => (RecvStep::Failed(ChannelError::Io(e)), self),
        }
    }
}

impl Channel {
    /// A channel over a socket that has received nothing; `None` for a
    /// negative descriptor.
    pub fn adopt(fd: i32) -> (r: Option<Channel>)
        ensures
            match r {
                Some(c) => fd >= 0 && c.fd == fd && c@ == (ChannelView {
                    buf: Seq::empty(),
                    marks: Seq::empty(),
                }),
                None => fd < 0,
            },
    {
        if fd < 0 {
            return None;
        }
        let c = Channel { fd, recv_buf: Vec::new(), fd_marks: VecDeque::new() };
        assert(c@.marks =~= Seq::empty());
        Some(c)
    }

    /// The socket descriptor.
    pub fn as_raw_fd(&self) -> (r: i32)
        ensures
            r == self.fd,
    {
        self.fd
    }

    /// Whether a complete message is already there without touching the
    /// socket.
    pub fn has_complete_message(&self) -> (r: bool)
        ensures
            r == self@.complete(),
    {
        if self.recv_buf.len() < IPCZ_HEADER_SIZE {
            return false;
        }
        let num_bytes: usize = get_u32(self.recv_buf.as_slice(), 4) as usize;
        num_bytes >= IPCZ_HEADER_SIZE && num_bytes <= self.recv_buf.len()
    }

    fn take_front_fds(&mut self) -> (r: Vec<i32>)
        ensures
            r@ == front_fds(old(self)@.marks),
            final(self)@ == (ChannelView { marks: later_marks(old(self)@.marks), ..old(self)@ }),
            final(self).fd == old(self).fd,
    {
        let mut out: Vec<i32> = Vec::new();
        let ghost all = front_fds(self@.marks);
        let ghost rest = later_marks(self@.marks);
        assert(out@ + all =~= all);
        while self.fd_marks.len() > 0 && self.fd_marks[0].offset == 0
            invariant
                out@ + front_fds(self@.marks) == all,
                later_marks(self@.marks) == rest,
                self.recv_buf@ == old(self).recv_buf@,
                self.fd == old(self).fd,
            decreases self.fd_marks@.len(),
        {
            let ghost before = self@.marks;
            let ghost out0 = out@;
            let mut mark = self.fd_marks.pop_front().unwrap();
            let ghost fds = mark.fds@;
            out.append(&mut mark.fds);
            proof {
                assert(before[0].fds == fds);
                assert(before[0].offset == 0);
                assert(self@.marks =~= before.drop_first());
                assert(out@ =~= out0 + fds);
                let tail = front_fds(before.drop_first());
                assert((out0 + fds) + tail =~= out0 + (fds + tail));
            }
        }
        proof {
            let marks = self@.marks;
            if marks.len() > 0 {
                assert(marks[0] == self.fd_marks@[0]@);
            }
            assert(front_fds(marks) =~= Seq::empty());
            assert(later_marks(marks) == marks);
        }
        assert(out@ + Seq::<i32>::empty() =~= out@);
        out
    }

    fn shift_marks(&mut self, n: usize)
        ensures
            final(self)@ == (ChannelView {
                marks: old(self)@.marks.map_values(|m: MarkView| shifted(m, n as int)),
                ..old(self)@
            }),
            final(self).fd == old(self).fd,
    {
        let ghost all = self@.marks;
        let mut out: VecDeque<FdMark> = VecDeque::new();
        let mut k: Ghost<int> = Ghost(0);
        while self.fd_marks.len() > 0
            invariant
                0 <= k@ <= all.len(),
                self.recv_buf@ == old(self).recv_buf@,
                self.fd == old(self).fd,
                self.fd_marks@.len() == all.len() - k@,
                forall|i: int|
                    0 <= i < self.fd_marks@.len() ==> (#[trigger] self.fd_marks@[i])@ == all[i
                        + k@],
                out@.len() == k@,
                forall|i: int| 0 <= i < k@ ==> (#[trigger] out@[i])@ == shifted(all[i], n as int),
            decreases self.fd_marks@.len(),
        {
            let mut mark = self.fd_marks.pop_front().unwrap();
            mark.offset = if mark.offset < n {
                0
            } else {
                mark.offset - n
            };
            out.push_back(mark);
            proof {
                k@ = k@ + 1;
            }
        }
        self.fd_marks = out;
        assert(self@.marks =~= all.map_values(|m: MarkView| shifted(m, n as int)));
    }

    /// Attempt to take one complete message from the front.
    pub fn try_assemble(&mut self) -> (r: Result<Option<IncomingMessage>, WireError>)
        ensures
            ({
                let (want, after) = old(self)@.assembled();
                &&& final(self)@ == after
                &&& final(self).fd == old(self).fd
                &&& match r {
                    Ok(Some(m)) => want == Ok::<Option<IncomingView>, WireError>(Some(m@)),
                    Ok(None) => want == Ok::<Option<IncomingView>, WireError>(None),
                    Err(e) => want == Err::<Option<IncomingView>, WireError>(e),
                }
            }),
    {
        let ghost v0 = self@;
        if self.recv_buf.len() < IPCZ_HEADER_SIZE {
            return Ok(None);
        }
        let size: u16 = get_u16(self.recv_buf.as_slice(), 0);
        if size != IPCZ_HEADER_SIZE as u16 {
            return Err(WireError::UnknownChannelHeaderSize(size));
        }
        let num_handles: u16 = get_u16(self.recv_buf.as_slice(), 2);
        let total: u32 = get_u32(self.recv_buf.as_slice(), 4);
        let num_bytes: usize = total as usize;
        if num_bytes < IPCZ_HEADER_SIZE {
            return Err(WireError::BadChannelMessageSize(total));
        }
        if num_bytes > self.recv_buf.len() {
            if num_bytes > MAX_MESSAGE_SIZE {
                return Err(WireError::BadChannelMessageSize(total));
            }
            return Ok(None);
        }
        let fds = self.take_front_fds();
        if fds.len() != num_handles as usize {
            return Err(WireError::BadDriverObjects);
        }
        let payload = vstd::slice::slice_to_vec(
            vstd::slice::slice_subrange(self.recv_buf.as_slice(), IPCZ_HEADER_SIZE, num_bytes),
        );
        let rest = vstd::slice::slice_to_vec(
            vstd::slice::slice_subrange(
                self.recv_buf.as_slice(),
                num_bytes,
                self.recv_buf.len(),
            ),
        );
        assert(rest@ =~= v0.buf.skip(num_bytes as int));
        self.recv_buf = rest;
        self.shift_marks(num_bytes);
        Ok(Some(IncomingMessage { payload, fds }))
    }

    fn advance(&mut self) -> (r: Result<RecvResult, ChannelError>)
        ensures
            (recv_view(r), final(self)@) == old(self)@.next(),
            final(self).fd == old(self).fd,
    {
        match self.try_assemble() {
            Err(e) => Err(ChannelError::Wire(e)),
            Ok(Some(m)) => Ok(RecvResult::Message(m)),
            Ok(None) => {
                let have: usize = self.recv_buf.len();
                let needed: usize = if have < IPCZ_HEADER_SIZE {
                    IPCZ_HEADER_SIZE - have
                } else {
                    get_u32(self.recv_buf.as_slice(), 4) as usize - have
                };
                Ok(RecvResult::Read(needed))
            },
        }
    }

    /// Take in what happened on the socket, and hand out a complete message or
    /// say what to do next. An attempt starts with [`RecvEvent::Start`].
    pub fn recv_available(&mut self, event: RecvEvent) -> (r: Result<RecvResult, ChannelError>)
        ensures
            (recv_view(r), final(self)@) == old(self)@.stepped(event),
            final(self).fd == old(self).fd,
    {
        match event {
            RecvEvent::Start => self.advance(),
            RecvEvent::Interrupted => self.advance(),
            RecvEvent::Data { data, fds } => {
                let ghost v0 = self@;
                let ghost f = fds@;
                let offset: usize = self.recv_buf.len();
                self.recv_buf.extend_from_slice(data.as_slice());
                if fds.len() > 0 {
                    self.fd_marks.push_back(FdMark { offset, fds });
                    assert(self@.marks =~= v0.marks.push(
                        MarkView { offset: v0.buf.len() as int, fds: f },
                    ));
                }
                assert(self@ =~= v0.received(data@, f));
                self.advance()
            },
            RecvEvent::Eof => {
                if self.recv_buf.len() > 0 {
                    return Err(ChannelError::Wire(WireError::TruncatedMessage));
                }
                Ok(RecvResult::PeerClosed)
            },
            RecvEvent::WouldBlock => Ok(RecvResult::WouldBlock),
            RecvEvent::Failed(e) => Err(ChannelError::Io(e)),
        }
    }
}

/// One direction of a relay: it forwards complete messages only, each with the
/// descriptors that arrived with its first byte.
#[derive(Debug)]
pub struct Forwarder {
    /// Received bytes not yet forwarded.
    pub buf: Vec<u8>,
    /// Where descriptors arrived in `buf`.
    pub marks: Vec<FdMark>,
}

impl View for Forwarder {
    type V = ChannelView;

    open spec fn view(&self) -> ChannelView {
        ChannelView { buf: self.buf@, marks: self.marks@.map_values(|m: FdMark| m@) }
    }
}

/// The descriptors of all marks at the very front.
pub open spec fn all_front_fds(marks: Seq<MarkView>) -> Seq<i32>
    decreases marks.len(),
{
    if marks.len() == 0 {
        Seq::empty()
    } else {
        all_front_fds(marks.drop_last()) + if marks.last().offset == 0 {
            marks.last().fds
        } else {
            Seq::empty()
        }
    }
}

/// All marks that are not at the very front, after `n` bytes were consumed.
pub open spec fn all_later_marks(marks: Seq<MarkView>, n: int) -> Seq<MarkView>
    decreases marks.len(),
{
    if marks.len() == 0 {
        Seq::empty()
    } else {
        let before = all_later_marks(marks.drop_last(), n);
        if marks.last().offset == 0 {
            before
        } else {
            before.push(shifted(marks.last(), n))
        }
    }
}

impl ChannelView {
    /// What a relay finds at the front: a whole message, framing included,
    /// with its descriptors; nothing complete; or an error.
    pub open spec fn split(self) -> (Result<Option<IncomingView>, WireError>, ChannelView) {
        if self.buf.len() < IPCZ_HEADER_SIZE {
            (Ok(None), self)
        } else {
            match channel_message_at_start(self.buf) {
                Ok((_, n)) => (
                    Ok(
                        Some(
                            IncomingView {
                                payload: self.buf.take(n as int),
                                fds: all_front_fds(self.marks),
                            },
                        ),
                    ),
                    ChannelView {
                        buf: self.buf.skip(n as int),
                        marks: all_later_marks(self.marks, n as int),
                    },
                ),
                Err(WireError::TruncatedMessage) => (Ok(None), self),
                Err(e) => (Err(e), self),
            }
        }
    }

    /// How many bytes a relay reads next.
    pub open spec fn relay_read_size(self) -> int {
        if self.buf.len() < IPCZ_HEADER_SIZE {
            IPCZ_HEADER_SIZE - self.buf.len()
        } else if le32(self.buf, 4) < self.buf.len() {
            0
        } else {
            le32(self.buf, 4) - self.buf.len()
        }
    }
}

impl Forwarder {
    /// A relay direction that has received nothing.
    pub fn new() -> (r: Forwarder)
        ensures
            r@ == (ChannelView { buf: Seq::empty(), marks: Seq::empty() }),
    {
        let r = Forwarder { buf: Vec::new(), marks: Vec::new() };
        assert(r@.marks =~= Seq::empty());
        r
    }

    /// Take in received bytes, and the descriptors that came with them.
    pub fn receive(&mut self, data: &[u8], fds: Vec<i32>)
        ensures
            final(self)@ == old(self)@.received(data@, fds@),
    {
        let ghost v0 = self@;
        let ghost f = fds@;
        let offset: usize = self.buf.len();
        self.buf.extend_from_slice(data);
        if fds.len() > 0 {
            self.marks.push(FdMark { offset, fds });
            assert(self@.marks =~= v0.marks.push(
                MarkView { offset: v0.buf.len() as int, fds: f },
            ));
        }
    }

    /// How many bytes to read next.
    pub fn next_read_size(&self) -> (r: usize)
        ensures
            r == self@.relay_read_size(),
    {
        let have: usize = self.buf.len();
        if have < IPCZ_HEADER_SIZE {
            return IPCZ_HEADER_SIZE - have;
        }
        let num_bytes: usize = get_u32(self.buf.as_slice(), 4) as usize;
        if num_bytes < have {
            0
        } else {
            num_bytes - have
        }
    }

    /// Take one complete message from the front, framing included; an
    /// incomplete one is no error.
    pub fn try_split(&mut self) -> (r: Result<Option<IncomingMessage>, WireError>)
        ensures
            ({
                let (want, after) = old(self)@.split();
                &&& final(self)@ == after
                &&& match r {
                    Ok(Some(m)) => want == Ok::<Option<IncomingView>, WireError>(Some(m@)),
                    Ok(None) => want == Ok::<Option<IncomingView>, WireError>(None),
                    Err(e) => want == Err::<Option<IncomingView>, WireError>(e),
                }
            }),
    {
        let ghost v0 = self@;
        if self.buf.len() < IPCZ_HEADER_SIZE {
            return Ok(None);
        }
        let consumed: usize = match parse_channel_message(self.buf.as_slice()) {
            Ok((_, n)) => n,
            Err(WireError::TruncatedMessage) => {
                return Ok(None);
            },
            Err(e) => {
                return Err(e);
            },
        };
        let payload = vstd::slice::slice_to_vec(
            vstd::slice::slice_subrange(self.buf.as_slice(), 0, consumed),
        );
        assert(payload@ =~= v0.buf.take(consumed as int));
        let rest = vstd::slice::slice_to_vec(
            vstd::slice::slice_subrange(self.buf.as_slice(), consumed, self.buf.len()),
        );
        assert(rest@ =~= v0.buf.skip(consumed as int));
        self.buf = rest;
        let fds = self.split_marks(consumed);
        Ok(Some(IncomingMessage { payload, fds }))
    }

    fn split_marks(&mut self, n: usize) -> (r: Vec<i32>)
        ensures
            r@ == all_front_fds(old(self)@.marks),
            final(self)@ == (ChannelView {
                marks: all_later_marks(old(self)@.marks, n as int),
                ..old(self)@
            }),
    {
        let ghost all = self@.marks;
        let mut fds: Vec<i32> = Vec::new();
        let mut kept: Vec<FdMark> = Vec::new();
        let mut old_marks: Vec<FdMark> = Vec::new();
        old_marks.append(&mut self.marks);
        let mut k: Ghost<int> = Ghost(0);
        proof {
            assert(all.take(0) =~= Seq::empty());
            assert(kept@.map_values(|m: FdMark| m@) =~= Seq::empty());
        }
        while old_marks.len() > 0
            invariant
                0 <= k@ <= all.len(),
                self.buf@ == old(self).buf@,
                old_marks@.len() == all.len() - k@,
                forall|i: int|
                    0 <= i < old_marks@.len() ==> (#[trigger] old_marks@[i])@ == all[i + k@],
                fds@ == all_front_fds(all.take(k@)),
                kept@.map_values(|m: FdMark| m@) == all_later_marks(all.take(k@), n as int),
            decreases old_marks@.len(),
        {
            let ghost kept0 = kept@.map_values(|m: FdMark| m@);
            let ghost fds0 = fds@;
            let mut mark = old_marks.remove(0);
            proof {
                let next = all.take(k@ + 1);
                assert(next.drop_last() =~= all.take(k@));
                assert(next.last() == mark@);
            }
            if mark.offset == 0 {
                fds.append(&mut mark.fds);
                assert(fds@ =~= all_front_fds(all.take(k@ + 1)));
            } else {
                let ghost view = mark@;
                mark.offset = if mark.offset < n {
                    0
                } else {
                    mark.offset - n
                };
                kept.push(mark);
                assert(kept@.map_values(|m: FdMark| m@) =~= kept0.push(shifted(view, n as int)));
                assert(fds0 + Seq::<i32>::empty() =~= fds0);
            }
            proof {
                k@ = k@ + 1;
            }
        }
        assert(all.take(k@) =~= all);
        self.marks = kept;
        fds
    }
}

/// A message that arrives whole, with its descriptors at its first byte, is
/// handed out whole with exactly these descriptors, and nothing of it stays.
pub proof fn law_framed_message_is_received(payload: Seq<u8>, fds: Seq<i32>)
    requires
        IPCZ_HEADER_SIZE + payload.len() <= u32::MAX,
        fds.len() <= u16::MAX,
    ensures
        ({
            let empty = ChannelView { buf: Seq::empty(), marks: Seq::empty() };
            let frame = channel_header(payload.len(), fds.len() as u16) + payload;
            empty.received(frame, fds).assembled() == (
                Ok::<Option<IncomingView>, WireError>(Some(IncomingView { payload, fds })),
                empty,
            )
        }),
{
    let empty = ChannelView { buf: Seq::empty(), marks: Seq::empty() };
    let frame = channel_header(payload.len(), fds.len() as u16) + payload;
    let v = empty.received(frame, fds);
    crate::ipcz::wire::law_channel_message_round_trip(payload, fds.len() as u16, Seq::empty());
    assert(frame + Seq::<u8>::empty() =~= frame);
    assert(v.buf =~= frame);
    assert(channel_message_at_start(frame) is Ok);
    assert(le16(frame, 2) == fds.len());
    reveal_with_fuel(front_fds, 2);
    reveal_with_fuel(later_marks, 2);
    if fds.len() > 0 {
        assert(v.marks[0] == (MarkView { offset: 0, fds }));
        assert(v.marks.drop_first() =~= Seq::empty());
        assert(front_fds(v.marks) =~= fds);
        assert(later_marks(v.marks) =~= Seq::empty());
    } else {
        assert(front_fds(v.marks) =~= fds);
    }
    assert(v.assembled().1.marks =~= Seq::empty());
    assert(v.assembled().1.buf =~= Seq::empty());
}

/// No read spans two messages: while a message is incomplete, what is read
/// next ends at its last byte at the latest.
pub proof fn law_reads_stay_in_message(v: ChannelView)
    requires
        v.next().0 is Read,
    ensures
        v.next().0->Read_0 > 0,
        v.buf.len() >= IPCZ_HEADER_SIZE ==> v.buf.len() + v.next().0->Read_0 == le32(v.buf, 4),
        v.buf.len() < IPCZ_HEADER_SIZE ==> v.buf.len() + v.next().0->Read_0 == IPCZ_HEADER_SIZE,
{
}

/// What is received only adds to what is there: the bytes come behind those
/// before, and the descriptors belong to the first of the new bytes.
pub proof fn law_received_bytes_follow(v: ChannelView, data: Seq<u8>, fds: Seq<i32>)
    ensures
        ({
            let w = v.received(data, fds);
            &&& w.buf.take(v.buf.len() as int) == v.buf
            &&& w.buf.skip(v.buf.len() as int) == data
            &&& fds.len() == 0 ==> w.marks == v.marks
            &&& fds.len() > 0 ==> {
                &&& w.marks.len() == v.marks.len() + 1
                &&& w.marks.drop_last() == v.marks
                &&& w.marks.last().fds == fds
                &&& w.marks.last().offset == v.buf.len()
            }
        }),
{
    let w = v.received(data, fds);
    assert(w.buf.take(v.buf.len() as int) =~= v.buf);
    assert(w.buf.skip(v.buf.len() as int) =~= data);
    if fds.len() > 0 {
        assert(w.marks.drop_last() =~= v.marks);
    }
}

/// A message that is handed out is the one at the front, with as many
/// descriptors as it says; exactly its bytes are gone then. As long as no
/// message is handed out and there is no error, nothing is gone.
pub proof fn law_front_message_is_handed_out(v: ChannelView)
    ensures
        ({
            let (r, w) = v.assembled();
            &&& r matches Ok(Some(m)) ==> {
                &&& channel_message_at_start(v.buf) matches Ok((f, n))
                &&& m.payload == f.payload
                &&& m.fds.len() == f.num_handles
                &&& v.buf.take(n as int) + w.buf == v.buf
                &&& m.fds == front_fds(v.marks)
            }
            &&& r matches Ok(None) ==> w == v && channel_message_at_start(v.buf) is Err
            &&& r is Err ==> w.buf == v.buf
        }),
{
    let (r, w) = v.assembled();
    if r matches Ok(Some(m)) {
        let n = le32(v.buf, 4);
        assert(v.buf.take(n as int) + w.buf =~= v.buf);
    }
}

/// The end of the stream is the end of the peer only between two messages.
pub proof fn law_end_inside_message_is_an_error(v: ChannelView)
    ensures
        v.buf.len() == 0 ==> v.stepped(RecvEvent::Eof) == (RecvStep::PeerClosed, v),
        v.buf.len() > 0 ==> v.stepped(RecvEvent::Eof) == (
            RecvStep::Failed(ChannelError::Wire(WireError::TruncatedMessage)),
            v,
        ),
        v.stepped(RecvEvent::WouldBlock) == (RecvStep::WouldBlock, v),
{
}

} // verus!
