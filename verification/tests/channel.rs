//! The receiving side of channels, and the relay.

use std::collections::VecDeque;

use mojo_rs::ipcz::channel::{
    Channel, ChannelError, Forwarder, IncomingMessage, RecvEvent, RecvResult,
};
use mojo_rs::ipcz::wire::{encode_channel_message, WireError};

/// A socket whose sender wrote some pieces, the descriptors of each with its
/// first byte, and then maybe closed it.
struct Socket {
    bytes: VecDeque<(u8, Vec<i32>)>,
    closed: bool,
}

impl Socket {
    fn new() -> Socket {
        Socket { bytes: VecDeque::new(), closed: false }
    }

    fn send(&mut self, frame: &[u8], fds: &[i32]) {
        for (i, b) in frame.iter().enumerate() {
            let attached = if i == 0 { fds.to_vec() } else { Vec::new() };
            self.bytes.push_back((*b, attached));
        }
    }

    fn read(&mut self, max: usize) -> RecvEvent {
        if self.bytes.is_empty() {
            return if self.closed { RecvEvent::Eof } else { RecvEvent::WouldBlock };
        }
        let mut data = Vec::new();
        let mut fds = Vec::new();
        while data.len() < max {
            match self.bytes.pop_front() {
                Some((b, attached)) => {
                    data.push(b);
                    fds.extend(attached);
                }
                None => break,
            }
        }
        RecvEvent::Data { data, fds }
    }
}

fn recv(c: &mut Channel, s: &mut Socket) -> Result<Option<IncomingMessage>, ChannelError> {
    let mut event = RecvEvent::Start;
    loop {
        match c.recv_available(event)? {
            RecvResult::Message(m) => return Ok(Some(m)),
            RecvResult::Read(n) => event = s.read(n),
            RecvResult::WouldBlock | RecvResult::PeerClosed => return Ok(None),
        }
    }
}

#[test]
fn frame_roundtrip_with_fd() {
    let mut s = Socket::new();
    let mut a = Channel::adopt(3).unwrap();
    s.send(&encode_channel_message(b"payload", 1), &[17]);
    let msg = recv(&mut a, &mut s).unwrap().expect("message");
    assert_eq!(msg.payload, b"payload");
    assert_eq!(msg.fds.len(), 1);
    assert_eq!(msg.fds[0], 17);
    assert_eq!(a.as_raw_fd(), 3);
}

#[test]
fn eof_detected() {
    let mut s = Socket::new();
    s.closed = true;
    let mut a = Channel::adopt(3).unwrap();
    assert!(recv(&mut a, &mut s).unwrap().is_none());
}

#[test]
fn fd_association_survives_dense_stream() {
    // A burst of messages where the one with the descriptor is NOT first. Each
    // read spans one message, so that the descriptor stays with its message.
    let mut s = Socket::new();
    let mut a = Channel::adopt(3).unwrap();
    s.send(&encode_channel_message(b"m0", 0), &[]);
    s.send(&encode_channel_message(b"m1", 1), &[9]);
    s.send(&encode_channel_message(b"m2", 0), &[]);
    let m0 = recv(&mut a, &mut s).unwrap().expect("m0");
    assert_eq!(m0.payload, b"m0");
    assert!(m0.fds.is_empty());
    let m1 = recv(&mut a, &mut s).unwrap().expect("m1");
    assert_eq!(m1.payload, b"m1");
    assert_eq!(m1.fds.len(), 1);
    let m2 = recv(&mut a, &mut s).unwrap().expect("m2");
    assert_eq!(m2.payload, b"m2");
    assert!(m2.fds.is_empty());
}

#[test]
fn truncated_stream_rejected() {
    let mut s = Socket::new();
    let mut a = Channel::adopt(3).unwrap();
    // A header claiming 1000 bytes but only 20, then the end.
    let mut frame = vec![0u8; 20];
    frame[0] = 16;
    frame[1] = 0;
    frame[4..8].copy_from_slice(&1000u32.to_le_bytes());
    s.send(&frame, &[]);
    s.closed = true;
    let err = recv(&mut a, &mut s).unwrap_err();
    assert!(matches!(err, ChannelError::Wire(WireError::TruncatedMessage)));
}

#[test]
fn missing_descriptors_are_an_error() {
    let mut s = Socket::new();
    let mut a = Channel::adopt(3).unwrap();
    s.send(&encode_channel_message(b"m", 1), &[]);
    assert_eq!(
        recv(&mut a, &mut s).unwrap_err(),
        ChannelError::Wire(WireError::BadDriverObjects)
    );
    assert!(Channel::adopt(-1).is_none());
}

#[test]
fn failures_of_the_socket_are_reported() {
    let mut a = Channel::adopt(3).unwrap();
    assert_eq!(a.recv_available(RecvEvent::Failed(104)).unwrap_err(), ChannelError::Io(104));
    assert!(matches!(a.recv_available(RecvEvent::Interrupted), Ok(RecvResult::Read(16))));
    assert!(!a.has_complete_message());
    assert_eq!(ChannelError::PeerClosed.text(""), "channel peer closed");
    assert_eq!(ChannelError::Io(2).text("gone"), "channel io: gone");
}

#[test]
fn relay_splits_messages() {
    let mut f = Forwarder::new();
    assert_eq!(f.next_read_size(), 16);
    let frame = encode_channel_message(b"abc", 1);
    f.receive(&frame[..16], vec![5]);
    assert_eq!(f.next_read_size(), 3);
    assert!(f.try_split().unwrap().is_none());
    f.receive(&frame[16..], vec![]);
    let m = f.try_split().unwrap().expect("message");
    assert_eq!(m.payload, frame);
    assert_eq!(m.fds, vec![5]);
    assert!(f.try_split().unwrap().is_none());
}
