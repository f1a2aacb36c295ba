//! Framing of the ipcz transport traffic.
//!
//! Wire layout of a channel message (packed, little-endian):
//!
//! ```text
//! 0  channel header
//!      u16 size                     header size in bytes (16)
//!      u16 num_handles              descriptors attached
//!      u32 num_bytes                total message size with this header
//!      i64 creation_timeticks_us    (ignored)
//! 16 ipcz message header
//!      u8  size                     header size in bytes (24)
//!      u8  version
//!      u8  message_id
//!      u8  reserved0[5]
//!      u64 node_sequence_number     per-link ordering
//!      u32 driver_object_data_array offset of the driver object array, or 0
//!      u32 reserved1
//! 40 parameters struct (size u32, padding u32, then the fixed fields)
//!     ...
//!     arrays and driver objects follow the fixed parameters
//! ```
//!
//! Every length is validated before any access: a malformed stream is an error.

use vstd::prelude::*;
use vstd::slice::slice_subrange;
use vstd::slice::slice_to_vec;

use crate::bytes::{
    get_u16, get_u32, get_u64, push_bytes, push_u16, push_u32, push_u64, push_zeros, put_u64,
};
use crate::text::labelled;

verus! {

/// A parsed channel message: the handle count and the raw ipcz payload.
#[derive(Debug, Clone, PartialEq, Eq)]
pub struct ChannelMessage {
    /// The number of attached descriptors.
    pub num_handles: u16,
    /// The ipcz payload (starting at the ipcz message header).
    pub payload: Vec<u8>,
}

/// What a [`ChannelMessage`] holds.
pub struct ChannelMessageView {
    /// The number of attached descriptors.
    pub num_handles: u16,
    /// The ipcz payload.
    pub payload: Seq<u8>,
}

impl View for ChannelMessage {
    type V = ChannelMessageView;

    open spec fn view(&self) -> ChannelMessageView {
        ChannelMessageView { num_handles: self.num_handles, payload: self.payload@ }
    }
}

/// The ipcz message header.
#[derive(Debug, Clone, Copy, PartialEq, Eq, Default, Structural)]
pub struct MessageHeader {
    /// Header size in bytes (24).
    pub size: u8,
    /// Header version.
    pub version: u8,
    /// Message id.
    pub message_id: u8,
    /// Per-link sequence number.
    pub node_sequence_number: u64,
    /// Offset of the driver object array, or 0 when there is none.
    pub driver_object_data_array: u32,
}

/// Parse errors: all malformed-input conditions are classified.
#[derive(Debug, Clone, Copy, PartialEq, Eq, Structural)]
pub enum WireError {
    /// Fewer than 16 bytes for the channel header.
    ShortChannelHeader,
    /// The channel header's `size` field is not 16.
    UnknownChannelHeaderSize(u16),
    /// The channel header's `num_bytes` is smaller than the header.
    BadChannelMessageSize(u32),
    /// The message extends past the captured stream.
    TruncatedMessage,
    /// Fewer than 24 bytes for the ipcz message header.
    ShortMessageHeader,
    /// The ipcz header's `size` field is not 24.
    UnknownMessageHeaderSize(u8),
    /// The parameter struct is truncated or absent.
    ShortParams,
    /// The parameter struct claims an inconsistent size.
    BadParamsSize,
    /// An array offset does not resolve within the message.
    BadArrayOffset,
    /// An array header is malformed (size, alignment or elements).
    BadArray,
    /// The driver object array or descriptor spans are malformed.
    BadDriverObjects,
    /// A parcel has neither inline data nor a fragment (or both).
    BadParcelData,
}

/// The size of the channel header.
pub const IPCZ_HEADER_SIZE: usize = 16;

/// The size of the ipcz message header.
pub const MESSAGE_HEADER_SIZE: usize = 24;

impl WireError {
    /// The human-readable text of the error.
    pub open spec fn spec_text(self) -> Seq<char> {
        match self {
            WireError::ShortChannelHeader => "short channel header"@,
            WireError::UnknownChannelHeaderSize(s) => "unknown channel header size "@
                + crate::text::decimal(s as nat),
            WireError::BadChannelMessageSize(n) => "bad channel message size "@
                + crate::text::decimal(n as nat),
            WireError::TruncatedMessage => "truncated message"@,
            WireError::ShortMessageHeader => "short ipcz message header"@,
            WireError::UnknownMessageHeaderSize(s) => "unknown ipcz message header size "@
                + crate::text::decimal(s as nat),
            WireError::ShortParams => "short parameter struct"@,
            WireError::BadParamsSize => "bad parameter struct size"@,
            WireError::BadArrayOffset => "array offset out of bounds"@,
            WireError::BadArray => "malformed array"@,
            WireError::BadDriverObjects => "malformed driver objects"@,
            WireError::BadParcelData => "parcel data neither inline nor fragment"@,
        }
    }

    /// The human-readable text of the error.
    pub fn text(self) -> (r: String)
        ensures
            r@ == self.spec_text(),
    {
        match self {
            WireError::ShortChannelHeader => "short channel header".to_owned(),
            WireError::UnknownChannelHeaderSize(s) => labelled(
                "unknown channel header size ",
                s as u64,
            ),
            WireError::BadChannelMessageSize(n) => labelled("bad channel message size ", n as u64),
            WireError::TruncatedMessage => "truncated message".to_owned(),
            WireError::ShortMessageHeader => "short ipcz message header".to_owned(),
            WireError::UnknownMessageHeaderSize(s) => labelled(
                "unknown ipcz message header size ",
                s as u64,
            ),
            WireError::ShortParams => "short parameter struct".to_owned(),
            WireError::BadParamsSize => "bad parameter struct size".to_owned(),
            WireError::BadArrayOffset => "array offset out of bounds".to_owned(),
            WireError::BadArray => "malformed array".to_owned(),
            WireError::BadDriverObjects => "malformed driver objects".to_owned(),
            WireError::BadParcelData => "parcel data neither inline nor fragment".to_owned(),
        }
    }
}

/// The channel message at the start of `stream` and the bytes it takes.
pub open spec fn channel_message_at_start(stream: Seq<u8>) -> Result<
    (ChannelMessageView, nat),
    WireError,
> {
    let total = crate::bytes::le32(stream, 4);
    if stream.len() < IPCZ_HEADER_SIZE {
        Err(WireError::ShortChannelHeader)
    } else if crate::bytes::le16(stream, 0) != IPCZ_HEADER_SIZE {
        Err(WireError::UnknownChannelHeaderSize(crate::bytes::le16(stream, 0)))
    } else if total < IPCZ_HEADER_SIZE {
        Err(WireError::BadChannelMessageSize(total))
    } else if stream.len() < total {
        Err(WireError::TruncatedMessage)
    } else {
        Ok(
            (
                ChannelMessageView {
                    num_handles: crate::bytes::le16(stream, 2),
                    payload: stream.subrange(IPCZ_HEADER_SIZE as int, total as int),
                },
                total as nat,
            ),
        )
    }
}

/// Parse one channel message from the start of `stream`.
///
/// Returns the message and the number of bytes consumed.
pub fn parse_channel_message(stream: &[u8]) -> (r: Result<(ChannelMessage, usize), WireError>)
    ensures
        match r {
            Ok((m, n)) => channel_message_at_start(stream@) == Ok::<
                (ChannelMessageView, nat),
                WireError,
            >((m@, n as nat)),
            Err(e) => channel_message_at_start(stream@) == Err::<
                (ChannelMessageView, nat),
                WireError,
            >(e),
        },
{
    if stream.len() < IPCZ_HEADER_SIZE {
        return Err(WireError::ShortChannelHeader);
    }
    let size: u16 = get_u16(stream, 0);
    if size != 16 {
        return Err(WireError::UnknownChannelHeaderSize(size));
    }
    let num_handles: u16 = get_u16(stream, 2);
    let total: u32 = get_u32(stream, 4);
    let num_bytes: usize = total as usize;
    if num_bytes < IPCZ_HEADER_SIZE {
        return Err(WireError::BadChannelMessageSize(total));
    }
    if stream.len() < num_bytes {
        return Err(WireError::TruncatedMessage);
    }
    let payload = slice_to_vec(slice_subrange(stream, IPCZ_HEADER_SIZE, num_bytes));
    Ok((ChannelMessage { num_handles, payload }, num_bytes))
}

/// The ipcz message header at the start of `payload`.
pub open spec fn message_header_of(payload: Seq<u8>) -> Result<MessageHeader, WireError> {
    if payload.len() < MESSAGE_HEADER_SIZE {
        Err(WireError::ShortMessageHeader)
    } else if payload[0] != MESSAGE_HEADER_SIZE {
        Err(WireError::UnknownMessageHeaderSize(payload[0]))
    } else {
        Ok(
            MessageHeader {
                size: payload[0],
                version: payload[1],
                message_id: payload[2],
                node_sequence_number: crate::bytes::le64(payload, 8),
                driver_object_data_array: crate::bytes::le32(payload, 16),
            },
        )
    }
}

/// Parse the ipcz message header from the start of a payload.
pub fn parse_message_header(payload: &[u8]) -> (r: Result<MessageHeader, WireError>)
    ensures
        r == message_header_of(payload@),
{
    if payload.len() < MESSAGE_HEADER_SIZE {
        return Err(WireError::ShortMessageHeader);
    }
    let size: u8 = payload[0];
    if size != 24 {
        return Err(WireError::UnknownMessageHeaderSize(size));
    }
    Ok(
        MessageHeader {
            size,
            version: payload[1],
            message_id: payload[2],
            node_sequence_number: get_u64(payload, 8),
            driver_object_data_array: get_u32(payload, 16),
        },
    )
}

/// The channel messages that `stream` is made of.
pub open spec fn messages_of_stream(stream: Seq<u8>) -> Result<Seq<ChannelMessageView>, WireError>
    decreases stream.len(),
{
    if stream.len() == 0 {
        Ok(Seq::empty())
    } else {
        match channel_message_at_start(stream) {
            Err(e) => Err(e),
            Ok((m, n)) => match messages_of_stream(stream.subrange(n as int, stream.len() as int)) {
                Err(e) => Err(e),
                Ok(rest) => Ok(seq![m] + rest),
            },
        }
    }
}

/// The views of a list of messages.
pub open spec fn message_views(v: Seq<ChannelMessage>) -> Seq<ChannelMessageView> {
    v.map_values(|m: ChannelMessage| m@)
}

/// Parse all channel messages in a captured stream.
pub fn parse_stream(stream: &[u8]) -> (r: Result<Vec<ChannelMessage>, WireError>)
    ensures
        match r {
            Ok(v) => messages_of_stream(stream@) == Ok::<Seq<ChannelMessageView>, WireError>(
                message_views(v@),
            ),
            Err(e) => messages_of_stream(stream@) == Err::<Seq<ChannelMessageView>, WireError>(e),
        },
{
    let mut out: Vec<ChannelMessage> = Vec::new();
    let mut off: usize = 0;
    proof {
        assert(stream@.subrange(0, stream@.len() as int) =~= stream@);
        let rest = messages_of_stream(stream@);
        if rest is Ok {
            assert(message_views(out@) + rest->Ok_0 =~= rest->Ok_0);
        }
    }
    while off < stream.len()
        invariant
            off <= stream.len(),
            match messages_of_stream(stream@.subrange(off as int, stream@.len() as int)) {
                Err(e) => messages_of_stream(stream@) == Err::<Seq<ChannelMessageView>, WireError>(
                    e,
                ),
                Ok(rest) => messages_of_stream(stream@) == Ok::<Seq<ChannelMessageView>, WireError>(
                    message_views(out@) + rest,
                ),
            },
        decreases stream.len() - off,
    {
        let tail = slice_subrange(stream, off, stream.len());
        let (msg, consumed): (ChannelMessage, usize) = match parse_channel_message(tail) {
            Ok(p) => p,
            Err(e) => {
                return Err(e);
            },
        };
        let ghost before = message_views(out@);
        let ghost m = msg@;
        proof {
            assert(tail@.subrange(consumed as int, tail@.len() as int) =~= stream@.subrange(
                off + consumed,
                stream@.len() as int,
            ));
        }
        out.push(msg);
        off = off + consumed;
        proof {
            let rest = messages_of_stream(stream@.subrange(off as int, stream@.len() as int));
            assert(message_views(out@) =~= before.push(m));
            if rest is Ok {
                assert(before + (seq![m] + rest->Ok_0) =~= message_views(out@) + rest->Ok_0);
            }
        }
    }
    proof {
        assert(stream@.subrange(off as int, stream@.len() as int) =~= Seq::<u8>::empty());
        assert(message_views(out@) + Seq::<ChannelMessageView>::empty() =~= message_views(out@));
    }
    Ok(out)
}

/// The channel header that frames a payload of `payload_len` bytes.
pub open spec fn channel_header(payload_len: nat, num_handles: u16) -> Seq<u8> {
    crate::bytes::bytes16(16) + crate::bytes::bytes16(num_handles) + crate::bytes::bytes32(
        (IPCZ_HEADER_SIZE + payload_len) as u32,
    ) + crate::bytes::zeros(8)
}

/// Encode the channel header that frames a raw ipcz payload of `payload_len`
/// bytes. `num_handles` is the number of descriptors attached to the message.
pub fn encode_channel_header(payload_len: usize, num_handles: u16) -> (out: Vec<u8>)
    requires
        IPCZ_HEADER_SIZE + payload_len <= u32::MAX,
    ensures
        out@ == channel_header(payload_len as nat, num_handles),
{
    let mut out: Vec<u8> = Vec::with_capacity(IPCZ_HEADER_SIZE);
    push_u16(&mut out, 16);
    push_u16(&mut out, num_handles);
    push_u32(&mut out, (IPCZ_HEADER_SIZE + payload_len) as u32);
    push_zeros(&mut out, 8);
    assert(out@ =~= channel_header(payload_len as nat, num_handles));
    out
}

/// Encode a complete channel message: channel header and ipcz payload.
pub fn encode_channel_message(payload: &[u8], num_handles: u16) -> (out: Vec<u8>)
    requires
        IPCZ_HEADER_SIZE + payload@.len() <= u32::MAX,
    ensures
        out@ == channel_header(payload@.len(), num_handles) + payload@,
{
    let mut out = encode_channel_header(payload.len(), num_handles);
    push_bytes(&mut out, payload);
    out
}

/// `n` rounded up to a multiple of 8.
pub open spec fn aligned8(n: nat) -> nat {
    (n + 7) / 8 * 8
}

/// Round `n` up to a multiple of 8.
pub fn align8(n: usize) -> (r: usize)
    requires
        n + 7 <= usize::MAX,
    ensures
        r == aligned8(n as nat),
{
    (n + 7) / 8 * 8
}

/// A header of a size word and a second word, then `body`, zero-padded to a
/// multiple of 8 bytes.
pub open spec fn padded_block(second: u32, body: Seq<u8>) -> Seq<u8> {
    crate::bytes::bytes32(aligned8(8 + body.len()) as u32) + crate::bytes::bytes32(second) + body
        + crate::bytes::zeros((aligned8(8 + body.len()) - 8 - body.len()) as nat)
}

/// The driver object array entries for the data blocks `data`, whose first
/// block is placed at offset `off`: the block's offset, the index of the
/// object's descriptor and the descriptor count 1.
pub open spec fn driver_object_entries(data: Seq<Seq<u8>>, off: int, first: int) -> Seq<u8>
    decreases data.len(),
{
    if data.len() == 0 {
        Seq::empty()
    } else {
        crate::bytes::bytes32(off as u32) + crate::bytes::bytes16(first as u16)
            + crate::bytes::bytes16(1) + driver_object_entries(
            data.skip(1),
            off + aligned8(8 + data[0].len()),
            first + 1,
        )
    }
}

/// The data blocks of driver objects, one array after the other.
pub open spec fn driver_data_blocks(data: Seq<Seq<u8>>) -> Seq<u8>
    decreases data.len(),
{
    if data.len() == 0 {
        Seq::empty()
    } else {
        padded_block(data[0].len() as u32, data[0]) + driver_data_blocks(data.skip(1))
    }
}

/// The byte strings of a list.
pub open spec fn byte_views(v: Seq<Vec<u8>>) -> Seq<Seq<u8>> {
    v.map_values(|b: Vec<u8>| b@)
}

/// The length of a padded block is a multiple of 8.
pub proof fn lemma_padded_block_len(second: u32, body: Seq<u8>)
    ensures
        padded_block(second, body).len() == aligned8(8 + body.len()),
{
}

/// Each driver object entry takes 8 bytes.
pub proof fn lemma_driver_object_entries_len(data: Seq<Seq<u8>>, off: int, first: int)
    ensures
        driver_object_entries(data, off, first).len() == 8 * data.len(),
    decreases data.len(),
{
    if data.len() > 0 {
        lemma_driver_object_entries_len(
            data.skip(1),
            off + aligned8(8 + data[0].len()),
            first + 1,
        );
    }
}

fn driver_object_table(driver_data: &[Vec<u8>], start: usize) -> (objects: Vec<u8>)
    requires
        driver_data@.len() <= u16::MAX,
        start + driver_data_blocks(byte_views(driver_data@)).len() <= u32::MAX,
    ensures
        objects@ == driver_object_entries(byte_views(driver_data@), start as int, 0),
        objects@.len() == 8 * driver_data@.len(),
{
    let ghost data = byte_views(driver_data@);
    let ghost want = driver_object_entries(data, start as int, 0);
    let mut objects: Vec<u8> = Vec::new();
    let mut off: usize = start;
    let mut i: usize = 0;
    proof {
        assert(data.skip(0) =~= data);
        assert(objects@ + want =~= want);
    }
    while i < driver_data.len()
        invariant
            i <= driver_data@.len(),
            driver_data@.len() <= u16::MAX,
            data == byte_views(driver_data@),
            objects@ + driver_object_entries(data.skip(i as int), off as int, i as int) == want,
            off + driver_data_blocks(data.skip(i as int)).len() <= u32::MAX,
        decreases driver_data@.len() - i,
    {
        let ghost rest = data.skip(i as int);
        let ghost before = objects@;
        let ghost at = off as int;
        proof {
            assert(rest[0] == driver_data@[i as int]@);
            assert(rest.skip(1) =~= data.skip(i + 1));
            lemma_padded_block_len(rest[0].len() as u32, rest[0]);
        }
        push_u32(&mut objects, off as u32);
        push_u16(&mut objects, i as u16);
        push_u16(&mut objects, 1);
        off = off + align8(8 + driver_data[i].len());
        i = i + 1;
        proof {
            let tail = driver_object_entries(data.skip(i as int), off as int, i as int);
            assert(objects@ + tail =~= before + driver_object_entries(rest, at, i - 1));
        }
    }
    proof {
        assert(objects@ =~= want);
        lemma_driver_object_entries_len(data, start as int, 0);
    }
    objects
}

/// An ipcz message under construction: the message header, the parameters and
/// the arrays appended after them. Arrays are appended in allocation order and
/// 8-byte aligned.
#[derive(Debug)]
pub struct MessageBuilder {
    /// The message header.
    pub header: MessageHeader,
    /// All payload bytes after the message header.
    pub body: Vec<u8>,
}

/// The header of a message of the given id that nothing is appended to yet.
pub open spec fn new_header(message_id: u8) -> MessageHeader {
    MessageHeader {
        size: 24,
        version: 0,
        message_id,
        node_sequence_number: 0,
        driver_object_data_array: 0,
    }
}

/// Whether `b` is `a` with a parameter struct of the given fields appended.
pub open spec fn params_appended(a: MessageBuilder, fields: Seq<u8>, b: MessageBuilder) -> bool {
    &&& b.header == a.header
    &&& b.body@ == a.body@ + padded_block(0, fields)
}

/// The driver object array for objects of the given data, placed after a body of
/// `n` bytes and followed by the data.
pub open spec fn entries_block(data: Seq<Seq<u8>>, n: nat) -> Seq<u8> {
    padded_block(
        data.len() as u32,
        driver_object_entries(data, MESSAGE_HEADER_SIZE + n + 8 + 8 * data.len(), 0),
    )
}

proof fn lemma_entries_block_len(data: Seq<Seq<u8>>, n: nat)
    ensures
        entries_block(data, n).len() == 8 + 8 * data.len(),
{
    let entries = driver_object_entries(data, MESSAGE_HEADER_SIZE + n + 8 + 8 * data.len(), 0);
    lemma_driver_object_entries_len(data, MESSAGE_HEADER_SIZE + n + 8 + 8 * data.len(), 0);
    lemma_padded_block_len(data.len() as u32, entries);
}

/// Whether `b` is `a` with driver objects of the given data appended: the array
/// of entries, then the data of each object. No objects leave no trace.
pub open spec fn objects_appended(
    a: MessageBuilder,
    data: Seq<Seq<u8>>,
    b: MessageBuilder,
) -> bool {
    let base = MESSAGE_HEADER_SIZE + a.body@.len();
    if data.len() == 0 {
        b == a
    } else {
        &&& b.header == (MessageHeader { driver_object_data_array: base as u32, ..a.header })
        &&& b.body@ == a.body@ + entries_block(data, a.body@.len()) + driver_data_blocks(data)
    }
}

/// A message carries one attached handle for each of its driver objects: after
/// parameters and driver objects are appended to a new message, as many handles
/// are counted as objects were given, and there are driver objects if any were.
/// (The parameters fit a message whose offsets have 32 bits, and the objects
/// are few enough to be counted in 16.)
pub proof fn law_one_handle_per_driver_object(
    new: MessageBuilder,
    message_id: u8,
    fields: Seq<u8>,
    with_params: MessageBuilder,
    data: Seq<Seq<u8>>,
    built: MessageBuilder,
)
    requires
        new.header == new_header(message_id),
        new.body@ == Seq::<u8>::empty(),
        params_appended(new, fields, with_params),
        objects_appended(with_params, data, built),
        MESSAGE_HEADER_SIZE + with_params.body@.len() <= u32::MAX,
        data.len() <= u16::MAX,
    ensures
        built.spec_driver_object_count() == data.len(),
        built.spec_driver_object_count() as u16 == data.len(),
        (built.header.driver_object_data_array != 0) == (data.len() > 0),
        built.header.driver_object_data_array == 0 || built.header.driver_object_data_array
            >= MESSAGE_HEADER_SIZE,
{
    if data.len() > 0 {
        let before = with_params.body@;
        let block = entries_block(data, before.len());
        lemma_entries_block_len(data, before.len());
        assert(built.body@ == before + block + driver_data_blocks(data));
        let at = before.len() as int + 4;
        assert(built.body@.subrange(at, at + 4) =~= crate::bytes::bytes32(data.len() as u32));
        crate::bytes::lemma_le32_of_bytes(built.body@, at, data.len() as u32);
    }
}

impl MessageBuilder {
    /// Start a new message of the given id. The node sequence number is filled
    /// in at transmit time.
    pub fn new(message_id: u8) -> (b: MessageBuilder)
        ensures
            b.header == new_header(message_id),
            b.body@ == Seq::<u8>::empty(),
    {
        MessageBuilder {
            header: MessageHeader {
                size: 24,
                version: 0,
                message_id,
                node_sequence_number: 0,
                driver_object_data_array: 0,
            },
            body: Vec::new(),
        }
    }

    fn append_block(&mut self, second: u32, data: &[u8])
        requires
            aligned8(8 + data@.len()) <= u32::MAX,
        ensures
            final(self).header == old(self).header,
            final(self).body@ == old(self).body@ + padded_block(second, data@),
    {
        let padded: usize = align8(8 + data.len());
        push_u32(&mut self.body, padded as u32);
        push_u32(&mut self.body, second);
        push_bytes(&mut self.body, data);
        push_zeros(&mut self.body, padded - 8 - data.len());
        assert(self.body@ =~= old(self).body@ + padded_block(second, data@));
    }

    /// Append a parameter struct: a size word, a zero word and the raw field
    /// bytes, zero-padded to an 8-byte boundary.
    pub fn append_params(&mut self, fields: &[u8])
        requires
            aligned8(8 + fields@.len()) <= u32::MAX,
        ensures
            params_appended(*old(self), fields@, *final(self)),
    {
        self.append_block(0, fields);
    }

    /// Append an array with the given element bytes; returns its byte offset
    /// from the start of the message header. An empty array is not laid out and
    /// has offset 0.
    pub fn append_array(&mut self, elements: &[u8], num_elements: u32) -> (offset: u32)
        requires
            aligned8(8 + elements@.len()) <= u32::MAX,
            MESSAGE_HEADER_SIZE + old(self).body@.len() <= u32::MAX,
        ensures
            final(self).header == old(self).header,
            elements@.len() == 0 ==> offset == 0 && final(self).body@ == old(self).body@,
            elements@.len() > 0 ==> {
                &&& offset == MESSAGE_HEADER_SIZE + old(self).body@.len()
                &&& final(self).body@ == old(self).body@ + padded_block(num_elements, elements@)
            },
    {
        if elements.len() == 0 {
            return 0;
        }
        let offset: usize = self.payload_len();
        self.append_block(num_elements, elements);
        offset as u32
    }

    /// The current payload length, message header included.
    pub fn payload_len(&self) -> (n: usize)
        requires
            MESSAGE_HEADER_SIZE + self.body@.len() <= usize::MAX,
        ensures
            n == MESSAGE_HEADER_SIZE + self.body@.len(),
    {
        MESSAGE_HEADER_SIZE + self.body.len()
    }

    /// The offset of the driver object array from the start of the payload, or
    /// 0 if there is none.
    pub fn driver_object_data_array(&self) -> (r: u32)
        ensures
            r == self.header.driver_object_data_array,
    {
        self.header.driver_object_data_array
    }

    /// Whether any driver object data has been appended.
    pub fn has_driver_objects(&self) -> (r: bool)
        ensures
            r == (self.header.driver_object_data_array != 0),
    {
        self.header.driver_object_data_array != 0
    }

    fn append_driver_data(&mut self, driver_data: &[Vec<u8>])
        requires
            forall|i: int| 0 <= i < driver_data@.len() ==> (#[trigger] driver_data@[i])@.len() > 0,
            MESSAGE_HEADER_SIZE + old(self).body@.len() + driver_data_blocks(
                byte_views(driver_data@),
            ).len() <= u32::MAX,
        ensures
            final(self).header == old(self).header,
            final(self).body@ == old(self).body@ + driver_data_blocks(byte_views(driver_data@)),
    {
        let ghost data = byte_views(driver_data@);
        let ghost want = self.body@ + driver_data_blocks(data);
        assert(data.skip(0) =~= data);
        let mut j: usize = 0;
        while j < driver_data.len()
            invariant
                j <= driver_data@.len(),
                data == byte_views(driver_data@),
                forall|i: int|
                    0 <= i < driver_data@.len() ==> (#[trigger] driver_data@[i])@.len() > 0,
                self.header == old(self).header,
                self.body@ + driver_data_blocks(data.skip(j as int)) == want,
                MESSAGE_HEADER_SIZE + want.len() <= u32::MAX,
            decreases driver_data@.len() - j,
        {
            let ghost rest = data.skip(j as int);
            let ghost before = self.body@;
            proof {
                assert(rest[0] == driver_data@[j as int]@);
                assert(rest.skip(1) =~= data.skip(j + 1));
                lemma_padded_block_len(rest[0].len() as u32, rest[0]);
                assert((before + driver_data_blocks(rest)).len() == before.len()
                    + driver_data_blocks(rest).len());
            }
            self.append_array(driver_data[j].as_slice(), driver_data[j].len() as u32);
            j = j + 1;
            proof {
                let tail = driver_data_blocks(data.skip(j as int));
                assert(self.body@ + tail =~= before + driver_data_blocks(rest));
            }
        }
        assert(self.body@ =~= want);
    }

    fn append_driver_entries(&mut self, driver_data: &[Vec<u8>]) -> (offset: u32)
        requires
            0 < driver_data@.len() <= u16::MAX,
            MESSAGE_HEADER_SIZE + old(self).body@.len() + 8 + 8 * driver_data@.len()
                + driver_data_blocks(byte_views(driver_data@)).len() <= u32::MAX,
        ensures
            final(self).header == old(self).header,
            offset == MESSAGE_HEADER_SIZE + old(self).body@.len(),
            final(self).body@ == old(self).body@ + entries_block(
                byte_views(driver_data@),
                old(self).body@.len(),
            ),
    {
        let base: usize = self.payload_len();
        let start: usize = base + 8 + 8 * driver_data.len();
        let objects = driver_object_table(driver_data, start);
        assert(aligned8(8 + objects@.len()) == 8 + objects@.len());
        self.append_array(objects.as_slice(), driver_data.len() as u32)
    }

    /// Append the driver object array and the serialized data of each object.
    /// The array of entries comes before the data arrays of the objects; each
    /// object has one attached descriptor, in order.
    pub fn append_driver_objects(&mut self, driver_data: &[Vec<u8>])
        requires
            driver_data@.len() <= u16::MAX,
            forall|i: int| 0 <= i < driver_data@.len() ==> (#[trigger] driver_data@[i])@.len() > 0,
            driver_data@.len() > 0 ==> MESSAGE_HEADER_SIZE + old(self).body@.len() + 8 + 8
                * driver_data@.len() + driver_data_blocks(byte_views(driver_data@)).len()
                <= u32::MAX,
        ensures
            objects_appended(*old(self), byte_views(driver_data@), *final(self)),
    {
        if driver_data.len() == 0 {
            return ;
        }
        let ghost data = byte_views(driver_data@);
        let ghost body = self.body@;
        let arr_offset: u32 = self.append_driver_entries(driver_data);
        proof {
            lemma_entries_block_len(data, body.len());
            assert((body + entries_block(data, body.len())).len() == body.len() + 8 + 8
                * data.len());
        }
        self.append_driver_data(driver_data);
        self.header.driver_object_data_array = arr_offset;
    }

    /// The number of driver objects that the body records: the second word of
    /// the driver object array, or 0 where the array does not lie in the body.
    pub open spec fn spec_driver_object_count(&self) -> nat {
        let off = self.header.driver_object_data_array as int;
        if off < MESSAGE_HEADER_SIZE || off + 8 > MESSAGE_HEADER_SIZE + self.body@.len() {
            0
        } else {
            crate::bytes::le32(self.body@, off - MESSAGE_HEADER_SIZE + 4) as nat
        }
    }

    /// The number of descriptors to attach: one for each driver object.
    pub fn num_attached_handles(&self) -> (r: u16)
        requires
            MESSAGE_HEADER_SIZE + self.body@.len() <= usize::MAX,
            self.header.driver_object_data_array == 0 || self.header.driver_object_data_array
                >= MESSAGE_HEADER_SIZE,
        ensures
            r == self.spec_driver_object_count() as u16,
    {
        if self.has_driver_objects() {
            #[verifier::truncate]
            (self.driver_object_count() as u16)
        } else {
            0
        }
    }

    fn driver_object_count(&self) -> (r: usize)
        requires
            MESSAGE_HEADER_SIZE + self.body@.len() <= usize::MAX,
        ensures
            r == self.spec_driver_object_count(),
    {
        let off: usize = self.header.driver_object_data_array as usize;
        let len: usize = self.payload_len();
        if off < MESSAGE_HEADER_SIZE || off > len || len - off < 8 {
            return 0;
        }
        get_u32(self.body.as_slice(), off - MESSAGE_HEADER_SIZE + 4) as usize
    }

    /// Serialize to the full ipcz payload (header, parameters and arrays).
    pub fn build(&self) -> (out: Vec<u8>)
        ensures
            out@ == message_bytes(self.header, self.body@),
    {
        let mut out: Vec<u8> = Vec::new();
        out.push(self.header.size);
        out.push(self.header.version);
        out.push(self.header.message_id);
        push_zeros(&mut out, 5);
        push_u64(&mut out, self.header.node_sequence_number);
        push_u32(&mut out, self.header.driver_object_data_array);
        push_u32(&mut out, 0);
        push_bytes(&mut out, self.body.as_slice());
        reveal(message_bytes);
        assert(out@ =~= message_bytes(self.header, self.body@));
        out
    }
}

/// The bytes of a message: its header followed by `body`.
#[verifier::opaque]
pub open spec fn message_bytes(h: MessageHeader, body: Seq<u8>) -> Seq<u8> {
    seq![h.size, h.version, h.message_id] + crate::bytes::zeros(5) + crate::bytes::bytes64(
        h.node_sequence_number,
    ) + crate::bytes::bytes32(h.driver_object_data_array) + crate::bytes::bytes32(0) + body
}

/// The body of a message follows its 24 header bytes.
pub proof fn lemma_message_body(h: MessageHeader, body: Seq<u8>)
    ensures
        message_bytes(h, body).len() == MESSAGE_HEADER_SIZE + body.len(),
        message_bytes(h, body).subrange(
            MESSAGE_HEADER_SIZE as int,
            MESSAGE_HEADER_SIZE + body.len(),
        ) == body,
{
    reveal(message_bytes);
    assert(message_bytes(h, body).subrange(
        MESSAGE_HEADER_SIZE as int,
        MESSAGE_HEADER_SIZE + body.len(),
    ) =~= body);
}

/// Store `seq` as the node sequence number of an encoded message payload.
pub fn set_message_sequence_number(payload: &mut Vec<u8>, seq: u64)
    requires
        old(payload).len() >= 16,
    ensures
        final(payload)@ == crate::bytes::overwrite(old(payload)@, 8, crate::bytes::bytes64(seq)),
{
    put_u64(payload, 8, seq);
}

/// Parsing the framing of a payload gives back the payload and its handle
/// count, and consumes the whole of it.
pub proof fn law_channel_message_round_trip(payload: Seq<u8>, num_handles: u16, rest: Seq<u8>)
    requires
        IPCZ_HEADER_SIZE + payload.len() <= u32::MAX,
    ensures
        channel_message_at_start(channel_header(payload.len(), num_handles) + payload + rest) == Ok::<
            (ChannelMessageView, nat),
            WireError,
        >((ChannelMessageView { num_handles, payload }, (IPCZ_HEADER_SIZE + payload.len()) as nat)),
{
    let h = channel_header(payload.len(), num_handles);
    let s = h + payload + rest;
    let total = (IPCZ_HEADER_SIZE + payload.len()) as u32;
    assert(s.subrange(0, 2) =~= crate::bytes::bytes16(16));
    assert(s.subrange(2, 4) =~= crate::bytes::bytes16(num_handles));
    assert(s.subrange(4, 8) =~= crate::bytes::bytes32(total));
    crate::bytes::lemma_le16_of_bytes(s, 0, 16);
    crate::bytes::lemma_le16_of_bytes(s, 2, num_handles);
    crate::bytes::lemma_le32_of_bytes(s, 4, total);
    assert(s.subrange(16, total as int) =~= payload);
}

/// The framing of a list of messages, one after the other.
pub open spec fn framed(messages: Seq<ChannelMessageView>) -> Seq<u8>
    decreases messages.len(),
{
    if messages.len() == 0 {
        Seq::empty()
    } else {
        channel_header(messages[0].payload.len(), messages[0].num_handles) + messages[0].payload
            + framed(messages.skip(1))
    }
}

/// Parsing a stream of framed messages gives back the messages, in order.
pub proof fn law_stream_round_trip(messages: Seq<ChannelMessageView>)
    requires
        forall|i: int|
            0 <= i < messages.len() ==> IPCZ_HEADER_SIZE + (
            #[trigger] messages[i]).payload.len() <= u32::MAX,
    ensures
        messages_of_stream(framed(messages)) == Ok::<Seq<ChannelMessageView>, WireError>(messages),
    decreases messages.len(),
{
    if messages.len() > 0 {
        let m = messages[0];
        let tail = messages.skip(1);
        assert forall|i: int| 0 <= i < tail.len() implies IPCZ_HEADER_SIZE + (
        #[trigger] tail[i]).payload.len() <= u32::MAX by {
            assert(tail[i] == messages[i + 1]);
        }
        law_stream_round_trip(tail);
        law_channel_message_round_trip(m.payload, m.num_handles, framed(tail));
        let s = framed(messages);
        let n = IPCZ_HEADER_SIZE + m.payload.len();
        assert(s.subrange(n as int, s.len() as int) =~= framed(tail));
        assert(seq![m] + tail =~= messages);
    } else {
        assert(messages =~= Seq::<ChannelMessageView>::empty());
    }
}

/// The header that a message is built with is the header that is parsed from
/// it, whatever follows.
pub proof fn law_message_header_round_trip(h: MessageHeader, body: Seq<u8>)
    requires
        h.size == MESSAGE_HEADER_SIZE,
    ensures
        message_header_of(message_bytes(h, body)) == Ok::<MessageHeader, WireError>(h),
{
    reveal(message_bytes);
    let s = message_bytes(h, body);
    assert(s.subrange(8, 16) =~= crate::bytes::bytes64(h.node_sequence_number));
    assert(s.subrange(16, 20) =~= crate::bytes::bytes32(h.driver_object_data_array));
    crate::bytes::lemma_le64_of_bytes(s, 8, h.node_sequence_number);
    crate::bytes::lemma_le32_of_bytes(s, 16, h.driver_object_data_array);
}

/// Storing a sequence number in a built message changes that field of its
/// header and nothing else.
pub proof fn law_sequence_number_is_header_field(h: MessageHeader, body: Seq<u8>, seq: u64)
    ensures
        crate::bytes::overwrite(message_bytes(h, body), 8, crate::bytes::bytes64(seq))
            == message_bytes(MessageHeader { node_sequence_number: seq, ..h }, body),
{
    reveal(message_bytes);
    assert(crate::bytes::overwrite(message_bytes(h, body), 8, crate::bytes::bytes64(seq))
        =~= message_bytes(MessageHeader { node_sequence_number: seq, ..h }, body));
}

/// The number that four bytes at an offset stand for, the lowest first.
pub open spec fn number_at(s: Seq<u8>, o: int) -> int {
    s[o] + 256 * s[o + 1] + 65536 * s[o + 2] + 16777216 * s[o + 3]
}

/// A message is taken from a stream exactly if its header says that it is 16
/// bytes long and the stream has all bytes that it says the message has. It is
/// then those bytes, without the header; what follows makes no difference, and
/// with any byte less there is no message.
pub proof fn law_whole_messages_are_taken(stream: Seq<u8>, more: Seq<u8>, k: int)
    ensures
        ({
            let r = channel_message_at_start(stream);
            let n = number_at(stream, 4);
            &&& r is Ok <==> stream.len() >= 16 && stream[0] == 16 && stream[1] == 0 && 16 <= n
                <= stream.len()
            &&& r matches Ok((m, used)) ==> {
                &&& used == n
                &&& m.num_handles == stream[2] + 256 * stream[3]
                &&& m.payload == stream.subrange(16, n)
                &&& channel_message_at_start(stream + more) == r
                &&& 0 <= k < n ==> channel_message_at_start(stream.take(k)) is Err
            }
        }),
{
    let r = channel_message_at_start(stream);
    let n = number_at(stream, 4);
    if r is Ok {
        assert((stream + more).subrange(16, n) =~= stream.subrange(16, n));
        if 16 <= k < n {
            let t = stream.take(k);
            assert(t[0] == stream[0] && t[1] == stream[1]);
            assert(t[4] == stream[4] && t[5] == stream[5] && t[6] == stream[6] && t[7] == stream[7]);
        }
    }
}

/// A message header is read exactly if there are 24 bytes and the first says so.
pub proof fn law_header_is_read(payload: Seq<u8>)
    ensures
        message_header_of(payload) is Ok <==> payload.len() >= 24 && payload[0] == 24,
        message_header_of(payload) matches Ok(h) ==> {
            &&& h.message_id == payload[2]
            &&& h.version == payload[1]
            &&& h.driver_object_data_array == number_at(payload, 16)
            &&& h.node_sequence_number == number_at(payload, 8) + 0x1_0000_0000 * number_at(
                payload,
                12,
            )
        },
{
}

} // verus!
