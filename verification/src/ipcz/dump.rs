//! Readable text of captured messages.

use vstd::prelude::*;
#[allow(unused_imports)]
use vstd::utf8::{decode_utf8, valid_utf8};
use vstd::string::StringExecFns;

#[allow(unused_imports)]
use crate::digest::hex_digit;
#[allow(unused_imports)]
use crate::ipcz::messages::{decoded, AcceptParcelView, DecodedView, DriverObjectView};
use crate::ipcz::messages::{
    decode_message, AcceptParcel, DecodedMessage, DriverObjectRef, FragmentDescriptor, NodeName,
};
use crate::ipcz::node::{RouterDescriptor, ROUTER_DESCRIPTOR_SIZE};
#[allow(unused_imports)]
use crate::ipcz::wire::{
    message_header_of, messages_of_stream, message_views, ChannelMessageView, MessageHeader,
};
use crate::ipcz::wire::{parse_message_header, parse_stream, ChannelMessage, WireError};
#[allow(unused_imports)]
use crate::text::{decimal, texts};
use crate::text::{decimal_text, joined, labelled};

verus! {

/// What bytes read like as text, with a replacement character for each sequence
/// that is not valid.
pub uninterp spec fn lossy(bytes: Seq<u8>) -> Seq<char>;

/// A text in quotation marks, with its special characters escaped.
pub uninterp spec fn quoted(text: Seq<char>) -> Seq<char>;

/// Read bytes as text with `String::from_utf8_lossy`. The text is a function of
/// the bytes alone; valid bytes are read as they stand. Which sequences of other
/// bytes one replacement character stands for is left unsaid.
#[verifier::external_body]
fn read_lossy(bytes: &[u8]) -> (r: String)
    ensures
        r@ == lossy(bytes@),
        valid_utf8(bytes@) ==> r@ == decode_utf8(bytes@),
{
    String::from_utf8_lossy(bytes).into_owned()
}

/// Write a text as `core::fmt::Debug` writes a `str`. The result is a function of
/// the text alone; which characters are escaped is left unsaid.
#[verifier::external_body]
fn quote(text: &str) -> (r: String)
    ensures
        r@ == quoted(text@),
{
    format!("{:?}", text)
}

/// The last `width` hexadecimal digits of `n`.
pub open spec fn hex_digits(n: nat, width: nat) -> Seq<char>
    decreases width,
{
    if width == 0 {
        Seq::empty()
    } else {
        hex_digits(n / 16, (width - 1) as nat).push(hex_digit((n % 16) as int))
    }
}

fn hex_digit_str(d: u64) -> (r: &'static str)
    requires
        d < 16,
    ensures
        r@ == seq![hex_digit(d as int)],
{
    proof {
        reveal_strlit("0");
        reveal_strlit("1");
        reveal_strlit("2");
        reveal_strlit("3");
        reveal_strlit("4");
        reveal_strlit("5");
        reveal_strlit("6");
        reveal_strlit("7");
        reveal_strlit("8");
        reveal_strlit("9");
        reveal_strlit("a");
        reveal_strlit("b");
        reveal_strlit("c");
        reveal_strlit("d");
        reveal_strlit("e");
        reveal_strlit("f");
    }
    let r = match d {
        0 => "0",
        1 => "1",
        2 => "2",
        3 => "3",
        4 => "4",
        5 => "5",
        6 => "6",
        7 => "7",
        8 => "8",
        9 => "9",
        10 => "a",
        11 => "b",
        12 => "c",
        13 => "d",
        14 => "e",
        _ => "f",
    };
    assert(r@ =~= seq![hex_digit(d as int)]);
    r
}

fn hex_digits_text(n: u64, width: u64) -> (r: String)
    ensures
        r@ == hex_digits(n as nat, width as nat),
    decreases width,
{
    if width == 0 {
        let r = "".to_owned();
        proof {
            reveal_strlit("");
        }
        assert(r@ =~= hex_digits(n as nat, 0));
        r
    } else {
        let mut s: String = hex_digits_text(n / 16, width - 1);
        s.append(hex_digit_str(n % 16));
        assert(s@ =~= hex_digits(n as nat, width as nat));
        s
    }
}

/// The text of a node name: its 32 hexadecimal digits, if it is valid.
pub open spec fn name_text(n: NodeName) -> Seq<char> {
    if n.spec_is_valid() {
        hex_digits(n.high as nat, 16) + hex_digits(n.low as nat, 16)
    } else {
        "invalid"@
    }
}

/// The text of a node name.
pub fn nn(n: &NodeName) -> (r: String)
    ensures
        r@ == name_text(*n),
{
    if n.is_valid() {
        joined(hex_digits_text(n.high, 16).as_str(), hex_digits_text(n.low, 16).as_str())
    } else {
        "invalid".to_owned()
    }
}

/// The text of a truth value.
pub open spec fn truth_text(b: bool) -> Seq<char> {
    if b {
        "true"@
    } else {
        "false"@
    }
}

fn truth_str(b: bool) -> (r: &'static str)
    ensures
        r@ == truth_text(b),
{
    if b {
        "true"
    } else {
        "false"
    }
}

/// Texts one after the other, with a comma and a space between any two.
pub open spec fn listed(items: Seq<Seq<char>>) -> Seq<char>
    decreases items.len(),
{
    if items.len() == 0 {
        Seq::empty()
    } else if items.len() == 1 {
        items[0]
    } else {
        listed(items.drop_last()) + ", "@ + items.last()
    }
}

fn list(items: &Vec<String>) -> (r: String)
    ensures
        r@ == listed(texts(items@)),
{
    let mut s: String = "".to_owned();
    let mut i: usize = 0;
    proof {
        reveal_strlit("");
        assert(texts(items@).take(0) =~= Seq::empty());
        assert(s@ =~= Seq::empty());
    }
    while i < items.len()
        invariant
            i <= items@.len(),
            s@ == listed(texts(items@).take(i as int)),
        decreases items@.len() - i,
    {
        if i > 0 {
            s.append(", ");
        }
        s.append(items[i].as_str());
        proof {
            let all = texts(items@);
            assert(all.take(i + 1).drop_last() =~= all.take(i as int));
            assert(all.take(i + 1).last() == items@[i as int]@);
            if i == 0 {
                assert(s@ =~= all[0]);
            }
        }
        i = i + 1;
    }
    assert(texts(items@).take(items@.len() as int) =~= texts(items@));
    s
}

fn add_text(items: &mut Vec<String>, text: String)
    ensures
        texts(final(items)@) == texts(old(items)@).push(text@),
{
    items.push(text);
    assert(texts(items@) =~= texts(old(items)@).push(text@));
}

/// The text of a fragment descriptor.
pub open spec fn fragment_text(f: FragmentDescriptor) -> Seq<char> {
    "FragmentDescriptor { buffer_id: "@ + decimal(f.buffer_id as nat) + ", offset: "@ + decimal(
        f.offset as nat,
    ) + ", size: "@ + decimal(f.size as nat) + " }"@
}

fn show_fragment(f: &FragmentDescriptor) -> (r: String)
    ensures
        r@ == fragment_text(*f),
{
    let mut s: String = labelled("FragmentDescriptor { buffer_id: ", f.buffer_id);
    s.append(", offset: ");
    s.append(decimal_text(f.offset as u64).as_str());
    s.append(", size: ");
    s.append(decimal_text(f.size as u64).as_str());
    s.append(" }");
    s
}

/// The text of a list of bytes.
pub open spec fn bytes_text(v: Seq<u8>) -> Seq<char> {
    "["@ + listed(v.map_values(|b: u8| decimal(b as nat))) + "]"@
}

fn show_bytes(v: &Vec<u8>) -> (r: String)
    ensures
        r@ == bytes_text(v@),
{
    let mut items: Vec<String> = Vec::new();
    let mut i: usize = 0;
    while i < v.len()
        invariant
            i <= v@.len(),
            texts(items@) == v@.take(i as int).map_values(|b: u8| decimal(b as nat)),
        decreases v@.len() - i,
    {
        add_text(&mut items, decimal_text(v[i] as u64));
        i = i + 1;
        assert(texts(items@) =~= v@.take(i as int).map_values(|b: u8| decimal(b as nat)));
    }
    assert(v@.take(v@.len() as int) =~= v@);
    let mut s: String = joined("[", list(&items).as_str());
    s.append("]");
    s
}

/// The text of a list of numbers.
pub open spec fn words_text(v: Seq<u32>) -> Seq<char> {
    "["@ + listed(v.map_values(|w: u32| decimal(w as nat))) + "]"@
}

fn show_words(v: &Vec<u32>) -> (r: String)
    ensures
        r@ == words_text(v@),
{
    let mut items: Vec<String> = Vec::new();
    let mut i: usize = 0;
    while i < v.len()
        invariant
            i <= v@.len(),
            texts(items@) == v@.take(i as int).map_values(|w: u32| decimal(w as nat)),
        decreases v@.len() - i,
    {
        add_text(&mut items, decimal_text(v[i] as u64));
        i = i + 1;
        assert(texts(items@) =~= v@.take(i as int).map_values(|w: u32| decimal(w as nat)));
    }
    assert(v@.take(v@.len() as int) =~= v@);
    let mut s: String = joined("[", list(&items).as_str());
    s.append("]");
    s
}

/// The text of a driver object.
pub open spec fn object_text(o: DriverObjectView) -> Seq<char> {
    "DriverObjectRef { data: "@ + bytes_text(o.data) + ", first_fd: "@ + decimal(o.first_fd)
        + ", num_fds: "@ + decimal(o.num_fds) + " }"@
}

fn show_object(o: &DriverObjectRef) -> (r: String)
    ensures
        r@ == object_text(o@),
{
    let mut s: String = joined("DriverObjectRef { data: ", show_bytes(&o.data).as_str());
    s.append(", first_fd: ");
    s.append(decimal_text(o.first_fd as u64).as_str());
    s.append(", num_fds: ");
    s.append(decimal_text(o.num_fds as u64).as_str());
    s.append(" }");
    s
}

/// The text of a list of driver objects.
pub open spec fn objects_text(v: Seq<DriverObjectView>) -> Seq<char> {
    "["@ + listed(v.map_values(|o: DriverObjectView| object_text(o))) + "]"@
}

fn show_objects(v: &Vec<DriverObjectRef>) -> (r: String)
    ensures
        r@ == objects_text(crate::ipcz::messages::object_views(v@)),
{
    let ghost all = crate::ipcz::messages::object_views(v@);
    let mut items: Vec<String> = Vec::new();
    let mut i: usize = 0;
    while i < v.len()
        invariant
            i <= v@.len(),
            all == crate::ipcz::messages::object_views(v@),
            texts(items@) == all.take(i as int).map_values(|o: DriverObjectView| object_text(o)),
        decreases v@.len() - i,
    {
        add_text(&mut items, show_object(&v[i]));
        i = i + 1;
        assert(texts(items@) =~= all.take(i as int).map_values(
            |o: DriverObjectView| object_text(o),
        ));
    }
    assert(all.take(v@.len() as int) =~= all);
    let mut s: String = joined("[", list(&items).as_str());
    s.append("]");
    s
}

/// The text of a router descriptor.
pub open spec fn descriptor_text(d: RouterDescriptor) -> Seq<char> {
    "{new="@ + decimal(d.new_sublink as nat) + " decaying="@ + decimal(
        d.new_decaying_sublink as nat,
    ) + " next_o="@ + decimal(d.next_outgoing_sequence_number as nat) + " next_i="@ + decimal(
        d.next_incoming_sequence_number as nat,
    ) + " din="@ + decimal(d.decaying_incoming_sequence_length as nat) + " peer_closed="@
        + truth_text(d.peer_closed) + " pab="@ + truth_text(d.proxy_already_bypassed)
        + " proxy_node="@ + name_text(d.proxy_peer_node_name) + " proxy_sub="@ + decimal(
        d.proxy_peer_sublink as nat,
    ) + "}"@
}

fn show_descriptor(d: &RouterDescriptor) -> (r: String)
    ensures
        r@ == descriptor_text(*d),
{
    let mut s: String = labelled("{new=", d.new_sublink);
    s.append(" decaying=");
    s.append(decimal_text(d.new_decaying_sublink).as_str());
    s.append(" next_o=");
    s.append(decimal_text(d.next_outgoing_sequence_number).as_str());
    s.append(" next_i=");
    s.append(decimal_text(d.next_incoming_sequence_number).as_str());
    s.append(" din=");
    s.append(decimal_text(d.decaying_incoming_sequence_length).as_str());
    s.append(" peer_closed=");
    s.append(truth_str(d.peer_closed));
    s.append(" pab=");
    s.append(truth_str(d.proxy_already_bypassed));
    s.append(" proxy_node=");
    s.append(nn(&d.proxy_peer_node_name).as_str());
    s.append(" proxy_sub=");
    s.append(decimal_text(d.proxy_peer_sublink).as_str());
    s.append("}");
    s
}

/// The texts of the descriptors in `len` bytes: one for each descriptor, and one
/// for a part that is left over. `routers` is what the descriptors decode to, as
/// far as that is known.
pub open spec fn descriptor_items(
    len: nat,
    routers: Seq<Result<RouterDescriptor, WireError>>,
) -> Seq<Seq<char>> {
    let size = ROUTER_DESCRIPTOR_SIZE as nat;
    let whole = len / size;
    Seq::new(
        if len % size == 0 {
            whole
        } else {
            whole + 1
        },
        |i: int|
            if i >= whole {
                "<truncated>"@
            } else if i < routers.len() {
                match routers[i] {
                    Ok(d) => descriptor_text(d),
                    Err(e) => "<decode err "@ + e.spec_text() + ">"@,
                }
            } else {
                "<decode err>"@
            },
    )
}

/// The text of the descriptors in `len` bytes.
pub open spec fn descriptors_text(
    len: nat,
    routers: Seq<Result<RouterDescriptor, WireError>>,
) -> Seq<char> {
    if len == 0 {
        "none"@
    } else {
        listed(descriptor_items(len, routers))
    }
}

/// The text of the serialized descriptors of a parcel. `routers` is what they
/// decode to, as far as that is known.
pub fn dump_descriptors(
    bytes: &[u8],
    routers: &Vec<Result<RouterDescriptor, WireError>>,
) -> (r: String)
    ensures
        r@ == descriptors_text(bytes@.len(), routers@),
{
    if bytes.len() == 0 {
        return "none".to_owned();
    }
    let whole: usize = bytes.len() / ROUTER_DESCRIPTOR_SIZE;
    let count: usize = if bytes.len() % ROUTER_DESCRIPTOR_SIZE == 0 {
        whole
    } else {
        whole + 1
    };
    let ghost all = descriptor_items(bytes@.len(), routers@);
    let mut items: Vec<String> = Vec::new();
    let mut i: usize = 0;
    while i < count
        invariant
            i <= count == all.len(),
            whole == bytes@.len() / (ROUTER_DESCRIPTOR_SIZE as nat),
            all == descriptor_items(bytes@.len(), routers@),
            texts(items@) == all.take(i as int),
        decreases count - i,
    {
        if i >= whole {
            add_text(&mut items, "<truncated>".to_owned());
        } else if i < routers.len() {
            match &routers[i] {
                Ok(d) => add_text(&mut items, show_descriptor(d)),
                Err(e) => {
                    let head = joined("<decode err ", e.text().as_str());
                    add_text(&mut items, joined(head.as_str(), ">"))
                },
            }
        } else {
            add_text(&mut items, "<decode err>".to_owned());
        }
        i = i + 1;
        assert(texts(items@) =~= all.take(i as int));
    }
    assert(all.take(all.len() as int) =~= all);
    list(&items)
}

/// A message that can be described.
pub enum ShownMessage {
    /// A message that was decoded from its bytes.
    Decoded(DecodedMessage),
    /// The peer is to bypass a node.
    BypassPeer {
        /// The sublink.
        sublink: u64,
        /// The node to connect to.
        target_node: NodeName,
        /// The sublink there.
        target_sublink: u64,
    },
    /// The peer of a proxy is to accept a new link.
    AcceptBypassLink {
        /// The node of the proxy.
        current_peer_node: NodeName,
        /// The sublink of the link to the proxy.
        current_peer_sublink: u64,
        /// The number of parcels sent on the old link.
        inbound_sequence_length: u64,
        /// The sublink of the new link.
        new_sublink: u64,
        /// The state of the new link.
        link_state: FragmentDescriptor,
    },
    /// A proxy is about to stop.
    ProxyWillStop {
        /// The sublink.
        sublink: u64,
        /// The number of parcels that come through the proxy.
        inbound_sequence_length: u64,
    },
    /// A proxy is to stop.
    StopProxying {
        /// The sublink.
        sublink: u64,
        /// The number of parcels it forwards inward.
        inbound_sequence_length: u64,
        /// The number of parcels it forwards outward.
        outbound_sequence_length: u64,
    },
}

/// The description of a parcel, where `data` is the text of its data.
pub open spec fn parcel_text(
    p: AcceptParcelView,
    routers: Seq<Result<RouterDescriptor, WireError>>,
    data: Seq<char>,
) -> Seq<char> {
    "sub="@ + decimal(p.sublink as nat) + " rseq="@ + decimal(p.sequence_number as nat)
        + " subparcel="@ + decimal(p.subparcel_index as nat) + "/"@ + decimal(
        p.num_subparcels as nat,
    ) + " frag="@ + fragment_text(p.parcel_fragment) + " data="@ + data + " handle_types="@
        + words_text(p.handle_types) + " new_routers=["@ + descriptors_text(
        p.new_routers.len(),
        routers,
    ) + "] driver_objects="@ + objects_text(p.driver_objects)
}

fn show_parcel(
    p: &AcceptParcel,
    routers: &Vec<Result<RouterDescriptor, WireError>>,
    data: &str,
) -> (r: String)
    ensures
        r@ == parcel_text(p@, routers@, data@),
{
    let mut s: String = labelled("sub=", p.sublink);
    s.append(" rseq=");
    s.append(decimal_text(p.sequence_number).as_str());
    s.append(" subparcel=");
    s.append(decimal_text(p.subparcel_index as u64).as_str());
    s.append("/");
    s.append(decimal_text(p.num_subparcels as u64).as_str());
    s.append(" frag=");
    s.append(show_fragment(&p.parcel_fragment).as_str());
    s.append(" data=");
    s.append(data);
    s.append(" handle_types=");
    s.append(show_words(&p.handle_types).as_str());
    s.append(" new_routers=[");
    s.append(dump_descriptors(p.new_routers.as_slice(), routers).as_str());
    s.append("] driver_objects=");
    s.append(show_objects(&p.driver_objects).as_str());
    s
}

/// The description of a decoded message. The routers of a parcel are described
/// as far as they are given; `data` is the text of its data.
pub open spec fn decoded_text(
    d: DecodedView,
    routers: Seq<Result<RouterDescriptor, WireError>>,
    data: Seq<char>,
) -> Seq<char> {
    match d {
        DecodedView::ConnectFromBrokerToNonBroker(c) => "broker="@ + name_text(c.broker_name)
            + " receiver="@ + name_text(c.receiver_name) + " protocol="@ + decimal(
            c.protocol_version as nat,
        ) + " num_initial_portals="@ + decimal(c.num_initial_portals as nat) + " buffer_index="@
            + decimal(c.buffer_index as nat),
        DecodedView::ConnectFromNonBrokerToBroker(c) => "protocol="@ + decimal(
            c.protocol_version as nat,
        ) + " num_initial_portals="@ + decimal(c.num_initial_portals as nat),
        DecodedView::AddBlockBuffer(b) => "buffer_id="@ + decimal(b.buffer_id as nat)
            + " buffer_index="@ + decimal(b.buffer_index as nat) + " block_size="@ + decimal(
            b.block_size as nat,
        ),
        DecodedView::AcceptParcel(p) => parcel_text(p, routers, data),
        DecodedView::AcceptParcelDriverObjects(_) => "driver objects"@,
        DecodedView::BypassPeerWithLink(b) => "sub="@ + decimal(b.sublink as nat)
            + " new_sublink="@ + decimal(b.new_sublink as nat) + " frag="@ + fragment_text(
            b.new_link_state_fragment,
        ) + " inbound_len="@ + decimal(b.inbound_sequence_length as nat),
        DecodedView::RouteClosed(x) => "sub="@ + decimal(x.sublink as nat) + " len="@ + decimal(
            x.sequence_length as nat,
        ),
        DecodedView::RouteDisconnected(x) => "sub="@ + decimal(x.sublink as nat),
        DecodedView::StopProxyingToLocalPeer(x) => "sub="@ + decimal(x.sublink as nat)
            + " out_len="@ + decimal(x.outbound_sequence_length as nat),
        DecodedView::FlushRouter(x) => "sub="@ + decimal(x.sublink as nat),
        DecodedView::RequestMemory(x) => "size="@ + decimal(x.size as nat),
        DecodedView::ProvideMemory(x) => "size="@ + decimal(x.size as nat),
        DecodedView::Unknown(id) => "unknown id="@ + decimal(id as nat),
    }
}

fn show_decoded(
    d: &DecodedMessage,
    routers: &Vec<Result<RouterDescriptor, WireError>>,
    data: &str,
) -> (r: String)
    ensures
        r@ == decoded_text(d@, routers@, data@),
{
    match d {
        DecodedMessage::ConnectFromBrokerToNonBroker(c) => {
            let mut s: String = joined("broker=", nn(&c.broker_name).as_str());
            s.append(" receiver=");
            s.append(nn(&c.receiver_name).as_str());
            s.append(" protocol=");
            s.append(decimal_text(c.protocol_version as u64).as_str());
            s.append(" num_initial_portals=");
            s.append(decimal_text(c.num_initial_portals as u64).as_str());
            s.append(" buffer_index=");
            s.append(decimal_text(c.buffer_index as u64).as_str());
            s
        },
        DecodedMessage::ConnectFromNonBrokerToBroker(c) => {
            let mut s: String = labelled("protocol=", c.protocol_version as u64);
            s.append(" num_initial_portals=");
            s.append(decimal_text(c.num_initial_portals as u64).as_str());
            s
        },
        DecodedMessage::AddBlockBuffer(b) => {
            let mut s: String = labelled("buffer_id=", b.buffer_id);
            s.append(" buffer_index=");
            s.append(decimal_text(b.buffer_index as u64).as_str());
            s.append(" block_size=");
            s.append(decimal_text(b.block_size as u64).as_str());
            s
        },
        DecodedMessage::AcceptParcel(p) => show_parcel(p, routers, data),
        DecodedMessage::AcceptParcelDriverObjects(_) => "driver objects".to_owned(),
        DecodedMessage::BypassPeerWithLink(b) => {
            let mut s: String = labelled("sub=", b.sublink);
            s.append(" new_sublink=");
            s.append(decimal_text(b.new_sublink).as_str());
            s.append(" frag=");
            s.append(show_fragment(&b.new_link_state_fragment).as_str());
            s.append(" inbound_len=");
            s.append(decimal_text(b.inbound_sequence_length).as_str());
            s
        },
        DecodedMessage::RouteClosed(x) => {
            let mut s: String = labelled("sub=", x.sublink);
            s.append(" len=");
            s.append(decimal_text(x.sequence_length).as_str());
            s
        },
        DecodedMessage::RouteDisconnected(x) => labelled("sub=", x.sublink),
        DecodedMessage::StopProxyingToLocalPeer(x) => {
            let mut s: String = labelled("sub=", x.sublink);
            s.append(" out_len=");
            s.append(decimal_text(x.outbound_sequence_length).as_str());
            s
        },
        DecodedMessage::FlushRouter(x) => labelled("sub=", x.sublink),
        DecodedMessage::RequestMemory(x) => labelled("size=", x.size as u64),
        DecodedMessage::ProvideMemory(x) => labelled("size=", x.size as u64),
        DecodedMessage::Unknown(id) => labelled("unknown id=", *id as u64),
    }
}

/// The description of a message.
pub open spec fn shown_text(
    m: ShownMessage,
    routers: Seq<Result<RouterDescriptor, WireError>>,
    data: Seq<char>,
) -> Seq<char> {
    match m {
        ShownMessage::Decoded(d) => decoded_text(d@, routers, data),
        ShownMessage::BypassPeer { sublink, target_node, target_sublink } => "sub="@ + decimal(
            sublink as nat,
        ) + " target_node="@ + name_text(target_node) + " target_sublink="@ + decimal(
            target_sublink as nat,
        ),
        ShownMessage::AcceptBypassLink {
            current_peer_node,
            current_peer_sublink,
            inbound_sequence_length,
            new_sublink,
            link_state,
        } => "current_peer_node="@ + name_text(current_peer_node) + " current_peer_sublink="@
            + decimal(current_peer_sublink as nat) + " inbound_len="@ + decimal(
            inbound_sequence_length as nat,
        ) + " new_sublink="@ + decimal(new_sublink as nat) + " frag="@ + fragment_text(link_state),
        ShownMessage::ProxyWillStop { sublink, inbound_sequence_length } => "sub="@ + decimal(
            sublink as nat,
        ) + " inbound_len="@ + decimal(inbound_sequence_length as nat),
        ShownMessage::StopProxying {
            sublink,
            inbound_sequence_length,
            outbound_sequence_length,
        } => "sub="@ + decimal(sublink as nat) + " in_len="@ + decimal(
            inbound_sequence_length as nat,
        ) + " out_len="@ + decimal(outbound_sequence_length as nat),
    }
}

/// Describe a message. The routers of a parcel are described as far as they are
/// given; `data` is the text of its data.
pub fn describe(
    m: &ShownMessage,
    routers: &Vec<Result<RouterDescriptor, WireError>>,
    data: &str,
) -> (r: String)
    ensures
        r@ == shown_text(*m, routers@, data@),
{
    match m {
        ShownMessage::Decoded(d) => show_decoded(d, routers, data),
        ShownMessage::BypassPeer { sublink, target_node, target_sublink } => {
            let mut s: String = labelled("sub=", *sublink);
            s.append(" target_node=");
            s.append(nn(target_node).as_str());
            s.append(" target_sublink=");
            s.append(decimal_text(*target_sublink).as_str());
            s
        },
        ShownMessage::AcceptBypassLink {
            current_peer_node,
            current_peer_sublink,
            inbound_sequence_length,
            new_sublink,
            link_state,
        } => {
            let mut s: String = joined("current_peer_node=", nn(current_peer_node).as_str());
            s.append(" current_peer_sublink=");
            s.append(decimal_text(*current_peer_sublink).as_str());
            s.append(" inbound_len=");
            s.append(decimal_text(*inbound_sequence_length).as_str());
            s.append(" new_sublink=");
            s.append(decimal_text(*new_sublink).as_str());
            s.append(" frag=");
            s.append(show_fragment(link_state).as_str());
            s
        },
        ShownMessage::ProxyWillStop { sublink, inbound_sequence_length } => {
            let mut s: String = labelled("sub=", *sublink);
            s.append(" inbound_len=");
            s.append(decimal_text(*inbound_sequence_length).as_str());
            s
        },
        ShownMessage::StopProxying {
            sublink,
            inbound_sequence_length,
            outbound_sequence_length,
        } => {
            let mut s: String = labelled("sub=", *sublink);
            s.append(" in_len=");
            s.append(decimal_text(*inbound_sequence_length).as_str());
            s.append(" out_len=");
            s.append(decimal_text(*outbound_sequence_length).as_str());
            s
        },
    }
}

/// The short name of a type of message.
pub open spec fn short_name(id: u8) -> Seq<char> {
    if id == 0 {
        "Connect"@
    } else if id == 1 {
        "ConnectReply"@
    } else if id == 14 {
        "AddBlockBuffer"@
    } else if id == 20 {
        "AcceptParcel"@
    } else if id == 21 {
        "AcceptParcelDriverObjects"@
    } else if id == 22 {
        "RouteClosed"@
    } else if id == 23 {
        "RouteDisconnected"@
    } else if id == 30 {
        "BypassPeer"@
    } else if id == 31 {
        "AcceptBypassLink"@
    } else if id == 32 {
        "StopProxying"@
    } else if id == 33 {
        "ProxyWillStop"@
    } else if id == 35 {
        "StopProxyingToLocalPeer"@
    } else if id == 36 {
        "FlushRouter"@
    } else if id == 64 {
        "RequestMemory"@
    } else if id == 65 {
        "ProvideMemory"@
    } else {
        "?"@
    }
}

fn short_name_text(id: u8) -> (r: &'static str)
    ensures
        r@ == short_name(id),
{
    match id {
        0 => "Connect",
        1 => "ConnectReply",
        14 => "AddBlockBuffer",
        20 => "AcceptParcel",
        21 => "AcceptParcelDriverObjects",
        22 => "RouteClosed",
        23 => "RouteDisconnected",
        30 => "BypassPeer",
        31 => "AcceptBypassLink",
        32 => "StopProxying",
        33 => "ProxyWillStop",
        35 => "StopProxyingToLocalPeer",
        36 => "FlushRouter",
        64 => "RequestMemory",
        65 => "ProvideMemory",
        _ => "?",
    }
}

/// The line of message `i` of a capture, whose description is `detail`.
pub open spec fn line_text(
    i: nat,
    header: MessageHeader,
    handles: u16,
    detail: Seq<char>,
) -> Seq<char> {
    "["@ + decimal(i) + "] seq="@ + decimal(header.node_sequence_number as nat) + " id="@ + decimal(
        header.message_id as nat,
    ) + " ("@ + short_name(header.message_id) + ") handles="@ + decimal(handles as nat) + " "@
        + detail
}

fn show_line(i: u64, header: &MessageHeader, handles: u16, detail: &str) -> (r: String)
    ensures
        r@ == line_text(i as nat, *header, handles, detail@),
{
    let mut s: String = labelled("[", i);
    s.append("] seq=");
    s.append(decimal_text(header.node_sequence_number).as_str());
    s.append(" id=");
    s.append(decimal_text(header.message_id as u64).as_str());
    s.append(" (");
    s.append(short_name_text(header.message_id));
    s.append(") handles=");
    s.append(decimal_text(handles as u64).as_str());
    s.append(" ");
    s.append(detail);
    s
}

/// The text of the data of a decoded message, if it is a parcel.
pub open spec fn data_text(d: DecodedView) -> Seq<char> {
    match d {
        DecodedView::AcceptParcel(p) => quoted(lossy(p.parcel_data)),
        _ => ""@,
    }
}

/// The line of message `i` of a capture.
pub open spec fn dumped(
    i: nat,
    m: ChannelMessageView,
    routers: Seq<Result<RouterDescriptor, WireError>>,
) -> Seq<char> {
    match message_header_of(m.payload) {
        Err(e) => "["@ + decimal(i) + "] header error: "@ + e.spec_text(),
        Ok(header) => line_text(
            i,
            header,
            m.num_handles,
            match decoded(m.payload, m.num_handles as nat) {
                Err(e) => "decode error: "@ + e.spec_text(),
                Ok(d) => decoded_text(d, routers, data_text(d)),
            },
        ),
    }
}

/// The line of message `i` of a capture. The routers of a parcel are described
/// as far as they are given.
pub fn dump_message(
    i: u64,
    m: &ChannelMessage,
    routers: &Vec<Result<RouterDescriptor, WireError>>,
) -> (r: String)
    ensures
        r@ == dumped(i as nat, m@, routers@),
{
    let header = match parse_message_header(m.payload.as_slice()) {
        Ok(h) => h,
        Err(e) => {
            let mut s: String = labelled("[", i);
            s.append("] header error: ");
            s.append(e.text().as_str());
            return s;
        },
    };
    let detail = match decode_message(m.payload.as_slice(), m.num_handles as usize) {
        Err(e) => joined("decode error: ", e.text().as_str()),
        Ok(d) => {
            let data: String = match &d {
                DecodedMessage::AcceptParcel(p) => quote(
                    read_lossy(p.parcel_data.as_slice()).as_str(),
                ),
                _ => "".to_owned(),
            };
            show_decoded(&d, routers, data.as_str())
        },
    };
    show_line(i, &header, m.num_handles, detail.as_str())
}

/// The lines of the messages of a capture.
pub open spec fn dumped_messages(messages: Seq<ChannelMessageView>) -> Seq<Seq<char>> {
    Seq::new(messages.len(), |i: int| dumped(i as nat, messages[i], Seq::empty()))
}

/// The lines of a capture, one for each message.
pub fn dump_stream(stream: &[u8]) -> (r: Result<Vec<String>, WireError>)
    ensures
        match r {
            Ok(lines) => messages_of_stream(stream@) matches Ok(messages) && texts(lines@)
                == dumped_messages(messages),
            Err(e) => messages_of_stream(stream@) == Err::<Seq<ChannelMessageView>, WireError>(e),
        },
{
    let messages = match parse_stream(stream) {
        Ok(m) => m,
        Err(e) => {
            return Err(e);
        },
    };
    let none: Vec<Result<RouterDescriptor, WireError>> = Vec::new();
    assert(none@ =~= Seq::empty());
    let ghost all = dumped_messages(message_views(messages@));
    let mut lines: Vec<String> = Vec::new();
    let mut i: usize = 0;
    while i < messages.len()
        invariant
            i <= messages@.len(),
            none@ == Seq::<Result<RouterDescriptor, WireError>>::empty(),
            all == dumped_messages(message_views(messages@)),
            texts(lines@) == all.take(i as int),
        decreases messages@.len() - i,
    {
        let line = dump_message(i as u64, &messages[i], &none);
        add_text(&mut lines, line);
        i = i + 1;
        assert(texts(lines@) =~= all.take(i as int));
    }
    assert(all.take(all.len() as int) =~= all);
    Ok(lines)
}

} // verus!
