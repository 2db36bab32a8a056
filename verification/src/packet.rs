//! Application-addressed packets, similar to TCP/UDP over IPv4, and a
//! builder for them.
use vstd::prelude::*;
use crate::message::{MessageBody};
use crate::message::util::AnyBox;
use crate::module::ModuleId;
use crate::time::SimTime;

verus! {

/// A address of a node in a IPv4 network.
pub type NodeAddress = u32;

/// A node-local address of an application.
pub type PortAddress = u16;

/// The broadcast address in a IPv4 network.
pub const NODE_ADDR_BROADCAST: NodeAddress = 0xffff_ffff;

/// The loopback address in a IPv4 network.
pub const NODE_ADDR_LOOPBACK: NodeAddress = 0x7f_00_00_01;

/// A ID that defines the meaning of the message in the simulation context.
pub type MessageId = u16;

/// The type of messages, similar to the TOS field in IP packets.
pub type MessageKind = u16;

/// The size of a packet header on the wire, in bytes.
pub const HEADER_BYTES: usize = 40;

/// The size of a packet header on the wire, in bits.
pub const HEADER_BITS: usize = 288;

/// An application-addressed header in a network, similar to TCP/UDP.
#[derive(Debug, Clone, Copy, PartialEq, Eq, Structural)]
pub struct PacketHeader {
    /// The sending node.
    pub src_node: NodeAddress,
    /// The receiving node.
    pub dest_node: NodeAddress,
    /// The type of service.
    pub tos: u8,
    /// The length of the content in bytes.
    pub packet_length: u16,
    /// How many more hops the packet may take.
    pub ttl: u8,
    /// The sending application.
    pub src_port: PortAddress,
    /// The receiving application.
    pub dest_port: PortAddress,
    /// The sequence number.
    pub seq_no: u32,
    /// The acknowledgement number.
    pub ack_no: u32,
    /// The receive window.
    pub window_size: u16,
    /// How many hops the packet has taken.
    pub hop_count: usize,
    /// The node the packet came from last.
    pub last_node: NodeAddress,
}

impl PacketHeader {
    /// The header that packets start with: everything zero, but a time to
    /// live as long as it can be.
    pub open spec fn spec_default() -> PacketHeader {
        PacketHeader {
            src_node: 0,
            dest_node: 0,
            tos: 0,
            packet_length: 0,
            ttl: u8::MAX,
            src_port: 0,
            dest_port: 0,
            seq_no: 0,
            ack_no: 0,
            window_size: 0,
            hop_count: 0,
            last_node: 0,
        }
    }

    /// A header from `src` to `dest` for `packet_length` bytes of content,
    /// the rest as in the default header.
    pub fn new(src: (NodeAddress, PortAddress), dest: (NodeAddress, PortAddress), packet_length: u16) -> (r: Self)
        ensures
            r == (PacketHeader {
                src_node: src.0,
                dest_node: dest.0,
                packet_length,
                src_port: src.1,
                dest_port: dest.1,
                ..PacketHeader::spec_default()
            }),
    {
        let mut h = Self::default();
        h.src_node = src.0;
        h.dest_node = dest.0;
        h.packet_length = packet_length;
        h.src_port = src.1;
        h.dest_port = dest.1;
        h
    }
}

impl Default for PacketHeader {
    fn default() -> (r: Self)
        ensures
            r == PacketHeader::spec_default(),
    {
        PacketHeader {
            src_node: 0,
            dest_node: 0,
            tos: 0,
            packet_length: 0,
            ttl: u8::MAX,
            src_port: 0,
            dest_port: 0,
            seq_no: 0,
            ack_no: 0,
            window_size: 0,
            hop_count: 0,
            last_node: 0,
        }
    }
}

/// A header counts for its size on the wire.
impl MessageBody for PacketHeader {
    open spec fn spec_byte_len(&self) -> nat {
        HEADER_BYTES as nat
    }

    fn byte_len(&self) -> (r: usize) {
        HEADER_BYTES
    }

    fn bit_len(&self) -> (r: usize)
        ensures
            r == HEADER_BITS,
    {
        HEADER_BITS
    }
}

/// The metadata attached to a message, independent of its contents.
#[derive(Debug, Clone, Copy, PartialEq, Eq, Structural)]
pub struct MessageMetadata {
    /// A unqiue identifier for this instance of a message.
    pub id: MessageId,
    /// The type of message to be handled.
    pub kind: MessageKind,
    /// The simulation's own classification of the message.
    pub typ: u8,
    /// A custom user-defined timestamp.
    pub timestamp: SimTime,
    /// The id of the module that send this message.
    pub sender_module_id: ModuleId,
    /// The id of the module that received this message.
    pub receiver_module_id: ModuleId,
    /// A timestamp when the message was created.
    pub creation_time: SimTime,
    /// A timestamp when the message was send onto a link.
    pub send_time: SimTime,
}

impl MessageMetadata {
    /// The metadata a message starts with: all zero, no module.
    pub open spec fn spec_default() -> MessageMetadata {
        MessageMetadata {
            id: 0,
            kind: 0,
            typ: 0,
            timestamp: SimTime::from_nanos_spec(0),
            sender_module_id: ModuleId(0),
            receiver_module_id: ModuleId(0),
            creation_time: SimTime::from_nanos_spec(0),
            send_time: SimTime::from_nanos_spec(0),
        }
    }
}

impl Default for MessageMetadata {
    fn default() -> (r: Self)
        ensures
            r == MessageMetadata::spec_default(),
    {
        MessageMetadata {
            id: 0,
            kind: 0,
            typ: 0,
            timestamp: SimTime::from_nanos(0),
            sender_module_id: ModuleId(0),
            receiver_module_id: ModuleId(0),
            creation_time: SimTime::from_nanos(0),
            send_time: SimTime::from_nanos(0),
        }
    }
}

/// An application-addressed message in a network, similar to TCP/UDP.
#[derive(Debug)]
pub struct Packet {
    header: PacketHeader,
    message_meta: Option<MessageMetadata>,
    content: Option<AnyBox>,
}

impl Packet {
    /// The header.
    pub closed spec fn spec_header(&self) -> PacketHeader {
        self.header
    }

    /// The metadata of the message, if attached.
    pub closed spec fn spec_meta(&self) -> Option<MessageMetadata> {
        self.message_meta
    }

    /// Whether the packet carries content.
    pub closed spec fn has_content(&self) -> bool {
        self.content is Some
    }

    /// The attached message metadata.
    pub fn meta(&self) -> (r: &MessageMetadata)
        requires
            self.spec_meta() is Some,
        ensures
            Some(*r) == self.spec_meta(),
    {
        self.message_meta.as_ref().unwrap()
    }

    /// The header as a readonly ref.
    pub fn header(&self) -> (r: &PacketHeader)
        ensures
            *r == self.spec_header(),
    {
        &self.header
    }

    /// Sets the source node of the packet.
    pub fn set_source_node(&mut self, node: NodeAddress)
        ensures
            final(self).spec_header() == (PacketHeader { src_node: node, ..old(self).spec_header() }),
            final(self).spec_meta() == old(self).spec_meta(),
            final(self).has_content() == old(self).has_content(),
    {
        self.header.src_node = node;
    }

    /// Sets the source port of the packet.
    pub fn set_source_port(&mut self, port: PortAddress)
        ensures
            final(self).spec_header() == (PacketHeader { src_port: port, ..old(self).spec_header() }),
            final(self).spec_meta() == old(self).spec_meta(),
            final(self).has_content() == old(self).has_content(),
    {
        self.header.src_port = port;
    }

    /// Sets the destintation node of the packet.
    pub fn set_dest_node(&mut self, node: NodeAddress)
        ensures
            final(self).spec_header() == (PacketHeader { dest_node: node, ..old(self).spec_header() }),
            final(self).spec_meta() == old(self).spec_meta(),
            final(self).has_content() == old(self).has_content(),
    {
        self.header.dest_node = node;
    }

    /// Sets the destintation port of the packet.
    pub fn set_dest_port(&mut self, port: PortAddress)
        ensures
            final(self).spec_header() == (PacketHeader { dest_port: port, ..old(self).spec_header() }),
            final(self).spec_meta() == old(self).spec_meta(),
            final(self).has_content() == old(self).has_content(),
    {
        self.header.dest_port = port;
    }

    /// Sets the packets time to live.
    pub fn set_ttl(&mut self, ttl: u8)
        ensures
            final(self).spec_header() == (PacketHeader { ttl, ..old(self).spec_header() }),
            final(self).spec_meta() == old(self).spec_meta(),
            final(self).has_content() == old(self).has_content(),
    {
        self.header.ttl = ttl;
    }

    /// Registers a hop in the header, thereby decrementing the time to live
    /// (from zero round to `u8::MAX`) while incrementing the hop count.
    pub fn register_hop(&mut self)
        requires
            old(self).spec_header().hop_count < usize::MAX,
        ensures
            final(self).spec_header() == (PacketHeader {
                ttl: (if old(self).spec_header().ttl == 0 { u8::MAX } else { (old(self).spec_header().ttl - 1) as u8 }),
                hop_count: (old(self).spec_header().hop_count + 1) as usize,
                ..old(self).spec_header()
            }),
            final(self).spec_meta() == old(self).spec_meta(),
            final(self).has_content() == old(self).has_content(),
    {
        self.header.ttl = self.header.ttl.wrapping_sub(1);
        self.header.hop_count = self.header.hop_count + 1;
    }

    /// Sets the sequence number of the packet.
    pub fn set_seq_no(&mut self, seq_no: u32)
        ensures
            final(self).spec_header() == (PacketHeader { seq_no, ..old(self).spec_header() }),
            final(self).spec_meta() == old(self).spec_meta(),
            final(self).has_content() == old(self).has_content(),
    {
        self.header.seq_no = seq_no;
    }

    /// Sets the last node to the packet header.
    pub fn set_last_node(&mut self, last_node: NodeAddress)
        ensures
            final(self).spec_header() == (PacketHeader { last_node, ..old(self).spec_header() }),
            final(self).spec_meta() == old(self).spec_meta(),
            final(self).has_content() == old(self).has_content(),
    {
        self.header.last_node = last_node;
    }

    /// A builder for a new packet.
    pub fn new() -> (r: PacketBuilder)
        ensures
            r.spec_header() == PacketHeader::spec_default(),
            r.spec_meta() == MessageMetadata::spec_default(),
            r.content_len() is None,
    {
        PacketBuilder::new()
    }

    /// The content and the header, when the content is of type `T`;
    /// otherwise the packet comes back unchanged.
    pub fn try_cast<T: 'static + MessageBody>(self) -> (r: Result<(T, PacketHeader), Self>)
        ensures
            r matches Ok((_, h)) ==> h == self.spec_header() && self.has_content(),
            r matches Err(back) ==> back == self,
    {
        let Packet { header, message_meta, content } = self;
        match content {
            Some(c) => match c.try_cast::<T>() {
                Ok(v) => Ok((v, header)),
                Err(c) => Err(Packet { header, message_meta, content: Some(c) }),
            },
            None => Err(Packet { header, message_meta, content: None }),
        }
    }

    /// The content by reference, when there is content of type `T`.
    pub fn try_content<T: 'static + MessageBody>(&self) -> (r: Option<&T>)
        ensures
            r is Some ==> self.has_content(),
    {
        match &self.content {
            Some(c) => c.try_cast_ref::<T>(),
            None => None,
        }
    }

    /// The content by mutable reference, when there is content of type `T`;
    /// the header and the metadata stay as they are.
    pub fn try_content_mut<T: 'static + MessageBody>(&mut self) -> (r: Option<&mut T>)
        ensures
            r is Some ==> old(self).has_content(),
            final(self).spec_header() == old(self).spec_header(),
            final(self).spec_meta() == old(self).spec_meta(),
    {
        match &mut self.content {
            Some(c) => c.try_cast_mut::<T>(),
            None => None,
        }
    }
}

/// A packet counts for its content and its header.
impl MessageBody for Packet {
    open spec fn spec_byte_len(&self) -> nat {
        self.spec_header().packet_length as nat + HEADER_BYTES as nat
    }

    fn byte_len(&self) -> (r: usize) {
        self.header.packet_length as usize + HEADER_BYTES
    }

    fn bit_len(&self) -> (r: usize)
        ensures
            r == self.spec_header().packet_length * 8 + HEADER_BITS,
    {
        self.header.packet_length as usize * 8 + HEADER_BITS
    }
}

/// A intermediary type for constructing packets.
#[derive(Debug)]
pub struct PacketBuilder {
    meta: MessageMetadata,
    header: PacketHeader,
    content: Option<(usize, AnyBox)>,
}

impl PacketBuilder {
    /// The header the packet will have, but for its length.
    pub closed spec fn spec_header(&self) -> PacketHeader {
        self.header
    }

    /// The message metadata the packet will have.
    pub closed spec fn spec_meta(&self) -> MessageMetadata {
        self.meta
    }

    /// The length of the content in bytes, if there is content.
    pub closed spec fn content_len(&self) -> Option<usize> {
        match self.content {
            Some((n, _)) => Some(n),
            None => None,
        }
    }

    /// A builder with the default header and metadata and no content.
    pub fn new() -> (r: Self)
        ensures
            r.spec_header() == PacketHeader::spec_default(),
            r.spec_meta() == MessageMetadata::spec_default(),
            r.content_len() is None,
    {
        Self { meta: MessageMetadata::default(), header: PacketHeader::default(), content: None }
    }

    /// Sets the field `msg.typ`.
    pub fn typ(self, typ: u8) -> (r: Self)
        ensures
            r.spec_meta() == (MessageMetadata { typ, ..self.spec_meta() }),
            r.spec_header() == self.spec_header(),
            r.content_len() == self.content_len(),
    {
        let PacketBuilder { mut meta, header, content } = self;
        meta.typ = typ;
        PacketBuilder { meta, header, content }
    }

    /// Replaces the message metadata.
    pub fn meta(self, meta: MessageMetadata) -> (r: Self)
        ensures
            r.spec_meta() == meta,
            r.spec_header() == self.spec_header(),
            r.content_len() == self.content_len(),
    {
        let PacketBuilder { meta: _, header, content } = self;
        PacketBuilder { meta, header, content }
    }

    /// Replaces the header.
    pub fn header(self, header: PacketHeader) -> (r: Self)
        ensures
            r.spec_header() == header,
            r.spec_meta() == self.spec_meta(),
            r.content_len() == self.content_len(),
    {
        let PacketBuilder { meta, header: _, content } = self;
        PacketBuilder { meta, header, content }
    }

    /// Sets the field `src_node` and `src_port`.
    pub fn src(self, src_node: NodeAddress, src_port: PortAddress) -> (r: Self)
        ensures
            r.spec_header() == (PacketHeader { src_node, src_port, ..self.spec_header() }),
            r.spec_meta() == self.spec_meta(),
            r.content_len() == self.content_len(),
    {
        let PacketBuilder { meta, mut header, content } = self;
        header.src_node = src_node;
        header.src_port = src_port;
        PacketBuilder { meta, header, content }
    }

    /// Sets the field `src_node`.
    pub fn src_node(self, src_node: NodeAddress) -> (r: Self)
        ensures
            r.spec_header() == (PacketHeader { src_node, ..self.spec_header() }),
            r.spec_meta() == self.spec_meta(),
            r.content_len() == self.content_len(),
    {
        let PacketBuilder { meta, mut header, content } = self;
        header.src_node = src_node;
        PacketBuilder { meta, header, content }
    }

    /// Sets the field `src_port`.
    pub fn src_port(self, src_port: PortAddress) -> (r: Self)
        ensures
            r.spec_header() == (PacketHeader { src_port, ..self.spec_header() }),
            r.spec_meta() == self.spec_meta(),
            r.content_len() == self.content_len(),
    {
        let PacketBuilder { meta, mut header, content } = self;
        header.src_port = src_port;
        PacketBuilder { meta, header, content }
    }

    /// Sets the field `dest_node` and `dest_port`.
    pub fn dest(self, dest_node: NodeAddress, dest_port: PortAddress) -> (r: Self)
        ensures
            r.spec_header() == (PacketHeader { dest_node, dest_port, ..self.spec_header() }),
            r.spec_meta() == self.spec_meta(),
            r.content_len() == self.content_len(),
    {
        let PacketBuilder { meta, mut header, content } = self;
        header.dest_node = dest_node;
        header.dest_port = dest_port;
        PacketBuilder { meta, header, content }
    }

    /// Sets the field `dest_node`.
    pub fn dest_node(self, dest_node: NodeAddress) -> (r: Self)
        ensures
            r.spec_header() == (PacketHeader { dest_node, ..self.spec_header() }),
            r.spec_meta() == self.spec_meta(),
            r.content_len() == self.content_len(),
    {
        let PacketBuilder { meta, mut header, content } = self;
        header.dest_node = dest_node;
        PacketBuilder { meta, header, content }
    }

    /// Sets the field `dest_port`.
    pub fn dest_port(self, dest_port: PortAddress) -> (r: Self)
        ensures
            r.spec_header() == (PacketHeader { dest_port, ..self.spec_header() }),
            r.spec_meta() == self.spec_meta(),
            r.content_len() == self.content_len(),
    {
        let PacketBuilder { meta, mut header, content } = self;
        header.dest_port = dest_port;
        PacketBuilder { meta, header, content }
    }

    /// Sets the field `seq_no`.
    pub fn seq_no(self, seq_no: u32) -> (r: Self)
        ensures
            r.spec_header() == (PacketHeader { seq_no, ..self.spec_header() }),
            r.spec_meta() == self.spec_meta(),
            r.content_len() == self.content_len(),
    {
        let PacketBuilder { meta, mut header, content } = self;
        header.seq_no = seq_no;
        PacketBuilder { meta, header, content }
    }

    /// Sets the content, which counts for its own length.
    pub fn content<T: 'static + MessageBody>(self, content: T) -> (r: Self)
        requires
            content.spec_byte_len() <= usize::MAX,
        ensures
            r.content_len() == Some(content.spec_byte_len() as usize),
            r.spec_header() == self.spec_header(),
            r.spec_meta() == self.spec_meta(),
    {
        let byte_len = content.byte_len();
        let PacketBuilder { meta, header, content: _ } = self;
        PacketBuilder { meta, header, content: Some((byte_len, AnyBox::new(content))) }
    }

    /// Sets the content from a box, which counts for the length of what it
    /// holds.
    pub fn content_boxed<T: 'static + MessageBody>(self, content: Box<T>) -> (r: Self)
        requires
            (*content).spec_byte_len() <= usize::MAX,
        ensures
            r.content_len() == Some((*content).spec_byte_len() as usize),
            r.spec_header() == self.spec_header(),
            r.spec_meta() == self.spec_meta(),
    {
        let byte_len = content.byte_len();
        let PacketBuilder { meta, header, content: _ } = self;
        PacketBuilder { meta, header, content: Some((byte_len, AnyBox::new(*content))) }
    }

    /// Sets the field `msg.id`.
    pub fn id(self, id: MessageId) -> (r: Self)
        ensures
            r.spec_meta() == (MessageMetadata { id, ..self.spec_meta() }),
            r.spec_header() == self.spec_header(),
            r.content_len() == self.content_len(),
    {
        let PacketBuilder { mut meta, header, content } = self;
        meta.id = id;
        PacketBuilder { meta, header, content }
    }

    /// Sets the field `msg.kind`.
    pub fn kind(self, kind: MessageKind) -> (r: Self)
        ensures
            r.spec_meta() == (MessageMetadata { kind, ..self.spec_meta() }),
            r.spec_header() == self.spec_header(),
            r.content_len() == self.content_len(),
    {
        let PacketBuilder { mut meta, header, content } = self;
        meta.kind = kind;
        PacketBuilder { meta, header, content }
    }

    /// Sets the field `msg.timestamp`.
    pub fn timestamp(self, timestamp: SimTime) -> (r: Self)
        ensures
            r.spec_meta() == (MessageMetadata { timestamp, ..self.spec_meta() }),
            r.spec_header() == self.spec_header(),
            r.content_len() == self.content_len(),
    {
        let PacketBuilder { mut meta, header, content } = self;
        meta.timestamp = timestamp;
        PacketBuilder { meta, header, content }
    }

    /// Sets the field `msg.receiver_module_id`.
    pub fn receiver_module_id(self, receiver_module_id: ModuleId) -> (r: Self)
        ensures
            r.spec_meta() == (MessageMetadata { receiver_module_id, ..self.spec_meta() }),
            r.spec_header() == self.spec_header(),
            r.content_len() == self.content_len(),
    {
        let PacketBuilder { mut meta, header, content } = self;
        meta.receiver_module_id = receiver_module_id;
        PacketBuilder { meta, header, content }
    }

    /// Sets the field `msg.sender_module_id`.
    pub fn sender_module_id(self, sender_module_id: ModuleId) -> (r: Self)
        ensures
            r.spec_meta() == (MessageMetadata { sender_module_id, ..self.spec_meta() }),
            r.spec_header() == self.spec_header(),
            r.content_len() == self.content_len(),
    {
        let PacketBuilder { mut meta, header, content } = self;
        meta.sender_module_id = sender_module_id;
        PacketBuilder { meta, header, content }
    }

    /// Sets the field `msg.creation_time`.
    pub fn creation_time(self, creation_time: SimTime) -> (r: Self)
        ensures
            r.spec_meta() == (MessageMetadata { creation_time, ..self.spec_meta() }),
            r.spec_header() == self.spec_header(),
            r.content_len() == self.content_len(),
    {
        let PacketBuilder { mut meta, header, content } = self;
        meta.creation_time = creation_time;
        PacketBuilder { meta, header, content }
    }

    /// Sets the field `msg.send_time`.
    pub fn send_time(self, send_time: SimTime) -> (r: Self)
        ensures
            r.spec_meta() == (MessageMetadata { send_time, ..self.spec_meta() }),
            r.spec_header() == self.spec_header(),
            r.content_len() == self.content_len(),
    {
        let PacketBuilder { mut meta, header, content } = self;
        meta.send_time = send_time;
        PacketBuilder { meta, header, content }
    }

    /// Builds the packet: the header, with the content's length, cut to its
    /// lowest sixteen bits, as the packet length; the metadata; the content.
    pub fn build(self) -> (r: Packet)
        ensures
            r.spec_header() == (PacketHeader { packet_length: built_length(self.content_len()), ..self.spec_header() }),
            r.spec_meta() == Some(self.spec_meta()),
            r.has_content() == self.content_len() is Some,
    {
        let PacketBuilder { meta, mut header, content } = self;
        let (byte_len, content) = match content {
            Some((n, c)) => (n, Some(c)),
            None => (0usize, None),
        };
        header.packet_length = truncate_to_u16(byte_len);
        Packet { header, message_meta: Some(meta), content }
    }
}

/// The packet length a content of `len` bytes gives: the length cut to its
/// lowest sixteen bits, zero without content.
pub open spec fn built_length(len: Option<usize>) -> u16 {
    match len {
        Some(n) => (n % 0x10000) as u16,
        None => 0,
    }
}

/// The lowest sixteen bits of `n`.
fn truncate_to_u16(n: usize) -> (r: u16)
    ensures
        r == n % 0x10000,
{
    (n % 0x10000) as u16
}

impl Default for PacketBuilder {
    fn default() -> (r: Self)
        ensures
            r.spec_header() == PacketHeader::spec_default(),
            r.spec_meta() == MessageMetadata::spec_default(),
            r.content_len() is None,
    {
        Self::new()
    }
}

/// A built packet counts for its header and its content's length, cut to
/// sixteen bits: content of `n` bytes, set on the builder and built, gives a
/// packet of `n % 65536 + 40` bytes, whatever else was set.
pub proof fn law_built_packet_length(b: PacketBuilder, p: Packet, n: usize)
    requires
        b.content_len() == Some(n),
        p.spec_header() == (PacketHeader { packet_length: built_length(b.content_len()), ..b.spec_header() }),
    ensures
        p.spec_byte_len() == n % 0x10000 + HEADER_BYTES,
{
}

} // verus!
