use des::message::MessageBody;
use des::module::ModuleId;
use des::packet::{Packet, PacketBuilder, PacketHeader};
use des::time::SimTime;

#[test]
fn builder_sets_header_and_meta() {
    let pkt = Packet::new()
        .src(0x0a00_0001, 80)
        .dest(0x0a00_0002, 8080)
        .seq_no(7)
        .id(3)
        .kind(9)
        .typ(2)
        .sender_module_id(ModuleId(11))
        .receiver_module_id(ModuleId(12))
        .timestamp(SimTime::from_nanos(5))
        .creation_time(SimTime::from_nanos(6))
        .send_time(SimTime::from_nanos(7))
        .content(String::from("hello"))
        .build();

    let h = pkt.header();
    assert_eq!(h.src_node, 0x0a00_0001);
    assert_eq!(h.src_port, 80);
    assert_eq!(h.dest_node, 0x0a00_0002);
    assert_eq!(h.dest_port, 8080);
    assert_eq!(h.seq_no, 7);
    assert_eq!(h.ttl, u8::MAX);
    assert_eq!(h.packet_length, 5);

    let m = pkt.meta();
    assert_eq!(m.id, 3);
    assert_eq!(m.kind, 9);
    assert_eq!(m.typ, 2);
    assert_eq!(m.sender_module_id, ModuleId(11));
    assert_eq!(m.receiver_module_id, ModuleId(12));
    assert_eq!(m.timestamp.as_nanos(), 5);
    assert_eq!(m.creation_time.as_nanos(), 6);
    assert_eq!(m.send_time.as_nanos(), 7);

    assert_eq!(pkt.byte_len(), 45);
    assert_eq!(pkt.bit_len(), 5 * 8 + 288);
    assert_eq!(pkt.try_content::<String>().unwrap(), "hello");
    assert!(pkt.try_content::<u8>().is_none());
}

#[test]
fn builder_single_fields() {
    let pkt = PacketBuilder::default()
        .src_node(1)
        .src_port(2)
        .dest_node(3)
        .dest_port(4)
        .build();
    let h = pkt.header();
    assert_eq!((h.src_node, h.src_port, h.dest_node, h.dest_port), (1, 2, 3, 4));
    assert_eq!(h.packet_length, 0);
    assert_eq!(pkt.byte_len(), 40);
    assert!(pkt.try_content::<u8>().is_none());
}

#[test]
fn packet_length_is_cut_to_sixteen_bits() {
    let pkt = Packet::new().content(vec![0u8; 70_000]).build();
    assert_eq!(pkt.header().packet_length, (70_000 % 65_536) as u16);
    assert_eq!(pkt.byte_len(), 70_000 % 65_536 + 40);

    let pkt = Packet::new().content_boxed(Box::new(7u32)).build();
    assert_eq!(pkt.header().packet_length, 4);
}

#[test]
fn header_new_keeps_defaults() {
    let h = PacketHeader::new((1, 2), (3, 4), 99);
    assert_eq!((h.src_node, h.src_port, h.dest_node, h.dest_port), (1, 2, 3, 4));
    assert_eq!(h.packet_length, 99);
    assert_eq!(h.ttl, 255);
    assert_eq!(h.hop_count, 0);
    assert_eq!(h.byte_len(), 40);
    assert_eq!(h.bit_len(), 288);
    let replaced = Packet::new().header(h).build();
    assert_eq!(replaced.header().src_node, 1);
    assert_eq!(replaced.header().packet_length, 0);
}

#[test]
fn packet_setters_and_hops() {
    let mut pkt = Packet::new().build();
    pkt.set_source_node(1);
    pkt.set_source_port(2);
    pkt.set_dest_node(3);
    pkt.set_dest_port(4);
    pkt.set_seq_no(5);
    pkt.set_last_node(6);
    pkt.set_ttl(1);
    pkt.register_hop();
    assert_eq!(pkt.header().ttl, 0);
    assert_eq!(pkt.header().hop_count, 1);
    pkt.register_hop();
    assert_eq!(pkt.header().ttl, 255);
    assert_eq!(pkt.header().hop_count, 2);
    let h = pkt.header();
    assert_eq!((h.src_node, h.src_port, h.dest_node, h.dest_port, h.seq_no, h.last_node), (1, 2, 3, 4, 5, 6));
}

#[test]
fn packet_cast_and_content() {
    let pkt = Packet::new().content(42u16).dest_port(9).build();
    let pkt = pkt.try_cast::<u32>().unwrap_err();
    let (v, h) = pkt.try_cast::<u16>().unwrap();
    assert_eq!(v, 42);
    assert_eq!(h.dest_port, 9);

    let mut pkt = Packet::new().content(1u8).build();
    *pkt.try_content_mut::<u8>().unwrap() += 1;
    assert_eq!(pkt.try_content::<u8>(), Some(&2));

    let empty = Packet::new().build();
    assert!(empty.try_cast::<u8>().is_err());
}
