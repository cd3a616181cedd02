use bytes::{BufMut, BytesMut};
use ka9q_tci::addr::{IpAddr, Ipv4Addr};
use ka9q_tci::bridge::{default_preset_map, dispatch_cmd, BridgeCmd, SsrcTable};
use ka9q_tci::radiod::control::{
    find_ssrc, resolve_mdns, status_from_datagram, tagged_command, CommandTags, ControlError,
};
use ka9q_tci::radiod::multicast::McastError;
use ka9q_tci::radiod::tlv::{
    build_command, decode_int, decode_length, decode_packet, encode_int, encode_length, int_bytes,
    new_buffer, Encoding, PktType, StatusType, TlvError, TlvField, TlvValue,
};

fn first_int(fields: &[TlvField], i: usize) -> u64 {
    match &fields[i].value {
        TlvValue::Int(v) => *v,
        _ => panic!("expected Int"),
    }
}

#[test]
fn roundtrip_command_tag() {
    let pkt = build_command(&[
        (StatusType::COMMAND_TAG, TlvValue::Int(0xDEAD)),
        (StatusType::RADIO_FREQUENCY, TlvValue::Double(14_074_000.0f64.to_bits())),
    ]);
    let (ptype, fields) = decode_packet(&pkt).unwrap();
    assert_eq!(ptype, PktType::Command);
    assert_eq!(fields.len(), 2);
    match &fields[0].value {
        TlvValue::Int(v) => assert_eq!(*v, 0xDEAD),
        _ => panic!("expected Int"),
    }
    match &fields[1].value {
        TlvValue::Double(v) => assert!((f64::from_bits(*v) - 14_074_000.0).abs() < 0.01),
        _ => panic!("expected Double"),
    }
}

#[test]
fn roundtrip_command_tag_via_control() {
    let pkt = build_command(&[(StatusType::COMMAND_TAG, TlvValue::Int(42))]);
    let (ptype, fields) = decode_packet(&pkt).unwrap();
    assert_eq!(ptype, PktType::Command);
    assert_eq!(fields.len(), 1);
    assert_eq!(fields[0].tag, StatusType::COMMAND_TAG.code());
    match fields[0].value {
        TlvValue::Int(v) => assert_eq!(v, 42),
        _ => panic!("atteso Int(42)"),
    }
}

#[test]
fn status_packet_ssrc_extraction() {
    let mut pkt = BytesMut::new();
    pkt.put_u8(PktType::Status.code());
    pkt.put_u8(StatusType::OUTPUT_SSRC.code());
    pkt.put_u8(4);
    pkt.put_u32(0xCAFE_BABE);
    pkt.put_u8(0x00);

    let (ptype, fields) = decode_packet(&pkt).unwrap();
    assert_eq!(ptype, PktType::Status);

    let ssrc = fields.iter().find_map(|f| {
        if f.tag == StatusType::OUTPUT_SSRC.code() {
            if let TlvValue::Int(v) = f.value {
                return Some(v as u32);
            }
        }
        None
    });
    assert_eq!(ssrc, Some(0xCAFE_BABE));
    assert_eq!(find_ssrc(&fields), Some(0xCAFE_BABE));
    let status = status_from_datagram(&pkt).unwrap().unwrap();
    assert_eq!(status.ssrc, Some(0xCAFE_BABE));
    assert_eq!(status.fields.len(), 1);
}

#[test]
fn command_bytes_on_the_wire() {
    let pkt = build_command(&[
        (StatusType::COMMAND_TAG, TlvValue::Int(0)),
        (StatusType::OUTPUT_SSRC, TlvValue::Int(0x7C10_0010)),
        (StatusType::PRESET, TlvValue::Bytes(b"iq".to_vec())),
        (StatusType::LOW_EDGE, TlvValue::Float(1.0f32.to_bits())),
        (StatusType::RADIO_FREQUENCY, TlvValue::Double(1.0f64.to_bits())),
    ]);
    let expected: Vec<u8> = vec![
        1, // command
        1, 0, // tag, zero has no bytes
        18, 4, 0x7C, 0x10, 0x00, 0x10, // SSRC
        85, 2, b'i', b'q', // preset
        39, 4, 0x3F, 0x80, 0, 0, // single precision
        33, 8, 0x3F, 0xF0, 0, 0, 0, 0, 0, 0, // double precision
        0, // EOL
    ];
    assert_eq!(&pkt[..], &expected[..]);
}

#[test]
fn integers_have_no_leading_zeros() {
    let pkt = build_command(&[(StatusType::OUTPUT_SAMPRATE, TlvValue::Int(0x0100))]);
    assert_eq!(&pkt[..], &[1, 20, 2, 0x01, 0x00, 0]);
    let pkt = build_command(&[(StatusType::OUTPUT_SAMPRATE, TlvValue::Int(u64::MAX))]);
    assert_eq!(pkt.len(), 1 + 1 + 1 + 8 + 1);
}

#[test]
fn long_values_have_longer_lengths() {
    let pkt = build_command(&[(StatusType::PRESET, TlvValue::Bytes(vec![7; 0x7F]))]);
    assert_eq!(&pkt[..3], &[1, 85, 0x7F]);
    let pkt = build_command(&[(StatusType::PRESET, TlvValue::Bytes(vec![7; 0x80]))]);
    assert_eq!(&pkt[..4], &[1, 85, 0x81, 0x80]);
    let pkt = build_command(&[(StatusType::PRESET, TlvValue::Bytes(vec![7; 0x1234]))]);
    assert_eq!(&pkt[..5], &[1, 85, 0x82, 0x12, 0x34]);
    let (_, fields) = decode_packet(&pkt).unwrap();
    match &fields[0].value {
        TlvValue::Bytes(b) => assert_eq!(b, &vec![7; 0x1234]),
        _ => panic!("expected Bytes"),
    }
}

#[test]
fn lengths_beyond_two_bytes() {
    for (len, head) in [
        (0xFFFFusize, vec![1u8, 85, 0x82, 0xFF, 0xFF]),
        (0x1_0000, vec![1, 85, 0x83, 0x01, 0x00, 0x00]),
        (0x1_0003, vec![1, 85, 0x83, 0x01, 0x00, 0x03]),
        (0x100_0002, vec![1, 85, 0x84, 0x01, 0x00, 0x00, 0x02]),
    ] {
        let pkt = build_command(&[(StatusType::PRESET, TlvValue::Bytes(vec![7; len]))]);
        assert_eq!(&pkt[..head.len()], &head[..]);
        assert_eq!(pkt.len(), head.len() + len + 1);
        let (_, fields) = decode_packet(&pkt).unwrap();
        assert_eq!(fields.len(), 1);
        assert!(matches!(&fields[0].value, TlvValue::Bytes(b) if b.len() == len));
    }
}

#[test]
fn lengths_are_read_back() {
    for len in [0usize, 1, 0x7F, 0x80, 0xFF, 0x100, 0xFFFF, 0x1_0000, 0xFF_FFFF, 0x100_0000, 0xFFFF_FFFF] {
        let mut buf = new_buffer();
        encode_length(&mut buf, len);
        let written = buf.len();
        buf.put_slice(&[9, 9, 9, 9, 9]);
        assert_eq!(decode_length(&buf).unwrap(), (len, written), "{len:#x}");
    }
}

#[test]
fn integers_are_written_in_their_shortest_form() {
    for v in [0u64, 1, 0xFF, 0x100, 0x1_0000, 0x7C10_0010, u64::MAX] {
        let mut buf = new_buffer();
        encode_int(&mut buf, v);
        let d = &buf[1..];
        assert_eq!(buf[0] as usize, d.len());
        assert_eq!(decode_int(d), v);
        assert!(d.is_empty() || d[0] != 0);
        assert_eq!(d, &int_bytes(v)[..]);
    }
}

#[test]
fn values_follow_their_tags() {
    let data: Vec<u8> = vec![
        0, // status
        33, 4, 0x3F, 0x80, 0, 0, // frequency in four bytes
        33, 2, 0x01, 0x02, // frequency in two bytes
        40, 3, 1, 2, 3, // edge in three bytes
        40, 5, 1, 2, 3, 4, 5, // edge in five bytes
        16, 1, 9, // socket
        200, 1, 5, // a tag that is not known
        0, 99, // EOL and what follows it
    ];
    let (kind, fields) = decode_packet(&data).unwrap();
    assert_eq!(kind, PktType::Status);
    assert_eq!(fields.len(), 6);
    assert!(matches!(fields[0].value, TlvValue::Float(0x3F80_0000)));
    assert!(matches!(fields[1].value, TlvValue::Int(0x0102)));
    assert!(matches!(fields[2].value, TlvValue::Float(0x01_0203)));
    assert!(matches!(fields[3].value, TlvValue::Double(0x01_0203_0405)));
    assert!(matches!(&fields[4].value, TlvValue::Bytes(b) if b == &vec![9]));
    assert_eq!(fields[5].tag, 200);
    assert_eq!(first_int(&fields, 5), 5);
}

#[test]
fn only_the_last_eight_bytes_of_an_integer_count() {
    let (_, fields) = decode_packet(&[0, 20, 9, 0xFF, 0, 0, 0, 0, 0, 0, 0, 1]).unwrap();
    assert_eq!(first_int(&fields, 0), 1);
}

#[test]
fn packets_may_end_without_eol() {
    let (_, fields) = decode_packet(&[0, 20, 1, 5]).unwrap();
    assert_eq!(first_int(&fields, 0), 5);
    assert_eq!(decode_packet(&[1]).unwrap().1.len(), 0);
}

#[test]
fn packets_end_at_eol() {
    let packet: Vec<u8> = vec![0, 20, 1, 5, 18, 2, 1, 2];
    let (kind, fields) = decode_packet(&packet).unwrap();
    let mut longer = packet.clone();
    longer.extend_from_slice(&[0, 20, 0x85, 9]);
    let (same_kind, same_fields) = decode_packet(&longer).unwrap();
    assert_eq!(same_kind, kind);
    assert_eq!(same_fields.len(), 2);
    assert_eq!(first_int(&same_fields, 0), first_int(&fields, 0));
    assert_eq!(first_int(&same_fields, 1), 0x102);
}

#[test]
fn broken_packets() {
    assert_eq!(decode_packet(&[]).unwrap_err(), TlvError::Truncated);
    assert_eq!(decode_packet(&[2]).unwrap_err(), TlvError::UnknownPktType(2));
    // A tag without a length.
    assert_eq!(decode_packet(&[0, 20]).unwrap_err(), TlvError::Truncated);
    // A value that is too short.
    assert_eq!(decode_packet(&[0, 20, 2, 1]).unwrap_err(), TlvError::Truncated);
    // A length of five bytes, and one that is cut off.
    assert_eq!(
        decode_packet(&[0, 20, 0x85, 0, 0, 0, 0, 1, 9]).unwrap_err(),
        TlvError::LengthTooLarge(5)
    );
    assert_eq!(decode_packet(&[0, 20, 0x82, 1]).unwrap_err(), TlvError::LengthTooLarge(2));
    // Four bytes of length are still read, and none mean zero.
    let (_, fields) = decode_packet(&[0, 20, 0x84, 0, 0, 0, 1, 7, 20, 0x80]).unwrap();
    assert_eq!(first_int(&fields, 0), 7);
    assert_eq!(first_int(&fields, 1), 0);
}

#[test]
fn tags_and_types_from_bytes() {
    assert_eq!(StatusType::try_from(33).unwrap(), StatusType::RADIO_FREQUENCY);
    assert_eq!(StatusType::try_from(2).unwrap_err(), TlvError::UnknownStatusType(2));
    assert_eq!(PktType::try_from(1).unwrap(), PktType::Command);
    for b in 0u8..=255 {
        if let Ok(t) = StatusType::try_from(b) {
            assert_eq!(t.code(), b);
        }
    }
    assert_eq!(Encoding::NoEncoding.code(), 0);
    assert_eq!(Encoding::F32le.code(), 4);
}

#[test]
fn tlv_error_messages() {
    assert_eq!(TlvError::UnknownPktType(7).message(), "unknown packet type: 7");
    assert_eq!(TlvError::UnknownStatusType(9).message(), "unknown status type: 9");
    assert_eq!(TlvError::Truncated.message(), "unexpected end of buffer");
    assert_eq!(TlvError::LengthTooLarge(5).message(), "length encoding too large (5 meta-bytes)");
}

#[test]
fn control_error_messages() {
    assert_eq!(ControlError::Io("gone".to_string()).message(), "IO: gone");
    assert_eq!(
        ControlError::Tlv(TlvError::Truncated).message(),
        "TLV decode: unexpected end of buffer"
    );
    assert_eq!(
        ControlError::Resolve("hf.local".to_string()).message(),
        "DNS resolve failed for hf.local"
    );
    assert_eq!(
        ControlError::Mcast(McastError::Socket("no".to_string())).message(),
        "multicast: socket setup: no"
    );
}

#[test]
fn commands_carry_a_tag() {
    let poll = tagged_command(1, &[]);
    assert_eq!(&poll[..], &[1, 1, 1, 1, 0]);
    let cmd = tagged_command(0xFFFF_FFFF, &[(StatusType::OUTPUT_SSRC, TlvValue::Int(5))]);
    let (_, fields) = decode_packet(&cmd).unwrap();
    assert_eq!(fields.len(), 2);
    assert_eq!(first_int(&fields, 0), 0xFFFF_FFFF);
    assert_eq!(first_int(&fields, 1), 5);
}

#[test]
fn tags_count_commands() {
    let mut tags = CommandTags::new();
    for k in 1u32..=1000 {
        assert_eq!(tags.take(), k);
    }
    let pkt = tagged_command(tags.take(), &[(StatusType::OUTPUT_SSRC, TlvValue::Int(5))]);
    let (_, fields) = decode_packet(&pkt).unwrap();
    assert_eq!(fields[0].tag, StatusType::COMMAND_TAG.code());
    assert_eq!(first_int(&fields, 0), 1001);
    assert_eq!(fields.iter().filter(|f| f.tag == StatusType::COMMAND_TAG.code()).count(), 1);
}

#[test]
fn datagrams_that_are_no_status() {
    // A command that comes back from the group.
    assert!(status_from_datagram(&tagged_command(3, &[])).unwrap().is_none());
    assert_eq!(status_from_datagram(&[7]).unwrap_err(), TlvError::UnknownPktType(7));
    // A status packet without an SSRC.
    let status = status_from_datagram(&[0, 20, 1, 5, 0]).unwrap().unwrap();
    assert_eq!(status.ssrc, None);
}

#[test]
fn names_resolve_to_the_first_ipv4_address() {
    let a = Ipv4Addr::new(239, 135, 38, 120);
    let b = Ipv4Addr::new(127, 0, 0, 1);
    let r = resolve_mdns("hf.local", &[IpAddr::V6, IpAddr::V4(a), IpAddr::V4(b)]);
    assert_eq!(r.unwrap(), a);
    match resolve_mdns("hf.local", &[IpAddr::V6]) {
        Err(ControlError::Resolve(name)) => assert_eq!(name, "hf.local"),
        _ => panic!("expected Resolve"),
    }
    assert!(resolve_mdns("hf.local", &[]).is_err());
}

#[test]
fn tuning_commands_are_read_as_meant() {
    let mut table = SsrcTable::new();
    let presets = default_preset_map();
    let cmd = BridgeCmd::Tune { trx: 0, vfo: 1, freq_hz: 14_074_000 };
    let plan = dispatch_cmd(&mut table, 48_000, &presets, "x", cmd);
    let (kind, fields) = decode_packet(&tagged_command(9, &plan.commands[0])).unwrap();
    assert_eq!(kind, PktType::Command);
    assert_eq!(fields.len(), 4);
    assert_eq!(first_int(&fields, 0), 9);
    assert_eq!(first_int(&fields, 1), 0x7C10_0001);
    assert!(matches!(&fields[2].value, TlvValue::Bytes(b) if b == b"iq48"));
    assert!(matches!(fields[3].value, TlvValue::Double(b) if b == 14_074_000.0f64.to_bits()));
    // A status packet that reports the same number gives the same frequency.
    let mut status = fields;
    status.remove(0);
    table.update_from_status(&status);
    assert_eq!(table.get(0x7C10_0001).unwrap().freq_hz, 14_074_000);
}

#[test]
fn resolve_localhost() {
    // What the system gives for the name: its IPv6 address, then the IPv4 one.
    let found = [IpAddr::V6, IpAddr::V4(Ipv4Addr::new(127, 0, 0, 1))];
    let ip = resolve_mdns("localhost", &found).unwrap();
    assert!(ip.a == 127, "expected loopback, got {ip:?}");
}
