use ka9q_tci::radiod::rtp::{parse, RtpError};

#[test]
fn parse_minimal() {
    let pkt: Vec<u8> = vec![
        0x80, 97, 0x00, 0x01,
        0x00, 0x00, 0x00, 0xA0,
        0x12, 0x34, 0x56, 0x78,
        0x01, 0x02, 0x03, 0x04,
    ];
    let (hdr, off) = parse(&pkt).unwrap();
    assert_eq!(hdr.version, 2);
    assert_eq!(hdr.payload_type, 97);
    assert_eq!(hdr.sequence, 1);
    assert_eq!(hdr.timestamp, 160);
    assert_eq!(hdr.ssrc, 0x12345678);
    assert_eq!(off, 12);
    assert_eq!(&pkt[off..], &[1, 2, 3, 4]);
}

#[test]
fn parse_flags_sources_and_extension() {
    let mut pkt: Vec<u8> = vec![
        0xB1, 0xE0, 0x12, 0x34, // version 2, padding, extension, one source, marker
        0, 0, 0, 1,
        0, 0, 0, 2,
        9, 9, 9, 9, // source
        0xBE, 0xDE, 0x00, 0x01, // extension of one word
        1, 2, 3, 4,
        42,
    ];
    let (hdr, off) = parse(&pkt).unwrap();
    assert!(hdr.padding && hdr.extension && hdr.marker);
    assert_eq!(hdr.csrc_count, 1);
    assert_eq!(hdr.payload_type, 0x60);
    assert_eq!(hdr.sequence, 0x1234);
    assert_eq!(hdr.extension_words, 1);
    assert_eq!(off, 24);
    // The header counts its source and its extension.
    assert_eq!(hdr.header_len(), off);
    assert_eq!(pkt[off], 42);
    // An extension that reaches beyond the packet.
    pkt[19] = 2;
    assert_eq!(parse(&pkt).unwrap_err(), RtpError::TooShort(25));
    // An extension header that is cut off.
    assert_eq!(parse(&pkt[..18]).unwrap_err(), RtpError::TooShort(18));
}

#[test]
fn parse_broken() {
    assert_eq!(parse(&[0x80; 11]).unwrap_err(), RtpError::TooShort(11));
    assert_eq!(parse(&[0x40; 12]).unwrap_err(), RtpError::BadVersion(1));
    // Fifteen sources that are not there.
    let mut pkt = [0u8; 12];
    pkt[0] = 0x8F;
    assert_eq!(parse(&pkt).unwrap_err(), RtpError::TooShort(12));
    // A header without payload.
    pkt[0] = 0x80;
    let (hdr, off) = parse(&pkt).unwrap();
    assert_eq!(off, 12);
    assert_eq!(hdr.header_len(), 12);
    assert_eq!(hdr.extension_words, 0);
}

#[test]
fn rtp_error_messages() {
    assert_eq!(RtpError::TooShort(3).message(), "packet too short (3 bytes)");
    assert_eq!(RtpError::BadVersion(1).message(), "RTP version 1, expected 2");
}

#[test]
fn what_follows_the_header_does_not_change_it() {
    let mut pkt: Vec<u8> = vec![0x80, 97, 0, 1, 0, 0, 0, 2, 0, 0, 0, 3];
    let short = parse(&pkt).unwrap();
    pkt.extend_from_slice(&[1, 2, 3]);
    assert_eq!(parse(&pkt).unwrap(), short);
}
