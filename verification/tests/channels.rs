use ka9q_tci::addr::Ipv4Addr;
use ka9q_tci::bridge::{default_preset_map, ssrc_encode, BridgeCmd, Plan};
use ka9q_tci::channels::Channels;
use ka9q_tci::radiod::rtp::RtpError;
use ka9q_tci::radiod::tlv::{StatusType, TlvField, TlvValue};
use ka9q_tci::tci::server::{ServerConfig, Session};
use ka9q_tci::tci::state::SharedState;

fn status(ssrc: u32, group: u8, freq: f64) -> Vec<TlvField> {
    vec![
        TlvField { tag: StatusType::OUTPUT_SSRC.code(), value: TlvValue::Int(ssrc as u64) },
        TlvField {
            tag: StatusType::RADIO_FREQUENCY.code(),
            value: TlvValue::Double(freq.to_bits()),
        },
        TlvField {
            tag: StatusType::OUTPUT_DATA_DEST_SOCKET.code(),
            value: TlvValue::Bytes(vec![239, 0, 0, group, 0x13, 0x8c]),
        },
    ]
}

fn rtp_packet(ssrc: u32) -> Vec<u8> {
    let mut p: Vec<u8> = vec![0x80, 97, 0, 1, 0, 0, 0, 0];
    p.extend_from_slice(&ssrc.to_be_bytes());
    p.extend_from_slice(&[0x40, 0x00, 0xC0, 0x00]);
    p
}

fn dispatch(channels: &mut Channels, endpoint: u8, cmd: BridgeCmd) -> Plan {
    channels.dispatch(endpoint, 48_000, &default_preset_map(), "iq48", cmd)
}

fn tune(trx: u8, freq_hz: u64) -> BridgeCmd {
    BridgeCmd::Tune { trx, vfo: 0, freq_hz }
}

/// The SSRCs that the commands are for, in order.
fn ssrcs(plan: &Plan) -> Vec<u64> {
    let mut out: Vec<u64> = plan
        .commands
        .iter()
        .map(|c| match &c[0] {
            (StatusType::OUTPUT_SSRC, TlvValue::Int(v)) => *v,
            _ => panic!("no SSRC"),
        })
        .collect();
    out.sort();
    out
}

#[test]
fn servers_have_channels_one_after_the_other() {
    let channels = Channels::new(&[2, 1, 3]);
    assert_eq!(channels.channel(0, 0), Some(0));
    assert_eq!(channels.channel(0, 1), Some(1));
    assert_eq!(channels.channel(0, 2), None);
    assert_eq!(channels.channel(1, 0), Some(2));
    assert_eq!(channels.channel(1, 1), None);
    assert_eq!(channels.channel(2, 0), Some(3));
    assert_eq!(channels.channel(2, 2), Some(5));
    assert_eq!(channels.channel(3, 0), None);
    assert_eq!(channels.tables().len(), 3);
    // Sixteen channels are all there are.
    let channels = Channels::new(&[14, 4]);
    assert_eq!(channels.channel(1, 1), Some(15));
    assert_eq!(channels.channel(1, 2), None);
}

#[test]
fn one_server_has_all_channels() {
    let mut channels = Channels::new(&[2]);
    assert_eq!(channels.channel(0, 9), Some(9));
    let plan = dispatch(&mut channels, 0, tune(1, 7_074_000));
    assert_eq!(ssrcs(&plan), vec![ssrc_encode(1, 0) as u64]);
    channels.update_from_status(&status(ssrc_encode(5, 0), 1, 1.0));
    channels.update_from_status(&status(0xDEAD_BEEF, 1, 1.0));
    assert_eq!(channels.tables()[0].len(), 2);
    let frame = channels.ingest(&rtp_packet(ssrc_encode(5, 0)), &[48_000]).unwrap().unwrap();
    assert_eq!((frame.endpoint, frame.trx), (0, 5));
}

#[test]
fn servers_tune_channels_of_their_own() {
    let mut channels = Channels::new(&[1, 2]);
    let a = dispatch(&mut channels, 0, tune(0, 7_074_000));
    let b = dispatch(&mut channels, 1, tune(0, 14_074_000));
    assert_eq!(ssrcs(&a), vec![ssrc_encode(0, 0) as u64]);
    assert_eq!(ssrcs(&b), vec![ssrc_encode(1, 0) as u64]);
    assert_eq!(b.created, Some(ssrc_encode(1, 0)));
    channels.mark_created(1, ssrc_encode(1, 0));
    channels.mark_created(7, ssrc_encode(0, 0));
    assert!(channels.tables()[1].get(ssrc_encode(1, 0)).unwrap().created);
    assert!(!channels.tables()[0].get(ssrc_encode(0, 0)).unwrap().created);
    // Receivers and servers that there are not.
    for (endpoint, trx) in [(0, 1), (1, 2), (2, 0)] {
        let plan = dispatch(&mut channels, endpoint, tune(trx, 1));
        assert!(plan.commands.is_empty());
        assert_eq!(plan.created, None);
    }
    let enable = BridgeCmd::EnableRx { trx: 0, vfo: 0, enable: true };
    assert!(dispatch(&mut channels, 1, enable).commands.is_empty());
    assert_eq!(channels.tables()[0].len() + channels.tables()[1].len(), 2);
}

#[test]
fn rate_of_a_server_is_its_own() {
    let mut channels = Channels::new(&[1, 1]);
    channels.update_from_status(&status(ssrc_encode(0, 0), 1, 7_074_000.0));
    channels.update_from_status(&status(ssrc_encode(1, 0), 1, 14_074_000.0));
    let plan = dispatch(&mut channels, 1, BridgeCmd::SetSr { samprate: 96_000 });
    assert_eq!(ssrcs(&plan), vec![ssrc_encode(1, 0) as u64]);
    let group = |c: &Channels, e: usize| c.tables()[e].get(ssrc_encode(e as u8, 0)).unwrap().data_group;
    assert_eq!(group(&channels, 0), Some(Ipv4Addr::new(239, 0, 0, 1)));
    assert_eq!(group(&channels, 1), None);
}

#[test]
fn status_packets_go_to_the_server_of_their_ssrc() {
    let mut channels = Channels::new(&[2, 1]);
    channels.update_from_status(&status(ssrc_encode(1, 0), 1, 7_074_000.0));
    channels.update_from_status(&status(ssrc_encode(2, 0), 2, 14_074_000.0));
    // A channel of no server, a foreign SSRC, and none.
    channels.update_from_status(&status(ssrc_encode(3, 0), 3, 1.0));
    channels.update_from_status(&status(0x7C11_0000, 4, 1.0));
    channels.update_from_status(&[]);
    assert_eq!(channels.tables()[0].ssrcs(), vec![ssrc_encode(1, 0)]);
    assert_eq!(channels.tables()[1].ssrcs(), vec![ssrc_encode(2, 0)]);
    assert_eq!(channels.tables()[1].get(ssrc_encode(2, 0)).unwrap().freq_hz, 14_074_000);
}

#[test]
fn groups_of_all_servers_are_joined_once() {
    let mut channels = Channels::new(&[2, 2]);
    channels.update_from_status(&status(ssrc_encode(0, 0), 1, 1.0));
    channels.update_from_status(&status(ssrc_encode(1, 0), 2, 1.0));
    channels.update_from_status(&status(ssrc_encode(2, 0), 2, 1.0));
    channels.update_from_status(&status(ssrc_encode(3, 0), 3, 1.0));
    let mut groups: Vec<u8> = channels
        .new_groups(&[Ipv4Addr::new(239, 0, 0, 3)])
        .iter()
        .map(|g| g.d)
        .collect();
    groups.sort();
    assert_eq!(groups, vec![1, 2]);
}

#[test]
fn frames_reach_the_clients_of_their_server() {
    let config = ServerConfig::default();
    let mut state = SharedState::new(2, 96_000);
    let mut first = Session::new(0, &config);
    let mut second = Session::new(1, &config);
    first.carry_out("iq_start:0;", &mut state, &config).unwrap();
    second.carry_out("iq_start:0;", &mut state, &config).unwrap();

    let mut channels = Channels::new(&[2, 2]);
    dispatch(&mut channels, 0, tune(0, 7_074_000));
    dispatch(&mut channels, 1, tune(0, 14_074_000));
    dispatch(&mut channels, 1, tune(1, 14_100_000));
    let rates = [48_000, 96_000];

    let frame = channels.ingest(&rtp_packet(ssrc_encode(2, 0)), &rates).unwrap().unwrap();
    assert_eq!((frame.endpoint, frame.trx), (1, 0));
    assert_eq!(&frame.data[0..4], &0u32.to_le_bytes());
    assert_eq!(&frame.data[4..8], &96_000u32.to_le_bytes());
    assert!(second.gets(&frame));
    assert!(!first.gets(&frame));

    let frame = channels.ingest(&rtp_packet(ssrc_encode(0, 0)), &rates).unwrap().unwrap();
    assert_eq!((frame.endpoint, frame.trx), (0, 0));
    assert_eq!(&frame.data[4..8], &48_000u32.to_le_bytes());
    assert!(first.gets(&frame));
    assert!(!second.gets(&frame));

    // The stream of the second receiver is not started.
    let frame = channels.ingest(&rtp_packet(ssrc_encode(3, 0)), &rates).unwrap().unwrap();
    assert_eq!((frame.endpoint, frame.trx), (1, 1));
    assert!(!second.gets(&frame));

    // A channel that is not known, one of no server, a foreign SSRC, no RTP packet.
    assert!(channels.ingest(&rtp_packet(ssrc_encode(1, 0)), &rates).unwrap().is_none());
    assert!(channels.ingest(&rtp_packet(ssrc_encode(9, 0)), &rates).unwrap().is_none());
    assert!(channels.ingest(&rtp_packet(0xDEAD_BEEF), &rates).unwrap().is_none());
    assert_eq!(channels.ingest(&[0x80], &rates).unwrap_err(), RtpError::TooShort(1));
}
