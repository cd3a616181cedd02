use std::collections::HashMap;

use ka9q_tci::addr::Ipv4Addr;
use ka9q_tci::bridge::{
    choose_preset, decode_s16be_stereo, default_preset_map, dispatch_cmd, ingest_packet, new_groups,
    ssrc_decode, ssrc_encode, task_end, BridgeCmd, BridgeConfig, Interval, Place, Plan, SsrcTable,
};
use ka9q_tci::radiod::rtp::RtpError;
use ka9q_tci::radiod::tlv::{StatusType, TlvField, TlvValue};

fn double(tag: StatusType, v: f64) -> TlvField {
    TlvField { tag: tag.code(), value: TlvValue::Double(v.to_bits()) }
}

fn integer(tag: StatusType, v: u64) -> TlvField {
    TlvField { tag: tag.code(), value: TlvValue::Int(v) }
}

fn bytes(tag: StatusType, v: Vec<u8>) -> TlvField {
    TlvField { tag: tag.code(), value: TlvValue::Bytes(v) }
}

fn floats(samples: &[(u32, u32)]) -> Vec<(f32, f32)> {
    samples.iter().map(|(i, q)| (f32::from_bits(*i), f32::from_bits(*q))).collect()
}

/// A command as (ssrc, preset, frequency).
fn tuning(command: &[(StatusType, TlvValue)]) -> (u64, Option<String>, f64) {
    let mut ssrc: u64 = 0;
    let mut preset: Option<String> = None;
    let mut freq: f64 = -1.0;
    for (tag, value) in command {
        match (tag, value) {
            (StatusType::OUTPUT_SSRC, TlvValue::Int(v)) => ssrc = *v,
            (StatusType::PRESET, TlvValue::Bytes(b)) => {
                preset = Some(String::from_utf8(b.clone()).unwrap());
            }
            (StatusType::RADIO_FREQUENCY, TlvValue::Double(b)) => freq = f64::from_bits(*b),
            _ => panic!("unexpected field"),
        }
    }
    (ssrc, preset, freq)
}

fn dispatch(table: &mut SsrcTable, rate: u32, cmd: BridgeCmd) -> Plan {
    let map: HashMap<u32, String> = default_preset_map();
    dispatch_cmd(table, rate, &map, "fallback", cmd)
}

#[test]
fn encode_decode_roundtrip() {
    for trx in 0u8..=15 {
        for vfo in 0u8..=15 {
            let ssrc = ssrc_encode(trx, vfo);
            let decoded = ssrc_decode(ssrc);
            assert_eq!(
                decoded,
                Some((trx, vfo)),
                "roundtrip fallito per trx={trx} vfo={vfo}: ssrc={ssrc:#010x}"
            );
        }
    }
}

#[test]
fn decode_rejects_foreign_ssrc() {
    assert_eq!(ssrc_decode(0xDEAD_BEEF), None);
    assert_eq!(ssrc_decode(0x0000_0000), None);
    assert_eq!(ssrc_decode(0xFFFF_FFFF), None);
    assert_eq!(ssrc_decode(0x7C11_0000), None);
}

#[test]
fn ssrc_layout() {
    assert_eq!(ssrc_encode(0, 0), 0x7C10_0000);
    assert_eq!(ssrc_encode(3, 1), 0x7C10_0031);
    // Larger numbers lose their high bits.
    assert_eq!(ssrc_encode(0x13, 0xF2), 0x7C10_0032);
}

#[test]
fn get_or_insert_idempotent() {
    let mut table = SsrcTable::new();
    let ssrc_a = table.get_or_insert(3, 1).ssrc;
    let ssrc_b = table.get_or_insert(3, 1).ssrc;
    assert_eq!(ssrc_a, ssrc_b, "SSRC deve essere lo stesso alla seconda chiamata");
    assert_eq!(table.len(), 1, "table deve avere un solo elemento");
}

#[test]
fn get_or_insert_hands_out_the_entry() {
    let mut table = SsrcTable::default();
    assert!(table.is_empty());
    table.get_or_insert(1, 0).freq_hz = 7;
    assert_eq!(table.get(ssrc_encode(1, 0)).unwrap().freq_hz, 7);
    assert!(table.get(ssrc_encode(1, 1)).is_none());
    assert!(!table.is_empty());
}

#[test]
fn update_from_status_partial() {
    let mut table = SsrcTable::new();
    let ssrc = ssrc_encode(0, 0);
    let fields = vec![
        integer(StatusType::OUTPUT_SSRC, ssrc as u64),
        double(StatusType::RADIO_FREQUENCY, 14_074_000.0),
    ];
    table.update_from_status(&fields);
    assert_eq!(table.len(), 1);
    let ch = table.get(ssrc).expect("il canale deve esistere dopo update");
    assert_eq!(ch.freq_hz, 14_074_000, "freq_hz deve essere aggiornata");
    assert_eq!(ch.samprate, 0, "samprate deve restare 0 (non presente nei fields)");
    assert!(
        !ch.created,
        "update_from_status NON deve toccare `created` — solo mark_created lo fa"
    );
}

#[test]
fn update_from_status_does_not_imply_created() {
    let mut table = SsrcTable::new();
    let ssrc = ssrc_encode(0, 0);
    let fields = vec![
        integer(StatusType::OUTPUT_SSRC, ssrc as u64),
        double(StatusType::RADIO_FREQUENCY, 14_074_000.0),
        integer(StatusType::OUTPUT_SAMPRATE, 48_000),
    ];
    table.update_from_status(&fields);
    let ch = table.get(ssrc).expect("canale presente");
    assert!(!ch.created);
    table.mark_created(ssrc);
    let ch = table.get(ssrc).unwrap();
    assert!(ch.created);
    assert_eq!(ch.samprate, 48_000);
}

#[test]
fn update_from_status_ignores_foreign() {
    let mut table = SsrcTable::new();
    let fields = vec![
        integer(StatusType::OUTPUT_SSRC, 0xDEAD_BEEF),
        double(StatusType::RADIO_FREQUENCY, 7_074_000.0),
    ];
    table.update_from_status(&fields);
    assert!(table.is_empty(), "table deve restare vuota per SSRC estranei");
}

#[test]
fn update_from_status_extracts_data_group_ipv4() {
    let mut table = SsrcTable::new();
    let ssrc = ssrc_encode(1, 0);
    let sockaddr_in = vec![239u8, 22, 92, 109, 0x13, 0x88];
    let fields = vec![
        integer(StatusType::OUTPUT_SSRC, ssrc as u64),
        bytes(StatusType::OUTPUT_DATA_DEST_SOCKET, sockaddr_in),
    ];
    table.update_from_status(&fields);
    let ch = table.get(ssrc).expect("canale presente");
    assert_eq!(ch.data_group, Some(Ipv4Addr::new(239, 22, 92, 109)));
}

#[test]
fn update_from_status_data_group_anomalous_length_ignored() {
    let mut table = SsrcTable::new();
    let ssrc = ssrc_encode(0, 0);
    let fields = vec![
        integer(StatusType::OUTPUT_SSRC, ssrc as u64),
        bytes(StatusType::OUTPUT_DATA_DEST_SOCKET, vec![1, 2, 3, 4, 5]),
    ];
    table.update_from_status(&fields);
    let ch = table.get(ssrc).expect("canale presente");
    assert_eq!(ch.data_group, None, "lunghezza anomala non deve popolare data_group");
}

#[test]
fn update_from_status_ipv6_group_ignored() {
    let mut table = SsrcTable::new();
    let ssrc = ssrc_encode(0, 0);
    table.update_from_status(&[
        integer(StatusType::OUTPUT_SSRC, ssrc as u64),
        bytes(StatusType::OUTPUT_DATA_DEST_SOCKET, vec![1; 18]),
    ]);
    assert_eq!(table.get(ssrc).unwrap().data_group, None);
}

#[test]
fn update_from_status_no_ssrc_field() {
    let mut table = SsrcTable::new();
    let fields = vec![double(StatusType::RADIO_FREQUENCY, 3_573_000.0)];
    table.update_from_status(&fields);
    assert!(table.is_empty(), "table deve restare vuota se manca OUTPUT_SSRC");
}

#[test]
fn update_from_status_keeps_what_is_not_said() {
    let mut table = SsrcTable::new();
    let ssrc = ssrc_encode(2, 1);
    table.update_from_status(&[
        integer(StatusType::OUTPUT_SSRC, ssrc as u64),
        double(StatusType::RADIO_FREQUENCY, 14_074_000.4),
        integer(StatusType::OUTPUT_SAMPRATE, 96_000),
        bytes(StatusType::OUTPUT_DATA_DEST_SOCKET, vec![239, 1, 2, 3, 0, 0]),
    ]);
    table.mark_created(ssrc);
    table.update_from_status(&[integer(StatusType::OUTPUT_SSRC, ssrc as u64)]);
    let ch = table.get(ssrc).unwrap();
    assert_eq!(ch.freq_hz, 14_074_000);
    assert_eq!(ch.samprate, 96_000);
    assert_eq!(ch.data_group, Some(Ipv4Addr::new(239, 1, 2, 3)));
    assert!(ch.created);
    assert_eq!((ch.trx, ch.vfo), (2, 1));
}

#[test]
fn update_from_status_takes_single_precision() {
    let mut table = SsrcTable::new();
    let ssrc = ssrc_encode(0, 0);
    table.update_from_status(&[
        integer(StatusType::OUTPUT_SSRC, ssrc as u64),
        TlvField {
            tag: StatusType::RADIO_FREQUENCY.code(),
            value: TlvValue::Float(1000.5f32.to_bits()),
        },
    ]);
    assert_eq!(table.get(ssrc).unwrap().freq_hz, 1001);
}

#[test]
fn update_from_status_skips_ssrc_that_is_no_integer() {
    let mut table = SsrcTable::new();
    let ssrc = ssrc_encode(4, 0);
    table.update_from_status(&[
        bytes(StatusType::OUTPUT_SSRC, vec![1]),
        integer(StatusType::OUTPUT_SSRC, ssrc as u64 + 0x1_0000_0000),
    ]);
    assert!(table.get(ssrc).is_some());
}

#[test]
fn update_from_status_ignores_values_of_another_kind() {
    let mut table = SsrcTable::new();
    let ssrc = ssrc_encode(0, 0);
    table.update_from_status(&[
        integer(StatusType::OUTPUT_SSRC, ssrc as u64),
        double(StatusType::RADIO_FREQUENCY, 7_074_000.0),
        integer(StatusType::OUTPUT_SAMPRATE, 48_000),
        bytes(StatusType::OUTPUT_DATA_DEST_SOCKET, vec![239, 1, 2, 3, 0x13, 0x8c]),
    ]);
    let before = *table.get(ssrc).unwrap();
    table.update_from_status(&[
        integer(StatusType::OUTPUT_SSRC, ssrc as u64),
        integer(StatusType::RADIO_FREQUENCY, 14_074_000),
        double(StatusType::OUTPUT_SAMPRATE, 96_000.0),
        integer(StatusType::OUTPUT_DATA_DEST_SOCKET, 1),
    ]);
    assert_eq!(*table.get(ssrc).unwrap(), before);
}

#[test]
fn update_from_status_takes_the_last_usable_value() {
    let mut table = SsrcTable::new();
    let ssrc = ssrc_encode(0, 0);
    table.update_from_status(&[
        integer(StatusType::OUTPUT_SSRC, ssrc as u64),
        double(StatusType::RADIO_FREQUENCY, 7_074_000.0),
        double(StatusType::RADIO_FREQUENCY, 14_074_000.0),
        integer(StatusType::RADIO_FREQUENCY, 1),
        integer(StatusType::OUTPUT_SAMPRATE, 48_000),
        integer(StatusType::OUTPUT_SAMPRATE, 96_000),
        bytes(StatusType::OUTPUT_DATA_DEST_SOCKET, vec![239, 1, 2, 3, 0x13, 0x8c]),
        bytes(StatusType::OUTPUT_DATA_DEST_SOCKET, vec![239, 1, 2, 4, 0x13, 0x8c]),
        bytes(StatusType::OUTPUT_DATA_DEST_SOCKET, vec![239, 1, 2, 5]),
    ]);
    let ch = table.get(ssrc).unwrap();
    assert_eq!(ch.freq_hz, 14_074_000);
    assert_eq!(ch.samprate, 96_000);
    assert_eq!(ch.data_group, Some(Ipv4Addr::new(239, 1, 2, 4)));
}

#[test]
fn mark_and_invalidate() {
    let mut table = SsrcTable::new();
    let ssrc = ssrc_encode(0, 0);
    // Unknown channels are not made known.
    table.mark_created(ssrc);
    table.invalidate(ssrc);
    assert!(table.is_empty());
    table.get_or_insert(0, 0).data_group = Some(Ipv4Addr::new(239, 0, 0, 1));
    table.mark_created(ssrc);
    assert!(table.get(ssrc).unwrap().created);
    table.invalidate(ssrc);
    let ch = table.get(ssrc).unwrap();
    assert!(!ch.created);
    assert_eq!(ch.data_group, None);
}

#[test]
fn iter_gives_every_channel_once() {
    let mut table = SsrcTable::new();
    table.get_or_insert(0, 0);
    table.get_or_insert(1, 0);
    table.get_or_insert(0, 1);
    let mut found: Vec<(u8, u8)> = table.iter().iter().map(|c| (c.trx, c.vfo)).collect();
    found.sort();
    assert_eq!(found, vec![(0, 0), (0, 1), (1, 0)]);
    let mut ssrcs = table.ssrcs();
    ssrcs.sort();
    assert_eq!(ssrcs, vec![0x7C10_0000, 0x7C10_0001, 0x7C10_0010]);
}

#[test]
fn default_presets() {
    let m = default_preset_map();
    assert_eq!(m.len(), 3);
    assert_eq!(m.get(&12_000).map(String::as_str), Some("iq"));
    assert_eq!(m.get(&48_000).map(String::as_str), Some("iq48"));
    assert_eq!(m.get(&96_000).map(String::as_str), Some("iq96"));
    assert_eq!(choose_preset(&m, 96_000, "x"), "iq96");
    assert_eq!(choose_preset(&m, 192_000, "x"), "x");
}

#[test]
fn tune_sends_preset_once() {
    let mut table = SsrcTable::new();
    let first = dispatch(&mut table, 48_000, BridgeCmd::Tune { trx: 1, vfo: 0, freq_hz: 7_074_000 });
    assert_eq!(first.commands.len(), 1);
    assert_eq!(first.commands[0].len(), 3);
    assert_eq!(
        tuning(&first.commands[0]),
        (0x7C10_0010, Some("iq48".to_string()), 7_074_000.0)
    );
    assert_eq!(first.created, Some(0x7C10_0010));
    // Not noted as created yet: the preset is sent again.
    let again = dispatch(&mut table, 12_000, BridgeCmd::Tune { trx: 1, vfo: 0, freq_hz: 1 });
    assert_eq!(tuning(&again.commands[0]).1, Some("iq".to_string()));
    table.mark_created(0x7C10_0010);
    let later = dispatch(&mut table, 48_000, BridgeCmd::Tune { trx: 1, vfo: 0, freq_hz: 7_100_000 });
    assert_eq!(later.commands[0].len(), 2);
    assert_eq!(tuning(&later.commands[0]), (0x7C10_0010, None, 7_100_000.0));
    assert_eq!(later.created, None);
    assert_eq!(table.len(), 1);
}

#[test]
fn tune_falls_back_to_default_preset() {
    let mut table = SsrcTable::new();
    let plan = dispatch(&mut table, 192_000, BridgeCmd::Tune { trx: 0, vfo: 0, freq_hz: 5 });
    assert_eq!(tuning(&plan.commands[0]).1, Some("fallback".to_string()));
}

#[test]
fn rate_change_retunes_tuned_channels() {
    let mut table = SsrcTable::new();
    table.get_or_insert(0, 0).freq_hz = 7_074_000;
    table.get_or_insert(1, 0).freq_hz = 14_074_000;
    table.get_or_insert(2, 0).data_group = Some(Ipv4Addr::new(239, 0, 0, 2));
    for trx in 0..3 {
        table.mark_created(ssrc_encode(trx, 0));
    }
    let plan = dispatch(&mut table, 48_000, BridgeCmd::SetSr { samprate: 96_000 });
    let mut sent: Vec<(u64, u64)> = plan
        .commands
        .iter()
        .map(|c| {
            let (ssrc, preset, freq) = tuning(c);
            assert_eq!(preset, Some("iq96".to_string()));
            (ssrc, freq as u64)
        })
        .collect();
    sent.sort();
    assert_eq!(sent, vec![(0x7C10_0000, 7_074_000), (0x7C10_0010, 14_074_000)]);
    assert_eq!(plan.created, None);
    assert!(!table.get(ssrc_encode(0, 0)).unwrap().created);
    assert!(!table.get(ssrc_encode(1, 0)).unwrap().created);
    // The channel that is not tuned stays as it is.
    let idle = table.get(ssrc_encode(2, 0)).unwrap();
    assert!(idle.created);
    assert_eq!(idle.data_group, Some(Ipv4Addr::new(239, 0, 0, 2)));
    // The next tuning sends a preset again.
    let next = dispatch(&mut table, 96_000, BridgeCmd::Tune { trx: 0, vfo: 0, freq_hz: 7_000_000 });
    assert_eq!(tuning(&next.commands[0]).1, Some("iq96".to_string()));
}

#[test]
fn rate_change_without_tuned_channels_sends_nothing() {
    let mut table = SsrcTable::new();
    table.get_or_insert(0, 0);
    let plan = dispatch(&mut table, 48_000, BridgeCmd::SetSr { samprate: 96_000 });
    assert!(plan.commands.is_empty());
}

#[test]
fn enable_sends_nothing() {
    let mut table = SsrcTable::new();
    let plan = dispatch(&mut table, 48_000, BridgeCmd::EnableRx { trx: 0, vfo: 0, enable: true });
    assert!(plan.commands.is_empty());
    assert_eq!(plan.created, None);
    assert!(table.is_empty());
}

#[test]
fn groups_are_joined_once() {
    let a = Ipv4Addr::new(239, 0, 0, 1);
    let b = Ipv4Addr::new(239, 0, 0, 2);
    let mut table = SsrcTable::new();
    table.get_or_insert(0, 0).data_group = Some(a);
    table.get_or_insert(1, 0).data_group = Some(a);
    table.get_or_insert(2, 0).data_group = Some(b);
    table.get_or_insert(3, 0);
    let all = new_groups(&table, &[]);
    assert_eq!(all.len(), 2);
    assert!(all.contains(&a) && all.contains(&b));
    assert_eq!(new_groups(&table, &[a]), vec![b]);
    assert!(new_groups(&table, &[b, a]).is_empty());
}

#[test]
fn decode_s16be_stereo_basic() {
    let payload: Vec<u8> = vec![
        0x00, 0x01, 0xFF, 0xFF,
        0x40, 0x00, 0xC0, 0x00,
    ];
    let samples = floats(&decode_s16be_stereo(&payload));
    assert_eq!(samples.len(), 2);
    assert!((samples[0].0 - (1.0 / 32768.0)).abs() < 1e-9);
    assert!((samples[0].1 - (-1.0 / 32768.0)).abs() < 1e-9);
    assert!((samples[1].0 - 0.5).abs() < 1e-9);
    assert!((samples[1].1 - (-0.5)).abs() < 1e-9);
}

#[test]
fn decode_s16be_stereo_full_scale() {
    let payload: Vec<u8> = vec![
        0x80, 0x00, 0x7F, 0xFF,
    ];
    let samples = floats(&decode_s16be_stereo(&payload));
    assert_eq!(samples.len(), 1);
    assert!((samples[0].0 - (-1.0)).abs() < 1e-9);
    assert!((samples[0].1 - (32767.0 / 32768.0)).abs() < 1e-9);
}

#[test]
fn decode_s16be_stereo_drops_partial() {
    let payload: Vec<u8> = vec![
        0x40, 0x00, 0xC0, 0x00,
        0x12, 0x34,
    ];
    let samples = floats(&decode_s16be_stereo(&payload));
    assert_eq!(samples.len(), 1);
    assert!((samples[0].0 - 0.5).abs() < 1e-9);
    assert!((samples[0].1 - (-0.5)).abs() < 1e-9);
}

fn rtp_packet(ssrc: u32, payload: &[u8]) -> Vec<u8> {
    let mut p: Vec<u8> = vec![0x80, 97, 0, 1, 0, 0, 0, 0];
    p.extend_from_slice(&ssrc.to_be_bytes());
    p.extend_from_slice(payload);
    p
}

const ALONE: Place = Place { endpoint: 0, first: 0 };

#[test]
fn packets_become_frames() {
    let mut table = SsrcTable::new();
    table.get_or_insert(1, 0);
    let pkt = rtp_packet(ssrc_encode(1, 0), &[0x40, 0x00, 0xC0, 0x00]);
    let frame = ingest_packet(&pkt, &table, ALONE, 48_000).unwrap().unwrap();
    assert_eq!(frame.endpoint, 0);
    assert_eq!(frame.trx, 1);
    assert_eq!(frame.data.len(), 64 + 8);
    assert_eq!(&frame.data[0..4], &1u32.to_le_bytes());
    assert_eq!(&frame.data[4..8], &48_000u32.to_le_bytes());
    assert_eq!(&frame.data[64..68], &0.5f32.to_le_bytes());
    assert_eq!(&frame.data[68..72], &(-0.5f32).to_le_bytes());
}

#[test]
fn frames_are_of_their_server() {
    let mut table = SsrcTable::new();
    table.get_or_insert(3, 0);
    let pkt = rtp_packet(ssrc_encode(3, 0), &[0x40, 0x00, 0xC0, 0x00]);
    let place = Place { endpoint: 2, first: 3 };
    let frame = ingest_packet(&pkt, &table, place, 96_000).unwrap().unwrap();
    assert_eq!((frame.endpoint, frame.trx), (2, 0));
    assert_eq!(&frame.data[0..4], &0u32.to_le_bytes());
    assert_eq!(&frame.data[4..8], &96_000u32.to_le_bytes());
    // A channel in front of those of the server.
    let place = Place { endpoint: 2, first: 4 };
    assert!(ingest_packet(&pkt, &table, place, 96_000).unwrap().is_none());
}

#[test]
fn packets_without_use_are_dropped() {
    let mut table = SsrcTable::new();
    table.get_or_insert(1, 0);
    // An SSRC that is not in the table.
    let pkt = rtp_packet(ssrc_encode(0, 0), &[1, 2, 3, 4]);
    assert!(ingest_packet(&pkt, &table, ALONE, 48_000).unwrap().is_none());
    // Not one whole pair.
    let pkt = rtp_packet(ssrc_encode(1, 0), &[1, 2, 3]);
    assert!(ingest_packet(&pkt, &table, ALONE, 48_000).unwrap().is_none());
    // No RTP packet.
    assert_eq!(ingest_packet(&[0x80, 97], &table, ALONE, 48_000).unwrap_err(), RtpError::TooShort(2));
}

#[test]
fn bridge_needs_time_between_polls() {
    let mut cfg = BridgeConfig {
        status_name: "hf.local".to_string(),
        iface: None,
        poll_interval: Interval::from_secs(0),
        default_samprate: 48_000,
        max_trx: 2,
        preset_map: default_preset_map(),
        default_preset: "iq48".to_string(),
    };
    assert_eq!(cfg.check(), Err("poll_interval must be > 0"));
    cfg.poll_interval = Interval::from_secs(5);
    assert_eq!(cfg.check(), Ok(()));
    cfg.poll_interval = Interval { secs: 0, nanos: 1 };
    assert_eq!(cfg.check(), Ok(()));
}

#[test]
fn ends_of_tasks() {
    assert_eq!(task_end("poll_task", None), "poll_task ended unexpectedly");
    assert_eq!(task_end("rtp_task", Some("boom")), "rtp_task panicked: boom");
}
