use ka9q_tci::addr::{IpAddr, Ipv4Addr};
use ka9q_tci::bridge::{BridgeCmd, Interval};
use ka9q_tci::config::Args;
use ka9q_tci::config_file::{default_modulation, EndpointConfig, FileConfig, TrxConfig};
use ka9q_tci::endpoints::{
    bridge_config, configured_presets, parse_preset_map, plan_endpoint, plan_endpoints,
    resolve_endpoints, EndpointError, ResolvedEndpoint,
};
use serde_yaml::Value;

fn trx(freq: u64) -> TrxConfig {
    TrxConfig { freq, modulation: default_modulation(), freq_b: None }
}

fn cli_default() -> Args {
    Args {
        status_name: "hf.local".into(),
        bind_addr: "0.0.0.0:40001".into(),
        mcast_iface: None,
        iq_samplerate: 48_000,
        preset_map: "48000:iq48".into(),
        default_preset: "iq48".into(),
        max_trx: 2,
        poll_interval_secs: 5,
        config: None,
    }
}

fn yaml_trx(v: &Value) -> Vec<TrxConfig> {
    v.as_sequence()
        .map(|list| list.iter())
        .into_iter()
        .flatten()
        .map(|t| TrxConfig {
            freq: t["freq"].as_u64().unwrap(),
            modulation: t.get("modulation").map_or_else(default_modulation, |m| {
                m.as_str().unwrap().to_string()
            }),
            freq_b: t.get("freq_b").and_then(Value::as_u64),
        })
        .collect()
}

/// The configuration that a YAML text holds.
fn yaml(text: &str) -> FileConfig {
    let v: Value = serde_yaml::from_str(text).unwrap();
    let endpoints = v.get("endpoints").and_then(Value::as_sequence).map_or(vec![], |list| {
        list.iter()
            .map(|e| EndpointConfig {
                port: e["port"].as_u64().unwrap() as u16,
                label: e.get("label").and_then(Value::as_str).map(String::from),
                iq_samplerate: e.get("iq_samplerate").and_then(Value::as_u64).map(|r| r as u32),
                trx: yaml_trx(&e["trx"]),
            })
            .collect()
    });
    FileConfig { trx: v.get("trx").map_or(vec![], yaml_trx), endpoints }
}

fn endpoint(port: u16, trx: Vec<TrxConfig>) -> EndpointConfig {
    EndpointConfig { port, label: None, iq_samplerate: None, trx }
}

#[test]
fn parse_preset_map_basic() {
    let m = parse_preset_map("12000:iq,48000:iq48,96000:iq96");
    assert_eq!(m.len(), 3);
    assert_eq!(m.get(&12_000).map(String::as_str), Some("iq"));
    assert_eq!(m.get(&48_000).map(String::as_str), Some("iq48"));
    assert_eq!(m.get(&96_000).map(String::as_str), Some("iq96"));
}

#[test]
fn parse_preset_map_handles_whitespace() {
    let m = parse_preset_map(" 48000 : iq48 , 96000:iq96 ");
    assert_eq!(m.get(&48_000).map(String::as_str), Some("iq48"));
    assert_eq!(m.get(&96_000).map(String::as_str), Some("iq96"));
}

#[test]
fn parse_preset_map_skips_malformed() {
    let m = parse_preset_map(",,12000:iq,bad,48000:,:iq48,96000:iq96");
    assert_eq!(m.len(), 2);
    assert!(m.contains_key(&12_000));
    assert!(m.contains_key(&96_000));
    assert!(!m.contains_key(&48_000));
}

#[test]
fn parse_preset_map_empty_input() {
    assert!(parse_preset_map("").is_empty());
    assert!(parse_preset_map("  ,  , ").is_empty());
}

#[test]
fn parse_preset_map_duplicate_keys_last_wins() {
    let m = parse_preset_map("48000:iq48,48000:iqA");
    assert_eq!(m.get(&48_000).map(String::as_str), Some("iqA"));
}

#[test]
fn parse_preset_map_keeps_further_colons() {
    let m = parse_preset_map("48000:a:b,4294967296:x");
    assert_eq!(m.len(), 1);
    assert_eq!(m.get(&48_000).map(String::as_str), Some("a:b"));
}

#[test]
fn presets_without_entries_are_the_default_ones() {
    assert_eq!(configured_presets("nonsense").len(), 3);
    let m = configured_presets("8000:voice");
    assert_eq!(m.len(), 1);
    assert_eq!(m.get(&8000).map(String::as_str), Some("voice"));
    // The option's own default says the same as the built-in presets.
    assert_eq!(parse_preset_map(&Args::default().preset_map), configured_presets(""));
}

#[test]
fn options_by_default() {
    let a = Args::default();
    assert_eq!(a.status_name, "hf.local");
    assert_eq!(a.bind_addr, "0.0.0.0:40001");
    assert_eq!(a.iq_samplerate, 48_000);
    assert_eq!(a.default_preset, "iq48");
    assert_eq!(a.max_trx, 2);
    assert_eq!(a.poll_interval_secs, 5);
    assert!(a.mcast_iface.is_none() && a.config.is_none());
}

#[test]
fn bridge_is_set_up_by_the_options() {
    let mut cli = cli_default();
    let v4 = Ipv4Addr::new(192, 168, 1, 228);
    cli.mcast_iface = Some(IpAddr::V4(v4));
    let cfg = bridge_config(&cli);
    assert_eq!(cfg.status_name, "hf.local");
    assert_eq!(cfg.iface, Some(v4));
    assert_eq!(cfg.poll_interval, Interval { secs: 5, nanos: 0 });
    assert_eq!(cfg.default_samprate, 48_000);
    assert_eq!(cfg.max_trx, 2);
    assert_eq!(cfg.preset_map.len(), 1);
    assert_eq!(cfg.default_preset, "iq48");
    cli.mcast_iface = Some(IpAddr::V6);
    assert_eq!(cli.iface_v4(), None);
}

#[test]
fn resolve_no_yaml_yields_single_default_endpoint() {
    let cli = cli_default();
    let eps = resolve_endpoints(None, &cli).unwrap();
    assert_eq!(eps.len(), 1);
    assert_eq!(eps[0].port, 40001);
    assert_eq!(eps[0].iq_samplerate, 48_000);
    assert!(eps[0].trx.is_empty());
    assert_eq!(eps[0].label, "40001");
}

#[test]
fn resolve_legacy_yaml_yields_single_endpoint_with_trx() {
    let file = yaml("trx:\n  - { freq: 7074000 }\n  - { freq: 14074000 }\n");
    let cli = cli_default();
    let eps = resolve_endpoints(Some(&file), &cli).unwrap();
    assert_eq!(eps.len(), 1);
    assert_eq!(eps[0].port, 40001);
    assert_eq!(eps[0].iq_samplerate, 48_000);
    assert_eq!(eps[0].trx.len(), 2);
}

#[test]
fn resolve_multi_endpoint_yaml_propagates_overrides() {
    let file = yaml(
        r#"
endpoints:
  - port: 40010
    label: 40m
    iq_samplerate: 96000
    trx: [{ freq: 7074000 }]
  - port: 40020
    trx: [{ freq: 14074000 }]
"#,
    );
    let cli = cli_default();
    let eps = resolve_endpoints(Some(&file), &cli).unwrap();
    assert_eq!(eps.len(), 2);
    assert_eq!(eps[0].port, 40010);
    assert_eq!(eps[0].label, "40m");
    assert_eq!(eps[0].iq_samplerate, 96_000);
    assert_eq!(eps[1].port, 40020);
    assert_eq!(eps[1].label, "40020");
    assert_eq!(eps[1].iq_samplerate, 48_000);
}

#[test]
fn resolve_rejects_invalid_bind_port() {
    let mut cli = cli_default();
    cli.bind_addr = "no-port-here".into();
    assert!(resolve_endpoints(None, &cli).is_err());
    cli.bind_addr = "host:abc".into();
    assert!(resolve_endpoints(None, &cli).is_err());
}

#[test]
fn resolve_reads_the_port_behind_the_last_colon() {
    let mut cli = cli_default();
    cli.bind_addr = "[::1]:65535".into();
    assert_eq!(resolve_endpoints(None, &cli).unwrap()[0].port, 65535);
    cli.bind_addr = "host:65536".into();
    assert!(resolve_endpoints(None, &cli).is_err());
    // The port must be there even where no server uses it.
    cli.bind_addr = "host".into();
    let file = FileConfig { trx: vec![], endpoints: vec![endpoint(40020, vec![])] };
    let e = resolve_endpoints(Some(&file), &cli).unwrap_err();
    assert_eq!(e.message(), "--bind-addr host non ha una porta valida");
}

#[test]
fn parse_multi_endpoint_yaml() {
    let cfg = yaml(
        r#"
endpoints:
  - port: 40001
    label: 40m
    iq_samplerate: 48000
    trx:
      - { freq: 7074000, modulation: USB }
  - port: 40002
    trx:
      - { freq: 14074000 }
"#,
    );
    assert!(cfg.has_endpoints());
    assert_eq!(cfg.endpoints.len(), 2);
    let ep0 = &cfg.endpoints[0];
    assert_eq!(ep0.port, 40001);
    assert_eq!(ep0.label.as_deref(), Some("40m"));
    assert_eq!(ep0.iq_samplerate, Some(48000));
    assert_eq!(ep0.trx.len(), 1);
    assert_eq!(ep0.trx[0].freq, 7_074_000);
    let ep1 = &cfg.endpoints[1];
    assert_eq!(ep1.port, 40002);
    assert!(ep1.label.is_none());
    assert!(ep1.iq_samplerate.is_none());
    assert_eq!(ep1.trx[0].modulation, "USB");
}

#[test]
fn parse_full_yaml() {
    let cfg = yaml(
        r#"
trx:
  - freq: 7074000
    modulation: USB
  - freq: 14074000
    modulation: LSB
    freq_b: 14076000
"#,
    );
    assert_eq!(cfg.trx.len(), 2);
    assert_eq!(cfg.trx[0].freq, 7_074_000);
    assert_eq!(cfg.trx[0].modulation, "USB");
    assert_eq!(cfg.trx[0].freq_b, None);
    assert_eq!(cfg.trx[1].freq, 14_074_000);
    assert_eq!(cfg.trx[1].modulation, "LSB");
    assert_eq!(cfg.trx[1].freq_b, Some(14_076_000));
}

#[test]
fn parse_minimal_yaml() {
    let cfg = yaml("trx:\n  - freq: 7074000\n");
    assert_eq!(cfg.trx.len(), 1);
    assert_eq!(cfg.trx[0].modulation, "USB");
}

#[test]
fn parse_empty_yaml_means_defaults() {
    let cfg = yaml("{}");
    assert!(cfg.trx.is_empty());
    assert!(FileConfig::default().trx.is_empty() && !FileConfig::default().has_endpoints());
}

#[test]
fn parse_legacy_yaml_no_endpoints() {
    let cfg = yaml("trx:\n  - freq: 7074000\n");
    assert!(!cfg.has_endpoints());
    assert_eq!(cfg.trx.len(), 1);
    assert!(cfg.endpoints.is_empty());
}

#[test]
fn parse_both_present_endpoints_wins() {
    let cfg = yaml(
        r#"
trx:
  - freq: 7074000
endpoints:
  - port: 40001
    trx:
      - { freq: 14074000 }
"#,
    );
    assert!(cfg.has_endpoints());
    assert_eq!(cfg.endpoints.len(), 1);
    assert_eq!(cfg.trx.len(), 1);
    let eps = resolve_endpoints(Some(&cfg), &cli_default()).unwrap();
    assert_eq!(eps.len(), 1);
    assert_eq!(eps[0].trx[0].freq, 14_074_000);
}

#[test]
fn parse_empty_endpoints_falls_back_to_legacy() {
    let cfg = yaml("endpoints: []\ntrx:\n  - freq: 7074000\n");
    assert!(!cfg.has_endpoints());
    assert_eq!(cfg.trx.len(), 1);
}

fn resolved(port: u16, label: &str, rate: u32, trx: Vec<TrxConfig>) -> ResolvedEndpoint {
    ResolvedEndpoint { port, label: label.to_string(), iq_samplerate: rate, trx }
}

#[test]
fn servers_announce_what_is_configured() {
    let ep = resolved(
        40010,
        "40m",
        96_000,
        vec![trx(7_074_000), trx(0), TrxConfig { freq_b: Some(9), ..trx(7_100_000) }],
    );
    let p = plan_endpoint(4, &ep);
    assert_eq!(p.endpoint_id, 4);
    assert_eq!(p.bind, "0.0.0.0:40010");
    assert_eq!(p.server.device_name, "ka9q-tci/40m");
    assert_eq!(p.server.trx_count, 3);
    assert_eq!((p.server.if_min_hz, p.server.if_max_hz), (-48_000, 48_000));
    assert_eq!((p.server.vfo_min_hz, p.server.vfo_max_hz), (10_000, 30_000_000));
    assert_eq!(p.server.modulations.len(), 9);
    assert_eq!(p.state.trx.len(), 3);
    assert_eq!(p.state.iq_samplerate, 96_000);
    assert_eq!(p.state.trx[2].vfo[1].freq_hz, 9);
    // Receivers without a frequency are not tuned.
    assert_eq!(
        p.tunes,
        vec![
            BridgeCmd::Tune { trx: 0, vfo: 0, freq_hz: 7_074_000 },
            BridgeCmd::Tune { trx: 2, vfo: 0, freq_hz: 7_100_000 },
        ]
    );
}

#[test]
fn servers_have_at_least_one_receiver() {
    let p = plan_endpoint(0, &resolved(1, "x", 48_001, vec![]));
    assert_eq!(p.server.trx_count, 1);
    assert_eq!(p.state.trx.len(), 1);
    assert_eq!(p.server.if_max_hz, 24_000);
    assert!(p.tunes.is_empty());
}

#[test]
fn servers_are_numbered_in_order() {
    let eps: Vec<ResolvedEndpoint> = (0..255).map(|i| resolved(i, "x", 48_000, vec![])).collect();
    let plans = plan_endpoints(&eps).unwrap();
    assert_eq!(plans.len(), 255);
    for (i, p) in plans.iter().enumerate() {
        assert_eq!(p.endpoint_id as usize, i);
    }
    let more: Vec<ResolvedEndpoint> = (0..256).map(|i| resolved(i, "x", 48_000, vec![])).collect();
    let e = plan_endpoints(&more).unwrap_err();
    assert!(matches!(e, EndpointError::TooMany(256)));
    assert_eq!(e.message(), "troppi endpoint (256): max 255 (limite SSRC encoding)");
}

#[test]
fn receivers_beyond_the_largest_number_are_not_used() {
    let file = FileConfig { trx: vec![trx(1), trx(2), trx(3)], endpoints: vec![] };
    let mut cli = cli_default();
    let eps = resolve_endpoints(Some(&file), &cli).unwrap();
    let freqs: Vec<u64> = eps[0].trx.iter().map(|t| t.freq).collect();
    assert_eq!(freqs, vec![1, 2]);
    cli.max_trx = 0;
    assert!(resolve_endpoints(Some(&file), &cli).unwrap()[0].trx.is_empty());
    // Servers that are listed have the receivers that are listed for them.
    let file = FileConfig { trx: vec![], endpoints: vec![endpoint(1, vec![trx(1), trx(2), trx(3)])] };
    assert_eq!(resolve_endpoints(Some(&file), &cli).unwrap()[0].trx.len(), 3);
}

#[test]
fn servers_have_at_most_255_receivers() {
    let p = plan_endpoint(0, &resolved(1, "x", 48_000, (1..=255).map(trx).collect()));
    assert_eq!((p.server.trx_count, p.state.trx.len(), p.tunes.len()), (255, 255, 255));
    let p = plan_endpoint(0, &resolved(1, "x", 48_000, (1..=256).map(trx).collect()));
    assert_eq!((p.server.trx_count, p.state.trx.len(), p.tunes.len()), (255, 255, 255));
    assert_eq!(p.tunes[254], BridgeCmd::Tune { trx: 254, vfo: 0, freq_hz: 255 });
}
