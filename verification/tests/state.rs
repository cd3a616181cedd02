use ka9q_tci::bridge::BridgeCmd;
use ka9q_tci::config_file::TrxConfig;
use ka9q_tci::tci::protocol::TciCommand;
use ka9q_tci::tci::server::{
    bridge_command, command_lines, forward_frame, greeting, handle_command, react, ClientMessage, Reaction,
    ServerConfig, Session,
};
use ka9q_tci::tci::state::{iq_buffer_size, IqFrame, SharedState, TrxState, VfoState};

fn config() -> ServerConfig {
    ServerConfig::default()
}

fn state() -> SharedState {
    SharedState::new(2, 48_000)
}

/// What a server answers to a line.
fn ask(state: &mut SharedState, session: &mut Session, line: &str) -> Vec<String> {
    session.carry_out(line, state, &config()).unwrap().replies
}

#[test]
fn iq_buffer_size_scales_with_rate() {
    assert!(iq_buffer_size(48_000) >= 200 && iq_buffer_size(48_000) <= 400);
    assert!(iq_buffer_size(96_000) >= 400 && iq_buffer_size(96_000) <= 700);
    assert!(iq_buffer_size(384_000) >= 1800 && iq_buffer_size(384_000) <= 2400);
    assert!(iq_buffer_size(48_000) < iq_buffer_size(96_000));
    assert!(iq_buffer_size(96_000) < iq_buffer_size(192_000));
    assert!(iq_buffer_size(192_000) < iq_buffer_size(384_000));
    assert_eq!(iq_buffer_size(48_000), 266);
}

#[test]
fn iq_buffer_size_clamps_extremes() {
    assert_eq!(iq_buffer_size(0), 128);
    assert_eq!(iq_buffer_size(1), 128);
    assert_eq!(iq_buffer_size(u32::MAX), 8192);
}

#[test]
fn receivers_by_default() {
    let t = TrxState::default();
    assert_eq!(t.dds_freq_hz, 7_074_000);
    assert_eq!(t.vfo[0], VfoState { freq_hz: 7_074_000, if_offset_hz: 0, enabled: true });
    assert_eq!(t.vfo[1], VfoState { freq_hz: 7_074_000, if_offset_hz: 0, enabled: false });
    assert_eq!(t.modulation, "USB");
    assert_eq!((t.filter_low, t.filter_high), (0, 3000));
    assert_eq!(VfoState::default(), t.vfo[0]);
}

#[test]
fn receivers_as_configured() {
    let initial = vec![
        TrxConfig { freq: 1_840_000, modulation: "LSB".to_string(), freq_b: Some(1_841_000) },
        TrxConfig { freq: 3_573_000, modulation: "USB".to_string(), freq_b: None },
    ];
    let s = SharedState::new_with_initial(3, 96_000, &initial);
    assert_eq!(s.trx.len(), 3);
    assert_eq!(s.iq_samplerate, 96_000);
    assert_eq!(s.trx[0].dds_freq_hz, 1_840_000);
    assert_eq!(s.trx[0].vfo[0].freq_hz, 1_840_000);
    assert_eq!(s.trx[0].vfo[1].freq_hz, 1_841_000);
    assert!(!s.trx[0].vfo[1].enabled);
    assert_eq!(s.trx[0].modulation, "LSB");
    assert_eq!(s.trx[1].vfo[1].freq_hz, 3_573_000);
    assert_eq!(s.trx[2].vfo[0].freq_hz, 7_074_000);
    // More configured receivers than there are.
    assert_eq!(SharedState::new_with_initial(1, 96_000, &initial).trx.len(), 1);
}

#[test]
fn state_messages() {
    let s = SharedState::new(1, 48_000);
    assert_eq!(
        s.current_state_messages(),
        vec![
            "tx_enable:0,false;",
            "trx:0,false;",
            "rx_enable:0,true;",
            "dds:0,7074000;",
            "vfo:0,0,7074000;",
            "vfo:0,1,7074000;",
            "rx_channel_enable:0,1,false;",
            "modulation:0,USB;",
            "rx_filter_band:0,0,3000;",
            "start;",
        ]
    );
    assert_eq!(SharedState::new(2, 48_000).current_state_messages().len(), 19);
}

#[test]
fn server_config_by_default() {
    let c = config();
    assert_eq!(c.device_name, "ka9q-RX888");
    assert_eq!((c.trx_count, c.channel_count), (2, 2));
    assert_eq!((c.vfo_min_hz, c.vfo_max_hz), (10_000, 30_000_000));
    assert_eq!((c.if_min_hz, c.if_max_hz), (-24_000, 24_000));
    assert_eq!(
        c.modulations,
        vec!["AM", "SAM", "DSB", "LSB", "USB", "CW", "NFM", "DIGL", "DIGU"]
    );
}

#[test]
fn greeting_is_handshake_then_state() {
    let msgs = greeting(&config(), &state());
    assert_eq!(msgs.len(), 10 + 19);
    assert_eq!(msgs[0], "protocol:ExpertSDR3,1.9;");
    assert_eq!(msgs[7], "modulations_list:AM,SAM,DSB,LSB,USB,CW,NFM,DIGL,DIGU;");
    assert_eq!(msgs[8], "iq_samplerate:48000;");
    assert_eq!(msgs[9], "ready;");
    assert_eq!(msgs[10], "tx_enable:0,false;");
    assert_eq!(msgs[28], "start;");
}

#[test]
fn what_is_set_is_read() {
    let mut s = state();
    let mut c = Session::new(0, &config());
    assert_eq!(ask(&mut s, &mut c, "vfo:1,1,14074000;"), vec!["vfo:1,1,14074000;"]);
    assert_eq!(ask(&mut s, &mut c, "vfo:1,1;"), vec!["vfo:1,1,14074000;"]);
    assert_eq!(ask(&mut s, &mut c, "dds:0,5;"), vec!["dds:0,5;"]);
    assert_eq!(ask(&mut s, &mut c, "DDS:0;"), vec!["dds:0,5;"]);
    assert_eq!(ask(&mut s, &mut c, "if:0,0,-100;"), vec!["if:0,0,-100;"]);
    assert_eq!(ask(&mut s, &mut c, "if:0,0;"), vec!["if:0,0,-100;"]);
    assert_eq!(ask(&mut s, &mut c, "modulation:0,cw;"), vec!["modulation:0,cw;"]);
    assert_eq!(ask(&mut s, &mut c, "modulation:0;"), vec!["modulation:0,cw;"]);
    assert_eq!(
        ask(&mut s, &mut c, "rx_channel_enable:0,1,1;"),
        vec!["rx_channel_enable:0,1,true;"]
    );
    assert_eq!(ask(&mut s, &mut c, "rx_channel_enable:0,1;"), vec!["rx_channel_enable:0,1,true;"]);
    assert_eq!(
        ask(&mut s, &mut c, "rx_filter_band:1,-2900,-70;"),
        vec!["rx_filter_band:1,-2900,-70;"]
    );
    assert_eq!(ask(&mut s, &mut c, "rx_filter_band:1;"), vec!["rx_filter_band:1,-2900,-70;"]);
    assert_eq!(ask(&mut s, &mut c, "iq_samplerate:96000;"), vec!["iq_samplerate:96000;"]);
    assert_eq!(s.iq_samplerate, 96_000);
}

#[test]
fn centre_follows_vfo_a_only() {
    let mut s = state();
    let mut c = Session::new(0, &config());
    ask(&mut s, &mut c, "vfo:0,1,1000;");
    assert_eq!(s.trx[0].dds_freq_hz, 7_074_000);
    ask(&mut s, &mut c, "vfo:0,0,2000;");
    assert_eq!(s.trx[0].dds_freq_hz, 2000);
    assert_eq!(s.trx[0].vfo[1].freq_hz, 1000);
    assert_eq!(s.trx[1].dds_freq_hz, 7_074_000);
}

#[test]
fn commands_out_of_range_are_ignored() {
    let mut s = state();
    let mut c = Session::new(0, &config());
    let before = format!("{:?}", s);
    for line in [
        "vfo:2,0,1;", "vfo:0,2,1;", "vfo:2,0;", "dds:2,1;", "dds:2;", "if:2,0,1;", "if:0,2;",
        "modulation:2,CW;", "modulation:2;", "rx_channel_enable:0,2,true;", "rx_channel_enable:2,0;",
        "rx_filter_band:2,1,2;", "rx_filter_band:4294967295;", "iq_start:2;", "iq_stop:9;",
    ] {
        assert!(ask(&mut s, &mut c, line).is_empty(), "{line}");
    }
    assert_eq!(format!("{:?}", s), before);
    assert_eq!(c.iq_active, vec![false, false]);
}

#[test]
fn start_stop_and_silent_commands() {
    let mut s = state();
    let mut c = Session::new(0, &config());
    assert_eq!(ask(&mut s, &mut c, "START;"), vec!["start;"]);
    assert_eq!(ask(&mut s, &mut c, "Stop;"), vec!["stop;"]);
    assert!(ask(&mut s, &mut c, "spot_clear;").is_empty());
    assert!(ask(&mut s, &mut c, "volume:-12;").is_empty());
    assert!(ask(&mut s, &mut c, "audio_start:0;").is_empty());
}

#[test]
fn lines_that_do_not_parse_change_nothing() {
    let mut s = state();
    let mut c = Session::new(0, &config());
    let before = format!("{:?}", s);
    let e = c.carry_out("vfo:0,0,abc;", &mut s, &config()).unwrap_err();
    assert_eq!(e.message(), "invalid argument: abc");
    assert_eq!(format!("{:?}", s), before);
}

#[test]
fn handled_commands_take_any_slice_of_flags() {
    let mut s = state();
    let mut active = [false; 3];
    let r = handle_command(&TciCommand::IqStart { trx: 2 }, &mut s, &config(), &mut active);
    assert!(r.is_empty());
    assert_eq!(active, [false, false, true]);
    handle_command(&TciCommand::IqStop { trx: 2 }, &mut s, &config(), &mut active);
    assert_eq!(active, [false, false, false]);
}

#[test]
fn commands_need_no_receiver_but_their_own() {
    // Two receivers are announced, one is there.
    let mut s = SharedState::new(1, 48_000);
    let mut c = Session::new(0, &config());
    assert_eq!(ask(&mut s, &mut c, "start;"), vec!["start;"]);
    assert_eq!(ask(&mut s, &mut c, "iq_samplerate:96000;"), vec!["iq_samplerate:96000;"]);
    assert_eq!(ask(&mut s, &mut c, "vfo:0,0,7074000;"), vec!["vfo:0,0,7074000;"]);
    assert!(ask(&mut s, &mut c, "vfo:1,2,7074000;").is_empty());
    assert!(ask(&mut s, &mut c, "dds:2,7074000;").is_empty());
    assert_eq!(s.trx.len(), 1);
}

#[test]
fn frames_go_to_clients_that_started_them() {
    let mut s = state();
    let mut c = Session::new(3, &config());
    let frame = IqFrame { endpoint: 3, trx: 1, data: vec![1, 2] };
    let foreign = IqFrame { endpoint: 2, trx: 1, data: vec![1, 2] };
    assert!(!c.gets(&frame));
    ask(&mut s, &mut c, "iq_start:1;");
    assert!(c.gets(&frame));
    assert!(!c.gets(&foreign));
    assert!(!c.gets(&IqFrame { trx: 0, ..frame.clone() }));
    assert!(!c.gets(&IqFrame { trx: 7, ..frame.clone() }));
    ask(&mut s, &mut c, "iq_stop:1;");
    assert!(!c.gets(&frame));
    assert!(forward_frame(3, &frame, &[false, true]));
}

#[test]
fn messages_of_clients() {
    match react(&ClientMessage::Text("start;\r\n\n  stop;  \n".to_string())) {
        Reaction::CarryOut(lines) => assert_eq!(lines, vec!["start;", "stop;"]),
        _ => panic!("expected lines"),
    }
    match react(&ClientMessage::Ping(vec![1, 2, 3])) {
        Reaction::Pong(data) => assert_eq!(data, vec![1, 2, 3]),
        _ => panic!("expected Pong"),
    }
    assert!(matches!(react(&ClientMessage::Close), Reaction::End));
    assert!(matches!(react(&ClientMessage::Binary), Reaction::Nothing));
    assert!(matches!(react(&ClientMessage::Other), Reaction::Nothing));
    assert!(command_lines(" \n\t\n").is_empty());
}

#[test]
fn confirmations_are_the_commands() {
    let mut s = state();
    let mut c = Session::new(0, &config());
    for line in [
        "vfo:1,1,14074000;", "dds:0,5;", "if:0,0,-100;", "modulation:0,CW;",
        "rx_channel_enable:0,1,false;", "rx_filter_band:1,-2900,70;", "iq_samplerate:96000;",
        "start;", "stop;",
    ] {
        let first = ask(&mut s, &mut c, line);
        assert_eq!(first, vec![line]);
        assert_eq!(ask(&mut s, &mut c, &first[0]), first);
    }
}

#[test]
fn commands_that_concern_the_bridge_are_passed_on() {
    let mut s = state();
    let mut c = Session::new(0, &config());
    let mut request = |line: &str| c.carry_out(line, &mut s, &config()).unwrap().request;
    assert_eq!(
        request("vfo:1,0,14074000;"),
        Some(BridgeCmd::Tune { trx: 1, vfo: 0, freq_hz: 14_074_000 })
    );
    assert_eq!(request("iq_samplerate:96000;"), Some(BridgeCmd::SetSr { samprate: 96_000 }));
    // VFO B, the centre frequency, reads and receivers that there are not.
    for line in ["vfo:1,1,5;", "dds:0,5;", "vfo:0,0;", "vfo:2,0,5;", "vfo:256,0,5;", "iq_start:0;", "x;"] {
        assert_eq!(request(line), None, "{line}");
    }
    let cmd = TciCommand::Vfo { trx: 0, vfo: 0, freq_hz: 3 };
    assert_eq!(
        bridge_command(&cmd, &config()),
        Some(BridgeCmd::Tune { trx: 0, vfo: 0, freq_hz: 3 })
    );
}
