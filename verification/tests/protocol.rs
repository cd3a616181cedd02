use ka9q_tci::tci::protocol::{
    build_iq_frame, format_msg, handshake_messages, parse_command, SampleType, StreamType,
    TciCommand, TciParseError, STREAM_HEADER_SIZE,
};

#[test]
fn parse_vfo_set() {
    let cmd = parse_command("vfo:0,0,14074000;").unwrap();
    match cmd {
        TciCommand::Vfo { trx, vfo, freq_hz } => {
            assert_eq!(trx, 0);
            assert_eq!(vfo, 0);
            assert_eq!(freq_hz, 14_074_000);
        }
        _ => panic!("expected Vfo set"),
    }
}

#[test]
fn parse_vfo_read() {
    let cmd = parse_command("VFO:0,1;").unwrap();
    assert!(matches!(cmd, TciCommand::VfoRead { trx: 0, vfo: 1 }));
}

#[test]
fn parse_dds_set() {
    let cmd = parse_command("DDS:0,7100000;").unwrap();
    assert!(matches!(cmd, TciCommand::Dds { trx: 0, freq_hz: 7_100_000 }));
}

#[test]
fn parse_dds_read() {
    let cmd = parse_command("DDS:0;").unwrap();
    assert!(matches!(cmd, TciCommand::DdsRead { trx: 0 }));
}

#[test]
fn parse_if_set() {
    let cmd = parse_command("IF:0,1,-17550;").unwrap();
    match cmd {
        TciCommand::If { trx, vfo, offset_hz } => {
            assert_eq!(trx, 0);
            assert_eq!(vfo, 1);
            assert_eq!(offset_hz, -17550);
        }
        _ => panic!("expected If set"),
    }
}

#[test]
fn parse_rx_filter_band() {
    let cmd = parse_command("RX_FILTER_BAND:1,-2900,-70;").unwrap();
    assert!(matches!(
        cmd,
        TciCommand::RxFilterBand { trx: 1, low: -2900, high: -70 }
    ));
}

#[test]
fn parse_modulation_set() {
    let cmd = parse_command("MODULATION:0,LSB;").unwrap();
    match cmd {
        TciCommand::Modulation { trx, mode } => {
            assert_eq!(trx, 0);
            assert_eq!(mode, "LSB");
        }
        _ => panic!("expected Modulation"),
    }
}

#[test]
fn parse_iq_start() {
    let cmd = parse_command("IQ_START:0;").unwrap();
    assert!(matches!(cmd, TciCommand::IqStart { trx: 0 }));
}

#[test]
fn parse_start_stop() {
    assert!(matches!(parse_command("START;").unwrap(), TciCommand::Start));
    assert!(matches!(parse_command("stop;").unwrap(), TciCommand::Stop));
}

#[test]
fn parse_unknown_goes_to_other() {
    let cmd = parse_command("VOLUME:-12;").unwrap();
    match cmd {
        TciCommand::Other { name, args } => {
            assert_eq!(name, "VOLUME");
            assert_eq!(args, vec!["-12"]);
        }
        _ => panic!("expected Other"),
    }
}

#[test]
fn parse_cw_macros() {
    let cmd = parse_command("cw_macros:0,TU RA6LH 599;").unwrap();
    match cmd {
        TciCommand::CwMacros { trx, text } => {
            assert_eq!(trx, 0);
            assert_eq!(text, "TU RA6LH 599");
        }
        _ => panic!("expected CwMacros"),
    }
}

#[test]
fn parse_cw_macros_with_commas() {
    match parse_command("CW_MACROS:1,a,,b;").unwrap() {
        TciCommand::CwMacros { trx, text } => {
            assert_eq!(trx, 1);
            assert_eq!(text, "a,,b");
        }
        _ => panic!("expected CwMacros"),
    }
}

#[test]
fn parse_the_other_reads() {
    assert!(matches!(parse_command("if:1,0;").unwrap(), TciCommand::IfRead { trx: 1, vfo: 0 }));
    assert!(matches!(parse_command("modulation:1;").unwrap(), TciCommand::ModulationRead { trx: 1 }));
    assert!(matches!(
        parse_command("rx_channel_enable:0,1;").unwrap(),
        TciCommand::RxChannelEnableRead { trx: 0, channel: 1 }
    ));
    assert!(matches!(
        parse_command("rx_filter_band:3;").unwrap(),
        TciCommand::RxFilterBandRead { trx: 3 }
    ));
}

#[test]
fn parse_streams() {
    assert!(matches!(
        parse_command("iq_samplerate:96000;").unwrap(),
        TciCommand::IqSamplerate { rate: 96_000 }
    ));
    assert!(matches!(parse_command("IQ_STOP:1;").unwrap(), TciCommand::IqStop { trx: 1 }));
    assert!(matches!(
        parse_command("audio_samplerate:8000;").unwrap(),
        TciCommand::AudioSamplerate { rate: 8000 }
    ));
    assert!(matches!(parse_command("audio_start:0;").unwrap(), TciCommand::AudioStart { trx: 0 }));
    assert!(matches!(parse_command("audio_stop:2;").unwrap(), TciCommand::AudioStop { trx: 2 }));
    assert!(matches!(
        parse_command("audio_stream_channels:2;").unwrap(),
        TciCommand::AudioStreamChannels { channels: 2 }
    ));
    assert!(matches!(
        parse_command("audio_stream_samples:512;").unwrap(),
        TciCommand::AudioStreamSamples { count: 512 }
    ));
    match parse_command("audio_stream_sample_type:Float32;").unwrap() {
        TciCommand::AudioStreamSampleType { sample_type } => assert_eq!(sample_type, "Float32"),
        _ => panic!("expected AudioStreamSampleType"),
    }
}

#[test]
fn parse_spots() {
    match parse_command("SPOT:RA6LH,CW,14025000,16711680,ANY TEXT;").unwrap() {
        TciCommand::Spot { callsign, mode, freq_hz, color, text } => {
            assert_eq!(callsign, "RA6LH");
            assert_eq!(mode, "CW");
            assert_eq!(freq_hz, 14_025_000);
            assert_eq!(color, 16_711_680);
            assert_eq!(text, "ANY TEXT");
        }
        _ => panic!("expected Spot"),
    }
    match parse_command("spot_delete:RA6LH;").unwrap() {
        TciCommand::SpotDelete { callsign } => assert_eq!(callsign, "RA6LH"),
        _ => panic!("expected SpotDelete"),
    }
    assert!(matches!(parse_command("spot_clear;").unwrap(), TciCommand::SpotClear));
    // A spot with another number of arguments is kept as it came.
    match parse_command("spot:a,b;").unwrap() {
        TciCommand::Other { name, args } => {
            assert_eq!(name, "SPOT");
            assert_eq!(args, vec!["a", "b"]);
        }
        _ => panic!("expected Other"),
    }
}

#[test]
fn parse_sensors_and_switches() {
    assert!(matches!(
        parse_command("rx_sensors_enable:true;").unwrap(),
        TciCommand::RxSensorsEnable { enable: true, interval_ms: None }
    ));
    assert!(matches!(
        parse_command("rx_sensors_enable:0,200,9;").unwrap(),
        TciCommand::RxSensorsEnable { enable: false, interval_ms: Some(200) }
    ));
    assert!(matches!(
        parse_command("rx_channel_enable:0,1, TRUE ;").unwrap(),
        TciCommand::RxChannelEnable { trx: 0, channel: 1, enable: true }
    ));
    assert!(matches!(parse_command("cw_macros_stop;").unwrap(), TciCommand::CwMacrosStop));
}

#[test]
fn parse_tolerates_white_space_and_case() {
    assert!(matches!(
        parse_command(" \t Vfo: 0 ,\u{a0}1, +7074000 ;\r\n").unwrap(),
        TciCommand::Vfo { trx: 0, vfo: 1, freq_hz: 7_074_000 }
    ));
}

#[test]
fn parse_refused_messages() {
    assert!(matches!(parse_command(""), Err(TciParseError::Empty)));
    assert!(matches!(parse_command(" \n"), Err(TciParseError::Empty)));
    assert!(matches!(parse_command("VFO:0,0"), Err(TciParseError::NoTerminator)));
    match parse_command("IQ_START:0,1;") {
        Err(TciParseError::BadArgCount { cmd, expected, got }) => {
            assert_eq!(cmd, "IQ_START");
            assert_eq!(expected, 1);
            assert_eq!(got, 2);
        }
        _ => panic!("expected BadArgCount"),
    }
    match parse_command("iq_start;") {
        Err(TciParseError::BadArgCount { got, .. }) => assert_eq!(got, 0),
        _ => panic!("expected BadArgCount"),
    }
    match parse_command("VFO:0, x,1;") {
        Err(TciParseError::BadArg(s)) => assert_eq!(s, " x"),
        _ => panic!("expected BadArg"),
    }
    // The first argument that cannot be read is the one that is named.
    match parse_command("VFO:a,b,c;") {
        Err(TciParseError::BadArg(s)) => assert_eq!(s, "a"),
        _ => panic!("expected BadArg"),
    }
    assert!(matches!(parse_command("VFO:-1,0,1;"), Err(TciParseError::BadArg(_))));
    assert!(matches!(parse_command("VFO:4294967296,0,1;"), Err(TciParseError::BadArg(_))));
    assert!(matches!(parse_command("RX_FILTER_BAND:0,2147483648,0;"), Err(TciParseError::BadArg(_))));
    assert!(matches!(parse_command("rx_channel_enable:0,0,yes;"), Err(TciParseError::BadArg(_))));
}

#[test]
fn parse_limits_of_numbers() {
    assert!(matches!(
        parse_command("VFO:4294967295,0,18446744073709551615;").unwrap(),
        TciCommand::Vfo { trx: u32::MAX, vfo: 0, freq_hz: u64::MAX }
    ));
    assert!(matches!(
        parse_command("IF:0,0,-9223372036854775808;").unwrap(),
        TciCommand::If { offset_hz: i64::MIN, .. }
    ));
    assert!(matches!(
        parse_command("RX_FILTER_BAND:0,-2147483648,2147483647;").unwrap(),
        TciCommand::RxFilterBand { trx: 0, low: i32::MIN, high: i32::MAX }
    ));
}

#[test]
fn parse_bare_names() {
    match parse_command("vfo;").unwrap() {
        TciCommand::Other { name, args } => {
            assert_eq!(name, "VFO");
            assert!(args.is_empty());
        }
        _ => panic!("expected Other"),
    }
    match parse_command("x:;").unwrap() {
        TciCommand::Other { name, args } => {
            assert_eq!(name, "X");
            assert_eq!(args, vec![""]);
        }
        _ => panic!("expected Other"),
    }
    // Only ASCII letters change their case.
    match parse_command("\u{e4}b;").unwrap() {
        TciCommand::Other { name, .. } => assert_eq!(name, "\u{e4}B"),
        _ => panic!("expected Other"),
    }
}

#[test]
fn parse_error_messages() {
    assert_eq!(TciParseError::Empty.message(), "empty message");
    assert_eq!(TciParseError::NoTerminator.message(), "missing semicolon terminator");
    assert_eq!(TciParseError::UnknownCommand("X".to_string()).message(), "unknown command: X");
    assert_eq!(
        TciParseError::BadArgCount { cmd: "IQ_STOP".to_string(), expected: 1, got: 12 }.message(),
        "wrong arg count for IQ_STOP: expected 1, got 12"
    );
    assert_eq!(TciParseError::BadArg("q".to_string()).message(), "invalid argument: q");
}

#[test]
fn format_messages() {
    assert_eq!(format_msg("ready", &[]), "ready;");
    assert_eq!(
        format_msg("protocol", &["ExpertSDR3", "1.9"]),
        "protocol:ExpertSDR3,1.9;"
    );
    assert_eq!(
        format_msg("vfo", &["0", "0", "14074000"]),
        "vfo:0,0,14074000;"
    );
}

#[test]
fn formatted_messages_parse_back() {
    match parse_command(&format_msg("volume", &["a", "", "b"])).unwrap() {
        TciCommand::Other { name, args } => {
            assert_eq!(name, "VOLUME");
            assert_eq!(args, vec!["a", "", "b"]);
        }
        _ => panic!("expected Other"),
    }
}

#[test]
fn iq_frame_layout() {
    let samples = vec![(1.0f32.to_bits(), (-1.0f32).to_bits()), (0.5f32.to_bits(), (-0.5f32).to_bits())];
    let frame = build_iq_frame(0, 48000, &samples);

    assert_eq!(frame.len(), STREAM_HEADER_SIZE + 16);

    let hdr = |off: usize| u32::from_le_bytes(frame[off..off + 4].try_into().unwrap());
    assert_eq!(hdr(0), 0);
    assert_eq!(hdr(4), 48000);
    assert_eq!(hdr(8), SampleType::Float32.code());
    assert_eq!(hdr(12), 0);
    assert_eq!(hdr(16), 0);
    assert_eq!(hdr(20), 4);
    assert_eq!(hdr(24), StreamType::IqStream.code());
    assert_eq!(hdr(28), 2);

    let i0 = f32::from_le_bytes(frame[64..68].try_into().unwrap());
    assert_eq!(i0, 1.0);
    let q1 = f32::from_le_bytes(frame[76..80].try_into().unwrap());
    assert_eq!(q1, -0.5);
    assert!(frame[32..64].iter().all(|b| *b == 0));
}

#[test]
fn codes_of_streams_and_samples() {
    assert_eq!(SampleType::Int16.code(), 0);
    assert_eq!(SampleType::Int24.code(), 1);
    assert_eq!(SampleType::Int32.code(), 2);
    assert_eq!(SampleType::Float32.code(), 3);
    assert_eq!(StreamType::IqStream.code(), 0);
    assert_eq!(StreamType::RxAudioStream.code(), 1);
    assert_eq!(StreamType::TxAudioStream.code(), 2);
    assert_eq!(StreamType::TxChrono.code(), 3);
    assert_eq!(StreamType::LineoutStream.code(), 4);
}

#[test]
fn handshake_sequence() {
    let msgs = handshake_messages(
        "ka9q-RX888",
        2,
        2,
        10_000,
        30_000_000,
        -24_000,
        24_000,
        48_000,
        &["AM", "LSB", "USB", "CW", "NFM"],
    );
    assert!(msgs.first().unwrap().starts_with("protocol:"));
    assert!(msgs.last().unwrap().starts_with("ready;"));
    assert!(msgs.iter().any(|m| m.starts_with("device:")));
    assert!(msgs.iter().any(|m| m.contains("receive_only:true")));
    assert_eq!(
        msgs,
        vec![
            "protocol:ExpertSDR3,1.9;",
            "device:ka9q-RX888;",
            "receive_only:true;",
            "trx_count:2;",
            "channels_count:2;",
            "vfo_limits:10000,30000000;",
            "if_limits:-24000,24000;",
            "modulations_list:AM,LSB,USB,CW,NFM;",
            "iq_samplerate:48000;",
            "ready;",
        ]
    );
}

#[test]
fn modulations_hold_no_comma() {
    assert!(matches!(parse_command("modulation:0,a,b;").unwrap(), TciCommand::Other { .. }));
}

#[test]
fn the_case_of_arguments_is_kept() {
    match parse_command("MoDuLaTiOn:0,uSb;").unwrap() {
        TciCommand::Modulation { trx, mode } => {
            assert_eq!(trx, 0);
            assert_eq!(mode, "uSb");
        }
        _ => panic!("expected Modulation"),
    }
}
