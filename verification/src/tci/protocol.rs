//! Messages of the TCI protocol, version 2.0 (text and binary).
//!
//! A text message reads `COMMAND:arg1,arg2,...;`, and the case of the command does not matter. A
//! binary message is a header of 64 bytes, little-endian, and a payload of interleaved
//! single-precision numbers, little-endian.

use vstd::prelude::*;

use crate::decimal;
use crate::text;

verus! {

// ---------------------------------------------------------------------------------------------
// Errors
// ---------------------------------------------------------------------------------------------

/// Why a text message is not a command.
#[derive(Debug)]
pub enum TciParseError {
    Empty,
    NoTerminator,
    UnknownCommand(String),
    BadArgCount { cmd: String, expected: usize, got: usize },
    BadArg(String),
}

/// A `TciParseError` with its strings as sequences.
pub enum ErrorView {
    Empty,
    NoTerminator,
    UnknownCommand(Seq<char>),
    BadArgCount { cmd: Seq<char>, expected: nat, got: nat },
    BadArg(Seq<char>),
}

impl View for TciParseError {
    type V = ErrorView;

    open spec fn view(&self) -> ErrorView {
        match *self {
            TciParseError::Empty => ErrorView::Empty,
            TciParseError::NoTerminator => ErrorView::NoTerminator,
            TciParseError::UnknownCommand(s) => ErrorView::UnknownCommand(s@),
            TciParseError::BadArgCount { cmd, expected, got } => ErrorView::BadArgCount {
                cmd: cmd@,
                expected: expected as nat,
                got: got as nat,
            },
            TciParseError::BadArg(s) => ErrorView::BadArg(s@),
        }
    }
}

impl ErrorView {
    /// What the error says.
    pub open spec fn text(self) -> Seq<char> {
        match self {
            ErrorView::Empty => "empty message"@,
            ErrorView::NoTerminator => "missing semicolon terminator"@,
            ErrorView::UnknownCommand(s) => "unknown command: "@ + s,
            ErrorView::BadArgCount { cmd, expected, got } => "wrong arg count for "@ + cmd
                + ": expected "@ + decimal::numeral(expected) + ", got "@ + decimal::numeral(got),
            ErrorView::BadArg(s) => "invalid argument: "@ + s,
        }
    }
}

impl TciParseError {
    /// What the error says.
    pub fn message(&self) -> (r: String)
        ensures
            r@ == self@.text(),
    {
        match self {
            TciParseError::Empty => "empty message".to_owned(),
            TciParseError::NoTerminator => "missing semicolon terminator".to_owned(),
            TciParseError::UnknownCommand(name) => {
                let mut s = "unknown command: ".to_owned();
                s.append(name.as_str());
                s
            },
            TciParseError::BadArgCount { cmd, expected, got } => {
                let mut s = "wrong arg count for ".to_owned();
                s.append(cmd.as_str());
                s.append(": expected ");
                decimal::push_unsigned(&mut s, *expected as u64);
                s.append(", got ");
                decimal::push_unsigned(&mut s, *got as u64);
                s
            },
            TciParseError::BadArg(arg) => {
                let mut s = "invalid argument: ".to_owned();
                s.append(arg.as_str());
                s
            },
        }
    }
}

/// A result with the error as its view.
pub open spec fn result_view<T>(r: Result<T, TciParseError>) -> Result<T, ErrorView> {
    match r {
        Ok(v) => Ok(v),
        Err(e) => Err(e@),
    }
}

// ---------------------------------------------------------------------------------------------
// Types of a binary message
// ---------------------------------------------------------------------------------------------

/// The kind of a stream (field `type` of the binary header).
#[derive(Debug, Clone, Copy, PartialEq, Eq, Structural)]
pub enum StreamType {
    IqStream,
    RxAudioStream,
    TxAudioStream,
    TxChrono,
    LineoutStream,
}

impl StreamType {
    /// The number that stands for the kind on the wire.
    pub open spec fn wire(self) -> u32 {
        match self {
            StreamType::IqStream => 0,
            StreamType::RxAudioStream => 1,
            StreamType::TxAudioStream => 2,
            StreamType::TxChrono => 3,
            StreamType::LineoutStream => 4,
        }
    }

    /// The number that stands for the kind on the wire.
    pub fn code(self) -> (r: u32)
        ensures
            r == self.wire(),
    {
        match self {
            StreamType::IqStream => 0,
            StreamType::RxAudioStream => 1,
            StreamType::TxAudioStream => 2,
            StreamType::TxChrono => 3,
            StreamType::LineoutStream => 4,
        }
    }
}

/// The kind of a sample (field `format` of the binary header).
#[derive(Debug, Clone, Copy, PartialEq, Eq, Structural)]
pub enum SampleType {
    Int16,
    Int24,
    Int32,
    Float32,
}

impl SampleType {
    /// The number that stands for the kind on the wire.
    pub open spec fn wire(self) -> u32 {
        match self {
            SampleType::Int16 => 0,
            SampleType::Int24 => 1,
            SampleType::Int32 => 2,
            SampleType::Float32 => 3,
        }
    }

    /// The number that stands for the kind on the wire.
    pub fn code(self) -> (r: u32)
        ensures
            r == self.wire(),
    {
        match self {
            SampleType::Int16 => 0,
            SampleType::Int24 => 1,
            SampleType::Int32 => 2,
            SampleType::Float32 => 3,
        }
    }
}

// ---------------------------------------------------------------------------------------------
// Text commands
// ---------------------------------------------------------------------------------------------

/// A parsed text message, from client to server or in both directions.
///
/// The commands that matter to a receive-only IQ bridge have a variant of their own. All others,
/// such as those that transmit, are gathered in `Other`.
#[derive(Debug)]
pub enum TciCommand {
    /// `VFO:trx,vfo;` asks for a frequency.
    VfoRead { trx: u32, vfo: u32 },
    /// `DDS:trx;` asks for a centre frequency.
    DdsRead { trx: u32 },
    /// `IF:trx,vfo;` asks for an offset.
    IfRead { trx: u32, vfo: u32 },
    /// `MODULATION:trx;` asks for a modulation.
    ModulationRead { trx: u32 },
    /// `RX_CHANNEL_ENABLE:trx,channel;` asks whether a channel is on.
    RxChannelEnableRead { trx: u32, channel: u32 },
    /// `RX_FILTER_BAND:trx;` asks for the filter edges.
    RxFilterBandRead { trx: u32 },
    /// `VFO:trx,vfo,freq_hz;`
    Vfo { trx: u32, vfo: u32, freq_hz: u64 },
    /// `DDS:trx,freq_hz;`
    Dds { trx: u32, freq_hz: u64 },
    /// `IF:trx,vfo,offset_hz;`
    If { trx: u32, vfo: u32, offset_hz: i64 },
    /// `MODULATION:trx,mode;`
    Modulation { trx: u32, mode: String },
    /// `RX_CHANNEL_ENABLE:trx,channel,bool;`
    RxChannelEnable { trx: u32, channel: u32, enable: bool },
    /// `RX_FILTER_BAND:trx,low_hz,high_hz;`
    RxFilterBand { trx: u32, low: i32, high: i32 },
    /// `IQ_SAMPLERATE:rate;`
    IqSamplerate { rate: u32 },
    /// `IQ_START:trx;`
    IqStart { trx: u32 },
    /// `IQ_STOP:trx;`
    IqStop { trx: u32 },
    /// `AUDIO_SAMPLERATE:rate;`
    AudioSamplerate { rate: u32 },
    /// `AUDIO_START:trx;`
    AudioStart { trx: u32 },
    /// `AUDIO_STOP:trx;`
    AudioStop { trx: u32 },
    /// `SPOT:callsign,mode,freq,color,text;`
    Spot { callsign: String, mode: String, freq_hz: u64, color: u32, text: String },
    /// `SPOT_DELETE:callsign;`
    SpotDelete { callsign: String },
    /// `SPOT_CLEAR;`
    SpotClear,
    /// `RX_SENSORS_ENABLE:bool[,interval_ms];`
    RxSensorsEnable { enable: bool, interval_ms: Option<u32> },
    /// `AUDIO_STREAM_SAMPLE_TYPE:type;`
    AudioStreamSampleType { sample_type: String },
    /// `AUDIO_STREAM_CHANNELS:n;`
    AudioStreamChannels { channels: u32 },
    /// `AUDIO_STREAM_SAMPLES:n;`
    AudioStreamSamples { count: u32 },
    /// `START;`
    Start,
    /// `STOP;`
    Stop,
    /// `CW_MACROS:trx,text;`
    CwMacros { trx: u32, text: String },
    /// `CW_MACROS_STOP;`
    CwMacrosStop,
    /// Any other command: its name in upper case and its arguments as they came.
    Other { name: String, args: Vec<String> },
}

/// A `TciCommand` with its strings as sequences.
pub enum CommandView {
    VfoRead { trx: u32, vfo: u32 },
    DdsRead { trx: u32 },
    IfRead { trx: u32, vfo: u32 },
    ModulationRead { trx: u32 },
    RxChannelEnableRead { trx: u32, channel: u32 },
    RxFilterBandRead { trx: u32 },
    Vfo { trx: u32, vfo: u32, freq_hz: u64 },
    Dds { trx: u32, freq_hz: u64 },
    If { trx: u32, vfo: u32, offset_hz: i64 },
    Modulation { trx: u32, mode: Seq<char> },
    RxChannelEnable { trx: u32, channel: u32, enable: bool },
    RxFilterBand { trx: u32, low: i32, high: i32 },
    IqSamplerate { rate: u32 },
    IqStart { trx: u32 },
    IqStop { trx: u32 },
    AudioSamplerate { rate: u32 },
    AudioStart { trx: u32 },
    AudioStop { trx: u32 },
    Spot {
        callsign: Seq<char>,
        mode: Seq<char>,
        freq_hz: u64,
        color: u32,
        text: Seq<char>,
    },
    SpotDelete { callsign: Seq<char> },
    SpotClear,
    RxSensorsEnable { enable: bool, interval_ms: Option<u32> },
    AudioStreamSampleType { sample_type: Seq<char> },
    AudioStreamChannels { channels: u32 },
    AudioStreamSamples { count: u32 },
    Start,
    Stop,
    CwMacros { trx: u32, text: Seq<char> },
    CwMacrosStop,
    Other { name: Seq<char>, args: Seq<Seq<char>> },
}

impl View for TciCommand {
    type V = CommandView;

    open spec fn view(&self) -> CommandView {
        match *self {
            TciCommand::VfoRead { trx, vfo } => CommandView::VfoRead { trx, vfo },
            TciCommand::DdsRead { trx } => CommandView::DdsRead { trx },
            TciCommand::IfRead { trx, vfo } => CommandView::IfRead { trx, vfo },
            TciCommand::ModulationRead { trx } => CommandView::ModulationRead { trx },
            TciCommand::RxChannelEnableRead { trx, channel } => CommandView::RxChannelEnableRead {
                trx,
                channel,
            },
            TciCommand::RxFilterBandRead { trx } => CommandView::RxFilterBandRead { trx },
            TciCommand::Vfo { trx, vfo, freq_hz } => CommandView::Vfo { trx, vfo, freq_hz },
            TciCommand::Dds { trx, freq_hz } => CommandView::Dds { trx, freq_hz },
            TciCommand::If { trx, vfo, offset_hz } => CommandView::If { trx, vfo, offset_hz },
            TciCommand::Modulation { trx, mode } => CommandView::Modulation { trx, mode: mode@ },
            TciCommand::RxChannelEnable { trx, channel, enable } => CommandView::RxChannelEnable {
                trx,
                channel,
                enable,
            },
            TciCommand::RxFilterBand { trx, low, high } => CommandView::RxFilterBand {
                trx,
                low,
                high,
            },
            TciCommand::IqSamplerate { rate } => CommandView::IqSamplerate { rate },
            TciCommand::IqStart { trx } => CommandView::IqStart { trx },
            TciCommand::IqStop { trx } => CommandView::IqStop { trx },
            TciCommand::AudioSamplerate { rate } => CommandView::AudioSamplerate { rate },
            TciCommand::AudioStart { trx } => CommandView::AudioStart { trx },
            TciCommand::AudioStop { trx } => CommandView::AudioStop { trx },
            TciCommand::Spot { callsign, mode, freq_hz, color, text } => CommandView::Spot {
                callsign: callsign@,
                mode: mode@,
                freq_hz,
                color,
                text: text@,
            },
            TciCommand::SpotDelete { callsign } => CommandView::SpotDelete {
                callsign: callsign@,
            },
            TciCommand::SpotClear => CommandView::SpotClear,
            TciCommand::RxSensorsEnable { enable, interval_ms } => CommandView::RxSensorsEnable {
                enable,
                interval_ms,
            },
            TciCommand::AudioStreamSampleType { sample_type } => {
                CommandView::AudioStreamSampleType { sample_type: sample_type@ }
            },
            TciCommand::AudioStreamChannels { channels } => CommandView::AudioStreamChannels {
                channels,
            },
            TciCommand::AudioStreamSamples { count } => CommandView::AudioStreamSamples { count },
            TciCommand::Start => CommandView::Start,
            TciCommand::Stop => CommandView::Stop,
            TciCommand::CwMacros { trx, text } => CommandView::CwMacros { trx, text: text@ },
            TciCommand::CwMacrosStop => CommandView::CwMacrosStop,
            TciCommand::Other { name, args } => CommandView::Other {
                name: name@,
                args: text::string_views(args@),
            },
        }
    }
}

/// The outcome of parsing, with its strings as sequences.
pub open spec fn outcome(r: Result<TciCommand, TciParseError>) -> Result<CommandView, ErrorView> {
    match r {
        Ok(c) => Ok(c@),
        Err(e) => Err(e@),
    }
}

// ---------------------------------------------------------------------------------------------
// Arguments
// ---------------------------------------------------------------------------------------------

/// An argument read as an unsigned 32-bit number. White space around it does not matter.
pub open spec fn u32_arg(s: Seq<char>) -> Result<u32, ErrorView> {
    match decimal::read_unsigned(text::trimmed(s), u32::MAX as nat) {
        Some(v) => Ok(v as u32),
        None => Err(ErrorView::BadArg(s)),
    }
}

/// An argument read as an unsigned 64-bit number.
pub open spec fn u64_arg(s: Seq<char>) -> Result<u64, ErrorView> {
    match decimal::read_unsigned(text::trimmed(s), u64::MAX as nat) {
        Some(v) => Ok(v as u64),
        None => Err(ErrorView::BadArg(s)),
    }
}

/// An argument read as a signed 32-bit number.
pub open spec fn i32_arg(s: Seq<char>) -> Result<i32, ErrorView> {
    match decimal::read_signed(text::trimmed(s), i32::MIN as int, i32::MAX as int) {
        Some(v) => Ok(v as i32),
        None => Err(ErrorView::BadArg(s)),
    }
}

/// An argument read as a signed 64-bit number.
pub open spec fn i64_arg(s: Seq<char>) -> Result<i64, ErrorView> {
    match decimal::read_signed(text::trimmed(s), i64::MIN as int, i64::MAX as int) {
        Some(v) => Ok(v as i64),
        None => Err(ErrorView::BadArg(s)),
    }
}

/// An argument read as a truth value: `true` or `1`, `false` or `0`, in any case.
pub open spec fn bool_arg(s: Seq<char>) -> Result<bool, ErrorView> {
    let t = text::lowered(text::trimmed(s));
    if t == "true"@ || t == "1"@ {
        Ok(true)
    } else if t == "false"@ || t == "0"@ {
        Ok(false)
    } else {
        Err(ErrorView::BadArg(s))
    }
}

fn pu32(s: &str) -> (r: Result<u32, TciParseError>)
    ensures
        result_view(r) == u32_arg(s@),
{
    match decimal::parse_unsigned(text::trim(s), 0xFFFF_FFFF) {
        Some(v) => Ok(v as u32),
        None => Err(TciParseError::BadArg(s.to_owned())),
    }
}

fn pu64(s: &str) -> (r: Result<u64, TciParseError>)
    ensures
        result_view(r) == u64_arg(s@),
{
    match decimal::parse_unsigned(text::trim(s), u64::MAX) {
        Some(v) => Ok(v),
        None => Err(TciParseError::BadArg(s.to_owned())),
    }
}

fn pi32(s: &str) -> (r: Result<i32, TciParseError>)
    ensures
        result_view(r) == i32_arg(s@),
{
    match decimal::parse_signed(text::trim(s), -0x8000_0000, 0x7FFF_FFFF) {
        Some(v) => Ok(v as i32),
        None => Err(TciParseError::BadArg(s.to_owned())),
    }
}

fn pi64(s: &str) -> (r: Result<i64, TciParseError>)
    ensures
        result_view(r) == i64_arg(s@),
{
    match decimal::parse_signed(text::trim(s), i64::MIN, i64::MAX) {
        Some(v) => Ok(v),
        None => Err(TciParseError::BadArg(s.to_owned())),
    }
}

fn pbool(s: &str) -> (r: Result<bool, TciParseError>)
    ensures
        result_view(r) == bool_arg(s@),
{
    let t = text::trim(s).to_ascii_lowercase();
    if text::same(t.as_str(), "true") || text::same(t.as_str(), "1") {
        Ok(true)
    } else if text::same(t.as_str(), "false") || text::same(t.as_str(), "0") {
        Ok(false)
    } else {
        Err(TciParseError::BadArg(s.to_owned()))
    }
}

/// The sole argument of the command `cmd`.
pub open spec fn sole_arg(cmd: Seq<char>, args: Seq<Seq<char>>) -> Result<Seq<char>, ErrorView> {
    if args.len() == 1 {
        Ok(args[0])
    } else {
        Err(ErrorView::BadArgCount { cmd, expected: 1, got: args.len() })
    }
}

/// The sole argument of the command `cmd`, read as a number.
pub open spec fn sole_number(cmd: Seq<char>, args: Seq<Seq<char>>) -> Result<u32, ErrorView> {
    match sole_arg(cmd, args) {
        Ok(s) => u32_arg(s),
        Err(e) => Err(e),
    }
}

fn need(cmd: &str, args: &[&str], expected: usize) -> (r: Result<(), TciParseError>)
    ensures
        result_view(r) == (if args@.len() == expected {
            Ok::<(), ErrorView>(())
        } else {
            Err::<(), ErrorView>(
                ErrorView::BadArgCount {
                    cmd: cmd@,
                    expected: expected as nat,
                    got: args@.len(),
                },
            )
        }),
{
    if args.len() != expected {
        return Err(
            TciParseError::BadArgCount { cmd: cmd.to_owned(), expected, got: args.len() },
        );
    }
    Ok(())
}

fn need_number(cmd: &str, args: &[&str]) -> (r: Result<u32, TciParseError>)
    ensures
        result_view(r) == sole_number(cmd@, text::views(args@)),
{
    match need(cmd, args, 1) {
        Ok(()) => pu32(args[0]),
        Err(e) => Err(e),
    }
}

fn need_text(cmd: &str, args: &[&str]) -> (r: Result<String, TciParseError>)
    ensures
        r matches Ok(s) ==> sole_arg(cmd@, text::views(args@)) == Ok::<Seq<char>, ErrorView>(s@),
        r matches Err(e) ==> sole_arg(cmd@, text::views(args@)) == Err::<Seq<char>, ErrorView>(e@),
{
    match need(cmd, args, 1) {
        Ok(()) => Ok(args[0].to_owned()),
        Err(e) => Err(e),
    }
}

// ---------------------------------------------------------------------------------------------
// Parsing
// ---------------------------------------------------------------------------------------------

/// `VFO` with three arguments.
pub open spec fn vfo_command(args: Seq<Seq<char>>) -> Result<CommandView, ErrorView> {
    match (u32_arg(args[0]), u32_arg(args[1]), u64_arg(args[2])) {
        (Ok(trx), Ok(vfo), Ok(freq_hz)) => Ok(CommandView::Vfo { trx, vfo, freq_hz }),
        (Err(e), _, _) => Err(e),
        (_, Err(e), _) => Err(e),
        (_, _, Err(e)) => Err(e),
    }
}

/// `VFO` with two arguments.
pub open spec fn vfo_read_command(args: Seq<Seq<char>>) -> Result<CommandView, ErrorView> {
    match (u32_arg(args[0]), u32_arg(args[1])) {
        (Ok(trx), Ok(vfo)) => Ok(CommandView::VfoRead { trx, vfo }),
        (Err(e), _) => Err(e),
        (_, Err(e)) => Err(e),
    }
}

/// `DDS` with two arguments.
pub open spec fn dds_command(args: Seq<Seq<char>>) -> Result<CommandView, ErrorView> {
    match (u32_arg(args[0]), u64_arg(args[1])) {
        (Ok(trx), Ok(freq_hz)) => Ok(CommandView::Dds { trx, freq_hz }),
        (Err(e), _) => Err(e),
        (_, Err(e)) => Err(e),
    }
}

/// `DDS` with one argument.
pub open spec fn dds_read_command(args: Seq<Seq<char>>) -> Result<CommandView, ErrorView> {
    match u32_arg(args[0]) {
        Ok(trx) => Ok(CommandView::DdsRead { trx }),
        Err(e) => Err(e),
    }
}

/// `IF` with three arguments.
pub open spec fn if_command(args: Seq<Seq<char>>) -> Result<CommandView, ErrorView> {
    match (u32_arg(args[0]), u32_arg(args[1]), i64_arg(args[2])) {
        (Ok(trx), Ok(vfo), Ok(offset_hz)) => Ok(CommandView::If { trx, vfo, offset_hz }),
        (Err(e), _, _) => Err(e),
        (_, Err(e), _) => Err(e),
        (_, _, Err(e)) => Err(e),
    }
}

/// `IF` with two arguments.
pub open spec fn if_read_command(args: Seq<Seq<char>>) -> Result<CommandView, ErrorView> {
    match (u32_arg(args[0]), u32_arg(args[1])) {
        (Ok(trx), Ok(vfo)) => Ok(CommandView::IfRead { trx, vfo }),
        (Err(e), _) => Err(e),
        (_, Err(e)) => Err(e),
    }
}

/// `MODULATION` with two arguments.
pub open spec fn modulation_command(args: Seq<Seq<char>>) -> Result<CommandView, ErrorView> {
    match u32_arg(args[0]) {
        Ok(trx) => Ok(CommandView::Modulation { trx, mode: args[1] }),
        Err(e) => Err(e),
    }
}

/// `MODULATION` with one argument.
pub open spec fn modulation_read_command(args: Seq<Seq<char>>) -> Result<CommandView, ErrorView> {
    match u32_arg(args[0]) {
        Ok(trx) => Ok(CommandView::ModulationRead { trx }),
        Err(e) => Err(e),
    }
}

/// `RX_CHANNEL_ENABLE` with three arguments.
pub open spec fn channel_command(args: Seq<Seq<char>>) -> Result<CommandView, ErrorView> {
    match (u32_arg(args[0]), u32_arg(args[1]), bool_arg(args[2])) {
        (Ok(trx), Ok(channel), Ok(enable)) => Ok(
            CommandView::RxChannelEnable { trx, channel, enable },
        ),
        (Err(e), _, _) => Err(e),
        (_, Err(e), _) => Err(e),
        (_, _, Err(e)) => Err(e),
    }
}

/// `RX_CHANNEL_ENABLE` with two arguments.
pub open spec fn channel_read_command(args: Seq<Seq<char>>) -> Result<CommandView, ErrorView> {
    match (u32_arg(args[0]), u32_arg(args[1])) {
        (Ok(trx), Ok(channel)) => Ok(CommandView::RxChannelEnableRead { trx, channel }),
        (Err(e), _) => Err(e),
        (_, Err(e)) => Err(e),
    }
}

/// `RX_FILTER_BAND` with three arguments.
pub open spec fn filter_command(args: Seq<Seq<char>>) -> Result<CommandView, ErrorView> {
    match (u32_arg(args[0]), i32_arg(args[1]), i32_arg(args[2])) {
        (Ok(trx), Ok(low), Ok(high)) => Ok(CommandView::RxFilterBand { trx, low, high }),
        (Err(e), _, _) => Err(e),
        (_, Err(e), _) => Err(e),
        (_, _, Err(e)) => Err(e),
    }
}

/// `RX_FILTER_BAND` with one argument.
pub open spec fn filter_read_command(args: Seq<Seq<char>>) -> Result<CommandView, ErrorView> {
    match u32_arg(args[0]) {
        Ok(trx) => Ok(CommandView::RxFilterBandRead { trx }),
        Err(e) => Err(e),
    }
}

/// `SPOT` with five arguments.
pub open spec fn spot_command(args: Seq<Seq<char>>) -> Result<CommandView, ErrorView> {
    match (u64_arg(args[2]), u32_arg(args[3])) {
        (Ok(freq_hz), Ok(color)) => Ok(
            CommandView::Spot { callsign: args[0], mode: args[1], freq_hz, color, text: args[4] },
        ),
        (Err(e), _) => Err(e),
        (_, Err(e)) => Err(e),
    }
}

/// `RX_SENSORS_ENABLE` with at least one argument.
pub open spec fn sensors_command(args: Seq<Seq<char>>) -> Result<CommandView, ErrorView> {
    match bool_arg(args[0]) {
        Err(e) => Err(e),
        Ok(enable) => if args.len() < 2 {
            Ok(CommandView::RxSensorsEnable { enable, interval_ms: None })
        } else {
            match u32_arg(args[1]) {
                Ok(ms) => Ok(CommandView::RxSensorsEnable { enable, interval_ms: Some(ms) }),
                Err(e) => Err(e),
            }
        },
    }
}

/// `CW_MACROS` with at least two arguments. The text may hold commas.
pub open spec fn macros_command(args: Seq<Seq<char>>) -> Result<CommandView, ErrorView> {
    match u32_arg(args[0]) {
        Ok(trx) => Ok(CommandView::CwMacros { trx, text: text::joined(args.skip(1), ',') }),
        Err(e) => Err(e),
    }
}

/// A command whose sole argument is a text, with the constructor that takes the text.
pub open spec fn text_command(
    cmd: Seq<char>,
    args: Seq<Seq<char>>,
    make: spec_fn(Seq<char>) -> CommandView,
) -> Result<CommandView, ErrorView> {
    match sole_arg(cmd, args) {
        Ok(s) => Ok(make(s)),
        Err(e) => Err(e),
    }
}

/// The constructor of a command whose sole argument is a number, by the command's name in upper
/// case.
pub open spec fn number_maker(name: Seq<char>) -> Option<spec_fn(u32) -> CommandView> {
    if name == "IQ_SAMPLERATE"@ {
        Some(|v: u32| CommandView::IqSamplerate { rate: v })
    } else if name == "IQ_START"@ {
        Some(|v: u32| CommandView::IqStart { trx: v })
    } else if name == "IQ_STOP"@ {
        Some(|v: u32| CommandView::IqStop { trx: v })
    } else if name == "AUDIO_SAMPLERATE"@ {
        Some(|v: u32| CommandView::AudioSamplerate { rate: v })
    } else if name == "AUDIO_START"@ {
        Some(|v: u32| CommandView::AudioStart { trx: v })
    } else if name == "AUDIO_STOP"@ {
        Some(|v: u32| CommandView::AudioStop { trx: v })
    } else if name == "AUDIO_STREAM_CHANNELS"@ {
        Some(|v: u32| CommandView::AudioStreamChannels { channels: v })
    } else if name == "AUDIO_STREAM_SAMPLES"@ {
        Some(|v: u32| CommandView::AudioStreamSamples { count: v })
    } else {
        None
    }
}

/// The command with the given name, in upper case, and arguments.
pub open spec fn command_of(name: Seq<char>, args: Seq<Seq<char>>) -> Result<
    CommandView,
    ErrorView,
> {
    match number_maker(name) {
        Some(make) => match sole_number(name, args) {
            Ok(v) => Ok(make(v)),
            Err(e) => Err(e),
        },
        None => other_command_of(name, args),
    }
}

/// The command with the given name, in upper case, and arguments, where it is not one whose sole
/// argument is a number.
pub open spec fn other_command_of(name: Seq<char>, args: Seq<Seq<char>>) -> Result<
    CommandView,
    ErrorView,
> {
    if name == "VFO"@ && args.len() == 3 {
        vfo_command(args)
    } else if name == "VFO"@ && args.len() == 2 {
        vfo_read_command(args)
    } else if name == "DDS"@ && args.len() == 2 {
        dds_command(args)
    } else if name == "DDS"@ && args.len() == 1 {
        dds_read_command(args)
    } else if name == "IF"@ && args.len() == 3 {
        if_command(args)
    } else if name == "IF"@ && args.len() == 2 {
        if_read_command(args)
    } else if name == "MODULATION"@ && args.len() == 2 {
        modulation_command(args)
    } else if name == "MODULATION"@ && args.len() == 1 {
        modulation_read_command(args)
    } else if name == "RX_CHANNEL_ENABLE"@ && args.len() == 3 {
        channel_command(args)
    } else if name == "RX_CHANNEL_ENABLE"@ && args.len() == 2 {
        channel_read_command(args)
    } else if name == "RX_FILTER_BAND"@ && args.len() == 3 {
        filter_command(args)
    } else if name == "RX_FILTER_BAND"@ && args.len() == 1 {
        filter_read_command(args)
    } else if name == "AUDIO_STREAM_SAMPLE_TYPE"@ {
        text_command(
            name,
            args,
            |s: Seq<char>| CommandView::AudioStreamSampleType { sample_type: s },
        )
    } else if name == "SPOT"@ && args.len() == 5 {
        spot_command(args)
    } else if name == "SPOT_DELETE"@ {
        text_command(name, args, |s: Seq<char>| CommandView::SpotDelete { callsign: s })
    } else if name == "SPOT_CLEAR"@ {
        Ok(CommandView::SpotClear)
    } else if name == "RX_SENSORS_ENABLE"@ && args.len() >= 1 {
        sensors_command(args)
    } else if name == "CW_MACROS"@ && args.len() >= 2 {
        macros_command(args)
    } else if name == "CW_MACROS_STOP"@ {
        Ok(CommandView::CwMacrosStop)
    } else if name == "START"@ {
        Ok(CommandView::Start)
    } else if name == "STOP"@ {
        Ok(CommandView::Stop)
    } else {
        Ok(CommandView::Other { name, args })
    }
}

/// What a text message means.
pub open spec fn parsed(msg: Seq<char>) -> Result<CommandView, ErrorView> {
    let m = text::trimmed(msg);
    if m.len() == 0 {
        Err(ErrorView::Empty)
    } else if m.last() != ';' {
        Err(ErrorView::NoTerminator)
    } else {
        match text::split_first(m.drop_last(), ':') {
            Some((name, args)) => command_of(
                text::uppered(name),
                text::split_at_each(args, ','),
            ),
            None => command_of(text::uppered(m.drop_last()), Seq::empty()),
        }
    }
}

fn parse_vfo(args: &[&str]) -> (r: Result<TciCommand, TciParseError>)
    requires
        args@.len() == 3,
    ensures
        outcome(r) == vfo_command(text::views(args@)),
{
    match (pu32(args[0]), pu32(args[1]), pu64(args[2])) {
        (Ok(trx), Ok(vfo), Ok(freq_hz)) => Ok(TciCommand::Vfo { trx, vfo, freq_hz }),
        (Err(e), _, _) => Err(e),
        (_, Err(e), _) => Err(e),
        (_, _, Err(e)) => Err(e),
    }
}

fn parse_vfo_read(args: &[&str]) -> (r: Result<TciCommand, TciParseError>)
    requires
        args@.len() == 2,
    ensures
        outcome(r) == vfo_read_command(text::views(args@)),
{
    match (pu32(args[0]), pu32(args[1])) {
        (Ok(trx), Ok(vfo)) => Ok(TciCommand::VfoRead { trx, vfo }),
        (Err(e), _) => Err(e),
        (_, Err(e)) => Err(e),
    }
}

fn parse_dds(args: &[&str]) -> (r: Result<TciCommand, TciParseError>)
    requires
        args@.len() == 2,
    ensures
        outcome(r) == dds_command(text::views(args@)),
{
    match (pu32(args[0]), pu64(args[1])) {
        (Ok(trx), Ok(freq_hz)) => Ok(TciCommand::Dds { trx, freq_hz }),
        (Err(e), _) => Err(e),
        (_, Err(e)) => Err(e),
    }
}

fn parse_dds_read(args: &[&str]) -> (r: Result<TciCommand, TciParseError>)
    requires
        args@.len() == 1,
    ensures
        outcome(r) == dds_read_command(text::views(args@)),
{
    match pu32(args[0]) {
        Ok(trx) => Ok(TciCommand::DdsRead { trx }),
        Err(e) => Err(e),
    }
}

fn parse_if(args: &[&str]) -> (r: Result<TciCommand, TciParseError>)
    requires
        args@.len() == 3,
    ensures
        outcome(r) == if_command(text::views(args@)),
{
    match (pu32(args[0]), pu32(args[1]), pi64(args[2])) {
        (Ok(trx), Ok(vfo), Ok(offset_hz)) => Ok(TciCommand::If { trx, vfo, offset_hz }),
        (Err(e), _, _) => Err(e),
        (_, Err(e), _) => Err(e),
        (_, _, Err(e)) => Err(e),
    }
}

fn parse_if_read(args: &[&str]) -> (r: Result<TciCommand, TciParseError>)
    requires
        args@.len() == 2,
    ensures
        outcome(r) == if_read_command(text::views(args@)),
{
    match (pu32(args[0]), pu32(args[1])) {
        (Ok(trx), Ok(vfo)) => Ok(TciCommand::IfRead { trx, vfo }),
        (Err(e), _) => Err(e),
        (_, Err(e)) => Err(e),
    }
}

fn parse_modulation(args: &[&str]) -> (r: Result<TciCommand, TciParseError>)
    requires
        args@.len() == 2,
    ensures
        outcome(r) == modulation_command(text::views(args@)),
{
    match pu32(args[0]) {
        Ok(trx) => Ok(TciCommand::Modulation { trx, mode: args[1].to_owned() }),
        Err(e) => Err(e),
    }
}

fn parse_modulation_read(args: &[&str]) -> (r: Result<TciCommand, TciParseError>)
    requires
        args@.len() == 1,
    ensures
        outcome(r) == modulation_read_command(text::views(args@)),
{
    match pu32(args[0]) {
        Ok(trx) => Ok(TciCommand::ModulationRead { trx }),
        Err(e) => Err(e),
    }
}

fn parse_channel(args: &[&str]) -> (r: Result<TciCommand, TciParseError>)
    requires
        args@.len() == 3,
    ensures
        outcome(r) == channel_command(text::views(args@)),
{
    match (pu32(args[0]), pu32(args[1]), pbool(args[2])) {
        (Ok(trx), Ok(channel), Ok(enable)) => Ok(TciCommand::RxChannelEnable { trx, channel, enable }),
        (Err(e), _, _) => Err(e),
        (_, Err(e), _) => Err(e),
        (_, _, Err(e)) => Err(e),
    }
}

fn parse_channel_read(args: &[&str]) -> (r: Result<TciCommand, TciParseError>)
    requires
        args@.len() == 2,
    ensures
        outcome(r) == channel_read_command(text::views(args@)),
{
    match (pu32(args[0]), pu32(args[1])) {
        (Ok(trx), Ok(channel)) => Ok(TciCommand::RxChannelEnableRead { trx, channel }),
        (Err(e), _) => Err(e),
        (_, Err(e)) => Err(e),
    }
}

fn parse_filter(args: &[&str]) -> (r: Result<TciCommand, TciParseError>)
    requires
        args@.len() == 3,
    ensures
        outcome(r) == filter_command(text::views(args@)),
{
    match (pu32(args[0]), pi32(args[1]), pi32(args[2])) {
        (Ok(trx), Ok(low), Ok(high)) => Ok(TciCommand::RxFilterBand { trx, low, high }),
        (Err(e), _, _) => Err(e),
        (_, Err(e), _) => Err(e),
        (_, _, Err(e)) => Err(e),
    }
}

fn parse_filter_read(args: &[&str]) -> (r: Result<TciCommand, TciParseError>)
    requires
        args@.len() == 1,
    ensures
        outcome(r) == filter_read_command(text::views(args@)),
{
    match pu32(args[0]) {
        Ok(trx) => Ok(TciCommand::RxFilterBandRead { trx }),
        Err(e) => Err(e),
    }
}

fn parse_spot(args: &[&str]) -> (r: Result<TciCommand, TciParseError>)
    requires
        args@.len() == 5,
    ensures
        outcome(r) == spot_command(text::views(args@)),
{
    match (pu64(args[2]), pu32(args[3])) {
        (Ok(freq_hz), Ok(color)) => Ok(
            TciCommand::Spot {
                callsign: args[0].to_owned(),
                mode: args[1].to_owned(),
                freq_hz,
                color,
                text: args[4].to_owned(),
            },
        ),
        (Err(e), _) => Err(e),
        (_, Err(e)) => Err(e),
    }
}

fn parse_sensors(args: &[&str]) -> (r: Result<TciCommand, TciParseError>)
    requires
        args@.len() >= 1,
    ensures
        outcome(r) == sensors_command(text::views(args@)),
{
    match pbool(args[0]) {
        Err(e) => Err(e),
        Ok(enable) => {
            if args.len() < 2 {
                Ok(TciCommand::RxSensorsEnable { enable, interval_ms: None })
            } else {
                match pu32(args[1]) {
                    Ok(ms) => Ok(TciCommand::RxSensorsEnable { enable, interval_ms: Some(ms) }),
                    Err(e) => Err(e),
                }
            }
        },
    }
}

fn parse_macros(args: &[&str]) -> (r: Result<TciCommand, TciParseError>)
    requires
        args@.len() >= 2,
    ensures
        outcome(r) == macros_command(text::views(args@)),
{
    match pu32(args[0]) {
        Ok(trx) => {
            let mut text = String::new();
            text::push_joined(&mut text, args, 1);
            proof {
                assert(text::views(args@.skip(1)) =~= text::views(args@).skip(1));
                assert(text@ =~= text::joined(text::views(args@).skip(1), ','));
            }
            Ok(TciCommand::CwMacros { trx, text })
        },
        Err(e) => Err(e),
    }
}

/// The arguments as strings of their own.
fn owned(args: &[&str]) -> (r: Vec<String>)
    ensures
        text::string_views(r@) == text::views(args@),
{
    let mut out: Vec<String> = Vec::new();
    let mut i: usize = 0;
    while i < args.len()
        invariant
            i <= args@.len(),
            text::string_views(out@) == text::views(args@).take(i as int),
        decreases args@.len() - i,
    {
        let ghost before = out@;
        out.push(args[i].to_owned());
        i = i + 1;
        assert(text::string_views(out@) =~= text::string_views(before).push(
            text::views(args@)[i - 1],
        ));
        assert(text::string_views(out@) =~= text::views(args@).take(i as int));
    }
    assert(text::views(args@).take(i as int) =~= text::views(args@));
    out
}

/// A command that is made of its name and one number, if the name is one of those.
fn parse_number_command(name: &str, args: &[&str]) -> (r: Option<
    Result<TciCommand, TciParseError>,
>)
    ensures
        r matches Some(c) ==> outcome(c) == command_of(name@, text::views(args@)),
        r is None <==> number_maker(name@) is None,
{
    if text::same(name, "IQ_SAMPLERATE") {
        return Some(
            match need_number(name, args) {
                Ok(v) => Ok(TciCommand::IqSamplerate { rate: v }),
                Err(e) => Err(e),
            },
        );
    }
    if text::same(name, "IQ_START") {
        return Some(
            match need_number(name, args) {
                Ok(v) => Ok(TciCommand::IqStart { trx: v }),
                Err(e) => Err(e),
            },
        );
    }
    if text::same(name, "IQ_STOP") {
        return Some(
            match need_number(name, args) {
                Ok(v) => Ok(TciCommand::IqStop { trx: v }),
                Err(e) => Err(e),
            },
        );
    }
    if text::same(name, "AUDIO_SAMPLERATE") {
        return Some(
            match need_number(name, args) {
                Ok(v) => Ok(TciCommand::AudioSamplerate { rate: v }),
                Err(e) => Err(e),
            },
        );
    }
    if text::same(name, "AUDIO_START") {
        return Some(
            match need_number(name, args) {
                Ok(v) => Ok(TciCommand::AudioStart { trx: v }),
                Err(e) => Err(e),
            },
        );
    }
    if text::same(name, "AUDIO_STOP") {
        return Some(
            match need_number(name, args) {
                Ok(v) => Ok(TciCommand::AudioStop { trx: v }),
                Err(e) => Err(e),
            },
        );
    }
    if text::same(name, "AUDIO_STREAM_CHANNELS") {
        return Some(
            match need_number(name, args) {
                Ok(v) => Ok(TciCommand::AudioStreamChannels { channels: v }),
                Err(e) => Err(e),
            },
        );
    }
    if text::same(name, "AUDIO_STREAM_SAMPLES") {
        return Some(
            match need_number(name, args) {
                Ok(v) => Ok(TciCommand::AudioStreamSamples { count: v }),
                Err(e) => Err(e),
            },
        );
    }
    None
}

/// The command with the given name, in upper case, and arguments.
fn command(name: String, args: &[&str]) -> (r: Result<TciCommand, TciParseError>)
    ensures
        outcome(r) == command_of(name@, text::views(args@)),
{
    let n = name.as_str();
    let count: usize = args.len();
    match parse_number_command(n, args) {
        Some(r) => return r,
        None => {},
    }
    if text::same(n, "VFO") && count == 3 {
        parse_vfo(args)
    } else if text::same(n, "VFO") && count == 2 {
        parse_vfo_read(args)
    } else if text::same(n, "DDS") && count == 2 {
        parse_dds(args)
    } else if text::same(n, "DDS") && count == 1 {
        parse_dds_read(args)
    } else if text::same(n, "IF") && count == 3 {
        parse_if(args)
    } else if text::same(n, "IF") && count == 2 {
        parse_if_read(args)
    } else if text::same(n, "MODULATION") && count == 2 {
        parse_modulation(args)
    } else if text::same(n, "MODULATION") && count == 1 {
        parse_modulation_read(args)
    } else if text::same(n, "RX_CHANNEL_ENABLE") && count == 3 {
        parse_channel(args)
    } else if text::same(n, "RX_CHANNEL_ENABLE") && count == 2 {
        parse_channel_read(args)
    } else if text::same(n, "RX_FILTER_BAND") && count == 3 {
        parse_filter(args)
    } else if text::same(n, "RX_FILTER_BAND") && count == 1 {
        parse_filter_read(args)
    } else if text::same(n, "AUDIO_STREAM_SAMPLE_TYPE") {
        match need_text(n, args) {
            Ok(sample_type) => Ok(TciCommand::AudioStreamSampleType { sample_type }),
            Err(e) => Err(e),
        }
    } else if text::same(n, "SPOT") && count == 5 {
        parse_spot(args)
    } else if text::same(n, "SPOT_DELETE") {
        match need_text(n, args) {
            Ok(callsign) => Ok(TciCommand::SpotDelete { callsign }),
            Err(e) => Err(e),
        }
    } else if text::same(n, "SPOT_CLEAR") {
        Ok(TciCommand::SpotClear)
    } else if text::same(n, "RX_SENSORS_ENABLE") && count >= 1 {
        parse_sensors(args)
    } else if text::same(n, "CW_MACROS") && count >= 2 {
        parse_macros(args)
    } else if text::same(n, "CW_MACROS_STOP") {
        Ok(TciCommand::CwMacrosStop)
    } else if text::same(n, "START") {
        Ok(TciCommand::Start)
    } else if text::same(n, "STOP") {
        Ok(TciCommand::Stop)
    } else {
        Ok(TciCommand::Other { name, args: owned(args) })
    }
}

/// Parses a text message.
///
/// Commands that can be read and set are told apart by their number of arguments.
pub fn parse_command(msg: &str) -> (r: Result<TciCommand, TciParseError>)
    ensures
        outcome(r) == parsed(msg@),
{
    let m = text::trim(msg);
    let len: usize = m.unicode_len();
    if len == 0 {
        return Err(TciParseError::Empty);
    }
    if m.get_char(len - 1) != ';' {
        return Err(TciParseError::NoTerminator);
    }
    let body = m.substring_char(0, len - 1);
    assert(body@ =~= m@.drop_last());
    match text::split_once(body, ':') {
        Some((name, rest)) => {
            let args = text::split(rest, ',');
            command(name.to_ascii_uppercase(), args.as_slice())
        },
        None => {
            let args: Vec<&str> = Vec::new();
            assert(text::views(args@) =~= Seq::<Seq<char>>::empty());
            command(body.to_ascii_uppercase(), args.as_slice())
        },
    }
}

// ---------------------------------------------------------------------------------------------
// Text messages to the client
// ---------------------------------------------------------------------------------------------

/// A text message: the command, its arguments if there are any, and the terminator.
pub open spec fn message(cmd: Seq<char>, args: Seq<Seq<char>>) -> Seq<char> {
    if args.len() == 0 {
        cmd + seq![';']
    } else {
        cmd + seq![':'] + text::joined(args, ',') + seq![';']
    }
}

/// Formats a text message for the client.
pub fn format_msg(cmd: &str, args: &[&str]) -> (r: String)
    ensures
        r@ == message(cmd@, text::views(args@)),
{
    proof {
        reveal_strlit(":");
        reveal_strlit(";");
        assert(":"@ =~= seq![':']);
        assert(";"@ =~= seq![';']);
        assert(args@.skip(0) =~= args@);
    }
    let mut out = cmd.to_owned();
    if args.len() > 0 {
        out.append(":");
        text::push_joined(&mut out, args, 0);
    }
    out.append(";");
    out
}

/// A message with one argument.
pub(crate) fn message_of_one(cmd: &str, a: &str) -> (r: String)
    ensures
        r@ == message(cmd@, seq![a@]),
{
    let args = [a];
    assert(text::views(args@) =~= seq![a@]);
    format_msg(cmd, args.as_slice())
}

/// A message with two arguments.
pub(crate) fn message_of_two(cmd: &str, a: &str, b: &str) -> (r: String)
    ensures
        r@ == message(cmd@, seq![a@, b@]),
{
    let args = [a, b];
    assert(text::views(args@) =~= seq![a@, b@]);
    format_msg(cmd, args.as_slice())
}

/// A message with three arguments.
pub(crate) fn message_of_three(cmd: &str, a: &str, b: &str, c: &str) -> (r: String)
    ensures
        r@ == message(cmd@, seq![a@, b@, c@]),
{
    let args = [a, b, c];
    assert(text::views(args@) =~= seq![a@, b@, c@]);
    format_msg(cmd, args.as_slice())
}

/// What a client is told as soon as it has connected.
pub open spec fn handshake(
    device_name: Seq<char>,
    trx_count: nat,
    channel_count: nat,
    vfo_limits: (nat, nat),
    if_limits: (int, int),
    iq_samplerate: nat,
    modulations: Seq<Seq<char>>,
) -> Seq<Seq<char>> {
    seq![
        message("protocol"@, seq!["ExpertSDR3"@, "1.9"@]),
        message("device"@, seq![device_name]),
        message("receive_only"@, seq!["true"@]),
        message("trx_count"@, seq![decimal::numeral(trx_count)]),
        message("channels_count"@, seq![decimal::numeral(channel_count)]),
        message(
            "vfo_limits"@,
            seq![decimal::numeral(vfo_limits.0), decimal::numeral(vfo_limits.1)],
        ),
        message(
            "if_limits"@,
            seq![decimal::signed_numeral(if_limits.0), decimal::signed_numeral(if_limits.1)],
        ),
        message("modulations_list"@, modulations),
        message("iq_samplerate"@, seq![decimal::numeral(iq_samplerate)]),
        message("ready"@, Seq::empty()),
    ]
}

/// The messages sent to a client as soon as it has connected.
pub fn handshake_messages(
    device_name: &str,
    trx_count: u8,
    channel_count: u8,
    vfo_min_hz: u64,
    vfo_max_hz: u64,
    if_min_hz: i64,
    if_max_hz: i64,
    iq_samplerate: u32,
    modulations: &[&str],
) -> (r: Vec<String>)
    ensures
        text::string_views(r@) == handshake(
            device_name@,
            trx_count as nat,
            channel_count as nat,
            (vfo_min_hz as nat, vfo_max_hz as nat),
            (if_min_hz as int, if_max_hz as int),
            iq_samplerate as nat,
            text::views(modulations@),
        ),
{
    let mut msgs: Vec<String> = Vec::new();
    msgs.push(message_of_two("protocol", "ExpertSDR3", "1.9"));
    msgs.push(message_of_one("device", device_name));
    msgs.push(message_of_one("receive_only", "true"));
    msgs.push(message_of_one("trx_count", decimal::unsigned_string(trx_count as u64).as_str()));
    msgs.push(
        message_of_one("channels_count", decimal::unsigned_string(channel_count as u64).as_str()),
    );
    msgs.push(
        message_of_two(
            "vfo_limits",
            decimal::unsigned_string(vfo_min_hz).as_str(),
            decimal::unsigned_string(vfo_max_hz).as_str(),
        ),
    );
    msgs.push(
        message_of_two(
            "if_limits",
            decimal::signed_string(if_min_hz).as_str(),
            decimal::signed_string(if_max_hz).as_str(),
        ),
    );
    msgs.push(format_msg("modulations_list", modulations));
    msgs.push(
        message_of_one("iq_samplerate", decimal::unsigned_string(iq_samplerate as u64).as_str()),
    );
    let none: [&str; 0] = [];
    assert(text::views(none@) =~= Seq::<Seq<char>>::empty());
    msgs.push(format_msg("ready", none.as_slice()));
    msgs
}

// ---------------------------------------------------------------------------------------------
// Binary messages to the client
// ---------------------------------------------------------------------------------------------

/// The length of the header of a binary message: sixteen 32-bit numbers.
///
/// ```text
/// offset  field          meaning
/// 0       receiver       number of the receiver
/// 4       sample_rate    samples per second
/// 8       format         a `SampleType`
/// 12      codec          compression, always 0
/// 16      crc            checksum, always 0
/// 20      length         number of real samples in the payload
/// 24      type           a `StreamType`
/// 28      channels       number of channels, 2 for IQ
/// 32..63  reserved       zeros
/// ```
///
/// For IQ, the number of complex samples is `length / channels`.
pub const STREAM_HEADER_SIZE: usize = 64;

/// The four bytes of a number, the low one first.
pub open spec fn le_bytes(v: u32) -> Seq<u8> {
    seq![
        (v % 0x100) as u8,
        ((v / 0x100) % 0x100) as u8,
        ((v / 0x1_0000) % 0x100) as u8,
        (v / 0x100_0000) as u8,
    ]
}

/// The header of an IQ frame with `length` real samples.
pub open spec fn iq_header(trx: u32, sample_rate: u32, length: u32) -> Seq<u8> {
    le_bytes(trx) + le_bytes(sample_rate) + le_bytes(SampleType::Float32.wire()) + le_bytes(0)
        + le_bytes(0) + le_bytes(length) + le_bytes(StreamType::IqStream.wire()) + le_bytes(2)
        + Seq::new(32, |i: int| 0u8)
}

/// The bytes of IQ samples, given as bit patterns of single-precision numbers: I and Q in turn.
pub open spec fn iq_payload(samples: Seq<(u32, u32)>) -> Seq<u8>
    decreases samples.len(),
{
    if samples.len() == 0 {
        Seq::empty()
    } else {
        iq_payload(samples.drop_last()) + le_bytes(samples.last().0) + le_bytes(samples.last().1)
    }
}

/// An IQ frame. Its header counts the real samples, two for each pair, in 32 bits.
pub open spec fn iq_frame(trx: u32, sample_rate: u32, samples: Seq<(u32, u32)>) -> Seq<u8> {
    iq_header(trx, sample_rate, ((samples.len() * 2) % 0x1_0000_0000) as u32) + iq_payload(samples)
}

/// Appends the four bytes of a number, the low one first.
fn push_u32(buf: &mut Vec<u8>, v: u32)
    ensures
        final(buf)@ == old(buf)@ + le_bytes(v),
{
    let ghost before = buf@;
    buf.push((v % 0x100) as u8);
    buf.push(((v / 0x100) % 0x100) as u8);
    buf.push(((v / 0x1_0000) % 0x100) as u8);
    buf.push((v / 0x100_0000) as u8);
    assert(buf@ =~= before + le_bytes(v));
}

/// Appends `n` zeros.
fn push_zeros(buf: &mut Vec<u8>, n: usize)
    ensures
        final(buf)@ == old(buf)@ + Seq::new(n as nat, |i: int| 0u8),
{
    let ghost before = buf@;
    let mut i: usize = 0;
    assert(buf@ =~= before + Seq::new(0, |i: int| 0u8));
    while i < n
        invariant
            i <= n,
            buf@ == before + Seq::new(i as nat, |i: int| 0u8),
        decreases n - i,
    {
        buf.push(0);
        i = i + 1;
        assert(buf@ =~= before + Seq::new(i as nat, |i: int| 0u8));
    }
}

/// Builds an IQ frame from pairs (I, Q), each the bit pattern of a single-precision number.
pub fn build_iq_frame(trx: u32, sample_rate: u32, samples: &[(u32, u32)]) -> (r: Vec<u8>)
    requires
        STREAM_HEADER_SIZE + 8 * samples@.len() <= isize::MAX,
    ensures
        r@ == iq_frame(trx, sample_rate, samples@),
{
    let count: u32 = ((samples.len() * 2) as u64 % 0x1_0000_0000) as u32;
    let mut buf: Vec<u8> = Vec::new();
    push_u32(&mut buf, trx);
    push_u32(&mut buf, sample_rate);
    push_u32(&mut buf, SampleType::Float32.code());
    push_u32(&mut buf, 0);
    push_u32(&mut buf, 0);
    push_u32(&mut buf, count);
    push_u32(&mut buf, StreamType::IqStream.code());
    push_u32(&mut buf, 2);
    push_zeros(&mut buf, 32);
    let ghost header = iq_header(trx, sample_rate, count);
    assert(buf@ =~= header);
    let mut i: usize = 0;
    assert(header + iq_payload(samples@.take(0)) =~= header);
    while i < samples.len()
        invariant
            i <= samples@.len(),
            buf@ == header + iq_payload(samples@.take(i as int)),
        decreases samples@.len() - i,
    {
        let pair = samples[i];
        push_u32(&mut buf, pair.0);
        push_u32(&mut buf, pair.1);
        i = i + 1;
        assert(samples@.take(i as int).drop_last() =~= samples@.take(i - 1));
        assert(buf@ =~= header + iq_payload(samples@.take(i as int)));
    }
    assert(samples@.take(i as int) =~= samples@);
    buf
}

// ---------------------------------------------------------------------------------------------
// Laws
// ---------------------------------------------------------------------------------------------

/// Parsing undoes formatting: a formatted message is read as its command with its arguments. The
/// command holds no colon and does not start with white space, and no argument holds a comma.
pub proof fn law_parse_undoes_format(cmd: Seq<char>, args: Seq<Seq<char>>)
    requires
        !cmd.contains(':'),
        cmd.len() > 0 ==> !text::white_space(cmd[0]),
        text::free_of(args, ','),
    ensures
        parsed(message(cmd, args)) == command_of(text::uppered(cmd), args),
{
    let m = message(cmd, args);
    assert(m.last() == ';');
    assert(m[0] == (if cmd.len() > 0 {
        cmd[0]
    } else if args.len() == 0 {
        ';'
    } else {
        ':'
    }));
    text::lemma_trimmed_unchanged(m);
    let body = m.drop_last();
    assert forall|j: int| 0 <= j < cmd.len() implies body[j] != ':' by {
        assert(cmd.contains(cmd[j]));
    }
    text::lemma_first_index(body, ':', cmd.len() as int);
    if args.len() == 0 {
        assert(body =~= cmd);
        assert(args =~= Seq::<Seq<char>>::empty());
    } else {
        assert(body.take(cmd.len() as int) =~= cmd);
        assert(body.skip(cmd.len() as int + 1) =~= text::joined(args, ','));
        text::law_split_undoes_join(args, ',');
    }
}

/// Whether two messages are the same but for the case of ASCII letters in front of the first
/// colon.
pub open spec fn same_but_case(a: Seq<char>, b: Seq<char>) -> bool {
    let colon = text::first_index(a, ':');
    &&& a.len() == b.len()
    &&& forall|i: int|
        0 <= i < a.len() ==> (if i < colon {
            text::upper(#[trigger] a[i]) == text::upper(b[i])
        } else {
            a[i] == b[i]
        })
}

/// The case of a command does not matter.
pub proof fn law_case_of_command_does_not_matter(a: Seq<char>, b: Seq<char>)
    requires
        same_but_case(a, b),
    ensures
        parsed(a) == parsed(b),
{
    let colon = text::first_index(a, ':') as int;
    text::lemma_first_index_bounds(a, ':');
    assert forall|i: int| 0 <= i < a.len() implies (text::white_space(#[trigger] a[i])
        <==> text::white_space(b[i])) && (a[i] == ':' <==> b[i] == ':') && (a[i] == ';' <==> b[i]
        == ';') by {}
    let ra = text::lemma_trimmed(a);
    let rb = text::lemma_trimmed(b);
    assert(ra == rb || (ra.0 == ra.1 && rb.0 == rb.1)) by {
        if ra.0 < ra.1 {
            if ra.0 < rb.0 {
                assert(text::white_space(b[ra.0]));
            }
            if rb.0 < ra.0 && rb.0 < rb.1 {
                assert(text::white_space(a[rb.0]));
            }
            if ra.1 > rb.1 {
                assert(text::white_space(b[ra.1 - 1]));
            }
            if rb.1 > ra.1 && rb.0 < rb.1 {
                assert(text::white_space(a[rb.1 - 1]));
            }
            if rb.0 == rb.1 {
                assert(text::white_space(b[ra.0]));
            }
        } else if rb.0 < rb.1 {
            assert(text::white_space(a[rb.0]));
        }
    }
    let ma = text::trimmed(a);
    let mb = text::trimmed(b);
    if ra.0 < ra.1 {
        let k = ra.0;
        assert(ma.last() == a[ra.1 - 1] && mb.last() == b[ra.1 - 1]);
        if ma.last() == ';' {
            let xa = ma.drop_last();
            let xb = mb.drop_last();
            text::lemma_first_index_bounds(xa, ':');
            let i = text::first_index(xa, ':') as int;
            assert forall|j: int| 0 <= j < xa.len() implies xa[j] == a[k + j] && xb[j] == b[k
                + j] by {}
            assert forall|j: int| 0 <= j < i implies xb[j] != ':' by {
                assert(xa[j] != ':');
                assert(a[k + j] != ':');
            }
            if i < xa.len() {
                assert(a[k + i] == ':');
                assert(b[k + i] == ':');
            }
            text::lemma_first_index(xb, ':', i);
            assert(colon >= k + i || i == xa.len()) by {
                if colon < k + i && i < xa.len() {
                    if colon < k {
                        assert(text::white_space(a[colon]));
                    } else {
                        assert(xa[colon - k] == ':');
                    }
                }
            }
            if i < xa.len() {
                assert(colon == k + i) by {
                    if colon > k + i {
                        assert(a[k + i] != ':');
                    }
                }
                assert(text::uppered(xa.take(i)) =~= text::uppered(xb.take(i)));
                let ya = xa.skip(i + 1);
                let yb = xb.skip(i + 1);
                assert forall|j: int| 0 <= j < ya.len() implies #[trigger] ya[j] == yb[j] by {
                    assert(a[k + i + 1 + j] == b[k + i + 1 + j]);
                }
                assert(ya =~= yb);
            } else {
                assert forall|j: int| 0 <= j < xa.len() implies text::upper(xa[j]) == text::upper(
                    xb[j],
                ) by {
                    assert(a[k + j] == xa[j]);
                    if k + j >= colon {
                        assert(a[k + j] == b[k + j]);
                    }
                }
                assert(text::uppered(xa) =~= text::uppered(xb));
            }
        }
    }
}

/// White space around a message does not matter.
pub proof fn law_space_around_message_does_not_matter(msg: Seq<char>)
    ensures
        parsed(text::trimmed(msg)) == parsed(msg),
{
    text::law_trim_is_idempotent(msg);
}

/// No command is unknown: one without a meaning of its own is kept with its name and arguments.
pub proof fn law_no_command_is_unknown(msg: Seq<char>)
    ensures
        parsed(msg) matches Err(e) ==> !(e is UnknownCommand),
{
}

/// A message that is empty or lacks the terminator is the only one that is refused whatever its
/// command.
pub proof fn law_refused_messages(msg: Seq<char>)
    ensures
        parsed(msg) == Err::<CommandView, ErrorView>(ErrorView::Empty) <==> text::trimmed(
            msg,
        ).len() == 0,
        parsed(msg) == Err::<CommandView, ErrorView>(ErrorView::NoTerminator) <==> text::trimmed(
            msg,
        ).len() > 0 && text::trimmed(msg).last() != ';',
{
}

/// A modulation that was parsed holds no comma.
pub proof fn law_modulation_holds_no_comma(msg: Seq<char>)
    ensures
        parsed(msg) matches Ok(CommandView::Modulation { mode, .. }) ==> !mode.contains(','),
{
    if let Ok(CommandView::Modulation { mode, .. }) = parsed(msg) {
        let m = text::trimmed(msg);
        if let Some((_, rest)) = text::split_first(m.drop_last(), ':') {
            let args = text::split_at_each(rest, ',');
            text::law_pieces_hold_no_separator(rest, ',');
            assert(mode == args[1]);
            assert forall|j: int| 0 <= j < mode.len() implies mode[j] != ',' by {
                assert(args[1][j] != ',');
            }
        }
    }
}

/// The handshake starts with the protocol and ends with the message that the server is ready.
pub proof fn law_handshake_frame(
    device_name: Seq<char>,
    trx_count: nat,
    channel_count: nat,
    vfo_limits: (nat, nat),
    if_limits: (int, int),
    iq_samplerate: nat,
    modulations: Seq<Seq<char>>,
)
    ensures
        ({
            let h = handshake(
                device_name,
                trx_count,
                channel_count,
                vfo_limits,
                if_limits,
                iq_samplerate,
                modulations,
            );
            &&& h.first() == message("protocol"@, seq!["ExpertSDR3"@, "1.9"@])
            &&& h.last() == message("ready"@, Seq::empty())
            &&& h.contains(message("receive_only"@, seq!["true"@]))
        }),
{
    let h = handshake(
        device_name,
        trx_count,
        channel_count,
        vfo_limits,
        if_limits,
        iq_samplerate,
        modulations,
    );
    assert(h[2] == message("receive_only"@, seq!["true"@]));
}

/// The number in four bytes at `i`, the low one first.
pub open spec fn le_value(data: Seq<u8>, i: int) -> nat {
    (data[i] + data[i + 1] * 0x100 + data[i + 2] * 0x1_0000 + data[i + 3] * 0x100_0000) as nat
}

/// A number is the sum of its four bytes, each at its place.
proof fn lemma_sum_of_bytes(v: nat)
    requires
        v < 0x1_0000_0000,
    ensures
        v == v % 0x100 + ((v / 0x100) % 0x100) * 0x100 + ((v / 0x1_0000) % 0x100) * 0x1_0000 + (v
            / 0x100_0000) * 0x100_0000,
{
    let a = v / 0x100;
    let b = a / 0x100;
    assert(b == v / 0x1_0000);
    assert(b / 0x100 == v / 0x100_0000);
    assert(v == a * 0x100 + v % 0x100);
    assert(a == b * 0x100 + a % 0x100);
    assert(b == (b / 0x100) * 0x100 + b % 0x100);
}

proof fn lemma_le_round_trip(v: u32, data: Seq<u8>, i: int)
    requires
        0 <= i,
        i + 4 <= data.len(),
        data.subrange(i, i + 4) == le_bytes(v),
    ensures
        le_value(data, i) == v,
{
    let b = data.subrange(i, i + 4);
    assert(b[0] == data[i] && b[1] == data[i + 1] && b[2] == data[i + 2] && b[3] == data[i + 3]);
    lemma_sum_of_bytes(v as nat);
}

proof fn lemma_header_fields(trx: u32, sample_rate: u32, length: u32)
    ensures
        ({
            let h = iq_header(trx, sample_rate, length);
            &&& h.len() == 64
            &&& le_value(h, 0) == trx
            &&& le_value(h, 4) == sample_rate
            &&& le_value(h, 8) == SampleType::Float32.wire()
            &&& le_value(h, 12) == 0
            &&& le_value(h, 16) == 0
            &&& le_value(h, 20) == length
            &&& le_value(h, 24) == StreamType::IqStream.wire()
            &&& le_value(h, 28) == 2
        }),
{
    let h = iq_header(trx, sample_rate, length);
    assert(h.subrange(0, 4) =~= le_bytes(trx));
    lemma_le_round_trip(trx, h, 0);
    assert(h.subrange(4, 8) =~= le_bytes(sample_rate));
    lemma_le_round_trip(sample_rate, h, 4);
    assert(h.subrange(8, 12) =~= le_bytes(SampleType::Float32.wire()));
    lemma_le_round_trip(SampleType::Float32.wire(), h, 8);
    assert(h.subrange(12, 16) =~= le_bytes(0));
    lemma_le_round_trip(0, h, 12);
    assert(h.subrange(16, 20) =~= le_bytes(0));
    lemma_le_round_trip(0, h, 16);
    assert(h.subrange(20, 24) =~= le_bytes(length));
    lemma_le_round_trip(length, h, 20);
    assert(h.subrange(24, 28) =~= le_bytes(StreamType::IqStream.wire()));
    lemma_le_round_trip(StreamType::IqStream.wire(), h, 24);
    assert(h.subrange(28, 32) =~= le_bytes(2));
    lemma_le_round_trip(2, h, 28);
}

/// What a number in the first of two joined sequences is, it is in both.
proof fn lemma_le_value_in_front(front: Seq<u8>, back: Seq<u8>, i: int)
    requires
        0 <= i,
        i + 4 <= front.len(),
    ensures
        le_value(front + back, i) == le_value(front, i),
{
}

proof fn lemma_payload_at(samples: Seq<(u32, u32)>, k: int)
    requires
        0 <= k < samples.len(),
    ensures
        iq_payload(samples).len() == 8 * samples.len(),
        iq_payload(samples).subrange(8 * k, 8 * k + 4) == le_bytes(samples[k].0),
        iq_payload(samples).subrange(8 * k + 4, 8 * k + 8) == le_bytes(samples[k].1),
    decreases samples.len(),
{
    let rest = samples.drop_last();
    let p = iq_payload(samples);
    let q = iq_payload(rest);
    lemma_payload_len(rest);
    if k == rest.len() {
        assert(p.subrange(8 * k, 8 * k + 4) =~= le_bytes(samples[k].0));
        assert(p.subrange(8 * k + 4, 8 * k + 8) =~= le_bytes(samples[k].1));
    } else {
        lemma_payload_at(rest, k);
        assert(p.subrange(8 * k, 8 * k + 4) =~= q.subrange(8 * k, 8 * k + 4));
        assert(p.subrange(8 * k + 4, 8 * k + 8) =~= q.subrange(8 * k + 4, 8 * k + 8));
    }
}

proof fn lemma_payload_len(samples: Seq<(u32, u32)>)
    ensures
        iq_payload(samples).len() == 8 * samples.len(),
    decreases samples.len(),
{
    if samples.len() > 0 {
        lemma_payload_len(samples.drop_last());
    }
}

/// The layout of an IQ frame: the fields of its header stand at their offsets, and pair `k` stands
/// eight bytes behind pair `k - 1`.
pub proof fn law_frame_layout(trx: u32, sample_rate: u32, samples: Seq<(u32, u32)>, k: int)
    ensures
        ({
            let f = iq_frame(trx, sample_rate, samples);
            &&& f.len() == STREAM_HEADER_SIZE + 8 * samples.len()
            &&& le_value(f, 0) == trx
            &&& le_value(f, 4) == sample_rate
            &&& le_value(f, 8) == SampleType::Float32.wire()
            &&& le_value(f, 12) == 0
            &&& le_value(f, 16) == 0
            &&& le_value(f, 20) == (2 * samples.len()) % 0x1_0000_0000
            &&& le_value(f, 24) == StreamType::IqStream.wire()
            &&& le_value(f, 28) == 2
            &&& 0 <= k < samples.len() ==> le_value(f, 64 + 8 * k) == samples[k].0 && le_value(
                f,
                68 + 8 * k,
            ) == samples[k].1
        }),
{
    let f = iq_frame(trx, sample_rate, samples);
    let p = iq_payload(samples);
    let length = ((samples.len() * 2) % 0x1_0000_0000) as u32;
    let h = iq_header(trx, sample_rate, length);
    lemma_payload_len(samples);
    lemma_header_fields(trx, sample_rate, length);
    lemma_le_value_in_front(h, p, 0);
    lemma_le_value_in_front(h, p, 4);
    lemma_le_value_in_front(h, p, 8);
    lemma_le_value_in_front(h, p, 12);
    lemma_le_value_in_front(h, p, 16);
    lemma_le_value_in_front(h, p, 20);
    lemma_le_value_in_front(h, p, 24);
    lemma_le_value_in_front(h, p, 28);
    if 0 <= k < samples.len() {
        lemma_payload_at(samples, k);
        assert(f.subrange(64 + 8 * k, 68 + 8 * k) =~= p.subrange(8 * k, 8 * k + 4));
        assert(f.subrange(68 + 8 * k, 72 + 8 * k) =~= p.subrange(8 * k + 4, 8 * k + 8));
        lemma_le_round_trip(samples[k].0, f, 64 + 8 * k);
        lemma_le_round_trip(samples[k].1, f, 68 + 8 * k);
    }
}

/// The numbers of the kinds of streams and samples.
pub proof fn law_numbers_of_kinds()
    ensures
        StreamType::IqStream.wire() == 0,
        StreamType::RxAudioStream.wire() == 1,
        StreamType::TxAudioStream.wire() == 2,
        StreamType::TxChrono.wire() == 3,
        StreamType::LineoutStream.wire() == 4,
        SampleType::Int16.wire() == 0,
        SampleType::Int24.wire() == 1,
        SampleType::Int32.wire() == 2,
        SampleType::Float32.wire() == 3,
{
}

/// Numbers in a frame stand with the low byte first: four bytes write the first one, 256 times the
/// second one, and so on.
pub proof fn law_low_byte_comes_first(data: Seq<u8>, i: int, v: u32)
    ensures
        le_value(data, i) == data[i] + 0x100 * data[i + 1] + 0x1_0000 * data[i + 2] + 0x100_0000
            * data[i + 3],
        le_bytes(v).len() == 4,
        le_bytes(v)[0] + 0x100 * le_bytes(v)[1] + 0x1_0000 * le_bytes(v)[2] + 0x100_0000 * le_bytes(
            v,
        )[3] == v,
{
    lemma_sum_of_bytes(v as nat);
}

/// The fixed bytes in the header of an IQ frame: 3 for single precision, zeros for codec and
/// checksum, 0 for IQ, 2 for two channels, and zeros up to the samples.
pub proof fn law_frame_header_constants(
    trx: u32,
    sample_rate: u32,
    samples: Seq<(u32, u32)>,
    i: int,
)
    ensures
        ({
            let f = iq_frame(trx, sample_rate, samples);
            &&& f[8] == 3
            &&& f[28] == 2
            &&& 9 <= i < 20 || 24 <= i < 28 || 29 <= i < 64 ==> f[i] == 0
        }),
{
    let n = ((samples.len() * 2) % 0x1_0000_0000) as u32;
    lemma_header_bytes(trx, sample_rate, n);
    lemma_front_bytes(iq_header(trx, sample_rate, n), iq_payload(samples), i);
    lemma_front_bytes(iq_header(trx, sample_rate, n), iq_payload(samples), 8);
    lemma_front_bytes(iq_header(trx, sample_rate, n), iq_payload(samples), 28);
}

proof fn lemma_front_bytes(h: Seq<u8>, p: Seq<u8>, i: int)
    ensures
        0 <= i < h.len() ==> (h + p)[i] == h[i],
{
}

/// The bytes of a header that do not depend on the frame.
proof fn lemma_header_bytes(trx: u32, sample_rate: u32, length: u32)
    ensures
        ({
            let h = iq_header(trx, sample_rate, length);
            &&& h.len() == 64
            &&& h[8] == 3 && h[28] == 2
            &&& forall|i: int|
                9 <= i < 20 || 24 <= i < 28 || 29 <= i < 64 ==> #[trigger] h[i] == 0
        }),
{
    assert(le_bytes(3) =~= seq![3u8, 0u8, 0u8, 0u8]);
    assert(le_bytes(2) =~= seq![2u8, 0u8, 0u8, 0u8]);
    assert(le_bytes(0) =~= seq![0u8, 0u8, 0u8, 0u8]);
}

/// A text message is its command, its arguments behind a colon with commas between them, and a
/// semicolon. Without arguments there is no colon.
pub proof fn law_message_layout(cmd: Seq<char>, args: Seq<Seq<char>>, arg: Seq<char>)
    ensures
        message(cmd, Seq::empty()) == cmd + seq![';'],
        message(cmd, seq![arg]) == cmd + seq![':'] + arg + seq![';'],
        args.len() > 0 ==> message(cmd, args.push(arg)) == message(cmd, args).drop_last() + seq![
            ',',
        ] + arg + seq![';'],
{
    text::law_join_adds_a_piece(args, arg, ',');
    if args.len() > 0 {
        assert(message(cmd, args).drop_last() =~= cmd + seq![':'] + text::joined(args, ','));
        assert(message(cmd, args.push(arg)) =~= message(cmd, args).drop_last() + seq![',']
            + arg + seq![';']);
    }
}

/// What a text message is made of, for a reader: a name, which is taken in upper case, and the
/// arguments behind the first colon, which commas part. White space around the message does not
/// matter.
pub proof fn law_message_is_name_and_arguments(
    front: Seq<char>,
    name: Seq<char>,
    rest: Seq<char>,
    back: Seq<char>,
)
    requires
        forall|i: int| 0 <= i < front.len() ==> text::white_space(#[trigger] front[i]),
        forall|i: int| 0 <= i < back.len() ==> text::white_space(#[trigger] back[i]),
        !name.contains(':'),
        name.len() > 0,
        !text::white_space(name[0]),
    ensures
        parsed(front + (name + seq![';']) + back) == command_of(
            text::uppered(name),
            Seq::empty(),
        ),
        parsed(front + (name + seq![':'] + rest + seq![';']) + back) == command_of(
            text::uppered(name),
            text::split_at_each(rest, ','),
        ),
{
    let bare = name + seq![';'];
    let full = name + seq![':'] + rest + seq![';'];
    assert(bare.last() == ';' && full.last() == ';');
    assert(bare[0] == name[0] && full[0] == name[0]);
    text::law_trim_leaves_the_middle(front, bare, back);
    text::law_trim_leaves_the_middle(front, full, back);
    assert(bare.drop_last() =~= name);
    assert(full.drop_last() =~= name + seq![':'] + rest);
    text::law_parting_at_a_separator(name, rest, ':');
}

/// Messages that are refused whatever their command: white space alone, and what does not end in a
/// semicolon.
pub proof fn law_messages_without_end(front: Seq<char>, middle: Seq<char>, back: Seq<char>)
    requires
        forall|i: int| 0 <= i < front.len() ==> text::white_space(#[trigger] front[i]),
        forall|i: int| 0 <= i < back.len() ==> text::white_space(#[trigger] back[i]),
        middle.len() > 0 ==> !text::white_space(middle[0]) && !text::white_space(middle.last())
            && middle.last() != ';',
    ensures
        middle.len() == 0 ==> parsed(front + middle + back) == Err::<CommandView, ErrorView>(
            ErrorView::Empty,
        ),
        middle.len() > 0 ==> parsed(front + middle + back) == Err::<CommandView, ErrorView>(
            ErrorView::NoTerminator,
        ),
{
    text::law_trim_leaves_the_middle(front, middle, back);
}

/// How arguments are read: as numbers of their range, with any white space around them; what cannot
/// be read is refused as it came.
pub proof fn law_number_arguments(s: Seq<char>)
    ensures
        ({
            let t = text::trimmed(s);
            &&& match decimal::read_unsigned(t, 0xFFFF_FFFF) {
                Some(n) => u32_arg(s) matches Ok(v) && v == n,
                None => u32_arg(s) == Err::<u32, ErrorView>(ErrorView::BadArg(s)),
            }
            &&& match decimal::read_unsigned(t, 0xFFFF_FFFF_FFFF_FFFF) {
                Some(n) => u64_arg(s) matches Ok(v) && v == n,
                None => u64_arg(s) == Err::<u64, ErrorView>(ErrorView::BadArg(s)),
            }
            &&& match decimal::read_signed(t, -0x8000_0000, 0x7FFF_FFFF) {
                Some(n) => i32_arg(s) matches Ok(v) && v == n,
                None => i32_arg(s) == Err::<i32, ErrorView>(ErrorView::BadArg(s)),
            }
            &&& match decimal::read_signed(t, -0x8000_0000_0000_0000, 0x7FFF_FFFF_FFFF_FFFF) {
                Some(n) => i64_arg(s) matches Ok(v) && v == n,
                None => i64_arg(s) == Err::<i64, ErrorView>(ErrorView::BadArg(s)),
            }
        }),
{
}

/// How truth values are read: `true` and `1`, `false` and `0`, in any case and with any white space
/// around them; nothing else is one.
pub proof fn law_truth_arguments(s: Seq<char>)
    ensures
        ({
            let t = text::lowered(text::trimmed(s));
            &&& t == seq!['t', 'r', 'u', 'e'] || t == seq!['1'] <==> bool_arg(s) == Ok::<
                bool,
                ErrorView,
            >(true)
            &&& t == seq!['f', 'a', 'l', 's', 'e'] || t == seq!['0'] <==> bool_arg(s) == Ok::<
                bool,
                ErrorView,
            >(false)
            &&& bool_arg(s) matches Err(e) ==> e == ErrorView::BadArg(s)
        }),
{
    reveal_strlit("true");
    reveal_strlit("false");
    reveal_strlit("1");
    reveal_strlit("0");
    assert("true"@ =~= seq!['t', 'r', 'u', 'e']);
    assert("false"@ =~= seq!['f', 'a', 'l', 's', 'e']);
    assert("1"@ =~= seq!['1']);
    assert("0"@ =~= seq!['0']);
    assert("true"@.len() == 4 && "false"@.len() == 5);
    assert(seq!['1'][0] != seq!['0'][0]);
}

/// The handshake, line by line: the protocol, the device, that the server only receives, the numbers
/// of receivers and channels, the limits of VFOs and offsets, the modulations, the sample rate, and
/// that the server is ready.
pub proof fn law_lines_of_the_handshake(
    device_name: Seq<char>,
    trx_count: nat,
    channel_count: nat,
    vfo_limits: (nat, nat),
    if_limits: (int, int),
    iq_samplerate: nat,
    modulations: Seq<Seq<char>>,
)
    ensures
        ({
            let h = handshake(
                device_name,
                trx_count,
                channel_count,
                vfo_limits,
                if_limits,
                iq_samplerate,
                modulations,
            );
            &&& h.len() == 10
            &&& h[0] == message("protocol"@, seq!["ExpertSDR3"@, "1.9"@])
            &&& h[1] == message("device"@, seq![device_name])
            &&& h[2] == message("receive_only"@, seq!["true"@])
            &&& h[3] == message("trx_count"@, seq![decimal::numeral(trx_count)])
            &&& h[4] == message("channels_count"@, seq![decimal::numeral(channel_count)])
            &&& h[5] == message(
                "vfo_limits"@,
                seq![decimal::numeral(vfo_limits.0), decimal::numeral(vfo_limits.1)],
            )
            &&& h[6] == message(
                "if_limits"@,
                seq![decimal::signed_numeral(if_limits.0), decimal::signed_numeral(if_limits.1)],
            )
            &&& h[7] == message("modulations_list"@, modulations)
            &&& h[8] == message("iq_samplerate"@, seq![decimal::numeral(iq_samplerate)])
            &&& h[9] == message("ready"@, Seq::empty())
        }),
{
}

/// What an error says names what was met.
pub proof fn law_error_texts(s: Seq<char>, expected: nat, got: nat)
    ensures
        ErrorView::Empty.text() == "empty message"@,
        ErrorView::NoTerminator.text() == "missing semicolon terminator"@,
        ErrorView::UnknownCommand(s).text() == "unknown command: "@ + s,
        (ErrorView::BadArgCount { cmd: s, expected, got }).text() == "wrong arg count for "@ + s
            + ": expected "@ + decimal::numeral(expected) + ", got "@ + decimal::numeral(got),
        ErrorView::BadArg(s).text() == "invalid argument: "@ + s,
{
}

/// The view of a command holds what the command holds.
pub proof fn law_view_of_a_command(cmd: &TciCommand)
    ensures
        match *cmd {
            TciCommand::VfoRead { trx, vfo } => cmd@ == (CommandView::VfoRead { trx, vfo }),
            TciCommand::DdsRead { trx } => cmd@ == (CommandView::DdsRead { trx }),
            TciCommand::IfRead { trx, vfo } => cmd@ == (CommandView::IfRead { trx, vfo }),
            TciCommand::ModulationRead { trx } => cmd@ == (CommandView::ModulationRead { trx }),
            TciCommand::RxChannelEnableRead { trx, channel } => cmd@ == (CommandView::RxChannelEnableRead { trx, channel }),
            TciCommand::RxFilterBandRead { trx } => cmd@ == (CommandView::RxFilterBandRead { trx }),
            TciCommand::Vfo { trx, vfo, freq_hz } => cmd@ == (CommandView::Vfo { trx, vfo, freq_hz }),
            TciCommand::Dds { trx, freq_hz } => cmd@ == (CommandView::Dds { trx, freq_hz }),
            TciCommand::If { trx, vfo, offset_hz } => cmd@ == (CommandView::If { trx, vfo, offset_hz }),
            TciCommand::RxChannelEnable { trx, channel, enable } => cmd@ == (CommandView::RxChannelEnable { trx, channel, enable }),
            TciCommand::RxFilterBand { trx, low, high } => cmd@ == (CommandView::RxFilterBand { trx, low, high }),
            TciCommand::IqSamplerate { rate } => cmd@ == (CommandView::IqSamplerate { rate }),
            TciCommand::IqStart { trx } => cmd@ == (CommandView::IqStart { trx }),
            TciCommand::IqStop { trx } => cmd@ == (CommandView::IqStop { trx }),
            TciCommand::AudioSamplerate { rate } => cmd@ == (CommandView::AudioSamplerate { rate }),
            TciCommand::AudioStart { trx } => cmd@ == (CommandView::AudioStart { trx }),
            TciCommand::AudioStop { trx } => cmd@ == (CommandView::AudioStop { trx }),
            TciCommand::AudioStreamChannels { channels } => cmd@ == (CommandView::AudioStreamChannels { channels }),
            TciCommand::AudioStreamSamples { count } => cmd@ == (CommandView::AudioStreamSamples { count }),
            TciCommand::RxSensorsEnable { enable, interval_ms } => cmd@ == (CommandView::RxSensorsEnable { enable, interval_ms }),
            TciCommand::Modulation { trx, mode } => cmd@ == (CommandView::Modulation {
                trx,
                mode: mode@,
            }),
            TciCommand::CwMacros { trx, text } => cmd@ == (CommandView::CwMacros {
                trx,
                text: text@,
            }),
            TciCommand::Spot { callsign, mode, freq_hz, color, text } => cmd@
                == (CommandView::Spot {
                callsign: callsign@,
                mode: mode@,
                freq_hz,
                color,
                text: text@,
            }),
            TciCommand::SpotDelete { callsign } => cmd@ == (CommandView::SpotDelete {
                callsign: callsign@,
            }),
            TciCommand::AudioStreamSampleType { sample_type } => cmd@
                == (CommandView::AudioStreamSampleType { sample_type: sample_type@ }),
            TciCommand::Other { name, args } => cmd@ == (CommandView::Other {
                name: name@,
                args: args@.map_values(|s: String| s@),
            }),
            TciCommand::SpotClear => cmd@ is SpotClear,
            TciCommand::Start => cmd@ is Start,
            TciCommand::Stop => cmd@ is Stop,
            TciCommand::CwMacrosStop => cmd@ is CwMacrosStop,
        },
{
}

/// The view of an outcome holds the command or the error, and that of an error what it names.
pub proof fn law_view_of_an_outcome(cmd: TciCommand, error: TciParseError)
    ensures
        outcome(Ok(cmd)) == Ok::<CommandView, ErrorView>(cmd@),
        outcome(Err(error)) == Err::<CommandView, ErrorView>(error@),
        match error {
            TciParseError::Empty => error@ is Empty,
            TciParseError::NoTerminator => error@ is NoTerminator,
            TciParseError::UnknownCommand(s) => error@ == ErrorView::UnknownCommand(s@),
            TciParseError::BadArgCount { cmd, expected, got } => error@ == (ErrorView::BadArgCount {
                cmd: cmd@,
                expected: expected as nat,
                got: got as nat,
            }),
            TciParseError::BadArg(s) => error@ == ErrorView::BadArg(s@),
        },
{
}

} // verus!
