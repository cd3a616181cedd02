//! What a TCI server answers to a client.

use vstd::prelude::*;

use crate::bridge::BridgeCmd;
use crate::decimal;
use crate::tci::protocol;
use crate::tci::protocol::{TciCommand, TciParseError};
use crate::tci::state;
use crate::tci::state::{IqFrame, SharedState};
use crate::text;

verus! {

/// What a server announces of itself.
#[derive(Debug)]
pub struct ServerConfig {
    pub device_name: String,
    pub trx_count: u8,
    pub channel_count: u8,
    pub vfo_min_hz: u64,
    pub vfo_max_hz: u64,
    pub if_min_hz: i64,
    pub if_max_hz: i64,
    pub modulations: Vec<String>,
}

/// The modulations that a server offers.
pub open spec fn default_modulations() -> Seq<Seq<char>> {
    seq!["AM"@, "SAM"@, "DSB"@, "LSB"@, "USB"@, "CW"@, "NFM"@, "DIGL"@, "DIGU"@]
}

impl Default for ServerConfig {
    fn default() -> (r: ServerConfig)
        ensures
            r.device_name@ == "ka9q-RX888"@,
            r.trx_count == 2,
            r.channel_count == 2,
            r.vfo_min_hz == 10_000,
            r.vfo_max_hz == 30_000_000,
            r.if_min_hz == -24_000,
            r.if_max_hz == 24_000,
            text::string_views(r.modulations@) == default_modulations(),
    {
        let mut modulations: Vec<String> = Vec::new();
        modulations.push("AM".to_owned());
        modulations.push("SAM".to_owned());
        modulations.push("DSB".to_owned());
        modulations.push("LSB".to_owned());
        modulations.push("USB".to_owned());
        modulations.push("CW".to_owned());
        modulations.push("NFM".to_owned());
        modulations.push("DIGL".to_owned());
        modulations.push("DIGU".to_owned());
        assert(text::string_views(modulations@) =~= default_modulations());
        ServerConfig {
            device_name: "ka9q-RX888".to_owned(),
            trx_count: 2,
            channel_count: 2,
            vfo_min_hz: 10_000,
            vfo_max_hz: 30_000_000,
            if_min_hz: -24_000,
            if_max_hz: 24_000,
            modulations,
        }
    }
}

// ---------------------------------------------------------------------------------------------
// Greeting
// ---------------------------------------------------------------------------------------------

/// The handshake of a server that streams at the given sample rate.
pub open spec fn handshake_of(config: &ServerConfig, iq_samplerate: u32) -> Seq<Seq<char>> {
    protocol::handshake(
        config.device_name@,
        config.trx_count as nat,
        config.channel_count as nat,
        (config.vfo_min_hz as nat, config.vfo_max_hz as nat),
        (config.if_min_hz as int, config.if_max_hz as int),
        iq_samplerate as nat,
        text::string_views(config.modulations@),
    )
}

/// Borrows each string.
fn borrowed<'a>(strings: &'a Vec<String>) -> (r: Vec<&'a str>)
    ensures
        text::views(r@) == text::string_views(strings@),
{
    let mut out: Vec<&'a str> = Vec::new();
    let mut i: usize = 0;
    while i < strings.len()
        invariant
            i <= strings@.len(),
            text::views(out@) == text::string_views(strings@).take(i as int),
        decreases strings@.len() - i,
    {
        let ghost before = out@;
        out.push(strings[i].as_str());
        i = i + 1;
        assert(text::views(out@) =~= text::views(before).push(text::string_views(strings@)[i - 1]));
        assert(text::views(out@) =~= text::string_views(strings@).take(i as int));
    }
    assert(text::string_views(strings@).take(i as int) =~= text::string_views(strings@));
    out
}

/// What a client is sent as soon as it has connected: the handshake, then the current state.
pub fn greeting(config: &ServerConfig, state: &SharedState) -> (r: Vec<String>)
    ensures
        text::string_views(r@) == handshake_of(config, state.iq_samplerate) + state::state_lines(
            state@,
        ),
{
    let modulations = borrowed(&config.modulations);
    let mut msgs = protocol::handshake_messages(
        config.device_name.as_str(),
        config.trx_count,
        config.channel_count,
        config.vfo_min_hz,
        config.vfo_max_hz,
        config.if_min_hz,
        config.if_max_hz,
        state.iq_samplerate,
        modulations.as_slice(),
    );
    let ghost first = msgs@;
    let mut rest = state.current_state_messages();
    let ghost second = rest@;
    msgs.append(&mut rest);
    assert(text::string_views(msgs@) =~= text::string_views(first) + text::string_views(second));
    msgs
}

// ---------------------------------------------------------------------------------------------
// Commands
// ---------------------------------------------------------------------------------------------

/// The lines of a text that hold more than white space, without the white space around them.
pub open spec fn lines_of(text: Seq<char>) -> Seq<Seq<char>> {
    nonempty_trimmed(text::split_at_each(text, '\n'))
}

/// The pieces that hold more than white space, without the white space around them.
pub open spec fn nonempty_trimmed(pieces: Seq<Seq<char>>) -> Seq<Seq<char>>
    decreases pieces.len(),
{
    if pieces.len() == 0 {
        Seq::empty()
    } else {
        let rest = nonempty_trimmed(pieces.drop_last());
        let last = text::trimmed(pieces.last());
        if last.len() == 0 {
            rest
        } else {
            rest.push(last)
        }
    }
}

/// Splits a text into the commands that it holds, one on each line.
pub fn command_lines<'a>(text: &'a str) -> (r: Vec<&'a str>)
    ensures
        text::views(r@) == lines_of(text@),
{
    let pieces = text::split(text, '\n');
    let ghost all = text::views(pieces@);
    let mut out: Vec<&'a str> = Vec::new();
    let mut i: usize = 0;
    assert(text::views(out@) =~= nonempty_trimmed(all.take(0)));
    while i < pieces.len()
        invariant
            i <= pieces@.len(),
            all == text::views(pieces@),
            text::views(out@) == nonempty_trimmed(all.take(i as int)),
        decreases pieces@.len() - i,
    {
        let ghost before = out@;
        let line = text::trim(pieces[i]);
        assert(all.take(i + 1).drop_last() =~= all.take(i as int));
        if line.unicode_len() > 0 {
            out.push(line);
            assert(text::views(out@) =~= text::views(before).push(line@));
        }
        i = i + 1;
    }
    assert(all.take(i as int) =~= all);
    out
}

/// The line that gives a frequency of a VFO.
pub open spec fn vfo_line(trx: u32, vfo: u32, freq_hz: u64) -> Seq<char> {
    protocol::message(
        "vfo"@,
        seq![
            decimal::numeral(trx as nat),
            decimal::numeral(vfo as nat),
            decimal::numeral(freq_hz as nat),
        ],
    )
}

/// The line that gives a centre frequency.
pub open spec fn dds_line(trx: u32, freq_hz: u64) -> Seq<char> {
    protocol::message(
        "dds"@,
        seq![decimal::numeral(trx as nat), decimal::numeral(freq_hz as nat)],
    )
}

/// The line that gives the offset of a VFO.
pub open spec fn if_line(trx: u32, vfo: u32, offset_hz: i64) -> Seq<char> {
    protocol::message(
        "if"@,
        seq![
            decimal::numeral(trx as nat),
            decimal::numeral(vfo as nat),
            decimal::signed_numeral(offset_hz as int),
        ],
    )
}

/// The line that gives a modulation.
pub open spec fn modulation_line(trx: u32, mode: Seq<char>) -> Seq<char> {
    protocol::message("modulation"@, seq![decimal::numeral(trx as nat), mode])
}

/// The line that says whether a channel is on.
pub open spec fn channel_line(trx: u32, channel: u32, enabled: bool) -> Seq<char> {
    protocol::message(
        "rx_channel_enable"@,
        seq![
            decimal::numeral(trx as nat),
            decimal::numeral(channel as nat),
            state::bool_text(enabled),
        ],
    )
}

/// The line that gives the edges of a filter.
pub open spec fn filter_line(trx: u32, low: i32, high: i32) -> Seq<char> {
    protocol::message(
        "rx_filter_band"@,
        seq![
            decimal::numeral(trx as nat),
            decimal::signed_numeral(low as int),
            decimal::signed_numeral(high as int),
        ],
    )
}

/// The line that gives the sample rate of the IQ streams.
pub open spec fn rate_line(rate: u32) -> Seq<char> {
    protocol::message("iq_samplerate"@, seq![decimal::numeral(rate as nat)])
}

/// What a server with `max_trx` receivers answers to a command in the given state. Commands for a
/// receiver or a VFO that there is not, and those that the server does not act on, are not
/// answered.
pub open spec fn replies_to(
    state: state::StateView,
    max_trx: nat,
    cmd: protocol::CommandView,
) -> Seq<Seq<char>> {
    match cmd {
        protocol::CommandView::Vfo { trx, vfo, freq_hz } => if trx < max_trx && vfo < 2 {
            seq![vfo_line(trx, vfo, freq_hz)]
        } else {
            Seq::empty()
        },
        protocol::CommandView::VfoRead { trx, vfo } => if trx < max_trx && vfo < 2 {
            seq![vfo_line(trx, vfo, state.trx[trx as int].vfo[vfo as int].freq_hz)]
        } else {
            Seq::empty()
        },
        protocol::CommandView::Dds { trx, freq_hz } => if trx < max_trx {
            seq![dds_line(trx, freq_hz)]
        } else {
            Seq::empty()
        },
        protocol::CommandView::DdsRead { trx } => if trx < max_trx {
            seq![dds_line(trx, state.trx[trx as int].dds_freq_hz)]
        } else {
            Seq::empty()
        },
        protocol::CommandView::If { trx, vfo, offset_hz } => if trx < max_trx && vfo < 2 {
            seq![if_line(trx, vfo, offset_hz)]
        } else {
            Seq::empty()
        },
        protocol::CommandView::IfRead { trx, vfo } => if trx < max_trx && vfo < 2 {
            seq![if_line(trx, vfo, state.trx[trx as int].vfo[vfo as int].if_offset_hz)]
        } else {
            Seq::empty()
        },
        protocol::CommandView::Modulation { trx, mode } => if trx < max_trx {
            seq![modulation_line(trx, mode)]
        } else {
            Seq::empty()
        },
        protocol::CommandView::ModulationRead { trx } => if trx < max_trx {
            seq![modulation_line(trx, state.trx[trx as int].modulation)]
        } else {
            Seq::empty()
        },
        protocol::CommandView::RxChannelEnable { trx, channel, enable } => if trx < max_trx
            && channel < 2 {
            seq![channel_line(trx, channel, enable)]
        } else {
            Seq::empty()
        },
        protocol::CommandView::RxChannelEnableRead { trx, channel } => if trx < max_trx && channel
            < 2 {
            seq![channel_line(trx, channel, state.trx[trx as int].vfo[channel as int].enabled)]
        } else {
            Seq::empty()
        },
        protocol::CommandView::RxFilterBand { trx, low, high } => if trx < max_trx {
            seq![filter_line(trx, low, high)]
        } else {
            Seq::empty()
        },
        protocol::CommandView::RxFilterBandRead { trx } => if trx < max_trx {
            seq![
                filter_line(
                    trx,
                    state.trx[trx as int].filter_low,
                    state.trx[trx as int].filter_high,
                ),
            ]
        } else {
            Seq::empty()
        },
        protocol::CommandView::IqSamplerate { rate } => seq![rate_line(rate)],
        protocol::CommandView::Start => seq![protocol::message("start"@, Seq::empty())],
        protocol::CommandView::Stop => seq![protocol::message("stop"@, Seq::empty())],
        _ => Seq::empty(),
    }
}

/// A receiver with one VFO replaced.
pub open spec fn with_vfo(trx: state::TrxView, i: int, vfo: state::VfoState) -> state::TrxView {
    state::TrxView { vfo: trx.vfo.update(i, vfo), ..trx }
}

/// A state with one receiver replaced.
pub open spec fn with_trx(
    state: state::StateView,
    i: int,
    trx: state::TrxView,
) -> state::StateView {
    state::StateView { trx: state.trx.update(i, trx), ..state }
}

/// The state after a command to a server with `max_trx` receivers. Setting VFO A moves the centre
/// frequency along.
pub open spec fn state_after(
    state: state::StateView,
    max_trx: nat,
    cmd: protocol::CommandView,
) -> state::StateView {
    match cmd {
        protocol::CommandView::Vfo { trx, vfo, freq_hz } => if trx < max_trx && vfo < 2 {
            let old_trx = state.trx[trx as int];
            let tuned = with_vfo(
                old_trx,
                vfo as int,
                state::VfoState { freq_hz, ..old_trx.vfo[vfo as int] },
            );
            with_trx(
                state,
                trx as int,
                if vfo == 0 {
                    state::TrxView { dds_freq_hz: freq_hz, ..tuned }
                } else {
                    tuned
                },
            )
        } else {
            state
        },
        protocol::CommandView::Dds { trx, freq_hz } => if trx < max_trx {
            with_trx(
                state,
                trx as int,
                state::TrxView { dds_freq_hz: freq_hz, ..state.trx[trx as int] },
            )
        } else {
            state
        },
        protocol::CommandView::If { trx, vfo, offset_hz } => if trx < max_trx && vfo < 2 {
            let old_trx = state.trx[trx as int];
            with_trx(
                state,
                trx as int,
                with_vfo(
                    old_trx,
                    vfo as int,
                    state::VfoState { if_offset_hz: offset_hz, ..old_trx.vfo[vfo as int] },
                ),
            )
        } else {
            state
        },
        protocol::CommandView::Modulation { trx, mode } => if trx < max_trx {
            with_trx(
                state,
                trx as int,
                state::TrxView { modulation: mode, ..state.trx[trx as int] },
            )
        } else {
            state
        },
        protocol::CommandView::RxChannelEnable { trx, channel, enable } => if trx < max_trx
            && channel < 2 {
            let old_trx = state.trx[trx as int];
            with_trx(
                state,
                trx as int,
                with_vfo(
                    old_trx,
                    channel as int,
                    state::VfoState { enabled: enable, ..old_trx.vfo[channel as int] },
                ),
            )
        } else {
            state
        },
        protocol::CommandView::RxFilterBand { trx, low, high } => if trx < max_trx {
            with_trx(
                state,
                trx as int,
                state::TrxView { filter_low: low, filter_high: high, ..state.trx[trx as int] },
            )
        } else {
            state
        },
        protocol::CommandView::IqSamplerate { rate } => state::StateView {
            iq_samplerate: rate,
            ..state
        },
        _ => state,
    }
}

/// The receivers whose IQ stream a client gets, after a command of that client.
pub open spec fn active_after(active: Seq<bool>, cmd: protocol::CommandView) -> Seq<bool> {
    match cmd {
        protocol::CommandView::IqStart { trx } => if trx < active.len() {
            active.update(trx as int, true)
        } else {
            active
        },
        protocol::CommandView::IqStop { trx } => if trx < active.len() {
            active.update(trx as int, false)
        } else {
            active
        },
        _ => active,
    }
}

fn vfo_msg(trx: u32, vfo: u32, freq_hz: u64) -> (r: String)
    ensures
        r@ == vfo_line(trx, vfo, freq_hz),
{
    protocol::message_of_three(
        "vfo",
        decimal::unsigned_string(trx as u64).as_str(),
        decimal::unsigned_string(vfo as u64).as_str(),
        decimal::unsigned_string(freq_hz).as_str(),
    )
}

fn dds_msg(trx: u32, freq_hz: u64) -> (r: String)
    ensures
        r@ == dds_line(trx, freq_hz),
{
    protocol::message_of_two(
        "dds",
        decimal::unsigned_string(trx as u64).as_str(),
        decimal::unsigned_string(freq_hz).as_str(),
    )
}

fn if_msg(trx: u32, vfo: u32, offset_hz: i64) -> (r: String)
    ensures
        r@ == if_line(trx, vfo, offset_hz),
{
    protocol::message_of_three(
        "if",
        decimal::unsigned_string(trx as u64).as_str(),
        decimal::unsigned_string(vfo as u64).as_str(),
        decimal::signed_string(offset_hz).as_str(),
    )
}

fn modulation_msg(trx: u32, mode: &str) -> (r: String)
    ensures
        r@ == modulation_line(trx, mode@),
{
    protocol::message_of_two("modulation", decimal::unsigned_string(trx as u64).as_str(), mode)
}

fn channel_msg(trx: u32, channel: u32, enabled: bool) -> (r: String)
    ensures
        r@ == channel_line(trx, channel, enabled),
{
    protocol::message_of_three(
        "rx_channel_enable",
        decimal::unsigned_string(trx as u64).as_str(),
        decimal::unsigned_string(channel as u64).as_str(),
        state::bool_str(enabled),
    )
}

fn filter_msg(trx: u32, low: i32, high: i32) -> (r: String)
    ensures
        r@ == filter_line(trx, low, high),
{
    protocol::message_of_three(
        "rx_filter_band",
        decimal::unsigned_string(trx as u64).as_str(),
        decimal::signed_string(low as i64).as_str(),
        decimal::signed_string(high as i64).as_str(),
    )
}

fn bare_msg(cmd: &str) -> (r: String)
    ensures
        r@ == protocol::message(cmd@, Seq::empty()),
{
    let none: [&str; 0] = [];
    assert(text::views(none@) =~= Seq::<Seq<char>>::empty());
    protocol::format_msg(cmd, none.as_slice())
}

/// The receiver that a command speaks of.
pub open spec fn trx_of(cmd: protocol::CommandView) -> Option<u32> {
    match cmd {
        protocol::CommandView::Vfo { trx, .. } => Some(trx),
        protocol::CommandView::VfoRead { trx, .. } => Some(trx),
        protocol::CommandView::Dds { trx, .. } => Some(trx),
        protocol::CommandView::DdsRead { trx } => Some(trx),
        protocol::CommandView::If { trx, .. } => Some(trx),
        protocol::CommandView::IfRead { trx, .. } => Some(trx),
        protocol::CommandView::Modulation { trx, .. } => Some(trx),
        protocol::CommandView::ModulationRead { trx } => Some(trx),
        protocol::CommandView::RxChannelEnable { trx, .. } => Some(trx),
        protocol::CommandView::RxChannelEnableRead { trx, .. } => Some(trx),
        protocol::CommandView::RxFilterBand { trx, .. } => Some(trx),
        protocol::CommandView::RxFilterBandRead { trx } => Some(trx),
        _ => None,
    }
}

/// The VFO that a command speaks of.
pub open spec fn vfo_of(cmd: protocol::CommandView) -> Option<u32> {
    match cmd {
        protocol::CommandView::Vfo { vfo, .. } => Some(vfo),
        protocol::CommandView::VfoRead { vfo, .. } => Some(vfo),
        protocol::CommandView::If { vfo, .. } => Some(vfo),
        protocol::CommandView::IfRead { vfo, .. } => Some(vfo),
        protocol::CommandView::RxChannelEnable { channel, .. } => Some(channel),
        protocol::CommandView::RxChannelEnableRead { channel, .. } => Some(channel),
        _ => None,
    }
}

/// Whether a state with `trx_len` receivers has the receiver that a command to a server with
/// `max_trx` receivers is for. A command whose receiver or VFO is out of range is for none.
pub open spec fn has_receiver(trx_len: nat, max_trx: nat, cmd: protocol::CommandView) -> bool {
    trx_of(cmd) matches Some(trx) ==> (trx < max_trx && (vfo_of(cmd) matches Some(vfo) ==> vfo < 2)
        ==> trx < trx_len)
}

/// Carries out a command that changes a receiver or reads it, and gives the reply.
fn handle_trx_command(cmd: &TciCommand, state: &mut SharedState, max_trx: usize) -> (r: Option<
    String,
>)
    requires
        has_receiver(old(state).trx@.len(), max_trx as nat, cmd@),
        cmd@ !is IqSamplerate,
        cmd@ !is Start,
        cmd@ !is Stop,
    ensures
        final(state)@ == state_after(old(state)@, max_trx as nat, cmd@),
        r matches Some(s) ==> replies_to(old(state)@, max_trx as nat, cmd@) == seq![s@],
        r is None ==> replies_to(old(state)@, max_trx as nat, cmd@) == Seq::<Seq<char>>::empty(),
{
    let ghost before = state@;
    let ghost after = state_after(before, max_trx as nat, cmd@);
    match cmd {
        TciCommand::Vfo { trx, vfo, freq_hz } => {
            let ti: usize = *trx as usize;
            let vi: usize = *vfo as usize;
            if ti < max_trx && vi < 2 {
                state.trx[ti].vfo[vi].freq_hz = *freq_hz;
                if vi == 0 {
                    state.trx[ti].dds_freq_hz = *freq_hz;
                }
                assert(state@.trx[ti as int] =~= after.trx[ti as int]);
                assert(state@ =~= after);
                return Some(vfo_msg(*trx, *vfo, *freq_hz));
            }
        },
        TciCommand::VfoRead { trx, vfo } => {
            let ti: usize = *trx as usize;
            let vi: usize = *vfo as usize;
            if ti < max_trx && vi < 2 {
                return Some(vfo_msg(*trx, *vfo, state.trx[ti].vfo[vi].freq_hz));
            }
        },
        TciCommand::Dds { trx, freq_hz } => {
            let ti: usize = *trx as usize;
            if ti < max_trx {
                state.trx[ti].dds_freq_hz = *freq_hz;
                assert(state@ =~= after);
                return Some(dds_msg(*trx, *freq_hz));
            }
        },
        TciCommand::DdsRead { trx } => {
            let ti: usize = *trx as usize;
            if ti < max_trx {
                return Some(dds_msg(*trx, state.trx[ti].dds_freq_hz));
            }
        },
        TciCommand::If { trx, vfo, offset_hz } => {
            let ti: usize = *trx as usize;
            let vi: usize = *vfo as usize;
            if ti < max_trx && vi < 2 {
                state.trx[ti].vfo[vi].if_offset_hz = *offset_hz;
                assert(state@.trx[ti as int] =~= after.trx[ti as int]);
                assert(state@ =~= after);
                return Some(if_msg(*trx, *vfo, *offset_hz));
            }
        },
        TciCommand::IfRead { trx, vfo } => {
            let ti: usize = *trx as usize;
            let vi: usize = *vfo as usize;
            if ti < max_trx && vi < 2 {
                return Some(if_msg(*trx, *vfo, state.trx[ti].vfo[vi].if_offset_hz));
            }
        },
        TciCommand::Modulation { trx, mode } => {
            let ti: usize = *trx as usize;
            if ti < max_trx {
                state.trx[ti].modulation = mode.clone();
                assert(state@ =~= after);
                return Some(modulation_msg(*trx, mode.as_str()));
            }
        },
        TciCommand::ModulationRead { trx } => {
            let ti: usize = *trx as usize;
            if ti < max_trx {
                return Some(modulation_msg(*trx, state.trx[ti].modulation.as_str()));
            }
        },
        TciCommand::RxChannelEnable { trx, channel, enable } => {
            let ti: usize = *trx as usize;
            let ci: usize = *channel as usize;
            if ti < max_trx && ci < 2 {
                state.trx[ti].vfo[ci].enabled = *enable;
                assert(state@.trx[ti as int] =~= after.trx[ti as int]);
                assert(state@ =~= after);
                return Some(channel_msg(*trx, *channel, *enable));
            }
        },
        TciCommand::RxChannelEnableRead { trx, channel } => {
            let ti: usize = *trx as usize;
            let ci: usize = *channel as usize;
            if ti < max_trx && ci < 2 {
                return Some(channel_msg(*trx, *channel, state.trx[ti].vfo[ci].enabled));
            }
        },
        TciCommand::RxFilterBand { trx, low, high } => {
            let ti: usize = *trx as usize;
            if ti < max_trx {
                state.trx[ti].filter_low = *low;
                state.trx[ti].filter_high = *high;
                assert(state@ =~= after);
                return Some(filter_msg(*trx, *low, *high));
            }
        },
        TciCommand::RxFilterBandRead { trx } => {
            let ti: usize = *trx as usize;
            if ti < max_trx {
                return Some(
                    filter_msg(*trx, state.trx[ti].filter_low, state.trx[ti].filter_high),
                );
            }
        },
        _ => {},
    }
    None
}

/// Carries out a command of a client and gives the replies to it.
pub fn handle_command(
    cmd: &TciCommand,
    state: &mut SharedState,
    config: &ServerConfig,
    iq_active: &mut [bool],
) -> (r: Vec<String>)
    requires
        has_receiver(old(state).trx@.len(), config.trx_count as nat, cmd@),
    ensures
        text::string_views(r@) == replies_to(old(state)@, config.trx_count as nat, cmd@),
        final(state)@ == state_after(old(state)@, config.trx_count as nat, cmd@),
        final(iq_active)@ == active_after(old(iq_active)@, cmd@),
        final(state).trx@.len() == old(state).trx@.len(),
{
    let mut replies: Vec<String> = Vec::new();
    let ghost expected = replies_to(state@, config.trx_count as nat, cmd@);
    match cmd {
        TciCommand::IqSamplerate { rate } => {
            state.iq_samplerate = *rate;
            replies.push(
                protocol::message_of_one(
                    "iq_samplerate",
                    decimal::unsigned_string(*rate as u64).as_str(),
                ),
            );
        },
        TciCommand::IqStart { trx } => {
            let ti: usize = *trx as usize;
            if ti < iq_active.len() {
                iq_active[ti] = true;
            }
        },
        TciCommand::IqStop { trx } => {
            let ti: usize = *trx as usize;
            if ti < iq_active.len() {
                iq_active[ti] = false;
            }
        },
        TciCommand::Start => {
            replies.push(bare_msg("start"));
        },
        TciCommand::Stop => {
            replies.push(bare_msg("stop"));
        },
        _ => {
            match handle_trx_command(cmd, state, config.trx_count as usize) {
                Some(reply) => {
                    replies.push(reply);
                },
                None => {},
            }
        },
    }
    assert(text::string_views(replies@) =~= expected);
    assert(state@.trx.len() == old(state)@.trx.len());
    replies
}

/// What a command to a server with `max_trx` receivers asks of the bridge: setting VFO A of a
/// receiver that there is tunes its channel, and setting the sample rate changes that of the
/// channels. Other commands ask nothing.
pub open spec fn asked_of_bridge(max_trx: nat, cmd: protocol::CommandView) -> Option<BridgeCmd> {
    match cmd {
        protocol::CommandView::Vfo { trx, vfo, freq_hz } => if trx < max_trx && vfo == 0 {
            Some(BridgeCmd::Tune { trx: trx as u8, vfo: 0, freq_hz })
        } else {
            None
        },
        protocol::CommandView::IqSamplerate { rate } => Some(BridgeCmd::SetSr { samprate: rate }),
        _ => None,
    }
}

/// What a command of a client asks of the bridge.
pub fn bridge_command(cmd: &TciCommand, config: &ServerConfig) -> (r: Option<BridgeCmd>)
    ensures
        r == asked_of_bridge(config.trx_count as nat, cmd@),
{
    match cmd {
        TciCommand::Vfo { trx, vfo, freq_hz } => {
            if *trx < config.trx_count as u32 && *vfo == 0 {
                Some(BridgeCmd::Tune { trx: *trx as u8, vfo: 0, freq_hz: *freq_hz })
            } else {
                None
            }
        },
        TciCommand::IqSamplerate { rate } => Some(BridgeCmd::SetSr { samprate: *rate }),
        _ => None,
    }
}

// ---------------------------------------------------------------------------------------------
// IQ frames
// ---------------------------------------------------------------------------------------------

/// Whether a client of the endpoint gets the frame: the frame is of that endpoint, and the client
/// has started the stream of the receiver.
pub open spec fn wanted(endpoint_id: u8, frame: &IqFrame, active: Seq<bool>) -> bool {
    frame.endpoint == endpoint_id && frame.trx < active.len() && active[frame.trx as int]
}

/// Whether a client of the endpoint gets the frame.
pub fn forward_frame(endpoint_id: u8, frame: &IqFrame, iq_active: &[bool]) -> (r: bool)
    ensures
        r == wanted(endpoint_id, frame, iq_active@),
{
    let trx: usize = frame.trx as usize;
    frame.endpoint == endpoint_id && trx < iq_active.len() && iq_active[trx]
}

// ---------------------------------------------------------------------------------------------
// Sessions
// ---------------------------------------------------------------------------------------------

/// A message that a client sent.
#[derive(Debug)]
pub enum ClientMessage {
    Text(String),
    Binary,
    Ping(Vec<u8>),
    Close,
    Other,
}

/// What to do about a message of a client.
#[derive(Debug)]
pub enum Reaction<'a> {
    /// Carry out these lines, one after the other.
    CarryOut(Vec<&'a str>),
    /// Answer with these bytes.
    Pong(Vec<u8>),
    /// End the session.
    End,
    /// Do nothing: binary messages are for transmitters.
    Nothing,
}

/// What to do about a message of a client.
pub fn react<'a>(msg: &'a ClientMessage) -> (r: Reaction<'a>)
    ensures
        match *msg {
            ClientMessage::Text(text) => r matches Reaction::CarryOut(lines) && text::views(lines@)
                == lines_of(text@),
            ClientMessage::Ping(data) => r matches Reaction::Pong(answer) && answer@ == data@,
            ClientMessage::Close => r matches Reaction::End,
            ClientMessage::Binary | ClientMessage::Other => r matches Reaction::Nothing,
        },
{
    match msg {
        ClientMessage::Text(text) => Reaction::CarryOut(command_lines(text.as_str())),
        ClientMessage::Ping(data) => Reaction::Pong(vstd::slice::slice_to_vec(data.as_slice())),
        ClientMessage::Close => Reaction::End,
        ClientMessage::Binary | ClientMessage::Other => Reaction::Nothing,
    }
}

/// What comes of a command of a client: what is asked of the bridge, and the replies to the client.
#[derive(Debug)]
pub struct Outcome {
    pub request: Option<BridgeCmd>,
    pub replies: Vec<String>,
}

/// The session of one client: the endpoint that it is connected to, and for each receiver whether
/// the client gets its IQ stream.
#[derive(Debug)]
pub struct Session {
    pub endpoint_id: u8,
    pub iq_active: Vec<bool>,
}

impl Session {
    /// A session in which no stream is started.
    pub fn new(endpoint_id: u8, config: &ServerConfig) -> (r: Session)
        ensures
            r.endpoint_id == endpoint_id,
            r.iq_active@ == Seq::new(config.trx_count as nat, |i: int| false),
    {
        let mut iq_active: Vec<bool> = Vec::new();
        let mut i: u8 = 0;
        while i < config.trx_count
            invariant
                i <= config.trx_count,
                iq_active@ == Seq::new(i as nat, |i: int| false),
            decreases config.trx_count - i,
        {
            iq_active.push(false);
            i = i + 1;
            assert(iq_active@ =~= Seq::new(i as nat, |i: int| false));
        }
        Session { endpoint_id, iq_active }
    }

    /// Whether the client gets a frame.
    pub fn gets(&self, frame: &IqFrame) -> (r: bool)
        ensures
            r == wanted(self.endpoint_id, frame, self.iq_active@),
    {
        forward_frame(self.endpoint_id, frame, self.iq_active.as_slice())
    }

    /// Carries out one line of the client: a command that can be parsed is handled, replied to and,
    /// where it concerns the bridge, passed on; any other line changes nothing.
    pub fn carry_out(&mut self, line: &str, state: &mut SharedState, config: &ServerConfig) -> (r:
        Result<Outcome, TciParseError>)
        requires
            protocol::parsed(line@) matches Ok(cmd) ==> has_receiver(
                old(state).trx@.len(),
                config.trx_count as nat,
                cmd,
            ),
        ensures
            final(self).endpoint_id == old(self).endpoint_id,
            final(state).trx@.len() == old(state).trx@.len(),
            match protocol::parsed(line@) {
                Ok(cmd) => {
                    &&& r matches Ok(outcome)
                    &&& outcome.request == asked_of_bridge(config.trx_count as nat, cmd)
                    &&& text::string_views(outcome.replies@) == replies_to(
                        old(state)@,
                        config.trx_count as nat,
                        cmd,
                    )
                    &&& final(state)@ == state_after(old(state)@, config.trx_count as nat, cmd)
                    &&& final(self).iq_active@ == active_after(old(self).iq_active@, cmd)
                },
                Err(e) => {
                    &&& r matches Err(error)
                    &&& error@ == e
                    &&& *final(state) == *old(state)
                    &&& final(self).iq_active@ == old(self).iq_active@
                },
            },
    {
        match protocol::parse_command(line) {
            Ok(cmd) => {
                let request = bridge_command(&cmd, config);
                let replies = handle_command(&cmd, state, config, self.iq_active.as_mut_slice());
                Ok(Outcome { request, replies })
            },
            Err(e) => Err(e),
        }
    }
}

// ---------------------------------------------------------------------------------------------
// Laws
// ---------------------------------------------------------------------------------------------

/// The command that asks for what a command sets.
pub open spec fn read_of(cmd: protocol::CommandView) -> Option<protocol::CommandView> {
    match cmd {
        protocol::CommandView::Vfo { trx, vfo, .. } => Some(
            protocol::CommandView::VfoRead { trx, vfo },
        ),
        protocol::CommandView::Dds { trx, .. } => Some(protocol::CommandView::DdsRead { trx }),
        protocol::CommandView::If { trx, vfo, .. } => Some(
            protocol::CommandView::IfRead { trx, vfo },
        ),
        protocol::CommandView::Modulation { trx, .. } => Some(
            protocol::CommandView::ModulationRead { trx },
        ),
        protocol::CommandView::RxChannelEnable { trx, channel, .. } => Some(
            protocol::CommandView::RxChannelEnableRead { trx, channel },
        ),
        protocol::CommandView::RxFilterBand { trx, .. } => Some(
            protocol::CommandView::RxFilterBandRead { trx },
        ),
        _ => None,
    }
}

/// What was set is what is read: asking for a value that has just been set gives the reply that
/// setting it gave.
pub proof fn law_read_gives_what_was_set(
    state: state::StateView,
    max_trx: nat,
    cmd: protocol::CommandView,
)
    requires
        state::valid(state),
        has_receiver(state.trx.len(), max_trx, cmd),
    ensures
        read_of(cmd) matches Some(read) ==> replies_to(
            state_after(state, max_trx, cmd),
            max_trx,
            read,
        ) == replies_to(state, max_trx, cmd),
{
}

/// A command for a receiver that there is not is not answered and changes nothing.
pub proof fn law_missing_receiver_is_ignored(
    state: state::StateView,
    max_trx: nat,
    cmd: protocol::CommandView,
)
    requires
        trx_of(cmd) matches Some(trx) && trx >= max_trx,
    ensures
        replies_to(state, max_trx, cmd) == Seq::<Seq<char>>::empty(),
        state_after(state, max_trx, cmd) == state,
{
}

/// A command changes no receiver but the one that it speaks of, and only the command for the sample
/// rate changes that. No command adds or takes away a receiver or a VFO.
pub proof fn law_other_receivers_keep_their_state(
    state: state::StateView,
    max_trx: nat,
    cmd: protocol::CommandView,
    i: int,
)
    requires
        state::valid(state),
        has_receiver(state.trx.len(), max_trx, cmd),
    ensures
        state_after(state, max_trx, cmd).trx.len() == state.trx.len(),
        state::valid(state_after(state, max_trx, cmd)),
        0 <= i < state.trx.len() && trx_of(cmd) != Some(i as u32) && i <= u32::MAX ==> state_after(
            state,
            max_trx,
            cmd,
        ).trx[i] == state.trx[i],
        !(cmd is IqSamplerate) ==> state_after(state, max_trx, cmd).iq_samplerate
            == state.iq_samplerate,
{
}

/// A command that only asks changes nothing.
pub proof fn law_reading_changes_nothing(
    state: state::StateView,
    max_trx: nat,
    cmd: protocol::CommandView,
)
    requires
        cmd is VfoRead || cmd is DdsRead || cmd is IfRead || cmd is ModulationRead
            || cmd is RxChannelEnableRead || cmd is RxFilterBandRead,
    ensures
        state_after(state, max_trx, cmd) == state,
{
}

/// The centre frequency follows VFO A and does not follow VFO B.
pub proof fn law_centre_follows_vfo_a(
    state: state::StateView,
    max_trx: nat,
    trx: u32,
    vfo: u32,
    freq_hz: u64,
)
    requires
        trx < max_trx,
        trx < state.trx.len(),
        vfo < 2,
    ensures
        ({
            let after = state_after(
                state,
                max_trx,
                protocol::CommandView::Vfo { trx, vfo, freq_hz },
            );
            after.trx[trx as int].dds_freq_hz == (if vfo == 0 {
                freq_hz
            } else {
                state.trx[trx as int].dds_freq_hz
            })
        }),
{
}

/// A client gets the frames of a receiver of its endpoint from when it starts the stream until it
/// stops it, and no frames of another endpoint.
pub proof fn law_frames_follow_start_and_stop(
    endpoint_id: u8,
    frame: &IqFrame,
    active: Seq<bool>,
    cmd: protocol::CommandView,
)
    ensures
        frame.endpoint != endpoint_id ==> !wanted(endpoint_id, frame, active),
        (forall|i: int| 0 <= i < active.len() ==> !active[i]) ==> !wanted(
            endpoint_id,
            frame,
            active,
        ),
        cmd == (protocol::CommandView::IqStart { trx: frame.trx }) ==> wanted(
            endpoint_id,
            frame,
            active_after(active, cmd),
        ) == (frame.endpoint == endpoint_id && frame.trx < active.len()),
        cmd == (protocol::CommandView::IqStop { trx: frame.trx }) ==> !wanted(
            endpoint_id,
            frame,
            active_after(active, cmd),
        ),
        cmd != (protocol::CommandView::IqStart { trx: frame.trx }) && cmd != (
        protocol::CommandView::IqStop { trx: frame.trx }) ==> wanted(
            endpoint_id,
            frame,
            active_after(active, cmd),
        ) == wanted(endpoint_id, frame, active),
        active_after(active, cmd).len() == active.len(),
{
}

/// Setting a VFO sets its frequency, with VFO A the centre frequency too, and nothing else of any
/// receiver.
pub proof fn law_vfo_sets_one_frequency(
    state: state::StateView,
    max_trx: nat,
    trx: u32,
    vfo: u32,
    freq_hz: u64,
    i: int,
)
    requires
        trx < max_trx,
        trx < state.trx.len(),
        state.trx[trx as int].vfo.len() == 2,
        vfo < 2,
    ensures
        ({
            let after = state_after(state, max_trx, protocol::CommandView::Vfo { trx, vfo, freq_hz });
            let t = after.trx[trx as int];
            let o = state.trx[trx as int];
            &&& after.iq_samplerate == state.iq_samplerate
            &&& after.trx.len() == state.trx.len()
            &&& 0 <= i < state.trx.len() && i != trx ==> after.trx[i] == state.trx[i]
            &&& t.vfo.len() == 2
            &&& t.vfo[vfo as int] == (state::VfoState { freq_hz, ..o.vfo[vfo as int] })
            &&& t.vfo[1 - vfo] == o.vfo[1 - vfo]
            &&& t.dds_freq_hz == (if vfo == 0 {
                freq_hz
            } else {
                o.dds_freq_hz
            })
            &&& t.modulation == o.modulation
            &&& t.filter_low == o.filter_low && t.filter_high == o.filter_high
        }),
{
}

/// Setting the centre frequency sets it, and nothing else of any receiver: the VFOs stay where they
/// are.
pub proof fn law_dds_sets_the_centre_alone(
    state: state::StateView,
    max_trx: nat,
    trx: u32,
    freq_hz: u64,
    i: int,
)
    requires
        trx < max_trx,
        trx < state.trx.len(),
        state.trx[trx as int].vfo.len() == 2,
    ensures
        ({
            let after = state_after(state, max_trx, protocol::CommandView::Dds { trx, freq_hz });
            let t = after.trx[trx as int];
            let o = state.trx[trx as int];
            &&& after.iq_samplerate == state.iq_samplerate
            &&& after.trx.len() == state.trx.len()
            &&& 0 <= i < state.trx.len() && i != trx ==> after.trx[i] == state.trx[i]
            &&& t.vfo.len() == 2
            &&& t.dds_freq_hz == freq_hz
            &&& t.vfo[0] == o.vfo[0] && t.vfo[1] == o.vfo[1]
            &&& t.modulation == o.modulation
            &&& t.filter_low == o.filter_low && t.filter_high == o.filter_high
        }),
{
}

/// Setting an offset sets that of the VFO, and nothing else of any receiver.
pub proof fn law_if_sets_one_offset(
    state: state::StateView,
    max_trx: nat,
    trx: u32,
    vfo: u32,
    offset_hz: i64,
    i: int,
)
    requires
        trx < max_trx,
        trx < state.trx.len(),
        state.trx[trx as int].vfo.len() == 2,
        vfo < 2,
    ensures
        ({
            let after = state_after(state, max_trx, protocol::CommandView::If { trx, vfo, offset_hz });
            let t = after.trx[trx as int];
            let o = state.trx[trx as int];
            &&& after.iq_samplerate == state.iq_samplerate
            &&& after.trx.len() == state.trx.len()
            &&& 0 <= i < state.trx.len() && i != trx ==> after.trx[i] == state.trx[i]
            &&& t.vfo.len() == 2
            &&& t.vfo[vfo as int] == (state::VfoState {
                if_offset_hz: offset_hz,
                ..o.vfo[vfo as int]
            })
            &&& t.vfo[1 - vfo] == o.vfo[1 - vfo]
            &&& t.dds_freq_hz == o.dds_freq_hz
            &&& t.modulation == o.modulation
            &&& t.filter_low == o.filter_low && t.filter_high == o.filter_high
        }),
{
}

/// Setting the modulation sets it, and nothing else of any receiver.
pub proof fn law_modulation_sets_it_alone(
    state: state::StateView,
    max_trx: nat,
    trx: u32,
    mode: Seq<char>,
    i: int,
)
    requires
        trx < max_trx,
        trx < state.trx.len(),
        state.trx[trx as int].vfo.len() == 2,
    ensures
        ({
            let after = state_after(state, max_trx, protocol::CommandView::Modulation { trx, mode });
            let t = after.trx[trx as int];
            let o = state.trx[trx as int];
            &&& after.iq_samplerate == state.iq_samplerate
            &&& after.trx.len() == state.trx.len()
            &&& 0 <= i < state.trx.len() && i != trx ==> after.trx[i] == state.trx[i]
            &&& t.vfo.len() == 2
            &&& t.modulation == mode
            &&& t.vfo[0] == o.vfo[0] && t.vfo[1] == o.vfo[1]
            &&& t.dds_freq_hz == o.dds_freq_hz
            &&& t.filter_low == o.filter_low && t.filter_high == o.filter_high
        }),
{
}

/// Switching a channel switches that VFO, and changes nothing else of any receiver.
pub proof fn law_channel_switches_one_vfo(
    state: state::StateView,
    max_trx: nat,
    trx: u32,
    channel: u32,
    enable: bool,
    i: int,
)
    requires
        trx < max_trx,
        trx < state.trx.len(),
        state.trx[trx as int].vfo.len() == 2,
        channel < 2,
    ensures
        ({
            let after = state_after(state, max_trx, protocol::CommandView::RxChannelEnable { trx, channel, enable });
            let t = after.trx[trx as int];
            let o = state.trx[trx as int];
            &&& after.iq_samplerate == state.iq_samplerate
            &&& after.trx.len() == state.trx.len()
            &&& 0 <= i < state.trx.len() && i != trx ==> after.trx[i] == state.trx[i]
            &&& t.vfo.len() == 2
            &&& t.vfo[channel as int] == (state::VfoState {
                enabled: enable,
                ..o.vfo[channel as int]
            })
            &&& t.vfo[1 - channel] == o.vfo[1 - channel]
            &&& t.dds_freq_hz == o.dds_freq_hz
            &&& t.modulation == o.modulation
            &&& t.filter_low == o.filter_low && t.filter_high == o.filter_high
        }),
{
}

/// Setting the filter sets its low and its high edge, and nothing else of any receiver.
pub proof fn law_filter_sets_its_edges_alone(
    state: state::StateView,
    max_trx: nat,
    trx: u32,
    low: i32,
    high: i32,
    i: int,
)
    requires
        trx < max_trx,
        trx < state.trx.len(),
        state.trx[trx as int].vfo.len() == 2,
    ensures
        ({
            let after = state_after(state, max_trx, protocol::CommandView::RxFilterBand { trx, low, high });
            let t = after.trx[trx as int];
            let o = state.trx[trx as int];
            &&& after.iq_samplerate == state.iq_samplerate
            &&& after.trx.len() == state.trx.len()
            &&& 0 <= i < state.trx.len() && i != trx ==> after.trx[i] == state.trx[i]
            &&& t.vfo.len() == 2
            &&& t.filter_low == low && t.filter_high == high
            &&& t.vfo[0] == o.vfo[0] && t.vfo[1] == o.vfo[1]
            &&& t.dds_freq_hz == o.dds_freq_hz
            &&& t.modulation == o.modulation
        }),
{
}

/// Setting the sample rate sets it and no receiver.
pub proof fn law_rate_sets_it_alone(state: state::StateView, max_trx: nat, rate: u32)
    ensures
        ({
            let after = state_after(state, max_trx, protocol::CommandView::IqSamplerate { rate });
            after.iq_samplerate == rate && after.trx == state.trx
        }),
{
}

/// Every other command leaves the state as it is, and so do commands for a receiver or a VFO that
/// there is not.
pub proof fn law_other_commands_change_nothing(
    state: state::StateView,
    max_trx: nat,
    cmd: protocol::CommandView,
)
    requires
        cmd matches protocol::CommandView::Vfo { trx, vfo, .. } ==> trx >= max_trx || vfo >= 2,
        cmd matches protocol::CommandView::Dds { trx, .. } ==> trx >= max_trx,
        cmd matches protocol::CommandView::If { trx, vfo, .. } ==> trx >= max_trx || vfo >= 2,
        cmd matches protocol::CommandView::Modulation { trx, .. } ==> trx >= max_trx,
        cmd matches protocol::CommandView::RxChannelEnable { trx, channel, .. } ==> trx >= max_trx
            || channel >= 2,
        cmd matches protocol::CommandView::RxFilterBand { trx, .. } ==> trx >= max_trx,
        !(cmd is IqSamplerate),
    ensures
        state_after(state, max_trx, cmd) == state,
{
}

/// Which commands are not answered: those for a receiver or a VFO that there is not, and those that
/// neither set nor ask for anything of a receiver, start or stop the device or set the sample rate.
pub proof fn law_unanswered_commands(
    state: state::StateView,
    max_trx: nat,
    cmd: protocol::CommandView,
)
    requires
        cmd matches protocol::CommandView::Vfo { trx, vfo, .. } ==> trx >= max_trx || vfo >= 2,
        cmd matches protocol::CommandView::VfoRead { trx, vfo } ==> trx >= max_trx || vfo >= 2,
        cmd matches protocol::CommandView::Dds { trx, .. } ==> trx >= max_trx,
        cmd matches protocol::CommandView::DdsRead { trx } ==> trx >= max_trx,
        cmd matches protocol::CommandView::If { trx, vfo, .. } ==> trx >= max_trx || vfo >= 2,
        cmd matches protocol::CommandView::IfRead { trx, vfo } ==> trx >= max_trx || vfo >= 2,
        cmd matches protocol::CommandView::Modulation { trx, .. } ==> trx >= max_trx,
        cmd matches protocol::CommandView::ModulationRead { trx } ==> trx >= max_trx,
        cmd matches protocol::CommandView::RxChannelEnable { trx, channel, .. } ==> trx >= max_trx
            || channel >= 2,
        cmd matches protocol::CommandView::RxChannelEnableRead { trx, channel } ==> trx >= max_trx
            || channel >= 2,
        cmd matches protocol::CommandView::RxFilterBand { trx, .. } ==> trx >= max_trx,
        cmd matches protocol::CommandView::RxFilterBandRead { trx } ==> trx >= max_trx,
        !(cmd is IqSamplerate) && !(cmd is Start) && !(cmd is Stop),
    ensures
        replies_to(state, max_trx, cmd).len() == 0,
{
}

/// A command needs its receiver only where receiver and VFO are in range, and then no more than that
/// it is there.
pub proof fn law_receiver_that_a_command_needs(
    trx_len: nat,
    max_trx: nat,
    trx: u32,
    vfo: u32,
    freq_hz: u64,
    cmd: protocol::CommandView,
)
    ensures
        trx_len >= max_trx ==> has_receiver(trx_len, max_trx, cmd),
        trx < trx_len || trx >= max_trx || vfo >= 2 ==> has_receiver(
            trx_len,
            max_trx,
            (protocol::CommandView::Vfo { trx, vfo, freq_hz }),
        ) && has_receiver(trx_len, max_trx, (protocol::CommandView::VfoRead { trx, vfo })),
        trx < trx_len || trx >= max_trx ==> has_receiver(
            trx_len,
            max_trx,
            (protocol::CommandView::Dds { trx, freq_hz }),
        ),
        cmd is IqSamplerate || cmd is IqStart || cmd is IqStop || cmd is Start || cmd is Stop
            ==> has_receiver(trx_len, max_trx, cmd),
{
}

/// What is asked of the bridge: for VFO A of a receiver that there is, to tune that receiver to that
/// frequency; for the sample rate, to set that rate; else nothing.
pub proof fn law_what_is_asked_of_the_bridge(
    max_trx: nat,
    cmd: protocol::CommandView,
    trx: u32,
    vfo: u32,
    freq_hz: u64,
    rate: u32,
)
    requires
        max_trx <= 255,
    ensures
        cmd == (protocol::CommandView::Vfo { trx, vfo, freq_hz }) ==> (if trx < max_trx && vfo == 0 {
            asked_of_bridge(max_trx, cmd) matches Some(BridgeCmd::Tune { trx: t, vfo: v, freq_hz: f })
                && t == trx && v == 0 && f == freq_hz
        } else {
            asked_of_bridge(max_trx, cmd) is None
        }),
        cmd == (protocol::CommandView::IqSamplerate { rate }) ==> asked_of_bridge(max_trx, cmd)
            == Some((BridgeCmd::SetSr { samprate: rate })),
        !(cmd is Vfo) && !(cmd is IqSamplerate) ==> asked_of_bridge(max_trx, cmd) is None,
{
}

/// Starting a stream switches on that of the receiver, stopping switches it off, and no other stream
/// and no other command changes anything. A client gets the frames of its endpoint whose stream is
/// on, and no others.
pub proof fn law_streams_of_a_client(
    endpoint_id: u8,
    frame: &IqFrame,
    active: Seq<bool>,
    cmd: protocol::CommandView,
    i: int,
)
    ensures
        active_after(active, cmd).len() == active.len(),
        0 <= i < active.len() ==> active_after(active, cmd)[i] == (if cmd
            == (protocol::CommandView::IqStart { trx: i as u32 }) && i <= u32::MAX {
            true
        } else if cmd == (protocol::CommandView::IqStop { trx: i as u32 }) && i <= u32::MAX {
            false
        } else {
            active[i]
        }),
        wanted(endpoint_id, frame, active) <==> frame.endpoint == endpoint_id && frame.trx
            < active.len() && active[frame.trx as int],
{
}

/// The lines of a text: each piece between line ends, without the white space around it, unless
/// nothing is left of it.
pub proof fn law_lines_of_a_text(line: Seq<char>, rest: Seq<char>)
    requires
        !line.contains('\n'),
    ensures
        lines_of(line) == (if text::trimmed(line).len() == 0 {
            Seq::empty()
        } else {
            seq![text::trimmed(line)]
        }),
        lines_of(line + seq!['\n'] + rest) == lines_of(line) + lines_of(rest),
{
    text::law_separators_part_pieces(line, rest, '\n');
    let one = seq![line];
    assert(one.drop_last() =~= Seq::<Seq<char>>::empty());
    assert(nonempty_trimmed(one.drop_last()) =~= Seq::<Seq<char>>::empty());
    assert(nonempty_trimmed(one) =~= (if text::trimmed(line).len() == 0 {
        Seq::empty()
    } else {
        seq![text::trimmed(line)]
    }));
    lemma_nonempty_trimmed_of_two(one, text::split_at_each(rest, '\n'));
}

proof fn lemma_nonempty_trimmed_of_two(a: Seq<Seq<char>>, b: Seq<Seq<char>>)
    ensures
        nonempty_trimmed(a + b) == nonempty_trimmed(a) + nonempty_trimmed(b),
    decreases b.len(),
{
    if b.len() == 0 {
        assert(a + b =~= a);
        assert(nonempty_trimmed(a) + nonempty_trimmed(b) =~= nonempty_trimmed(a));
    } else {
        lemma_nonempty_trimmed_of_two(a, b.drop_last());
        assert((a + b).drop_last() =~= a + b.drop_last());
        assert((a + b).last() == b.last());
        assert(nonempty_trimmed(a + b) =~= nonempty_trimmed(a) + nonempty_trimmed(b));
    }
}

/// The handshake of a server tells what the server is configured for, and the sample rate.
pub proof fn law_handshake_tells_the_configuration(config: &ServerConfig, iq_samplerate: u32)
    ensures
        ({
            let h = handshake_of(config, iq_samplerate);
            &&& h.len() == 10
            &&& h[1] == protocol::message("device"@, seq![config.device_name@])
            &&& h[3] == protocol::message(
                "trx_count"@,
                seq![decimal::numeral(config.trx_count as nat)],
            )
            &&& h[4] == protocol::message(
                "channels_count"@,
                seq![decimal::numeral(config.channel_count as nat)],
            )
            &&& h[5] == protocol::message(
                "vfo_limits"@,
                seq![
                    decimal::numeral(config.vfo_min_hz as nat),
                    decimal::numeral(config.vfo_max_hz as nat),
                ],
            )
            &&& h[6] == protocol::message(
                "if_limits"@,
                seq![
                    decimal::signed_numeral(config.if_min_hz as int),
                    decimal::signed_numeral(config.if_max_hz as int),
                ],
            )
            &&& h[7] == protocol::message(
                "modulations_list"@,
                config.modulations@.map_values(|s: String| s@),
            )
            &&& h[8] == protocol::message(
                "iq_samplerate"@,
                seq![decimal::numeral(iq_samplerate as nat)],
            )
        }),
{
    protocol::law_lines_of_the_handshake(
        config.device_name@,
        config.trx_count as nat,
        config.channel_count as nat,
        (config.vfo_min_hz as nat, config.vfo_max_hz as nat),
        (config.if_min_hz as int, config.if_max_hz as int),
        iq_samplerate as nat,
        text::string_views(config.modulations@),
    );
}

/// The modulations that a server offers.
pub proof fn law_offered_modulations()
    ensures
        default_modulations().len() == 9,
        default_modulations()[0] == "AM"@,
        default_modulations()[1] == "SAM"@,
        default_modulations()[2] == "DSB"@,
        default_modulations()[3] == "LSB"@,
        default_modulations()[4] == "USB"@,
        default_modulations()[5] == "CW"@,
        default_modulations()[6] == "NFM"@,
        default_modulations()[7] == "DIGL"@,
        default_modulations()[8] == "DIGU"@,
{
}

} // verus!
