//! What the replies of a server mean to a reader of the same protocol, and what commands of clients
//! come to at radiod.

use vstd::prelude::*;

use crate::bridge;
use crate::channels;
use crate::decimal;
use crate::ieee;
use crate::radiod::tlv;
use crate::radiod::tlv::StatusType;
use crate::tci::protocol;
use crate::tci::server;
use crate::tci::state;
use crate::text;

verus! {

/// The numeral of a number holds digits only: it is not changed by trimming and holds no comma.
proof fn lemma_numeral_arg(n: nat)
    ensures
        text::trimmed(decimal::numeral(n)) == decimal::numeral(n),
        !decimal::numeral(n).contains(','),
{
    let s = decimal::numeral(n);
    decimal::lemma_numeral(n);
    assert(decimal::is_digit(s[0]));
    assert(decimal::is_digit(s[s.len() - 1]));
    text::lemma_trimmed_unchanged(s);
    assert forall|i: int| 0 <= i < s.len() implies s[i] != ',' by {
        assert(decimal::is_digit(s[i]));
    }
}

/// The same, for the numeral of a number that may be negative.
proof fn lemma_signed_numeral_arg(i: int)
    ensures
        text::trimmed(decimal::signed_numeral(i)) == decimal::signed_numeral(i),
        !decimal::signed_numeral(i).contains(','),
{
    let s = decimal::signed_numeral(i);
    if i < 0 {
        let d = decimal::numeral((-i) as nat);
        decimal::lemma_numeral((-i) as nat);
        assert(decimal::is_digit(d[d.len() - 1]));
        assert(s.last() == d.last());
        text::lemma_trimmed_unchanged(s);
        assert forall|j: int| 0 <= j < s.len() implies s[j] != ',' by {
            if j > 0 {
                assert(s[j] == d[j - 1]);
                assert(decimal::is_digit(d[j - 1]));
            }
        }
    } else {
        lemma_numeral_arg(i as nat);
    }
}

/// Numerals are read back as numbers.
proof fn lemma_number_args(a: u32, b: u64, c: i32, d: i64)
    ensures
        protocol::u32_arg(decimal::numeral(a as nat)) == Ok::<u32, protocol::ErrorView>(a),
        protocol::u64_arg(decimal::numeral(b as nat)) == Ok::<u64, protocol::ErrorView>(b),
        protocol::i32_arg(decimal::signed_numeral(c as int)) == Ok::<i32, protocol::ErrorView>(c),
        protocol::i64_arg(decimal::signed_numeral(d as int)) == Ok::<i64, protocol::ErrorView>(d),
{
    lemma_numeral_arg(a as nat);
    lemma_numeral_arg(b as nat);
    lemma_signed_numeral_arg(c as int);
    lemma_signed_numeral_arg(d as int);
    decimal::law_unsigned_round_trip(a as nat, u32::MAX as nat);
    decimal::law_unsigned_round_trip(b as nat, u64::MAX as nat);
    decimal::law_signed_round_trip(c as int, i32::MIN as int, i32::MAX as int);
    decimal::law_signed_round_trip(d as int, i64::MIN as int, i64::MAX as int);
}

/// Truth values are read back.
proof fn lemma_bool_arg(b: bool)
    ensures
        protocol::bool_arg(state::bool_text(b)) == Ok::<bool, protocol::ErrorView>(b),
        !state::bool_text(b).contains(','),
{
    reveal_strlit("true");
    reveal_strlit("false");
    reveal_strlit("1");
    reveal_strlit("0");
    let s = state::bool_text(b);
    text::lemma_trimmed_unchanged(s);
    assert(text::lowered(s) =~= s);
    assert("false"@.len() != "true"@.len());
    assert("false"@.len() != "1"@.len());
}

/// What the names that replies use are in upper case.
proof fn lemma_names()
    ensures
        text::uppered("vfo"@) == "VFO"@,
        text::uppered("dds"@) == "DDS"@,
        text::uppered("if"@) == "IF"@,
        text::uppered("modulation"@) == "MODULATION"@,
        text::uppered("rx_channel_enable"@) == "RX_CHANNEL_ENABLE"@,
        text::uppered("rx_filter_band"@) == "RX_FILTER_BAND"@,
        text::uppered("iq_samplerate"@) == "IQ_SAMPLERATE"@,
        text::uppered("start"@) == "START"@,
        text::uppered("stop"@) == "STOP"@,
{
    reveal_strlit("vfo");
    reveal_strlit("VFO");
    reveal_strlit("dds");
    reveal_strlit("DDS");
    reveal_strlit("if");
    reveal_strlit("IF");
    reveal_strlit("modulation");
    reveal_strlit("MODULATION");
    reveal_strlit("rx_channel_enable");
    reveal_strlit("RX_CHANNEL_ENABLE");
    reveal_strlit("rx_filter_band");
    reveal_strlit("RX_FILTER_BAND");
    reveal_strlit("iq_samplerate");
    reveal_strlit("IQ_SAMPLERATE");
    reveal_strlit("start");
    reveal_strlit("START");
    reveal_strlit("stop");
    reveal_strlit("STOP");
    assert(text::uppered("vfo"@) =~= "VFO"@);
    assert(text::uppered("dds"@) =~= "DDS"@);
    assert(text::uppered("if"@) =~= "IF"@);
    assert(text::uppered("modulation"@) =~= "MODULATION"@);
    assert(text::uppered("rx_channel_enable"@) =~= "RX_CHANNEL_ENABLE"@);
    assert(text::uppered("rx_filter_band"@) =~= "RX_FILTER_BAND"@);
    assert(text::uppered("iq_samplerate"@) =~= "IQ_SAMPLERATE"@);
    assert(text::uppered("start"@) =~= "START"@);
    assert(text::uppered("stop"@) =~= "STOP"@);
}

/// The names that replies use hold no colon and do not start with white space.
proof fn lemma_names_are_plain()
    ensures
        plain("vfo"@),
        plain("dds"@),
        plain("if"@),
        plain("modulation"@),
        plain("rx_channel_enable"@),
        plain("rx_filter_band"@),
        plain("iq_samplerate"@),
        plain("start"@),
        plain("stop"@),
{
    reveal_strlit("vfo");
    reveal_strlit("dds");
    reveal_strlit("if");
    reveal_strlit("modulation");
    reveal_strlit("rx_channel_enable");
    reveal_strlit("rx_filter_band");
    reveal_strlit("iq_samplerate");
    reveal_strlit("start");
    reveal_strlit("stop");
}

/// Whether a name holds no colon and does not start with white space.
spec fn plain(name: Seq<char>) -> bool {
    !name.contains(':') && (name.len() > 0 ==> !text::white_space(name[0]))
}

/// The names of commands differ from those of the commands with a number as their sole argument,
/// and from one another.
proof fn lemma_names_differ()
    ensures
        protocol::number_maker("VFO"@) is None,
        protocol::number_maker("DDS"@) is None,
        protocol::number_maker("IF"@) is None,
        protocol::number_maker("MODULATION"@) is None,
        protocol::number_maker("RX_CHANNEL_ENABLE"@) is None,
        protocol::number_maker("RX_FILTER_BAND"@) is None,
        protocol::number_maker("START"@) is None,
        protocol::number_maker("STOP"@) is None,
        "DDS"@ != "VFO"@,
        "IF"@ != "VFO"@,
        "IF"@ != "DDS"@,
        "MODULATION"@.len() > 3,
        "RX_CHANNEL_ENABLE"@.len() > "MODULATION"@.len(),
        "RX_CHANNEL_ENABLE"@.len() > "RX_FILTER_BAND"@.len() > "MODULATION"@.len(),
        "VFO"@.len() == 3,
        "DDS"@.len() == 3,
        "IF"@.len() == 2,
{
    reveal_strlit("VFO");
    reveal_strlit("DDS");
    reveal_strlit("IF");
    reveal_strlit("MODULATION");
    reveal_strlit("RX_CHANNEL_ENABLE");
    reveal_strlit("RX_FILTER_BAND");
    reveal_strlit("START");
    reveal_strlit("STOP");
    assert("DDS"@[0] != "VFO"@[0]);
    lemma_not_numeric("VFO"@);
    lemma_not_numeric("DDS"@);
    lemma_not_numeric("IF"@);
    lemma_not_numeric("MODULATION"@);
    lemma_not_numeric("RX_CHANNEL_ENABLE"@);
    lemma_not_numeric("RX_FILTER_BAND"@);
    lemma_not_numeric("START"@);
    lemma_not_numeric("STOP"@);
}

/// A name that starts neither with `A` nor with `I`, or is shorter than seven characters, is not
/// that of a command with a number as its sole argument.
proof fn lemma_not_numeric(name: Seq<char>)
    requires
        name.len() > 0,
        name.len() < 7 || (name[0] != 'A' && name[0] != 'I'),
    ensures
        protocol::number_maker(name) is None,
{
    reveal_strlit("IQ_SAMPLERATE");
    reveal_strlit("IQ_START");
    reveal_strlit("IQ_STOP");
    reveal_strlit("AUDIO_SAMPLERATE");
    reveal_strlit("AUDIO_START");
    reveal_strlit("AUDIO_STOP");
    reveal_strlit("AUDIO_STREAM_CHANNELS");
    reveal_strlit("AUDIO_STREAM_SAMPLES");
    assert("IQ_SAMPLERATE"@[0] == 'I' && "IQ_SAMPLERATE"@.len() >= 7);
    assert("IQ_START"@[0] == 'I' && "IQ_START"@.len() >= 7);
    assert("IQ_STOP"@[0] == 'I' && "IQ_STOP"@.len() >= 7);
    assert("AUDIO_SAMPLERATE"@[0] == 'A' && "AUDIO_SAMPLERATE"@.len() >= 7);
    assert("AUDIO_START"@[0] == 'A' && "AUDIO_START"@.len() >= 7);
    assert("AUDIO_STOP"@[0] == 'A' && "AUDIO_STOP"@.len() >= 7);
    assert("AUDIO_STREAM_CHANNELS"@[0] == 'A' && "AUDIO_STREAM_CHANNELS"@.len() >= 7);
    assert("AUDIO_STREAM_SAMPLES"@[0] == 'A' && "AUDIO_STREAM_SAMPLES"@.len() >= 7);
}

/// A message with a plain name and arguments without commas is read as its command.
proof fn lemma_reply(name: Seq<char>, args: Seq<Seq<char>>)
    requires
        plain(name),
        forall|i: int| 0 <= i < args.len() ==> !(#[trigger] args[i]).contains(','),
    ensures
        protocol::parsed(protocol::message(name, args)) == protocol::command_of(
            text::uppered(name),
            args,
        ),
{
    assert forall|i: int, j: int| 0 <= i < args.len() && 0 <= j < args[i].len() implies
        #[trigger] args[i][j] != ',' by {
        assert(!args[i].contains(','));
        assert(args[i].contains(args[i][j]));
    }
    protocol::law_parse_undoes_format(name, args);
}

/// What a server tells of a VFO is the command that sets it.
pub proof fn law_vfo_line_sets_it(trx: u32, vfo: u32, freq_hz: u64)
    ensures
        protocol::parsed(server::vfo_line(trx, vfo, freq_hz)) == Ok::<
            protocol::CommandView,
            protocol::ErrorView,
        >(protocol::CommandView::Vfo { trx, vfo, freq_hz }),
{
    lemma_names();
    lemma_names_are_plain();
    lemma_names_differ();
    lemma_numeral_arg(trx as nat);
    lemma_numeral_arg(vfo as nat);
    lemma_numeral_arg(freq_hz as nat);
    lemma_number_args(trx, freq_hz, 0, 0);
    lemma_number_args(vfo, freq_hz, 0, 0);
    lemma_reply(
        "vfo"@,
        seq![
            decimal::numeral(trx as nat),
            decimal::numeral(vfo as nat),
            decimal::numeral(freq_hz as nat),
        ],
    );
}

/// What a server tells of a centre frequency is the command that sets it.
pub proof fn law_dds_line_sets_it(trx: u32, freq_hz: u64)
    ensures
        protocol::parsed(server::dds_line(trx, freq_hz)) == Ok::<
            protocol::CommandView,
            protocol::ErrorView,
        >(protocol::CommandView::Dds { trx, freq_hz }),
{
    lemma_names();
    lemma_names_are_plain();
    lemma_names_differ();
    lemma_numeral_arg(trx as nat);
    lemma_numeral_arg(freq_hz as nat);
    lemma_number_args(trx, freq_hz, 0, 0);
    lemma_reply(
        "dds"@,
        seq![decimal::numeral(trx as nat), decimal::numeral(freq_hz as nat)],
    );
}

/// What a server tells of an offset is the command that sets it.
pub proof fn law_if_line_sets_it(trx: u32, vfo: u32, offset_hz: i64)
    ensures
        protocol::parsed(server::if_line(trx, vfo, offset_hz)) == Ok::<
            protocol::CommandView,
            protocol::ErrorView,
        >(protocol::CommandView::If { trx, vfo, offset_hz }),
{
    lemma_names();
    lemma_names_are_plain();
    lemma_names_differ();
    lemma_numeral_arg(trx as nat);
    lemma_numeral_arg(vfo as nat);
    lemma_signed_numeral_arg(offset_hz as int);
    lemma_number_args(trx, 0, 0, offset_hz);
    lemma_number_args(vfo, 0, 0, offset_hz);
    lemma_reply(
        "if"@,
        seq![
            decimal::numeral(trx as nat),
            decimal::numeral(vfo as nat),
            decimal::signed_numeral(offset_hz as int),
        ],
    );
}

/// What a server tells of a modulation without commas is the command that sets it.
pub proof fn law_modulation_line_sets_it(trx: u32, mode: Seq<char>)
    requires
        !mode.contains(','),
    ensures
        protocol::parsed(server::modulation_line(trx, mode)) == Ok::<
            protocol::CommandView,
            protocol::ErrorView,
        >(protocol::CommandView::Modulation { trx, mode }),
{
    lemma_names();
    lemma_names_are_plain();
    lemma_names_differ();
    lemma_numeral_arg(trx as nat);
    lemma_number_args(trx, 0, 0, 0);
    lemma_reply("modulation"@, seq![decimal::numeral(trx as nat), mode]);
}

/// What a server tells of a channel is the command that switches it.
pub proof fn law_channel_line_sets_it(trx: u32, channel: u32, enable: bool)
    ensures
        protocol::parsed(server::channel_line(trx, channel, enable)) == Ok::<
            protocol::CommandView,
            protocol::ErrorView,
        >(protocol::CommandView::RxChannelEnable { trx, channel, enable }),
{
    lemma_names();
    lemma_names_are_plain();
    lemma_names_differ();
    lemma_numeral_arg(trx as nat);
    lemma_numeral_arg(channel as nat);
    lemma_number_args(trx, 0, 0, 0);
    lemma_number_args(channel, 0, 0, 0);
    lemma_bool_arg(enable);
    lemma_reply(
        "rx_channel_enable"@,
        seq![
            decimal::numeral(trx as nat),
            decimal::numeral(channel as nat),
            state::bool_text(enable),
        ],
    );
}

/// What a server tells of a filter is the command that sets it.
pub proof fn law_filter_line_sets_it(trx: u32, low: i32, high: i32)
    ensures
        protocol::parsed(server::filter_line(trx, low, high)) == Ok::<
            protocol::CommandView,
            protocol::ErrorView,
        >(protocol::CommandView::RxFilterBand { trx, low, high }),
{
    lemma_names();
    lemma_names_are_plain();
    lemma_names_differ();
    lemma_numeral_arg(trx as nat);
    lemma_signed_numeral_arg(low as int);
    lemma_signed_numeral_arg(high as int);
    lemma_number_args(trx, 0, low, 0);
    lemma_number_args(trx, 0, high, 0);
    lemma_reply(
        "rx_filter_band"@,
        seq![
            decimal::numeral(trx as nat),
            decimal::signed_numeral(low as int),
            decimal::signed_numeral(high as int),
        ],
    );
}

/// What a server tells of the sample rate is the command that sets it.
pub proof fn law_rate_line_sets_it(rate: u32)
    ensures
        protocol::parsed(server::rate_line(rate)) == Ok::<
            protocol::CommandView,
            protocol::ErrorView,
        >(protocol::CommandView::IqSamplerate { rate }),
{
    lemma_names();
    lemma_names_are_plain();
    lemma_numeral_arg(rate as nat);
    lemma_number_args(rate, 0, 0, 0);
    lemma_reply("iq_samplerate"@, seq![decimal::numeral(rate as nat)]);
}

/// The messages that the device runs or stops are the commands for it.
proof fn lemma_start_and_stop_lines()
    ensures
        protocol::parsed(protocol::message("start"@, Seq::empty())) == Ok::<
            protocol::CommandView,
            protocol::ErrorView,
        >(protocol::CommandView::Start),
        protocol::parsed(protocol::message("stop"@, Seq::empty())) == Ok::<
            protocol::CommandView,
            protocol::ErrorView,
        >(protocol::CommandView::Stop),
{
    lemma_names();
    lemma_names_are_plain();
    lemma_names_differ();
    reveal_strlit("START");
    reveal_strlit("STOP");
    reveal_strlit("AUDIO_STREAM_SAMPLE_TYPE");
    reveal_strlit("SPOT_DELETE");
    reveal_strlit("SPOT_CLEAR");
    reveal_strlit("CW_MACROS_STOP");
    assert("START"@.len() == 5 && "STOP"@.len() == 4);
    assert("AUDIO_STREAM_SAMPLE_TYPE"@.len() > 5 && "SPOT_DELETE"@.len() > 5);
    assert("SPOT_CLEAR"@.len() > 5 && "CW_MACROS_STOP"@.len() > 5);
    lemma_reply("start"@, Seq::empty());
    lemma_reply("stop"@, Seq::empty());
}

/// A command is confirmed by the command itself: whatever is answered to a command that sets a
/// value, starts or stops reads as that command. Only a modulation with a comma, which no message
/// can hold, is left out.
pub proof fn law_confirmation_is_the_command(
    state: state::StateView,
    max_trx: nat,
    cmd: protocol::CommandView,
)
    requires
        server::read_of(cmd) is Some || cmd is IqSamplerate || cmd is Start || cmd is Stop,
        cmd matches protocol::CommandView::Modulation { mode, .. } ==> !mode.contains(','),
    ensures
        ({
            let replies = server::replies_to(state, max_trx, cmd);
            &&& replies.len() <= 1
            &&& replies.len() == 1 ==> protocol::parsed(replies[0]) == Ok::<
                protocol::CommandView,
                protocol::ErrorView,
            >(cmd)
        }),
{
    match cmd {
        protocol::CommandView::Vfo { trx, vfo, freq_hz } => law_vfo_line_sets_it(trx, vfo, freq_hz),
        protocol::CommandView::Dds { trx, freq_hz } => law_dds_line_sets_it(trx, freq_hz),
        protocol::CommandView::If { trx, vfo, offset_hz } => law_if_line_sets_it(
            trx,
            vfo,
            offset_hz,
        ),
        protocol::CommandView::Modulation { trx, mode } => law_modulation_line_sets_it(trx, mode),
        protocol::CommandView::RxChannelEnable { trx, channel, enable } => {
            law_channel_line_sets_it(trx, channel, enable)
        },
        protocol::CommandView::RxFilterBand { trx, low, high } => law_filter_line_sets_it(
            trx,
            low,
            high,
        ),
        protocol::CommandView::IqSamplerate { rate } => law_rate_line_sets_it(rate),
        _ => lemma_start_and_stop_lines(),
    }
}

/// Setting VFO A of a receiver that there is reaches radiod: the bridge is asked for one tuning and
/// sends one command, which sets the frequency on the SSRC of that VFO of the receiver's channel.
pub proof fn law_vfo_a_reaches_radiod(
    counts: Seq<u8>,
    endpoint: u8,
    trx: u32,
    freq_hz: u64,
    table: Map<u32, bridge::ChannelInfo>,
    samprate: u32,
    preset_map: Map<u32, Seq<char>>,
    default_preset: Seq<char>,
    request: bridge::BridgeCmd,
    channel: u8,
    plan: (Map<u32, bridge::ChannelInfo>, Seq<Seq<tlv::FieldView>>, Option<u32>),
)
    requires
        endpoint < counts.len(),
        trx < counts[endpoint as int],
        bridge::consistent(table),
        server::asked_of_bridge(
            counts[endpoint as int] as nat,
            protocol::CommandView::Vfo { trx, vfo: 0, freq_hz },
        ) == Some(request),
        channels::channel_of(counts, endpoint, trx as u8) == Some(channel),
        channels::placed(counts, endpoint, request) matches Some(on_channel) && bridge::planned(
            table,
            samprate,
            preset_map,
            default_preset,
            on_channel,
            plan.0,
            plan.1,
            plan.2,
        ),
    ensures
        request == (bridge::BridgeCmd::Tune { trx: trx as u8, vfo: 0, freq_hz }),
        plan.1.len() == 1,
        plan.1[0].first() == (tlv::FieldView {
            tag: StatusType::OUTPUT_SSRC.wire(),
            value: tlv::ValueView::Int(bridge::ssrc_of(channel, 0) as u64),
        }),
        plan.1[0].last() == (tlv::FieldView {
            tag: StatusType::RADIO_FREQUENCY.wire(),
            value: tlv::ValueView::Double(ieee::double_of(freq_hz)),
        }),
        plan.0.contains_key(bridge::ssrc_of(channel, 0)),
{
}

/// Setting the sample rate reaches radiod: the bridge is asked for that rate and gives its preset to
/// each channel that is tuned. In the state that the command leaves, later tunings use the preset of
/// that rate too.
pub proof fn law_rate_reaches_radiod(
    state: state::StateView,
    max_trx: nat,
    rate: u32,
    table: Map<u32, bridge::ChannelInfo>,
    samprate: u32,
    preset_map: Map<u32, Seq<char>>,
    default_preset: Seq<char>,
    request: bridge::BridgeCmd,
    plan: (Map<u32, bridge::ChannelInfo>, Seq<Seq<tlv::FieldView>>, Option<u32>),
    k: u32,
)
    requires
        bridge::consistent(table),
        server::asked_of_bridge(max_trx, protocol::CommandView::IqSamplerate { rate }) == Some(
            request,
        ),
        bridge::planned(
            table,
            samprate,
            preset_map,
            default_preset,
            request,
            plan.0,
            plan.1,
            plan.2,
        ),
        table.contains_key(k),
    ensures
        request == (bridge::BridgeCmd::SetSr { samprate: rate }),
        server::state_after(
            state,
            max_trx,
            protocol::CommandView::IqSamplerate { rate },
        ).iq_samplerate == rate,
        plan.1.contains(
            bridge::tune_fields(
                k,
                Some(bridge::preset_for(preset_map, rate, default_preset)),
                table[k].freq_hz,
            ),
        ) == (table[k].freq_hz != 0),
{
    let preset = bridge::preset_for(preset_map, rate, default_preset);
    let order = choose|order: Seq<u32>| #[trigger]
        bridge::walks(order, table) && plan.1 == bridge::retune_fields(order, table, preset);
    bridge::law_rate_change_retunes_tuned_channels(order, table, preset, k);
}

/// Commands other than setting VFO A or the sample rate, and those for a receiver that there is not,
/// ask nothing of the bridge.
pub proof fn law_other_commands_ask_nothing(max_trx: nat, cmd: protocol::CommandView)
    ensures
        server::asked_of_bridge(max_trx, cmd) is Some <==> (cmd is IqSamplerate || (cmd matches
            protocol::CommandView::Vfo { trx, vfo, .. } && trx < max_trx && vfo == 0)),
{
}

/// The names of the commands, by their lengths and the characters that tell names of one length apart.
proof fn lemma_all_names()
    ensures
        "VFO"@.len() == 3 && "VFO"@[0] == 'V',
        "DDS"@.len() == 3 && "DDS"@[0] == 'D',
        "IF"@.len() == 2 && "IF"@[0] == 'I',
        "MODULATION"@.len() == 10 && "MODULATION"@[0] == 'M',
        "RX_CHANNEL_ENABLE"@.len() == 17 && "RX_CHANNEL_ENABLE"@[0] == 'R',
        "RX_FILTER_BAND"@.len() == 14 && "RX_FILTER_BAND"@[0] == 'R',
        "AUDIO_STREAM_SAMPLE_TYPE"@.len() == 24 && "AUDIO_STREAM_SAMPLE_TYPE"@[0] == 'A',
        "SPOT"@.len() == 4 && "SPOT"@[0] == 'S',
        "SPOT_DELETE"@.len() == 11 && "SPOT_DELETE"@[0] == 'S',
        "SPOT_CLEAR"@.len() == 10 && "SPOT_CLEAR"@[0] == 'S',
        "RX_SENSORS_ENABLE"@.len() == 17 && "RX_SENSORS_ENABLE"@[0] == 'R',
        "CW_MACROS"@.len() == 9 && "CW_MACROS"@[0] == 'C',
        "CW_MACROS_STOP"@.len() == 14 && "CW_MACROS_STOP"@[0] == 'C',
        "START"@.len() == 5 && "START"@[0] == 'S',
        "STOP"@.len() == 4 && "STOP"@[0] == 'S',
        "IQ_SAMPLERATE"@.len() == 13 && "IQ_SAMPLERATE"@[0] == 'I',
        "IQ_START"@.len() == 8 && "IQ_START"@[0] == 'I',
        "IQ_STOP"@.len() == 7 && "IQ_STOP"@[0] == 'I',
        "AUDIO_SAMPLERATE"@.len() == 16 && "AUDIO_SAMPLERATE"@[0] == 'A',
        "AUDIO_START"@.len() == 11 && "AUDIO_START"@[0] == 'A',
        "AUDIO_STOP"@.len() == 10 && "AUDIO_STOP"@[0] == 'A',
        "AUDIO_STREAM_CHANNELS"@.len() == 21 && "AUDIO_STREAM_CHANNELS"@[0] == 'A',
        "AUDIO_STREAM_SAMPLES"@.len() == 20 && "AUDIO_STREAM_SAMPLES"@[0] == 'A',
        "SPOT"@[1] == 'P',
        "STOP"@[1] == 'T',
        "RX_CHANNEL_ENABLE"@[3] == 'C',
        "RX_SENSORS_ENABLE"@[3] == 'S',
{
    reveal_strlit("VFO");
    reveal_strlit("DDS");
    reveal_strlit("IF");
    reveal_strlit("MODULATION");
    reveal_strlit("RX_CHANNEL_ENABLE");
    reveal_strlit("RX_FILTER_BAND");
    reveal_strlit("AUDIO_STREAM_SAMPLE_TYPE");
    reveal_strlit("SPOT");
    reveal_strlit("SPOT_DELETE");
    reveal_strlit("SPOT_CLEAR");
    reveal_strlit("RX_SENSORS_ENABLE");
    reveal_strlit("CW_MACROS");
    reveal_strlit("CW_MACROS_STOP");
    reveal_strlit("START");
    reveal_strlit("STOP");
    reveal_strlit("IQ_SAMPLERATE");
    reveal_strlit("IQ_START");
    reveal_strlit("IQ_STOP");
    reveal_strlit("AUDIO_SAMPLERATE");
    reveal_strlit("AUDIO_START");
    reveal_strlit("AUDIO_STOP");
    reveal_strlit("AUDIO_STREAM_CHANNELS");
    reveal_strlit("AUDIO_STREAM_SAMPLES");
}

/// Whether an argument reads as a number of 32 bits.
pub open spec fn reads32(arg: Seq<char>, v: u32) -> bool {
    decimal::read_unsigned(text::trimmed(arg), 0xFFFF_FFFF) == Some(v as nat)
}

/// Whether an argument reads as a number of 64 bits.
pub open spec fn reads64(arg: Seq<char>, v: u64) -> bool {
    decimal::read_unsigned(text::trimmed(arg), 0xFFFF_FFFF_FFFF_FFFF) == Some(v as nat)
}

/// The commands with one number: the name tells what the number is. What is no number is refused, and
/// so is any other number of arguments.
pub proof fn law_commands_with_one_number(arg: Seq<char>, v: u32, args: Seq<Seq<char>>)
    ensures
        reads32(arg, v) ==> {
            &&& protocol::command_of("IQ_SAMPLERATE"@, seq![arg]) == done(
                protocol::CommandView::IqSamplerate { rate: v },
            )
            &&& protocol::command_of("IQ_START"@, seq![arg]) == done(
                protocol::CommandView::IqStart { trx: v },
            )
            &&& protocol::command_of("IQ_STOP"@, seq![arg]) == done(
                protocol::CommandView::IqStop { trx: v },
            )
            &&& protocol::command_of("AUDIO_SAMPLERATE"@, seq![arg]) == done(
                protocol::CommandView::AudioSamplerate { rate: v },
            )
            &&& protocol::command_of("AUDIO_START"@, seq![arg]) == done(
                protocol::CommandView::AudioStart { trx: v },
            )
            &&& protocol::command_of("AUDIO_STOP"@, seq![arg]) == done(
                protocol::CommandView::AudioStop { trx: v },
            )
            &&& protocol::command_of("AUDIO_STREAM_CHANNELS"@, seq![arg]) == done(
                protocol::CommandView::AudioStreamChannels { channels: v },
            )
            &&& protocol::command_of("AUDIO_STREAM_SAMPLES"@, seq![arg]) == done(
                protocol::CommandView::AudioStreamSamples { count: v },
            )
        },
        (forall|x: u32| !reads32(arg, x)) ==> {
            &&& protocol::command_of("IQ_SAMPLERATE"@, seq![arg]) == refused(arg)
            &&& protocol::command_of("IQ_START"@, seq![arg]) == refused(arg)
            &&& protocol::command_of("IQ_STOP"@, seq![arg]) == refused(arg)
            &&& protocol::command_of("AUDIO_SAMPLERATE"@, seq![arg]) == refused(arg)
            &&& protocol::command_of("AUDIO_START"@, seq![arg]) == refused(arg)
            &&& protocol::command_of("AUDIO_STOP"@, seq![arg]) == refused(arg)
            &&& protocol::command_of("AUDIO_STREAM_CHANNELS"@, seq![arg]) == refused(arg)
            &&& protocol::command_of("AUDIO_STREAM_SAMPLES"@, seq![arg]) == refused(arg)
        },
        args.len() != 1 ==> {
            &&& protocol::command_of("IQ_SAMPLERATE"@, args) == miscounted("IQ_SAMPLERATE"@, 1, args.len())
            &&& protocol::command_of("IQ_START"@, args) == miscounted("IQ_START"@, 1, args.len())
            &&& protocol::command_of("IQ_STOP"@, args) == miscounted("IQ_STOP"@, 1, args.len())
            &&& protocol::command_of("AUDIO_SAMPLERATE"@, args) == miscounted("AUDIO_SAMPLERATE"@, 1, args.len())
            &&& protocol::command_of("AUDIO_START"@, args) == miscounted("AUDIO_START"@, 1, args.len())
            &&& protocol::command_of("AUDIO_STOP"@, args) == miscounted("AUDIO_STOP"@, 1, args.len())
            &&& protocol::command_of("AUDIO_STREAM_CHANNELS"@, args) == miscounted("AUDIO_STREAM_CHANNELS"@, 1, args.len())
            &&& protocol::command_of("AUDIO_STREAM_SAMPLES"@, args) == miscounted("AUDIO_STREAM_SAMPLES"@, 1, args.len())
        },
{
    lemma_all_names();
    lemma_reads(arg);
}

/// A command that is accepted.
pub open spec fn done(cmd: protocol::CommandView) -> Result<
    protocol::CommandView,
    protocol::ErrorView,
> {
    Ok(cmd)
}

/// A command that is refused for an argument.
pub open spec fn refused(arg: Seq<char>) -> Result<protocol::CommandView, protocol::ErrorView> {
    Err(protocol::ErrorView::BadArg(arg))
}

/// A command that is refused for the number of its arguments.
pub open spec fn miscounted(cmd: Seq<char>, expected: nat, got: nat) -> Result<
    protocol::CommandView,
    protocol::ErrorView,
> {
    Err(protocol::ErrorView::BadArgCount { cmd, expected, got })
}

/// An argument that reads as a number is taken for it, and one that does not is refused.
proof fn lemma_reads(arg: Seq<char>)
    ensures
        forall|v: u32| #[trigger]
            reads32(arg, v) ==> protocol::u32_arg(arg) == Ok::<u32, protocol::ErrorView>(v),
        forall|v: u64| #[trigger]
            reads64(arg, v) ==> protocol::u64_arg(arg) == Ok::<u64, protocol::ErrorView>(v),
        (forall|v: u32| !reads32(arg, v)) ==> protocol::u32_arg(arg) == Err::<
            u32,
            protocol::ErrorView,
        >(protocol::ErrorView::BadArg(arg)),
        (forall|v: u64| !reads64(arg, v)) ==> protocol::u64_arg(arg) == Err::<
            u64,
            protocol::ErrorView,
        >(protocol::ErrorView::BadArg(arg)),
{
    protocol::law_number_arguments(arg);
    if let Some(n) = decimal::read_unsigned(text::trimmed(arg), 0xFFFF_FFFF) {
        assert(reads32(arg, n as u32));
    }
    if let Some(n) = decimal::read_unsigned(text::trimmed(arg), 0xFFFF_FFFF_FFFF_FFFF) {
        assert(reads64(arg, n as u64));
    }
}

/// `VFO` with three arguments sets the VFO `b` of the receiver `a` to the frequency `c`; the first
/// argument that is no number is refused.
pub proof fn law_vfo_command(
    a: Seq<char>,
    b: Seq<char>,
    c: Seq<char>,
    trx: u32,
    vfo: u32,
    freq_hz: u64,
)
    ensures
        reads32(a, trx) && reads32(b, vfo) && reads64(c, freq_hz) ==> protocol::command_of("VFO"@, seq![a, b, c]) == done(
            protocol::CommandView::Vfo { trx, vfo, freq_hz },
        ),
        (forall|x: u32| !reads32(a, x)) ==> protocol::command_of("VFO"@, seq![a, b, c])
            == refused(a),
        reads32(a, trx) && (forall|x: u32| !reads32(b, x)) ==> protocol::command_of(
            "VFO"@,
            seq![a, b, c],
        ) == refused(b),
        reads32(a, trx) && reads32(b, vfo) && (forall|x: u64| !reads64(c, x))
            ==> protocol::command_of("VFO"@, seq![a, b, c]) == refused(c),
{
    lemma_all_names();
    lemma_reads(a);
    lemma_reads(b);
    lemma_reads(c);
    protocol::law_number_arguments(a);
    protocol::law_number_arguments(b);
    protocol::law_number_arguments(c);
    protocol::law_truth_arguments(c);
}

/// `IF` with three arguments sets the offset of the VFO `b` of the receiver `a` to `c`.
pub proof fn law_if_command(
    a: Seq<char>,
    b: Seq<char>,
    c: Seq<char>,
    trx: u32,
    vfo: u32,
    offset_hz: i64,
)
    ensures
        reads32(a, trx) && reads32(b, vfo) && decimal::read_signed(
            text::trimmed(c),
            -0x8000_0000_0000_0000,
            0x7FFF_FFFF_FFFF_FFFF,
        ) == Some(offset_hz as int) ==> protocol::command_of("IF"@, seq![a, b, c]) == done(
            protocol::CommandView::If { trx, vfo, offset_hz },
        ),
        (forall|x: u32| !reads32(a, x)) ==> protocol::command_of("IF"@, seq![a, b, c])
            == refused(a),
        reads32(a, trx) && (forall|x: u32| !reads32(b, x)) ==> protocol::command_of(
            "IF"@,
            seq![a, b, c],
        ) == refused(b),
        reads32(a, trx) && reads32(b, vfo) && decimal::read_signed(
            text::trimmed(c),
            -0x8000_0000_0000_0000,
            0x7FFF_FFFF_FFFF_FFFF,
        ) is None ==> protocol::command_of("IF"@, seq![a, b, c]) == refused(c),
{
    lemma_all_names();
    lemma_reads(a);
    lemma_reads(b);
    lemma_reads(c);
    protocol::law_number_arguments(a);
    protocol::law_number_arguments(b);
    protocol::law_number_arguments(c);
    protocol::law_truth_arguments(c);
}

/// `RX_FILTER_BAND` with three arguments sets the filter of the receiver `a` from `b` to `c`.
pub proof fn law_filter_command(
    a: Seq<char>,
    b: Seq<char>,
    c: Seq<char>,
    trx: u32,
    low: i32,
    high: i32,
)
    ensures
        reads32(a, trx) && decimal::read_signed(text::trimmed(b), -0x8000_0000, 0x7FFF_FFFF) == Some(
            low as int,
        ) && decimal::read_signed(text::trimmed(c), -0x8000_0000, 0x7FFF_FFFF) == Some(
            high as int,
        ) ==> protocol::command_of("RX_FILTER_BAND"@, seq![a, b, c]) == done(
            protocol::CommandView::RxFilterBand { trx, low, high },
        ),
        (forall|x: u32| !reads32(a, x)) ==> protocol::command_of("RX_FILTER_BAND"@, seq![a, b, c])
            == refused(a),
        reads32(a, trx) && decimal::read_signed(
            text::trimmed(b),
            -0x8000_0000,
            0x7FFF_FFFF,
        ) is None ==> protocol::command_of("RX_FILTER_BAND"@, seq![a, b, c]) == refused(b),
        reads32(a, trx) && decimal::read_signed(text::trimmed(b), -0x8000_0000, 0x7FFF_FFFF) == Some(
            low as int,
        ) && decimal::read_signed(text::trimmed(c), -0x8000_0000, 0x7FFF_FFFF) is None
            ==> protocol::command_of("RX_FILTER_BAND"@, seq![a, b, c]) == refused(c),
{
    lemma_all_names();
    lemma_reads(a);
    lemma_reads(b);
    lemma_reads(c);
    protocol::law_number_arguments(a);
    protocol::law_number_arguments(b);
    protocol::law_number_arguments(c);
    protocol::law_truth_arguments(c);
}

/// `RX_CHANNEL_ENABLE` with three arguments switches the channel `b` of the receiver `a` on or off, as
/// `c` says.
pub proof fn law_channel_command(
    a: Seq<char>,
    b: Seq<char>,
    c: Seq<char>,
    trx: u32,
    channel: u32,
    enable: bool,
)
    ensures
        reads32(a, trx) && reads32(b, channel) && protocol::bool_arg(c) == Ok::<
            bool,
            protocol::ErrorView,
        >(enable) ==> protocol::command_of("RX_CHANNEL_ENABLE"@, seq![a, b, c]) == done(
            protocol::CommandView::RxChannelEnable { trx, channel, enable },
        ),
        (forall|x: u32| !reads32(a, x)) ==> protocol::command_of("RX_CHANNEL_ENABLE"@, seq![a, b, c])
            == refused(a),
        reads32(a, trx) && (forall|x: u32| !reads32(b, x)) ==> protocol::command_of(
            "RX_CHANNEL_ENABLE"@,
            seq![a, b, c],
        ) == refused(b),
        reads32(a, trx) && reads32(b, channel) && protocol::bool_arg(c) is Err
            ==> protocol::command_of("RX_CHANNEL_ENABLE"@, seq![a, b, c]) == refused(c),
{
    lemma_all_names();
    lemma_reads(a);
    lemma_reads(b);
    lemma_reads(c);
    protocol::law_number_arguments(a);
    protocol::law_number_arguments(b);
    protocol::law_number_arguments(c);
    protocol::law_truth_arguments(c);
}

/// `VFO`, `IF` and `RX_CHANNEL_ENABLE` with two arguments ask for what they set with three, of the
/// VFO or channel `b` of the receiver `a`.
pub proof fn law_commands_that_ask_of_a_vfo(a: Seq<char>, b: Seq<char>, trx: u32, vfo: u32)
    ensures
        reads32(a, trx) && reads32(b, vfo) ==> {
            &&& protocol::command_of("VFO"@, seq![a, b]) == done(
                protocol::CommandView::VfoRead { trx, vfo },
            )
            &&& protocol::command_of("IF"@, seq![a, b]) == done(
                protocol::CommandView::IfRead { trx, vfo },
            )
            &&& protocol::command_of("RX_CHANNEL_ENABLE"@, seq![a, b]) == done(
                protocol::CommandView::RxChannelEnableRead { trx, channel: vfo },
            )
        },
        (forall|x: u32| !reads32(a, x)) ==> {
            &&& protocol::command_of("VFO"@, seq![a, b]) == refused(a)
            &&& protocol::command_of("IF"@, seq![a, b]) == refused(a)
            &&& protocol::command_of("RX_CHANNEL_ENABLE"@, seq![a, b]) == refused(a)
        },
        reads32(a, trx) && (forall|x: u32| !reads32(b, x)) ==> {
            &&& protocol::command_of("VFO"@, seq![a, b]) == refused(b)
            &&& protocol::command_of("IF"@, seq![a, b]) == refused(b)
            &&& protocol::command_of("RX_CHANNEL_ENABLE"@, seq![a, b]) == refused(b)
        },
{
    lemma_all_names();
    lemma_reads(a);
    lemma_reads(b);
}

/// `DDS` with two arguments sets the centre frequency of the receiver `a` to `b`, and `MODULATION`
/// the modulation, which is taken as it came.
pub proof fn law_commands_with_a_receiver_and_a_value(
    a: Seq<char>,
    b: Seq<char>,
    trx: u32,
    freq_hz: u64,
)
    ensures
        reads32(a, trx) && reads64(b, freq_hz) ==> protocol::command_of("DDS"@, seq![a, b]) == done(
            protocol::CommandView::Dds { trx, freq_hz },
        ),
        reads32(a, trx) && (forall|x: u64| !reads64(b, x)) ==> protocol::command_of(
            "DDS"@,
            seq![a, b],
        ) == refused(b),
        reads32(a, trx) ==> protocol::command_of("MODULATION"@, seq![a, b]) == done(
            protocol::CommandView::Modulation { trx, mode: b },
        ),
        (forall|x: u32| !reads32(a, x)) ==> {
            &&& protocol::command_of("DDS"@, seq![a, b]) == refused(a)
            &&& protocol::command_of("MODULATION"@, seq![a, b]) == refused(a)
        },
{
    lemma_all_names();
    lemma_reads(a);
    lemma_reads(b);
}

/// `DDS`, `MODULATION` and `RX_FILTER_BAND` with one argument ask for what they set, of that
/// receiver.
pub proof fn law_commands_that_ask_of_a_receiver(a: Seq<char>, trx: u32)
    ensures
        reads32(a, trx) ==> {
            &&& protocol::command_of("DDS"@, seq![a]) == done(
                protocol::CommandView::DdsRead { trx },
            )
            &&& protocol::command_of("MODULATION"@, seq![a]) == done(
                protocol::CommandView::ModulationRead { trx },
            )
            &&& protocol::command_of("RX_FILTER_BAND"@, seq![a]) == done(
                protocol::CommandView::RxFilterBandRead { trx },
            )
        },
        (forall|x: u32| !reads32(a, x)) ==> {
            &&& protocol::command_of("DDS"@, seq![a]) == refused(a)
            &&& protocol::command_of("MODULATION"@, seq![a]) == refused(a)
            &&& protocol::command_of("RX_FILTER_BAND"@, seq![a]) == refused(a)
        },
{
    lemma_all_names();
    lemma_reads(a);
}

/// The commands without arguments that count, and those with one text. Arguments to the former do not
/// matter; the latter are refused with any other number of arguments.
pub proof fn law_bare_and_text_commands(s: Seq<char>, args: Seq<Seq<char>>)
    ensures
        protocol::command_of("START"@, args) == done(protocol::CommandView::Start),
        protocol::command_of("STOP"@, args) == done(protocol::CommandView::Stop),
        protocol::command_of("SPOT_CLEAR"@, args) == done(protocol::CommandView::SpotClear),
        protocol::command_of("CW_MACROS_STOP"@, args) == done(protocol::CommandView::CwMacrosStop),
        protocol::command_of("SPOT_DELETE"@, seq![s]) == done(
            (protocol::CommandView::SpotDelete { callsign: s }),
        ),
        protocol::command_of("AUDIO_STREAM_SAMPLE_TYPE"@, seq![s]) == done(
            (protocol::CommandView::AudioStreamSampleType { sample_type: s }),
        ),
        args.len() != 1 ==> {
            &&& protocol::command_of("SPOT_DELETE"@, args) == miscounted(
                "SPOT_DELETE"@,
                1,
                args.len(),
            )
            &&& protocol::command_of("AUDIO_STREAM_SAMPLE_TYPE"@, args) == miscounted(
                "AUDIO_STREAM_SAMPLE_TYPE"@,
                1,
                args.len(),
            )
        },
{
    lemma_all_names();
}

/// `SPOT` with five arguments holds a callsign, a mode, a frequency, a colour and a text.
pub proof fn law_spot_command(args: Seq<Seq<char>>, freq_hz: u64, color: u32)
    requires
        args.len() == 5,
    ensures
        reads64(args[2], freq_hz) && reads32(args[3], color) ==> protocol::command_of(
            "SPOT"@,
            args,
        ) == done(
            protocol::CommandView::Spot {
                callsign: args[0],
                mode: args[1],
                freq_hz,
                color,
                text: args[4],
            },
        ),
        (forall|x: u64| !reads64(args[2], x)) ==> protocol::command_of("SPOT"@, args) == refused(
            args[2],
        ),
        reads64(args[2], freq_hz) && (forall|x: u32| !reads32(args[3], x)) ==> protocol::command_of(
            "SPOT"@,
            args,
        ) == refused(args[3]),
{
    lemma_all_names();
    lemma_reads(args[2]);
    lemma_reads(args[3]);
}

/// `RX_SENSORS_ENABLE` holds a truth value, and an interval where there is a second argument;
/// `CW_MACROS` holds a receiver and a text, which is all that follows, commas and all.
pub proof fn law_sensors_and_macros(
    a: Seq<char>,
    b: Seq<char>,
    more: Seq<Seq<char>>,
    enable: bool,
    v: u32,
)
    ensures
        protocol::bool_arg(a) == Ok::<bool, protocol::ErrorView>(enable) ==> {
            &&& protocol::command_of("RX_SENSORS_ENABLE"@, seq![a]) == done(
                protocol::CommandView::RxSensorsEnable { enable, interval_ms: None },
            )
            &&& reads32(b, v) ==> protocol::command_of("RX_SENSORS_ENABLE"@, seq![a, b] + more)
                == done(protocol::CommandView::RxSensorsEnable { enable, interval_ms: Some(v) })
            &&& (forall|x: u32| !reads32(b, x)) ==> protocol::command_of(
                "RX_SENSORS_ENABLE"@,
                seq![a, b] + more,
            ) == refused(b)
        },
        protocol::bool_arg(a) is Err ==> protocol::command_of("RX_SENSORS_ENABLE"@, seq![a] + more)
            == refused(a),
        reads32(a, v) ==> protocol::command_of("CW_MACROS"@, seq![a, b] + more) == done(
            (protocol::CommandView::CwMacros { trx: v, text: text::joined(seq![b] + more, ',') }),
        ),
        (forall|x: u32| !reads32(a, x)) ==> protocol::command_of("CW_MACROS"@, seq![a, b] + more)
            == refused(a),
{
    lemma_all_names();
    lemma_reads(a);
    lemma_reads(b);
    protocol::law_truth_arguments(a);
    assert((seq![a, b] + more).skip(1) =~= seq![b] + more);
    assert((seq![a, b] + more)[0] == a && (seq![a, b] + more)[1] == b);
    assert((seq![a] + more)[0] == a);
}

/// Commands with other names, or with a number of arguments that their name does not go with, are
/// kept with their name and arguments.
pub proof fn law_other_commands_are_kept(name: Seq<char>, args: Seq<Seq<char>>)
    requires
        name != "IQ_SAMPLERATE"@ && name != "IQ_START"@ && name != "IQ_STOP"@,
        name != "AUDIO_SAMPLERATE"@ && name != "AUDIO_START"@ && name != "AUDIO_STOP"@,
        name != "AUDIO_STREAM_CHANNELS"@ && name != "AUDIO_STREAM_SAMPLES"@,
        name != "AUDIO_STREAM_SAMPLE_TYPE"@ && name != "SPOT_DELETE"@ && name != "SPOT_CLEAR"@,
        name != "CW_MACROS_STOP"@ && name != "START"@ && name != "STOP"@,
        name == "VFO"@ || name == "IF"@ || name == "RX_CHANNEL_ENABLE"@ ==> args.len() != 2
            && args.len() != 3,
        name == "DDS"@ || name == "MODULATION"@ ==> args.len() != 1 && args.len() != 2,
        name == "RX_FILTER_BAND"@ ==> args.len() != 1 && args.len() != 3,
        name == "SPOT"@ ==> args.len() != 5,
        name == "RX_SENSORS_ENABLE"@ ==> args.len() == 0,
        name == "CW_MACROS"@ ==> args.len() < 2,
    ensures
        protocol::command_of(name, args) == done(protocol::CommandView::Other { name, args }),
{
}

/// Whether one line is answered, which reads as the given command.
pub open spec fn answers(replies: Seq<Seq<char>>, cmd: protocol::CommandView) -> bool {
    replies.len() == 1 && protocol::parsed(replies[0]) == Ok::<
        protocol::CommandView,
        protocol::ErrorView,
    >(cmd)
}

/// What is asked for is answered with what the state holds, whatever that is: the frequency, the
/// offset and the switch of that very VFO, the centre frequency, the filter and the modulation of that
/// receiver. A modulation with a comma stands in the answer as it is.
pub proof fn law_answers_tell_what_the_state_holds(
    state: state::StateView,
    max_trx: nat,
    trx: u32,
    v: u32,
)
    requires
        trx < max_trx,
        v < 2,
    ensures
        ({
            let t = state.trx[trx as int];
            &&& answers(
                server::replies_to(state, max_trx, protocol::CommandView::VfoRead { trx, vfo: v }),
                protocol::CommandView::Vfo {
                trx,
                vfo: v,
                freq_hz: t.vfo[v as int].freq_hz,
            },
            )
            &&& answers(
                server::replies_to(state, max_trx, protocol::CommandView::IfRead { trx, vfo: v }),
                protocol::CommandView::If {
                trx,
                vfo: v,
                offset_hz: t.vfo[v as int].if_offset_hz,
            },
            )
            &&& answers(
                server::replies_to(state, max_trx, protocol::CommandView::RxChannelEnableRead { trx, channel: v }),
                protocol::CommandView::RxChannelEnable {
                trx,
                channel: v,
                enable: t.vfo[v as int].enabled,
            },
            )
            &&& answers(
                server::replies_to(state, max_trx, protocol::CommandView::DdsRead { trx }),
                protocol::CommandView::Dds { trx, freq_hz: t.dds_freq_hz },
            )
            &&& answers(
                server::replies_to(state, max_trx, protocol::CommandView::RxFilterBandRead { trx }),
                protocol::CommandView::RxFilterBand {
                trx,
                low: t.filter_low,
                high: t.filter_high,
            },
            )
            &&& !t.modulation.contains(',') ==> answers(
                server::replies_to(state, max_trx, protocol::CommandView::ModulationRead { trx }),
                protocol::CommandView::Modulation { trx, mode: t.modulation },
            )
            &&& server::replies_to(state, max_trx, protocol::CommandView::ModulationRead { trx })
                == seq![
                protocol::message(
                    "modulation"@,
                    seq![decimal::numeral(trx as nat), t.modulation],
                ),
            ]
        }),
{
    let t = state.trx[trx as int];
    law_vfo_line_sets_it(trx, v, t.vfo[v as int].freq_hz);
    law_if_line_sets_it(trx, v, t.vfo[v as int].if_offset_hz);
    law_channel_line_sets_it(trx, v, t.vfo[v as int].enabled);
    law_dds_line_sets_it(trx, t.dds_freq_hz);
    law_filter_line_sets_it(trx, t.filter_low, t.filter_high);
    if !t.modulation.contains(',') {
        law_modulation_line_sets_it(trx, t.modulation);
    }
}

/// Setting the centre frequency does not change what is answered about a VFO, an offset, a switch, a
/// filter or a modulation; setting VFO B does not change what is answered about VFO A or the centre
/// frequency.
pub proof fn law_answers_keep_apart(
    state: state::StateView,
    max_trx: nat,
    trx: u32,
    v: u32,
    freq_hz: u64,
)
    requires
        trx < max_trx,
        trx < state.trx.len(),
        state.trx[trx as int].vfo.len() == 2,
        v < 2,
    ensures
        ({
            let moved = server::state_after(
                state,
                max_trx,
                protocol::CommandView::Dds { trx, freq_hz },
            );
            let tuned = server::state_after(
                state,
                max_trx,
                protocol::CommandView::Vfo { trx, vfo: 1, freq_hz },
            );
            &&& server::replies_to(moved, max_trx, protocol::CommandView::VfoRead { trx, vfo: v })
                == server::replies_to(
                state,
                max_trx,
                protocol::CommandView::VfoRead { trx, vfo: v },
            )
            &&& server::replies_to(moved, max_trx, protocol::CommandView::IfRead { trx, vfo: v })
                == server::replies_to(
                state,
                max_trx,
                protocol::CommandView::IfRead { trx, vfo: v },
            )
            &&& server::replies_to(moved, max_trx, protocol::CommandView::RxFilterBandRead { trx })
                == server::replies_to(
                state,
                max_trx,
                protocol::CommandView::RxFilterBandRead { trx },
            )
            &&& server::replies_to(tuned, max_trx, protocol::CommandView::VfoRead { trx, vfo: 0 })
                == server::replies_to(
                state,
                max_trx,
                protocol::CommandView::VfoRead { trx, vfo: 0 },
            )
            &&& server::replies_to(tuned, max_trx, protocol::CommandView::DdsRead { trx })
                == server::replies_to(state, max_trx, protocol::CommandView::DdsRead { trx })
        }),
{
}

/// Setting something of a receiver and a VFO that there are is confirmed, in any state, by one line
/// that reads as the command; and so are setting the sample rate, starting and stopping.
pub proof fn law_settings_are_confirmed(
    state: state::StateView,
    max_trx: nat,
    cmd: protocol::CommandView,
)
    requires
        cmd is IqSamplerate || cmd is Start || cmd is Stop || match cmd {
            protocol::CommandView::Vfo { trx, vfo, .. } => trx < max_trx && vfo < 2,
            protocol::CommandView::If { trx, vfo, .. } => trx < max_trx && vfo < 2,
            protocol::CommandView::RxChannelEnable { trx, channel, .. } => trx < max_trx && channel
                < 2,
            protocol::CommandView::Dds { trx, .. } => trx < max_trx,
            protocol::CommandView::RxFilterBand { trx, .. } => trx < max_trx,
            protocol::CommandView::Modulation { trx, mode } => trx < max_trx && !mode.contains(','),
            _ => false,
        },
    ensures
        answers(server::replies_to(state, max_trx, cmd), cmd),
{
    law_confirmation_is_the_command(state, max_trx, cmd);
}

/// Line `j` of what a client is told of receiver `i`.
proof fn lemma_line_of_a_receiver(trx: Seq<state::TrxView>, i: int, j: int)
    requires
        0 <= i < trx.len(),
        0 <= j < 9,
    ensures
        9 * i + j < state::all_trx_lines(trx).len(),
        state::all_trx_lines(trx).len() == 9 * trx.len(),
        state::all_trx_lines(trx)[9 * i + j] == state::trx_lines(i as nat, trx[i])[j],
    decreases trx.len(),
{
    let rest = trx.drop_last();
    let last = trx.len() - 1;
    lemma_lines_len(rest);
    if i < last {
        lemma_line_of_a_receiver(rest, i, j);
    }
}

proof fn lemma_lines_len(trx: Seq<state::TrxView>)
    ensures
        state::all_trx_lines(trx).len() == 9 * trx.len(),
    decreases trx.len(),
{
    if trx.len() > 0 {
        lemma_lines_len(trx.drop_last());
    }
}

/// Line `j` of what a client is told of receiver `i`, among all lines.
proof fn lemma_announced_line(state: state::StateView, i: u32, j: int)
    requires
        i < state.trx.len(),
        0 <= j < 9,
    ensures
        state::state_lines(state).len() == 9 * state.trx.len() + 1,
        9 * (i as int) + j < 9 * state.trx.len(),
        state::state_lines(state)[9 * (i as int) + j] == state::trx_lines(
            i as nat,
            state.trx[i as int],
        )[j],
{
    lemma_line_of_a_receiver(state.trx, i as int, j);
}

/// The announced frequencies are those of the state. Of each receiver there are nine lines, in the
/// order of the receivers; the fourth one reads as setting its centre frequency, the fifth and the
/// sixth as setting VFO A and VFO B, each to the very frequency that it has.
pub proof fn law_announced_frequencies(state: state::StateView, i: u32)
    requires
        i < state.trx.len(),
    ensures
        ({
            let lines = state::state_lines(state);
            let t = state.trx[i as int];
            let at = 9 * (i as int);
            &&& lines.len() == 9 * state.trx.len() + 1
            &&& protocol::parsed(lines[at + 3]) == done(
                protocol::CommandView::Dds { trx: i, freq_hz: t.dds_freq_hz },
            )
            &&& protocol::parsed(lines[at + 4]) == done(
                protocol::CommandView::Vfo { trx: i, vfo: 0, freq_hz: t.vfo[0].freq_hz },
            )
            &&& protocol::parsed(lines[at + 5]) == done(
                protocol::CommandView::Vfo { trx: i, vfo: 1, freq_hz: t.vfo[1].freq_hz },
            )
        }),
{
    let t = state.trx[i as int];
    lemma_announced_line(state, i, 3);
    lemma_announced_line(state, i, 4);
    lemma_announced_line(state, i, 5);
    lemma_zero_and_one();
    let own = state::trx_lines(i as nat, t);
    assert(own[3] == server::dds_line(i, t.dds_freq_hz));
    assert(own[4] == server::vfo_line(i, 0, t.vfo[0].freq_hz));
    assert(own[5] == server::vfo_line(i, 1, t.vfo[1].freq_hz));
    law_dds_line_sets_it(i, t.dds_freq_hz);
    law_vfo_line_sets_it(i, 0, t.vfo[0].freq_hz);
    law_vfo_line_sets_it(i, 1, t.vfo[1].freq_hz);
}

/// The announced settings are those of the state: the seventh line of a receiver reads as switching
/// VFO B as it is, the eighth as setting its modulation, the ninth as setting its filter.
pub proof fn law_announced_settings(state: state::StateView, i: u32)
    requires
        i < state.trx.len(),
    ensures
        ({
            let lines = state::state_lines(state);
            let t = state.trx[i as int];
            let at = 9 * (i as int);
            &&& protocol::parsed(lines[at + 6]) == done(
                protocol::CommandView::RxChannelEnable {
                    trx: i,
                    channel: 1,
                    enable: t.vfo[1].enabled,
                },
            )
            &&& lines[at + 7] == protocol::message(
                "modulation"@,
                seq![decimal::numeral(i as nat), t.modulation],
            )
            &&& !t.modulation.contains(',') ==> protocol::parsed(lines[at + 7]) == done(
                protocol::CommandView::Modulation { trx: i, mode: t.modulation },
            )
            &&& protocol::parsed(lines[at + 8]) == done(
                protocol::CommandView::RxFilterBand {
                    trx: i,
                    low: t.filter_low,
                    high: t.filter_high,
                },
            )
        }),
{
    let t = state.trx[i as int];
    lemma_announced_line(state, i, 6);
    lemma_announced_line(state, i, 7);
    lemma_announced_line(state, i, 8);
    lemma_zero_and_one();
    let own = state::trx_lines(i as nat, t);
    assert(own[6] == server::channel_line(i, 1, t.vfo[1].enabled));
    assert(own[7] == server::modulation_line(i, t.modulation));
    assert(own[8] == server::filter_line(i, t.filter_low, t.filter_high));
    law_channel_line_sets_it(i, 1, t.vfo[1].enabled);
    law_filter_line_sets_it(i, t.filter_low, t.filter_high);
    if !t.modulation.contains(',') {
        law_modulation_line_sets_it(i, t.modulation);
    }
}

/// The first three lines of a receiver say that it does not transmit, that it is not transmitting, and
/// that it receives.
pub proof fn law_announced_directions(state: state::StateView, i: u32)
    requires
        i < state.trx.len(),
    ensures
        ({
            let lines = state::state_lines(state);
            let n = decimal::numeral(i as nat);
            let at = 9 * (i as int);
            &&& lines[at] == protocol::message("tx_enable"@, seq![n, "false"@])
            &&& lines[at + 1] == protocol::message("trx"@, seq![n, "false"@])
            &&& lines[at + 2] == protocol::message("rx_enable"@, seq![n, "true"@])
        }),
{
    lemma_announced_line(state, i, 0);
    lemma_announced_line(state, i, 1);
    lemma_announced_line(state, i, 2);
}

proof fn lemma_zero_and_one()
    ensures
        decimal::numeral(0) == "0"@,
        decimal::numeral(1) == "1"@,
{
    reveal_strlit("0");
    reveal_strlit("1");
    assert(decimal::numeral(0) =~= "0"@);
    assert(decimal::numeral(1) =~= "1"@);
}

/// No VFO is announced twice, and none that there is not: a line that reads as setting a VFO is the
/// line of that VFO of that receiver.
pub proof fn law_each_vfo_is_announced_once(
    state: state::StateView,
    k: int,
    trx: u32,
    vfo: u32,
    freq_hz: u64,
)
    requires
        state.trx.len() <= u32::MAX,
        forall|i: int|
            0 <= i < state.trx.len() ==> !(#[trigger] state.trx[i]).modulation.contains(','),
        0 <= k < state::state_lines(state).len(),
        protocol::parsed(state::state_lines(state)[k]) == done(
            (protocol::CommandView::Vfo { trx, vfo, freq_hz }),
        ),
    ensures
        trx < state.trx.len(),
        vfo < 2,
        k == 9 * trx + 4 + vfo,
        freq_hz == state.trx[trx as int].vfo[vfo as int].freq_hz,
{
    lemma_lines_len(state.trx);
    if k == 9 * state.trx.len() {
        lemma_start_and_stop_lines();
    } else {
        let i = k / 9;
        assert(k == 9 * i + k % 9);
        lemma_vfo_line_is_its_own(state, i as u32, k % 9, trx, vfo, freq_hz);
    }
}

/// Of the lines of a receiver, two set a VFO.
proof fn lemma_vfo_line_is_its_own(
    state: state::StateView,
    i: u32,
    j: int,
    trx: u32,
    vfo: u32,
    freq_hz: u64,
)
    requires
        i < state.trx.len(),
        0 <= j < 9,
        !state.trx[i as int].modulation.contains(','),
        protocol::parsed(state::state_lines(state)[9 * (i as int) + j]) == done(
            (protocol::CommandView::Vfo { trx, vfo, freq_hz }),
        ),
    ensures
        trx == i,
        vfo < 2,
        j == 4 + vfo,
        freq_hz == state.trx[i as int].vfo[vfo as int].freq_hz,
{
    if j < 3 {
        law_announced_directions(state, i);
        if j == 0 {
            lemma_kept_line("tx_enable"@, i as nat, "false"@);
        } else if j == 1 {
            lemma_kept_line("trx"@, i as nat, "false"@);
        } else {
            assert(j == 2);
            lemma_kept_line("rx_enable"@, i as nat, "true"@);
        }
    } else if j < 6 {
        law_announced_frequencies(state, i);
        assert(j == 3 || j == 4 || j == 5);
    } else {
        law_announced_settings(state, i);
        assert(j == 6 || j == 7 || j == 8);
    }
}

/// The lines on transmitting and receiving set no VFO.
proof fn lemma_kept_line(name: Seq<char>, i: nat, word: Seq<char>)
    requires
        name == "tx_enable"@ || name == "trx"@ || name == "rx_enable"@,
        word == "true"@ || word == "false"@,
    ensures
        protocol::parsed(protocol::message(name, seq![decimal::numeral(i), word])) matches Ok(c)
            && c is Other,
{
    let args = seq![decimal::numeral(i), word];
    reveal_strlit("tx_enable");
    reveal_strlit("trx");
    reveal_strlit("rx_enable");
    lemma_numeral_arg(i);
    assert(!word.contains(',')) by {
        lemma_bool_arg(true);
        lemma_bool_arg(false);
    }
    let up = text::uppered(name);
    assert(up[0] == 'T' || (up[0] == 'R' && up.len() == 9));
    lemma_reply(name, args);
    lemma_kept_name(up, args);
}

proof fn lemma_kept_name(up: Seq<char>, args: Seq<Seq<char>>)
    requires
        up.len() > 0,
        up[0] == 'T' || (up[0] == 'R' && up.len() == 9),
    ensures
        protocol::command_of(up, args) == done((protocol::CommandView::Other { name: up, args })),
{
    lemma_all_names();
    law_other_commands_are_kept(up, args);
}

} // verus!
