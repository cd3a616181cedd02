//! The bridge between radiod and the TCI servers.
//!
//! It keeps the table of channels, each known by its SSRC, turns the commands of TCI clients into
//! fields of control commands for radiod, and turns RTP packets into IQ frames.

use std::collections::HashMap;

use vstd::prelude::*;

use crate::addr::Ipv4Addr;
use crate::ieee;
use crate::radiod::control;
use crate::radiod::rtp;
use crate::radiod::tlv;
use crate::radiod::rtp::RtpError;
use crate::radiod::tlv::{StatusType, TlvField, TlvValue};
use crate::tci::protocol;
use crate::tci::state::IqFrame;

verus! {

// ---------------------------------------------------------------------------------------------
// SSRC
// ---------------------------------------------------------------------------------------------

/// The prefix of the SSRCs that the bridge gives out.
pub const SSRC_PREFIX: u32 = 0x7C10_0000;

/// The position of the receiver in an SSRC.
pub const SSRC_TRX_SHIFT: u32 = 4;

/// The bits of the VFO in an SSRC.
pub const SSRC_VFO_MASK: u32 = 0x0F;

/// The bits of the receiver, before they are shifted into place.
pub const SSRC_TRX_MASK: u32 = 0x0F;

/// The SSRC of a VFO of a receiver: the prefix (24 bits), the receiver (4 bits), the VFO (4 bits).
/// Of larger numbers only the low four bits count.
pub open spec fn ssrc_of(trx: u8, vfo: u8) -> u32 {
    (0x7C10_0000 + (trx % 16) * 16 + vfo % 16) as u32
}

/// The receiver and the VFO that an SSRC stands for, if it has the prefix.
pub open spec fn ssrc_parts(ssrc: u32) -> Option<(u8, u8)> {
    if ssrc / 256 == 0x7C_1000 {
        Some((((ssrc / 16) % 16) as u8, (ssrc % 16) as u8))
    } else {
        None
    }
}

/// The SSRC of a VFO of a receiver.
pub fn ssrc_encode(trx: u8, vfo: u8) -> (r: u32)
    ensures
        r == ssrc_of(trx, vfo),
{
    let t: u32 = trx as u32;
    let v: u32 = vfo as u32;
    assert(0x7C10_0000u32 | ((t & 0x0F) << 4) | (v & 0x0F) == 0x7C10_0000u32 + (t % 16) * 16 + v
        % 16) by (bit_vector);
    SSRC_PREFIX | ((t & SSRC_TRX_MASK) << SSRC_TRX_SHIFT) | (v & SSRC_VFO_MASK)
}

/// The receiver and the VFO that an SSRC stands for; `None` where it does not have the prefix.
pub fn ssrc_decode(ssrc: u32) -> (r: Option<(u8, u8)>)
    ensures
        r == ssrc_parts(ssrc),
{
    assert((ssrc & 0xFFFF_FF00u32) == (ssrc / 256) * 256) by (bit_vector);
    assert(((ssrc >> 4) & 0x0Fu32) == (ssrc / 16) % 16) by (bit_vector);
    assert((ssrc & 0x0Fu32) == ssrc % 16) by (bit_vector);
    if (ssrc & 0xFFFF_FF00) != SSRC_PREFIX {
        return None;
    }
    let trx: u8 = ((ssrc >> SSRC_TRX_SHIFT) & SSRC_TRX_MASK) as u8;
    let vfo: u8 = (ssrc & SSRC_VFO_MASK) as u8;
    Some((trx, vfo))
}

// ---------------------------------------------------------------------------------------------
// Channels
// ---------------------------------------------------------------------------------------------

/// What the bridge knows of a channel of radiod.
#[derive(Debug, Clone, Copy, PartialEq, Eq, Structural)]
pub struct ChannelInfo {
    pub ssrc: u32,
    pub trx: u8,
    pub vfo: u8,
    pub freq_hz: u64,
    pub samprate: u32,
    /// The multicast group on which radiod sends the samples of this SSRC.
    pub data_group: Option<Ipv4Addr>,
    /// Whether a command with a preset has been sent for this SSRC.
    pub created: bool,
}

/// A channel of which nothing is known yet.
pub open spec fn new_channel(trx: u8, vfo: u8) -> ChannelInfo {
    ChannelInfo {
        ssrc: ssrc_of(trx, vfo),
        trx,
        vfo,
        freq_hz: 0,
        samprate: 0,
        data_group: None,
        created: false,
    }
}

impl ChannelInfo {
    fn new(trx: u8, vfo: u8) -> (r: ChannelInfo)
        ensures
            r == new_channel(trx, vfo),
    {
        ChannelInfo {
            ssrc: ssrc_encode(trx, vfo),
            trx,
            vfo,
            freq_hz: 0,
            samprate: 0,
            data_group: None,
            created: false,
        }
    }
}

/// The channels, each under its SSRC.
#[derive(Debug)]
pub struct SsrcTable {
    by_ssrc: HashMap<u32, ChannelInfo>,
}

impl View for SsrcTable {
    type V = Map<u32, ChannelInfo>;

    closed spec fn view(&self) -> Map<u32, ChannelInfo> {
        self.by_ssrc@
    }
}

/// Whether every channel stands under its own SSRC, which is that of its receiver and VFO.
pub open spec fn consistent(table: Map<u32, ChannelInfo>) -> bool {
    forall|k: u32| #[trigger]
        table.contains_key(k) ==> table[k].ssrc == k && k == ssrc_of(table[k].trx, table[k].vfo)
}

/// The channel of a VFO of a receiver, a new one where the table has none.
pub open spec fn channel_in(table: Map<u32, ChannelInfo>, trx: u8, vfo: u8) -> ChannelInfo {
    if table.contains_key(ssrc_of(trx, vfo)) {
        table[ssrc_of(trx, vfo)]
    } else {
        new_channel(trx, vfo)
    }
}

/// A channel after one field of a status packet. A data group is an IPv4 address in front of a
/// port, six bytes in all; anything else is not taken.
pub open spec fn with_field(ch: ChannelInfo, field: tlv::FieldView) -> ChannelInfo {
    if field.tag == StatusType::RADIO_FREQUENCY.wire() {
        match field.value {
            tlv::ValueView::Double(bits) => ChannelInfo {
                freq_hz: ieee::double_rounded(bits),
                ..ch
            },
            tlv::ValueView::Float(bits) => ChannelInfo {
                freq_hz: ieee::float_rounded(bits),
                ..ch
            },
            _ => ch,
        }
    } else if field.tag == StatusType::OUTPUT_SAMPRATE.wire() {
        match field.value {
            tlv::ValueView::Int(v) => ChannelInfo { samprate: (v % 0x1_0000_0000) as u32, ..ch },
            _ => ch,
        }
    } else if field.tag == StatusType::OUTPUT_DATA_DEST_SOCKET.wire() {
        match field.value {
            tlv::ValueView::Bytes(b) => if b.len() == 6 {
                ChannelInfo {
                    data_group: Some(Ipv4Addr { a: b[0], b: b[1], c: b[2], d: b[3] }),
                    ..ch
                }
            } else {
                ch
            },
            _ => ch,
        }
    } else {
        ch
    }
}

/// A channel after the fields of a status packet, one after the other.
pub open spec fn with_fields(ch: ChannelInfo, fields: Seq<tlv::FieldView>) -> ChannelInfo
    decreases fields.len(),
{
    if fields.len() == 0 {
        ch
    } else {
        with_field(with_fields(ch, fields.drop_last()), fields.last())
    }
}

/// The table after a status packet. One that names no SSRC, or one without the prefix, changes
/// nothing.
pub open spec fn after_status(
    table: Map<u32, ChannelInfo>,
    fields: Seq<tlv::FieldView>,
) -> Map<u32, ChannelInfo> {
    match control::status_ssrc(fields) {
        None => table,
        Some(ssrc) => match ssrc_parts(ssrc) {
            None => table,
            Some((trx, vfo)) => table.insert(
                ssrc,
                with_fields(channel_in(table, trx, vfo), fields),
            ),
        },
    }
}

/// Whether `order` holds the SSRC of each channel, each once.
pub open spec fn walks(order: Seq<u32>, table: Map<u32, ChannelInfo>) -> bool {
    order.no_duplicates() && order.to_set() == table.dom()
}

/// A channel for which a preset has been sent.
pub open spec fn created(ch: ChannelInfo) -> ChannelInfo {
    ChannelInfo { created: true, ..ch }
}

/// A channel whose preset has to be sent again, and whose data group has to be found again.
pub open spec fn invalidated(ch: ChannelInfo) -> ChannelInfo {
    ChannelInfo { created: false, data_group: None, ..ch }
}

/// Takes one field of a status packet into a channel.
fn apply_field(ch: &mut ChannelInfo, field: &TlvField)
    ensures
        *final(ch) == with_field(*old(ch), field@),
{
    match &field.value {
        TlvValue::Double(bits) => {
            if field.tag == StatusType::RADIO_FREQUENCY.code() {
                ch.freq_hz = ieee::round_double(*bits);
            }
        },
        TlvValue::Float(bits) => {
            if field.tag == StatusType::RADIO_FREQUENCY.code() {
                ch.freq_hz = ieee::round_float(*bits);
            }
        },
        TlvValue::Int(v) => {
            if field.tag == StatusType::OUTPUT_SAMPRATE.code() {
                ch.samprate = (*v % 0x1_0000_0000) as u32;
            }
        },
        TlvValue::Bytes(b) => {
            if field.tag == StatusType::OUTPUT_DATA_DEST_SOCKET.code() && b.len() == 6 {
                ch.data_group = Some(Ipv4Addr::new(b[0], b[1], b[2], b[3]));
            }
        },
    }
}

impl Default for SsrcTable {
    fn default() -> (r: SsrcTable)
        ensures
            r@ == Map::<u32, ChannelInfo>::empty(),
            consistent(r@),
    {
        SsrcTable { by_ssrc: HashMap::new() }
    }
}

impl SsrcTable {
    /// A table without channels.
    pub fn new() -> (r: SsrcTable)
        ensures
            r@ == Map::<u32, ChannelInfo>::empty(),
            consistent(r@),
    {
        SsrcTable { by_ssrc: HashMap::new() }
    }

    /// The channel of a VFO of a receiver, put into the table where it is not there yet.
    pub fn get_or_insert(&mut self, trx: u8, vfo: u8) -> (r: &mut ChannelInfo)
        ensures
            *r == channel_in(old(self)@, trx, vfo),
            final(self)@ == old(self)@.insert(ssrc_of(trx, vfo), *final(r)),
            consistent(old(self)@) ==> r.ssrc == ssrc_of(trx, vfo),
    {
        broadcast use vstd::std_specs::hash::group_hash_axioms;

        let ssrc: u32 = ssrc_encode(trx, vfo);
        self.by_ssrc.entry(ssrc).or_insert(ChannelInfo::new(trx, vfo))
    }

    /// The channel with the given SSRC.
    pub fn get(&self, ssrc: u32) -> (r: Option<&ChannelInfo>)
        ensures
            r matches Some(ch) ==> self@.contains_key(ssrc) && *ch == self@[ssrc],
            r is None ==> !self@.contains_key(ssrc),
    {
        broadcast use vstd::std_specs::hash::group_hash_axioms;

        self.by_ssrc.get(&ssrc)
    }

    /// Takes the fields of a status packet into the table.
    ///
    /// Whether a preset has been sent is not for a status packet to say: radiod may still have the
    /// channel from an earlier run, with another preset.
    pub fn update_from_status(&mut self, fields: &[TlvField])
        ensures
            final(self)@ == after_status(old(self)@, tlv::field_views(fields@)),
            consistent(old(self)@) ==> consistent(final(self)@),
    {
        broadcast use vstd::std_specs::hash::group_hash_axioms;

        let ssrc: u32 = match control::find_ssrc(fields) {
            Some(s) => s,
            None => return,
        };
        let (trx, vfo) = match ssrc_decode(ssrc) {
            Some(p) => p,
            None => return,
        };
        let ghost views = tlv::field_views(fields@);
        assert(ssrc_of(trx, vfo) == ssrc);
        let ghost start = channel_in(self@, trx, vfo);
        let mut ch: ChannelInfo = *self.get_or_insert(trx, vfo);
        let mut i: usize = 0;
        assert(views.take(0) =~= Seq::<tlv::FieldView>::empty());
        while i < fields.len()
            invariant
                i <= fields@.len(),
                views == tlv::field_views(fields@),
                ch == with_fields(start, views.take(i as int)),
            decreases fields@.len() - i,
        {
            apply_field(&mut ch, &fields[i]);
            i = i + 1;
            assert(views.take(i as int).drop_last() =~= views.take(i - 1));
        }
        assert(views.take(i as int) =~= views);
        self.by_ssrc.insert(ssrc, ch);
        assert(self@ =~= after_status(old(self)@, views));
        proof {
            law_status_keeps_identity(start, views);
        }
    }

    /// Notes that a preset has been sent for a channel.
    pub fn mark_created(&mut self, ssrc: u32)
        ensures
            final(self)@ == (if old(self)@.contains_key(ssrc) {
                old(self)@.insert(ssrc, created(old(self)@[ssrc]))
            } else {
                old(self)@
            }),
            consistent(old(self)@) ==> consistent(final(self)@),
    {
        broadcast use vstd::std_specs::hash::group_hash_axioms;

        if let Some(ch) = self.get(ssrc) {
            let mut changed: ChannelInfo = *ch;
            changed.created = true;
            self.by_ssrc.insert(ssrc, changed);
        }
    }

    /// Notes that the preset of a channel has to be sent again and its data group found again.
    pub fn invalidate(&mut self, ssrc: u32)
        ensures
            final(self)@ == (if old(self)@.contains_key(ssrc) {
                old(self)@.insert(ssrc, invalidated(old(self)@[ssrc]))
            } else {
                old(self)@
            }),
            consistent(old(self)@) ==> consistent(final(self)@),
    {
        broadcast use vstd::std_specs::hash::group_hash_axioms;

        if let Some(ch) = self.get(ssrc) {
            let mut changed: ChannelInfo = *ch;
            changed.created = false;
            changed.data_group = None;
            self.by_ssrc.insert(ssrc, changed);
        }
    }

    /// The SSRCs of all channels, in no particular order.
    pub fn ssrcs(&self) -> (r: Vec<u32>)
        ensures
            walks(r@, self@),
    {
        broadcast use vstd::std_specs::hash::group_hash_axioms;

        let mut out: Vec<u32> = Vec::new();
        let keys = self.by_ssrc.keys();
        let ghost all = vstd::std_specs::iter::IteratorSpec::remaining(&keys);
        for k in it: keys
            invariant
                it.seq() == all,
                out@ == all.unref().take(it.index() as int),
        {
            out.push(*k);
            assert(out@ =~= all.unref().take(it.index() + 1));
        }
        assert(out@ =~= all.unref());
        out
    }

    /// All channels, in no particular order.
    pub fn iter(&self) -> (r: Vec<ChannelInfo>)
        ensures
            exists|order: Seq<u32>| #[trigger]
                walks(order, self@) && r@ == order.map_values(|k: u32| self@[k]),
    {
        let order = self.ssrcs();
        let mut out: Vec<ChannelInfo> = Vec::new();
        let ghost wanted = order@.map_values(|k: u32| self@[k]);
        let mut i: usize = 0;
        while i < order.len()
            invariant
                i <= order@.len(),
                walks(order@, self@),
                wanted == order@.map_values(|k: u32| self@[k]),
                out@ == wanted.take(i as int),
            decreases order@.len() - i,
        {
            assert(order@.to_set().contains(order@[i as int]));
            if let Some(ch) = self.get(order[i]) {
                out.push(*ch);
            }
            i = i + 1;
            assert(out@ =~= wanted.take(i as int));
        }
        assert(out@ =~= wanted);
        out
    }

    /// The number of channels.
    pub fn len(&self) -> (r: usize)
        ensures
            r == self@.len(),
    {
        broadcast use vstd::std_specs::hash::group_hash_axioms;

        self.by_ssrc.len()
    }

    /// Whether there is no channel.
    pub fn is_empty(&self) -> (r: bool)
        ensures
            r == self@.is_empty(),
    {
        self.by_ssrc.is_empty()
    }
}

// ---------------------------------------------------------------------------------------------
// Commands of TCI clients
// ---------------------------------------------------------------------------------------------

/// What a TCI server asks of the bridge.
#[derive(Debug, Clone, Copy, PartialEq, Eq, Structural)]
pub enum BridgeCmd {
    /// Tune a VFO of a receiver, with a new channel of radiod if there is none yet.
    Tune { trx: u8, vfo: u8, freq_hz: u64 },
    /// Change the sample rate of all channels of the server that are tuned.
    SetSr { samprate: u32 },
    /// Switch a VFO of a receiver on or off; nothing is sent for it.
    EnableRx { trx: u8, vfo: u8, enable: bool },
}

/// A length of time.
#[derive(Debug, Clone, Copy, PartialEq, Eq, Structural)]
pub struct Interval {
    pub secs: u64,
    pub nanos: u32,
}

impl Interval {
    /// The whole length, in nanoseconds.
    pub open spec fn total_nanos(self) -> nat {
        (self.secs * 1_000_000_000 + self.nanos) as nat
    }

    /// The given number of seconds.
    pub fn from_secs(secs: u64) -> (r: Interval)
        ensures
            r == (Interval { secs, nanos: 0 }),
            r.total_nanos() == secs * 1_000_000_000,
    {
        Interval { secs, nanos: 0 }
    }

    /// Whether no time passes at all.
    pub fn is_zero(&self) -> (r: bool)
        ensures
            r == (self.total_nanos() == 0),
    {
        self.secs == 0 && self.nanos == 0
    }
}

/// How the bridge is set up.
#[derive(Debug)]
pub struct BridgeConfig {
    pub status_name: String,
    pub iface: Option<Ipv4Addr>,
    /// The time between two polls of radiod.
    pub poll_interval: Interval,
    pub default_samprate: u32,
    pub max_trx: u8,
    /// The preset of ka9q-radio for each sample rate.
    pub preset_map: HashMap<u32, String>,
    /// The preset for a sample rate that `preset_map` does not hold.
    pub default_preset: String,
}

impl BridgeConfig {
    /// Whether the bridge can run with this configuration: there is time between two polls. If not,
    /// says why.
    pub fn check(&self) -> (r: Result<(), &'static str>)
        ensures
            match r {
                Ok(()) => self.poll_interval.total_nanos() > 0,
                Err(why) => self.poll_interval.total_nanos() == 0 && why@
                    == "poll_interval must be > 0"@,
            },
    {
        if self.poll_interval.is_zero() {
            Err("poll_interval must be > 0")
        } else {
            Ok(())
        }
    }
}

/// What is said when a task of the bridge comes to its end, of itself or by a panic.
pub fn task_end(task: &str, panic: Option<&str>) -> (r: String)
    ensures
        r@ == (match panic {
            None => task@ + " ended unexpectedly"@,
            Some(why) => task@ + " panicked: "@ + why@,
        }),
{
    let mut s = task.to_owned();
    match panic {
        None => {
            s.append(" ended unexpectedly");
        },
        Some(why) => {
            s.append(" panicked: ");
            s.append(why);
        },
    }
    s
}

/// Presets by sample rate, as sequences.
pub open spec fn presets(map: Map<u32, String>) -> Map<u32, Seq<char>> {
    map.map_values(|s: String| s@)
}

/// The presets that are used where none are configured.
pub open spec fn default_presets() -> Map<u32, Seq<char>> {
    map![12_000u32 => "iq"@, 48_000u32 => "iq48"@, 96_000u32 => "iq96"@]
}

/// The presets that are used where none are configured.
pub fn default_preset_map() -> (r: HashMap<u32, String>)
    ensures
        presets(r@) == default_presets(),
{
    broadcast use vstd::std_specs::hash::group_hash_axioms;

    let mut m: HashMap<u32, String> = HashMap::new();
    m.insert(12_000, "iq".to_owned());
    m.insert(48_000, "iq48".to_owned());
    m.insert(96_000, "iq96".to_owned());
    assert(presets(m@) =~= default_presets());
    m
}

/// The preset for a sample rate.
pub open spec fn preset_for(
    map: Map<u32, Seq<char>>,
    samprate: u32,
    default_preset: Seq<char>,
) -> Seq<char> {
    if map.contains_key(samprate) {
        map[samprate]
    } else {
        default_preset
    }
}

/// The preset for a sample rate.
pub fn choose_preset<'a>(
    preset_map: &'a HashMap<u32, String>,
    samprate: u32,
    default_preset: &'a str,
) -> (r: &'a str)
    ensures
        r@ == preset_for(presets(preset_map@), samprate, default_preset@),
{
    broadcast use vstd::std_specs::hash::group_hash_axioms;

    match preset_map.get(&samprate) {
        Some(s) => s.as_str(),
        None => default_preset,
    }
}

/// The fields that tune a channel: its SSRC, the preset if one is to be set, and the frequency.
pub open spec fn tune_fields(
    ssrc: u32,
    preset: Option<Seq<char>>,
    freq_hz: u64,
) -> Seq<tlv::FieldView> {
    let head = seq![
        tlv::FieldView {
            tag: StatusType::OUTPUT_SSRC.wire(),
            value: tlv::ValueView::Int(ssrc as u64),
        },
    ];
    let middle = match preset {
        Some(p) => seq![
            tlv::FieldView {
                tag: StatusType::PRESET.wire(),
                value: tlv::ValueView::Bytes(vstd::utf8::encode_utf8(p)),
            },
        ],
        None => Seq::empty(),
    };
    let tail = seq![
        tlv::FieldView {
            tag: StatusType::RADIO_FREQUENCY.wire(),
            value: tlv::ValueView::Double(ieee::double_of(freq_hz)),
        },
    ];
    head + middle + tail
}

/// The fields that tune a channel.
fn tune_command(ssrc: u32, preset: Option<&str>, freq_hz: u64) -> (r: Vec<(StatusType, TlvValue)>)
    ensures
        tlv::command_views(r@) == tune_fields(
            ssrc,
            match preset {
                Some(p) => Some(p@),
                None => None,
            },
            freq_hz,
        ),
{
    let mut fields: Vec<(StatusType, TlvValue)> = Vec::new();
    fields.push((StatusType::OUTPUT_SSRC, TlvValue::Int(ssrc as u64)));
    if let Some(p) = preset {
        fields.push(
            (StatusType::PRESET, TlvValue::Bytes(vstd::slice::slice_to_vec(p.as_bytes()))),
        );
    }
    fields.push((StatusType::RADIO_FREQUENCY, TlvValue::Double(ieee::double_from(freq_hz))));
    assert(tlv::command_views(fields@) =~= tune_fields(
        ssrc,
        match preset {
            Some(p) => Some(p@),
            None => None,
        },
        freq_hz,
    ));
    fields
}

/// What is to be done for a command: what to send to radiod, in order, and the channel to be noted
/// as created once that is sent.
#[derive(Debug)]
pub struct Plan {
    pub commands: Vec<Vec<(StatusType, TlvValue)>>,
    pub created: Option<u32>,
}

/// The fields of each command.
pub open spec fn commands_views(commands: Seq<Vec<(StatusType, TlvValue)>>) -> Seq<
    Seq<tlv::FieldView>,
> {
    commands.map_values(|c: Vec<(StatusType, TlvValue)>| tlv::command_views(c@))
}

/// The commands that give a preset to the channels that are tuned, in the given order.
pub open spec fn retune_fields(
    order: Seq<u32>,
    table: Map<u32, ChannelInfo>,
    preset: Seq<char>,
) -> Seq<Seq<tlv::FieldView>>
    decreases order.len(),
{
    if order.len() == 0 {
        Seq::empty()
    } else {
        let ch = table[order.last()];
        let rest = retune_fields(order.drop_last(), table, preset);
        if ch.freq_hz != 0 {
            rest.push(tune_fields(ch.ssrc, Some(preset), ch.freq_hz))
        } else {
            rest
        }
    }
}

/// The table with the channels invalidated that are tuned and in `order`.
pub open spec fn invalidated_in(order: Seq<u32>, table: Map<u32, ChannelInfo>) -> Map<
    u32,
    ChannelInfo,
> {
    table.map_entries(
        |k: u32, ch: ChannelInfo|
            if ch.freq_hz != 0 && order.contains(k) {
                invalidated(ch)
            } else {
                ch
            },
    )
}

/// The table with all channels invalidated that are tuned.
pub open spec fn invalidated_tuned(table: Map<u32, ChannelInfo>) -> Map<u32, ChannelInfo> {
    table.map_values(
        |ch: ChannelInfo|
            if ch.freq_hz != 0 {
                invalidated(ch)
            } else {
                ch
            },
    )
}

/// Invalidates all channels that are tuned and gives the commands that tune them with a preset.
fn retune(table: &mut SsrcTable, preset: &str) -> (r: Vec<Vec<(StatusType, TlvValue)>>)
    requires
        consistent(old(table)@),
    ensures
        exists|order: Seq<u32>| #[trigger]
            walks(order, old(table)@) && commands_views(r@) == retune_fields(
                order,
                old(table)@,
                preset@,
            ),
        final(table)@ == invalidated_tuned(old(table)@),
{
    let order = table.ssrcs();
    let ghost before = table@;
    let mut commands: Vec<Vec<(StatusType, TlvValue)>> = Vec::new();
    let mut i: usize = 0;
    assert(commands_views(commands@) =~= retune_fields(order@.take(0), before, preset@));
    assert(table@ =~= invalidated_in(order@.take(0), before));
    while i < order.len()
        invariant
            i <= order@.len(),
            consistent(before),
            walks(order@, before),
            commands_views(commands@) == retune_fields(order@.take(i as int), before, preset@),
            table@ == invalidated_in(order@.take(i as int), before),
        decreases order@.len() - i,
    {
        let ghost sent = commands@;
        let ghost now = table@;
        let k: u32 = order[i];
        proof {
            assert(order@.to_set().contains(k));
            assert(before.contains_key(k));
            assert(!order@.take(i as int).contains(k));
            assert(order@.take(i + 1).drop_last() =~= order@.take(i as int));
            assert(order@.take(i + 1).last() == k);
            assert forall|x: u32| order@.take(i + 1).contains(x) <==> (order@.take(
                i as int,
            ).contains(x) || x == k) by {
                if order@.take(i as int).contains(x) {
                    let j = choose|j: int| 0 <= j < i && order@.take(i as int)[j] == x;
                    assert(order@.take(i + 1)[j] == x);
                }
                if x == k {
                    assert(order@.take(i + 1)[i as int] == x);
                }
            }
        }
        if let Some(ch) = table.get(k) {
            let ch: ChannelInfo = *ch;
            assert(ch == before[k]);
            if ch.freq_hz != 0 {
                let fields = tune_command(ch.ssrc, Some(preset), ch.freq_hz);
                commands.push(fields);
                table.invalidate(ch.ssrc);
                assert(commands_views(commands@) =~= commands_views(sent).push(
                    tune_fields(ch.ssrc, Some(preset@), ch.freq_hz),
                ));
            }
        }
        i = i + 1;
        assert(table@ =~= invalidated_in(order@.take(i as int), before));
    }
    proof {
        assert(order@.take(i as int) =~= order@);
        assert forall|k: u32| before.contains_key(k) implies order@.contains(k) by {
            assert(order@.to_set().contains(k));
        }
        assert(table@ =~= invalidated_tuned(before));
    }
    commands
}

/// What a command makes the bridge do at a sample rate: what it sends to radiod, how the table
/// changes before that, and which channel is noted as created afterwards. Channels are retuned in
/// no particular order.
pub open spec fn planned(
    before: Map<u32, ChannelInfo>,
    samprate: u32,
    preset_map: Map<u32, Seq<char>>,
    default_preset: Seq<char>,
    cmd: BridgeCmd,
    after: Map<u32, ChannelInfo>,
    commands: Seq<Seq<tlv::FieldView>>,
    created: Option<u32>,
) -> bool {
    match cmd {
        BridgeCmd::Tune { trx, vfo, freq_hz } => {
            let ch = channel_in(before, trx, vfo);
            let preset = preset_for(preset_map, samprate, default_preset);
            &&& after == before.insert(ssrc_of(trx, vfo), ch)
            &&& commands == seq![
                tune_fields(
                    ch.ssrc,
                    if ch.created {
                        None
                    } else {
                        Some(preset)
                    },
                    freq_hz,
                ),
            ]
            &&& created == (if ch.created {
                None
            } else {
                Some(ch.ssrc)
            })
        },
        BridgeCmd::SetSr { samprate: wanted } => {
            let preset = preset_for(preset_map, wanted, default_preset);
            &&& after == invalidated_tuned(before)
            &&& exists|order: Seq<u32>| #[trigger]
                walks(order, before) && commands == retune_fields(order, before, preset)
            &&& created == None::<u32>
        },
        BridgeCmd::EnableRx { .. } => {
            &&& after == before
            &&& commands == Seq::<Seq<tlv::FieldView>>::empty()
            &&& created == None::<u32>
        },
    }
}

/// Decides what to send to radiod for a command of a TCI client, with `samprate` the current sample
/// rate of the client's server.
///
/// A channel that is not created yet is sent a preset along with its frequency; the preset settles
/// its sample rate.
pub fn dispatch_cmd(
    table: &mut SsrcTable,
    samprate: u32,
    preset_map: &HashMap<u32, String>,
    default_preset: &str,
    cmd: BridgeCmd,
) -> (r: Plan)
    requires
        consistent(old(table)@),
    ensures
        planned(
            old(table)@,
            samprate,
            presets(preset_map@),
            default_preset@,
            cmd,
            final(table)@,
            commands_views(r.commands@),
            r.created,
        ),
        consistent(final(table)@),
{
    match cmd {
        BridgeCmd::Tune { trx, vfo, freq_hz } => {
            let preset = choose_preset(preset_map, samprate, default_preset);
            let ch: ChannelInfo = *table.get_or_insert(trx, vfo);
            let fields = tune_command(
                ch.ssrc,
                if ch.created {
                    None
                } else {
                    Some(preset)
                },
                freq_hz,
            );
            let mut commands: Vec<Vec<(StatusType, TlvValue)>> = Vec::new();
            let ghost sent = tlv::command_views(fields@);
            commands.push(fields);
            assert(commands_views(commands@) =~= seq![sent]);
            let created: Option<u32> = if ch.created {
                None
            } else {
                Some(ch.ssrc)
            };
            Plan { commands, created }
        },
        BridgeCmd::SetSr { samprate: wanted } => {
            let preset = choose_preset(preset_map, wanted, default_preset);
            let commands = retune(table, preset);
            Plan { commands, created: None }
        },
        BridgeCmd::EnableRx { .. } => {
            let commands: Vec<Vec<(StatusType, TlvValue)>> = Vec::new();
            assert(commands_views(commands@) =~= Seq::<Seq<tlv::FieldView>>::empty());
            Plan { commands, created: None }
        },
    }
}

// ---------------------------------------------------------------------------------------------
// Samples from radiod
// ---------------------------------------------------------------------------------------------

/// Whether some channel sends its samples to the group.
pub open spec fn in_use(table: Map<u32, ChannelInfo>, group: Ipv4Addr) -> bool {
    exists|k: u32| #[trigger] table.contains_key(k) && table[k].data_group == Some(group)
}

/// Whether the list holds the group.
fn holds(groups: &[Ipv4Addr], group: Ipv4Addr) -> (r: bool)
    ensures
        r == groups@.contains(group),
{
    let mut i: usize = 0;
    while i < groups.len()
        invariant
            i <= groups@.len(),
            forall|j: int| 0 <= j < i ==> groups@[j] != group,
        decreases groups@.len() - i,
    {
        if groups[i] == group {
            return true;
        }
        i = i + 1;
    }
    false
}

/// The data groups of the table that are not joined yet, each once, in no particular order.
pub fn new_groups(table: &SsrcTable, joined: &[Ipv4Addr]) -> (r: Vec<Ipv4Addr>)
    ensures
        r@.no_duplicates(),
        forall|g: Ipv4Addr| #[trigger]
            r@.contains(g) <==> in_use(table@, g) && !joined@.contains(g),
{
    let order = table.ssrcs();
    let mut out: Vec<Ipv4Addr> = Vec::new();
    let mut i: usize = 0;
    while i < order.len()
        invariant
            i <= order@.len(),
            walks(order@, table@),
            out@.no_duplicates(),
            forall|g: Ipv4Addr| #[trigger]
                out@.contains(g) ==> in_use(table@, g) && !joined@.contains(g),
            forall|j: int|
                0 <= j < i ==> (table@[#[trigger] order@[j]].data_group matches Some(g)
                    ==> out@.contains(g) || joined@.contains(g)),
        decreases order@.len() - i,
    {
        let k: u32 = order[i];
        let ghost before = out@;
        proof {
            assert(order@.to_set().contains(k));
            assert(table@.contains_key(k));
        }
        if let Some(ch) = table.get(k) {
            if let Some(g) = ch.data_group {
                if !holds(joined, g) && !holds(out.as_slice(), g) {
                    out.push(g);
                    proof {
                        assert(in_use(table@, g));
                        assert forall|x: Ipv4Addr| #[trigger] out@.contains(x) <==> before.contains(
                            x,
                        ) || x == g by {
                            if before.contains(x) {
                                let j = choose|j: int| 0 <= j < before.len() && before[j] == x;
                                assert(out@[j] == x);
                            }
                            if x == g {
                                assert(out@[before.len() as int] == x);
                            }
                        }
                    }
                }
            }
        }
        i = i + 1;
    }
    proof {
        assert forall|g: Ipv4Addr| in_use(table@, g) && !joined@.contains(g) implies
            #[trigger] out@.contains(g) by {
            let k = choose|k: u32| #[trigger]
                table@.contains_key(k) && table@[k].data_group == Some(g);
            assert(order@.to_set().contains(k));
            let j = choose|j: int| 0 <= j < order@.len() && order@[j] == k;
            assert(table@[order@[j]].data_group == Some(g));
        }
    }
    out
}

/// The signed 16-bit number in two bytes, the high one first.
pub open spec fn sample_at(payload: Seq<u8>, i: int) -> i16 {
    let v = payload[i] * 0x100 + payload[i + 1];
    if v >= 0x8000 {
        (v - 0x1_0000) as i16
    } else {
        v as i16
    }
}

/// The pairs (I, Q) in a payload of interleaved 16-bit samples, each as the bit pattern of the
/// sample divided by 32768. Bytes that make no whole pair are not used.
pub open spec fn samples_of(payload: Seq<u8>) -> Seq<(u32, u32)> {
    Seq::new(
        payload.len() / 4,
        |i: int|
            (
                ieee::sample_bits(sample_at(payload, 4 * i)),
                ieee::sample_bits(sample_at(payload, 4 * i + 2)),
            ),
    )
}

fn read_sample(payload: &[u8], i: usize) -> (r: i16)
    requires
        i + 2 <= payload@.len(),
    ensures
        r == sample_at(payload@, i as int),
{
    let v: i32 = payload[i] as i32 * 0x100 + payload[i + 1] as i32;
    if v >= 0x8000 {
        (v - 0x1_0000) as i16
    } else {
        v as i16
    }
}

/// Decodes interleaved 16-bit samples to pairs (I, Q) of single-precision numbers from -1 up to but
/// not including 1, given by their bit patterns.
pub fn decode_s16be_stereo(payload: &[u8]) -> (r: Vec<(u32, u32)>)
    ensures
        r@ == samples_of(payload@),
{
    let len: usize = payload.len();
    let n_pairs: usize = len / 4;
    let mut out: Vec<(u32, u32)> = Vec::new();
    let mut i: usize = 0;
    while i < n_pairs
        invariant
            i <= n_pairs,
            len == payload@.len(),
            n_pairs == len / 4,
            out@ == samples_of(payload@).take(i as int),
        decreases n_pairs - i,
    {
        let off: usize = i * 4;
        let i_bits: u32 = ieee::scale_sample(read_sample(payload, off));
        let q_bits: u32 = ieee::scale_sample(read_sample(payload, off + 2));
        out.push((i_bits, q_bits));
        i = i + 1;
        assert(out@ =~= samples_of(payload@).take(i as int));
    }
    assert(out@ =~= samples_of(payload@));
    out
}

/// Where the channels of a table belong: to the server with a number, whose receivers are numbered
/// from its first channel on.
#[derive(Debug, Clone, Copy, PartialEq, Eq, Structural)]
pub struct Place {
    pub endpoint: u8,
    pub first: u8,
}

/// What an RTP packet with the given header and samples is to the TCI clients of a server, at the
/// sample rate that is announced to them: the receiver and the bytes of an IQ frame; nothing if its
/// SSRC is not in the table of the server or it holds no samples.
pub open spec fn frame_of(
    ssrc: u32,
    samples: Seq<(u32, u32)>,
    table: Map<u32, ChannelInfo>,
    place: Place,
    samprate: u32,
) -> Option<(u32, Seq<u8>)> {
    if !table.contains_key(ssrc) || table[ssrc].trx < place.first || samples.len() == 0 {
        None
    } else {
        let trx = (table[ssrc].trx - place.first) as u32;
        Some((trx, protocol::iq_frame(trx, samprate, samples)))
    }
}

/// What an RTP packet is to the TCI clients of a server.
pub open spec fn ingested(
    packet: Seq<u8>,
    table: Map<u32, ChannelInfo>,
    place: Place,
    samprate: u32,
) -> Result<Option<(u32, Seq<u8>)>, RtpError> {
    match rtp::parsed(packet) {
        Err(e) => Err(e),
        Ok((header, start)) => Ok(
            frame_of(
                header.ssrc,
                samples_of(packet.skip(start as int)),
                table,
                place,
                samprate,
            ),
        ),
    }
}

/// Whether a frame is the expected one, to the clients of the given server; or there is none where
/// none is expected.
pub open spec fn is_frame(
    r: Option<IqFrame>,
    endpoint: u8,
    expected: Option<(u32, Seq<u8>)>,
) -> bool {
    match expected {
        None => r is None,
        Some((trx, data)) => r matches Some(frame) && frame.endpoint == endpoint && frame.trx == trx
            && frame.data@ == data,
    }
}

/// Makes an IQ frame of the payload of an RTP packet, which starts at `start`.
pub(crate) fn frame_from(
    packet: &[u8],
    ssrc: u32,
    start: usize,
    table: &SsrcTable,
    place: Place,
    samprate: u32,
) -> (r: Option<IqFrame>)
    requires
        start <= packet@.len(),
        protocol::STREAM_HEADER_SIZE + 2 * packet@.len() <= isize::MAX,
    ensures
        is_frame(
            r,
            place.endpoint,
            frame_of(ssrc, samples_of(packet@.skip(start as int)), table@, place, samprate),
        ),
{
    let channel: u8 = match table.get(ssrc) {
        Some(ch) => ch.trx,
        None => return None,
    };
    if channel < place.first {
        return None;
    }
    let trx: u32 = (channel - place.first) as u32;
    let payload = vstd::slice::slice_subrange(packet, start, packet.len());
    assert(payload@ =~= packet@.skip(start as int));
    let samples = decode_s16be_stereo(payload);
    if samples.len() == 0 {
        return None;
    }
    let data = protocol::build_iq_frame(trx, samprate, samples.as_slice());
    Some(IqFrame { endpoint: place.endpoint, trx, data })
}

/// Turns an RTP packet into an IQ frame for the TCI clients of the server whose channels the table
/// holds.
pub fn ingest_packet(packet: &[u8], table: &SsrcTable, place: Place, samprate: u32) -> (r: Result<
    Option<IqFrame>,
    RtpError,
>)
    requires
        protocol::STREAM_HEADER_SIZE + 2 * packet@.len() <= isize::MAX,
    ensures
        match ingested(packet@, table@, place, samprate) {
            Err(e) => r == Err::<Option<IqFrame>, RtpError>(e),
            Ok(expected) => r matches Ok(frame) && is_frame(frame, place.endpoint, expected),
        },
{
    match rtp::parse(packet) {
        Ok((header, start)) => Ok(
            frame_from(packet, header.ssrc, start, table, place, samprate),
        ),
        Err(e) => Err(e),
    }
}

// ---------------------------------------------------------------------------------------------
// Laws
// ---------------------------------------------------------------------------------------------

/// An SSRC is read back as the low four bits of the receiver and the VFO that it was made of; where
/// both fit in four bits, as they are.
pub proof fn law_ssrc_round_trip(trx: u8, vfo: u8)
    ensures
        ssrc_parts(ssrc_of(trx, vfo)) == Some(((trx % 16) as u8, (vfo % 16) as u8)),
        trx < 16 && vfo < 16 ==> ssrc_parts(ssrc_of(trx, vfo)) == Some((trx, vfo)),
{
    let ssrc = ssrc_of(trx, vfo);
    let t = (trx % 16) as int;
    let v = (vfo % 16) as int;
    assert(ssrc == 0x7C_1000 * 256 + (t * 16 + v));
    assert(ssrc as int / 256 == 0x7C_1000);
    assert(ssrc == (0x7C_1000 * 16 + t) * 16 + v);
    assert(ssrc as int / 16 == 0x7C_1000 * 16 + t);
    assert(ssrc as int % 16 == v);
}

/// An SSRC with the prefix is the one of the receiver and the VFO that it stands for.
pub proof fn law_ssrc_is_of_its_parts(ssrc: u32)
    ensures
        ssrc_parts(ssrc) matches Some(p) ==> p.0 < 16 && p.1 < 16 && ssrc_of(p.0, p.1) == ssrc,
{
    let s = ssrc as int;
    assert(s == (s / 16) * 16 + s % 16);
    assert(s / 16 == (s / 256) * 16 + (s / 16) % 16);
}

/// Receivers and VFOs that fit in four bits have SSRCs of their own.
pub proof fn law_ssrcs_differ(trx1: u8, vfo1: u8, trx2: u8, vfo2: u8)
    requires
        trx1 < 16,
        vfo1 < 16,
        trx2 < 16,
        vfo2 < 16,
        ssrc_of(trx1, vfo1) == ssrc_of(trx2, vfo2),
    ensures
        trx1 == trx2,
        vfo1 == vfo2,
{
    law_ssrc_round_trip(trx1, vfo1);
    law_ssrc_round_trip(trx2, vfo2);
}

/// The fields of a status packet do not touch what a channel is, nor whether a preset has been sent
/// for it.
pub proof fn law_status_keeps_identity(ch: ChannelInfo, fields: Seq<tlv::FieldView>)
    ensures
        with_fields(ch, fields).ssrc == ch.ssrc,
        with_fields(ch, fields).trx == ch.trx,
        with_fields(ch, fields).vfo == ch.vfo,
        with_fields(ch, fields).created == ch.created,
    decreases fields.len(),
{
    if fields.len() > 0 {
        law_status_keeps_identity(ch, fields.drop_last());
    }
}

/// Whether a field of a status packet says something of a channel: a frequency as a number with a
/// fraction, a sample rate as an integer, a data group as six bytes.
pub open spec fn usable(field: tlv::FieldView) -> bool {
    if field.tag == StatusType::RADIO_FREQUENCY.wire() {
        field.value is Double || field.value is Float
    } else if field.tag == StatusType::OUTPUT_SAMPRATE.wire() {
        field.value is Int
    } else if field.tag == StatusType::OUTPUT_DATA_DEST_SOCKET.wire() {
        field.value matches tlv::ValueView::Bytes(b) && b.len() == 6
    } else {
        false
    }
}

/// Whether one of the fields has the tag and says something of a channel.
pub open spec fn has_usable(fields: Seq<tlv::FieldView>, tag: StatusType) -> bool {
    exists|i: int|
        0 <= i < fields.len() && (#[trigger] fields[i]).tag == tag.wire() && usable(fields[i])
}

/// A field with another tag, or with a value of another kind than its tag asks for, changes
/// nothing.
pub proof fn law_unusable_field_changes_nothing(ch: ChannelInfo, field: tlv::FieldView)
    requires
        !usable(field),
    ensures
        with_field(ch, field) == ch,
{
}

/// What a status packet does not say, or says with a value of another kind, stays as it is.
pub proof fn law_missing_fields_keep_values(ch: ChannelInfo, fields: Seq<tlv::FieldView>)
    ensures
        !has_usable(fields, StatusType::RADIO_FREQUENCY) ==> with_fields(ch, fields).freq_hz
            == ch.freq_hz,
        !has_usable(fields, StatusType::OUTPUT_SAMPRATE) ==> with_fields(ch, fields).samprate
            == ch.samprate,
        !has_usable(fields, StatusType::OUTPUT_DATA_DEST_SOCKET) ==> with_fields(
            ch,
            fields,
        ).data_group == ch.data_group,
    decreases fields.len(),
{
    if fields.len() > 0 {
        let rest = fields.drop_last();
        law_missing_fields_keep_values(ch, rest);
        assert forall|tag: StatusType| #[trigger]
            has_usable(rest, tag) || (fields.last().tag == tag.wire() && usable(
                fields.last(),
            )) implies has_usable(fields, tag) by {
            if has_usable(rest, tag) {
                let i = choose|i: int|
                    0 <= i < rest.len() && (#[trigger] rest[i]).tag == tag.wire() && usable(
                        rest[i],
                    );
                assert(fields[i].tag == tag.wire() && usable(fields[i]));
            } else {
                assert(fields[fields.len() - 1].tag == tag.wire());
            }
        }
    }
}

/// Fields are taken one after the other.
proof fn lemma_fields_in_turn(
    ch: ChannelInfo,
    first: Seq<tlv::FieldView>,
    second: Seq<tlv::FieldView>,
)
    ensures
        with_fields(ch, first + second) == with_fields(with_fields(ch, first), second),
    decreases second.len(),
{
    if second.len() == 0 {
        assert(first + second =~= first);
    } else {
        lemma_fields_in_turn(ch, first, second.drop_last());
        assert((first + second).drop_last() =~= first + second.drop_last());
    }
}

/// Of several fields of a status packet that say the same thing of a channel, the last one counts.
pub proof fn law_last_usable_field_counts(
    ch: ChannelInfo,
    before: Seq<tlv::FieldView>,
    field: tlv::FieldView,
    behind: Seq<tlv::FieldView>,
)
    requires
        usable(field),
    ensures
        ({
            let all = with_fields(ch, before.push(field) + behind);
            let alone = with_field(ch, field);
            &&& field.tag == StatusType::RADIO_FREQUENCY.wire() && !has_usable(
                behind,
                StatusType::RADIO_FREQUENCY,
            ) ==> all.freq_hz == alone.freq_hz
            &&& field.tag == StatusType::OUTPUT_SAMPRATE.wire() && !has_usable(
                behind,
                StatusType::OUTPUT_SAMPRATE,
            ) ==> all.samprate == alone.samprate
            &&& field.tag == StatusType::OUTPUT_DATA_DEST_SOCKET.wire() && !has_usable(
                behind,
                StatusType::OUTPUT_DATA_DEST_SOCKET,
            ) ==> all.data_group == alone.data_group
        }),
{
    let so_far = with_fields(ch, before.push(field));
    assert(before.push(field).drop_last() =~= before);
    lemma_fields_in_turn(ch, before.push(field), behind);
    law_missing_fields_keep_values(so_far, behind);
}

/// A status packet touches no channel but the one that it names, and one that names no channel of
/// the bridge touches none.
pub proof fn law_status_touches_one_channel(
    table: Map<u32, ChannelInfo>,
    fields: Seq<tlv::FieldView>,
    k: u32,
)
    ensures
        control::status_ssrc(fields) != Some(k) ==> after_status(table, fields).contains_key(k)
            == table.contains_key(k) && (table.contains_key(k) ==> after_status(table, fields)[k]
            == table[k]),
        control::status_ssrc(fields) is None ==> after_status(table, fields) == table,
        (control::status_ssrc(fields) matches Some(s) && ssrc_parts(s) is None) ==> after_status(
            table,
            fields,
        ) == table,
{
}

/// A channel that is already known stays created, or not created, through any status packet, and a
/// channel that a status packet makes known is not created.
pub proof fn law_status_does_not_create(
    table: Map<u32, ChannelInfo>,
    fields: Seq<tlv::FieldView>,
    k: u32,
)
    requires
        after_status(table, fields).contains_key(k),
    ensures
        after_status(table, fields)[k].created == (table.contains_key(k) && table[k].created),
{
    if let Some(ssrc) = control::status_ssrc(fields) {
        if let Some((trx, vfo)) = ssrc_parts(ssrc) {
            law_ssrc_is_of_its_parts(ssrc);
            law_status_keeps_identity(channel_in(table, trx, vfo), fields);
        }
    }
}

/// In a table that is made by these operations alone, every channel stands under its own SSRC.
pub proof fn law_tables_stay_consistent(
    table: Map<u32, ChannelInfo>,
    fields: Seq<tlv::FieldView>,
    trx: u8,
    vfo: u8,
    k: u32,
)
    requires
        consistent(table),
    ensures
        consistent(Map::<u32, ChannelInfo>::empty()),
        consistent(table.insert(ssrc_of(trx, vfo), channel_in(table, trx, vfo))),
        consistent(after_status(table, fields)),
        table.contains_key(k) ==> consistent(table.insert(k, created(table[k]))) && consistent(
            table.insert(k, invalidated(table[k])),
        ),
        consistent(invalidated_tuned(table)),
{
    if let Some(ssrc) = control::status_ssrc(fields) {
        if let Some((t, v)) = ssrc_parts(ssrc) {
            law_ssrc_is_of_its_parts(ssrc);
            law_status_keeps_identity(channel_in(table, t, v), fields);
        }
    }
}

/// Asking twice for the channel of a VFO gives the same channel, and the table holds it once.
pub proof fn law_get_or_insert_is_idempotent(table: Map<u32, ChannelInfo>, trx: u8, vfo: u8)
    ensures
        ({
            let once = table.insert(ssrc_of(trx, vfo), channel_in(table, trx, vfo));
            &&& channel_in(once, trx, vfo) == channel_in(table, trx, vfo)
            &&& once.insert(ssrc_of(trx, vfo), channel_in(once, trx, vfo)) == once
        }),
{
    let once = table.insert(ssrc_of(trx, vfo), channel_in(table, trx, vfo));
    assert(once.insert(ssrc_of(trx, vfo), channel_in(once, trx, vfo)) =~= once);
}

/// The table once the channel of a plan is noted as created.
pub open spec fn with_created(table: Map<u32, ChannelInfo>, ssrc: Option<u32>) -> Map<
    u32,
    ChannelInfo,
> {
    match ssrc {
        Some(s) => if table.contains_key(s) {
            table.insert(s, created(table[s]))
        } else {
            table
        },
        None => table,
    }
}

/// A preset is sent once: when a VFO has been tuned, tuning it again sends its SSRC and its
/// frequency alone, whatever status packet comes in between.
pub proof fn law_preset_is_sent_once(
    table: Map<u32, ChannelInfo>,
    preset_map: Map<u32, Seq<char>>,
    default_preset: Seq<char>,
    trx: u8,
    vfo: u8,
    first: (u32, u64, Map<u32, ChannelInfo>, Seq<Seq<tlv::FieldView>>, Option<u32>),
    fields: Seq<tlv::FieldView>,
    second: (u32, u64, Map<u32, ChannelInfo>, Seq<Seq<tlv::FieldView>>, Option<u32>),
)
    requires
        consistent(table),
        planned(
            table,
            first.0,
            preset_map,
            default_preset,
            BridgeCmd::Tune { trx, vfo, freq_hz: first.1 },
            first.2,
            first.3,
            first.4,
        ),
        planned(
            after_status(with_created(first.2, first.4), fields),
            second.0,
            preset_map,
            default_preset,
            BridgeCmd::Tune { trx, vfo, freq_hz: second.1 },
            second.2,
            second.3,
            second.4,
        ),
    ensures
        second.3 == seq![tune_fields(ssrc_of(trx, vfo), None, second.1)],
        second.4 == None::<u32>,
{
    let marked = with_created(first.2, first.4);
    let k = ssrc_of(trx, vfo);
    assert(marked.contains_key(k) && marked[k].created && marked[k].ssrc == k);
    let later = after_status(marked, fields);
    law_status_touches_one_channel(marked, fields, k);
    if control::status_ssrc(fields) == Some(k) {
        law_ssrc_is_of_its_parts(k);
        if let Some((t, v)) = ssrc_parts(k) {
            law_status_keeps_identity(channel_in(marked, t, v), fields);
        }
    }
    assert(later.contains_key(k) && later[k].created && later[k].ssrc == k);
}

/// A change of the sample rate makes the next tuning of a tuned VFO send a preset again: the one of
/// the sample rate that then holds.
pub proof fn law_preset_is_sent_again_after_rate_change(
    table: Map<u32, ChannelInfo>,
    preset_map: Map<u32, Seq<char>>,
    default_preset: Seq<char>,
    trx: u8,
    vfo: u8,
    change: (u32, Map<u32, ChannelInfo>, Seq<Seq<tlv::FieldView>>, Option<u32>),
    tune: (u32, u64, Map<u32, ChannelInfo>, Seq<Seq<tlv::FieldView>>, Option<u32>),
)
    requires
        consistent(table),
        table.contains_key(ssrc_of(trx, vfo)),
        table[ssrc_of(trx, vfo)].freq_hz != 0,
        planned(
            table,
            change.0,
            preset_map,
            default_preset,
            BridgeCmd::SetSr { samprate: change.0 },
            change.1,
            change.2,
            change.3,
        ),
        planned(
            with_created(change.1, change.3),
            tune.0,
            preset_map,
            default_preset,
            BridgeCmd::Tune { trx, vfo, freq_hz: tune.1 },
            tune.2,
            tune.3,
            tune.4,
        ),
    ensures
        change.1[ssrc_of(trx, vfo)].data_group is None,
        tune.3 == seq![
            tune_fields(
                ssrc_of(trx, vfo),
                Some(preset_for(preset_map, tune.0, default_preset)),
                tune.1,
            ),
        ],
        tune.4 == Some(ssrc_of(trx, vfo)),
{
}

/// A change of the sample rate retunes each tuned channel once, with the preset of the new rate,
/// and no channel that is not tuned.
pub proof fn law_rate_change_retunes_tuned_channels(
    order: Seq<u32>,
    table: Map<u32, ChannelInfo>,
    preset: Seq<char>,
    k: u32,
)
    requires
        consistent(table),
        walks(order, table),
        table.contains_key(k),
    ensures
        retune_fields(order, table, preset).contains(
            tune_fields(k, Some(preset), table[k].freq_hz),
        ) == (table[k].freq_hz != 0),
        retune_fields(order, table, preset).len() == order.filter(
            |x: u32| table[x].freq_hz != 0,
        ).len(),
{
    assert(order.to_set().contains(k));
    assert forall|i: int| 0 <= i < order.len() implies table.contains_key(#[trigger] order[i]) by {
        assert(order.to_set().contains(order[i]));
    }
    lemma_retune_len(order, table, preset);
    lemma_retune_contains(order, table, preset, k, table[k].freq_hz);
}

proof fn lemma_retune_len(order: Seq<u32>, table: Map<u32, ChannelInfo>, preset: Seq<char>)
    ensures
        retune_fields(order, table, preset).len() == order.filter(
            |x: u32| table[x].freq_hz != 0,
        ).len(),
    decreases order.len(),
{
    reveal(Seq::filter);
    if order.len() > 0 {
        lemma_retune_len(order.drop_last(), table, preset);
    }
}

/// The fields of a tuning command tell its SSRC and its frequency pattern.
proof fn lemma_tune_fields_injective(
    s1: u32,
    p1: Seq<char>,
    f1: u64,
    s2: u32,
    p2: Seq<char>,
    f2: u64,
)
    requires
        tune_fields(s1, Some(p1), f1) == tune_fields(s2, Some(p2), f2),
    ensures
        s1 == s2,
{
    let a = tune_fields(s1, Some(p1), f1);
    let b = tune_fields(s2, Some(p2), f2);
    assert(a[0].value == tlv::ValueView::Int(s1 as u64));
    assert(b[0].value == tlv::ValueView::Int(s2 as u64));
}

proof fn lemma_retune_contains(
    order: Seq<u32>,
    table: Map<u32, ChannelInfo>,
    preset: Seq<char>,
    k: u32,
    freq_hz: u64,
)
    requires
        consistent(table),
        forall|i: int| 0 <= i < order.len() ==> table.contains_key(#[trigger] order[i]),
        table.contains_key(k),
        freq_hz == table[k].freq_hz,
    ensures
        retune_fields(order, table, preset).contains(tune_fields(k, Some(preset), freq_hz)) == (
        order.contains(k) && freq_hz != 0),
    decreases order.len(),
{
    let all = retune_fields(order, table, preset);
    let target = tune_fields(k, Some(preset), freq_hz);
    if order.len() > 0 {
        let rest = order.drop_last();
        let last = order.last();
        let some = retune_fields(rest, table, preset);
        assert(table.contains_key(order[order.len() - 1]));
        assert forall|i: int| 0 <= i < rest.len() implies table.contains_key(#[trigger] rest[i]) by {
            assert(rest[i] == order[i]);
        }
        lemma_retune_contains(rest, table, preset, k, freq_hz);
        if order.contains(k) {
            let i = choose|i: int| 0 <= i < order.len() && order[i] == k;
            if i < rest.len() {
                assert(rest[i] == k);
            }
        }
        if rest.contains(k) {
            let i = choose|i: int| 0 <= i < rest.len() && rest[i] == k;
            assert(order[i] == k);
        }
        if some.contains(target) {
            let j = choose|j: int| 0 <= j < some.len() && some[j] == target;
            assert(all[j] == target);
        }
        if all.contains(target) && !some.contains(target) {
            let j = choose|j: int| 0 <= j < all.len() && all[j] == target;
            if j < some.len() {
                assert(some[j] == target);
            }
            assert(all[j] == tune_fields(last, Some(preset), table[last].freq_hz));
            lemma_tune_fields_injective(
                last,
                preset,
                table[last].freq_hz,
                k,
                preset,
                freq_hz,
            );
            assert(order[order.len() - 1] == k);
        }
        if last == k && freq_hz != 0 {
            assert(all[all.len() - 1] == target);
            assert(order[order.len() - 1] == k);
        }
    }
}

/// A tuning command is read by radiod as it was meant: decoding the packet gives the fields, with a
/// preset whose length fits in four bytes.
pub proof fn law_tune_command_round_trip(
    tag: u32,
    ssrc: u32,
    preset: Option<Seq<char>>,
    freq_hz: u64,
    tail: Seq<u8>,
)
    requires
        preset matches Some(p) ==> vstd::utf8::encode_utf8(p).len() <= 0xFFFF_FFFF,
    ensures
        ({
            let fields = control::tagged(tag, tune_fields(ssrc, preset, freq_hz));
            tlv::packet_of(tlv::command_bytes(fields) + tail) == Ok::<
                (tlv::PktType, Seq<tlv::FieldView>),
                tlv::TlvError,
            >((tlv::PktType::Command, fields))
        }),
{
    let fields = control::tagged(tag, tune_fields(ssrc, preset, freq_hz));
    tlv::law_int_fits_eight_bytes(tag as u64);
    tlv::law_int_fits_eight_bytes(ssrc as u64);
    tlv::law_bits_round_trip(0, ieee::double_of(freq_hz));
    assert forall|i: int| 0 <= i < fields.len() implies tlv::writable(#[trigger] fields[i])
        && tlv::of_its_kind(fields[i]) by {}
    tlv::law_decode_undoes_build(fields, tail);
}

/// A frequency of at most 53 bits is known again when radiod reports the double-precision number
/// that tuned it.
pub proof fn law_reported_frequency_is_the_tuned_one(ch: ChannelInfo, freq_hz: u64)
    requires
        freq_hz <= 0x20_0000_0000_0000,
    ensures
        with_field(
            ch,
            (tlv::FieldView {
                tag: StatusType::RADIO_FREQUENCY.wire(),
                value: tlv::ValueView::Double(ieee::double_of(freq_hz)),
            }),
        ).freq_hz == freq_hz,
{
    ieee::law_double_round_trip(freq_hz);
}

/// Only packets of known channels become frames, for the receiver of the channel.
pub proof fn law_frames_are_of_known_channels(
    packet: Seq<u8>,
    table: Map<u32, ChannelInfo>,
    place: Place,
    samprate: u32,
)
    ensures
        ingested(packet, table, place, samprate) matches Ok(Some(p)) ==> (rtp::parsed(
            packet,
        ) matches Ok(h) && table.contains_key(h.0.ssrc) && place.first + p.0
            == table[h.0.ssrc].trx),
{
}

/// The bits of an SSRC: 0x7C1000, four bits of the receiver, four bits of the VFO. Nothing else is an
/// SSRC of the bridge.
pub proof fn law_ssrc_layout(trx: u8, vfo: u8, ssrc: u32)
    ensures
        ssrc_of(trx, vfo) == 0x7C10_0000 + 16 * (trx % 16) + vfo % 16,
        ssrc_parts(ssrc) is Some <==> 0x7C10_0000 <= ssrc <= 0x7C10_00FF,
        ssrc_parts(ssrc) matches Some(p) ==> 16 * p.0 + p.1 == ssrc - 0x7C10_0000 && p.1 < 16,
{
    law_ssrc_is_of_its_parts(ssrc);
    let s = ssrc as int;
    assert(s == (s / 256) * 256 + s % 256);
}

/// What is known of a channel that was just put into a table: its receiver and VFO alone.
pub proof fn law_new_channel_is_blank(table: Map<u32, ChannelInfo>, trx: u8, vfo: u8)
    ensures
        ({
            let ssrc = (0x7C10_0000 + 16 * (trx % 16) + vfo % 16) as u32;
            &&& table.contains_key(ssrc) ==> channel_in(table, trx, vfo) == table[ssrc]
            &&& !table.contains_key(ssrc) ==> channel_in(table, trx, vfo) == (ChannelInfo {
                ssrc,
                trx,
                vfo,
                freq_hz: 0,
                samprate: 0,
                data_group: None,
                created: false,
            })
        }),
{
    law_ssrc_layout(trx, vfo, 0);
}

/// What is noted of a channel when a preset has been sent for it, and when it has to be sent again.
pub proof fn law_notes_on_a_channel(ch: ChannelInfo)
    ensures
        created(ch) == (ChannelInfo { created: true, ..ch }),
        invalidated(ch) == (ChannelInfo { created: false, data_group: None, ..ch }),
{
}

/// What a field of a status packet says of a channel: under 33 the frequency, rounded to whole Hz,
/// under 20 the sample rate, under 17 the group, in the first four of six bytes. Each changes that
/// one thing, and no other field changes anything.
pub proof fn law_status_field_is_taken(
    ch: ChannelInfo,
    field: tlv::FieldView,
    double: u64,
    float: u32,
    v: u64,
    b: Seq<u8>,
)
    ensures
        field == (tlv::FieldView { tag: 33, value: tlv::ValueView::Double(double) }) ==> with_field(
            ch,
            field,
        ) == (ChannelInfo { freq_hz: ieee::double_rounded(double), ..ch }),
        field == (tlv::FieldView { tag: 33, value: tlv::ValueView::Float(float) }) ==> with_field(
            ch,
            field,
        ) == (ChannelInfo { freq_hz: ieee::float_rounded(float), ..ch }),
        field == (tlv::FieldView { tag: 20, value: tlv::ValueView::Int(v) }) ==> with_field(
            ch,
            field,
        ) == (ChannelInfo { samprate: (v % 0x1_0000_0000) as u32, ..ch }),
        field == (tlv::FieldView { tag: 17, value: tlv::ValueView::Bytes(b) }) && b.len() == 6
            ==> with_field(ch, field) == (ChannelInfo {
            data_group: Some(Ipv4Addr { a: b[0], b: b[1], c: b[2], d: b[3] }),
            ..ch
        }),
        !(field.tag == 33 && (field.value is Double || field.value is Float)) && !(field.tag == 20
            && field.value is Int) && !(field.tag == 17 && (field.value matches
            tlv::ValueView::Bytes(x) && x.len() == 6)) ==> with_field(ch, field) == ch,
{
}

/// The fields of a status packet are taken in order, one after the other, into the channel with the
/// SSRC that the packet names; a channel that is not known yet is put into the table. SSRCs that are
/// not of the bridge, and packets that name none, change nothing.
pub proof fn law_status_goes_to_its_channel(
    table: Map<u32, ChannelInfo>,
    ch: ChannelInfo,
    fields: Seq<tlv::FieldView>,
    field: tlv::FieldView,
)
    ensures
        with_fields(ch, Seq::empty()) == ch,
        with_fields(ch, fields.push(field)) == with_field(with_fields(ch, fields), field),
        match control::status_ssrc(fields) {
            None => after_status(table, fields) == table,
            Some(ssrc) => if 0x7C10_0000 <= ssrc <= 0x7C10_00FF {
                let known = if table.contains_key(ssrc) {
                    table[ssrc]
                } else {
                    ChannelInfo {
                        ssrc,
                        trx: ((ssrc - 0x7C10_0000) / 16) as u8,
                        vfo: ((ssrc - 0x7C10_0000) % 16) as u8,
                        freq_hz: 0,
                        samprate: 0,
                        data_group: None,
                        created: false,
                    }
                };
                after_status(table, fields) == table.insert(ssrc, with_fields(known, fields))
            } else {
                after_status(table, fields) == table
            },
        },
{
    assert(fields.push(field).drop_last() =~= fields);
    if let Some(ssrc) = control::status_ssrc(fields) {
        law_ssrc_layout(0, 0, ssrc);
        law_ssrc_is_of_its_parts(ssrc);
    }
}

/// A status datagram with an SSRC of the bridge, a frequency of eight bytes, a sample rate of four
/// bytes and a socket of six bytes, under the tags of radiod, leaves the channel with that frequency,
/// that sample rate and the group of that socket. Bytes behind EOL do not matter, and what else is
/// known of the channel stays.
pub proof fn law_status_datagram_tells_the_channel(
    table: Map<u32, ChannelInfo>,
    low: u8,
    freq: Seq<u8>,
    rate: Seq<u8>,
    socket: Seq<u8>,
    junk: Seq<u8>,
)
    requires
        freq.len() == 8,
        rate.len() == 4,
        socket.len() == 6,
    ensures
        ({
            let ssrc = (0x7C10_0000 + low) as u32;
            let data = seq![0u8] + (seq![18u8, 4u8] + seq![0x7Cu8, 0x10u8, 0u8, low] + (seq![
                33u8,
                8u8,
            ] + freq + (seq![20u8, 4u8] + rate + (seq![17u8, 6u8] + socket + (seq![0u8]
                + junk)))));
            &&& control::status_of(data) matches Ok(Some(fields))
            &&& control::status_ssrc(fields) == Some(ssrc)
            &&& after_status(table, fields).contains_key(ssrc)
            &&& {
                let ch = after_status(table, fields)[ssrc];
                &&& ch.freq_hz == ieee::double_rounded(tlv::be_value(freq) as u64)
                &&& ch.samprate == tlv::be_value(rate)
                &&& ch.data_group == Some(
                    Ipv4Addr { a: socket[0], b: socket[1], c: socket[2], d: socket[3] },
                )
                &&& ch.ssrc == (if table.contains_key(ssrc) {
                    table[ssrc].ssrc
                } else {
                    ssrc
                })
                &&& ch.trx == (if table.contains_key(ssrc) {
                    table[ssrc].trx
                } else {
                    low / 16
                })
                &&& ch.vfo == (if table.contains_key(ssrc) {
                    table[ssrc].vfo
                } else {
                    low % 16
                })
                &&& ch.created == (table.contains_key(ssrc) && table[ssrc].created)
            }
        }),
{
    let ssrc = (0x7C10_0000 + low) as u32;
    let a = seq![18u8, 4u8] + seq![0x7Cu8, 0x10u8, 0u8, low] + (seq![33u8, 8u8] + freq + (seq![
        20u8,
        4u8,
    ] + rate + (seq![17u8, 6u8] + socket + (seq![0u8] + junk))));
    let fields = told(low, freq, rate, socket);
    lemma_told_is_read(low, freq, rate, socket, junk);
    control::law_status_starts_with_zero(0, a);
    lemma_told_is_taken(table, low, freq, rate, socket);
}

/// The fields of a status packet that tells all of a channel.
spec fn told(low: u8, freq: Seq<u8>, rate: Seq<u8>, socket: Seq<u8>) -> Seq<tlv::FieldView> {
    seq![
        tlv::FieldView { tag: 18, value: tlv::ValueView::Int((0x7C10_0000 + low) as u64) },
        tlv::FieldView { tag: 33, value: tlv::ValueView::Double(tlv::be_value(freq) as u64) },
        tlv::FieldView { tag: 20, value: tlv::ValueView::Int(tlv::be_value(rate) as u64) },
        tlv::FieldView { tag: 17, value: tlv::ValueView::Bytes(socket) },
    ]
}

/// Those fields are what a reader finds.
proof fn lemma_told_is_read(
    low: u8,
    freq: Seq<u8>,
    rate: Seq<u8>,
    socket: Seq<u8>,
    junk: Seq<u8>,
)
    requires
        freq.len() == 8,
        rate.len() == 4,
        socket.len() == 6,
    ensures
        tlv::fields_at(
            seq![18u8, 4u8] + seq![0x7Cu8, 0x10u8, 0u8, low] + (seq![33u8, 8u8] + freq + (seq![
                20u8,
                4u8,
            ] + rate + (seq![17u8, 6u8] + socket + (seq![0u8] + junk)))),
        ) == Ok::<Seq<tlv::FieldView>, tlv::TlvError>(told(low, freq, rate, socket)),
{
    let name = seq![0x7Cu8, 0x10u8, 0u8, low];
    let end = seq![0u8] + junk;
    let d = seq![17u8, 6u8] + socket + end;
    let c = seq![20u8, 4u8] + rate + d;
    let b = seq![33u8, 8u8] + freq + c;
    let all = told(low, freq, rate, socket);
    let none = Seq::<tlv::FieldView>::empty();
    tlv::law_packet_is_type_and_fields(0, junk);
    assert(tlv::fields_at(d) == Ok::<Seq<tlv::FieldView>, tlv::TlvError>(seq![all[3]] + none)) by {
        tlv::law_values_by_tag(17, socket);
        tlv::law_short_field_is_read(17, socket, end);
    }
    assert(tlv::fields_at(c) == Ok::<Seq<tlv::FieldView>, tlv::TlvError>(
        seq![all[2]] + (seq![all[3]] + none),
    )) by {
        tlv::law_four_and_eight_bytes(rate);
        tlv::law_values_by_tag(20, rate);
        tlv::law_short_field_is_read(20, rate, d);
    }
    assert(tlv::fields_at(b) == Ok::<Seq<tlv::FieldView>, tlv::TlvError>(
        seq![all[1]] + (seq![all[2]] + (seq![all[3]] + none)),
    )) by {
        tlv::law_four_and_eight_bytes(freq);
        tlv::law_values_by_tag(33, freq);
        tlv::law_short_field_is_read(33, freq, c);
    }
    tlv::law_four_and_eight_bytes(name);
    tlv::law_values_by_tag(18, name);
    tlv::law_short_field_is_read(18, name, b);
    assert(seq![all[0]] + (seq![all[1]] + (seq![all[2]] + (seq![all[3]] + none))) =~= all);
}

/// Those fields leave their channel with what they tell.
proof fn lemma_told_is_taken(
    table: Map<u32, ChannelInfo>,
    low: u8,
    freq: Seq<u8>,
    rate: Seq<u8>,
    socket: Seq<u8>,
)
    requires
        rate.len() == 4,
        socket.len() == 6,
    ensures
        ({
            let ssrc = (0x7C10_0000 + low) as u32;
            let fields = told(low, freq, rate, socket);
            let known = if table.contains_key(ssrc) {
                table[ssrc]
            } else {
                ChannelInfo {
                    ssrc,
                    trx: low / 16,
                    vfo: low % 16,
                    freq_hz: 0,
                    samprate: 0,
                    data_group: None,
                    created: false,
                }
            };
            &&& control::status_ssrc(fields) == Some(ssrc)
            &&& tlv::be_value(rate) <= u32::MAX
            &&& after_status(table, fields) == table.insert(
                ssrc,
                ChannelInfo {
                    freq_hz: ieee::double_rounded(tlv::be_value(freq) as u64),
                    samprate: tlv::be_value(rate) as u32,
                    data_group: Some(
                        Ipv4Addr { a: socket[0], b: socket[1], c: socket[2], d: socket[3] },
                    ),
                    ..known
                },
            )
        }),
{
    let ssrc = (0x7C10_0000 + low) as u32;
    let fields = told(low, freq, rate, socket);
    let none = Seq::<tlv::FieldView>::empty();
    let (f1, f2, f3, f4) = (fields[0], fields[1], fields[2], fields[3]);
    control::law_first_ssrc_counts(fields, 0);
    tlv::law_four_and_eight_bytes(rate);
    assert(fields =~= none.push(f1).push(f2).push(f3).push(f4));
    let known = if table.contains_key(ssrc) {
        table[ssrc]
    } else {
        ChannelInfo {
            ssrc,
            trx: low / 16,
            vfo: low % 16,
            freq_hz: 0,
            samprate: 0,
            data_group: None,
            created: false,
        }
    };
    law_status_goes_to_its_channel(table, known, fields, f1);
    assert(after_status(table, fields) == table.insert(ssrc, with_fields(known, fields)));
    lemma_fields_one_by_one(known, f1, f2, f3, f4);
    lemma_told_one_by_one(known, low, freq, rate, socket);
}

/// What the four fields make of a channel.
proof fn lemma_told_one_by_one(
    ch: ChannelInfo,
    low: u8,
    freq: Seq<u8>,
    rate: Seq<u8>,
    socket: Seq<u8>,
)
    requires
        tlv::be_value(rate) <= u32::MAX,
        socket.len() == 6,
    ensures
        ({
            let f = told(low, freq, rate, socket);
            with_field(with_field(with_field(with_field(ch, f[0]), f[1]), f[2]), f[3])
                == (ChannelInfo {
                freq_hz: ieee::double_rounded(tlv::be_value(freq) as u64),
                samprate: tlv::be_value(rate) as u32,
                data_group: Some(
                    Ipv4Addr { a: socket[0], b: socket[1], c: socket[2], d: socket[3] },
                ),
                ..ch
            })
        }),
{
    let f = told(low, freq, rate, socket);
    let one = with_field(ch, f[0]);
    let two = with_field(one, f[1]);
    let three = with_field(two, f[2]);
    let double = tlv::be_value(freq) as u64;
    let v = tlv::be_value(rate) as u64;
    law_status_field_is_taken(ch, f[0], double, 0, v, socket);
    law_status_field_is_taken(one, f[1], double, 0, v, socket);
    law_status_field_is_taken(two, f[2], double, 0, v, socket);
    law_status_field_is_taken(three, f[3], double, 0, v, socket);
}

/// Four fields, taken one by one.
proof fn lemma_fields_one_by_one(
    ch: ChannelInfo,
    f1: tlv::FieldView,
    f2: tlv::FieldView,
    f3: tlv::FieldView,
    f4: tlv::FieldView,
)
    ensures
        with_fields(ch, Seq::empty().push(f1).push(f2).push(f3).push(f4)) == with_field(
            with_field(with_field(with_field(ch, f1), f2), f3),
            f4,
        ),
{
    let none = Seq::<tlv::FieldView>::empty();
    let one = none.push(f1);
    let two = one.push(f2);
    let three = two.push(f3);
    assert(one.drop_last() =~= none);
    assert(two.drop_last() =~= one);
    assert(three.drop_last() =~= two);
    assert(three.push(f4).drop_last() =~= three);
    assert(with_fields(ch, none) == ch);
    assert(with_fields(ch, one) == with_field(ch, f1));
    assert(with_fields(ch, two) == with_field(with_fields(ch, one), f2));
    assert(with_fields(ch, three) == with_field(with_fields(ch, two), f3));
}

/// The preset of a sample rate is the one that is given for it, and the default one where none is.
pub proof fn law_preset_of_a_rate(
    map: Map<u32, Seq<char>>,
    samprate: u32,
    default_preset: Seq<char>,
)
    ensures
        map.contains_key(samprate) ==> preset_for(map, samprate, default_preset) == map[samprate],
        !map.contains_key(samprate) ==> preset_for(map, samprate, default_preset)
            == default_preset,
{
}

/// The presets without configuration: those of 12, 48 and 96 kHz, and none of any other rate.
pub proof fn law_default_presets(samprate: u32)
    ensures
        default_presets().contains_key(samprate) <==> (samprate == 12_000 || samprate == 48_000
            || samprate == 96_000),
        default_presets()[12_000] == "iq"@,
        default_presets()[48_000] == "iq48"@,
        default_presets()[96_000] == "iq96"@,
{
}

/// A tuning command holds the SSRC under 18, the preset as UTF-8 under 85 if one is to be set, and the
/// frequency as a double under 33, in this order and nothing else.
pub proof fn law_fields_of_a_tuning(ssrc: u32, preset: Seq<char>, freq_hz: u64)
    ensures
        tune_fields(ssrc, None, freq_hz) == seq![
            tlv::FieldView { tag: 18, value: tlv::ValueView::Int(ssrc as u64) },
            tlv::FieldView { tag: 33, value: tlv::ValueView::Double(ieee::double_of(freq_hz)) },
        ],
        tune_fields(ssrc, Some(preset), freq_hz) == seq![
            tlv::FieldView { tag: 18, value: tlv::ValueView::Int(ssrc as u64) },
            tlv::FieldView {
                tag: 85,
                value: tlv::ValueView::Bytes(vstd::utf8::encode_utf8(preset)),
            },
            tlv::FieldView { tag: 33, value: tlv::ValueView::Double(ieee::double_of(freq_hz)) },
        ],
{
    assert(tune_fields(ssrc, None, freq_hz) =~= seq![
        tlv::FieldView { tag: 18, value: tlv::ValueView::Int(ssrc as u64) },
        tlv::FieldView { tag: 33, value: tlv::ValueView::Double(ieee::double_of(freq_hz)) },
    ]);
    assert(tune_fields(ssrc, Some(preset), freq_hz) =~= seq![
        tlv::FieldView { tag: 18, value: tlv::ValueView::Int(ssrc as u64) },
        tlv::FieldView { tag: 85, value: tlv::ValueView::Bytes(vstd::utf8::encode_utf8(preset)) },
        tlv::FieldView { tag: 33, value: tlv::ValueView::Double(ieee::double_of(freq_hz)) },
    ]);
}

/// Tuning sends one command, for the SSRC of the receiver and the VFO and with the frequency. Unless
/// a preset has been sent for that SSRC, the command holds the preset of the sample rate, and the
/// SSRC is noted. The channel is then in the table, and all that was there stays as it is.
pub proof fn law_tuning_sends_one_command(
    before: Map<u32, ChannelInfo>,
    samprate: u32,
    preset_map: Map<u32, Seq<char>>,
    default_preset: Seq<char>,
    trx: u8,
    vfo: u8,
    freq_hz: u64,
    after: Map<u32, ChannelInfo>,
    commands: Seq<Seq<tlv::FieldView>>,
    noted: Option<u32>,
)
    requires
        forall|k: u32| #[trigger] before.contains_key(k) ==> before[k].ssrc == k,
        planned(
            before,
            samprate,
            preset_map,
            default_preset,
            BridgeCmd::Tune { trx, vfo, freq_hz },
            after,
            commands,
            noted,
        ),
    ensures
        ({
            let ssrc = (0x7C10_0000 + 16 * (trx % 16) + vfo % 16) as u32;
            let sent = before.contains_key(ssrc) && before[ssrc].created;
            let preset = if preset_map.contains_key(samprate) {
                preset_map[samprate]
            } else {
                default_preset
            };
            let first = tlv::FieldView { tag: 18, value: tlv::ValueView::Int(ssrc as u64) };
            let last = tlv::FieldView {
                tag: 33,
                value: tlv::ValueView::Double(ieee::double_of(freq_hz)),
            };
            let middle = tlv::FieldView {
                tag: 85,
                value: tlv::ValueView::Bytes(vstd::utf8::encode_utf8(preset)),
            };
            &&& commands.len() == 1
            &&& sent ==> commands[0] == seq![first, last] && noted is None
            &&& !sent ==> commands[0] == seq![first, middle, last] && noted == Some(ssrc)
            &&& before.contains_key(ssrc) ==> after == before
            &&& !before.contains_key(ssrc) ==> after == before.insert(
                ssrc,
                ChannelInfo {
                    ssrc,
                    trx,
                    vfo,
                    freq_hz: 0,
                    samprate: 0,
                    data_group: None,
                    created: false,
                },
            )
        }),
{
    let preset = preset_for(preset_map, samprate, default_preset);
    law_ssrc_layout(trx, vfo, 0);
    law_preset_of_a_rate(preset_map, samprate, default_preset);
    law_fields_of_a_tuning(ssrc_of(trx, vfo), preset, freq_hz);
    law_new_channel_is_blank(before, trx, vfo);
    let ssrc = ssrc_of(trx, vfo);
    if before.contains_key(ssrc) {
        assert(after =~= before);
    }
}

/// A change of the sample rate sends one command for each channel that is tuned, with the preset of
/// the new rate and the frequency of the channel, and no other. Those channels wait for their preset
/// and their group again; the others stay as they are, and nothing is noted.
pub proof fn law_rate_change_sends_a_command_for_each_tuned_channel(
    before: Map<u32, ChannelInfo>,
    samprate: u32,
    preset_map: Map<u32, Seq<char>>,
    default_preset: Seq<char>,
    wanted: u32,
    after: Map<u32, ChannelInfo>,
    commands: Seq<Seq<tlv::FieldView>>,
    noted: Option<u32>,
    k: u32,
    i: int,
)
    requires
        consistent(before),
        planned(
            before,
            samprate,
            preset_map,
            default_preset,
            BridgeCmd::SetSr { samprate: wanted },
            after,
            commands,
            noted,
        ),
    ensures
        noted is None,
        commands.no_duplicates(),
        after.contains_key(k) == before.contains_key(k),
        ({
            let preset = if preset_map.contains_key(wanted) {
                preset_map[wanted]
            } else {
                default_preset
            };
            &&& before.contains_key(k) && before[k].freq_hz == 0 ==> after[k] == before[k]
            &&& before.contains_key(k) && before[k].freq_hz != 0 ==> after[k] == (ChannelInfo {
                created: false,
                data_group: None,
                ..before[k]
            }) && commands.contains(
                seq![
                    tlv::FieldView { tag: 18, value: tlv::ValueView::Int(k as u64) },
                    tlv::FieldView {
                        tag: 85,
                        value: tlv::ValueView::Bytes(vstd::utf8::encode_utf8(preset)),
                    },
                    tlv::FieldView {
                        tag: 33,
                        value: tlv::ValueView::Double(ieee::double_of(before[k].freq_hz)),
                    },
                ],
            )
            &&& 0 <= i < commands.len() ==> exists|x: u32| #[trigger]
                before.contains_key(x) && before[x].freq_hz != 0 && commands[i] == tune_fields(
                    x,
                    Some(preset),
                    before[x].freq_hz,
                )
        }),
{
    let preset = preset_for(preset_map, wanted, default_preset);
    law_preset_of_a_rate(preset_map, wanted, default_preset);
    let order = choose|order: Seq<u32>| #[trigger]
        walks(order, before) && commands == retune_fields(order, before, preset);
    assert forall|j: int| 0 <= j < order.len() implies before.contains_key(#[trigger] order[j]) by {
        assert(order.to_set().contains(order[j]));
    }
    lemma_retune_distinct(order, before, preset);
    if 0 <= i < commands.len() {
        lemma_retune_entry(order, before, preset, i);
    }
    if before.contains_key(k) {
        law_rate_change_retunes_tuned_channels(order, before, preset, k);
        law_fields_of_a_tuning(k, preset, before[k].freq_hz);
    }
}

/// Each retuning command is one of a tuned channel of the walk.
proof fn lemma_retune_entry(
    order: Seq<u32>,
    table: Map<u32, ChannelInfo>,
    preset: Seq<char>,
    i: int,
)
    requires
        consistent(table),
        forall|j: int| 0 <= j < order.len() ==> table.contains_key(#[trigger] order[j]),
        0 <= i < retune_fields(order, table, preset).len(),
    ensures
        exists|x: u32| #[trigger]
            table.contains_key(x) && table[x].freq_hz != 0 && retune_fields(
                order,
                table,
                preset,
            )[i] == tune_fields(x, Some(preset), table[x].freq_hz),
    decreases order.len(),
{
    let rest = order.drop_last();
    if i < retune_fields(rest, table, preset).len() {
        lemma_retune_entry(rest, table, preset, i);
    } else {
        assert(table.contains_key(order[order.len() - 1]));
    }
}

/// No two retuning commands of a walk are the same.
proof fn lemma_retune_distinct(order: Seq<u32>, table: Map<u32, ChannelInfo>, preset: Seq<char>)
    requires
        consistent(table),
        order.no_duplicates(),
        forall|j: int| 0 <= j < order.len() ==> table.contains_key(#[trigger] order[j]),
    ensures
        retune_fields(order, table, preset).no_duplicates(),
    decreases order.len(),
{
    if order.len() > 0 {
        let rest = order.drop_last();
        let k = order[order.len() - 1];
        assert(table.contains_key(k));
        assert forall|j: int| 0 <= j < rest.len() implies table.contains_key(#[trigger] rest[j]) by {
            assert(rest[j] == order[j]);
        }
        lemma_retune_distinct(rest, table, preset);
        lemma_retune_contains(rest, table, preset, k, table[k].freq_hz);
        assert(!rest.contains(k)) by {
            if rest.contains(k) {
                let j = choose|j: int| 0 <= j < rest.len() && rest[j] == k;
                assert(order[j] == order[order.len() - 1]);
            }
        }
        let some = retune_fields(rest, table, preset);
        let all = retune_fields(order, table, preset);
        let target = tune_fields(k, Some(preset), table[k].freq_hz);
        assert forall|a: int, b: int|
            0 <= a < all.len() && 0 <= b < all.len() && a != b implies all[a] != all[b] by {
            if a < some.len() {
                assert(some.contains(some[a]));
            }
            if b < some.len() {
                assert(some.contains(some[b]));
            }
        }
    }
}

/// Switching a VFO on or off sends nothing and changes nothing.
pub proof fn law_switching_sends_nothing(
    before: Map<u32, ChannelInfo>,
    samprate: u32,
    preset_map: Map<u32, Seq<char>>,
    default_preset: Seq<char>,
    trx: u8,
    vfo: u8,
    enable: bool,
    after: Map<u32, ChannelInfo>,
    commands: Seq<Seq<tlv::FieldView>>,
    noted: Option<u32>,
)
    requires
        planned(
            before,
            samprate,
            preset_map,
            default_preset,
            BridgeCmd::EnableRx { trx, vfo, enable },
            after,
            commands,
            noted,
        ),
    ensures
        after == before,
        commands.len() == 0,
        noted is None,
{
}

/// A group is in use where a channel sends to it, and only there.
pub proof fn law_groups_are_those_of_channels(
    table: Map<u32, ChannelInfo>,
    k: u32,
    group: Ipv4Addr,
)
    ensures
        table.contains_key(k) && table[k].data_group == Some(group) ==> in_use(table, group),
        (forall|x: u32| #[trigger] table.contains_key(x) ==> table[x].data_group != Some(group))
            ==> !in_use(table, group),
{
}

/// Every whole group of four bytes of a payload is one pair, and nothing else is. Half of a pair is
/// the signed number of its two bytes, the high one first, divided by 32768: a number with the sign
/// of that number, whose significand times two to its exponent is the magnitude divided by 2^15.
pub proof fn law_every_pair_is_decoded(payload: Seq<u8>, k: int, second: bool)
    ensures
        samples_of(payload).len() == payload.len() / 4,
        0 <= k < payload.len() / 4 ==> {
            let at = if second {
                4 * k + 2
            } else {
                4 * k
            };
            let bits = if second {
                samples_of(payload)[k].1
            } else {
                samples_of(payload)[k].0
            };
            let number = payload[at] * 256 + payload[at + 1] - (if payload[at] >= 128 {
                65_536int
            } else {
                0
            });
            let exponent = (bits / 0x80_0000) % 0x100;
            let significand = 0x80_0000 + bits % 0x80_0000;
            &&& number == 0 ==> bits == 0
            &&& number != 0 ==> {
                &&& bits >= 0x8000_0000 <==> number < 0
                &&& 112 <= exponent <= 127
                &&& significand == (if number < 0 {
                    -number
                } else {
                    number
                }) * vstd::arithmetic::power2::pow2((135 - exponent) as nat)
            }
        },
{
    if 0 <= k < payload.len() / 4 {
        let at = if second {
            4 * k + 2
        } else {
            4 * k
        };
        let sample = sample_at(payload, at);
        let number = payload[at] * 256 + payload[at + 1] - (if payload[at] >= 128 {
            65_536int
        } else {
            0
        });
        assert(sample == number);
        ieee::law_silence_is_zero();
        if sample != 0 {
            ieee::law_sample_is_exact(sample);
        }
    }
}

/// A packet of a channel that is known, with one whole pair at least, is a frame for the receiver of
/// the channel: 64 bytes of header and eight bytes for each four of the payload. The header tells the
/// receiver, the sample rate, and twice the number of pairs; pair `k` of the payload stands at its
/// place. Other packets are no frames, and what is no RTP packet is refused as such.
pub proof fn law_packet_becomes_a_frame(
    packet: Seq<u8>,
    table: Map<u32, ChannelInfo>,
    place: Place,
    samprate: u32,
    k: int,
)
    ensures
        match rtp::parsed(packet) {
            Err(e) => ingested(packet, table, place, samprate) == Err::<
                Option<(u32, Seq<u8>)>,
                RtpError,
            >(e),
            Ok((header, start)) => {
                let n = (packet.len() - start) / 4;
                let known = table.contains_key(header.ssrc) && table[header.ssrc].trx
                    >= place.first;
                &&& !known || n == 0 ==> ingested(packet, table, place, samprate) == Ok::<
                    Option<(u32, Seq<u8>)>,
                    RtpError,
                >(None)
                &&& known && n > 0 ==> (ingested(packet, table, place, samprate) matches Ok(
                    Some((trx, f)),
                ) && {
                    &&& trx == table[header.ssrc].trx - place.first
                    &&& f.len() == 64 + 8 * n
                    &&& protocol::le_value(f, 0) == trx
                    &&& protocol::le_value(f, 4) == samprate
                    &&& protocol::le_value(f, 20) == (2 * n) % 0x1_0000_0000
                    &&& 0 <= k < n ==> protocol::le_value(f, 64 + 8 * k) == samples_of(
                        packet.skip(start as int),
                    )[k].0 && protocol::le_value(f, 68 + 8 * k) == samples_of(
                        packet.skip(start as int),
                    )[k].1
                })
            },
        },
{
    if let Ok((header, start)) = rtp::parsed(packet) {
        rtp::law_payload_lies_in_packet(packet);
        let payload = packet.skip(start as int);
        law_every_pair_is_decoded(payload, k, false);
        if table.contains_key(header.ssrc) && table[header.ssrc].trx >= place.first {
            let trx = (table[header.ssrc].trx - place.first) as u32;
            protocol::law_frame_layout(trx, samprate, samples_of(payload), k);
        }
    }
}

/// A frame is the expected one where it is for the server, the receiver and with the bytes that are
/// expected; where none is expected there is none.
pub proof fn law_expected_frame(
    r: Option<IqFrame>,
    endpoint: u8,
    trx: u32,
    data: Seq<u8>,
)
    ensures
        is_frame(r, endpoint, None) ==> r is None,
        is_frame(r, endpoint, Some((trx, data))) ==> (r matches Some(frame) && frame.endpoint
            == endpoint && frame.trx == trx && frame.data@ == data),
{
}

/// A length of time is its seconds and its nanoseconds.
pub proof fn law_length_of_an_interval(t: Interval)
    ensures
        t.total_nanos() == 1_000_000_000 * t.secs + t.nanos,
        t.total_nanos() == 0 <==> t.secs == 0 && t.nanos == 0,
{
}

/// A walk over a table meets each of its SSRCs once and no other.
pub proof fn law_walk_over_a_table(order: Seq<u32>, table: Map<u32, ChannelInfo>, k: u32)
    requires
        walks(order, table),
    ensures
        order.no_duplicates(),
        order.contains(k) <==> table.contains_key(k),
{
    assert(order.to_set().contains(k) == order.contains(k));
}

/// In a consistent table each channel stands under the SSRC of its receiver and VFO, and knows it.
pub proof fn law_consistent_table(table: Map<u32, ChannelInfo>, k: u32)
    requires
        consistent(table),
        table.contains_key(k),
    ensures
        table[k].ssrc == k,
        k == 0x7C10_0000 + 16 * (table[k].trx % 16) + table[k].vfo % 16,
{
    law_ssrc_layout(table[k].trx, table[k].vfo, 0);
}

/// The view of presets holds each preset under its rate, and the view of commands each command in
/// order.
pub proof fn law_views_of_presets_and_commands(
    map: Map<u32, String>,
    rate: u32,
    commands: Seq<Vec<(StatusType, TlvValue)>>,
    i: int,
)
    ensures
        presets(map).contains_key(rate) == map.contains_key(rate),
        map.contains_key(rate) ==> presets(map)[rate] == map[rate]@,
        commands_views(commands).len() == commands.len(),
        0 <= i < commands.len() ==> commands_views(commands)[i] == tlv::command_views(commands[i]@),
{
}

} // verus!
