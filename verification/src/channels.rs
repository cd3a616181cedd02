//! The channels of radiod, shared out among the TCI servers.
//!
//! A channel is known to radiod by its SSRC, which holds a channel number of four bits. One server
//! alone has all the channels, its receivers numbered as the channels are. Several servers have
//! them one after the other, each as many as it has receivers; so the SSRC of a channel tells the
//! server that it belongs to. Receivers that come after the last channel number have no channel.

use std::collections::HashMap;

use vstd::prelude::*;

use crate::addr::Ipv4Addr;
use crate::bridge;
use crate::bridge::{BridgeCmd, ChannelInfo, Place, Plan, SsrcTable};
use crate::radiod::control;
use crate::radiod::rtp;
use crate::radiod::rtp::RtpError;
use crate::radiod::tlv;
use crate::radiod::tlv::{StatusType, TlvField};
use crate::tci::protocol;
use crate::tci::server;
use crate::tci::state::IqFrame;

verus! {

/// How many channels SSRCs can tell apart.
pub const CHANNEL_COUNT: u8 = 16;

/// The first channel of a server, where the servers have `counts` receivers.
pub open spec fn first_channel(counts: Seq<u8>, endpoint: int) -> nat
    decreases endpoint,
{
    if endpoint <= 0 {
        0
    } else {
        first_channel(counts, endpoint - 1) + counts[endpoint - 1] as nat
    }
}

/// The channel of a receiver of a server.
pub open spec fn channel_of(counts: Seq<u8>, endpoint: u8, trx: u8) -> Option<u8> {
    if endpoint >= counts.len() {
        None
    } else if counts.len() == 1 {
        Some(trx)
    } else {
        let channel = first_channel(counts, endpoint as int) + trx;
        if trx < counts[endpoint as int] && channel < CHANNEL_COUNT {
            Some(channel as u8)
        } else {
            None
        }
    }
}

/// Whether a channel number is one of a server.
pub open spec fn owns(counts: Seq<u8>, endpoint: int, channel: u8) -> bool {
    0 <= endpoint < counts.len() && (counts.len() == 1 || first_channel(counts, endpoint) <= channel
        < first_channel(counts, endpoint) + counts[endpoint])
}

/// Whether an SSRC is one of a server. One server alone sees every SSRC.
pub open spec fn owns_ssrc(counts: Seq<u8>, endpoint: int, ssrc: u32) -> bool {
    0 <= endpoint < counts.len() && (counts.len() == 1 || (bridge::ssrc_parts(ssrc) matches Some(p)
        && owns(counts, endpoint, p.0)))
}

/// Where the channels of a server are.
pub open spec fn place_of(counts: Seq<u8>, endpoint: int) -> Place {
    Place { endpoint: endpoint as u8, first: first_channel(counts, endpoint) as u8 }
}

/// A command of a server with the channel in place of the receiver; nothing where the receiver has
/// no channel.
pub open spec fn placed(counts: Seq<u8>, endpoint: u8, cmd: BridgeCmd) -> Option<BridgeCmd> {
    if endpoint >= counts.len() {
        None
    } else {
        match cmd {
            BridgeCmd::Tune { trx, vfo, freq_hz } => match channel_of(counts, endpoint, trx) {
                Some(channel) => Some(BridgeCmd::Tune { trx: channel, vfo, freq_hz }),
                None => None,
            },
            BridgeCmd::EnableRx { trx, vfo, enable } => match channel_of(counts, endpoint, trx) {
                Some(channel) => Some(BridgeCmd::EnableRx { trx: channel, vfo, enable }),
                None => None,
            },
            BridgeCmd::SetSr { .. } => Some(cmd),
        }
    }
}

/// The servers' numbers of receivers, and the table of each server.
#[verifier::ext_equal]
pub struct ChannelsView {
    pub counts: Seq<u8>,
    pub tables: Seq<Map<u32, ChannelInfo>>,
}

impl ChannelsView {
    /// Whether every server has a table of its own, with no channel of another server in it.
    pub open spec fn valid(self) -> bool {
        &&& self.tables.len() == self.counts.len()
        &&& 1 <= self.counts.len() <= u8::MAX
        &&& forall|e: int|
            0 <= e < self.tables.len() ==> bridge::consistent(#[trigger] self.tables[e]) && own(
                self.counts,
                e,
                self.tables[e],
            )
    }

    /// After a status packet: it goes into the table of the server that its SSRC is one of.
    pub open spec fn after_status(self, fields: Seq<tlv::FieldView>) -> ChannelsView {
        ChannelsView {
            counts: self.counts,
            tables: self.tables.map(
                |e: int, table: Map<u32, ChannelInfo>|
                    if control::status_ssrc(fields) matches Some(ssrc) && owns_ssrc(
                        self.counts,
                        e,
                        ssrc,
                    ) {
                        bridge::after_status(table, fields)
                    } else {
                        table
                    },
            ),
        }
    }
}

/// Whether all channels of a table are those of the server.
pub open spec fn own(counts: Seq<u8>, endpoint: int, table: Map<u32, ChannelInfo>) -> bool {
    counts.len() > 1 ==> forall|k: u32| #[trigger]
        table.contains_key(k) ==> table[k].trx < CHANNEL_COUNT && owns(
            counts,
            endpoint,
            table[k].trx,
        )
}

/// The tables, as maps.
pub open spec fn table_views(tables: Seq<SsrcTable>) -> Seq<Map<u32, ChannelInfo>> {
    tables.map_values(|t: SsrcTable| t@)
}

/// What the bridge knows of the channels of all servers.
#[derive(Debug)]
pub struct Channels {
    counts: Vec<u8>,
    tables: Vec<SsrcTable>,
}

impl View for Channels {
    type V = ChannelsView;

    closed spec fn view(&self) -> ChannelsView {
        ChannelsView { counts: self.counts@, tables: table_views(self.tables@) }
    }
}

/// No server has its first channel beyond what sixteen bits hold.
proof fn lemma_first_channel_bounded(counts: Seq<u8>, endpoint: int)
    requires
        0 <= endpoint <= counts.len(),
    ensures
        first_channel(counts, endpoint) <= 255 * endpoint,
    decreases endpoint,
{
    if endpoint > 0 {
        lemma_first_channel_bounded(counts, endpoint - 1);
    }
}

/// The channels of a server end before those of a later one start.
proof fn lemma_servers_in_order(counts: Seq<u8>, a: int, b: int)
    requires
        0 <= a < b <= counts.len(),
    ensures
        first_channel(counts, a) + counts[a] <= first_channel(counts, b),
    decreases b - a,
{
    if a + 1 < b {
        lemma_servers_in_order(counts, a, b - 1);
    }
}

impl Channels {
    /// For servers with the given numbers of receivers, before anything is known of the channels.
    pub fn new(counts: &[u8]) -> (r: Channels)
        requires
            1 <= counts@.len() <= u8::MAX,
        ensures
            r@.counts == counts@,
            r@.tables == Seq::new(counts@.len(), |e: int| Map::<u32, ChannelInfo>::empty()),
            r@.valid(),
    {
        let mut own_counts: Vec<u8> = Vec::new();
        let mut tables: Vec<SsrcTable> = Vec::new();
        let mut i: usize = 0;
        while i < counts.len()
            invariant
                i <= counts@.len(),
                own_counts@ == counts@.take(i as int),
                table_views(tables@) == Seq::new(
                    i as nat,
                    |e: int| Map::<u32, ChannelInfo>::empty(),
                ),
            decreases counts@.len() - i,
        {
            own_counts.push(counts[i]);
            let ghost before = tables@;
            tables.push(SsrcTable::new());
            i = i + 1;
            assert(own_counts@ =~= counts@.take(i as int));
            assert(table_views(tables@) =~= table_views(before).push(
                Map::<u32, ChannelInfo>::empty(),
            ));
            assert(table_views(tables@) =~= Seq::new(
                i as nat,
                |e: int| Map::<u32, ChannelInfo>::empty(),
            ));
        }
        assert(own_counts@ =~= counts@);
        Channels { counts: own_counts, tables }
    }

    /// The tables of the servers, in order.
    pub fn tables(&self) -> (r: &Vec<SsrcTable>)
        ensures
            table_views(r@) == self@.tables,
    {
        &self.tables
    }

    /// The first channel of a server.
    fn first(&self, endpoint: usize) -> (r: u32)
        requires
            self@.valid(),
            endpoint <= self@.counts.len(),
        ensures
            r == first_channel(self@.counts, endpoint as int),
    {
        let mut first: u32 = 0;
        let mut i: usize = 0;
        while i < endpoint
            invariant
                i <= endpoint <= self.counts@.len() <= u8::MAX,
                first == first_channel(self.counts@, i as int),
            decreases endpoint - i,
        {
            proof {
                lemma_first_channel_bounded(self.counts@, i as int);
            }
            first = first + self.counts[i] as u32;
            i = i + 1;
        }
        first
    }

    /// The channel of a receiver of a server.
    pub fn channel(&self, endpoint: u8, trx: u8) -> (r: Option<u8>)
        requires
            self@.valid(),
        ensures
            r == channel_of(self@.counts, endpoint, trx),
    {
        let e: usize = endpoint as usize;
        if e >= self.counts.len() {
            return None;
        }
        if self.counts.len() == 1 {
            return Some(trx);
        }
        proof {
            lemma_first_channel_bounded(self.counts@, e as int);
        }
        let channel: u32 = self.first(e) + trx as u32;
        if trx < self.counts[e] && channel < CHANNEL_COUNT as u32 {
            Some(channel as u8)
        } else {
            None
        }
    }

    /// The server that an SSRC is one of.
    fn owner(&self, ssrc: u32) -> (r: Option<usize>)
        requires
            self@.valid(),
        ensures
            r matches Some(e) ==> owns_ssrc(self@.counts, e as int, ssrc),
            r is None ==> forall|e: int| !owns_ssrc(self@.counts, e, ssrc),
    {
        if self.counts.len() == 1 {
            assert(owns_ssrc(self@.counts, 0, ssrc));
            return Some(0);
        }
        let channel: u32 = match bridge::ssrc_decode(ssrc) {
            Some((channel, _)) => channel as u32,
            None => return None,
        };
        let mut first: u32 = 0;
        let mut i: usize = 0;
        while i < self.counts.len()
            invariant
                i <= self.counts@.len() <= u8::MAX,
                self.counts@.len() > 1,
                bridge::ssrc_parts(ssrc) matches Some(p) && p.0 == channel,
                first == first_channel(self.counts@, i as int),
                forall|e: int| 0 <= e < i ==> !owns_ssrc(self.counts@, e, ssrc),
            decreases self.counts@.len() - i,
        {
            proof {
                lemma_first_channel_bounded(self.counts@, i as int);
            }
            let next: u32 = first + self.counts[i] as u32;
            if first <= channel && channel < next {
                return Some(i);
            }
            first = next;
            i = i + 1;
        }
        None
    }

    /// Takes the fields of a status packet into the table of the server that they are of.
    pub fn update_from_status(&mut self, fields: &[TlvField])
        requires
            old(self)@.valid(),
        ensures
            final(self)@ == old(self)@.after_status(tlv::field_views(fields@)),
            final(self)@.valid(),
    {
        let ghost views = tlv::field_views(fields@);
        let ghost before = self@;
        let ssrc: u32 = match control::find_ssrc(fields) {
            Some(s) => s,
            None => {
                assert(before.after_status(views) =~= before);
                return;
            },
        };
        let e: usize = match self.owner(ssrc) {
            Some(e) => e,
            None => {
                assert(before.after_status(views) =~= before);
                return;
            },
        };
        self.tables[e].update_from_status(fields);
        proof {
            assert(self@.tables =~= before.tables.update(
                e as int,
                bridge::after_status(before.tables[e as int], views),
            ));
            assert forall|x: int| owns_ssrc(before.counts, x, ssrc) implies x == e by {
                law_one_owner(before.counts, x, e as int, ssrc);
            }
            assert(self@ =~= before.after_status(views));
            lemma_status_stays_own(before.counts, e as int, before.tables[e as int], views);
        }
    }

    /// Notes that a preset has been sent for a channel of a server.
    pub fn mark_created(&mut self, endpoint: u8, ssrc: u32)
        requires
            old(self)@.valid(),
        ensures
            final(self)@.counts == old(self)@.counts,
            final(self)@.tables == (if endpoint < old(self)@.tables.len() && old(
                self,
            )@.tables[endpoint as int].contains_key(ssrc) {
                let table = old(self)@.tables[endpoint as int];
                old(self)@.tables.update(
                    endpoint as int,
                    table.insert(ssrc, bridge::created(table[ssrc])),
                )
            } else {
                old(self)@.tables
            }),
            final(self)@.valid(),
    {
        let ghost before = self@;
        let e: usize = endpoint as usize;
        if e < self.tables.len() {
            self.tables[e].mark_created(ssrc);
            assert(self@.tables =~= before.tables.update(e as int, self@.tables[e as int]));
        }
    }

    /// Decides what to send to radiod for a command of a client of a server, with `samprate` the
    /// current sample rate of the server. Only channels of the server are tuned; a receiver without
    /// a channel is not.
    pub fn dispatch(
        &mut self,
        endpoint: u8,
        samprate: u32,
        preset_map: &HashMap<u32, String>,
        default_preset: &str,
        cmd: BridgeCmd,
    ) -> (r: Plan)
        requires
            old(self)@.valid(),
        ensures
            final(self)@.valid(),
            final(self)@.counts == old(self)@.counts,
            match placed(old(self)@.counts, endpoint, cmd) {
                Some(on_channel) => {
                    &&& bridge::planned(
                        old(self)@.tables[endpoint as int],
                        samprate,
                        bridge::presets(preset_map@),
                        default_preset@,
                        on_channel,
                        final(self)@.tables[endpoint as int],
                        bridge::commands_views(r.commands@),
                        r.created,
                    )
                    &&& final(self)@.tables == old(self)@.tables.update(
                        endpoint as int,
                        final(self)@.tables[endpoint as int],
                    )
                },
                None => {
                    &&& final(self)@.tables == old(self)@.tables
                    &&& r.commands@.len() == 0
                    &&& r.created is None
                },
            },
    {
        let ghost before = self@;
        let e: usize = endpoint as usize;
        if e >= self.tables.len() {
            return Plan { commands: Vec::new(), created: None };
        }
        let on_channel: BridgeCmd = match cmd {
            BridgeCmd::Tune { trx, vfo, freq_hz } => match self.channel(endpoint, trx) {
                Some(channel) => BridgeCmd::Tune { trx: channel, vfo, freq_hz },
                None => return Plan { commands: Vec::new(), created: None },
            },
            BridgeCmd::EnableRx { trx, vfo, enable } => match self.channel(endpoint, trx) {
                Some(channel) => BridgeCmd::EnableRx { trx: channel, vfo, enable },
                None => return Plan { commands: Vec::new(), created: None },
            },
            BridgeCmd::SetSr { .. } => cmd,
        };
        assert(bridge::consistent(before.tables[e as int]));
        let plan = bridge::dispatch_cmd(
            &mut self.tables[e],
            samprate,
            preset_map,
            default_preset,
            on_channel,
        );
        proof {
            assert(self@.tables =~= before.tables.update(e as int, self@.tables[e as int]));
            lemma_plan_stays_own(
                before.counts,
                endpoint,
                before.tables[e as int],
                samprate,
                bridge::presets(preset_map@),
                default_preset@,
                cmd,
                self@.tables[e as int],
                bridge::commands_views(plan.commands@),
                plan.created,
            );
        }
        plan
    }

    /// The data groups of all channels that are not joined yet, each once, in no particular order.
    pub fn new_groups(&self, joined: &[Ipv4Addr]) -> (r: Vec<Ipv4Addr>)
        ensures
            r@.no_duplicates(),
            forall|g: Ipv4Addr| #[trigger]
                r@.contains(g) <==> in_use(self@.tables, g) && !joined@.contains(g),
    {
        let mut out: Vec<Ipv4Addr> = Vec::new();
        let mut known: Vec<Ipv4Addr> = Vec::new();
        append(&mut known, joined);
        assert(known@ =~= joined@ + out@);
        let ghost tables = self@.tables;
        let mut e: usize = 0;
        while e < self.tables.len()
            invariant
                e <= self.tables@.len(),
                tables == table_views(self.tables@),
                known@ == joined@ + out@,
                out@.no_duplicates(),
                forall|g: Ipv4Addr| #[trigger]
                    out@.contains(g) <==> in_use(tables.take(e as int), g) && !joined@.contains(g),
            decreases self.tables@.len() - e,
        {
            let found = bridge::new_groups(&self.tables[e], known.as_slice());
            proof {
                lemma_groups_of_one_more(tables, e as int, joined@, out@, found@);
            }
            append(&mut known, found.as_slice());
            append(&mut out, found.as_slice());
            e = e + 1;
            assert(known@ =~= joined@ + out@);
        }
        assert(tables.take(e as int) =~= tables);
        out
    }

    /// Turns an RTP packet into an IQ frame for the TCI clients of the server that its channel
    /// belongs to, at the sample rate of that server.
    pub fn ingest(&self, packet: &[u8], samprates: &[u32]) -> (r: Result<
        Option<IqFrame>,
        RtpError,
    >)
        requires
            self@.valid(),
            samprates@.len() == self@.counts.len(),
            protocol::STREAM_HEADER_SIZE + 2 * packet@.len() <= isize::MAX,
        ensures
            match rtp::parsed(packet@) {
                Err(e) => r == Err::<Option<IqFrame>, RtpError>(e),
                Ok((header, start)) => r matches Ok(frame) && {
                    let samples = bridge::samples_of(packet@.skip(start as int));
                    &&& forall|e: int| #[trigger]
                        owns_ssrc(self@.counts, e, header.ssrc) ==> bridge::is_frame(
                            frame,
                            e as u8,
                            bridge::frame_of(
                                header.ssrc,
                                samples,
                                self@.tables[e],
                                place_of(self@.counts, e),
                                samprates@[e],
                            ),
                        )
                    &&& (forall|e: int| !owns_ssrc(self@.counts, e, header.ssrc)) ==> frame is None
                },
            },
    {
        let (header, start) = match rtp::parse(packet) {
            Ok(p) => p,
            Err(e) => return Err(e),
        };
        let e: usize = match self.owner(header.ssrc) {
            Some(e) => e,
            None => return Ok(None),
        };
        proof {
            assert forall|x: int| owns_ssrc(self@.counts, x, header.ssrc) implies x == e by {
                law_one_owner(self@.counts, x, e as int, header.ssrc);
            }
            bridge::law_ssrc_is_of_its_parts(header.ssrc);
        }
        let place = Place { endpoint: e as u8, first: self.first(e) as u8 };
        let frame = bridge::frame_from(
            packet,
            header.ssrc,
            start,
            &self.tables[e],
            place,
            samprates[e],
        );
        Ok(frame)
    }
}

/// Puts the groups behind those that are there.
fn append(groups: &mut Vec<Ipv4Addr>, more: &[Ipv4Addr])
    ensures
        final(groups)@ == old(groups)@ + more@,
{
    let ghost before = groups@;
    let mut i: usize = 0;
    while i < more.len()
        invariant
            i <= more@.len(),
            groups@ == before + more@.take(i as int),
        decreases more@.len() - i,
    {
        groups.push(more[i]);
        i = i + 1;
        assert(groups@ =~= before + more@.take(i as int));
    }
    assert(groups@ =~= before + more@);
}

/// Whether some channel sends its samples to the group.
pub open spec fn in_use(tables: Seq<Map<u32, ChannelInfo>>, group: Ipv4Addr) -> bool {
    exists|e: int| 0 <= e < tables.len() && bridge::in_use(#[trigger] tables[e], group)
}

/// A status packet brings no channel of another server into a table.
proof fn lemma_status_stays_own(
    counts: Seq<u8>,
    endpoint: int,
    table: Map<u32, ChannelInfo>,
    fields: Seq<tlv::FieldView>,
)
    requires
        own(counts, endpoint, table),
        control::status_ssrc(fields) matches Some(ssrc) && owns_ssrc(counts, endpoint, ssrc),
    ensures
        own(counts, endpoint, bridge::after_status(table, fields)),
{
    let ssrc = control::status_ssrc(fields)->0;
    if let Some((trx, vfo)) = bridge::ssrc_parts(ssrc) {
        bridge::law_status_keeps_identity(bridge::channel_in(table, trx, vfo), fields);
    }
}

/// A command brings no channel of another server into a table.
proof fn lemma_plan_stays_own(
    counts: Seq<u8>,
    endpoint: u8,
    before: Map<u32, ChannelInfo>,
    samprate: u32,
    preset_map: Map<u32, Seq<char>>,
    default_preset: Seq<char>,
    cmd: BridgeCmd,
    after: Map<u32, ChannelInfo>,
    commands: Seq<Seq<tlv::FieldView>>,
    created: Option<u32>,
)
    requires
        own(counts, endpoint as int, before),
        placed(counts, endpoint, cmd) matches Some(on_channel) && bridge::planned(
            before,
            samprate,
            preset_map,
            default_preset,
            on_channel,
            after,
            commands,
            created,
        ),
    ensures
        own(counts, endpoint as int, after),
{
}

/// What two lists hold together.
proof fn lemma_in_either(a: Seq<Ipv4Addr>, b: Seq<Ipv4Addr>, g: Ipv4Addr)
    ensures
        (a + b).contains(g) <==> a.contains(g) || b.contains(g),
{
    if a.contains(g) {
        let i = choose|i: int| 0 <= i < a.len() && a[i] == g;
        assert((a + b)[i] == g);
    }
    if b.contains(g) {
        let i = choose|i: int| 0 <= i < b.len() && b[i] == g;
        assert((a + b)[a.len() + i] == g);
    }
}

/// The groups of one more table, joined to those of the tables before it.
proof fn lemma_groups_of_one_more(
    tables: Seq<Map<u32, ChannelInfo>>,
    e: int,
    joined: Seq<Ipv4Addr>,
    out: Seq<Ipv4Addr>,
    found: Seq<Ipv4Addr>,
)
    requires
        0 <= e < tables.len(),
        out.no_duplicates(),
        found.no_duplicates(),
        forall|g: Ipv4Addr| #[trigger]
            out.contains(g) <==> in_use(tables.take(e), g) && !joined.contains(g),
        forall|g: Ipv4Addr| #[trigger]
            found.contains(g) <==> bridge::in_use(tables[e], g) && !(joined + out).contains(g),
    ensures
        (out + found).no_duplicates(),
        forall|g: Ipv4Addr| #[trigger]
            (out + found).contains(g) <==> in_use(tables.take(e + 1), g) && !joined.contains(g),
{
    assert forall|g: Ipv4Addr|
        #![trigger (joined + out).contains(g)]
        #![trigger (out + found).contains(g)]
        ((joined + out).contains(g) <==> joined.contains(g) || out.contains(g)) && ((out
            + found).contains(g) <==> out.contains(g) || found.contains(g)) by {
        lemma_in_either(joined, out, g);
        lemma_in_either(out, found, g);
    }
    assert forall|g: Ipv4Addr| in_use(tables.take(e + 1), g) <==> in_use(tables.take(e), g)
        || bridge::in_use(tables[e], g) by {
        if in_use(tables.take(e), g) {
            let i = choose|i: int| 0 <= i < e && bridge::in_use(#[trigger] tables.take(e)[i], g);
            assert(bridge::in_use(tables.take(e + 1)[i], g));
        }
        if bridge::in_use(tables[e], g) {
            assert(bridge::in_use(tables.take(e + 1)[e], g));
        }
        if in_use(tables.take(e + 1), g) {
            let i = choose|i: int|
                0 <= i < e + 1 && bridge::in_use(#[trigger] tables.take(e + 1)[i], g);
            assert(i < e ==> bridge::in_use(tables.take(e)[i], g));
        }
    }
    assert forall|i: int, j: int|
        0 <= i < (out + found).len() && 0 <= j < (out + found).len() && i != j implies (out
        + found)[i] != (out + found)[j] by {
        if i < out.len() && j >= out.len() {
            assert(out.contains(out[i]));
            assert(found.contains(found[j - out.len()]));
        }
        if j < out.len() && i >= out.len() {
            assert(out.contains(out[j]));
            assert(found.contains(found[i - out.len()]));
        }
    }
}

// ---------------------------------------------------------------------------------------------
// Laws
// ---------------------------------------------------------------------------------------------

/// An SSRC is one of no more than one server.
pub proof fn law_one_owner(counts: Seq<u8>, a: int, b: int, ssrc: u32)
    requires
        owns_ssrc(counts, a, ssrc),
        owns_ssrc(counts, b, ssrc),
    ensures
        a == b,
{
    if a < b {
        lemma_servers_in_order(counts, a, b);
    } else if b < a {
        lemma_servers_in_order(counts, b, a);
    }
}

/// The channel of a receiver is one of its server, in the place of the receiver; and so is the SSRC
/// of each of its VFOs.
pub proof fn law_channel_is_of_its_server(counts: Seq<u8>, endpoint: u8, trx: u8, vfo: u8)
    requires
        channel_of(counts, endpoint, trx) is Some,
    ensures
        ({
            let channel = channel_of(counts, endpoint, trx)->0;
            &&& owns(counts, endpoint as int, channel)
            &&& owns_ssrc(counts, endpoint as int, bridge::ssrc_of(channel, vfo))
            &&& place_of(counts, endpoint as int).endpoint == endpoint
            &&& place_of(counts, endpoint as int).first + trx == channel
        }),
{
    bridge::law_ssrc_round_trip(channel_of(counts, endpoint, trx)->0, vfo);
}

/// Receivers of several servers share no SSRC: not those of different servers, nor those of one.
pub proof fn law_receivers_share_no_channel(
    counts: Seq<u8>,
    a: (u8, u8),
    b: (u8, u8),
    vfo_a: u8,
    vfo_b: u8,
)
    requires
        counts.len() > 1,
        channel_of(counts, a.0, a.1) is Some,
        channel_of(counts, b.0, b.1) is Some,
        a != b,
    ensures
        bridge::ssrc_of(channel_of(counts, a.0, a.1)->0, vfo_a) != bridge::ssrc_of(
            channel_of(counts, b.0, b.1)->0,
            vfo_b,
        ),
{
    law_channel_is_of_its_server(counts, a.0, a.1, vfo_a);
    law_channel_is_of_its_server(counts, b.0, b.1, vfo_b);
    bridge::law_ssrc_round_trip(channel_of(counts, a.0, a.1)->0, vfo_a);
    bridge::law_ssrc_round_trip(channel_of(counts, b.0, b.1)->0, vfo_b);
    if a.0 < b.0 {
        lemma_servers_in_order(counts, a.0 as int, b.0 as int);
    } else if b.0 < a.0 {
        lemma_servers_in_order(counts, b.0 as int, a.0 as int);
    }
}

/// As long as the servers have no more receivers in all than there are channels, every receiver has
/// a channel.
pub proof fn law_receivers_have_channels(counts: Seq<u8>, endpoint: u8, trx: u8)
    requires
        first_channel(counts, counts.len() as int) <= CHANNEL_COUNT,
        endpoint < counts.len(),
        trx < counts[endpoint as int],
    ensures
        channel_of(counts, endpoint, trx) is Some,
{
    lemma_servers_in_order(counts, endpoint as int, counts.len() as int);
}

/// One server alone has its receivers on the channels of the same numbers, and its commands reach
/// the bridge as they are.
pub proof fn law_one_server_has_all_channels(counts: Seq<u8>, trx: u8, cmd: BridgeCmd, ssrc: u32)
    requires
        counts.len() == 1,
    ensures
        channel_of(counts, 0, trx) == Some(trx),
        placed(counts, 0, cmd) == Some(cmd),
        owns_ssrc(counts, 0, ssrc),
        place_of(counts, 0) == (Place { endpoint: 0, first: 0 }),
{
}

/// What a command of a server makes the bridge send is for channels of that server.
pub proof fn law_commands_stay_with_their_server(
    counts: Seq<u8>,
    endpoint: u8,
    table: Map<u32, ChannelInfo>,
    samprate: u32,
    preset_map: Map<u32, Seq<char>>,
    default_preset: Seq<char>,
    cmd: BridgeCmd,
    plan: (Map<u32, ChannelInfo>, Seq<Seq<tlv::FieldView>>, Option<u32>),
    i: int,
)
    requires
        bridge::consistent(table),
        own(counts, endpoint as int, table),
        placed(counts, endpoint, cmd) matches Some(on_channel) && bridge::planned(
            table,
            samprate,
            preset_map,
            default_preset,
            on_channel,
            plan.0,
            plan.1,
            plan.2,
        ),
        0 <= i < plan.1.len(),
    ensures
        exists|ssrc: u32| #[trigger]
            owns_ssrc(counts, endpoint as int, ssrc) && plan.1[i].first() == (tlv::FieldView {
                tag: StatusType::OUTPUT_SSRC.wire(),
                value: tlv::ValueView::Int(ssrc as u64),
            }),
{
    match placed(counts, endpoint, cmd)->0 {
        BridgeCmd::Tune { trx: channel, vfo, freq_hz } => {
            let ssrc = bridge::ssrc_of(channel, vfo);
            bridge::law_ssrc_round_trip(channel, vfo);
            assert(owns_ssrc(counts, endpoint as int, ssrc));
        },
        BridgeCmd::SetSr { samprate: wanted } => {
            let preset = bridge::preset_for(preset_map, wanted, default_preset);
            let order = choose|order: Seq<u32>| #[trigger]
                bridge::walks(order, table) && plan.1 == bridge::retune_fields(
                    order,
                    table,
                    preset,
                );
            assert forall|j: int| 0 <= j < order.len() implies table.contains_key(
                #[trigger] order[j],
            ) by {
                assert(order.to_set().contains(order[j]));
            }
            lemma_retuned_are_own(counts, endpoint as int, table, preset, order, i);
        },
        BridgeCmd::EnableRx { .. } => {},
    }
}

/// The channels that are retuned are those of the server.
proof fn lemma_retuned_are_own(
    counts: Seq<u8>,
    endpoint: int,
    table: Map<u32, ChannelInfo>,
    preset: Seq<char>,
    order: Seq<u32>,
    i: int,
)
    requires
        0 <= endpoint < counts.len(),
        bridge::consistent(table),
        own(counts, endpoint, table),
        forall|j: int| 0 <= j < order.len() ==> table.contains_key(#[trigger] order[j]),
        0 <= i < bridge::retune_fields(order, table, preset).len(),
    ensures
        exists|ssrc: u32| #[trigger]
            owns_ssrc(counts, endpoint, ssrc) && bridge::retune_fields(
                order,
                table,
                preset,
            )[i].first() == (tlv::FieldView {
                tag: StatusType::OUTPUT_SSRC.wire(),
                value: tlv::ValueView::Int(ssrc as u64),
            }),
    decreases order.len(),
{
    let rest = bridge::retune_fields(order.drop_last(), table, preset);
    if i < rest.len() {
        lemma_retuned_are_own(counts, endpoint, table, preset, order.drop_last(), i);
    } else {
        let k = order[order.len() - 1];
        assert(table.contains_key(k));
        bridge::law_ssrc_round_trip(table[k].trx, table[k].vfo);
        assert(owns_ssrc(counts, endpoint, k));
    }
}

/// The samples of the channel of a receiver go to the clients of its server that have started the
/// stream of the receiver, and to no client of another server.
pub proof fn law_frames_reach_their_clients(
    channels: ChannelsView,
    endpoint: u8,
    trx: u8,
    vfo: u8,
    samples: Seq<(u32, u32)>,
    samprate: u32,
    frame: Option<IqFrame>,
    other: u8,
    active: Seq<bool>,
)
    requires
        channels.valid(),
        channel_of(channels.counts, endpoint, trx) is Some,
        samples.len() > 0,
        ({
            let channel = channel_of(channels.counts, endpoint, trx)->0;
            let ssrc = bridge::ssrc_of(channel, vfo);
            let table = channels.tables[endpoint as int];
            &&& table.contains_key(ssrc)
            &&& channels.counts.len() == 1 ==> table[ssrc].trx == channel
            &&& bridge::is_frame(
                frame,
                endpoint,
                bridge::frame_of(
                    ssrc,
                    samples,
                    table,
                    place_of(channels.counts, endpoint as int),
                    samprate,
                ),
            )
        }),
        other != endpoint,
    ensures
        frame matches Some(f) && {
            &&& f.trx == trx
            &&& f.data@ == protocol::iq_frame(trx as u32, samprate, samples)
            &&& server::wanted(endpoint, &f, active) <==> trx < active.len() && active[trx as int]
            &&& !server::wanted(other, &f, active)
        },
{
    let channel = channel_of(channels.counts, endpoint, trx)->0;
    let ssrc = bridge::ssrc_of(channel, vfo);
    let table = channels.tables[endpoint as int];
    law_channel_is_of_its_server(channels.counts, endpoint, trx, vfo);
    assert(bridge::consistent(table) && own(channels.counts, endpoint as int, table));
    bridge::law_ssrc_round_trip(channel, vfo);
    bridge::law_ssrc_round_trip(table[ssrc].trx, table[ssrc].vfo);
}

/// The channels of the servers follow one another: the first server starts at channel 0, and each
/// further one behind the last receiver of the server before it. Each receiver has the channel that
/// many behind the first one of its server, as long as there are channels.
pub proof fn law_channels_follow_one_another(counts: Seq<u8>, endpoint: u8, trx: u8)
    ensures
        first_channel(counts, 0) == 0,
        endpoint < counts.len() ==> first_channel(counts, endpoint + 1) == first_channel(
            counts,
            endpoint as int,
        ) + counts[endpoint as int],
        endpoint >= counts.len() ==> channel_of(counts, endpoint, trx) is None,
        counts.len() == 1 && endpoint == 0 ==> channel_of(counts, endpoint, trx) == Some(trx),
        counts.len() > 1 && endpoint < counts.len() ==> {
            let channel = first_channel(counts, endpoint as int) + trx;
            &&& trx < counts[endpoint as int] && channel < 16 ==> (channel_of(
                counts,
                endpoint,
                trx,
            ) matches Some(c) && c == channel)
            &&& trx >= counts[endpoint as int] || channel >= 16 ==> channel_of(
                counts,
                endpoint,
                trx,
            ) is None
        },
{
}

/// A command of a server reaches the bridge with the channel of its receiver in place of the receiver;
/// a change of the sample rate reaches it as it is. Commands of servers or for receivers without a
/// channel do not reach it.
pub proof fn law_commands_are_placed(
    counts: Seq<u8>,
    endpoint: u8,
    trx: u8,
    vfo: u8,
    freq_hz: u64,
    enable: bool,
    samprate: u32,
)
    ensures
        match channel_of(counts, endpoint, trx) {
            Some(channel) => {
                &&& placed(counts, endpoint, BridgeCmd::Tune { trx, vfo, freq_hz }) == Some(
                    BridgeCmd::Tune { trx: channel, vfo, freq_hz },
                )
                &&& placed(counts, endpoint, BridgeCmd::EnableRx { trx, vfo, enable }) == Some(
                    BridgeCmd::EnableRx { trx: channel, vfo, enable },
                )
            },
            None => {
                &&& placed(counts, endpoint, BridgeCmd::Tune { trx, vfo, freq_hz }) is None
                &&& placed(counts, endpoint, BridgeCmd::EnableRx { trx, vfo, enable }) is None
            },
        },
        endpoint < counts.len() ==> placed(counts, endpoint, (BridgeCmd::SetSr { samprate })) == Some(
            (BridgeCmd::SetSr { samprate }),
        ),
        endpoint >= counts.len() ==> placed(
            counts,
            endpoint,
            (BridgeCmd::SetSr { samprate }),
        ) is None,
{
}

/// A status packet goes into the table of the server whose channels hold the number in its SSRC, as
/// into the table of a server alone, and into no other.
pub proof fn law_status_goes_to_its_server(
    channels: ChannelsView,
    fields: Seq<tlv::FieldView>,
    ssrc: u32,
    e: int,
)
    requires
        0 <= e < channels.tables.len(),
        channels.tables.len() == channels.counts.len(),
    ensures
        channels.after_status(fields).counts == channels.counts,
        channels.after_status(fields).tables.len() == channels.tables.len(),
        control::status_ssrc(fields) is None ==> channels.after_status(fields).tables[e]
            == channels.tables[e],
        control::status_ssrc(fields) == Some(ssrc) ==> {
            let first = first_channel(channels.counts, e);
            let number = (ssrc % 256) / 16;
            let own = channels.counts.len() == 1 || (0x7C10_0000 <= ssrc <= 0x7C10_00FF && first
                <= number < first + channels.counts[e]);
            &&& own ==> channels.after_status(fields).tables[e] == bridge::after_status(
                channels.tables[e],
                fields,
            )
            &&& !own ==> channels.after_status(fields).tables[e] == channels.tables[e]
        },
{
    bridge::law_ssrc_layout(0, 0, ssrc);
    bridge::law_ssrc_is_of_its_parts(ssrc);
    if let Some(p) = bridge::ssrc_parts(ssrc) {
        assert(p.0 == (ssrc % 256) / 16);
    }
}

/// An SSRC is one of a server where its channel number is among the channels of the server; one server
/// alone sees every SSRC.
pub proof fn law_ssrcs_of_a_server(counts: Seq<u8>, e: int, ssrc: u32)
    ensures
        owns_ssrc(counts, e, ssrc) <==> 0 <= e < counts.len() && (counts.len() == 1 || (0x7C10_0000
            <= ssrc <= 0x7C10_00FF && first_channel(counts, e) <= (ssrc % 256) / 16
            < first_channel(counts, e) + counts[e])),
{
    bridge::law_ssrc_layout(0, 0, ssrc);
    if let Some(p) = bridge::ssrc_parts(ssrc) {
        assert(p.0 == (ssrc % 256) / 16);
    }
}

/// A group is in use where a channel of some server sends to it, and only there.
pub proof fn law_groups_are_those_of_servers(
    tables: Seq<Map<u32, ChannelInfo>>,
    e: int,
    k: u32,
    group: Ipv4Addr,
)
    ensures
        0 <= e < tables.len() && tables[e].contains_key(k) && tables[e][k].data_group == Some(group)
            ==> in_use(tables, group),
        (forall|x: int, y: u32|
            0 <= x < tables.len() && #[trigger] tables[x].contains_key(y)
                ==> tables[x][y].data_group != Some(group)) ==> !in_use(tables, group),
{
    if 0 <= e < tables.len() && tables[e].contains_key(k) && tables[e][k].data_group == Some(
        group,
    ) {
        assert(bridge::in_use(tables[e], group));
    }
}

/// The view of tables holds each table, in order.
pub proof fn law_views_of_tables(tables: Seq<SsrcTable>, i: int)
    ensures
        table_views(tables).len() == tables.len(),
        0 <= i < tables.len() ==> table_views(tables)[i] == tables[i]@,
{
}

} // verus!
