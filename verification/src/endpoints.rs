//! From the options and the configuration file to the servers that are started.

use std::collections::HashMap;

use vstd::prelude::*;

use crate::bridge;
use crate::bridge::{BridgeCmd, BridgeConfig, Interval};
use crate::config::Args;
use crate::config_file;
use crate::config_file::{EndpointConfig, FileConfig, TrxConfig};
use crate::decimal;
use crate::tci::server;
use crate::tci::server::ServerConfig;
use crate::tci::state;
use crate::tci::state::SharedState;
use crate::text;

verus! {

// ---------------------------------------------------------------------------------------------
// Presets
// ---------------------------------------------------------------------------------------------

/// What an entry `rate:preset` says; nothing if the preset is missing or the rate is no number.
/// White space around either does not matter.
pub open spec fn preset_entry(entry: Seq<char>) -> Option<(u32, Seq<char>)> {
    match text::split_first(text::trimmed(entry), ':') {
        None => None,
        Some((rate, preset)) => match decimal::read_unsigned(text::trimmed(rate), u32::MAX as nat) {
            Some(v) => if text::trimmed(preset).len() == 0 {
                None
            } else {
                Some((v as u32, text::trimmed(preset)))
            },
            None => None,
        },
    }
}

/// What a sequence of entries says. The last entry for a rate counts.
pub open spec fn preset_entries(entries: Seq<Seq<char>>) -> Map<u32, Seq<char>>
    decreases entries.len(),
{
    if entries.len() == 0 {
        Map::empty()
    } else {
        let rest = preset_entries(entries.drop_last());
        match preset_entry(entries.last()) {
            Some((rate, preset)) => rest.insert(rate, preset),
            None => rest,
        }
    }
}

fn read_entry<'a>(entry: &'a str) -> (r: Option<(u32, &'a str)>)
    ensures
        r matches Some(p) ==> preset_entry(entry@) == Some((p.0, p.1@)),
        r is None ==> preset_entry(entry@) is None,
{
    match text::split_once(text::trim(entry), ':') {
        None => None,
        Some((rate, preset)) => {
            let preset = text::trim(preset);
            if preset.unicode_len() == 0 {
                return None;
            }
            match decimal::parse_unsigned(text::trim(rate), 0xFFFF_FFFF) {
                Some(v) => Some((v as u32, preset)),
                None => None,
            }
        },
    }
}

/// Reads presets by sample rate, such as `12000:iq,48000:iq48`. Entries that cannot be read are
/// left out.
pub fn parse_preset_map(s: &str) -> (r: HashMap<u32, String>)
    ensures
        bridge::presets(r@) == preset_entries(text::split_at_each(s@, ',')),
{
    broadcast use vstd::std_specs::hash::group_hash_axioms;

    let entries = text::split(s, ',');
    let ghost all = text::views(entries@);
    let mut m: HashMap<u32, String> = HashMap::new();
    let mut i: usize = 0;
    assert(bridge::presets(m@) =~= preset_entries(all.take(0)));
    while i < entries.len()
        invariant
            i <= entries@.len(),
            all == text::views(entries@),
            bridge::presets(m@) == preset_entries(all.take(i as int)),
        decreases entries@.len() - i,
    {
        let ghost before = m@;
        assert(all.take(i + 1).drop_last() =~= all.take(i as int));
        assert(all.take(i + 1).last() == entries@[i as int]@);
        if let Some((rate, preset)) = read_entry(entries[i]) {
            m.insert(rate, preset.to_owned());
            assert(bridge::presets(m@) =~= bridge::presets(before).insert(rate, preset@));
        }
        i = i + 1;
    }
    assert(all.take(i as int) =~= all);
    m
}

/// The presets that an option gives, or the default ones where it gives none.
pub fn configured_presets(s: &str) -> (r: HashMap<u32, String>)
    ensures
        bridge::presets(r@) == (if preset_entries(text::split_at_each(s@, ',')).is_empty() {
            bridge::default_presets()
        } else {
            preset_entries(text::split_at_each(s@, ','))
        }),
{
    let parsed = parse_preset_map(s);
    assert(parsed@.is_empty() == bridge::presets(parsed@).is_empty()) by {
        assert(parsed@.dom() =~= bridge::presets(parsed@).dom());
    }
    if parsed.is_empty() {
        bridge::default_preset_map()
    } else {
        parsed
    }
}

/// How the bridge is set up by the options.
pub fn bridge_config(cli: &Args) -> (r: BridgeConfig)
    ensures
        r.status_name@ == cli.status_name@,
        r.iface == (match cli.mcast_iface {
            Some(crate::addr::IpAddr::V4(v4)) => Some(v4),
            _ => None,
        }),
        r.poll_interval == (Interval { secs: cli.poll_interval_secs, nanos: 0 }),
        r.default_samprate == cli.iq_samplerate,
        r.max_trx == cli.max_trx,
        bridge::presets(r.preset_map@) == (if preset_entries(
            text::split_at_each(cli.preset_map@, ','),
        ).is_empty() {
            bridge::default_presets()
        } else {
            preset_entries(text::split_at_each(cli.preset_map@, ','))
        }),
        r.default_preset@ == cli.default_preset@,
{
    BridgeConfig {
        status_name: cli.status_name.clone(),
        iface: cli.iface_v4(),
        poll_interval: Interval::from_secs(cli.poll_interval_secs),
        default_samprate: cli.iq_samplerate,
        max_trx: cli.max_trx,
        preset_map: configured_presets(cli.preset_map.as_str()),
        default_preset: cli.default_preset.clone(),
    }
}

// ---------------------------------------------------------------------------------------------
// Servers
// ---------------------------------------------------------------------------------------------

/// Why no servers can be started.
#[derive(Debug)]
pub enum EndpointError {
    /// The bind address does not end in a port.
    NoPort(String),
    /// There are more servers than can be told apart.
    TooMany(usize),
}

impl EndpointError {
    /// What the error says.
    pub open spec fn text(&self) -> Seq<char> {
        match *self {
            EndpointError::NoPort(addr) => "--bind-addr "@ + addr@ + " non ha una porta valida"@,
            EndpointError::TooMany(n) => "troppi endpoint ("@ + decimal::numeral(n as nat)
                + "): max "@ + decimal::numeral(255) + " (limite SSRC encoding)"@,
        }
    }

    /// What the error says.
    pub fn message(&self) -> (r: String)
        ensures
            r@ == self.text(),
    {
        match self {
            EndpointError::NoPort(addr) => {
                let mut s = "--bind-addr ".to_owned();
                s.append(addr.as_str());
                s.append(" non ha una porta valida");
                s
            },
            EndpointError::TooMany(n) => {
                let mut s = "troppi endpoint (".to_owned();
                decimal::push_unsigned(&mut s, *n as u64);
                s.append("): max ");
                decimal::push_unsigned(&mut s, 255);
                s.append(" (limite SSRC encoding)");
                s
            },
        }
    }
}

/// A server with everything filled in.
#[derive(Debug)]
pub struct ResolvedEndpoint {
    pub port: u16,
    pub label: String,
    pub iq_samplerate: u32,
    pub trx: Vec<TrxConfig>,
}

/// A `ResolvedEndpoint` with its label and receivers as sequences.
#[verifier::ext_equal]
pub struct ResolvedView {
    pub port: u16,
    pub label: Seq<char>,
    pub iq_samplerate: u32,
    pub trx: Seq<config_file::TrxConfigView>,
}

impl View for ResolvedEndpoint {
    type V = ResolvedView;

    open spec fn view(&self) -> ResolvedView {
        ResolvedView {
            port: self.port,
            label: self.label@,
            iq_samplerate: self.iq_samplerate,
            trx: config_file::trx_views(self.trx@),
        }
    }
}

/// The views of a sequence of servers.
pub open spec fn resolved_views(endpoints: Seq<ResolvedEndpoint>) -> Seq<ResolvedView> {
    endpoints.map_values(|e: ResolvedEndpoint| e@)
}

/// The port that an address ends in.
pub open spec fn port_of(addr: Seq<char>) -> Option<u16> {
    match text::split_last(addr, ':') {
        None => None,
        Some((_, port)) => match decimal::read_unsigned(port, u16::MAX as nat) {
            Some(v) => Some(v as u16),
            None => None,
        },
    }
}

/// A configured server with its gaps filled: its port for the label, the option for the sample
/// rate.
pub open spec fn filled(endpoint: config_file::EndpointView, iq_samplerate: u32) -> ResolvedView {
    ResolvedView {
        port: endpoint.port,
        label: match endpoint.label {
            Some(s) => s,
            None => decimal::numeral(endpoint.port as nat),
        },
        iq_samplerate: match endpoint.iq_samplerate {
            Some(r) => r,
            None => iq_samplerate,
        },
        trx: endpoint.trx,
    }
}

/// The first `n` receivers, or all of them where there are fewer.
pub open spec fn at_most(trx: Seq<config_file::TrxConfigView>, n: nat) -> Seq<
    config_file::TrxConfigView,
> {
    if trx.len() <= n {
        trx
    } else {
        trx.take(n as int)
    }
}

/// The servers to start, given the port of the bind address. With no file there is one server
/// without receivers of its own; a file that lists only receivers makes one server of them, with
/// `max_trx` of them at most.
pub open spec fn resolved(
    file: Option<config_file::FileView>,
    bind_port: u16,
    iq_samplerate: u32,
    max_trx: u8,
) -> Seq<ResolvedView> {
    let single = |trx: Seq<config_file::TrxConfigView>|
        seq![
            ResolvedView {
                port: bind_port,
                label: decimal::numeral(bind_port as nat),
                iq_samplerate,
                trx,
            },
        ];
    match file {
        None => single(Seq::empty()),
        Some(cfg) => if cfg.endpoints.len() > 0 {
            cfg.endpoints.map_values(|e: config_file::EndpointView| filled(e, iq_samplerate))
        } else {
            single(at_most(cfg.trx, max_trx as nat))
        },
    }
}

fn parse_port(addr: &str) -> (r: Option<u16>)
    ensures
        r == port_of(addr@),
{
    match text::rsplit_once(addr, ':') {
        None => None,
        Some((_, port)) => match decimal::parse_unsigned(port, 0xFFFF) {
            Some(v) => Some(v as u16),
            None => None,
        },
    }
}

fn fill(endpoint: &EndpointConfig, iq_samplerate: u32) -> (r: ResolvedEndpoint)
    ensures
        r@ == filled(endpoint@, iq_samplerate),
{
    ResolvedEndpoint {
        port: endpoint.port,
        label: match &endpoint.label {
            Some(s) => s.clone(),
            None => decimal::unsigned_string(endpoint.port as u64),
        },
        iq_samplerate: match endpoint.iq_samplerate {
            Some(r) => r,
            None => iq_samplerate,
        },
        trx: config_file::clone_trx(endpoint.trx.as_slice()),
    }
}

fn single(port: u16, iq_samplerate: u32, trx: Vec<TrxConfig>) -> (r: Vec<ResolvedEndpoint>)
    ensures
        resolved_views(r@) == seq![
            ResolvedView {
                port,
                label: decimal::numeral(port as nat),
                iq_samplerate,
                trx: config_file::trx_views(trx@),
            },
        ],
{
    let mut out: Vec<ResolvedEndpoint> = Vec::new();
    let e = ResolvedEndpoint {
        port,
        label: decimal::unsigned_string(port as u64),
        iq_samplerate,
        trx,
    };
    let ghost v = e@;
    out.push(e);
    assert(resolved_views(out@) =~= seq![v]);
    out
}

/// The servers to start, from the configuration file, if there is one, and the options. The bind
/// address must end in a port even where no server uses it.
pub fn resolve_endpoints(file_cfg: Option<&FileConfig>, cli: &Args) -> (r: Result<
    Vec<ResolvedEndpoint>,
    EndpointError,
>)
    ensures
        match port_of(cli.bind_addr@) {
            None => r matches Err(EndpointError::NoPort(addr)) && addr@ == cli.bind_addr@,
            Some(port) => r matches Ok(endpoints) && resolved_views(endpoints@) == resolved(
                match file_cfg {
                    Some(cfg) => Some(cfg@),
                    None => None,
                },
                port,
                cli.iq_samplerate,
                cli.max_trx,
            ),
        },
{
    let bind_port: u16 = match parse_port(cli.bind_addr.as_str()) {
        Some(p) => p,
        None => return Err(EndpointError::NoPort(cli.bind_addr.clone())),
    };
    match file_cfg {
        None => {
            let none: Vec<TrxConfig> = Vec::new();
            assert(config_file::trx_views(none@) =~= Seq::<config_file::TrxConfigView>::empty());
            Ok(single(bind_port, cli.iq_samplerate, none))
        },
        Some(cfg) => {
            if !cfg.has_endpoints() {
                let used: usize = if cfg.trx.len() <= cli.max_trx as usize {
                    cfg.trx.len()
                } else {
                    cli.max_trx as usize
                };
                let trx = vstd::slice::slice_subrange(cfg.trx.as_slice(), 0, used);
                assert(config_file::trx_views(trx@) =~= at_most(cfg@.trx, cli.max_trx as nat));
                return Ok(single(bind_port, cli.iq_samplerate, config_file::clone_trx(trx)));
            }
            let ghost wanted = resolved(Some(cfg@), bind_port, cli.iq_samplerate, cli.max_trx);
            let mut out: Vec<ResolvedEndpoint> = Vec::new();
            let mut i: usize = 0;
            while i < cfg.endpoints.len()
                invariant
                    i <= cfg.endpoints@.len(),
                    cfg.endpoints@.len() > 0,
                    wanted == resolved(Some(cfg@), bind_port, cli.iq_samplerate, cli.max_trx),
                    resolved_views(out@) == wanted.take(i as int),
                decreases cfg.endpoints@.len() - i,
            {
                let ghost before = out@;
                let e = fill(&cfg.endpoints[i], cli.iq_samplerate);
                out.push(e);
                i = i + 1;
                assert(resolved_views(out@) =~= resolved_views(before).push(wanted[i - 1]));
                assert(resolved_views(out@) =~= wanted.take(i as int));
            }
            assert(wanted.take(i as int) =~= wanted);
            Ok(out)
        },
    }
}

// ---------------------------------------------------------------------------------------------
// Start of the servers
// ---------------------------------------------------------------------------------------------

/// Everything that a server is started with.
#[derive(Debug)]
pub struct EndpointPlan {
    pub endpoint_id: u8,
    /// Address on which the server listens.
    pub bind: String,
    pub server: ServerConfig,
    pub state: SharedState,
    /// What the bridge is asked before any client connects, so that radiod sends what the server
    /// announces.
    pub tunes: Vec<BridgeCmd>,
}

/// The number of receivers of a server: those that are configured, but at least one and at most
/// 255.
pub open spec fn trx_count(trx: Seq<config_file::TrxConfigView>) -> u8 {
    if trx.len() == 0 {
        1
    } else if trx.len() <= 255 {
        trx.len() as u8
    } else {
        255
    }
}

/// The tuning of the receivers that have a frequency, in order.
pub open spec fn tunes_for(trx: Seq<config_file::TrxConfigView>) -> Seq<BridgeCmd>
    decreases trx.len(),
{
    if trx.len() == 0 {
        Seq::empty()
    } else {
        let rest = tunes_for(trx.drop_last());
        if trx.last().freq > 0 {
            rest.push(
                BridgeCmd::Tune { trx: (trx.len() - 1) as u8, vfo: 0, freq_hz: trx.last().freq },
            )
        } else {
            rest
        }
    }
}

/// The tuning of the receivers of a server that have a frequency. Receivers that the server does
/// not announce are not tuned.
pub open spec fn initial_tunes(trx: Seq<config_file::TrxConfigView>) -> Seq<BridgeCmd> {
    tunes_for(at_most(trx, 255))
}

/// Whether a server is started as it should be: it announces its label, its own receivers only, and
/// a passband of half the sample rate to either side.
pub open spec fn plan_fits(plan: &EndpointPlan, endpoint_id: u8, endpoint: ResolvedView) -> bool {
    let half = (endpoint.iq_samplerate / 2) as i64;
    &&& plan.endpoint_id == endpoint_id
    &&& plan.bind@ == "0.0.0.0:"@ + decimal::numeral(endpoint.port as nat)
    &&& plan.server.device_name@ == "ka9q-tci/"@ + endpoint.label
    &&& plan.server.trx_count == trx_count(endpoint.trx)
    &&& plan.server.channel_count == 2
    &&& plan.server.vfo_min_hz == 10_000
    &&& plan.server.vfo_max_hz == 30_000_000
    &&& plan.server.if_min_hz == -half
    &&& plan.server.if_max_hz == half
    &&& text::string_views(plan.server.modulations@) == server::default_modulations()
    &&& plan.state@ == state::initial_state(
        trx_count(endpoint.trx) as nat,
        endpoint.iq_samplerate,
        endpoint.trx,
    )
    &&& plan.tunes@ == initial_tunes(endpoint.trx)
}

fn tunes_of(trx: &[TrxConfig]) -> (r: Vec<BridgeCmd>)
    ensures
        r@ == initial_tunes(config_file::trx_views(trx@)),
{
    let ghost all = config_file::trx_views(trx@);
    let count: usize = if trx.len() <= 255 {
        trx.len()
    } else {
        255
    };
    let mut out: Vec<BridgeCmd> = Vec::new();
    let mut i: usize = 0;
    assert(out@ =~= tunes_for(all.take(0)));
    while i < count
        invariant
            i <= count <= trx@.len(),
            count <= 255,
            all == config_file::trx_views(trx@),
            out@ == tunes_for(all.take(i as int)),
        decreases count - i,
    {
        assert(all.take(i + 1).drop_last() =~= all.take(i as int));
        assert(all.take(i + 1).last() == trx@[i as int]@);
        let freq_hz: u64 = trx[i].freq;
        if freq_hz > 0 {
            out.push(BridgeCmd::Tune { trx: i as u8, vfo: 0, freq_hz });
        }
        i = i + 1;
    }
    assert(all.take(i as int) =~= at_most(all, 255));
    out
}

/// Everything that the server with the given number is started with.
pub fn plan_endpoint(endpoint_id: u8, endpoint: &ResolvedEndpoint) -> (r: EndpointPlan)
    ensures
        plan_fits(&r, endpoint_id, endpoint@),
{
    let count: u8 = if endpoint.trx.len() == 0 {
        1
    } else if endpoint.trx.len() <= 255 {
        endpoint.trx.len() as u8
    } else {
        255
    };
    let state = SharedState::new_with_initial(
        count as usize,
        endpoint.iq_samplerate,
        endpoint.trx.as_slice(),
    );
    let half: i64 = (endpoint.iq_samplerate / 2) as i64;
    let mut device_name = "ka9q-tci/".to_owned();
    device_name.append(endpoint.label.as_str());
    let mut server = ServerConfig::default();
    server.device_name = device_name;
    server.trx_count = count;
    server.if_min_hz = -half;
    server.if_max_hz = half;
    let mut bind = "0.0.0.0:".to_owned();
    decimal::push_unsigned(&mut bind, endpoint.port as u64);
    let tunes = tunes_of(endpoint.trx.as_slice());
    EndpointPlan { endpoint_id, bind, server, state, tunes }
}

/// Everything that the servers are started with, in order, numbered from 0. At most 255 servers can
/// be told apart.
pub fn plan_endpoints(endpoints: &[ResolvedEndpoint]) -> (r: Result<
    Vec<EndpointPlan>,
    EndpointError,
>)
    ensures
        if endpoints@.len() > 255 {
            r == Err::<Vec<EndpointPlan>, EndpointError>(
                EndpointError::TooMany(endpoints@.len() as usize),
            )
        } else {
            &&& r matches Ok(plans)
            &&& plans@.len() == endpoints@.len()
            &&& forall|i: int|
                0 <= i < plans@.len() ==> plan_fits(
                    &#[trigger] plans@[i],
                    i as u8,
                    endpoints@[i]@,
                )
        },
{
    if endpoints.len() > 255 {
        return Err(EndpointError::TooMany(endpoints.len()));
    }
    let mut plans: Vec<EndpointPlan> = Vec::new();
    let mut i: usize = 0;
    while i < endpoints.len()
        invariant
            i <= endpoints@.len() <= 255,
            plans@.len() == i,
            forall|j: int|
                0 <= j < i ==> plan_fits(&#[trigger] plans@[j], j as u8, endpoints@[j]@),
        decreases endpoints@.len() - i,
    {
        plans.push(plan_endpoint(i as u8, &endpoints[i]));
        i = i + 1;
    }
    Ok(plans)
}

// ---------------------------------------------------------------------------------------------
// Laws
// ---------------------------------------------------------------------------------------------

/// Where a file lists servers, its list of receivers does not matter.
pub proof fn law_endpoints_prevail(
    endpoints: Seq<config_file::EndpointView>,
    trx1: Seq<config_file::TrxConfigView>,
    trx2: Seq<config_file::TrxConfigView>,
    bind_port: u16,
    iq_samplerate: u32,
    max_trx: u8,
)
    requires
        endpoints.len() > 0,
    ensures
        resolved(
            Some(config_file::FileView { trx: trx1, endpoints }),
            bind_port,
            iq_samplerate,
            max_trx,
        ) == resolved(
            Some(config_file::FileView { trx: trx2, endpoints }),
            bind_port,
            iq_samplerate,
            max_trx,
        ),
        resolved(
            Some(config_file::FileView { trx: trx1, endpoints }),
            bind_port,
            iq_samplerate,
            max_trx,
        ).len() == endpoints.len(),
{
}

/// A file that lists receivers alone, or no file, makes one server on the port of the bind address,
/// with the first receivers of the file, and not more than `max_trx`.
pub proof fn law_single_server_without_endpoints(
    file: Option<config_file::FileView>,
    bind_port: u16,
    iq_samplerate: u32,
    max_trx: u8,
)
    requires
        file matches Some(cfg) ==> cfg.endpoints.len() == 0,
    ensures
        ({
            let r = resolved(file, bind_port, iq_samplerate, max_trx);
            &&& r.len() == 1
            &&& r[0].port == bind_port
            &&& r[0].iq_samplerate == iq_samplerate
            &&& r[0].trx.len() <= max_trx
            &&& file matches Some(cfg) ==> r[0].trx.is_prefix_of(cfg.trx) && (cfg.trx.len()
                <= max_trx ==> r[0].trx == cfg.trx) && (cfg.trx.len() > max_trx
                ==> r[0].trx.len() == max_trx)
            &&& file is None ==> r[0].trx == Seq::<config_file::TrxConfigView>::empty()
        }),
{
    if let Some(cfg) = file {
        let r = resolved(file, bind_port, iq_samplerate, max_trx);
        assert(r[0].trx =~= cfg.trx.take(r[0].trx.len() as int));
    }
}

/// The last entry for a sample rate counts, and entries that cannot be read count for nothing.
pub proof fn law_last_preset_counts(
    entries: Seq<Seq<char>>,
    entry: Seq<char>,
    rest: Seq<Seq<char>>,
    rate: u32,
    preset: Seq<char>,
)
    requires
        preset_entry(entry) == Some((rate, preset)),
        forall|i: int|
            0 <= i < rest.len() ==> (preset_entry(#[trigger] rest[i]) matches Some(p) ==> p.0
                != rate),
    ensures
        preset_entries(entries.push(entry) + rest).contains_key(rate),
        preset_entries(entries.push(entry) + rest)[rate] == preset,
    decreases rest.len(),
{
    let all = entries.push(entry) + rest;
    if rest.len() == 0 {
        assert(all =~= entries.push(entry));
        assert(all.drop_last() =~= entries);
    } else {
        let fewer = rest.drop_last();
        assert forall|i: int| 0 <= i < fewer.len() implies (preset_entry(#[trigger] fewer[i])
            matches Some(p) ==> p.0 != rate) by {
            assert(fewer[i] == rest[i]);
        }
        law_last_preset_counts(entries, entry, fewer, rate, preset);
        assert(all.drop_last() =~= entries.push(entry) + fewer);
        assert(all.last() == rest[rest.len() - 1]);
    }
}

/// A server starts with as many receivers as it announces, at least one, and with the sample rate that it
/// announces the passband for.
pub proof fn law_state_matches_announcement(
    plan: &EndpointPlan,
    endpoint_id: u8,
    endpoint: ResolvedView,
)
    requires
        plan_fits(plan, endpoint_id, endpoint),
    ensures
        plan.state.trx@.len() == plan.server.trx_count,
        plan.server.trx_count >= 1,
        plan.state.iq_samplerate == endpoint.iq_samplerate,
        plan.server.if_max_hz == -plan.server.if_min_hz,
        plan.server.if_max_hz == endpoint.iq_samplerate / 2,
{
    assert(plan.state@.trx.len() == plan.state.trx@.len());
}

/// Each tuning at the start is for VFO A of a receiver that the server announces, at the frequency
/// with which that VFO starts: radiod is tuned to what the server announces.
pub proof fn law_initial_tunes_match_state(
    iq_samplerate: u32,
    trx: Seq<config_file::TrxConfigView>,
    i: int,
)
    requires
        0 <= i < initial_tunes(trx).len(),
    ensures
        initial_tunes(trx)[i] matches BridgeCmd::Tune { trx: n, vfo, freq_hz } && vfo == 0 && n
            < trx_count(trx) && freq_hz > 0 && freq_hz == state::initial_state(
            trx_count(trx) as nat,
            iq_samplerate,
            trx,
        ).trx[n as int].vfo[0].freq_hz,
{
    lemma_tunes_for(at_most(trx, 255), i);
}

proof fn lemma_tunes_for(trx: Seq<config_file::TrxConfigView>, i: int)
    requires
        trx.len() <= 255,
        0 <= i < tunes_for(trx).len(),
    ensures
        tunes_for(trx)[i] matches BridgeCmd::Tune { trx: n, vfo, freq_hz } && vfo == 0 && n
            < trx.len() && freq_hz > 0 && freq_hz == trx[n as int].freq,
    decreases trx.len(),
{
    if trx.len() > 0 {
        let rest = tunes_for(trx.drop_last());
        if i < rest.len() {
            lemma_tunes_for(trx.drop_last(), i);
        }
    }
}

/// Every receiver with a frequency that a server announces is tuned at the start.
pub proof fn law_every_announced_receiver_is_tuned(
    trx: Seq<config_file::TrxConfigView>,
    n: int,
)
    requires
        0 <= n < trx.len(),
        n < trx_count(trx),
        trx[n].freq > 0,
    ensures
        initial_tunes(trx).contains(
            (BridgeCmd::Tune { trx: n as u8, vfo: 0, freq_hz: trx[n].freq }),
        ),
{
    lemma_tunes_for_contain(at_most(trx, 255), n);
}

proof fn lemma_tunes_for_contain(trx: Seq<config_file::TrxConfigView>, n: int)
    requires
        trx.len() <= 255,
        0 <= n < trx.len(),
        trx[n].freq > 0,
    ensures
        tunes_for(trx).contains(
            (BridgeCmd::Tune { trx: n as u8, vfo: 0, freq_hz: trx[n].freq }),
        ),
    decreases trx.len(),
{
    let all = tunes_for(trx);
    let rest = tunes_for(trx.drop_last());
    let tune = BridgeCmd::Tune { trx: n as u8, vfo: 0, freq_hz: trx[n].freq };
    if n == trx.len() - 1 {
        assert(all[all.len() - 1] == tune);
    } else {
        lemma_tunes_for_contain(trx.drop_last(), n);
        let j = choose|j: int| 0 <= j < rest.len() && rest[j] == tune;
        assert(all[j] == tune);
    }
}

/// What a file says of a server is what the server gets, whatever the options are: its port, its
/// receivers, its label and its sample rate. Only where the file gives no sample rate does that of the
/// options hold, and only where it gives no label is the port the label.
pub proof fn law_servers_get_what_the_file_says(
    file: config_file::FileView,
    bind_port: u16,
    iq_samplerate: u32,
    max_trx: u8,
    i: int,
)
    requires
        0 <= i < file.endpoints.len(),
    ensures
        ({
            let e = file.endpoints[i];
            let servers = resolved(Some(file), bind_port, iq_samplerate, max_trx);
            &&& servers.len() == file.endpoints.len()
            &&& servers[i].port == e.port
            &&& servers[i].trx == e.trx
            &&& e.iq_samplerate matches Some(rate) ==> servers[i].iq_samplerate == rate
            &&& e.iq_samplerate is None ==> servers[i].iq_samplerate == iq_samplerate
            &&& e.label matches Some(label) ==> servers[i].label == label
            &&& e.label is None ==> servers[i].label == decimal::numeral(e.port as nat)
        }),
{
}

/// The only server where the file lists none is on the port of the bind address, which is its label,
/// and has the sample rate of the options.
pub proof fn law_only_server_follows_the_options(
    file: Option<config_file::FileView>,
    bind_port: u16,
    iq_samplerate: u32,
    max_trx: u8,
    i: int,
)
    requires
        file matches Some(cfg) ==> cfg.endpoints.len() == 0,
    ensures
        ({
            let servers = resolved(file, bind_port, iq_samplerate, max_trx);
            &&& servers.len() == 1
            &&& servers[0].port == bind_port
            &&& servers[0].label == decimal::numeral(bind_port as nat)
            &&& servers[0].iq_samplerate == iq_samplerate
            &&& file is None ==> servers[0].trx.len() == 0
            &&& file matches Some(cfg) ==> {
                &&& servers[0].trx.len() == (if cfg.trx.len() <= max_trx {
                    cfg.trx.len()
                } else {
                    max_trx as nat
                })
                &&& 0 <= i < servers[0].trx.len() ==> servers[0].trx[i] == cfg.trx[i]
            }
        }),
{
}

/// The view of a configuration holds what the configuration holds.
pub proof fn law_view_of_a_configuration(
    file: &FileConfig,
    endpoint: &EndpointConfig,
    server: &ResolvedEndpoint,
    trx: &TrxConfig,
    i: int,
)
    ensures
        file@.trx.len() == file.trx@.len(),
        file@.endpoints.len() == file.endpoints@.len(),
        0 <= i < file.trx@.len() ==> file@.trx[i] == file.trx@[i]@,
        0 <= i < file.endpoints@.len() ==> file@.endpoints[i] == file.endpoints@[i]@,
        endpoint@.port == endpoint.port,
        endpoint@.iq_samplerate == endpoint.iq_samplerate,
        endpoint.label matches Some(s) ==> endpoint@.label == Some(s@),
        endpoint.label is None ==> endpoint@.label is None,
        endpoint@.trx.len() == endpoint.trx@.len(),
        0 <= i < endpoint.trx@.len() ==> endpoint@.trx[i] == endpoint.trx@[i]@,
        server@.port == server.port,
        server@.label == server.label@,
        server@.iq_samplerate == server.iq_samplerate,
        server@.trx.len() == server.trx@.len(),
        0 <= i < server.trx@.len() ==> server@.trx[i] == server.trx@[i]@,
        trx@.freq == trx.freq,
        trx@.modulation == trx.modulation@,
        trx@.freq_b == trx.freq_b,
{
}

/// The port of an address is the number behind its last colon, if there is a colon and the number
/// fits in 16 bits.
pub proof fn law_port_of_an_address(host: Seq<char>, port: Seq<char>)
    requires
        !port.contains(':'),
    ensures
        port_of(port) is None,
        match decimal::read_unsigned(port, 0xFFFF) {
            Some(n) => port_of(host + seq![':'] + port) matches Some(p) && p == n,
            None => port_of(host + seq![':'] + port) is None,
        },
{
    text::law_parting_at_a_separator(host, port, ':');
    text::law_parting_at_a_separator(port, host, ':');
}

/// An entry for a preset is a sample rate, a colon and the preset, with any white space around either.
/// Without a number in front of the colon, or with nothing behind it, it says nothing.
pub proof fn law_entry_for_a_preset(rate: Seq<char>, preset: Seq<char>)
    requires
        !rate.contains(':'),
    ensures
        preset_entry(rate) is None,
        match decimal::read_unsigned(text::trimmed(rate), 0xFFFF_FFFF) {
            Some(n) => if text::trimmed(preset).len() > 0 {
                preset_entry(rate + seq![':'] + preset) matches Some(p) && p.0 == n && p.1
                    == text::trimmed(preset)
            } else {
                preset_entry(rate + seq![':'] + preset) is None
            },
            None => preset_entry(rate + seq![':'] + preset) is None,
        },
{
    let r = text::lemma_trimmed(rate);
    let p = text::lemma_trimmed(preset);
    let none = Seq::<char>::empty();
    let front = if r.0 < r.1 {
        rate.take(r.0)
    } else {
        rate
    };
    let left = if r.0 < r.1 {
        rate.skip(r.0)
    } else {
        none
    };
    let right = if p.0 < p.1 {
        preset.take(p.1)
    } else {
        none
    };
    let back = if p.0 < p.1 {
        preset.skip(p.1)
    } else {
        preset
    };
    let middle = left + seq![':'] + right;
    assert(rate + seq![':'] + preset =~= front + middle + back);
    assert(middle[0] == (if r.0 < r.1 {
        rate[r.0]
    } else {
        ':'
    }));
    assert(middle.last() == (if p.0 < p.1 {
        preset[p.1 - 1]
    } else {
        ':'
    }));
    text::law_trim_leaves_the_middle(front, middle, back);
    assert(!left.contains(':')) by {
        if left.contains(':') {
            let j = choose|j: int| 0 <= j < left.len() && left[j] == ':';
            assert(rate[r.0 + j] == ':');
        }
    }
    text::law_parting_at_a_separator(left, right, ':');
    assert(text::trimmed(left) == text::trimmed(rate)) by {
        if r.0 < r.1 {
            let core = rate.subrange(r.0, r.1);
            assert(left =~= none + core + rate.skip(r.1));
            assert(core.last() == rate[r.1 - 1]);
            text::law_trim_leaves_the_middle(none, core, rate.skip(r.1));
        } else {
            text::lemma_trimmed_unchanged(none);
            assert(rate.subrange(r.0, r.1) =~= none);
        }
    }
    assert(text::trimmed(right) == text::trimmed(preset)) by {
        if p.0 < p.1 {
            let core = preset.subrange(p.0, p.1);
            assert(right =~= preset.take(p.0) + core + none);
            assert(core.last() == preset[p.1 - 1]);
            text::law_trim_leaves_the_middle(preset.take(p.0), core, none);
        } else {
            text::lemma_trimmed_unchanged(none);
            assert(preset.subrange(p.0, p.1) =~= none);
        }
    }
    let t = text::trimmed(rate);
    assert(!t.contains(':')) by {
        if t.contains(':') {
            let j = choose|j: int| 0 <= j < t.len() && t[j] == ':';
            assert(rate[r.0 + j] == ':');
        }
    }
    text::law_parting_at_a_separator(t, none, ':');
}

/// Entries count in order: one that says something sets the preset of its rate, and one that says
/// nothing changes nothing.
pub proof fn law_entries_count_in_order(entries: Seq<Seq<char>>, entry: Seq<char>)
    ensures
        preset_entries(Seq::empty()) == Map::<u32, Seq<char>>::empty(),
        preset_entry(entry) matches Some(p) ==> preset_entries(entries.push(entry))
            == preset_entries(entries).insert(p.0, p.1),
        preset_entry(entry) is None ==> preset_entries(entries.push(entry)) == preset_entries(
            entries,
        ),
{
    assert(entries.push(entry).drop_last() =~= entries);
}

/// A server has as many receivers as are configured for it, but one where there are none, and 255
/// where there are more.
pub proof fn law_number_of_receivers(trx: Seq<config_file::TrxConfigView>)
    ensures
        trx.len() == 0 ==> trx_count(trx) == 1,
        1 <= trx.len() <= 255 ==> trx_count(trx) == trx.len(),
        trx.len() > 255 ==> trx_count(trx) == 255,
{
}

/// The tunings at the start: one for each receiver that has a frequency, in order, for VFO A and with
/// that frequency; of more than 255 receivers, for the first 255.
pub proof fn law_tunings_at_the_start(
    trx: Seq<config_file::TrxConfigView>,
    next: config_file::TrxConfigView,
)
    ensures
        initial_tunes(Seq::empty()).len() == 0,
        trx.len() >= 255 || next.freq == 0 ==> initial_tunes(trx.push(next)) == initial_tunes(trx),
        trx.len() < 255 && next.freq > 0 ==> initial_tunes(trx.push(next)) == initial_tunes(
            trx,
        ).push((BridgeCmd::Tune { trx: trx.len() as u8, vfo: 0, freq_hz: next.freq })),
{
    assert(trx.push(next).drop_last() =~= trx);
    if trx.len() >= 255 {
        assert(trx.push(next).take(255) =~= at_most(trx, 255));
    }
}

/// What a server is started with: its number, all addresses and its port, its label in the name of
/// the device, its receivers, two channels each, VFOs from 10 kHz to 30 MHz, a passband of half the
/// sample rate to either side, the offered modulations, and its start state.
pub proof fn law_what_a_server_starts_with(
    plan: &EndpointPlan,
    endpoint_id: u8,
    endpoint: ResolvedView,
)
    requires
        plan_fits(plan, endpoint_id, endpoint),
    ensures
        plan.endpoint_id == endpoint_id,
        plan.bind@ == "0.0.0.0:"@ + decimal::numeral(endpoint.port as nat),
        plan.server.device_name@ == "ka9q-tci/"@ + endpoint.label,
        1 <= endpoint.trx.len() <= 255 ==> plan.server.trx_count == endpoint.trx.len(),
        endpoint.trx.len() == 0 ==> plan.server.trx_count == 1,
        endpoint.trx.len() > 255 ==> plan.server.trx_count == 255,
        plan.server.channel_count == 2,
        plan.server.vfo_min_hz == 10_000,
        plan.server.vfo_max_hz == 30_000_000,
        plan.server.if_max_hz == endpoint.iq_samplerate / 2,
        plan.server.if_min_hz == -(endpoint.iq_samplerate / 2),
        plan.server.modulations@.map_values(|s: String| s@) == server::default_modulations(),
        plan.state.iq_samplerate == endpoint.iq_samplerate,
        plan.state.trx@.len() == plan.server.trx_count,
        plan.tunes@ == initial_tunes(endpoint.trx),
{
    assert(plan.state@.trx.len() == plan.state.trx@.len());
}

/// Each receiver of a server starts as it is configured.
pub proof fn law_receivers_start_as_configured(
    plan: &EndpointPlan,
    endpoint_id: u8,
    endpoint: ResolvedView,
    i: int,
)
    requires
        plan_fits(plan, endpoint_id, endpoint),
        0 <= i < endpoint.trx.len(),
        i < 255,
    ensures
        ({
            let c = endpoint.trx[i];
            let t = plan.state.trx@[i];
            &&& t.dds_freq_hz == c.freq
            &&& t.vfo@[0].freq_hz == c.freq
            &&& c.freq_b matches Some(f) ==> t.vfo@[1].freq_hz == f
            &&& c.freq_b is None ==> t.vfo@[1].freq_hz == c.freq
            &&& t.modulation@ == c.modulation
        }),
{
    assert(plan.state@.trx.len() == plan.state.trx@.len());
    assert(plan.state@.trx[i] == plan.state.trx@[i]@);
    state::law_configured_frequencies(
        trx_count(endpoint.trx) as nat,
        endpoint.iq_samplerate,
        endpoint.trx,
        i,
    );
}

/// What an error says names what was met.
pub proof fn law_error_texts(addr: String, n: usize)
    ensures
        EndpointError::NoPort(addr).text() == "--bind-addr "@ + addr@ + " non ha una porta valida"@,
        EndpointError::TooMany(n).text() == "troppi endpoint ("@ + decimal::numeral(n as nat)
            + "): max "@ + decimal::numeral(255) + " (limite SSRC encoding)"@,
{
}

} // verus!
