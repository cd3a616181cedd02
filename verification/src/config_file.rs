//! What a configuration file can say.
//!
//! A file either lists TCI servers of their own, one for each band, under `endpoints`, or lists
//! receivers under `trx`, which a single server then offers. Where both are present, `endpoints`
//! prevails.

use vstd::prelude::*;

verus! {

/// The start values of one receiver.
#[derive(Debug)]
pub struct TrxConfig {
    /// Frequency of VFO A in Hz.
    pub freq: u64,
    /// Modulation, such as `USB`, `LSB` or `CW`.
    pub modulation: String,
    /// Frequency of VFO B in Hz; that of VFO A where it is absent.
    pub freq_b: Option<u64>,
}

/// A `TrxConfig` with its modulation as a sequence.
pub struct TrxConfigView {
    pub freq: u64,
    pub modulation: Seq<char>,
    pub freq_b: Option<u64>,
}

impl View for TrxConfig {
    type V = TrxConfigView;

    open spec fn view(&self) -> TrxConfigView {
        TrxConfigView { freq: self.freq, modulation: self.modulation@, freq_b: self.freq_b }
    }
}

impl Clone for TrxConfig {
    fn clone(&self) -> (r: TrxConfig)
        ensures
            r@ == self@,
    {
        TrxConfig {
            freq: self.freq,
            modulation: self.modulation.clone(),
            freq_b: self.freq_b,
        }
    }
}

/// The views of a sequence of receivers.
pub open spec fn trx_views(trx: Seq<TrxConfig>) -> Seq<TrxConfigView> {
    trx.map_values(|t: TrxConfig| t@)
}

/// A second list of receivers with the same contents.
pub fn clone_trx(trx: &[TrxConfig]) -> (r: Vec<TrxConfig>)
    ensures
        trx_views(r@) == trx_views(trx@),
{
    let mut out: Vec<TrxConfig> = Vec::new();
    let mut i: usize = 0;
    while i < trx.len()
        invariant
            i <= trx@.len(),
            trx_views(out@) == trx_views(trx@).take(i as int),
        decreases trx@.len() - i,
    {
        let ghost before = out@;
        let t = trx[i].clone();
        out.push(t);
        i = i + 1;
        assert(trx_views(out@) =~= trx_views(before).push(trx_views(trx@)[i - 1]));
        assert(trx_views(out@) =~= trx_views(trx@).take(i as int));
    }
    assert(trx_views(trx@).take(i as int) =~= trx_views(trx@));
    out
}

/// The modulation of a receiver for which none is given.
pub fn default_modulation() -> (r: String)
    ensures
        r@ == "USB"@,
{
    "USB".to_owned()
}

/// One TCI server: its port and its receivers.
#[derive(Debug)]
pub struct EndpointConfig {
    /// WebSocket port.
    pub port: u16,
    /// Name for people, shown to clients as part of the device name.
    pub label: Option<String>,
    /// Sample rate announced to the clients of this server.
    pub iq_samplerate: Option<u32>,
    /// The receivers of this server.
    pub trx: Vec<TrxConfig>,
}

/// An `EndpointConfig` with its texts and receivers as sequences.
pub struct EndpointView {
    pub port: u16,
    pub label: Option<Seq<char>>,
    pub iq_samplerate: Option<u32>,
    pub trx: Seq<TrxConfigView>,
}

impl View for EndpointConfig {
    type V = EndpointView;

    open spec fn view(&self) -> EndpointView {
        EndpointView {
            port: self.port,
            label: match self.label {
                Some(s) => Some(s@),
                None => None,
            },
            iq_samplerate: self.iq_samplerate,
            trx: trx_views(self.trx@),
        }
    }
}

/// The views of a sequence of servers.
pub open spec fn endpoint_views(endpoints: Seq<EndpointConfig>) -> Seq<EndpointView> {
    endpoints.map_values(|e: EndpointConfig| e@)
}

/// Everything that a configuration file says.
#[derive(Debug)]
pub struct FileConfig {
    /// The receivers of the only server, where no servers are listed. What exceeds the largest
    /// number of receivers is not used.
    pub trx: Vec<TrxConfig>,
    /// The servers.
    pub endpoints: Vec<EndpointConfig>,
}

/// A `FileConfig` as sequences of views.
pub struct FileView {
    pub trx: Seq<TrxConfigView>,
    pub endpoints: Seq<EndpointView>,
}

impl View for FileConfig {
    type V = FileView;

    open spec fn view(&self) -> FileView {
        FileView { trx: trx_views(self.trx@), endpoints: endpoint_views(self.endpoints@) }
    }
}

impl Default for FileConfig {
    fn default() -> (r: FileConfig)
        ensures
            r@.trx == Seq::<TrxConfigView>::empty(),
            r@.endpoints == Seq::<EndpointView>::empty(),
    {
        FileConfig { trx: Vec::new(), endpoints: Vec::new() }
    }
}

impl FileConfig {
    /// Whether the file lists servers.
    pub fn has_endpoints(&self) -> (r: bool)
        ensures
            r == (self@.endpoints.len() > 0),
    {
        self.endpoints.len() > 0
    }
}

} // verus!
