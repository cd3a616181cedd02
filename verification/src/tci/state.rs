//! The state of the receivers that one TCI server offers.
//!
//! Each receiver has a centre frequency, two VFOs, a modulation and a filter.

use vstd::prelude::*;

use crate::config_file;
use crate::config_file::TrxConfig;
use crate::decimal;
use crate::tci::protocol;
use crate::text;

verus! {

/// The state of one VFO.
#[derive(Debug, Clone, Copy, PartialEq, Eq, Structural)]
pub struct VfoState {
    pub freq_hz: u64,
    pub if_offset_hz: i64,
    pub enabled: bool,
}

impl Default for VfoState {
    fn default() -> (r: VfoState)
        ensures
            r == (VfoState { freq_hz: 7_074_000, if_offset_hz: 0, enabled: true }),
    {
        VfoState { freq_hz: 7_074_000, if_offset_hz: 0, enabled: true }
    }
}

/// The state of one receiver.
#[derive(Debug)]
pub struct TrxState {
    pub dds_freq_hz: u64,
    /// VFO A and VFO B.
    pub vfo: [VfoState; 2],
    pub modulation: String,
    pub filter_low: i32,
    pub filter_high: i32,
}

/// A `TrxState` with its VFOs and its modulation as sequences.
#[verifier::ext_equal]
pub struct TrxView {
    pub dds_freq_hz: u64,
    pub vfo: Seq<VfoState>,
    pub modulation: Seq<char>,
    pub filter_low: i32,
    pub filter_high: i32,
}

impl View for TrxState {
    type V = TrxView;

    open spec fn view(&self) -> TrxView {
        TrxView {
            dds_freq_hz: self.dds_freq_hz,
            vfo: self.vfo@,
            modulation: self.modulation@,
            filter_low: self.filter_low,
            filter_high: self.filter_high,
        }
    }
}

/// The views of a sequence of receivers.
pub open spec fn trx_views(trx: Seq<TrxState>) -> Seq<TrxView> {
    trx.map_values(|t: TrxState| t@)
}

/// The state of a receiver for which nothing is configured: VFO A is on, VFO B is off.
pub open spec fn default_trx() -> TrxView {
    TrxView {
        dds_freq_hz: 7_074_000,
        vfo: seq![
            VfoState { freq_hz: 7_074_000, if_offset_hz: 0, enabled: true },
            VfoState { freq_hz: 7_074_000, if_offset_hz: 0, enabled: false },
        ],
        modulation: "USB"@,
        filter_low: 0,
        filter_high: 3000,
    }
}

impl Default for TrxState {
    fn default() -> (r: TrxState)
        ensures
            r@ == default_trx(),
    {
        let off = VfoState { enabled: false, ..VfoState::default() };
        let r = TrxState {
            dds_freq_hz: 7_074_000,
            vfo: [VfoState::default(), off],
            modulation: "USB".to_owned(),
            filter_low: 0,
            filter_high: 3000,
        };
        assert(r@ =~= default_trx());
        r
    }
}

// ---------------------------------------------------------------------------------------------
// The buffer for IQ frames
// ---------------------------------------------------------------------------------------------

/// Complex samples in one RTP packet, as ka9q-radio sends them in a standard Ethernet frame. Only
/// the size of the buffer depends on it.
const ASSUMED_SAMPLES_PER_FRAME: u32 = 360;

/// How many seconds of IQ frames the buffer holds before frames are dropped.
const BUF_TARGET_SECONDS: u32 = 2;

/// The number of IQ frames to buffer at a sample rate: two seconds of them, but at least 128 and at
/// most 8192.
pub open spec fn buffer_size(iq_samplerate: u32) -> nat {
    let target = (iq_samplerate / 360) * 2;
    if target < 128 {
        128
    } else if target > 8192 {
        8192
    } else {
        target as nat
    }
}

/// The number of IQ frames to buffer at a sample rate.
pub fn iq_buffer_size(iq_samplerate: u32) -> (r: usize)
    ensures
        r == buffer_size(iq_samplerate),
{
    let frames_per_sec: u32 = iq_samplerate / ASSUMED_SAMPLES_PER_FRAME;
    let target: usize = frames_per_sec as usize * BUF_TARGET_SECONDS as usize;
    if target < 128 {
        128
    } else if target > 8192 {
        8192
    } else {
        target
    }
}

/// An IQ frame as it is sent to clients: the endpoint and the receiver that it belongs to, and the
/// bytes of the frame.
#[derive(Debug)]
pub struct IqFrame {
    pub endpoint: u8,
    pub trx: u32,
    pub data: Vec<u8>,
}

impl Clone for IqFrame {
    fn clone(&self) -> (r: IqFrame)
        ensures
            r.endpoint == self.endpoint,
            r.trx == self.trx,
            r.data@ == self.data@,
    {
        IqFrame {
            endpoint: self.endpoint,
            trx: self.trx,
            data: vstd::slice::slice_to_vec(self.data.as_slice()),
        }
    }
}

// ---------------------------------------------------------------------------------------------
// The state of a server
// ---------------------------------------------------------------------------------------------

/// The receivers of a server, and the sample rate of their IQ streams.
#[derive(Debug)]
pub struct SharedState {
    pub trx: Vec<TrxState>,
    pub iq_samplerate: u32,
}

/// A `SharedState` with its receivers as a sequence of views.
#[verifier::ext_equal]
pub struct StateView {
    pub trx: Seq<TrxView>,
    pub iq_samplerate: u32,
}

impl View for SharedState {
    type V = StateView;

    open spec fn view(&self) -> StateView {
        StateView { trx: trx_views(self.trx@), iq_samplerate: self.iq_samplerate }
    }
}

/// The state in which a receiver starts. VFO B starts at the frequency of VFO A where the
/// configuration gives it none.
pub open spec fn initial_trx(config: Option<config_file::TrxConfigView>) -> TrxView {
    match config {
        None => default_trx(),
        Some(c) => {
            let freq_b = match c.freq_b {
                Some(f) => f,
                None => c.freq,
            };
            TrxView {
                dds_freq_hz: c.freq,
                vfo: seq![
                    VfoState { freq_hz: c.freq, if_offset_hz: 0, enabled: true },
                    VfoState { freq_hz: freq_b, if_offset_hz: 0, enabled: false },
                ],
                modulation: c.modulation,
                ..default_trx()
            }
        },
    }
}

/// The state in which a server starts: the first receivers as configured, the others by default.
pub open spec fn initial_state(
    trx_count: nat,
    iq_samplerate: u32,
    initial: Seq<config_file::TrxConfigView>,
) -> StateView {
    StateView {
        trx: Seq::new(
            trx_count,
            |i: int|
                initial_trx(
                    if i < initial.len() {
                        Some(initial[i])
                    } else {
                        None
                    },
                ),
        ),
        iq_samplerate,
    }
}

/// `true` or `false`.
pub open spec fn bool_text(b: bool) -> Seq<char> {
    if b {
        "true"@
    } else {
        "false"@
    }
}

/// `true` or `false`.
pub(crate) fn bool_str(b: bool) -> (r: &'static str)
    ensures
        r@ == bool_text(b),
{
    if b {
        "true"
    } else {
        "false"
    }
}

/// What a client is told of receiver `i`. The server only receives, so transmission is off.
pub open spec fn trx_lines(i: nat, trx: TrxView) -> Seq<Seq<char>> {
    let n = decimal::numeral(i);
    seq![
        protocol::message("tx_enable"@, seq![n, "false"@]),
        protocol::message("trx"@, seq![n, "false"@]),
        protocol::message("rx_enable"@, seq![n, "true"@]),
        protocol::message("dds"@, seq![n, decimal::numeral(trx.dds_freq_hz as nat)]),
        protocol::message("vfo"@, seq![n, "0"@, decimal::numeral(trx.vfo[0].freq_hz as nat)]),
        protocol::message("vfo"@, seq![n, "1"@, decimal::numeral(trx.vfo[1].freq_hz as nat)]),
        protocol::message("rx_channel_enable"@, seq![n, "1"@, bool_text(trx.vfo[1].enabled)]),
        protocol::message("modulation"@, seq![n, trx.modulation]),
        protocol::message(
            "rx_filter_band"@,
            seq![
                n,
                decimal::signed_numeral(trx.filter_low as int),
                decimal::signed_numeral(trx.filter_high as int),
            ],
        ),
    ]
}

/// What a client is told of all receivers, in order.
pub open spec fn all_trx_lines(trx: Seq<TrxView>) -> Seq<Seq<char>>
    decreases trx.len(),
{
    if trx.len() == 0 {
        Seq::empty()
    } else {
        all_trx_lines(trx.drop_last()) + trx_lines((trx.len() - 1) as nat, trx.last())
    }
}

/// What a client is told of the state: all receivers, then that the device runs.
pub open spec fn state_lines(state: StateView) -> Seq<Seq<char>> {
    all_trx_lines(state.trx).push(protocol::message("start"@, Seq::empty()))
}

/// Appends what a client is told of receiver `i`.
fn push_trx_lines(msgs: &mut Vec<String>, i: usize, trx: &TrxState)
    ensures
        text::string_views(final(msgs)@) == text::string_views(old(msgs)@) + trx_lines(
            i as nat,
            trx@,
        ),
{
    let ghost before = text::string_views(msgs@);
    let n = decimal::unsigned_string(i as u64);
    let n = n.as_str();
    msgs.push(protocol::message_of_two("tx_enable", n, "false"));
    msgs.push(protocol::message_of_two("trx", n, "false"));
    msgs.push(protocol::message_of_two("rx_enable", n, "true"));
    msgs.push(
        protocol::message_of_two("dds", n, decimal::unsigned_string(trx.dds_freq_hz).as_str()),
    );
    msgs.push(
        protocol::message_of_three(
            "vfo",
            n,
            "0",
            decimal::unsigned_string(trx.vfo[0].freq_hz).as_str(),
        ),
    );
    msgs.push(
        protocol::message_of_three(
            "vfo",
            n,
            "1",
            decimal::unsigned_string(trx.vfo[1].freq_hz).as_str(),
        ),
    );
    msgs.push(
        protocol::message_of_three("rx_channel_enable", n, "1", bool_str(trx.vfo[1].enabled)),
    );
    msgs.push(protocol::message_of_two("modulation", n, trx.modulation.as_str()));
    msgs.push(
        protocol::message_of_three(
            "rx_filter_band",
            n,
            decimal::signed_string(trx.filter_low as i64).as_str(),
            decimal::signed_string(trx.filter_high as i64).as_str(),
        ),
    );
    assert(text::string_views(msgs@) =~= before + trx_lines(i as nat, trx@));
}

impl SharedState {
    /// A state in which all receivers start by default.
    pub fn new(trx_count: usize, iq_samplerate: u32) -> (r: SharedState)
        ensures
            r@ == initial_state(trx_count as nat, iq_samplerate, Seq::empty()),
    {
        let none: [TrxConfig; 0] = [];
        assert(config_file::trx_views(none@) =~= Seq::<config_file::TrxConfigView>::empty());
        SharedState::new_with_initial(trx_count, iq_samplerate, none.as_slice())
    }

    /// A state in which receiver `i` starts as `initial[i]` says, and those beyond by default.
    pub fn new_with_initial(trx_count: usize, iq_samplerate: u32, initial: &[TrxConfig]) -> (r:
        SharedState)
        ensures
            r@ == initial_state(
                trx_count as nat,
                iq_samplerate,
                config_file::trx_views(initial@),
            ),
    {
        let ghost wanted = initial_state(
            trx_count as nat,
            iq_samplerate,
            config_file::trx_views(initial@),
        );
        let mut trx: Vec<TrxState> = Vec::new();
        let mut i: usize = 0;
        while i < trx_count
            invariant
                i <= trx_count,
                wanted == initial_state(
                    trx_count as nat,
                    iq_samplerate,
                    config_file::trx_views(initial@),
                ),
                trx_views(trx@) == wanted.trx.take(i as int),
            decreases trx_count - i,
        {
            let ghost before = trx@;
            let mut s = TrxState::default();
            if i < initial.len() {
                let cfg = &initial[i];
                s.dds_freq_hz = cfg.freq;
                s.vfo[0].freq_hz = cfg.freq;
                s.vfo[1].freq_hz = match cfg.freq_b {
                    Some(f) => f,
                    None => cfg.freq,
                };
                s.modulation = cfg.modulation.clone();
                assert(s@ =~= initial_trx(Some(cfg@)));
            }
            assert(s@ == wanted.trx[i as int]);
            trx.push(s);
            i = i + 1;
            assert(trx_views(trx@) =~= trx_views(before).push(wanted.trx[i - 1]));
            assert(trx_views(trx@) =~= wanted.trx.take(i as int));
        }
        assert(wanted.trx.take(i as int) =~= wanted.trx);
        SharedState { trx, iq_samplerate }
    }

    /// What a client is told of the state after the handshake.
    pub fn current_state_messages(&self) -> (r: Vec<String>)
        ensures
            text::string_views(r@) == state_lines(self@),
    {
        let mut msgs: Vec<String> = Vec::new();
        let mut i: usize = 0;
        assert(text::string_views(msgs@) =~= all_trx_lines(self@.trx.take(0)));
        while i < self.trx.len()
            invariant
                i <= self.trx@.len(),
                text::string_views(msgs@) == all_trx_lines(self@.trx.take(i as int)),
            decreases self.trx@.len() - i,
        {
            push_trx_lines(&mut msgs, i, &self.trx[i]);
            i = i + 1;
            assert(self@.trx.take(i as int).drop_last() =~= self@.trx.take(i - 1));
        }
        assert(self@.trx.take(i as int) =~= self@.trx);
        let ghost before = msgs@;
        let none: [&str; 0] = [];
        assert(text::views(none@) =~= Seq::<Seq<char>>::empty());
        msgs.push(protocol::format_msg("start", none.as_slice()));
        assert(text::string_views(msgs@) =~= text::string_views(before).push(
            protocol::message("start"@, Seq::empty()),
        ));
        msgs
    }
}

// ---------------------------------------------------------------------------------------------
// Laws
// ---------------------------------------------------------------------------------------------

/// Whether every receiver has two VFOs.
pub open spec fn valid(state: StateView) -> bool {
    forall|i: int| 0 <= i < state.trx.len() ==> (#[trigger] state.trx[i]).vfo.len() == 2
}

/// Every state is valid.
pub proof fn law_states_are_valid(state: &SharedState)
    ensures
        valid(state@),
{
}

/// The buffer holds at least 128 and at most 8192 frames, and a higher sample rate never gets a
/// smaller one.
pub proof fn law_buffer_size(slower: u32, faster: u32)
    requires
        slower <= faster,
    ensures
        128 <= buffer_size(slower) <= buffer_size(faster) <= 8192,
{
}

/// Where neither bound applies, the buffer holds two seconds of frames, rounded down to whole frames
/// in each second.
pub proof fn law_buffer_holds_two_seconds(iq_samplerate: u32)
    requires
        23_040 <= iq_samplerate < 1_474_920,
    ensures
        buffer_size(iq_samplerate) == 2 * (iq_samplerate / 360),
{
}

/// A server announces VFO A of each receiver at the frequency that is configured for it, and VFO B
/// at its own or the same one.
pub proof fn law_configured_frequencies(
    trx_count: nat,
    iq_samplerate: u32,
    initial: Seq<config_file::TrxConfigView>,
    i: int,
)
    requires
        0 <= i < trx_count,
        i < initial.len(),
    ensures
        ({
            let t = initial_state(trx_count, iq_samplerate, initial).trx[i];
            &&& t.dds_freq_hz == initial[i].freq
            &&& t.vfo[0].freq_hz == initial[i].freq
            &&& t.vfo[1].freq_hz == (match initial[i].freq_b {
                Some(f) => f,
                None => initial[i].freq,
            })
            &&& t.modulation == initial[i].modulation
        }),
{
}

/// The announced state ends with the message that the device runs, behind nine messages for each
/// receiver.
pub proof fn law_state_lines_end_with_start(state: StateView)
    ensures
        state_lines(state).len() == 9 * state.trx.len() + 1,
        state_lines(state).last() == protocol::message("start"@, Seq::empty()),
{
    lemma_all_trx_lines_len(state.trx);
}

proof fn lemma_all_trx_lines_len(trx: Seq<TrxView>)
    ensures
        all_trx_lines(trx).len() == 9 * trx.len(),
    decreases trx.len(),
{
    if trx.len() > 0 {
        lemma_all_trx_lines_len(trx.drop_last());
    }
}

/// A receiver for which nothing is configured starts at 7074 kHz with both VFOs and the centre, in
/// upper side band, with a filter up to 3 kHz, VFO A on and VFO B off.
pub proof fn law_unconfigured_receiver(
    trx_count: nat,
    iq_samplerate: u32,
    initial: Seq<config_file::TrxConfigView>,
    i: int,
)
    requires
        initial.len() <= i < trx_count,
    ensures
        ({
            let t = initial_state(trx_count, iq_samplerate, initial).trx[i];
            &&& t.dds_freq_hz == 7_074_000
            &&& t.vfo.len() == 2
            &&& t.vfo[0] == (VfoState { freq_hz: 7_074_000, if_offset_hz: 0, enabled: true })
            &&& t.vfo[1] == (VfoState { freq_hz: 7_074_000, if_offset_hz: 0, enabled: false })
            &&& t.modulation == "USB"@
            &&& t.filter_low == 0 && t.filter_high == 3000
        }),
{
}

/// A server starts with as many receivers as it is given and with its sample rate. Configured
/// receivers differ from others in frequencies and modulation alone.
pub proof fn law_start_of_a_server(
    trx_count: nat,
    iq_samplerate: u32,
    initial: Seq<config_file::TrxConfigView>,
    i: int,
)
    ensures
        ({
            let s = initial_state(trx_count, iq_samplerate, initial);
            &&& s.trx.len() == trx_count
            &&& s.iq_samplerate == iq_samplerate
            &&& 0 <= i < trx_count ==> {
                let t = s.trx[i];
                &&& t.vfo.len() == 2
                &&& t.vfo[0].enabled && !t.vfo[1].enabled
                &&& t.vfo[0].if_offset_hz == 0 && t.vfo[1].if_offset_hz == 0
                &&& t.filter_low == 0 && t.filter_high == 3000
            }
        }),
{
}

/// Truth values are written out.
pub proof fn law_words_of_truth()
    ensures
        bool_text(true) == "true"@,
        bool_text(false) == "false"@,
{
}

/// The view of a state holds what the state holds.
pub proof fn law_view_of_a_state(state: &SharedState, i: int, v: int)
    ensures
        state@.iq_samplerate == state.iq_samplerate,
        state@.trx.len() == state.trx@.len(),
        0 <= i < state.trx@.len() ==> {
            let t = state@.trx[i];
            &&& t.dds_freq_hz == state.trx@[i].dds_freq_hz
            &&& t.modulation == state.trx@[i].modulation@
            &&& t.filter_low == state.trx@[i].filter_low
            &&& t.filter_high == state.trx@[i].filter_high
            &&& t.vfo.len() == 2
            &&& 0 <= v < 2 ==> t.vfo[v] == state.trx@[i].vfo@[v]
        },
{
}

/// The buffer is the smallest one up to 23 kHz and the largest one from 1475 kHz on.
pub proof fn law_smallest_and_largest_buffer(iq_samplerate: u32)
    ensures
        iq_samplerate < 23_040 ==> buffer_size(iq_samplerate) == 128,
        iq_samplerate >= 1_474_920 ==> buffer_size(iq_samplerate) == 8192,
{
}

} // verus!
