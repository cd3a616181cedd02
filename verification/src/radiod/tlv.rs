//! TLV codec of ka9q-radio's control protocol.
//!
//! Wire format:
//!   byte 0     packet type: status = 0, command = 1
//!   byte 1..   a sequence of TLVs, closed by EOL (0x00)
//!
//! Each TLV:
//!   1 byte   tag
//!   1+ bytes length (if bit 7 is set, the low 7 bits say how many bytes follow that hold the
//!            length in big-endian order)
//!   N bytes  value
//!
//! Integers are big-endian without leading zero bytes, so 0 has length 0. A single-precision
//! number is the four bytes of its IEEE 754 bit pattern, a double-precision number the eight bytes
//! of its bit pattern, both big-endian.

use bytes::{BufMut, BytesMut};
use vstd::prelude::*;

use crate::decimal;

verus! {

// ---------------------------------------------------------------------------------------------
// The byte buffer of the `bytes` crate
// ---------------------------------------------------------------------------------------------

/// `bytes::BytesMut`, a growable byte buffer.
#[verifier::external_type_specification]
#[verifier::external_body]
pub struct ExBytesMut(bytes::BytesMut);

/// The bytes that a `bytes::BytesMut` holds, in order.
pub uninterp spec fn buffer_bytes(buf: BytesMut) -> Seq<u8>;

/// Whether a `bytes::BytesMut` is the only user of its allocation and starts where the allocation
/// starts, as one does that has only grown since it was made.
pub uninterp spec fn buffer_is_whole(buf: BytesMut) -> bool;

/// The largest length to which a buffer with an allocation of its own can always grow: growing
/// doubles the capacity, and no allocation may exceed `isize::MAX` bytes.
pub open spec fn max_buffer() -> int {
    isize::MAX as int / 2
}

/// `BytesMut::with_capacity` makes an empty buffer with an allocation of its own.
#[verifier::external_body]
fn buffer_with_capacity(capacity: usize) -> (buf: BytesMut)
    requires
        capacity <= isize::MAX,
    ensures
        buffer_bytes(buf) == Seq::<u8>::empty(),
        buffer_is_whole(buf),
{
    BytesMut::with_capacity(capacity)
}

/// `BufMut::put_u8` appends one byte, and leaves the buffer with an allocation of its own.
#[verifier::external_body]
fn put_u8(buf: &mut BytesMut, v: u8)
    requires
        buffer_is_whole(*old(buf)),
        buffer_bytes(*old(buf)).len() + 1 <= max_buffer(),
    ensures
        buffer_bytes(*final(buf)) == buffer_bytes(*old(buf)).push(v),
        buffer_is_whole(*final(buf)),
{
    buf.put_u8(v);
}

/// `BufMut::put_u16` appends the two bytes of a number, the high one first, and leaves the buffer
/// with an allocation of its own.
#[verifier::external_body]
fn put_u16(buf: &mut BytesMut, v: u16)
    requires
        buffer_is_whole(*old(buf)),
        buffer_bytes(*old(buf)).len() + 2 <= max_buffer(),
    ensures
        buffer_bytes(*final(buf)) == buffer_bytes(*old(buf)).push((v / 256) as u8).push(
            (v % 256) as u8,
        ),
        buffer_is_whole(*final(buf)),
{
    buf.put_u16(v);
}

/// `BufMut::put_slice` appends the given bytes, and leaves the buffer with an allocation of its own.
#[verifier::external_body]
fn put_slice(buf: &mut BytesMut, data: &[u8])
    requires
        buffer_is_whole(*old(buf)),
        buffer_bytes(*old(buf)).len() + data@.len() <= max_buffer(),
    ensures
        buffer_bytes(*final(buf)) == buffer_bytes(*old(buf)) + data@,
        buffer_is_whole(*final(buf)),
{
    buf.put_slice(data);
}

// ---------------------------------------------------------------------------------------------
// Types
// ---------------------------------------------------------------------------------------------

/// The type of a packet.
#[derive(Debug, Clone, Copy, PartialEq, Eq, Structural)]
pub enum PktType {
    Status,
    Command,
}

impl PktType {
    /// The byte that stands for the type on the wire.
    pub open spec fn wire(self) -> u8 {
        match self {
            PktType::Status => 0,
            PktType::Command => 1,
        }
    }

    /// The byte that stands for the type on the wire.
    pub fn code(self) -> (r: u8)
        ensures
            r == self.wire(),
    {
        match self {
            PktType::Status => 0,
            PktType::Command => 1,
        }
    }
}

/// The packet type that a byte stands for.
pub open spec fn pkt_type_of(v: u8) -> Result<PktType, TlvError> {
    if v == 0 {
        Ok(PktType::Status)
    } else if v == 1 {
        Ok(PktType::Command)
    } else {
        Err(TlvError::UnknownPktType(v))
    }
}

impl TryFrom<u8> for PktType {
    type Error = TlvError;

    fn try_from(v: u8) -> (r: Result<Self, Self::Error>) {
        match v {
            0 => Ok(PktType::Status),
            1 => Ok(PktType::Command),
            _ => Err(TlvError::UnknownPktType(v)),
        }
    }
}

impl vstd::std_specs::convert::TryFromSpecImpl<u8> for PktType {
    open spec fn obeys_try_from_spec() -> bool {
        true
    }

    open spec fn try_from_spec(v: u8) -> Result<Self, Self::Error> {
        pkt_type_of(v)
    }
}

/// The tags that the bridge uses, from ka9q-radio's `enum status_type` in `src/status.h`.
#[derive(Debug, Clone, Copy, PartialEq, Eq, Hash, Structural)]
#[allow(non_camel_case_types)]
pub enum StatusType {
    EOL,
    COMMAND_TAG,
    INPUT_SAMPRATE,
    OUTPUT_DATA_SOURCE_SOCKET,
    OUTPUT_DATA_DEST_SOCKET,
    OUTPUT_SSRC,
    OUTPUT_SAMPRATE,
    RADIO_FREQUENCY,
    FIRST_LO_FREQUENCY,
    SECOND_LO_FREQUENCY,
    SHIFT_FREQUENCY,
    LOW_EDGE,
    HIGH_EDGE,
    DEMOD_TYPE,
    OUTPUT_CHANNELS,
    PRESET,
    RTP_PT,
    OUTPUT_ENCODING,
}

impl StatusType {
    /// The tag byte on the wire.
    pub open spec fn wire(self) -> u8 {
        match self {
            StatusType::EOL => 0,
            StatusType::COMMAND_TAG => 1,
            StatusType::INPUT_SAMPRATE => 10,
            StatusType::OUTPUT_DATA_SOURCE_SOCKET => 16,
            StatusType::OUTPUT_DATA_DEST_SOCKET => 17,
            StatusType::OUTPUT_SSRC => 18,
            StatusType::OUTPUT_SAMPRATE => 20,
            StatusType::RADIO_FREQUENCY => 33,
            StatusType::FIRST_LO_FREQUENCY => 34,
            StatusType::SECOND_LO_FREQUENCY => 35,
            StatusType::SHIFT_FREQUENCY => 36,
            StatusType::LOW_EDGE => 39,
            StatusType::HIGH_EDGE => 40,
            StatusType::DEMOD_TYPE => 48,
            StatusType::OUTPUT_CHANNELS => 49,
            StatusType::PRESET => 85,
            StatusType::RTP_PT => 105,
            StatusType::OUTPUT_ENCODING => 107,
        }
    }

    /// The tag byte on the wire.
    pub fn code(self) -> (r: u8)
        ensures
            r == self.wire(),
    {
        match self {
            StatusType::EOL => 0,
            StatusType::COMMAND_TAG => 1,
            StatusType::INPUT_SAMPRATE => 10,
            StatusType::OUTPUT_DATA_SOURCE_SOCKET => 16,
            StatusType::OUTPUT_DATA_DEST_SOCKET => 17,
            StatusType::OUTPUT_SSRC => 18,
            StatusType::OUTPUT_SAMPRATE => 20,
            StatusType::RADIO_FREQUENCY => 33,
            StatusType::FIRST_LO_FREQUENCY => 34,
            StatusType::SECOND_LO_FREQUENCY => 35,
            StatusType::SHIFT_FREQUENCY => 36,
            StatusType::LOW_EDGE => 39,
            StatusType::HIGH_EDGE => 40,
            StatusType::DEMOD_TYPE => 48,
            StatusType::OUTPUT_CHANNELS => 49,
            StatusType::PRESET => 85,
            StatusType::RTP_PT => 105,
            StatusType::OUTPUT_ENCODING => 107,
        }
    }
}

/// The tag that a byte stands for.
pub open spec fn status_type_of(v: u8) -> Result<StatusType, TlvError> {
    match v {
        0 => Ok(StatusType::EOL),
        1 => Ok(StatusType::COMMAND_TAG),
        10 => Ok(StatusType::INPUT_SAMPRATE),
        16 => Ok(StatusType::OUTPUT_DATA_SOURCE_SOCKET),
        17 => Ok(StatusType::OUTPUT_DATA_DEST_SOCKET),
        18 => Ok(StatusType::OUTPUT_SSRC),
        20 => Ok(StatusType::OUTPUT_SAMPRATE),
        33 => Ok(StatusType::RADIO_FREQUENCY),
        34 => Ok(StatusType::FIRST_LO_FREQUENCY),
        35 => Ok(StatusType::SECOND_LO_FREQUENCY),
        36 => Ok(StatusType::SHIFT_FREQUENCY),
        39 => Ok(StatusType::LOW_EDGE),
        40 => Ok(StatusType::HIGH_EDGE),
        48 => Ok(StatusType::DEMOD_TYPE),
        49 => Ok(StatusType::OUTPUT_CHANNELS),
        85 => Ok(StatusType::PRESET),
        105 => Ok(StatusType::RTP_PT),
        107 => Ok(StatusType::OUTPUT_ENCODING),
        _ => Err(TlvError::UnknownStatusType(v)),
    }
}

impl TryFrom<u8> for StatusType {
    type Error = TlvError;

    fn try_from(v: u8) -> (r: Result<Self, Self::Error>) {
        match v {
            0 => Ok(StatusType::EOL),
            1 => Ok(StatusType::COMMAND_TAG),
            10 => Ok(StatusType::INPUT_SAMPRATE),
            16 => Ok(StatusType::OUTPUT_DATA_SOURCE_SOCKET),
            17 => Ok(StatusType::OUTPUT_DATA_DEST_SOCKET),
            18 => Ok(StatusType::OUTPUT_SSRC),
            20 => Ok(StatusType::OUTPUT_SAMPRATE),
            33 => Ok(StatusType::RADIO_FREQUENCY),
            34 => Ok(StatusType::FIRST_LO_FREQUENCY),
            35 => Ok(StatusType::SECOND_LO_FREQUENCY),
            36 => Ok(StatusType::SHIFT_FREQUENCY),
            39 => Ok(StatusType::LOW_EDGE),
            40 => Ok(StatusType::HIGH_EDGE),
            48 => Ok(StatusType::DEMOD_TYPE),
            49 => Ok(StatusType::OUTPUT_CHANNELS),
            85 => Ok(StatusType::PRESET),
            105 => Ok(StatusType::RTP_PT),
            107 => Ok(StatusType::OUTPUT_ENCODING),
            _ => Err(TlvError::UnknownStatusType(v)),
        }
    }
}

impl vstd::std_specs::convert::TryFromSpecImpl<u8> for StatusType {
    open spec fn obeys_try_from_spec() -> bool {
        true
    }

    open spec fn try_from_spec(v: u8) -> Result<Self, Self::Error> {
        status_type_of(v)
    }
}

/// The values of ka9q-radio's `enum encoding` (`src/rtp.h`), used as integers in
/// `OUTPUT_ENCODING`.
#[derive(Debug, Clone, Copy, PartialEq, Eq, Structural)]
pub enum Encoding {
    NoEncoding,
    S16le,
    S16be,
    Opus,
    /// Single precision, little-endian: what TCI wants in its IQ frames.
    F32le,
}

impl Encoding {
    /// The integer that stands for the encoding on the wire.
    pub open spec fn wire(self) -> u64 {
        match self {
            Encoding::NoEncoding => 0,
            Encoding::S16le => 1,
            Encoding::S16be => 2,
            Encoding::Opus => 3,
            Encoding::F32le => 4,
        }
    }

    /// The integer that stands for the encoding on the wire.
    pub fn code(self) -> (r: u64)
        ensures
            r == self.wire(),
    {
        match self {
            Encoding::NoEncoding => 0,
            Encoding::S16le => 1,
            Encoding::S16be => 2,
            Encoding::Opus => 3,
            Encoding::F32le => 4,
        }
    }
}

/// Why a packet cannot be decoded.
#[derive(Debug, Clone, Copy, PartialEq, Eq, Structural)]
pub enum TlvError {
    UnknownPktType(u8),
    UnknownStatusType(u8),
    Truncated,
    LengthTooLarge(u8),
}

impl TlvError {
    /// What the error says.
    pub open spec fn text(self) -> Seq<char> {
        match self {
            TlvError::UnknownPktType(v) => "unknown packet type: "@ + decimal::numeral(v as nat),
            TlvError::UnknownStatusType(v) => "unknown status type: "@ + decimal::numeral(
                v as nat,
            ),
            TlvError::Truncated => "unexpected end of buffer"@,
            TlvError::LengthTooLarge(n) => "length encoding too large ("@ + decimal::numeral(
                n as nat,
            ) + " meta-bytes)"@,
        }
    }

    /// What the error says.
    pub fn message(&self) -> (r: String)
        ensures
            r@ == self.text(),
    {
        match *self {
            TlvError::UnknownPktType(v) => {
                let mut s = "unknown packet type: ".to_owned();
                s.append(decimal::unsigned_string(v as u64).as_str());
                s
            },
            TlvError::UnknownStatusType(v) => {
                let mut s = "unknown status type: ".to_owned();
                s.append(decimal::unsigned_string(v as u64).as_str());
                s
            },
            TlvError::Truncated => "unexpected end of buffer".to_owned(),
            TlvError::LengthTooLarge(n) => {
                let mut s = "length encoding too large (".to_owned();
                s.append(decimal::unsigned_string(n as u64).as_str());
                s.append(" meta-bytes)");
                s
            },
        }
    }
}

/// A decoded value. `Float` and `Double` hold the IEEE 754 bit pattern of the number.
#[derive(Debug)]
pub enum TlvValue {
    Int(u64),
    Float(u32),
    Double(u64),
    Bytes(Vec<u8>),
}

/// The value of a field, with its bytes as a sequence.
pub enum ValueView {
    Int(u64),
    Float(u32),
    Double(u64),
    Bytes(Seq<u8>),
}

impl View for TlvValue {
    type V = ValueView;

    open spec fn view(&self) -> ValueView {
        match *self {
            TlvValue::Int(v) => ValueView::Int(v),
            TlvValue::Float(b) => ValueView::Float(b),
            TlvValue::Double(b) => ValueView::Double(b),
            TlvValue::Bytes(b) => ValueView::Bytes(b@),
        }
    }
}

impl Clone for TlvValue {
    fn clone(&self) -> (r: TlvValue)
        ensures
            r@ == self@,
    {
        match self {
            TlvValue::Int(v) => TlvValue::Int(*v),
            TlvValue::Float(b) => TlvValue::Float(*b),
            TlvValue::Double(b) => TlvValue::Double(*b),
            TlvValue::Bytes(b) => TlvValue::Bytes(vstd::slice::slice_to_vec(b.as_slice())),
        }
    }
}

/// One field of a packet. The tag stays raw, so that unknown tags are kept.
#[derive(Debug)]
pub struct TlvField {
    pub tag: u8,
    pub value: TlvValue,
}

impl Clone for TlvField {
    fn clone(&self) -> (r: TlvField)
        ensures
            r@ == self@,
    {
        TlvField { tag: self.tag, value: self.value.clone() }
    }
}

/// A field with its value as a `ValueView`.
pub struct FieldView {
    pub tag: u8,
    pub value: ValueView,
}

impl View for TlvField {
    type V = FieldView;

    open spec fn view(&self) -> FieldView {
        FieldView { tag: self.tag, value: self.value@ }
    }
}

/// The views of a sequence of fields.
pub open spec fn field_views(fields: Seq<TlvField>) -> Seq<FieldView> {
    fields.map_values(|f: TlvField| f@)
}

/// The fields that a command is made of, as they stand on the wire.
pub open spec fn command_views(fields: Seq<(StatusType, TlvValue)>) -> Seq<FieldView> {
    fields.map_values(|f: (StatusType, TlvValue)| FieldView { tag: f.0.wire(), value: f.1@ })
}

// ---------------------------------------------------------------------------------------------
// Numbers on the wire
// ---------------------------------------------------------------------------------------------

/// The number that bytes write in big-endian order.
pub open spec fn be_value(s: Seq<u8>) -> nat
    decreases s.len(),
{
    if s.len() == 0 {
        0
    } else {
        be_value(s.drop_last()) * 256 + s.last() as nat
    }
}

/// The big-endian bytes of `v` without leading zeros.
pub open spec fn be_bytes(v: nat) -> Seq<u8>
    decreases v,
{
    if v == 0 {
        Seq::empty()
    } else {
        be_bytes(v / 256).push((v % 256) as u8)
    }
}

/// Whether `s` writes `v` without leading zero bytes.
pub open spec fn shortest_form(s: Seq<u8>, v: nat) -> bool {
    be_value(s) == v && (s.len() > 0 ==> s[0] != 0)
}

/// The last `n` big-endian bytes of `v`.
pub open spec fn be_fixed(v: nat, n: nat) -> Seq<u8>
    decreases n,
{
    if n == 0 {
        Seq::empty()
    } else {
        be_fixed(v / 256, (n - 1) as nat).push((v % 256) as u8)
    }
}

/// Reads a big-endian number; only the last eight bytes count.
pub fn decode_int(data: &[u8]) -> (r: u64)
    ensures
        r == be_value(data@) % 0x1_0000_0000_0000_0000,
{
    let mut v: u64 = 0;
    let mut i: usize = 0;
    while i < data.len()
        invariant
            i <= data@.len(),
            v == be_value(data@.take(i as int)) % 0x1_0000_0000_0000_0000,
        decreases data@.len() - i,
    {
        let b: u64 = data[i] as u64;
        proof {
            let x = be_value(data@.take(i as int)) as int;
            let m: int = 0x1_0000_0000_0000_0000;
            let q = x / m;
            let h = v as int / 0x100_0000_0000_0000;
            let l = v as int % 0x100_0000_0000_0000;
            assert(data@.take(i + 1).drop_last() =~= data@.take(i as int));
            assert(be_value(data@.take(i + 1)) == x * 256 + b);
            assert(((v << 8) | b) == (v % 0x100_0000_0000_0000u64) * 256 + b) by (bit_vector)
                requires
                    b < 256,
            ;
            assert(x * 256 + b == (q * 256 + h) * m + (l * 256 + b));
            assert((x * 256 + b) % m == l * 256 + b);
        }
        v = (v << 8) | b;
        i = i + 1;
    }
    assert(data@.take(i as int) =~= data@);
    v
}

/// The big-endian bytes of `v` without leading zeros.
pub fn int_bytes(v: u64) -> (r: Vec<u8>)
    ensures
        r@ == be_bytes(v as nat),
    decreases v,
{
    if v == 0 {
        Vec::new()
    } else {
        let mut out = int_bytes(v / 256);
        out.push((v % 256) as u8);
        out
    }
}

/// The last `n` big-endian bytes of `v`.
fn fixed_bytes(v: u64, n: u8) -> (r: Vec<u8>)
    ensures
        r@ == be_fixed(v as nat, n as nat),
    decreases n,
{
    if n == 0 {
        Vec::new()
    } else {
        let mut out = fixed_bytes(v / 256, n - 1);
        out.push((v % 256) as u8);
        out
    }
}

// ---------------------------------------------------------------------------------------------
// Decoding
// ---------------------------------------------------------------------------------------------

/// The length that `buf` starts with, and how many bytes hold it.
pub open spec fn length_at(buf: Seq<u8>) -> Result<(nat, nat), TlvError> {
    if buf.len() == 0 {
        Err(TlvError::Truncated)
    } else if buf[0] < 0x80 {
        Ok((buf[0] as nat, 1))
    } else {
        let n = (buf[0] - 0x80) as nat;
        if n > 4 || buf.len() - 1 < n {
            Err(TlvError::LengthTooLarge(n as u8))
        } else {
            Ok((be_value(buf.subrange(1, 1 + n as int)), 1 + n))
        }
    }
}

/// Whether the tag carries a frequency.
pub open spec fn is_frequency(tag: u8) -> bool {
    ||| tag == StatusType::RADIO_FREQUENCY.wire()
    ||| tag == StatusType::FIRST_LO_FREQUENCY.wire()
    ||| tag == StatusType::SECOND_LO_FREQUENCY.wire()
    ||| tag == StatusType::SHIFT_FREQUENCY.wire()
}

/// Whether the tag carries a filter edge.
pub open spec fn is_edge(tag: u8) -> bool {
    ||| tag == StatusType::LOW_EDGE.wire()
    ||| tag == StatusType::HIGH_EDGE.wire()
}

/// Whether the tag carries raw bytes.
pub open spec fn is_raw(tag: u8) -> bool {
    ||| tag == StatusType::PRESET.wire()
    ||| tag == StatusType::OUTPUT_DATA_SOURCE_SOCKET.wire()
    ||| tag == StatusType::OUTPUT_DATA_DEST_SOCKET.wire()
}

/// What the bytes of a field mean, by its tag and their number.
pub open spec fn interpreted(tag: u8, bytes: Seq<u8>) -> ValueView {
    let v = (be_value(bytes) % 0x1_0000_0000_0000_0000) as u64;
    if is_frequency(tag) {
        if bytes.len() == 8 {
            ValueView::Double(v)
        } else if bytes.len() == 4 {
            ValueView::Float(v as u32)
        } else {
            ValueView::Int(v)
        }
    } else if is_edge(tag) {
        if bytes.len() <= 4 {
            ValueView::Float(v as u32)
        } else {
            ValueView::Double(v)
        }
    } else if is_raw(tag) {
        ValueView::Bytes(bytes)
    } else {
        ValueView::Int(v)
    }
}

/// The field that `buf` starts with, and how many bytes hold it.
pub open spec fn field_at(buf: Seq<u8>) -> Result<(FieldView, nat), TlvError> {
    match length_at(buf.skip(1)) {
        Err(e) => Err(e),
        Ok((len, used)) => if buf.len() < 1 + used + len {
            Err(TlvError::Truncated)
        } else {
            let bytes = buf.subrange(1 + used as int, 1 + used + len as int);
            Ok((FieldView { tag: buf[0], value: interpreted(buf[0], bytes) }, 1 + used + len))
        },
    }
}

/// The fields that `buf` holds up to EOL or its end, or the first error met on the way.
pub open spec fn fields_at(buf: Seq<u8>) -> Result<Seq<FieldView>, TlvError>
    decreases buf.len(),
{
    if buf.len() == 0 || buf[0] == 0 {
        Ok(Seq::empty())
    } else {
        match field_at(buf) {
            Err(e) => Err(e),
            Ok((first, size)) => after(seq![first], fields_at(buf.skip(size as int))),
        }
    }
}

/// `done` followed by the fields of `rest`, or the error of `rest`.
pub open spec fn after(done: Seq<FieldView>, rest: Result<Seq<FieldView>, TlvError>) -> Result<
    Seq<FieldView>,
    TlvError,
> {
    match rest {
        Ok(fields) => Ok(done + fields),
        Err(e) => Err(e),
    }
}

/// What a packet holds.
pub open spec fn packet_of(data: Seq<u8>) -> Result<(PktType, Seq<FieldView>), TlvError> {
    if data.len() == 0 {
        Err(TlvError::Truncated)
    } else {
        match pkt_type_of(data[0]) {
            Err(e) => Err(e),
            Ok(kind) => match fields_at(data.skip(1)) {
                Err(e) => Err(e),
                Ok(fields) => Ok((kind, fields)),
            },
        }
    }
}

/// Reads the length that `buf` starts with. Gives the length and how many bytes hold it.
pub fn decode_length(buf: &[u8]) -> (r: Result<(usize, usize), TlvError>)
    ensures
        r matches Ok(p) ==> length_at(buf@) == Ok::<(nat, nat), TlvError>((p.0 as nat, p.1 as nat))
            && p.1 <= buf@.len(),
        r matches Err(e) ==> length_at(buf@) == Err::<(nat, nat), TlvError>(e),
{
    if buf.len() == 0 {
        return Err(TlvError::Truncated);
    }
    let first: u8 = buf[0];
    if first < 0x80 {
        return Ok((first as usize, 1));
    }
    let n: u8 = first - 0x80;
    if n > 4 || buf.len() - 1 < n as usize {
        return Err(TlvError::LengthTooLarge(n));
    }
    let held = vstd::slice::slice_subrange(buf, 1, 1 + n as usize);
    let len: u64 = decode_int(held);
    proof {
        reveal_with_fuel(be_value, 5);
    }
    Ok((len as usize, 1 + n as usize))
}

/// What the bytes of a field mean.
fn interpret(tag: u8, bytes: &[u8]) -> (r: TlvValue)
    ensures
        r@ == interpreted(tag, bytes@),
{
    match StatusType::try_from(tag) {
        Ok(
            StatusType::RADIO_FREQUENCY
            | StatusType::FIRST_LO_FREQUENCY
            | StatusType::SECOND_LO_FREQUENCY
            | StatusType::SHIFT_FREQUENCY,
        ) => {
            if bytes.len() == 8 {
                TlvValue::Double(decode_int(bytes))
            } else if bytes.len() == 4 {
                TlvValue::Float(decode_int(bytes) as u32)
            } else {
                TlvValue::Int(decode_int(bytes))
            }
        },
        Ok(StatusType::LOW_EDGE | StatusType::HIGH_EDGE) => {
            if bytes.len() <= 4 {
                TlvValue::Float(decode_int(bytes) as u32)
            } else {
                TlvValue::Double(decode_int(bytes))
            }
        },
        Ok(
            StatusType::PRESET
            | StatusType::OUTPUT_DATA_SOURCE_SOCKET
            | StatusType::OUTPUT_DATA_DEST_SOCKET,
        ) => TlvValue::Bytes(vstd::slice::slice_to_vec(bytes)),
        _ => TlvValue::Int(decode_int(bytes)),
    }
}

/// Reads the field that `buf` starts with. Gives the field and how many bytes hold it.
fn decode_field(buf: &[u8]) -> (r: Result<(TlvField, usize), TlvError>)
    requires
        buf@.len() > 0,
    ensures
        r matches Ok(p) ==> field_at(buf@) == Ok::<(FieldView, nat), TlvError>((p.0@, p.1 as nat))
            && 0 < p.1 <= buf@.len(),
        r matches Err(e) ==> field_at(buf@) == Err::<(FieldView, nat), TlvError>(e),
{
    let tag: u8 = buf[0];
    let tail = vstd::slice::slice_subrange(buf, 1, buf.len());
    assert(tail@ =~= buf@.skip(1));
    let (len, used) = match decode_length(tail) {
        Ok(p) => p,
        Err(e) => return Err(e),
    };
    if tail.len() - used < len {
        return Err(TlvError::Truncated);
    }
    let bytes = vstd::slice::slice_subrange(tail, used, used + len);
    assert(bytes@ =~= buf@.subrange(1 + used as int, 1 + used + len as int));
    Ok((TlvField { tag, value: interpret(tag, bytes) }, 1 + used + len))
}

/// Taking one field off the front of what is left does not change what is read in all.
proof fn lemma_one_field_on(done: Seq<FieldView>, buf: Seq<u8>, field: FieldView, size: nat)
    requires
        buf.len() > 0,
        buf[0] != 0,
        field_at(buf) == Ok::<(FieldView, nat), TlvError>((field, size)),
    ensures
        after(done, fields_at(buf)) == after(done.push(field), fields_at(buf.skip(size as int))),
{
    if let Ok(rest) = fields_at(buf.skip(size as int)) {
        assert(done + (seq![field] + rest) =~= done.push(field) + rest);
    }
}

/// Nothing in front of what is read is what is read.
proof fn lemma_after_nothing(rest: Result<Seq<FieldView>, TlvError>)
    ensures
        after(Seq::empty(), rest) == rest,
{
    if let Ok(fields) = rest {
        assert(Seq::<FieldView>::empty() + fields =~= fields);
    }
}

/// Reads fields up to EOL or the end.
fn decode_fields(buf: &[u8]) -> (r: Result<Vec<TlvField>, TlvError>)
    ensures
        r matches Ok(fields) ==> fields_at(buf@) == Ok::<Seq<FieldView>, TlvError>(
            field_views(fields@),
        ),
        r matches Err(e) ==> fields_at(buf@) == Err::<Seq<FieldView>, TlvError>(e),
{
    let mut fields: Vec<TlvField> = Vec::new();
    let mut rest = buf;
    proof {
        assert(field_views(fields@) =~= Seq::<FieldView>::empty());
        lemma_after_nothing(fields_at(buf@));
    }
    while rest.len() > 0 && rest[0] != 0
        invariant
            after(field_views(fields@), fields_at(rest@)) == fields_at(buf@),
        decreases rest@.len(),
    {
        let (field, size) = match decode_field(rest) {
            Ok(p) => p,
            Err(e) => return Err(e),
        };
        let ghost before = field_views(fields@);
        proof {
            lemma_one_field_on(before, rest@, field@, size as nat);
        }
        let ghost left = rest@.skip(size as int);
        let ghost first = field@;
        fields.push(field);
        rest = vstd::slice::slice_subrange(rest, size, rest.len());
        assert(rest@ =~= left);
        assert(field_views(fields@) =~= before.push(first));
    }
    assert(field_views(fields@) + Seq::<FieldView>::empty() =~= field_views(fields@));
    Ok(fields)
}

/// Decodes a status or command packet.
pub fn decode_packet(data: &[u8]) -> (r: Result<(PktType, Vec<TlvField>), TlvError>)
    ensures
        r matches Ok(p) ==> packet_of(data@) == Ok::<(PktType, Seq<FieldView>), TlvError>(
            (p.0, field_views(p.1@)),
        ),
        r matches Err(e) ==> packet_of(data@) == Err::<(PktType, Seq<FieldView>), TlvError>(e),
{
    if data.len() == 0 {
        return Err(TlvError::Truncated);
    }
    let kind = match PktType::try_from(data[0]) {
        Ok(k) => k,
        Err(e) => return Err(e),
    };
    let rest = vstd::slice::slice_subrange(data, 1, data.len());
    assert(rest@ =~= data@.skip(1));
    match decode_fields(rest) {
        Ok(fields) => Ok((kind, fields)),
        Err(e) => Err(e),
    }
}

// ---------------------------------------------------------------------------------------------
// Encoding
// ---------------------------------------------------------------------------------------------

/// The bytes that stand for a length: one byte below 0x80, else the number of the bytes that hold
/// the length, with bit 7 set, and those bytes.
pub open spec fn length_bytes(len: nat) -> Seq<u8> {
    if len < 0x80 {
        seq![len as u8]
    } else {
        seq![(0x80 + be_bytes(len).len()) as u8] + be_bytes(len)
    }
}

/// The bytes of a value, without its length.
pub open spec fn payload(value: ValueView) -> Seq<u8> {
    match value {
        ValueView::Int(v) => be_bytes(v as nat),
        ValueView::Float(b) => be_fixed(b as nat, 4),
        ValueView::Double(b) => be_fixed(b as nat, 8),
        ValueView::Bytes(b) => b,
    }
}

/// A field on the wire.
pub open spec fn field_bytes(field: FieldView) -> Seq<u8> {
    seq![field.tag] + length_bytes(payload(field.value).len()) + payload(field.value)
}

/// Fields on the wire, one after the other.
pub open spec fn fields_bytes(fields: Seq<FieldView>) -> Seq<u8>
    decreases fields.len(),
{
    if fields.len() == 0 {
        Seq::empty()
    } else {
        field_bytes(fields[0]) + fields_bytes(fields.drop_first())
    }
}

/// The command packet that holds the given fields.
pub open spec fn command_bytes(fields: Seq<FieldView>) -> Seq<u8> {
    seq![1u8] + fields_bytes(fields) + seq![0u8]
}

/// Numbers of one and of two bytes.
proof fn lemma_short_be_bytes(v: nat)
    ensures
        0 < v <= 0xFF ==> be_bytes(v) == seq![v as u8],
        0xFF < v <= 0xFFFF ==> be_bytes(v) == seq![(v / 256) as u8, (v % 256) as u8],
{
    reveal_with_fuel(be_bytes, 3);
    if 0 < v <= 0xFF {
        assert(be_bytes(v) =~= seq![v as u8]);
    } else if 0xFF < v <= 0xFFFF {
        assert(be_bytes(v) =~= seq![(v / 256) as u8, (v % 256) as u8]);
    }
}

/// Writes a length.
pub fn encode_length(buf: &mut BytesMut, len: usize)
    requires
        buffer_is_whole(*old(buf)),
        buffer_bytes(*old(buf)).len() + length_bytes(len as nat).len() <= max_buffer(),
    ensures
        buffer_is_whole(*final(buf)),
        buffer_bytes(*final(buf)) == buffer_bytes(*old(buf)) + length_bytes(len as nat),
{
    let ghost before = buffer_bytes(*buf);
    proof {
        lemma_short_be_bytes(len as nat);
        law_int_fits_eight_bytes(len as u64);
    }
    if len < 0x80 {
        put_u8(buf, len as u8);
    } else if len <= 0xFF {
        put_u8(buf, 0x81);
        put_u8(buf, len as u8);
    } else if len <= 0xFFFF {
        put_u8(buf, 0x82);
        put_u16(buf, len as u16);
    } else {
        let held = int_bytes(len as u64);
        put_u8(buf, 0x80 + held.len() as u8);
        put_slice(buf, held.as_slice());
    }
    assert(buffer_bytes(*buf) =~= before + length_bytes(len as nat));
}

/// Writes the length of `data`, then `data`.
fn encode_bytes(buf: &mut BytesMut, data: &[u8])
    requires
        buffer_is_whole(*old(buf)),
        buffer_bytes(*old(buf)).len() + length_bytes(data@.len()).len() + data@.len()
            <= max_buffer(),
    ensures
        buffer_is_whole(*final(buf)),
        buffer_bytes(*final(buf)) == buffer_bytes(*old(buf)) + length_bytes(data@.len()) + data@,
{
    encode_length(buf, data.len());
    put_slice(buf, data);
}

/// Writes an integer: the number of its bytes, then its shortest form. Zero is the single byte 0.
pub fn encode_int(buf: &mut BytesMut, v: u64)
    requires
        buffer_is_whole(*old(buf)),
        buffer_bytes(*old(buf)).len() + 1 + be_bytes(v as nat).len() <= max_buffer(),
    ensures
        buffer_is_whole(*final(buf)),
        buffer_bytes(*final(buf)) == buffer_bytes(*old(buf)).push(be_bytes(v as nat).len() as u8)
            + be_bytes(v as nat),
        be_bytes(v as nat).len() <= 8,
        shortest_form(be_bytes(v as nat), v as nat),
{
    proof {
        law_int_fits_eight_bytes(v);
        law_int_round_trip(v as nat);
        law_int_has_no_leading_zero(v as nat);
    }
    let ghost before = buffer_bytes(*buf);
    let data = int_bytes(v);
    encode_bytes(buf, data.as_slice());
    assert(buffer_bytes(*buf) =~= before.push(data@.len() as u8) + data@);
}

/// Writes one field.
fn encode_field(buf: &mut BytesMut, tag: StatusType, value: &TlvValue)
    requires
        buffer_is_whole(*old(buf)),
        buffer_bytes(*old(buf)).len() + field_bytes(
            FieldView { tag: tag.wire(), value: value@ },
        ).len() <= max_buffer(),
    ensures
        buffer_is_whole(*final(buf)),
        buffer_bytes(*final(buf)) == buffer_bytes(*old(buf)) + field_bytes(
            (FieldView { tag: tag.wire(), value: value@ }),
        ),
{
    let ghost before = buffer_bytes(*buf);
    let ghost field = FieldView { tag: tag.wire(), value: value@ };
    proof {
        if let TlvValue::Int(v) = *value {
            law_int_fits_eight_bytes(v);
        }
    }
    put_u8(buf, tag.code());
    match value {
        TlvValue::Int(v) => encode_int(buf, *v),
        TlvValue::Float(bits) => {
            let data = fixed_bytes(*bits as u64, 4);
            encode_bytes(buf, data.as_slice());
        },
        TlvValue::Double(bits) => {
            let data = fixed_bytes(*bits, 8);
            encode_bytes(buf, data.as_slice());
        },
        TlvValue::Bytes(b) => encode_bytes(buf, b.as_slice()),
    }
    assert(buffer_bytes(*buf) =~= before + field_bytes(field));
}

/// An empty buffer, with room for an ordinary packet.
pub fn new_buffer() -> (buf: BytesMut)
    ensures
        buffer_bytes(buf) == Seq::<u8>::empty(),
        buffer_is_whole(buf),
{
    buffer_with_capacity(256)
}

/// Builds a command packet with the given fields.
pub fn build_command(fields: &[(StatusType, TlvValue)]) -> (r: BytesMut)
    requires
        command_bytes(command_views(fields@)).len() <= max_buffer(),
    ensures
        buffer_bytes(r) == command_bytes(command_views(fields@)),
{
    let ghost views = command_views(fields@);
    let mut buf = new_buffer();
    put_u8(&mut buf, PktType::Command.code());
    let mut i: usize = 0;
    assert(views.skip(0) =~= views);
    assert(buffer_bytes(buf) =~= seq![1u8]);
    while i < fields.len()
        invariant
            i <= fields@.len(),
            views == command_views(fields@),
            buffer_is_whole(buf),
            buffer_bytes(buf) + fields_bytes(views.skip(i as int)) + seq![0u8] == command_bytes(
                views,
            ),
            command_bytes(views).len() <= max_buffer(),
        decreases fields@.len() - i,
    {
        let ghost before = buffer_bytes(buf);
        let ghost rest = views.skip(i as int);
        assert(rest[0] == FieldView { tag: fields@[i as int].0.wire(), value: fields@[i as int].1@ });
        assert(rest.drop_first() =~= views.skip(i + 1));
        let field = &fields[i];
        encode_field(&mut buf, field.0, &field.1);
        i = i + 1;
        assert(before + (field_bytes(rest[0]) + fields_bytes(views.skip(i as int))) + seq![0u8]
            =~= buffer_bytes(buf) + fields_bytes(views.skip(i as int)) + seq![0u8]);
    }
    assert(views.skip(i as int) =~= Seq::<FieldView>::empty());
    assert(buffer_bytes(buf) + Seq::<u8>::empty() + seq![0u8] =~= buffer_bytes(buf).push(0u8));
    put_u8(&mut buf, StatusType::EOL.code());
    buf
}

// ---------------------------------------------------------------------------------------------
// Laws
// ---------------------------------------------------------------------------------------------

/// Reading undoes writing, for integers of any size.
pub proof fn law_int_round_trip(v: nat)
    ensures
        be_value(be_bytes(v)) == v,
    decreases v,
{
    if v != 0 {
        law_int_round_trip(v / 256);
        assert(be_bytes(v).drop_last() =~= be_bytes(v / 256));
    }
}

/// An integer is written without leading zero bytes.
pub proof fn law_int_has_no_leading_zero(v: nat)
    ensures
        be_bytes(v).len() > 0 ==> be_bytes(v)[0] != 0,
        be_bytes(v).len() == 0 <==> v == 0,
    decreases v,
{
    if v != 0 {
        law_int_has_no_leading_zero(v / 256);
        if v / 256 == 0 {
            assert(be_bytes(v / 256) =~= Seq::<u8>::empty());
        }
    }
}

/// No other bytes that write an integer are fewer than those that are written for it.
pub proof fn law_int_has_no_shorter_form(s: Seq<u8>)
    ensures
        be_bytes(be_value(s)).len() <= s.len(),
    decreases s.len(),
{
    if s.len() > 0 {
        law_int_has_no_shorter_form(s.drop_last());
        assert(be_value(s) / 256 == be_value(s.drop_last()));
    }
}

/// An integer field is its tag, the number of its bytes, and its shortest form.
pub proof fn law_int_field(tag: u8, v: u64)
    ensures
        ({
            let d = be_bytes(v as nat);
            &&& field_bytes(FieldView { tag, value: ValueView::Int(v) }) == seq![tag, d.len() as u8]
                + d
            &&& d.len() <= 8
            &&& shortest_form(d, v as nat)
            &&& v == 0 ==> d.len() == 0
        }),
{
    let d = be_bytes(v as nat);
    law_int_fits_eight_bytes(v);
    law_int_round_trip(v as nat);
    law_int_has_no_leading_zero(v as nat);
    assert(field_bytes(FieldView { tag, value: ValueView::Int(v) }) =~= seq![tag, d.len() as u8]
        + d);
}

/// A 64-bit integer takes at most eight bytes.
pub proof fn law_int_fits_eight_bytes(v: u64)
    ensures
        be_bytes(v as nat).len() <= 8,
{
    reveal_with_fuel(be_bytes, 9);
}

/// Bit patterns are written in full and read back.
pub proof fn law_bits_round_trip(float: u32, double: u64)
    ensures
        be_fixed(float as nat, 4).len() == 4,
        be_value(be_fixed(float as nat, 4)) == float,
        be_fixed(double as nat, 8).len() == 8,
        be_value(be_fixed(double as nat, 8)) == double,
{
    assert(pow256(4) == 0x1_0000_0000 && pow256(8) == 0x1_0000_0000_0000_0000) by {
        reveal_with_fuel(pow256, 9);
    }
    lemma_be_fixed(float as nat, 4);
    lemma_be_fixed(double as nat, 8);
}

/// `n` bytes hold the numbers below this one.
spec fn pow256(n: nat) -> nat
    decreases n,
{
    if n == 0 {
        1
    } else {
        256 * pow256((n - 1) as nat)
    }
}

proof fn lemma_be_fixed(v: nat, n: nat)
    requires
        v < pow256(n),
    ensures
        be_fixed(v, n).len() == n,
        be_value(be_fixed(v, n)) == v,
    decreases n,
{
    if n > 0 {
        lemma_be_fixed(v / 256, (n - 1) as nat);
        assert(be_fixed(v, n).drop_last() =~= be_fixed(v / 256, (n - 1) as nat));
    }
}

/// A length of at most four bytes is read back as it was written, whatever follows it, and nothing
/// of what follows is used up.
pub proof fn law_length_round_trip(len: nat, rest: Seq<u8>)
    requires
        len <= 0xFFFF_FFFF,
    ensures
        length_at(length_bytes(len) + rest) == Ok::<(nat, nat), TlvError>(
            (len, length_bytes(len).len()),
        ),
        (length_bytes(len) + rest).skip(length_bytes(len).len() as int) == rest,
{
    let buf = length_bytes(len) + rest;
    assert(buf.skip(length_bytes(len).len() as int) =~= rest);
    if len >= 0x80 {
        let held = be_bytes(len);
        assert(held.len() <= 4) by {
            reveal_with_fuel(be_bytes, 5);
        }
        assert(buf.subrange(1, 1 + held.len() as int) =~= held);
        law_int_round_trip(len);
    }
}

/// Every packet type and every tag has a byte of its own, and is read back from it.
pub proof fn law_codes_round_trip(kind: PktType, tag: StatusType, byte: u8)
    ensures
        pkt_type_of(kind.wire()) == Ok::<PktType, TlvError>(kind),
        status_type_of(tag.wire()) == Ok::<StatusType, TlvError>(tag),
        pkt_type_of(byte) matches Ok(k) ==> k.wire() == byte,
        status_type_of(byte) matches Ok(t) ==> t.wire() == byte,
{
}

/// Whether a field can be written so that it is found again: its tag is not the one that closes a
/// packet, and its length takes at most four bytes.
pub open spec fn writable(field: FieldView) -> bool {
    field.tag != 0 && payload(field.value).len() <= 0xFFFF_FFFF
}

/// The field that a reader sees where `field` was written.
pub open spec fn reread(field: FieldView) -> FieldView {
    FieldView { tag: field.tag, value: interpreted(field.tag, payload(field.value)) }
}

/// Whether the value is of the kind that a reader expects under the tag.
pub open spec fn of_its_kind(field: FieldView) -> bool {
    match field.value {
        ValueView::Int(v) => if is_frequency(field.tag) {
            be_bytes(v as nat).len() != 4 && be_bytes(v as nat).len() != 8
        } else {
            !is_edge(field.tag) && !is_raw(field.tag)
        },
        ValueView::Float(_) | ValueView::Double(_) => is_frequency(field.tag) || is_edge(
            field.tag,
        ),
        ValueView::Bytes(_) => is_raw(field.tag),
    }
}

/// A reader sees the very field that was written, where its value is of the kind that belongs to
/// its tag.
pub proof fn law_reread(field: FieldView)
    requires
        of_its_kind(field),
    ensures
        reread(field) == field,
{
    match field.value {
        ValueView::Int(v) => {
            law_int_round_trip(v as nat);
        },
        ValueView::Float(b) => {
            law_bits_round_trip(b, 0);
        },
        ValueView::Double(b) => {
            law_bits_round_trip(0, b);
        },
        ValueView::Bytes(_) => {},
    }
}

/// A written field is read back, and reading goes on behind it.
pub proof fn law_field_round_trip(field: FieldView, behind: Seq<u8>)
    requires
        writable(field),
    ensures
        fields_at(field_bytes(field) + behind) == after(seq![reread(field)], fields_at(behind)),
{
    let data = payload(field.value);
    let head = length_bytes(data.len());
    let buf = field_bytes(field) + behind;
    assert(buf[0] == field.tag);
    assert(buf.skip(1) =~= head + (data + behind));
    law_length_round_trip(data.len(), data + behind);
    let start = 1 + head.len() as int;
    assert(buf.subrange(start, start + data.len()) =~= data);
    assert(buf.skip(start + data.len()) =~= behind);
    assert(field_at(buf) == Ok::<(FieldView, nat), TlvError>(
        (reread(field), (start + data.len()) as nat),
    ));
}

/// Written fields are read back in order, and what follows the closing EOL is not read.
pub proof fn law_fields_round_trip(fields: Seq<FieldView>, tail: Seq<u8>)
    requires
        forall|i: int| 0 <= i < fields.len() ==> writable(#[trigger] fields[i]),
    ensures
        fields_at(fields_bytes(fields) + seq![0u8] + tail) == Ok::<Seq<FieldView>, TlvError>(
            fields.map_values(|f: FieldView| reread(f)),
        ),
    decreases fields.len(),
{
    let buf = fields_bytes(fields) + seq![0u8] + tail;
    let seen = fields.map_values(|f: FieldView| reread(f));
    if fields.len() == 0 {
        assert(buf[0] == 0);
        assert(seen =~= Seq::<FieldView>::empty());
    } else {
        let rest = fields.drop_first();
        let behind = fields_bytes(rest) + seq![0u8] + tail;
        assert(writable(fields[0]));
        assert forall|i: int| 0 <= i < rest.len() implies writable(#[trigger] rest[i]) by {
            assert(rest[i] == fields[i + 1]);
        }
        law_fields_round_trip(rest, tail);
        assert(buf =~= field_bytes(fields[0]) + behind);
        law_field_round_trip(fields[0], behind);
        assert(seq![reread(fields[0])] + rest.map_values(|f: FieldView| reread(f)) =~= seen);
    }
}

/// Decoding undoes building: a command packet holds the fields that it was built from, each with
/// the value that its tag gives to the bytes. Bytes behind the packet change nothing.
pub proof fn law_decode_undoes_build(fields: Seq<FieldView>, tail: Seq<u8>)
    requires
        forall|i: int| 0 <= i < fields.len() ==> writable(#[trigger] fields[i]),
    ensures
        packet_of(command_bytes(fields) + tail) == Ok::<(PktType, Seq<FieldView>), TlvError>(
            (PktType::Command, fields.map_values(|f: FieldView| reread(f))),
        ),
        (forall|i: int| 0 <= i < fields.len() ==> of_its_kind(#[trigger] fields[i])) ==> packet_of(
            command_bytes(fields) + tail,
        ) == Ok::<(PktType, Seq<FieldView>), TlvError>((PktType::Command, fields)),
{
    let data = command_bytes(fields) + tail;
    assert(data.skip(1) =~= fields_bytes(fields) + seq![0u8] + tail);
    law_fields_round_trip(fields, tail);
    let seen = fields.map_values(|f: FieldView| reread(f));
    if forall|i: int| 0 <= i < fields.len() ==> of_its_kind(#[trigger] fields[i]) {
        assert forall|i: int| 0 <= i < fields.len() implies seen[i] == fields[i] by {
            law_reread(fields[i]);
        }
        assert(seen =~= fields);
    }
}

/// A field that is held by the start of a buffer is read in the same way whatever is behind.
proof fn lemma_field_stays(buf: Seq<u8>, behind: Seq<u8>)
    requires
        buf.len() > 0,
        field_at(buf) is Ok,
    ensures
        field_at(buf + behind) == field_at(buf),
{
    let (len, used) = length_at(buf.skip(1))->Ok_0;
    let whole = buf + behind;
    assert(whole.skip(1) =~= buf.skip(1) + behind);
    assert(whole.skip(1).subrange(1, used as int) =~= buf.skip(1).subrange(1, used as int));
    assert(whole.subrange(1 + used as int, 1 + used + len as int) =~= buf.subrange(
        1 + used as int,
        1 + used + len as int,
    ));
}

/// Fields end at EOL: of a buffer that can be read, EOL and any bytes behind it change nothing.
pub proof fn law_fields_end_at_eol(buf: Seq<u8>, junk: Seq<u8>)
    requires
        fields_at(buf) is Ok,
    ensures
        fields_at(buf + seq![0u8] + junk) == fields_at(buf),
    decreases buf.len(),
{
    let behind = seq![0u8] + junk;
    assert(buf + seq![0u8] + junk =~= buf + behind);
    if buf.len() > 0 && buf[0] != 0 {
        let (_, size) = field_at(buf)->Ok_0;
        lemma_field_stays(buf, behind);
        law_fields_end_at_eol(buf.skip(size as int), junk);
        assert((buf + behind).skip(size as int) =~= buf.skip(size as int) + seq![0u8] + junk);
    }
}

/// A packet ends at EOL: of a packet that can be read, EOL and any bytes behind it change nothing.
pub proof fn law_packet_ends_at_eol(data: Seq<u8>, junk: Seq<u8>)
    requires
        packet_of(data) is Ok,
    ensures
        packet_of(data + seq![0u8] + junk) == packet_of(data),
{
    assert((data + seq![0u8] + junk).skip(1) =~= data.skip(1) + seq![0u8] + junk);
    law_fields_end_at_eol(data.skip(1), junk);
}

/// The numbers of the tags are those of radiod, and no other byte is a tag of the bridge.
pub proof fn law_tags_are_those_of_radiod(byte: u8)
    ensures
        StatusType::EOL.wire() == 0,
        StatusType::COMMAND_TAG.wire() == 1,
        StatusType::INPUT_SAMPRATE.wire() == 10,
        StatusType::OUTPUT_DATA_SOURCE_SOCKET.wire() == 16,
        StatusType::OUTPUT_DATA_DEST_SOCKET.wire() == 17,
        StatusType::OUTPUT_SSRC.wire() == 18,
        StatusType::OUTPUT_SAMPRATE.wire() == 20,
        StatusType::RADIO_FREQUENCY.wire() == 33,
        StatusType::FIRST_LO_FREQUENCY.wire() == 34,
        StatusType::SECOND_LO_FREQUENCY.wire() == 35,
        StatusType::SHIFT_FREQUENCY.wire() == 36,
        StatusType::LOW_EDGE.wire() == 39,
        StatusType::HIGH_EDGE.wire() == 40,
        StatusType::DEMOD_TYPE.wire() == 48,
        StatusType::OUTPUT_CHANNELS.wire() == 49,
        StatusType::PRESET.wire() == 85,
        StatusType::RTP_PT.wire() == 105,
        StatusType::OUTPUT_ENCODING.wire() == 107,
        status_type_of(byte) is Ok <==> (byte <= 1 || byte == 10 || 16 <= byte <= 18 || byte == 20
            || 33 <= byte <= 36 || byte == 39 || byte == 40 || byte == 48 || byte == 49 || byte
            == 85 || byte == 105 || byte == 107),
        status_type_of(byte) matches Ok(tag) ==> tag.wire() == byte,
        status_type_of(byte) matches Err(e) ==> e == TlvError::UnknownStatusType(byte),
{
}

/// A packet starts with 0 where it is a status packet and with 1 where it is a command; other bytes
/// start no packet.
pub proof fn law_packet_types(byte: u8)
    ensures
        PktType::Status.wire() == 0,
        PktType::Command.wire() == 1,
        byte == 0 ==> pkt_type_of(byte) == Ok::<PktType, TlvError>(PktType::Status),
        byte == 1 ==> pkt_type_of(byte) == Ok::<PktType, TlvError>(PktType::Command),
        byte > 1 ==> pkt_type_of(byte) == Err::<PktType, TlvError>(TlvError::UnknownPktType(byte)),
{
}

/// The numbers of the encodings are those of radiod.
pub proof fn law_encodings_are_those_of_radiod()
    ensures
        Encoding::NoEncoding.wire() == 0,
        Encoding::S16le.wire() == 1,
        Encoding::S16be.wire() == 2,
        Encoding::Opus.wire() == 3,
        Encoding::F32le.wire() == 4,
{
}

/// Numbers stand with the high byte first: no bytes are zero, and one more byte behind makes the
/// number before it 256 times as large and counts for itself.
pub proof fn law_high_byte_comes_first(s: Seq<u8>, b: u8)
    ensures
        be_value(Seq::<u8>::empty()) == 0,
        be_value(s.push(b)) == 256 * be_value(s) + b,
{
    assert(s.push(b).drop_last() =~= s);
}

/// A number of four bytes, a number of eight bytes.
pub proof fn law_four_and_eight_bytes(s: Seq<u8>)
    ensures
        s.len() == 4 ==> be_value(s) == s[0] * 0x100_0000 + s[1] * 0x1_0000 + s[2] * 0x100 + s[3],
        s.len() == 8 ==> be_value(s) == s[0] * 0x100_0000_0000_0000 + s[1] * 0x1_0000_0000_0000
            + s[2] * 0x100_0000_0000 + s[3] * 0x1_0000_0000 + s[4] * 0x100_0000 + s[5] * 0x1_0000
            + s[6] * 0x100 + s[7],
{
    reveal_with_fuel(be_value, 9);
}

/// What the bytes of a field mean: under 33 to 36 eight bytes are a double and four a float, other
/// numbers of bytes an integer; under 39 and 40 up to four bytes are a float and more a double;
/// under 16, 17 and 85 the bytes stand for themselves; under any other tag they are an integer.
pub proof fn law_values_by_tag(tag: u8, bytes: Seq<u8>)
    ensures
        ({
            let v = be_value(bytes) % 0x1_0000_0000_0000_0000;
            let seen = interpreted(tag, bytes);
            if 33 <= tag <= 36 {
                &&& bytes.len() == 8 ==> (seen matches ValueView::Double(d) && d == be_value(bytes))
                &&& bytes.len() == 4 ==> (seen matches ValueView::Float(f) && f == be_value(bytes))
                &&& bytes.len() != 4 && bytes.len() != 8 ==> (seen matches ValueView::Int(n) && n
                    == v)
            } else if tag == 39 || tag == 40 {
                &&& bytes.len() <= 4 ==> (seen matches ValueView::Float(f) && f == be_value(bytes))
                &&& bytes.len() > 4 ==> (seen matches ValueView::Double(d) && d == v)
            } else if tag == 16 || tag == 17 || tag == 85 {
                seen == ValueView::Bytes(bytes)
            } else {
                seen matches ValueView::Int(n) && n == v
            }
        }),
{
    lemma_be_value_bound(bytes);
    reveal_with_fuel(pow256, 9);
    if bytes.len() <= 4 {
        lemma_pow256_monotone(bytes.len(), 4);
    }
}

/// `n` bytes write a number below 256 to the power `n`.
proof fn lemma_be_value_bound(s: Seq<u8>)
    ensures
        be_value(s) < pow256(s.len()),
    decreases s.len(),
{
    if s.len() > 0 {
        lemma_be_value_bound(s.drop_last());
    }
}

proof fn lemma_pow256_monotone(a: nat, b: nat)
    requires
        a <= b,
    ensures
        0 < pow256(a) <= pow256(b),
    decreases b,
{
    if b > a {
        lemma_pow256_monotone(a, (b - 1) as nat);
    } else if a > 0 {
        lemma_pow256_monotone((a - 1) as nat, (a - 1) as nat);
    }
}

/// A packet is its type and its fields. No fields are none, and neither are there any behind EOL.
pub proof fn law_packet_is_type_and_fields(kind: u8, rest: Seq<u8>)
    ensures
        packet_of(Seq::<u8>::empty()) == Err::<(PktType, Seq<FieldView>), TlvError>(
            TlvError::Truncated,
        ),
        fields_at(Seq::<u8>::empty()) == Ok::<Seq<FieldView>, TlvError>(Seq::empty()),
        fields_at(seq![0u8] + rest) == Ok::<Seq<FieldView>, TlvError>(Seq::empty()),
        kind > 1 ==> packet_of(seq![kind] + rest) == Err::<(PktType, Seq<FieldView>), TlvError>(
            TlvError::UnknownPktType(kind),
        ),
        kind <= 1 ==> match (packet_of(seq![kind] + rest), fields_at(rest)) {
            (Ok((seen, fields)), Ok(all)) => fields == all && seen == (if kind == 0 {
                PktType::Status
            } else {
                PktType::Command
            }),
            (Err(e), Err(why)) => e == why,
            _ => false,
        },
{
    assert((seq![kind] + rest).skip(1) =~= rest);
    assert((seq![0u8] + rest)[0] == 0);
}

/// A field on the wire is its tag, the number of its bytes and its bytes; further fields stand
/// behind it. A number of bytes below 128 takes one byte.
pub proof fn law_short_field_is_read(tag: u8, bytes: Seq<u8>, rest: Seq<u8>)
    requires
        tag != 0,
        bytes.len() < 128,
    ensures
        match (fields_at(seq![tag, bytes.len() as u8] + bytes + rest), fields_at(rest)) {
            (Ok(all), Ok(more)) => all == seq![
                FieldView { tag, value: interpreted(tag, bytes) },
            ] + more,
            (Err(e), Err(why)) => e == why,
            _ => false,
        },
{
    let buf = seq![tag, bytes.len() as u8] + bytes + rest;
    assert(buf.skip(1)[0] == bytes.len());
    assert(buf.subrange(2, 2 + bytes.len() as int) =~= bytes);
    assert(buf.skip(2 + bytes.len() as int) =~= rest);
}

/// A number of bytes that takes more than one byte stands in up to four bytes, behind their number
/// with the top bit set.
pub proof fn law_long_field_is_read(tag: u8, held: Seq<u8>, bytes: Seq<u8>, rest: Seq<u8>)
    requires
        tag != 0,
        held.len() <= 4,
        be_value(held) == bytes.len(),
    ensures
        match (fields_at(seq![tag, (128 + held.len()) as u8] + held + bytes + rest), fields_at(
            rest,
        )) {
            (Ok(all), Ok(more)) => all == seq![
                FieldView { tag, value: interpreted(tag, bytes) },
            ] + more,
            (Err(e), Err(why)) => e == why,
            _ => false,
        },
{
    let buf = seq![tag, (128 + held.len()) as u8] + held + bytes + rest;
    let start = 2 + held.len() as int;
    assert(buf.skip(1)[0] == 128 + held.len());
    assert(buf.skip(1).subrange(1, 1 + held.len() as int) =~= held);
    assert(buf.subrange(start, start + bytes.len()) =~= bytes);
    assert(buf.skip(start + bytes.len()) =~= rest);
}

/// A field that is cut off cannot be read: a tag without a length, fewer bytes than the length says,
/// a length that is cut off. Neither can one whose length takes more than four bytes.
pub proof fn law_broken_field(tag: u8, first: u8, behind: Seq<u8>)
    requires
        tag != 0,
    ensures
        fields_at(seq![tag]) == Err::<Seq<FieldView>, TlvError>(TlvError::Truncated),
        first < 128 && behind.len() < first ==> fields_at(seq![tag, first] + behind) == Err::<
            Seq<FieldView>,
            TlvError,
        >(TlvError::Truncated),
        first >= 128 && (first > 132 || behind.len() < first - 128) ==> fields_at(
            seq![tag, first] + behind,
        ) == Err::<Seq<FieldView>, TlvError>(TlvError::LengthTooLarge((first - 128) as u8)),
        128 <= first <= 132 && behind.len() >= first - 128 && behind.len() - (first - 128)
            < be_value(behind.take(first - 128)) ==> fields_at(seq![tag, first] + behind) == Err::<
            Seq<FieldView>,
            TlvError,
        >(TlvError::Truncated),
{
    let buf = seq![tag, first] + behind;
    assert(buf.skip(1)[0] == first);
    assert(buf.skip(1).len() == 1 + behind.len());
    assert(seq![tag].skip(1).len() == 0);
    if 128 <= first <= 132 && behind.len() >= first - 128 {
        assert(buf.skip(1).subrange(1, 1 + (first - 128)) =~= behind.take(first - 128));
    }
}

/// A command packet is 1, its fields one after the other, and 0.
pub proof fn law_command_is_fields_in_order(a: Seq<FieldView>, f: FieldView)
    ensures
        command_bytes(Seq::empty()) == seq![1u8, 0u8],
        command_bytes(a.push(f)) == command_bytes(a).drop_last() + field_bytes(f) + seq![0u8],
{
    lemma_fields_bytes_push(a, f);
    assert(command_bytes(Seq::empty()) =~= seq![1u8, 0u8]);
    assert(command_bytes(a).drop_last() =~= seq![1u8] + fields_bytes(a));
    assert(command_bytes(a.push(f)) =~= command_bytes(a).drop_last() + field_bytes(f) + seq![0u8]);
}

proof fn lemma_fields_bytes_push(a: Seq<FieldView>, f: FieldView)
    ensures
        fields_bytes(a.push(f)) == fields_bytes(a) + field_bytes(f),
    decreases a.len(),
{
    let all = a.push(f);
    if a.len() == 0 {
        assert(all.drop_first() =~= Seq::<FieldView>::empty());
        assert(fields_bytes(all.drop_first()) =~= Seq::<u8>::empty());
        assert(fields_bytes(all) =~= fields_bytes(a) + field_bytes(f));
    } else {
        lemma_fields_bytes_push(a.drop_first(), f);
        assert(all.drop_first() =~= a.drop_first().push(f));
        assert(all[0] == a[0]);
        assert(fields_bytes(all) =~= fields_bytes(a) + field_bytes(f));
    }
}

/// How a field is written: its tag, the number of its bytes, and its bytes. An integer takes the
/// fewest bytes that hold it, a float four bytes, a double eight, all with the high byte first.
pub proof fn law_number_field_is_written(tag: u8, v: u64, float: u32, double: u64)
    ensures
        ({
            let f = field_bytes(FieldView { tag, value: ValueView::Int(v) });
            &&& f.len() == 2 + f[1] && f[1] <= 8
            &&& f[0] == tag
            &&& be_value(f.skip(2)) == v
            &&& f.len() > 2 ==> f[2] != 0
        }),
        ({
            let f = field_bytes(FieldView { tag, value: ValueView::Float(float) });
            &&& f.len() == 6 && f[0] == tag && f[1] == 4
            &&& be_value(f.skip(2)) == float
        }),
        ({
            let f = field_bytes(FieldView { tag, value: ValueView::Double(double) });
            &&& f.len() == 10 && f[0] == tag && f[1] == 8
            &&& be_value(f.skip(2)) == double
        }),
{
    law_int_field(tag, v);
    law_bits_round_trip(float, double);
    let d = be_bytes(v as nat);
    let i = field_bytes(FieldView { tag, value: ValueView::Int(v) });
    let s = field_bytes(FieldView { tag, value: ValueView::Float(float) });
    let l = field_bytes(FieldView { tag, value: ValueView::Double(double) });
    assert(i.skip(2) =~= d);
    assert(s.skip(2) =~= be_fixed(float as nat, 4));
    assert(l.skip(2) =~= be_fixed(double as nat, 8));
}

/// How a field of raw bytes is written: its tag, the number of its bytes, and the bytes. Up to 127
/// the number takes one byte, above that two to five.
pub proof fn law_bytes_field_is_written(tag: u8, b: Seq<u8>)
    ensures
        ({
            let f = field_bytes(FieldView { tag, value: ValueView::Bytes(b) });
            let n = b.len();
            &&& n <= 0x7F ==> f == seq![tag, n as u8] + b
            &&& 0x80 <= n <= 0xFF ==> f == seq![tag, 0x81, n as u8] + b
            &&& 0x100 <= n <= 0xFFFF ==> f == seq![tag, 0x82, (n / 256) as u8, (n % 256) as u8] + b
            &&& 0x1_0000 <= n <= 0xFFFF_FFFF ==> {
                let k = f[1] - 0x80;
                &&& f[0] == tag && 3 <= k <= 4
                &&& f.len() == 2 + k + n
                &&& be_value(f.subrange(2, 2 + k)) == n
                &&& f[2] != 0
                &&& f.skip(2 + k) == b
            }
        }),
{
    let f = field_bytes(FieldView { tag, value: ValueView::Bytes(b) });
    let n = b.len();
    lemma_short_be_bytes(n);
    if n <= 0x7F {
        assert(f =~= seq![tag, n as u8] + b);
    } else if n <= 0xFF {
        assert(f =~= seq![tag, 0x81, n as u8] + b);
    } else if n <= 0xFFFF {
        assert(f =~= seq![tag, 0x82, (n / 256) as u8, (n % 256) as u8] + b);
    } else if n <= 0xFFFF_FFFF {
        let held = be_bytes(n);
        law_int_round_trip(n);
        law_int_has_no_leading_zero(n);
        assert(3 <= held.len() <= 4) by {
            reveal_with_fuel(be_bytes, 5);
        }
        assert(f.subrange(2, 2 + held.len() as int) =~= held);
        assert(f.skip(2 + held.len() as int) =~= b);
    }
}

/// What an error says names what was met.
pub proof fn law_error_texts(v: u8)
    ensures
        TlvError::UnknownPktType(v).text() == "unknown packet type: "@ + decimal::numeral(v as nat),
        TlvError::UnknownStatusType(v).text() == "unknown status type: "@ + decimal::numeral(
            v as nat,
        ),
        TlvError::Truncated.text() == "unexpected end of buffer"@,
        TlvError::LengthTooLarge(v).text() == "length encoding too large ("@ + decimal::numeral(
            v as nat,
        ) + " meta-bytes)"@,
{
}

/// The view of a field holds what the field holds, and the fields of a command have the numbers of
/// their tags.
pub proof fn law_view_of_a_field(
    field: TlvField,
    fields: Seq<TlvField>,
    command: Seq<(StatusType, TlvValue)>,
    i: int,
)
    ensures
        field@.tag == field.tag,
        match field.value {
            TlvValue::Int(v) => field@.value == ValueView::Int(v),
            TlvValue::Float(b) => field@.value == ValueView::Float(b),
            TlvValue::Double(b) => field@.value == ValueView::Double(b),
            TlvValue::Bytes(b) => field@.value == ValueView::Bytes(b@),
        },
        field_views(fields).len() == fields.len(),
        0 <= i < fields.len() ==> field_views(fields)[i] == fields[i]@,
        command_views(command).len() == command.len(),
        0 <= i < command.len() ==> command_views(command)[i].tag == command[i].0.wire()
            && command_views(command)[i].value == command[i].1@,
{
}

/// How a length is read: a byte below 128 is the length; any other tells how many bytes hold it, four
/// at most. Told are the length and the number of bytes that were read.
pub proof fn law_length_is_read(buf: Seq<u8>)
    ensures
        buf.len() == 0 ==> length_at(buf) == Err::<(nat, nat), TlvError>(TlvError::Truncated),
        buf.len() > 0 && buf[0] < 128 ==> length_at(buf) == Ok::<(nat, nat), TlvError>(
            (buf[0] as nat, 1),
        ),
        buf.len() > 0 && buf[0] >= 128 ==> {
            let n = buf[0] - 128;
            &&& n > 4 || buf.len() < 1 + n ==> length_at(buf) == Err::<(nat, nat), TlvError>(
                TlvError::LengthTooLarge(n as u8),
            )
            &&& n <= 4 && buf.len() >= 1 + n ==> length_at(buf) == Ok::<(nat, nat), TlvError>(
                (be_value(buf.subrange(1, 1 + n)), (1 + n) as nat),
            )
        },
{
}

/// How a length is written: below 128 as it is, else as the number of its bytes with the top bit set
/// and its bytes, as few as hold it and the high one first.
pub proof fn law_length_is_written(len: u64)
    ensures
        ({
            let b = length_bytes(len as nat);
            &&& len < 128 ==> b.len() == 1 && b[0] == len
            &&& len >= 128 ==> {
                &&& 2 <= b.len() <= 9
                &&& b[0] == 128 + (b.len() - 1)
                &&& b[1] != 0
                &&& be_value(b.skip(1)) == len
            }
        }),
{
    let held = be_bytes(len as nat);
    law_int_fits_eight_bytes(len);
    law_int_round_trip(len as nat);
    law_int_has_no_leading_zero(len as nat);
    if len >= 128 {
        assert(length_bytes(len as nat).skip(1) =~= held);
    }
}

} // verus!
