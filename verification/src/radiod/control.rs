//! The control plane of radiod: what is sent to it and what its status packets say.

use bytes::BytesMut;
use vstd::prelude::*;

use crate::addr::{IpAddr, Ipv4Addr};
use crate::radiod::multicast::McastError;
use crate::radiod::tlv;
use crate::radiod::tlv::{PktType, StatusType, TlvError, TlvField, TlvValue};

verus! {

/// Why the control plane cannot be used. Errors of the operating system are held as their text.
#[derive(Debug)]
pub enum ControlError {
    Io(String),
    Tlv(TlvError),
    Resolve(String),
    Mcast(McastError),
}

impl ControlError {
    /// What the error says.
    pub open spec fn text(&self) -> Seq<char> {
        match *self {
            ControlError::Io(s) => "IO: "@ + s@,
            ControlError::Tlv(e) => "TLV decode: "@ + e.text(),
            ControlError::Resolve(name) => "DNS resolve failed for "@ + name@,
            ControlError::Mcast(e) => "multicast: "@ + e.text(),
        }
    }

    /// What the error says.
    pub fn message(&self) -> (r: String)
        ensures
            r@ == self.text(),
    {
        match self {
            ControlError::Io(text) => {
                let mut s = "IO: ".to_owned();
                s.append(text.as_str());
                s
            },
            ControlError::Tlv(e) => {
                let mut s = "TLV decode: ".to_owned();
                s.append(e.message().as_str());
                s
            },
            ControlError::Resolve(name) => {
                let mut s = "DNS resolve failed for ".to_owned();
                s.append(name.as_str());
                s
            },
            ControlError::Mcast(e) => {
                let mut s = "multicast: ".to_owned();
                s.append(e.message().as_str());
                s
            },
        }
    }
}

// ---------------------------------------------------------------------------------------------
// Name resolution
// ---------------------------------------------------------------------------------------------

/// The first IPv4 address.
pub open spec fn first_v4(addrs: Seq<IpAddr>) -> Option<Ipv4Addr>
    decreases addrs.len(),
{
    if addrs.len() == 0 {
        None
    } else {
        match addrs[0] {
            IpAddr::V4(v4) => Some(v4),
            IpAddr::V6 => first_v4(addrs.drop_first()),
        }
    }
}

/// The address that a name stands for, given the addresses to which the system resolved it: the
/// first one of IPv4. A name that could not be resolved has no addresses.
pub fn resolve_mdns(name: &str, addrs: &[IpAddr]) -> (r: Result<Ipv4Addr, ControlError>)
    ensures
        match first_v4(addrs@) {
            Some(v4) => r == Ok::<Ipv4Addr, ControlError>(v4),
            None => r matches Err(ControlError::Resolve(n)) && n@ == name@,
        },
{
    let mut i: usize = 0;
    assert(addrs@.skip(0) =~= addrs@);
    while i < addrs.len()
        invariant
            i <= addrs@.len(),
            first_v4(addrs@.skip(i as int)) == first_v4(addrs@),
        decreases addrs@.len() - i,
    {
        assert(addrs@.skip(i as int).drop_first() =~= addrs@.skip(i + 1));
        if let IpAddr::V4(v4) = addrs[i] {
            return Ok(v4);
        }
        i = i + 1;
    }
    Err(ControlError::Resolve(name.to_owned()))
}

// ---------------------------------------------------------------------------------------------
// Status packets
// ---------------------------------------------------------------------------------------------

/// A status packet of radiod.
#[derive(Debug)]
pub struct StatusPacket {
    /// The SSRC that the packet speaks of, if it names one.
    pub ssrc: Option<u32>,
    /// All fields of the packet.
    pub fields: Vec<TlvField>,
}

/// The fields of a status packet; `None` for a packet of another type.
pub open spec fn status_of(data: Seq<u8>) -> Result<Option<Seq<tlv::FieldView>>, TlvError> {
    match tlv::packet_of(data) {
        Ok((PktType::Status, fields)) => Ok(Some(fields)),
        Ok((PktType::Command, _)) => Ok(None),
        Err(e) => Err(e),
    }
}

/// The SSRC that a status packet speaks of: the first integer under the tag of the SSRC.
pub open spec fn status_ssrc(fields: Seq<tlv::FieldView>) -> Option<u32>
    decreases fields.len(),
{
    if fields.len() == 0 {
        None
    } else if fields[0].tag == StatusType::OUTPUT_SSRC.wire() && fields[0].value is Int {
        Some(((fields[0].value->Int_0) % 0x1_0000_0000) as u32)
    } else {
        status_ssrc(fields.drop_first())
    }
}

/// The SSRC that a status packet speaks of.
pub fn find_ssrc(fields: &[TlvField]) -> (r: Option<u32>)
    ensures
        r == status_ssrc(tlv::field_views(fields@)),
{
    let ghost views = tlv::field_views(fields@);
    let mut i: usize = 0;
    assert(views.skip(0) =~= views);
    while i < fields.len()
        invariant
            i <= fields@.len(),
            views == tlv::field_views(fields@),
            status_ssrc(views.skip(i as int)) == status_ssrc(views),
        decreases fields@.len() - i,
    {
        let field = &fields[i];
        assert(views.skip(i as int)[0] == field@);
        assert(views.skip(i as int).drop_first() =~= views.skip(i + 1));
        if field.tag == StatusType::OUTPUT_SSRC.code() {
            if let TlvValue::Int(v) = &field.value {
                return Some((*v % 0x1_0000_0000) as u32);
            }
        }
        i = i + 1;
    }
    None
}

/// Decodes a datagram that came from the control group. Packets other than status packets, such as
/// the commands of this and other clients, give `None`.
pub fn status_from_datagram(data: &[u8]) -> (r: Result<Option<StatusPacket>, TlvError>)
    ensures
        match status_of(data@) {
            Ok(Some(fields)) => r matches Ok(Some(p)) && tlv::field_views(p.fields@) == fields
                && p.ssrc == status_ssrc(fields),
            Ok(None) => r matches Ok(None),
            Err(e) => r == Err::<Option<StatusPacket>, TlvError>(e),
        },
{
    match tlv::decode_packet(data) {
        Ok((kind, fields)) => {
            if kind != PktType::Status {
                return Ok(None);
            }
            let ssrc = find_ssrc(fields.as_slice());
            Ok(Some(StatusPacket { ssrc, fields }))
        },
        Err(e) => Err(e),
    }
}

// ---------------------------------------------------------------------------------------------
// Commands
// ---------------------------------------------------------------------------------------------

/// The fields of a command behind its tag, a number by which radiod's answer can be told.
pub open spec fn tagged(tag: u32, fields: Seq<tlv::FieldView>) -> Seq<tlv::FieldView> {
    seq![
        tlv::FieldView {
            tag: StatusType::COMMAND_TAG.wire(),
            value: tlv::ValueView::Int(tag as u64),
        },
    ] + fields
}

/// The tags of the commands of a client, in the order in which they are taken: 1 for the first
/// command, and one more for each further one. Behind the largest tag they go on from 0.
pub struct CommandTags {
    next: u32,
    taken: Ghost<nat>,
}

impl View for CommandTags {
    type V = nat;

    /// How many tags have been taken.
    closed spec fn view(&self) -> nat {
        self.taken@
    }
}

/// The tag of the `k`-th command of a client.
pub open spec fn tag_of(k: nat) -> u32 {
    (k % 0x1_0000_0000) as u32
}

impl CommandTags {
    #[verifier::type_invariant]
    spec fn counts(self) -> bool {
        self.next == tag_of(self.taken@ + 1)
    }

    /// The tags of a client that has sent nothing yet.
    pub fn new() -> (r: CommandTags)
        ensures
            r@ == 0,
    {
        CommandTags { next: 1, taken: Ghost(0) }
    }

    /// Takes the tag of the next command.
    pub fn take(&mut self) -> (r: u32)
        ensures
            final(self)@ == old(self)@ + 1,
            r == tag_of(final(self)@),
    {
        proof {
            use_type_invariant(&*self);
        }
        let tag: u32 = self.next;
        let ghost taken = self.taken@ + 1;
        *self = CommandTags { next: tag.wrapping_add(1), taken: Ghost(taken) };
        tag
    }
}

/// Builds a command packet with a tag in front of the given fields. Without fields it is a poll,
/// to which radiod answers with a status packet for each SSRC.
pub fn tagged_command(tag: u32, fields: &[(StatusType, TlvValue)]) -> (r: BytesMut)
    requires
        tlv::command_bytes(tagged(tag, tlv::command_views(fields@))).len() <= tlv::max_buffer(),
    ensures
        tlv::buffer_bytes(r) == tlv::command_bytes(tagged(tag, tlv::command_views(fields@))),
{
    let mut all: Vec<(StatusType, TlvValue)> = Vec::new();
    all.push((StatusType::COMMAND_TAG, TlvValue::Int(tag as u64)));
    let ghost wanted = tagged(tag, tlv::command_views(fields@));
    let mut i: usize = 0;
    assert(tlv::command_views(all@) =~= wanted.take(1));
    while i < fields.len()
        invariant
            i <= fields@.len(),
            wanted == tagged(tag, tlv::command_views(fields@)),
            tlv::command_views(all@) == wanted.take(i + 1),
        decreases fields@.len() - i,
    {
        let ghost before = all@;
        let field = &fields[i];
        all.push((field.0, field.1.clone()));
        i = i + 1;
        assert(tlv::command_views(all@) =~= tlv::command_views(before).push(wanted[i as int]));
        assert(tlv::command_views(all@) =~= wanted.take(i + 1));
    }
    assert(wanted.take(i + 1) =~= wanted);
    tlv::build_command(all.as_slice())
}

// ---------------------------------------------------------------------------------------------
// Laws
// ---------------------------------------------------------------------------------------------

/// A command that is read back from the control group, where it arrives as well, is not taken for a
/// status packet.
pub proof fn law_commands_are_no_status(tag: u32, fields: Seq<tlv::FieldView>, tail: Seq<u8>)
    requires
        forall|i: int| 0 <= i < fields.len() ==> tlv::writable(#[trigger] fields[i]),
    ensures
        status_of(tlv::command_bytes(tagged(tag, fields)) + tail) == Ok::<
            Option<Seq<tlv::FieldView>>,
            TlvError,
        >(None),
{
    let all = tagged(tag, fields);
    tlv::law_int_fits_eight_bytes(tag as u64);
    assert forall|i: int| 0 <= i < all.len() implies tlv::writable(#[trigger] all[i]) by {
        if i > 0 {
            assert(all[i] == fields[i - 1]);
        }
    }
    tlv::law_decode_undoes_build(all, tail);
}

/// The `k`-th command of a client holds the tag `k`, first of all and once, and then the fields that
/// were given; its tag is larger by one than that of the command before it.
pub proof fn law_kth_command(k: nat, fields: Seq<tlv::FieldView>, tail: Seq<u8>)
    requires
        1 <= k < 0x1_0000_0000,
        forall|i: int|
            0 <= i < fields.len() ==> tlv::writable(#[trigger] fields[i]) && tlv::of_its_kind(
                fields[i],
            ) && fields[i].tag != StatusType::COMMAND_TAG.wire(),
    ensures
        tag_of(k) == k,
        tag_of(k) == tag_of((k - 1) as nat) + 1,
        ({
            let sent = tagged(tag_of(k), fields);
            &&& tlv::packet_of(tlv::command_bytes(sent) + tail) == Ok::<
                (PktType, Seq<tlv::FieldView>),
                TlvError,
            >((PktType::Command, sent))
            &&& sent[0].tag == StatusType::COMMAND_TAG.wire()
            &&& sent[0].value == tlv::ValueView::Int(k as u64)
            &&& forall|i: int|
                0 < i < sent.len() ==> (#[trigger] sent[i]).tag != StatusType::COMMAND_TAG.wire()
            &&& sent.skip(1) == fields
        }),
{
    let sent = tagged(tag_of(k), fields);
    tlv::law_int_fits_eight_bytes(k as u64);
    assert forall|i: int| 0 <= i < sent.len() implies tlv::writable(#[trigger] sent[i])
        && tlv::of_its_kind(sent[i]) && (i > 0 ==> sent[i].tag != StatusType::COMMAND_TAG.wire()) by {
        if i > 0 {
            assert(sent[i] == fields[i - 1]);
        }
    }
    tlv::law_decode_undoes_build(sent, tail);
    assert(sent.skip(1) =~= fields);
}

/// A status packet with the tag of the SSRC tells that SSRC, wherever the field stands.
pub proof fn law_ssrc_is_found(before: Seq<tlv::FieldView>, ssrc: u32, behind: Seq<tlv::FieldView>)
    requires
        status_ssrc(before) is None,
    ensures
        status_ssrc(
            before.push(
                (tlv::FieldView {
                    tag: StatusType::OUTPUT_SSRC.wire(),
                    value: tlv::ValueView::Int(ssrc as u64),
                }),
            ) + behind,
        ) == Some(ssrc),
    decreases before.len(),
{
    let field = tlv::FieldView {
        tag: StatusType::OUTPUT_SSRC.wire(),
        value: tlv::ValueView::Int(ssrc as u64),
    };
    let all = before.push(field) + behind;
    if before.len() == 0 {
        assert(all[0] == field);
    } else {
        law_ssrc_is_found(before.drop_first(), ssrc, behind);
        assert(all[0] == before[0]);
        assert(all.drop_first() =~= before.drop_first().push(field) + behind);
    }
}

/// A datagram is a status packet where it starts with 0, and no status packet where it starts with 1;
/// nothing else is a packet. Its fields are those behind that byte.
pub proof fn law_status_starts_with_zero(first: u8, rest: Seq<u8>)
    ensures
        status_of(Seq::<u8>::empty()) == Err::<Option<Seq<tlv::FieldView>>, TlvError>(
            TlvError::Truncated,
        ),
        first > 1 ==> status_of(seq![first] + rest) == Err::<
            Option<Seq<tlv::FieldView>>,
            TlvError,
        >(TlvError::UnknownPktType(first)),
        first <= 1 ==> match tlv::fields_at(rest) {
            Ok(fields) => status_of(seq![first] + rest) == Ok::<
                Option<Seq<tlv::FieldView>>,
                TlvError,
            >(
                if first == 0 {
                    Some(fields)
                } else {
                    None
                },
            ),
            Err(e) => status_of(seq![first] + rest) == Err::<
                Option<Seq<tlv::FieldView>>,
                TlvError,
            >(e),
        },
{
    tlv::law_packet_is_type_and_fields(first, rest);
}

/// The SSRC of a status packet is the low 32 bits of the first integer under tag 18; where there is
/// none, the packet names no SSRC.
pub proof fn law_first_ssrc_counts(fields: Seq<tlv::FieldView>, i: int)
    ensures
        0 <= i < fields.len() && fields[i].tag == 18 && fields[i].value is Int && (forall|j: int|
            0 <= j < i ==> !((#[trigger] fields[j]).tag == 18 && fields[j].value is Int))
            ==> status_ssrc(fields) == Some(
            ((fields[i].value->Int_0) % 0x1_0000_0000) as u32,
        ),
        (forall|j: int|
            0 <= j < fields.len() ==> !((#[trigger] fields[j]).tag == 18 && fields[j].value is Int))
            ==> status_ssrc(fields) is None,
    decreases fields.len(),
{
    if fields.len() > 0 {
        let rest = fields.drop_first();
        law_first_ssrc_counts(rest, i - 1);
        if forall|j: int|
            0 <= j < fields.len() ==> !((#[trigger] fields[j]).tag == 18
                && fields[j].value is Int) {
            assert forall|j: int| 0 <= j < rest.len() implies !((#[trigger] rest[j]).tag == 18
                && rest[j].value is Int) by {
                assert(rest[j] == fields[j + 1]);
            }
            assert(!(fields[0].tag == 18 && fields[0].value is Int));
        }
        if 0 < i < fields.len() && fields[i].tag == 18 && fields[i].value is Int && (forall|j: int|
            0 <= j < i ==> !((#[trigger] fields[j]).tag == 18 && fields[j].value is Int)) {
            assert forall|j: int| 0 <= j < i - 1 implies !((#[trigger] rest[j]).tag == 18
                && rest[j].value is Int) by {
                assert(rest[j] == fields[j + 1]);
            }
            assert(!(fields[0].tag == 18 && fields[0].value is Int));
            assert(rest[i - 1] == fields[i]);
        }
    }
}

/// A command on the wire: 1 for a command, 1 for the tag of the command, the number of bytes of the
/// tag, the tag, the fields, and 0. A poll has no fields.
pub proof fn law_command_starts_with_its_tag(tag: u32, fields: Seq<tlv::FieldView>)
    ensures
        ({
            let b = tlv::command_bytes(tagged(tag, fields));
            let n = b[2] as int;
            &&& b[0] == 1 && b[1] == 1 && 0 <= n <= 4 && b.last() == 0
            &&& tlv::be_value(b.subrange(3, 3 + n)) == tag
            &&& b.len() >= 4 + n
            &&& n > 0 ==> b[3] != 0
            &&& b.subrange(3 + n, b.len() - 1) == tlv::fields_bytes(fields)
            &&& fields.len() == 0 ==> b.len() == 4 + n
        }),
{
    let all = tagged(tag, fields);
    let first = all[0];
    let b = tlv::command_bytes(all);
    let d = tlv::be_bytes(tag as nat);
    assert(all.drop_first() =~= fields);
    tlv::law_int_field(1, tag as u64);
    assert(d.len() <= 4) by {
        reveal_with_fuel(tlv::be_bytes, 5);
    }
    assert(tlv::field_bytes(first) == seq![1u8, d.len() as u8] + d);
    assert(b =~= seq![1u8] + (seq![1u8, d.len() as u8] + d) + tlv::fields_bytes(fields)
        + seq![0u8]);
    assert(b.subrange(3, 3 + d.len() as int) =~= d);
    assert(b.subrange(3 + d.len() as int, b.len() - 1) =~= tlv::fields_bytes(fields));
}

/// Tags count the commands: 0 before the first one, one more for each, and again from 0 behind the
/// largest one.
pub proof fn law_tags_count_up(k: nat)
    ensures
        tag_of(0) == 0,
        tag_of(k + 1) == (if tag_of(k) == u32::MAX {
            0
        } else {
            tag_of(k) + 1
        }),
{
}

/// A name stands for the first of its addresses that is of IPv4; addresses of IPv6 do not count.
pub proof fn law_first_v4_counts(addrs: Seq<IpAddr>, i: int, v4: Ipv4Addr)
    ensures
        0 <= i < addrs.len() && addrs[i] == IpAddr::V4(v4) && (forall|j: int|
            0 <= j < i ==> #[trigger] addrs[j] is V6) ==> first_v4(addrs) == Some(v4),
        (forall|j: int| 0 <= j < addrs.len() ==> #[trigger] addrs[j] is V6) ==> first_v4(
            addrs,
        ) is None,
    decreases addrs.len(),
{
    if addrs.len() > 0 {
        let rest = addrs.drop_first();
        law_first_v4_counts(rest, i - 1, v4);
        assert(forall|j: int| 0 <= j < rest.len() ==> #[trigger] rest[j] == addrs[j + 1]);
        if 0 < i < addrs.len() {
            assert(rest[i - 1] == addrs[i]);
        }
        assert(addrs[0] is V6 || addrs[0] is V4);
    }
}

/// What an error says names what was met.
pub proof fn law_error_texts(io: String, tlv_error: TlvError, name: String, mcast: McastError)
    ensures
        ControlError::Io(io).text() == "IO: "@ + io@,
        ControlError::Tlv(tlv_error).text() == "TLV decode: "@ + tlv_error.text(),
        ControlError::Resolve(name).text() == "DNS resolve failed for "@ + name@,
        ControlError::Mcast(mcast).text() == "multicast: "@ + mcast.text(),
{
}

} // verus!
