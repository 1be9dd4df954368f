//! The connection engine's decisions: which TLS role each side takes
//! (reversed against the TCP roles, by design), how an inbound line is
//! answered (a pair request is acknowledged at once, everything else is
//! dispatched), how an outbound packet is annotated and framed, and
//! when the discovery broadcaster may send.

use vstd::prelude::*;
use crate::codec::{BodyField, BodyFieldModel, BodyModel, LeafModel, LeafValue, BodyValue};
use crate::device::{CandidateDecision, DeviceManager};
use crate::identity::{identity_type, parse_identity, read_identity, IdentityPacket};
use crate::packet::{
    decode_packet, enc_packet, frame_packet, parse_packet, NetworkPacket, PacketError, PacketModel,
};

verus! {

/// `kdeconnect.pair`
pub open spec fn pair_type() -> Seq<u8> {
    seq![
        107u8, 100u8, 101u8, 99u8, 111u8, 110u8, 110u8, 101u8, 99u8, 116u8, 46u8, 112u8, 97u8,
        105u8, 114u8,
    ]
}

pub fn pair_type_bytes() -> (r: Vec<u8>)
    ensures
        r@ == pair_type(),
{
    let mut v: Vec<u8> = Vec::new();
    v.push(107);
    v.push(100);
    v.push(101);
    v.push(99);
    v.push(111);
    v.push(110);
    v.push(110);
    v.push(101);
    v.push(99);
    v.push(116);
    v.push(46);
    v.push(112);
    v.push(97);
    v.push(105);
    v.push(114);
    proof {
        assert(v@ =~= pair_type());
    }
    v
}

/// `pair`
pub open spec fn key_pair() -> Seq<u8> {
    seq![112u8, 97u8, 105u8, 114u8]
}

/// The pair packet `{type: "kdeconnect.pair", body: {pair: b}}`.
pub open spec fn pair_packet_model(b: bool, id: u64) -> PacketModel {
    PacketModel {
        id,
        typ: pair_type(),
        body: seq![
            BodyFieldModel { key: key_pair(), value: BodyModel::Leaf(LeafModel::Bool(b)) },
        ],
        payload: None,
    }
}

/// Builds a pair packet: the request (or acknowledgement) `{pair: b}`.
pub fn new_pair(b: bool, id: u64) -> (r: NetworkPacket)
    ensures
        r@ == pair_packet_model(b, id),
        r.wf(),
{
    let mut key: Vec<u8> = Vec::new();
    key.push(112);
    key.push(97);
    key.push(105);
    key.push(114);
    proof {
        assert(key@ =~= key_pair());
    }
    let mut body: Vec<BodyField> = Vec::new();
    body.push(BodyField { key, value: BodyValue::Leaf(LeafValue::Bool(b)) });
    let r = NetworkPacket {
        id,
        typ: pair_type_bytes(),
        body,
        payload_size: None,
        payload_port: None,
    };
    proof {
        assert(r@.body =~= pair_packet_model(b, id).body);
        assert(r@ =~= pair_packet_model(b, id));
    }
    r
}

// ---------------------------------------------------------------------
// Roles
// ---------------------------------------------------------------------

/// Which side of the TCP connection this engine instance is.
#[derive(Debug)]
pub enum Role {
    /// The TCP listener accepted this connection.
    Server,
    /// This side dialed out after a discovery broadcast; the remote
    /// identity was already learned over UDP.
    Client { remote_identity: IdentityPacket },
}

impl Role {
    pub fn as_str(&self) -> (r: &'static str)
        ensures
            self is Server ==> r@ == "server"@,
            self is Client ==> r@ == "client"@,
    {
        match self {
            Role::Server => "server",
            Role::Client { .. } => "client",
        }
    }
}

/// The role taken in the TLS handshake. Deliberately reversed against
/// the TCP roles: the TCP listener speaks as TLS client, the TCP
/// dialer as TLS server.
#[derive(Debug, PartialEq, Eq, Structural)]
pub enum TlsRole {
    TlsClient,
    TlsServer,
}

/// The TLS role for a connection role: the reversal the protocol
/// prescribes.
pub fn tls_role(role: &Role) -> (r: TlsRole)
    ensures
        role is Server ==> r == TlsRole::TlsClient,
        role is Client ==> r == TlsRole::TlsServer,
{
    match role {
        Role::Server => TlsRole::TlsClient,
        Role::Client { .. } => TlsRole::TlsServer,
    }
}

// ---------------------------------------------------------------------
// Inbound path
// ---------------------------------------------------------------------

/// What the packet loop does with one inbound line.
#[derive(Debug)]
pub enum InboundAction {
    /// A pair request: write this acknowledgement back at once, before
    /// any further inbound packet is read.
    PairAck(NetworkPacket),
    /// Any other packet: hand it to the per-device dispatcher.
    Dispatch(NetworkPacket),
    /// Not a packet: log and drop it, the session continues.
    DropMalformed,
}

/// Decides the answer to one inbound line. A pair request is
/// acknowledged immediately with `{pair: true}` (stamped `now_ms`) and
/// reaches no dispatcher; any other packet is dispatched; a line that
/// is not a packet is dropped.
pub fn classify_inbound(line: &Vec<u8>, now_ms: u64) -> (r: InboundAction)
    ensures
        match parse_packet(line@) {
            None => r is DropMalformed,
            Some(m) => if m.typ == pair_type() {
                r matches InboundAction::PairAck(a) && a@ == pair_packet_model(true, now_ms)
                    && a.wf()
            } else {
                r matches InboundAction::Dispatch(p) && p@ == m && p.wf()
            },
        },
{
    match decode_packet(line) {
        None => InboundAction::DropMalformed,
        Some(p) => {
            let ty = pair_type_bytes();
            if crate::codec::bytes_eq(&p.typ, &ty) {
                InboundAction::PairAck(new_pair(true, now_ms))
            } else {
                InboundAction::Dispatch(p)
            }
        },
    }
}

// ---------------------------------------------------------------------
// Outbound path
// ---------------------------------------------------------------------

/// An outbound packet and the payload bytes that ride the side
/// channel, if any.
#[derive(Debug)]
pub struct NetworkPacketWithPayload {
    pub packet: NetworkPacket,
    pub payload: Option<Vec<u8>>,
}

/// Annotates and frames one outbound packet. `payload_port` is the
/// port an ephemeral payload server was bound on, `None` when there is
/// no payload or the bind failed; in the latter case the packet is
/// still framed and sent, without annotation, and the payload is
/// dropped. The frame is the encoded packet plus the newline.
pub fn prepare_send(p: &NetworkPacketWithPayload, payload_port: Option<u16>) -> (r: (
    NetworkPacket,
    Vec<u8>,
))
    requires
        p.packet.wf(),
        p.packet@.payload is None,
        p.payload matches Some(b) ==> b@.len() <= u64::MAX,
    ensures
        r.0@ == (match (p.payload, payload_port) {
            (Some(b), Some(port)) => PacketModel {
                payload: Some((b@.len() as u64, port)),
                ..p.packet@
            },
            _ => p.packet@,
        }),
        r.0.wf(),
        r.1@ == enc_packet(r.0@) + seq![10u8],
{
    let mut packet = clone_packet(&p.packet);
    match (&p.payload, payload_port) {
        (Some(b), Some(port)) => {
            packet.set_payload(b.len() as u64, port);
        },
        _ => {},
    }
    let frame = frame_packet(&packet);
    (packet, frame)
}

/// Copies a packet.
pub fn clone_packet(p: &NetworkPacket) -> (r: NetworkPacket)
    ensures
        r@ == p@,
        r.payload_size == p.payload_size,
        r.payload_port == p.payload_port,
{
    let mut body: Vec<BodyField> = Vec::new();
    let mut i: usize = 0;
    while i < p.body.len()
        invariant
            0 <= i <= p.body@.len(),
            body@.len() == i,
            forall|j: int| 0 <= j < i ==> (#[trigger] body@[j])@ == p.body@[j]@,
        decreases p.body@.len() - i,
    {
        body.push(clone_body_field(&p.body[i]));
        i = i + 1;
    }
    proof {
        let a = body@.map_values(|f: BodyField| f@);
        let b = p.body@.map_values(|f: BodyField| f@);
        assert forall|j: int| 0 <= j < a.len() implies a[j] == b[j] by {
            assert(a[j] == body@[j]@);
            assert(b[j] == p.body@[j]@);
        }
        assert(a =~= b);
    }
    let r = NetworkPacket {
        id: p.id,
        typ: crate::device::clone_bytes(&p.typ),
        body,
        payload_size: p.payload_size,
        payload_port: p.payload_port,
    };
    proof {
        assert(r@ =~= p@);
    }
    r
}

fn clone_leaf(v: &LeafValue) -> (r: LeafValue)
    ensures
        r@ == v@,
{
    match v {
        LeafValue::Bool(b) => LeafValue::Bool(*b),
        LeafValue::Int(n) => LeafValue::Int(*n),
        LeafValue::Text(t) => LeafValue::Text(crate::device::clone_bytes(t)),
        LeafValue::TextList(ts) => {
            let r = LeafValue::TextList(crate::identity::clone_texts(ts));
            proof {
                assert(r@ =~= v@);
            }
            r
        },
    }
}

fn clone_body_field(f: &BodyField) -> (r: BodyField)
    ensures
        r@ == f@,
{
    let value = match &f.value {
        BodyValue::Leaf(l) => BodyValue::Leaf(clone_leaf(l)),
        BodyValue::Table(rows) => {
            let mut out: Vec<crate::codec::TableRow> = Vec::new();
            let mut i: usize = 0;
            while i < rows.len()
                invariant
                    0 <= i <= rows@.len(),
                    out@.len() == i,
                    forall|j: int| 0 <= j < i ==> (#[trigger] out@[j])@ == rows@[j]@,
                decreases rows@.len() - i,
            {
                out.push(clone_row(&rows[i]));
                i = i + 1;
            }
            let r = BodyValue::Table(out);
            proof {
                let a = out@.map_values(|x: crate::codec::TableRow| x@);
                let b = rows@.map_values(|x: crate::codec::TableRow| x@);
                assert forall|j: int| 0 <= j < a.len() implies a[j] == b[j] by {
                    assert(a[j] == out@[j]@);
                    assert(b[j] == rows@[j]@);
                }
                assert(a =~= b);
            }
            r
        },
    };
    let r = BodyField { key: crate::device::clone_bytes(&f.key), value };
    proof {
        assert(r@ =~= f@);
    }
    r
}

fn clone_row(row: &crate::codec::TableRow) -> (r: crate::codec::TableRow)
    ensures
        r@ == row@,
{
    let mut fields: Vec<crate::codec::Field> = Vec::new();
    let mut i: usize = 0;
    while i < row.fields.len()
        invariant
            0 <= i <= row.fields@.len(),
            fields@.len() == i,
            forall|j: int| 0 <= j < i ==> (#[trigger] fields@[j])@ == row.fields@[j]@,
        decreases row.fields@.len() - i,
    {
        let f = &row.fields[i];
        fields.push(
            crate::codec::Field {
                key: crate::device::clone_bytes(&f.key),
                value: clone_leaf(&f.value),
            },
        );
        i = i + 1;
    }
    let r = crate::codec::TableRow { key: crate::device::clone_bytes(&row.key), fields };
    proof {
        let a = fields@.map_values(|x: crate::codec::Field| x@);
        let b = row.fields@.map_values(|x: crate::codec::Field| x@);
        assert forall|j: int| 0 <= j < a.len() implies a[j] == b[j] by {
            assert(a[j] == fields@[j]@);
            assert(b[j] == row.fields@[j]@);
        }
        assert(a =~= b);
        assert(r@ =~= row@);
    }
    r
}

// ---------------------------------------------------------------------
// Discovery
// ---------------------------------------------------------------------

/// One tick of the discovery broadcaster: emits the identity datagram
/// exactly when no device is connected, with the packet id refreshed
/// to the current wall time. The datagram is the bare encoded packet,
/// no newline.
pub fn broadcaster_tick(active_count: usize, identity: &mut NetworkPacket, now_ms: u64) -> (r:
    Option<Vec<u8>>)
    requires
        old(identity).wf(),
    ensures
        final(identity).wf(),
        r is Some <==> active_count == 0,
        active_count == 0 ==> final(identity)@ == (PacketModel { id: now_ms, ..old(identity)@ }),
        active_count != 0 ==> *final(identity) == *old(identity),
        r matches Some(d) ==> d@ == enc_packet(final(identity)@),
{
    if active_count == 0 {
        identity.set_id(now_ms);
        Some(crate::packet::encode_packet(identity))
    } else {
        None
    }
}

/// What to do with one received UDP datagram.
#[derive(Debug)]
pub enum UdpDecision {
    /// The datagram is not a packet: log and drop.
    DropMalformed,
    /// The packet is not an identity packet: drop.
    DropWrongType,
    /// The identity body is missing fields or has them in the wrong
    /// shape: drop.
    DropBadIdentity,
    /// The candidate was dropped by the registry (self, duplicate, or
    /// no port to dial).
    DropCandidate(CandidateDecision),
    /// Dial the advertised port at the datagram's source address, in
    /// the client role, with this remote identity.
    Dial { port: u16, remote_identity: IdentityPacket },
}

/// Decides what one UDP datagram leads to: decode it, require an
/// identity packet, read the identity record out of it, and let the
/// registry rule on the candidate. Only a well-formed identity of a
/// new, foreign device with an advertised port leads to a dial.
pub fn handle_udp_datagram(manager: &DeviceManager, datagram: &Vec<u8>) -> (r: UdpDecision)
    ensures
        match parse_packet(datagram@) {
            None => r is DropMalformed,
            Some(m) => if m.typ != identity_type() {
                r is DropWrongType
            } else {
                match read_identity(m.body) {
                    None => r is DropBadIdentity,
                    Some(idm) => {
                        let decision = if idm.device_id == manager.local_id() {
                            CandidateDecision::DropSelf
                        } else if manager.contains_device(idm.device_id) {
                            CandidateDecision::DropDuplicate
                        } else {
                            match idm.tcp_port {
                                None => CandidateDecision::DropNoPort,
                                Some(p) => CandidateDecision::Dial(p),
                            }
                        };
                        match decision {
                            CandidateDecision::Dial(p) => r matches UdpDecision::Dial {
                                port,
                                remote_identity,
                            } && port == p && remote_identity@ == idm,
                            d => r matches UdpDecision::DropCandidate(c) && c == d,
                        }
                    },
                }
            },
        },
{
    let packet = match decode_packet(datagram) {
        None => {
            return UdpDecision::DropMalformed;
        },
        Some(p) => p,
    };
    let remote_identity = match parse_identity(&packet) {
        Err(PacketError::WrongPacketType) => {
            return UdpDecision::DropWrongType;
        },
        Err(_) => {
            return UdpDecision::DropBadIdentity;
        },
        Ok(id) => id,
    };
    match manager.consider_candidate(&remote_identity.device_id, remote_identity.tcp_port) {
        CandidateDecision::Dial(port) => UdpDecision::Dial { port, remote_identity },
        d => UdpDecision::DropCandidate(d),
    }
}

} // verus!
