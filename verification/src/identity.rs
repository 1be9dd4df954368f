//! The identity packet: the well-known packet of type
//! `kdeconnect.identity` that a device advertises over UDP and sends as
//! the plaintext prefix of a new TCP connection. The advertiser carries
//! a `tcpPort`; the side that answers a dial sends its identity without
//! one.

use vstd::prelude::*;
use crate::codec::{
    BodyField, BodyFieldModel, BodyModel, BodyValue, LeafModel, LeafValue, wf_body, wf_text,
    wf_texts, bytes_eq,
};
use crate::device::clone_bytes;
use crate::packet::{decode_packet, parse_packet, NetworkPacket, PacketModel, PacketError};

verus! {

/// `kdeconnect.identity`
pub open spec fn identity_type() -> Seq<u8> {
    seq![
        107u8, 100u8, 101u8, 99u8, 111u8, 110u8, 110u8, 101u8, 99u8, 116u8, 46u8, 105u8, 100u8,
        101u8, 110u8, 116u8, 105u8, 116u8, 121u8,
    ]
}

pub fn identity_type_bytes() -> (r: Vec<u8>)
    ensures
        r@ == identity_type(),
{
    let mut v: Vec<u8> = Vec::new();
    v.push(107);
    v.push(100);
    v.push(101);
    v.push(99);
    v.push(111);
    v.push(110);
    v.push(110);
    v.push(101);
    v.push(99);
    v.push(116);
    v.push(46);
    v.push(105);
    v.push(100);
    v.push(101);
    v.push(110);
    v.push(116);
    v.push(105);
    v.push(116);
    v.push(121);
    proof {
        assert(v@ =~= identity_type());
    }
    v
}

/// `deviceId`
pub open spec fn key_device_id() -> Seq<u8> {
    seq![100u8, 101u8, 118u8, 105u8, 99u8, 101u8, 73u8, 100u8]
}

/// `deviceName`
pub open spec fn key_device_name() -> Seq<u8> {
    seq![100u8, 101u8, 118u8, 105u8, 99u8, 101u8, 78u8, 97u8, 109u8, 101u8]
}

/// `deviceType`
pub open spec fn key_device_type() -> Seq<u8> {
    seq![100u8, 101u8, 118u8, 105u8, 99u8, 101u8, 84u8, 121u8, 112u8, 101u8]
}

/// `protocolVersion`
pub open spec fn key_protocol_version() -> Seq<u8> {
    seq![
        112u8, 114u8, 111u8, 116u8, 111u8, 99u8, 111u8, 108u8, 86u8, 101u8, 114u8, 115u8, 105u8,
        111u8, 110u8,
    ]
}

/// `incomingCapabilities`
pub open spec fn key_incoming() -> Seq<u8> {
    seq![
        105u8, 110u8, 99u8, 111u8, 109u8, 105u8, 110u8, 103u8, 67u8, 97u8, 112u8, 97u8, 98u8,
        105u8, 108u8, 105u8, 116u8, 105u8, 101u8, 115u8,
    ]
}

/// `outgoingCapabilities`
pub open spec fn key_outgoing() -> Seq<u8> {
    seq![
        111u8, 117u8, 116u8, 103u8, 111u8, 105u8, 110u8, 103u8, 67u8, 97u8, 112u8, 97u8, 98u8,
        105u8, 108u8, 105u8, 116u8, 105u8, 101u8, 115u8,
    ]
}

/// `tcpPort`
pub open spec fn key_tcp_port() -> Seq<u8> {
    seq![116u8, 99u8, 112u8, 80u8, 111u8, 114u8, 116u8]
}

fn key_device_id_bytes() -> (r: Vec<u8>)
    ensures
        r@ == key_device_id(),
{
    let mut v: Vec<u8> = Vec::new();
    v.push(100);
    v.push(101);
    v.push(118);
    v.push(105);
    v.push(99);
    v.push(101);
    v.push(73);
    v.push(100);
    proof {
        assert(v@ =~= key_device_id());
    }
    v
}

fn key_device_name_bytes() -> (r: Vec<u8>)
    ensures
        r@ == key_device_name(),
{
    let mut v: Vec<u8> = Vec::new();
    v.push(100);
    v.push(101);
    v.push(118);
    v.push(105);
    v.push(99);
    v.push(101);
    v.push(78);
    v.push(97);
    v.push(109);
    v.push(101);
    proof {
        assert(v@ =~= key_device_name());
    }
    v
}

fn key_device_type_bytes() -> (r: Vec<u8>)
    ensures
        r@ == key_device_type(),
{
    let mut v: Vec<u8> = Vec::new();
    v.push(100);
    v.push(101);
    v.push(118);
    v.push(105);
    v.push(99);
    v.push(101);
    v.push(84);
    v.push(121);
    v.push(112);
    v.push(101);
    proof {
        assert(v@ =~= key_device_type());
    }
    v
}

fn key_protocol_version_bytes() -> (r: Vec<u8>)
    ensures
        r@ == key_protocol_version(),
{
    let mut v: Vec<u8> = Vec::new();
    v.push(112);
    v.push(114);
    v.push(111);
    v.push(116);
    v.push(111);
    v.push(99);
    v.push(111);
    v.push(108);
    v.push(86);
    v.push(101);
    v.push(114);
    v.push(115);
    v.push(105);
    v.push(111);
    v.push(110);
    proof {
        assert(v@ =~= key_protocol_version());
    }
    v
}

fn key_incoming_bytes() -> (r: Vec<u8>)
    ensures
        r@ == key_incoming(),
{
    let mut v: Vec<u8> = Vec::new();
    v.push(105);
    v.push(110);
    v.push(99);
    v.push(111);
    v.push(109);
    v.push(105);
    v.push(110);
    v.push(103);
    v.push(67);
    v.push(97);
    v.push(112);
    v.push(97);
    v.push(98);
    v.push(105);
    v.push(108);
    v.push(105);
    v.push(116);
    v.push(105);
    v.push(101);
    v.push(115);
    proof {
        assert(v@ =~= key_incoming());
    }
    v
}

fn key_outgoing_bytes() -> (r: Vec<u8>)
    ensures
        r@ == key_outgoing(),
{
    let mut v: Vec<u8> = Vec::new();
    v.push(111);
    v.push(117);
    v.push(116);
    v.push(103);
    v.push(111);
    v.push(105);
    v.push(110);
    v.push(103);
    v.push(67);
    v.push(97);
    v.push(112);
    v.push(97);
    v.push(98);
    v.push(105);
    v.push(108);
    v.push(105);
    v.push(116);
    v.push(105);
    v.push(101);
    v.push(115);
    proof {
        assert(v@ =~= key_outgoing());
    }
    v
}

fn key_tcp_port_bytes() -> (r: Vec<u8>)
    ensures
        r@ == key_tcp_port(),
{
    let mut v: Vec<u8> = Vec::new();
    v.push(116);
    v.push(99);
    v.push(112);
    v.push(80);
    v.push(111);
    v.push(114);
    v.push(116);
    proof {
        assert(v@ =~= key_tcp_port());
    }
    v
}

// ---------------------------------------------------------------------
// Body lookup
// ---------------------------------------------------------------------

/// The value of the first body field with key `key`, if any.
pub open spec fn body_lookup(body: Seq<BodyFieldModel>, key: Seq<u8>) -> Option<BodyModel>
    decreases body.len(),
{
    if body.len() == 0 {
        None
    } else if body[0].key == key {
        Some(body[0].value)
    } else {
        body_lookup(body.drop_first(), key)
    }
}

/// Finds the first body field with key `key`, exactly where the
/// specification does.
pub fn body_get<'a>(body: &'a Vec<BodyField>, key: &Vec<u8>) -> (r: Option<&'a BodyValue>)
    ensures
        match r {
            Some(v) => body_lookup(body@.map_values(|f: BodyField| f@), key@) == Some(v@),
            None => body_lookup(body@.map_values(|f: BodyField| f@), key@) is None,
        },
{
    let ghost m = body@.map_values(|f: BodyField| f@);
    proof {
        assert(m.skip(0) =~= m);
    }
    let mut i: usize = 0;
    while i < body.len()
        invariant
            0 <= i <= m.len(),
            m == body@.map_values(|f: BodyField| f@),
            m.len() == body@.len(),
            body_lookup(m, key@) == body_lookup(m.skip(i as int), key@),
        decreases m.len() - i,
    {
        proof {
            assert(m[i as int] == body@[i as int]@);
            assert(m.skip(i as int).len() > 0);
            assert(m.skip(i as int)[0] == m[i as int]);
        }
        if bytes_eq(&body[i].key, key) {
            return Some(&body[i].value);
        }
        proof {
            assert(m.skip(i as int).drop_first() =~= m.skip(i + 1 as int));
        }
        i = i + 1;
    }
    proof {
        assert(m.skip(i as int) =~= Seq::<BodyFieldModel>::empty());
    }
    None
}

// ---------------------------------------------------------------------
// The identity record
// ---------------------------------------------------------------------

/// Ghost model of an identity record.
#[verifier::ext_equal]
pub struct IdentityModel {
    pub device_id: Seq<u8>,
    pub device_name: Seq<u8>,
    pub device_type: Seq<u8>,
    pub protocol_version: u32,
    pub incoming_capabilities: Seq<Seq<u8>>,
    pub outgoing_capabilities: Seq<Seq<u8>>,
    pub tcp_port: Option<u16>,
}

/// A device's identity record.
#[derive(Debug)]
pub struct IdentityPacket {
    pub device_id: Vec<u8>,
    pub device_name: Vec<u8>,
    pub device_type: Vec<u8>,
    pub protocol_version: u32,
    pub incoming_capabilities: Vec<Vec<u8>>,
    pub outgoing_capabilities: Vec<Vec<u8>>,
    pub tcp_port: Option<u16>,
}

impl View for IdentityPacket {
    type V = IdentityModel;

    open spec fn view(&self) -> IdentityModel {
        IdentityModel {
            device_id: self.device_id@,
            device_name: self.device_name@,
            device_type: self.device_type@,
            protocol_version: self.protocol_version,
            incoming_capabilities: self.incoming_capabilities@.map_values(|v: Vec<u8>| v@),
            outgoing_capabilities: self.outgoing_capabilities@.map_values(|v: Vec<u8>| v@),
            tcp_port: self.tcp_port,
        }
    }
}

impl IdentityModel {
    pub open spec fn wf(self) -> bool {
        &&& wf_text(self.device_id)
        &&& wf_text(self.device_name)
        &&& wf_text(self.device_type)
        &&& wf_texts(self.incoming_capabilities)
        &&& wf_texts(self.outgoing_capabilities)
    }

    /// The body an identity packet for this record carries, in the
    /// order the encoder writes it; `tcpPort` is present exactly when
    /// the record advertises one.
    pub open spec fn body(self) -> Seq<BodyFieldModel> {
        let base = seq![
            BodyFieldModel {
                key: key_device_id(),
                value: BodyModel::Leaf(LeafModel::Text(self.device_id)),
            },
            BodyFieldModel {
                key: key_device_name(),
                value: BodyModel::Leaf(LeafModel::Text(self.device_name)),
            },
            BodyFieldModel {
                key: key_device_type(),
                value: BodyModel::Leaf(LeafModel::Text(self.device_type)),
            },
            BodyFieldModel {
                key: key_protocol_version(),
                value: BodyModel::Leaf(LeafModel::Int(self.protocol_version as int)),
            },
            BodyFieldModel {
                key: key_incoming(),
                value: BodyModel::Leaf(LeafModel::TextList(self.incoming_capabilities)),
            },
            BodyFieldModel {
                key: key_outgoing(),
                value: BodyModel::Leaf(LeafModel::TextList(self.outgoing_capabilities)),
            },
        ];
        match self.tcp_port {
            Some(p) => base.push(
                BodyFieldModel {
                    key: key_tcp_port(),
                    value: BodyModel::Leaf(LeafModel::Int(p as int)),
                },
            ),
            None => base,
        }
    }

    /// The full identity packet for this record.
    pub open spec fn packet(self, id: u64) -> PacketModel {
        PacketModel { id, typ: identity_type(), body: self.body(), payload: None }
    }
}

impl IdentityPacket {
    pub open spec fn wf(self) -> bool {
        self@.wf()
    }

    /// Builds the identity packet for this record: type
    /// `kdeconnect.identity`, the record's fields as the body, and
    /// `tcpPort` present exactly when the record advertises one.
    pub fn to_packet(&self, id: u64) -> (r: NetworkPacket)
        requires
            self.wf(),
        ensures
            r@ == self@.packet(id),
            r.wf(),
    {
        let mut body: Vec<BodyField> = Vec::new();
        body.push(
            BodyField {
                key: key_device_id_bytes(),
                value: BodyValue::Leaf(LeafValue::Text(clone_bytes(&self.device_id))),
            },
        );
        body.push(
            BodyField {
                key: key_device_name_bytes(),
                value: BodyValue::Leaf(LeafValue::Text(clone_bytes(&self.device_name))),
            },
        );
        body.push(
            BodyField {
                key: key_device_type_bytes(),
                value: BodyValue::Leaf(LeafValue::Text(clone_bytes(&self.device_type))),
            },
        );
        body.push(
            BodyField {
                key: key_protocol_version_bytes(),
                value: BodyValue::Leaf(LeafValue::Int(self.protocol_version as i64)),
            },
        );
        body.push(
            BodyField {
                key: key_incoming_bytes(),
                value: BodyValue::Leaf(LeafValue::TextList(clone_texts(&self.incoming_capabilities))),
            },
        );
        body.push(
            BodyField {
                key: key_outgoing_bytes(),
                value: BodyValue::Leaf(LeafValue::TextList(clone_texts(&self.outgoing_capabilities))),
            },
        );
        match self.tcp_port {
            Some(p) => {
                body.push(
                    BodyField {
                        key: key_tcp_port_bytes(),
                        value: BodyValue::Leaf(LeafValue::Int(p as i64)),
                    },
                );
            },
            None => {},
        }
        let r = NetworkPacket {
            id,
            typ: identity_type_bytes(),
            body,
            payload_size: None,
            payload_port: None,
        };
        proof {
            assert(r@.body =~= self@.body());
            assert(r@ =~= self@.packet(id));
        }
        r
    }
}

/// Copies a list of byte strings.
pub fn clone_texts(v: &Vec<Vec<u8>>) -> (r: Vec<Vec<u8>>)
    ensures
        r@.map_values(|x: Vec<u8>| x@) == v@.map_values(|x: Vec<u8>| x@),
{
    let mut out: Vec<Vec<u8>> = Vec::new();
    let mut i: usize = 0;
    while i < v.len()
        invariant
            0 <= i <= v@.len(),
            out@.len() == i,
            forall|j: int| 0 <= j < i ==> (#[trigger] out@[j])@ == v@[j]@,
        decreases v@.len() - i,
    {
        out.push(clone_bytes(&v[i]));
        i = i + 1;
    }
    proof {
        let a = out@.map_values(|x: Vec<u8>| x@);
        let b = v@.map_values(|x: Vec<u8>| x@);
        assert forall|j: int| 0 <= j < a.len() implies a[j] == b[j] by {
            assert(a[j] == out@[j]@);
            assert(b[j] == v@[j]@);
        }
        assert(a =~= b);
    }
    out
}

/// What an identity body must hold for the record to be read out of
/// it: the three names as strings, a version number that fits `u32`,
/// the two capability lists, and, when present, a port that fits
/// `u16`.
pub open spec fn read_identity(body: Seq<BodyFieldModel>) -> Option<IdentityModel> {
    match (
        body_lookup(body, key_device_id()),
        body_lookup(body, key_device_name()),
        body_lookup(body, key_device_type()),
        body_lookup(body, key_protocol_version()),
        body_lookup(body, key_incoming()),
        body_lookup(body, key_outgoing()),
    ) {
        (
            Some(BodyModel::Leaf(LeafModel::Text(di))),
            Some(BodyModel::Leaf(LeafModel::Text(dn))),
            Some(BodyModel::Leaf(LeafModel::Text(dt))),
            Some(BodyModel::Leaf(LeafModel::Int(pv))),
            Some(BodyModel::Leaf(LeafModel::TextList(inc))),
            Some(BodyModel::Leaf(LeafModel::TextList(out))),
        ) => {
            if !(0 <= pv <= u32::MAX) {
                None
            } else {
                match body_lookup(body, key_tcp_port()) {
                    None => Some(
                        IdentityModel {
                            device_id: di,
                            device_name: dn,
                            device_type: dt,
                            protocol_version: pv as u32,
                            incoming_capabilities: inc,
                            outgoing_capabilities: out,
                            tcp_port: None,
                        },
                    ),
                    Some(BodyModel::Leaf(LeafModel::Int(tp))) => if 0 <= tp <= u16::MAX {
                        Some(
                            IdentityModel {
                                device_id: di,
                                device_name: dn,
                                device_type: dt,
                                protocol_version: pv as u32,
                                incoming_capabilities: inc,
                                outgoing_capabilities: out,
                                tcp_port: Some(tp as u16),
                            },
                        )
                    } else {
                        None
                    },
                    Some(_) => None,
                }
            }
        },
        _ => None,
    }
}

/// Reads an identity record out of a packet. The packet must be of
/// type `kdeconnect.identity` (else `WrongPacketType`) and its body
/// must hold the record's fields in the right shapes (else
/// `MalformedBody`).
pub fn parse_identity(p: &NetworkPacket) -> (r: Result<IdentityPacket, PacketError>)
    ensures
        p@.typ != identity_type() ==> r == Err::<IdentityPacket, PacketError>(
            PacketError::WrongPacketType,
        ),
        p@.typ == identity_type() ==> match read_identity(p@.body) {
            Some(idm) => r matches Ok(id) && id@ == idm,
            None => r == Err::<IdentityPacket, PacketError>(PacketError::MalformedBody),
        },
{
    let ty = identity_type_bytes();
    if !bytes_eq(&p.typ, &ty) {
        return Err(PacketError::WrongPacketType);
    }
    let k1 = key_device_id_bytes();
    let device_id = match body_get(&p.body, &k1) {
        Some(BodyValue::Leaf(LeafValue::Text(t))) => clone_bytes(t),
        _ => {
            return Err(PacketError::MalformedBody);
        },
    };
    let k2 = key_device_name_bytes();
    let device_name = match body_get(&p.body, &k2) {
        Some(BodyValue::Leaf(LeafValue::Text(t))) => clone_bytes(t),
        _ => {
            return Err(PacketError::MalformedBody);
        },
    };
    let k3 = key_device_type_bytes();
    let device_type = match body_get(&p.body, &k3) {
        Some(BodyValue::Leaf(LeafValue::Text(t))) => clone_bytes(t),
        _ => {
            return Err(PacketError::MalformedBody);
        },
    };
    let k4 = key_protocol_version_bytes();
    let protocol_version: u32 = match body_get(&p.body, &k4) {
        Some(BodyValue::Leaf(LeafValue::Int(v))) => {
            let v = *v;
            if 0 <= v && v <= u32::MAX as i64 {
                v as u32
            } else {
                return Err(PacketError::MalformedBody);
            }
        },
        _ => {
            return Err(PacketError::MalformedBody);
        },
    };
    let k5 = key_incoming_bytes();
    let incoming_capabilities = match body_get(&p.body, &k5) {
        Some(BodyValue::Leaf(LeafValue::TextList(ts))) => clone_texts(ts),
        _ => {
            return Err(PacketError::MalformedBody);
        },
    };
    let k6 = key_outgoing_bytes();
    let outgoing_capabilities = match body_get(&p.body, &k6) {
        Some(BodyValue::Leaf(LeafValue::TextList(ts))) => clone_texts(ts),
        _ => {
            return Err(PacketError::MalformedBody);
        },
    };
    let k7 = key_tcp_port_bytes();
    let tcp_port: Option<u16> = match body_get(&p.body, &k7) {
        None => None,
        Some(BodyValue::Leaf(LeafValue::Int(v))) => {
            let v = *v;
            if 0 <= v && v <= u16::MAX as i64 {
                Some(v as u16)
            } else {
                return Err(PacketError::MalformedBody);
            }
        },
        Some(_) => {
            return Err(PacketError::MalformedBody);
        },
    };
    let r = IdentityPacket {
        device_id,
        device_name,
        device_type,
        protocol_version,
        incoming_capabilities,
        outgoing_capabilities,
        tcp_port,
    };
    proof {
        assert(r@ =~= read_identity(p@.body).unwrap());
    }
    Ok(r)
}

/// Reads the plaintext identity prefix a dialer sends before the TLS
/// handshake: one line that must decode as a packet (`MalformedPacket`),
/// be of the identity type (`WrongPacketType`, and the session aborts
/// before any registry mutation), and carry a readable identity record
/// (`MalformedBody`).
pub fn parse_identity_prefix(line: &Vec<u8>) -> (r: Result<IdentityPacket, PacketError>)
    ensures
        match parse_packet(line@) {
            None => r == Err::<IdentityPacket, PacketError>(PacketError::MalformedPacket),
            Some(m) => if m.typ != identity_type() {
                r == Err::<IdentityPacket, PacketError>(PacketError::WrongPacketType)
            } else {
                match read_identity(m.body) {
                    Some(idm) => r matches Ok(id) && id@ == idm,
                    None => r == Err::<IdentityPacket, PacketError>(PacketError::MalformedBody),
                }
            },
        },
{
    match decode_packet(line) {
        None => Err(PacketError::MalformedPacket),
        Some(packet) => parse_identity(&packet),
    }
}

} // verus!
