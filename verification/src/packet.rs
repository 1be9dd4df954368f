//! The network packet: a JSON object `{"id": .., "type": .., "body":
//! {..}}`, optionally annotated with `payloadSize` and
//! `payloadTransferInfo.port` when a binary payload travels on a side
//! channel. On the main TCP channel each packet is terminated by a
//! single newline byte; over UDP the bare object is the datagram.
//!
//! Decoding provably inverts encoding (`lemma_packet_round_trip`).

use vstd::prelude::*;
use crate::codec::{
    BodyField, BodyFieldModel, d_body_obj, d_text, d_u64, enc_body_obj, enc_nat, enc_text,
    lemma_parse_body_obj_at, lemma_parse_text_at, lemma_parse_u64_at, lemma_subrange_split,
    is_digit, match_at, parse_body_obj, parse_text, parse_u64, push_all, push_body, push_text,
    push_u64, wf_body, wf_text, RBRACE,
};

verus! {

/// What can go wrong with a packet: bytes that are not a packet, a
/// body without the fields a reader needs, or a packet of the wrong
/// type where a specific one is required.
#[derive(Debug, Clone, Copy, PartialEq, Eq, Structural)]
pub enum PacketError {
    MalformedPacket,
    MalformedBody,
    WrongPacketType,
}

/// Ghost model of a packet.
#[verifier::ext_equal]
pub struct PacketModel {
    pub id: u64,
    pub typ: Seq<u8>,
    pub body: Seq<BodyFieldModel>,
    /// Size and side-channel port, both present or both absent.
    pub payload: Option<(u64, u16)>,
}

impl PacketModel {
    pub open spec fn wf(self) -> bool {
        &&& wf_text(self.typ)
        &&& self.typ.len() > 0
        &&& wf_body(self.body)
    }
}

/// A protocol packet.
#[derive(Debug, Clone)]
pub struct NetworkPacket {
    pub id: u64,
    pub typ: Vec<u8>,
    pub body: Vec<BodyField>,
    pub payload_size: Option<u64>,
    pub payload_port: Option<u16>,
}

impl View for NetworkPacket {
    type V = PacketModel;

    open spec fn view(&self) -> PacketModel {
        PacketModel {
            id: self.id,
            typ: self.typ@,
            body: self.body@.map_values(|f: BodyField| f@),
            payload: match (self.payload_size, self.payload_port) {
                (Some(sz), Some(port)) => Some((sz, port)),
                _ => None,
            },
        }
    }
}

impl NetworkPacket {
    /// The invariant of every packet this library builds or accepts:
    /// a non-empty plain type, a well-formed body, and the two payload
    /// fields present or absent together.
    pub open spec fn wf(self) -> bool {
        &&& self@.wf()
        &&& (self.payload_size is Some <==> self.payload_port is Some)
    }

    /// Annotates the packet with the payload size and the side-channel
    /// port it will be served on.
    pub fn set_payload(&mut self, size: u64, port: u16)
        ensures
            final(self)@ == (PacketModel { payload: Some((size, port)), ..old(self)@ }),
            old(self).wf() ==> final(self).wf(),
    {
        self.payload_size = Some(size);
        self.payload_port = Some(port);
    }

    /// Refreshes the packet id, as the sender does just before
    /// serialization.
    pub fn set_id(&mut self, id: u64)
        ensures
            final(self)@ == (PacketModel { id: id, ..old(self)@ }),
            final(self).wf() == old(self).wf(),
    {
        self.id = id;
    }
}

// ---------------------------------------------------------------------
// Wire literals
// ---------------------------------------------------------------------

/// `{"id":`
pub open spec fn lit_id() -> Seq<u8> {
    seq![123u8, 34u8, 105u8, 100u8, 34u8, 58u8]
}

/// `,"type":`
pub open spec fn lit_type() -> Seq<u8> {
    seq![44u8, 34u8, 116u8, 121u8, 112u8, 101u8, 34u8, 58u8]
}

/// `,"body":`
pub open spec fn lit_body() -> Seq<u8> {
    seq![44u8, 34u8, 98u8, 111u8, 100u8, 121u8, 34u8, 58u8]
}

/// `,"payloadSize":`
pub open spec fn lit_psize() -> Seq<u8> {
    seq![
        44u8, 34u8, 112u8, 97u8, 121u8, 108u8, 111u8, 97u8, 100u8, 83u8, 105u8, 122u8, 101u8,
        34u8, 58u8,
    ]
}

/// `,"payloadTransferInfo":{"port":`
pub open spec fn lit_ptrans() -> Seq<u8> {
    seq![
        44u8, 34u8, 112u8, 97u8, 121u8, 108u8, 111u8, 97u8, 100u8, 84u8, 114u8, 97u8, 110u8,
        115u8, 102u8, 101u8, 114u8, 73u8, 110u8, 102u8, 111u8, 34u8, 58u8, 123u8, 34u8, 112u8,
        111u8, 114u8, 116u8, 34u8, 58u8,
    ]
}

fn lit_id_vec() -> (r: Vec<u8>)
    ensures
        r@ == lit_id(),
{
    let mut v: Vec<u8> = Vec::new();
    v.push(123);
    v.push(34);
    v.push(105);
    v.push(100);
    v.push(34);
    v.push(58);
    proof {
        assert(v@ =~= lit_id());
    }
    v
}

fn lit_type_vec() -> (r: Vec<u8>)
    ensures
        r@ == lit_type(),
{
    let mut v: Vec<u8> = Vec::new();
    v.push(44);
    v.push(34);
    v.push(116);
    v.push(121);
    v.push(112);
    v.push(101);
    v.push(34);
    v.push(58);
    proof {
        assert(v@ =~= lit_type());
    }
    v
}

fn lit_body_vec() -> (r: Vec<u8>)
    ensures
        r@ == lit_body(),
{
    let mut v: Vec<u8> = Vec::new();
    v.push(44);
    v.push(34);
    v.push(98);
    v.push(111);
    v.push(100);
    v.push(121);
    v.push(34);
    v.push(58);
    proof {
        assert(v@ =~= lit_body());
    }
    v
}

fn lit_psize_vec() -> (r: Vec<u8>)
    ensures
        r@ == lit_psize(),
{
    let mut v: Vec<u8> = Vec::new();
    v.push(44);
    v.push(34);
    v.push(112);
    v.push(97);
    v.push(121);
    v.push(108);
    v.push(111);
    v.push(97);
    v.push(100);
    v.push(83);
    v.push(105);
    v.push(122);
    v.push(101);
    v.push(34);
    v.push(58);
    proof {
        assert(v@ =~= lit_psize());
    }
    v
}

fn lit_ptrans_vec() -> (r: Vec<u8>)
    ensures
        r@ == lit_ptrans(),
{
    let mut v: Vec<u8> = Vec::new();
    v.push(44);
    v.push(34);
    v.push(112);
    v.push(97);
    v.push(121);
    v.push(108);
    v.push(111);
    v.push(97);
    v.push(100);
    v.push(84);
    v.push(114);
    v.push(97);
    v.push(110);
    v.push(115);
    v.push(102);
    v.push(101);
    v.push(114);
    v.push(73);
    v.push(110);
    v.push(102);
    v.push(111);
    v.push(34);
    v.push(58);
    v.push(123);
    v.push(34);
    v.push(112);
    v.push(111);
    v.push(114);
    v.push(116);
    v.push(34);
    v.push(58);
    proof {
        assert(v@ =~= lit_ptrans());
    }
    v
}

/// Whether `lit` stands at position `i`, exactly `match_at`.
fn match_lit(s: &Vec<u8>, i: usize, lit: &Vec<u8>) -> (r: bool)
    requires
        i <= s@.len(),
    ensures
        r == match_at(s@, i as int, lit@),
{
    let n = s.len();
    if n - i < lit.len() {
        return false;
    }
    let mut k: usize = 0;
    while k < lit.len()
        invariant
            0 <= k <= lit@.len(),
            n == s@.len(),
            i + lit@.len() <= n,
            forall|j: int| 0 <= j < k ==> s@[i + j] == lit@[j],
        decreases lit@.len() - k,
    {
        if s[i + k] != lit[k] {
            proof {
                assert(!match_at(s@, i as int, lit@)) by {
                    if match_at(s@, i as int, lit@) {
                        assert(s@[i + k] == s@.subrange(i as int, i + lit@.len())[k as int]);
                    }
                }
            }
            return false;
        }
        k = k + 1;
    }
    proof {
        assert(s@.subrange(i as int, i + lit@.len()) =~= lit@);
    }
    true
}

// ---------------------------------------------------------------------
// Packet encoding and decoding
// ---------------------------------------------------------------------

/// The payload annotation part of the wire form, empty when the packet
/// has none.
pub open spec fn enc_payload_part(payload: Option<(u64, u16)>) -> Seq<u8> {
    match payload {
        Some((sz, port)) => lit_psize() + enc_nat(sz as nat) + lit_ptrans() + enc_nat(
            port as nat,
        ) + seq![RBRACE],
        None => Seq::<u8>::empty(),
    }
}

/// The wire form of a packet, newline excluded.
pub open spec fn enc_packet(m: PacketModel) -> Seq<u8> {
    lit_id() + enc_nat(m.id as nat) + lit_type() + enc_text(m.typ) + lit_body() + enc_body_obj(
        m.body,
    ) + enc_payload_part(m.payload) + seq![RBRACE]
}

/// Parses a whole packet; the input must be consumed exactly.
pub open spec fn parse_packet(s: Seq<u8>) -> Option<PacketModel> {
    if !match_at(s, 0, lit_id()) {
        None
    } else {
        match parse_u64(s, 6) {
            Some((id, i)) => if !match_at(s, i, lit_type()) {
                None
            } else {
                match parse_text(s, i + 8) {
                    Some((typ, j)) => if typ.len() == 0 || !match_at(s, j, lit_body()) {
                        None
                    } else {
                        match parse_body_obj(s, j + 8) {
                            Some((body, k)) => if match_at(s, k, lit_psize()) {
                                match parse_u64(s, k + 15) {
                                    Some((sz, a)) => if !match_at(s, a, lit_ptrans()) {
                                        None
                                    } else {
                                        match parse_u64(s, a + 31) {
                                            Some((port, b)) => if port <= 65535 && b + 2 == s.len()
                                                && s[b] == RBRACE && s[b + 1] == RBRACE {
                                                Some(
                                                    PacketModel {
                                                        id,
                                                        typ,
                                                        body,
                                                        payload: Some((sz, port as u16)),
                                                    },
                                                )
                                            } else {
                                                None
                                            },
                                            None => None,
                                        }
                                    },
                                    None => None,
                                }
                            } else if k + 1 == s.len() && s[k] == RBRACE {
                                Some(PacketModel { id, typ, body, payload: None })
                            } else {
                                None
                            },
                            None => None,
                        }
                    },
                    None => None,
                }
            },
            None => None,
        }
    }
}

/// Serializes a packet to its wire form, newline excluded.
pub fn encode_packet(p: &NetworkPacket) -> (r: Vec<u8>)
    requires
        p.wf(),
    ensures
        r@ == enc_packet(p@),
{
    let mut out: Vec<u8> = Vec::new();
    let l1 = lit_id_vec();
    push_all(&mut out, &l1);
    push_u64(&mut out, p.id);
    let l2 = lit_type_vec();
    push_all(&mut out, &l2);
    push_text(&mut out, &p.typ);
    let l3 = lit_body_vec();
    push_all(&mut out, &l3);
    push_body(&mut out, &p.body);
    match (p.payload_size, p.payload_port) {
        (Some(sz), Some(port)) => {
            let l4 = lit_psize_vec();
            push_all(&mut out, &l4);
            push_u64(&mut out, sz);
            let l5 = lit_ptrans_vec();
            push_all(&mut out, &l5);
            push_u64(&mut out, port as u64);
            out.push(RBRACE);
        },
        _ => {},
    }
    out.push(RBRACE);
    proof {
        assert(out@ =~= enc_packet(p@));
    }
    out
}

/// The framed wire form for the main TCP channel: the packet followed
/// by one newline byte.
pub fn frame_packet(p: &NetworkPacket) -> (r: Vec<u8>)
    requires
        p.wf(),
    ensures
        r@ == enc_packet(p@) + seq![10u8],
{
    let mut out = encode_packet(p);
    out.push(10);
    proof {
        assert(out@ =~= enc_packet(p@) + seq![10u8]);
    }
    out
}

/// Parses one packet from its wire form, exactly where the
/// specification does; any trailing byte makes the input malformed.
#[verifier::rlimit(60)]
pub fn decode_packet(s: &Vec<u8>) -> (r: Option<NetworkPacket>)
    ensures
        (match r {
            Some(p) => Some(p@),
            None => None::<PacketModel>,
        }) == parse_packet(s@),
        r matches Some(p) ==> p.wf(),
{
    let l1 = lit_id_vec();
    if !match_lit(s, 0, &l1) {
        return None;
    }
    let (id, i) = match d_u64(s, 6) {
        Some(x) => x,
        None => {
            return None;
        },
    };
    let n = s.len();
    let l2 = lit_type_vec();
    if !match_lit(s, i, &l2) {
        return None;
    }
    proof {
        assert(i + 8 <= n);
    }
    let (typ, j) = match d_text(s, i + 8) {
        Some(x) => x,
        None => {
            return None;
        },
    };
    if typ.len() == 0 {
        return None;
    }
    let l3 = lit_body_vec();
    if !match_lit(s, j, &l3) {
        return None;
    }
    proof {
        assert(j + 8 <= n);
    }
    let (body, k) = match d_body_obj(s, j + 8) {
        Some(x) => x,
        None => {
            return None;
        },
    };
    let l4 = lit_psize_vec();
    if match_lit(s, k, &l4) {
        proof {
            assert(k + 15 <= n);
        }
        let (sz, a) = match d_u64(s, k + 15) {
            Some(x) => x,
            None => {
                return None;
            },
        };
        let l5 = lit_ptrans_vec();
        if !match_lit(s, a, &l5) {
            return None;
        }
        proof {
            assert(a + 31 <= n);
        }
        let (port, b) = match d_u64(s, a + 31) {
            Some(x) => x,
            None => {
                return None;
            },
        };
        if port <= 65535 && n >= 2 && b == n - 2 && s[b] == RBRACE && s[b + 1] == RBRACE {
            proof {
                assert(b + 2 == s@.len());
            }
            Some(
                NetworkPacket {
                    id,
                    typ,
                    body,
                    payload_size: Some(sz),
                    payload_port: Some(port as u16),
                },
            )
        } else {
            None
        }
    } else {
        if k < s.len() && k + 1 == s.len() && s[k] == RBRACE {
            Some(NetworkPacket { id, typ, body, payload_size: None, payload_port: None })
        } else {
            None
        }
    }
}

/// Position after the id digits in the wire form.
pub open spec fn rt_p2(m: PacketModel) -> int {
    6 + enc_nat(m.id as nat).len() as int
}

/// Position after the quoted type.
pub open spec fn rt_p4(m: PacketModel) -> int {
    rt_p2(m) + 8 + enc_text(m.typ).len() as int
}

/// Position after the body object.
pub open spec fn rt_p6(m: PacketModel) -> int {
    rt_p4(m) + 8 + enc_body_obj(m.body).len() as int
}

#[verifier::rlimit(100)]
#[verifier::spinoff_prover]
proof fn lemma_rt_prefix(m: PacketModel)
    requires
        m.wf(),
    ensures
        match_at(enc_packet(m), 0, lit_id()),
        parse_u64(enc_packet(m), 6) == Some((m.id, rt_p2(m))),
        match_at(enc_packet(m), rt_p2(m), lit_type()),
        parse_text(enc_packet(m), rt_p2(m) + 8) == Some((m.typ, rt_p4(m))),
        match_at(enc_packet(m), rt_p4(m), lit_body()),
        parse_body_obj(enc_packet(m), rt_p4(m) + 8) == Some((m.body, rt_p6(m))),
        enc_packet(m).len() == rt_p6(m) + enc_payload_part(m.payload).len() + 1,
        enc_packet(m).subrange(rt_p6(m), enc_packet(m).len() as int) == enc_payload_part(m.payload)
            + seq![RBRACE],
{
    let s = enc_packet(m);
    let e1 = enc_nat(m.id as nat);
    let e2 = enc_text(m.typ);
    let e3 = enc_body_obj(m.body);
    let t = enc_payload_part(m.payload);
    let tail = t + seq![RBRACE];
    let r5 = e3 + tail;
    let r4 = lit_body() + r5;
    let r3 = e2 + r4;
    let r2 = lit_type() + r3;
    let r1 = e1 + r2;
    assert(s =~= lit_id() + r1);
    assert(s.subrange(0, s.len() as int) =~= lit_id() + r1);
    lemma_subrange_split(s, 0, lit_id(), r1);
    let p2 = 6 + e1.len() as int;
    lemma_subrange_split(s, 6, e1, r2);
    lemma_subrange_split(s, p2, lit_type(), r3);
    let p3 = p2 + 8;
    lemma_subrange_split(s, p3, e2, r4);
    let p4 = p3 + e2.len() as int;
    lemma_subrange_split(s, p4, lit_body(), r5);
    let p5 = p4 + 8;
    lemma_subrange_split(s, p5, e3, tail);
    let p6 = p5 + e3.len() as int;
    assert(match_at(s, 0, lit_id()));
    assert(s[p2] == s.subrange(p2, p2 + 8)[0]);
    assert(s[p2] == 44);
    assert(!is_digit(44u8));
    lemma_parse_u64_at(s, 6, m.id);
    assert(parse_u64(s, 6) == Some((m.id, p2)));
    assert(match_at(s, p2, lit_type()));
    lemma_parse_text_at(s, p3, m.typ);
    assert(parse_text(s, p3) == Some((m.typ, p4)));
    assert(match_at(s, p4, lit_body()));
    lemma_parse_body_obj_at(s, p5, m.body);
    assert(parse_body_obj(s, p5) == Some((m.body, p6)));
    assert(s.subrange(p6, s.len() as int) == tail);
}

#[verifier::rlimit(100)]
#[verifier::spinoff_prover]
proof fn lemma_rt_none(m: PacketModel)
    requires
        m.wf(),
        m.payload is None,
    ensures
        parse_packet(enc_packet(m)) == Some(m),
{
    let s = enc_packet(m);
    lemma_rt_prefix(m);
    let p6 = rt_p6(m);
    let t = enc_payload_part(m.payload);
    let tail = t + seq![RBRACE];
    assert(s.subrange(p6, s.len() as int) == tail);
    assert(0 <= p6);
    match m.payload {
        None => {
            assert(t =~= Seq::<u8>::empty());
            assert(tail =~= seq![RBRACE]);
            assert(s[p6] == s.subrange(p6, p6 + 1)[0]);
            assert(s[p6] == RBRACE);
            assert(p6 + 1 == s.len());
            assert(!match_at(s, p6, lit_psize())) by {
                if match_at(s, p6, lit_psize()) {
                    assert(s[p6] == s.subrange(p6, p6 + 15)[0]);
                }
            }
            assert(parse_packet(s) == Some(
                PacketModel { id: m.id, typ: m.typ, body: m.body, payload: None },
            ));
            assert(PacketModel { id: m.id, typ: m.typ, body: m.body, payload: None } =~= m);
        },
        Some(_) => {},
    }
}

#[verifier::rlimit(100)]
#[verifier::spinoff_prover]
proof fn lemma_rt_some_splits(s: Seq<u8>, p6: int, sz: u64, port: u16)
    requires
        0 <= p6,
        s.len() == p6 + enc_payload_part(Some((sz, port))).len() + 1,
        s.subrange(p6, s.len() as int) == enc_payload_part(Some((sz, port))) + seq![RBRACE],
    ensures
        match_at(s, p6, lit_psize()),
        parse_u64(s, p6 + 15) == Some((sz, p6 + 15 + enc_nat(sz as nat).len() as int)),
        match_at(s, p6 + 15 + enc_nat(sz as nat).len() as int, lit_ptrans()),
        parse_u64(s, p6 + 46 + enc_nat(sz as nat).len() as int) == Some(
            (port as u64, p6 + 46 + enc_nat(sz as nat).len() + enc_nat(port as nat).len() as int),
        ),
        p6 + 48 + enc_nat(sz as nat).len() + enc_nat(port as nat).len() == s.len(),
        s[p6 + 46 + enc_nat(sz as nat).len() + enc_nat(port as nat).len()] == RBRACE,
        s[p6 + 47 + enc_nat(sz as nat).len() + enc_nat(port as nat).len()] == RBRACE,
{
    let t = enc_payload_part(Some((sz, port)));
    let tail = t + seq![RBRACE];
    assert(s.subrange(p6, s.len() as int) == tail);
    let e4 = enc_nat(sz as nat);
    let e5 = enc_nat(port as nat);
    let q2 = seq![RBRACE] + seq![RBRACE];
    let q3 = e5 + q2;
    let q4 = lit_ptrans() + q3;
    let q5 = e4 + q4;
    assert(tail =~= lit_psize() + q5);
    assert(s.subrange(p6, p6 + tail.len()) == tail);
    lemma_subrange_split(s, p6, lit_psize(), q5);
    let p7 = p6 + 15;
    lemma_subrange_split(s, p7, e4, q4);
    let p8 = p7 + e4.len() as int;
    lemma_subrange_split(s, p8, lit_ptrans(), q3);
    let p9 = p8 + 31;
    lemma_subrange_split(s, p9, e5, q2);
    let p10 = p9 + e5.len() as int;
    assert(match_at(s, p6, lit_psize()));
    assert(s[p8] == s.subrange(p8, p8 + 31)[0]);
    assert(s[p8] == 44);
    lemma_parse_u64_at(s, p7, sz);
    assert(parse_u64(s, p7) == Some((sz, p8)));
    assert(match_at(s, p8, lit_ptrans()));
    assert(s[p10] == s.subrange(p10, p10 + 2)[0]);
    assert(s[p10] == RBRACE);
    assert(!is_digit(RBRACE));
    lemma_parse_u64_at(s, p9, port as u64);
    assert(parse_u64(s, p9) == Some((port as u64, p10)));
    assert(s[p10 + 1] == s.subrange(p10, p10 + 2)[1]);
    assert(s[p10 + 1] == RBRACE);
    assert(p10 + 2 == s.len());
}

#[verifier::rlimit(100)]
#[verifier::spinoff_prover]
proof fn lemma_rt_some(m: PacketModel)
    requires
        m.wf(),
        m.payload is Some,
    ensures
        parse_packet(enc_packet(m)) == Some(m),
{
    let s = enc_packet(m);
    lemma_rt_prefix(m);
    match m.payload {
        None => {},
        Some((sz, port)) => {
            lemma_rt_some_splits(s, rt_p6(m), sz, port);
            let p8 = rt_p6(m) + 15 + enc_nat(sz as nat).len() as int;
            let p10 = rt_p6(m) + 46 + enc_nat(sz as nat).len() + enc_nat(port as nat).len() as int;
            assert(port as u64 <= 65535);
            assert((port as u64) as u16 == port);
            assert(p10 + 2 == s.len());
            assert(parse_packet(s) == Some(
                PacketModel { id: m.id, typ: m.typ, body: m.body, payload: Some((sz, port)) },
            ));
            assert(PacketModel {
                id: m.id,
                typ: m.typ,
                body: m.body,
                payload: Some((sz, port)),
            } =~= m);
        },
    }
}

/// Framing round trip: decoding the encoding of any well-formed packet
/// gives that packet back. (The sender refreshes `id` before encoding;
/// the model carries the refreshed value.)
pub proof fn lemma_packet_round_trip(m: PacketModel)
    requires
        m.wf(),
    ensures
        parse_packet(enc_packet(m)) == Some(m),
{
    match m.payload {
        None => lemma_rt_none(m),
        Some(_) => lemma_rt_some(m),
    }
}

} // verus!
