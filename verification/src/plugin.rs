//! The two bundled plugins' decision logic. A plugin receives the
//! packets whose types it declares; what it decides is computed and
//! verified here, and the surrounding process performs the resulting
//! OS work (logging a report, injecting input events).

use vstd::prelude::*;
use crate::codec::{BodyFieldModel, BodyModel, FieldModel, LeafModel, LeafValue, BodyValue, TableRow};
use crate::device::clone_bytes;
use crate::identity::body_lookup;
use crate::packet::{NetworkPacket, PacketError};

verus! {

// ---------------------------------------------------------------------
// Field access helpers
// ---------------------------------------------------------------------

/// The first field with key `key` of a nested object, if any.
pub open spec fn field_lookup(fields: Seq<FieldModel>, key: Seq<u8>) -> Option<LeafModel>
    decreases fields.len(),
{
    if fields.len() == 0 {
        None
    } else if fields[0].key == key {
        Some(fields[0].value)
    } else {
        field_lookup(fields.drop_first(), key)
    }
}

fn field_get<'a>(fields: &'a Vec<crate::codec::Field>, key: &Vec<u8>) -> (r: Option<
    &'a LeafValue,
>)
    ensures
        match r {
            Some(v) => field_lookup(
                fields@.map_values(|f: crate::codec::Field| f@),
                key@,
            ) == Some(v@),
            None => field_lookup(fields@.map_values(|f: crate::codec::Field| f@), key@) is None,
        },
{
    let ghost m = fields@.map_values(|f: crate::codec::Field| f@);
    proof {
        assert(m.skip(0) =~= m);
    }
    let mut i: usize = 0;
    while i < fields.len()
        invariant
            0 <= i <= m.len(),
            m == fields@.map_values(|f: crate::codec::Field| f@),
            m.len() == fields@.len(),
            field_lookup(m, key@) == field_lookup(m.skip(i as int), key@),
        decreases m.len() - i,
    {
        proof {
            assert(m[i as int] == fields@[i as int]@);
            assert(m.skip(i as int).len() > 0);
            assert(m.skip(i as int)[0] == m[i as int]);
        }
        if crate::codec::bytes_eq(&fields[i].key, key) {
            return Some(&fields[i].value);
        }
        proof {
            assert(m.skip(i as int).drop_first() =~= m.skip(i + 1 as int));
        }
        i = i + 1;
    }
    proof {
        assert(m.skip(i as int) =~= Seq::<FieldModel>::empty());
    }
    None
}

// ---------------------------------------------------------------------
// Connectivity report plugin
// ---------------------------------------------------------------------

/// `kdeconnect.connectivity_report`
pub open spec fn connectivity_report_type() -> Seq<u8> {
    seq![
        107u8, 100u8, 101u8, 99u8, 111u8, 110u8, 110u8, 101u8, 99u8, 116u8, 46u8, 99u8, 111u8,
        110u8, 110u8, 101u8, 99u8, 116u8, 105u8, 118u8, 105u8, 116u8, 121u8, 95u8, 114u8, 101u8,
        112u8, 111u8, 114u8, 116u8,
    ]
}

/// `kdeconnect.connectivity_report.request`
pub open spec fn connectivity_request_type() -> Seq<u8> {
    connectivity_report_type() + seq![46u8, 114u8, 101u8, 113u8, 117u8, 101u8, 115u8, 116u8]
}

pub fn connectivity_report_type_bytes() -> (r: Vec<u8>)
    ensures
        r@ == connectivity_report_type(),
{
    let mut v: Vec<u8> = Vec::new();
    v.push(107); v.push(100); v.push(101); v.push(99); v.push(111); v.push(110); v.push(110);
    v.push(101); v.push(99); v.push(116); v.push(46); v.push(99); v.push(111); v.push(110);
    v.push(110); v.push(101); v.push(99); v.push(116); v.push(105); v.push(118); v.push(105);
    v.push(116); v.push(121); v.push(95); v.push(114); v.push(101); v.push(112); v.push(111);
    v.push(114); v.push(116);
    proof {
        assert(v@ =~= connectivity_report_type());
    }
    v
}

pub fn connectivity_request_type_bytes() -> (r: Vec<u8>)
    ensures
        r@ == connectivity_request_type(),
{
    let mut v = connectivity_report_type_bytes();
    v.push(46); v.push(114); v.push(101); v.push(113); v.push(117); v.push(101); v.push(115);
    v.push(116);
    proof {
        assert(v@ =~= connectivity_request_type());
    }
    v
}

/// `signalStrengths`
pub open spec fn key_signal_strengths() -> Seq<u8> {
    seq![
        115u8, 105u8, 103u8, 110u8, 97u8, 108u8, 83u8, 116u8, 114u8, 101u8, 110u8, 103u8, 116u8,
        104u8, 115u8,
    ]
}

fn key_signal_strengths_bytes() -> (r: Vec<u8>)
    ensures
        r@ == key_signal_strengths(),
{
    let mut v: Vec<u8> = Vec::new();
    v.push(115); v.push(105); v.push(103); v.push(110); v.push(97); v.push(108); v.push(83);
    v.push(116); v.push(114); v.push(101); v.push(110); v.push(103); v.push(116); v.push(104);
    v.push(115);
    proof {
        assert(v@ =~= key_signal_strengths());
    }
    v
}

/// `networkType`
pub open spec fn key_network_type() -> Seq<u8> {
    seq![110u8, 101u8, 116u8, 119u8, 111u8, 114u8, 107u8, 84u8, 121u8, 112u8, 101u8]
}

fn key_network_type_bytes() -> (r: Vec<u8>)
    ensures
        r@ == key_network_type(),
{
    let mut v: Vec<u8> = Vec::new();
    v.push(110); v.push(101); v.push(116); v.push(119); v.push(111); v.push(114); v.push(107);
    v.push(84); v.push(121); v.push(112); v.push(101);
    proof {
        assert(v@ =~= key_network_type());
    }
    v
}

/// `signalStrength`
pub open spec fn key_signal_strength() -> Seq<u8> {
    seq![
        115u8, 105u8, 103u8, 110u8, 97u8, 108u8, 83u8, 116u8, 114u8, 101u8, 110u8, 103u8, 116u8,
        104u8,
    ]
}

fn key_signal_strength_bytes() -> (r: Vec<u8>)
    ensures
        r@ == key_signal_strength(),
{
    let mut v: Vec<u8> = Vec::new();
    v.push(115); v.push(105); v.push(103); v.push(110); v.push(97); v.push(108); v.push(83);
    v.push(116); v.push(114); v.push(101); v.push(110); v.push(103); v.push(116); v.push(104);
    proof {
        assert(v@ =~= key_signal_strength());
    }
    v
}

/// Ghost model of one SIM's signal state.
#[verifier::ext_equal]
pub struct SignalModel {
    pub sim_id: Seq<u8>,
    pub network_type: Seq<u8>,
    pub signal_strength: u8,
}

/// One SIM's signal state, read out of a connectivity report.
#[derive(Debug)]
pub struct SignalStrength {
    pub sim_id: Vec<u8>,
    pub network_type: Vec<u8>,
    pub signal_strength: u8,
}

impl View for SignalStrength {
    type V = SignalModel;

    open spec fn view(&self) -> SignalModel {
        SignalModel {
            sim_id: self.sim_id@,
            network_type: self.network_type@,
            signal_strength: self.signal_strength,
        }
    }
}

/// A connectivity report: the signal state per SIM, in body order.
#[derive(Debug)]
pub struct ConnectivityReport {
    pub signal_strengths: Vec<SignalStrength>,
}

impl View for ConnectivityReport {
    type V = Seq<SignalModel>;

    open spec fn view(&self) -> Seq<SignalModel> {
        self.signal_strengths@.map_values(|s: SignalStrength| s@)
    }
}

/// What one table row must hold to be a signal state: a `networkType`
/// string and a `signalStrength` number that fits `u8`.
pub open spec fn read_signal_row(row: (Seq<u8>, Seq<FieldModel>)) -> Option<SignalModel> {
    match (field_lookup(row.1, key_network_type()), field_lookup(row.1, key_signal_strength())) {
        (Some(LeafModel::Text(nt)), Some(LeafModel::Int(ss))) => if 0 <= ss <= u8::MAX {
            Some(SignalModel { sim_id: row.0, network_type: nt, signal_strength: ss as u8 })
        } else {
            None
        },
        _ => None,
    }
}

/// Reads the rows of a signal table from index `i` on; one bad row
/// spoils the report.
pub open spec fn read_signal_rows(rows: Seq<(Seq<u8>, Seq<FieldModel>)>, i: int) -> Option<
    Seq<SignalModel>,
>
    decreases rows.len() - i when 0 <= i <= rows.len()
{
    if i >= rows.len() {
        Some(Seq::<SignalModel>::empty())
    } else {
        match read_signal_row(rows[i]) {
            None => None,
            Some(s) => match read_signal_rows(rows, i + 1) {
                None => None,
                Some(rest) => Some(seq![s] + rest),
            },
        }
    }
}

/// What a connectivity-report body must hold: a `signalStrengths`
/// table whose every row is a signal state.
pub open spec fn read_report(body: Seq<BodyFieldModel>) -> Option<Seq<SignalModel>> {
    match body_lookup(body, key_signal_strengths()) {
        Some(BodyModel::Table(rows)) => read_signal_rows(rows, 0),
        _ => None,
    }
}

fn read_signal_rows_exec(rows: &Vec<TableRow>, i: usize) -> (r: Option<Vec<SignalStrength>>)
    requires
        i <= rows@.len(),
    ensures
        (match r {
            Some(v) => Some(v@.map_values(|s: SignalStrength| s@)),
            None => None::<Seq<SignalModel>>,
        }) == read_signal_rows(rows@.map_values(|x: TableRow| x@), i as int),
    decreases rows@.len() - i,
{
    let ghost m = rows@.map_values(|x: TableRow| x@);
    if i >= rows.len() {
        let out: Vec<SignalStrength> = Vec::new();
        proof {
            assert(out@.map_values(|s: SignalStrength| s@) =~= Seq::<SignalModel>::empty());
        }
        return Some(out);
    }
    proof {
        assert(m[i as int] == rows@[i as int]@);
    }
    let row = &rows[i];
    let knt = key_network_type_bytes();
    let network_type = match field_get(&row.fields, &knt) {
        Some(LeafValue::Text(t)) => clone_bytes(t),
        _ => {
            return None;
        },
    };
    let kss = key_signal_strength_bytes();
    let signal_strength: u8 = match field_get(&row.fields, &kss) {
        Some(LeafValue::Int(v)) => {
            let v = *v;
            if 0 <= v && v <= u8::MAX as i64 {
                v as u8
            } else {
                return None;
            }
        },
        _ => {
            return None;
        },
    };
    let entry = SignalStrength { sim_id: clone_bytes(&row.key), network_type, signal_strength };
    let ghost entry_m = entry@;
    match read_signal_rows_exec(rows, i + 1) {
        None => None,
        Some(mut rest) => {
            let ghost rest_m = rest@.map_values(|s: SignalStrength| s@);
            rest.insert(0, entry);
            proof {
                assert(rest@.map_values(|s: SignalStrength| s@) =~= seq![entry_m] + rest_m);
            }
            Some(rest)
        },
    }
}

/// Receives `kdeconnect.connectivity_report` packets and reads the
/// per-SIM signal table out of them; the surrounding process logs the
/// report. A report whose body is missing the table or has a bad row
/// is `MalformedBody`; request packets and foreign types carry no
/// report.
#[derive(Debug)]
pub struct ConnectivityReportPlugin;

impl ConnectivityReportPlugin {
    /// Handles one packet: a connectivity report is read and handed
    /// back, every other type is ignored.
    pub fn handle(&self, packet: &NetworkPacket) -> (r: Result<
        Option<ConnectivityReport>,
        PacketError,
    >)
        ensures
            packet@.typ == connectivity_report_type() ==> match read_report(packet@.body) {
                Some(sm) => r matches Ok(Some(rep)) && rep@ == sm,
                None => r == Err::<Option<ConnectivityReport>, PacketError>(
                    PacketError::MalformedBody,
                ),
            },
            packet@.typ != connectivity_report_type() ==> (r matches Ok(o) && o is None),
    {
        let ty = connectivity_report_type_bytes();
        if !crate::codec::bytes_eq(&packet.typ, &ty) {
            return Ok(None);
        }
        let k = key_signal_strengths_bytes();
        match crate::identity::body_get(&packet.body, &k) {
            Some(BodyValue::Table(rows)) => match read_signal_rows_exec(rows, 0) {
                Some(entries) => Ok(Some(ConnectivityReport { signal_strengths: entries })),
                None => Err(PacketError::MalformedBody),
            },
            _ => Err(PacketError::MalformedBody),
        }
    }

    /// The packet types this plugin receives.
    pub fn incoming_capabilities() -> (r: Vec<Vec<u8>>)
        ensures
            r@.len() == 2,
            r@[0]@ == connectivity_report_type(),
            r@[1]@ == connectivity_request_type(),
    {
        let mut v: Vec<Vec<u8>> = Vec::new();
        v.push(connectivity_report_type_bytes());
        v.push(connectivity_request_type_bytes());
        v
    }

    /// The packet types this plugin sends.
    pub fn outgoing_capabilities() -> (r: Vec<Vec<u8>>)
        ensures
            r@.len() == 1,
            r@[0]@ == connectivity_request_type(),
    {
        let mut v: Vec<Vec<u8>> = Vec::new();
        v.push(connectivity_request_type_bytes());
        v
    }
}

// ---------------------------------------------------------------------
// Input receive plugin
// ---------------------------------------------------------------------

/// `kdeconnect.mousepad.request`
pub open spec fn mousepad_request_type() -> Seq<u8> {
    seq![
        107u8, 100u8, 101u8, 99u8, 111u8, 110u8, 110u8, 101u8, 99u8, 116u8, 46u8, 109u8, 111u8,
        117u8, 115u8, 101u8, 112u8, 97u8, 100u8, 46u8, 114u8, 101u8, 113u8, 117u8, 101u8, 115u8,
        116u8,
    ]
}

pub fn mousepad_request_type_bytes() -> (r: Vec<u8>)
    ensures
        r@ == mousepad_request_type(),
{
    let mut v: Vec<u8> = Vec::new();
    v.push(107); v.push(100); v.push(101); v.push(99); v.push(111); v.push(110); v.push(110);
    v.push(101); v.push(99); v.push(116); v.push(46); v.push(109); v.push(111); v.push(117);
    v.push(115); v.push(101); v.push(112); v.push(97); v.push(100); v.push(46); v.push(114);
    v.push(101); v.push(113); v.push(117); v.push(101); v.push(115); v.push(116);
    proof {
        assert(v@ =~= mousepad_request_type());
    }
    v
}

/// Ghost model of a mousepad request.
#[verifier::ext_equal]
pub struct MousePadModel {
    pub singleclick: bool,
    pub doubleclick: bool,
    pub middleclick: bool,
    pub rightclick: bool,
    pub singlehold: bool,
    pub scroll: bool,
    pub dx: Option<i32>,
    pub dy: Option<i32>,
}

/// A mousepad request, read out of a packet body. Absent flags read as
/// false; the deltas, when present, are whole numbers that fit `i32`.
#[derive(Debug, Clone, Copy, PartialEq, Eq, Structural)]
pub struct MousePadRequest {
    pub singleclick: bool,
    pub doubleclick: bool,
    pub middleclick: bool,
    pub rightclick: bool,
    pub singlehold: bool,
    pub scroll: bool,
    pub dx: Option<i32>,
    pub dy: Option<i32>,
}

impl View for MousePadRequest {
    type V = MousePadModel;

    open spec fn view(&self) -> MousePadModel {
        MousePadModel {
            singleclick: self.singleclick,
            doubleclick: self.doubleclick,
            middleclick: self.middleclick,
            rightclick: self.rightclick,
            singlehold: self.singlehold,
            scroll: self.scroll,
            dx: self.dx,
            dy: self.dy,
        }
    }
}

/// One input event to inject: a relative mouse move, or the press or
/// release of a set of buttons at once.
#[derive(Debug, Clone, Copy, PartialEq, Eq, Structural)]
pub enum InputAction {
    MouseMove { dx: i32, dy: i32 },
    ButtonsDown { left: bool, right: bool, middle: bool },
    ButtonsUp { left: bool, right: bool, middle: bool },
}

/// A flag field read: absent is false, a boolean is itself, anything
/// else spoils the body.
pub open spec fn read_flag(body: Seq<BodyFieldModel>, key: Seq<u8>) -> Option<bool> {
    match body_lookup(body, key) {
        None => Some(false),
        Some(BodyModel::Leaf(LeafModel::Bool(b))) => Some(b),
        Some(_) => None,
    }
}

/// A delta field read: absent is `None`, a whole number in `i32` range
/// is itself, anything else spoils the body.
pub open spec fn read_delta(body: Seq<BodyFieldModel>, key: Seq<u8>) -> Option<Option<i32>> {
    match body_lookup(body, key) {
        None => Some(None::<i32>),
        Some(BodyModel::Leaf(LeafModel::Int(v))) => if i32::MIN <= v <= i32::MAX {
            Some(Some(v as i32))
        } else {
            None
        },
        Some(_) => None,
    }
}

/// `singleclick`
pub open spec fn key_singleclick() -> Seq<u8> {
    seq![115u8, 105u8, 110u8, 103u8, 108u8, 101u8, 99u8, 108u8, 105u8, 99u8, 107u8]
}

/// `doubleclick`
pub open spec fn key_doubleclick() -> Seq<u8> {
    seq![100u8, 111u8, 117u8, 98u8, 108u8, 101u8, 99u8, 108u8, 105u8, 99u8, 107u8]
}

/// `middleclick`
pub open spec fn key_middleclick() -> Seq<u8> {
    seq![109u8, 105u8, 100u8, 100u8, 108u8, 101u8, 99u8, 108u8, 105u8, 99u8, 107u8]
}

/// `rightclick`
pub open spec fn key_rightclick() -> Seq<u8> {
    seq![114u8, 105u8, 103u8, 104u8, 116u8, 99u8, 108u8, 105u8, 99u8, 107u8]
}

/// `singlehold`
pub open spec fn key_singlehold() -> Seq<u8> {
    seq![115u8, 105u8, 110u8, 103u8, 108u8, 101u8, 104u8, 111u8, 108u8, 100u8]
}

/// `scroll`
pub open spec fn key_scroll() -> Seq<u8> {
    seq![115u8, 99u8, 114u8, 111u8, 108u8, 108u8]
}

/// `dx`
pub open spec fn key_dx() -> Seq<u8> {
    seq![100u8, 120u8]
}

/// `dy`
pub open spec fn key_dy() -> Seq<u8> {
    seq![100u8, 121u8]
}

/// What a mousepad body must hold to be a request.
pub open spec fn read_mousepad(body: Seq<BodyFieldModel>) -> Option<MousePadModel> {
    if read_flag(body, key_singleclick()) is None || read_flag(body, key_doubleclick()) is None
        || read_flag(body, key_middleclick()) is None || read_flag(body, key_rightclick()) is None
        || read_flag(body, key_singlehold()) is None || read_flag(body, key_scroll()) is None
        || read_delta(body, key_dx()) is None || read_delta(body, key_dy()) is None {
        None
    } else {
        Some(
            MousePadModel {
                singleclick: read_flag(body, key_singleclick()).unwrap(),
                doubleclick: read_flag(body, key_doubleclick()).unwrap(),
                middleclick: read_flag(body, key_middleclick()).unwrap(),
                rightclick: read_flag(body, key_rightclick()).unwrap(),
                singlehold: read_flag(body, key_singlehold()).unwrap(),
                scroll: read_flag(body, key_scroll()).unwrap(),
                dx: read_delta(body, key_dx()).unwrap(),
                dy: read_delta(body, key_dy()).unwrap(),
            },
        )
    }
}

/// The input events a request asks for: a plain move when both deltas
/// are whole numbers and it is not a scroll; otherwise the requested
/// clicks, pressed and released together, and a double click as two
/// further left press-release pairs.
pub open spec fn plan_spec(m: MousePadModel) -> Seq<InputAction> {
    if m.dx is Some && m.dy is Some && !m.scroll {
        seq![InputAction::MouseMove { dx: m.dx.unwrap(), dy: m.dy.unwrap() }]
    } else {
        let clicks = if m.singleclick || m.rightclick || m.middleclick {
            seq![
                InputAction::ButtonsDown {
                    left: m.singleclick,
                    right: m.rightclick,
                    middle: m.middleclick,
                },
                InputAction::ButtonsUp {
                    left: m.singleclick,
                    right: m.rightclick,
                    middle: m.middleclick,
                },
            ]
        } else {
            Seq::<InputAction>::empty()
        };
        if m.doubleclick {
            clicks + seq![
                InputAction::ButtonsDown { left: true, right: false, middle: false },
                InputAction::ButtonsUp { left: true, right: false, middle: false },
                InputAction::ButtonsDown { left: true, right: false, middle: false },
                InputAction::ButtonsUp { left: true, right: false, middle: false },
            ]
        } else {
            clicks
        }
    }
}

/// Computes the input events for one request, exactly `plan_spec`.
pub fn plan_inputs(req: &MousePadRequest) -> (r: Vec<InputAction>)
    ensures
        r@ == plan_spec(req@),
{
    let mut out: Vec<InputAction> = Vec::new();
    match (req.dx, req.dy) {
        (Some(dx), Some(dy)) if !req.scroll => {
            out.push(InputAction::MouseMove { dx, dy });
            proof {
                assert(out@ =~= plan_spec(req@));
            }
            return out;
        },
        _ => {},
    }
    if req.singleclick || req.rightclick || req.middleclick {
        out.push(
            InputAction::ButtonsDown {
                left: req.singleclick,
                right: req.rightclick,
                middle: req.middleclick,
            },
        );
        out.push(
            InputAction::ButtonsUp {
                left: req.singleclick,
                right: req.rightclick,
                middle: req.middleclick,
            },
        );
    }
    if req.doubleclick {
        out.push(InputAction::ButtonsDown { left: true, right: false, middle: false });
        out.push(InputAction::ButtonsUp { left: true, right: false, middle: false });
        out.push(InputAction::ButtonsDown { left: true, right: false, middle: false });
        out.push(InputAction::ButtonsUp { left: true, right: false, middle: false });
    }
    proof {
        assert(out@ =~= plan_spec(req@));
    }
    out
}

fn read_flag_exec(body: &Vec<crate::codec::BodyField>, key: &Vec<u8>) -> (r: Option<bool>)
    ensures
        r == read_flag(body@.map_values(|f: crate::codec::BodyField| f@), key@),
{
    match crate::identity::body_get(body, key) {
        None => Some(false),
        Some(BodyValue::Leaf(LeafValue::Bool(b))) => Some(*b),
        Some(_) => None,
    }
}

fn read_delta_exec(body: &Vec<crate::codec::BodyField>, key: &Vec<u8>) -> (r: Option<Option<i32>>)
    ensures
        r == read_delta(body@.map_values(|f: crate::codec::BodyField| f@), key@),
{
    match crate::identity::body_get(body, key) {
        None => Some(None),
        Some(BodyValue::Leaf(LeafValue::Int(v))) => {
            let v = *v;
            if i32::MIN as i64 <= v && v <= i32::MAX as i64 {
                Some(Some(v as i32))
            } else {
                None
            }
        },
        Some(_) => None,
    }
}

/// Receives `kdeconnect.mousepad.request` packets and turns each into
/// the input events to inject; the surrounding process performs the
/// injection.
#[derive(Debug)]
pub struct InputReceivePlugin;

impl InputReceivePlugin {
    /// Handles one packet: a mousepad request becomes its input-event
    /// plan, every other type asks for nothing.
    pub fn handle(&self, packet: &NetworkPacket) -> (r: Result<Vec<InputAction>, PacketError>)
        ensures
            packet@.typ == mousepad_request_type() ==> match read_mousepad(packet@.body) {
                Some(m) => r matches Ok(plan) && plan@ == plan_spec(m),
                None => r == Err::<Vec<InputAction>, PacketError>(PacketError::MalformedBody),
            },
            packet@.typ != mousepad_request_type() ==> (r matches Ok(plan) && plan@ == Seq::<
                InputAction,
            >::empty()),
    {
        let ty = mousepad_request_type_bytes();
        if !crate::codec::bytes_eq(&packet.typ, &ty) {
            let out: Vec<InputAction> = Vec::new();
            proof {
                assert(out@ =~= Seq::<InputAction>::empty());
            }
            return Ok(out);
        }
        let mut k: Vec<u8> = Vec::new();
        k.push(115); k.push(105); k.push(110); k.push(103); k.push(108); k.push(101); k.push(99);
        k.push(108); k.push(105); k.push(99); k.push(107);
        proof {
            assert(k@ =~= key_singleclick());
        }
        let singleclick = match read_flag_exec(&packet.body, &k) {
            Some(b) => b,
            None => {
                return Err(PacketError::MalformedBody);
            },
        };
        let mut k: Vec<u8> = Vec::new();
        k.push(100); k.push(111); k.push(117); k.push(98); k.push(108); k.push(101); k.push(99);
        k.push(108); k.push(105); k.push(99); k.push(107);
        proof {
            assert(k@ =~= key_doubleclick());
        }
        let doubleclick = match read_flag_exec(&packet.body, &k) {
            Some(b) => b,
            None => {
                return Err(PacketError::MalformedBody);
            },
        };
        let mut k: Vec<u8> = Vec::new();
        k.push(109); k.push(105); k.push(100); k.push(100); k.push(108); k.push(101); k.push(99);
        k.push(108); k.push(105); k.push(99); k.push(107);
        proof {
            assert(k@ =~= key_middleclick());
        }
        let middleclick = match read_flag_exec(&packet.body, &k) {
            Some(b) => b,
            None => {
                return Err(PacketError::MalformedBody);
            },
        };
        let mut k: Vec<u8> = Vec::new();
        k.push(114); k.push(105); k.push(103); k.push(104); k.push(116); k.push(99); k.push(108);
        k.push(105); k.push(99); k.push(107);
        proof {
            assert(k@ =~= key_rightclick());
        }
        let rightclick = match read_flag_exec(&packet.body, &k) {
            Some(b) => b,
            None => {
                return Err(PacketError::MalformedBody);
            },
        };
        let mut k: Vec<u8> = Vec::new();
        k.push(115); k.push(105); k.push(110); k.push(103); k.push(108); k.push(101); k.push(104);
        k.push(111); k.push(108); k.push(100);
        proof {
            assert(k@ =~= key_singlehold());
        }
        let singlehold = match read_flag_exec(&packet.body, &k) {
            Some(b) => b,
            None => {
                return Err(PacketError::MalformedBody);
            },
        };
        let mut k: Vec<u8> = Vec::new();
        k.push(115); k.push(99); k.push(114); k.push(111); k.push(108); k.push(108);
        proof {
            assert(k@ =~= key_scroll());
        }
        let scroll = match read_flag_exec(&packet.body, &k) {
            Some(b) => b,
            None => {
                return Err(PacketError::MalformedBody);
            },
        };
        let mut k: Vec<u8> = Vec::new();
        k.push(100); k.push(120);
        proof {
            assert(k@ =~= key_dx());
        }
        let dx = match read_delta_exec(&packet.body, &k) {
            Some(d) => d,
            None => {
                return Err(PacketError::MalformedBody);
            },
        };
        let mut k: Vec<u8> = Vec::new();
        k.push(100); k.push(121);
        proof {
            assert(k@ =~= key_dy());
        }
        let dy = match read_delta_exec(&packet.body, &k) {
            Some(d) => d,
            None => {
                return Err(PacketError::MalformedBody);
            },
        };
        let req = MousePadRequest {
            singleclick,
            doubleclick,
            middleclick,
            rightclick,
            singlehold,
            scroll,
            dx,
            dy,
        };
        proof {
            assert(req@ =~= read_mousepad(packet@.body).unwrap());
        }
        Ok(plan_inputs(&req))
    }

    /// The packet types this plugin receives.
    pub fn incoming_capabilities() -> (r: Vec<Vec<u8>>)
        ensures
            r@.len() == 1,
            r@[0]@ == mousepad_request_type(),
    {
        let mut v: Vec<Vec<u8>> = Vec::new();
        v.push(mousepad_request_type_bytes());
        v
    }

    /// The packet types this plugin sends.
    pub fn outgoing_capabilities() -> (r: Vec<Vec<u8>>)
        ensures
            r@.len() == 0,
    {
        Vec::new()
    }
}

} // verus!
