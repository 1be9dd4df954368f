//! Byte-level codec for the line-delimited JSON packets of the wire
//! protocol. The grammar is a canonical JSON subset: objects without
//! whitespace, strings of plain ASCII without escapes, decimal integers,
//! booleans, arrays of strings, and one level of nested objects (used by
//! body fields such as signal-strength tables).
//!
//! Every value has a ghost model (`LeafModel`, `BodyModel`) over `Seq`
//! and `int`; encoding and decoding are specified against those models,
//! and decoding provably inverts encoding.

use vstd::prelude::*;

verus! {

pub const QUOTE: u8 = 34;
pub const COMMA: u8 = 44;
pub const COLON: u8 = 58;
pub const MINUS: u8 = 45;
pub const LBRACE: u8 = 123;
pub const RBRACE: u8 = 125;
pub const LBRACKET: u8 = 91;
pub const RBRACKET: u8 = 93;

/// A byte that may stand unescaped inside a JSON string of this codec:
/// printable ASCII, no quote, no backslash.
pub open spec fn is_plain_byte(b: u8) -> bool {
    0x20 <= b < 0x7f && b != QUOTE && b != 0x5c
}

/// A text usable as a string or key on the wire.
pub open spec fn wf_text(s: Seq<u8>) -> bool {
    forall|i: int| 0 <= i < s.len() ==> is_plain_byte(#[trigger] s[i])
}

pub open spec fn is_digit(b: u8) -> bool {
    48 <= b <= 57
}

/// Every item of the sequence is a well-formed text.
pub open spec fn wf_texts(items: Seq<Seq<u8>>) -> bool {
    forall|i: int| 0 <= i < items.len() ==> wf_text(#[trigger] items[i])
}

/// Model of a scalar body value.
#[verifier::ext_equal]
pub enum LeafModel {
    Bool(bool),
    Int(int),
    Text(Seq<u8>),
    TextList(Seq<Seq<u8>>),
}

/// Model of one `key: leaf` field of a nested object.
#[verifier::ext_equal]
pub struct FieldModel {
    pub key: Seq<u8>,
    pub value: LeafModel,
}

/// Model of a body value: a scalar, or one nested object of objects
/// (`key -> {key: leaf, ...}`), as the signal-strength report uses.
#[verifier::ext_equal]
pub enum BodyModel {
    Leaf(LeafModel),
    Table(Seq<(Seq<u8>, Seq<FieldModel>)>),
}

/// Model of one `key: value` field of a packet body.
#[verifier::ext_equal]
pub struct BodyFieldModel {
    pub key: Seq<u8>,
    pub value: BodyModel,
}

impl LeafModel {
    pub open spec fn wf(self) -> bool {
        match self {
            LeafModel::Bool(_) => true,
            LeafModel::Int(n) => i64::MIN < n <= i64::MAX,
            LeafModel::Text(t) => wf_text(t),
            LeafModel::TextList(items) => wf_texts(items),
        }
    }
}

impl FieldModel {
    pub open spec fn wf(self) -> bool {
        wf_text(self.key) && self.value.wf()
    }
}

pub open spec fn wf_fields(fs: Seq<FieldModel>) -> bool {
    forall|i: int| 0 <= i < fs.len() ==> (#[trigger] fs[i]).wf()
}

pub open spec fn wf_row(r: (Seq<u8>, Seq<FieldModel>)) -> bool {
    wf_text(r.0) && wf_fields(r.1)
}

pub open spec fn wf_rows(rows: Seq<(Seq<u8>, Seq<FieldModel>)>) -> bool {
    forall|i: int| 0 <= i < rows.len() ==> wf_row(#[trigger] rows[i])
}

impl BodyModel {
    pub open spec fn wf(self) -> bool {
        match self {
            BodyModel::Leaf(l) => l.wf(),
            BodyModel::Table(rows) => wf_rows(rows),
        }
    }
}

impl BodyFieldModel {
    pub open spec fn wf(self) -> bool {
        wf_text(self.key) && self.value.wf()
    }
}

pub open spec fn wf_body(body: Seq<BodyFieldModel>) -> bool {
    forall|i: int| 0 <= i < body.len() ==> (#[trigger] body[i]).wf()
}

// ---------------------------------------------------------------------
// Executable values and their models
// ---------------------------------------------------------------------

/// A scalar body value.
#[derive(Debug, Clone)]
pub enum LeafValue {
    Bool(bool),
    Int(i64),
    Text(Vec<u8>),
    TextList(Vec<Vec<u8>>),
}

/// One `key: leaf` field of a nested object.
#[derive(Debug, Clone)]
pub struct Field {
    pub key: Vec<u8>,
    pub value: LeafValue,
}

/// One row of a nested object of objects.
#[derive(Debug, Clone)]
pub struct TableRow {
    pub key: Vec<u8>,
    pub fields: Vec<Field>,
}

/// A body value: a scalar or a nested object of objects.
#[derive(Debug, Clone)]
pub enum BodyValue {
    Leaf(LeafValue),
    Table(Vec<TableRow>),
}

/// One `key: value` field of a packet body.
#[derive(Debug, Clone)]
pub struct BodyField {
    pub key: Vec<u8>,
    pub value: BodyValue,
}

impl View for LeafValue {
    type V = LeafModel;

    open spec fn view(&self) -> LeafModel {
        match self {
            LeafValue::Bool(b) => LeafModel::Bool(*b),
            LeafValue::Int(n) => LeafModel::Int(*n as int),
            LeafValue::Text(t) => LeafModel::Text(t@),
            LeafValue::TextList(items) => LeafModel::TextList(
                items@.map_values(|v: Vec<u8>| v@),
            ),
        }
    }
}

impl View for Field {
    type V = FieldModel;

    open spec fn view(&self) -> FieldModel {
        FieldModel { key: self.key@, value: self.value@ }
    }
}

impl View for TableRow {
    type V = (Seq<u8>, Seq<FieldModel>);

    open spec fn view(&self) -> (Seq<u8>, Seq<FieldModel>) {
        (self.key@, self.fields@.map_values(|f: Field| f@))
    }
}

impl View for BodyValue {
    type V = BodyModel;

    open spec fn view(&self) -> BodyModel {
        match self {
            BodyValue::Leaf(l) => BodyModel::Leaf(l@),
            BodyValue::Table(rows) => BodyModel::Table(
                rows@.map_values(|r: TableRow| r@),
            ),
        }
    }
}

impl View for BodyField {
    type V = BodyFieldModel;

    open spec fn view(&self) -> BodyFieldModel {
        BodyFieldModel { key: self.key@, value: self.value@ }
    }
}

pub open spec fn body_view(body: Seq<BodyField>) -> Seq<BodyFieldModel> {
    body.map_values(|f: BodyField| f@)
}

// ---------------------------------------------------------------------
// Encoding, specified
// ---------------------------------------------------------------------

/// Decimal digits of `n`, most significant first.
pub open spec fn enc_nat(n: nat) -> Seq<u8>
    decreases n,
{
    if n < 10 {
        seq![(48 + n) as u8]
    } else {
        enc_nat(n / 10).push((48 + n % 10) as u8)
    }
}

/// Decimal form of `v`, with a leading minus sign when negative.
pub open spec fn enc_int(v: int) -> Seq<u8> {
    if v < 0 {
        seq![MINUS] + enc_nat((-v) as nat)
    } else {
        enc_nat(v as nat)
    }
}

/// A quoted string.
pub open spec fn enc_text(t: Seq<u8>) -> Seq<u8> {
    seq![QUOTE] + t + seq![QUOTE]
}

pub open spec fn lit_true() -> Seq<u8> {
    seq![116u8, 114u8, 117u8, 101u8]
}

pub open spec fn lit_false() -> Seq<u8> {
    seq![102u8, 97u8, 108u8, 115u8, 101u8]
}

/// The comma-separated items of a string array.
pub open spec fn enc_text_items(items: Seq<Seq<u8>>) -> Seq<u8>
    decreases items.len(),
{
    if items.len() == 0 {
        Seq::<u8>::empty()
    } else if items.len() == 1 {
        enc_text(items[0])
    } else {
        enc_text(items[0]) + seq![COMMA] + enc_text_items(items.drop_first())
    }
}

pub open spec fn enc_leaf(m: LeafModel) -> Seq<u8> {
    match m {
        LeafModel::Bool(b) => if b { lit_true() } else { lit_false() },
        LeafModel::Int(v) => enc_int(v),
        LeafModel::Text(t) => enc_text(t),
        LeafModel::TextList(items) => seq![LBRACKET] + enc_text_items(items) + seq![RBRACKET],
    }
}

/// The comma-separated fields of a nested object.
pub open spec fn enc_field_items(fs: Seq<FieldModel>) -> Seq<u8>
    decreases fs.len(),
{
    if fs.len() == 0 {
        Seq::<u8>::empty()
    } else if fs.len() == 1 {
        enc_field(fs[0])
    } else {
        enc_field(fs[0]) + seq![COMMA] + enc_field_items(fs.drop_first())
    }
}

pub open spec fn enc_field(f: FieldModel) -> Seq<u8> {
    enc_text(f.key) + seq![COLON] + enc_leaf(f.value)
}

pub open spec fn enc_row(r: (Seq<u8>, Seq<FieldModel>)) -> Seq<u8> {
    enc_text(r.0) + seq![COLON, LBRACE] + enc_field_items(r.1) + seq![RBRACE]
}

/// The comma-separated rows of an object of objects.
pub open spec fn enc_row_items(rows: Seq<(Seq<u8>, Seq<FieldModel>)>) -> Seq<u8>
    decreases rows.len(),
{
    if rows.len() == 0 {
        Seq::<u8>::empty()
    } else if rows.len() == 1 {
        enc_row(rows[0])
    } else {
        enc_row(rows[0]) + seq![COMMA] + enc_row_items(rows.drop_first())
    }
}

pub open spec fn enc_body_value(m: BodyModel) -> Seq<u8> {
    match m {
        BodyModel::Leaf(l) => enc_leaf(l),
        BodyModel::Table(rows) => seq![LBRACE] + enc_row_items(rows) + seq![RBRACE],
    }
}

pub open spec fn enc_body_field(f: BodyFieldModel) -> Seq<u8> {
    enc_text(f.key) + seq![COLON] + enc_body_value(f.value)
}

/// The comma-separated fields of a packet body.
pub open spec fn enc_body_items(fs: Seq<BodyFieldModel>) -> Seq<u8>
    decreases fs.len(),
{
    if fs.len() == 0 {
        Seq::<u8>::empty()
    } else if fs.len() == 1 {
        enc_body_field(fs[0])
    } else {
        enc_body_field(fs[0]) + seq![COMMA] + enc_body_items(fs.drop_first())
    }
}

// ---------------------------------------------------------------------
// Encoding, executable
// ---------------------------------------------------------------------

/// Appends all of `v`.
pub fn push_all(out: &mut Vec<u8>, v: &Vec<u8>)
    ensures
        final(out)@ == old(out)@ + v@,
{
    let mut i: usize = 0;
    while i < v.len()
        invariant
            0 <= i <= v@.len(),
            out@ == old(out)@ + v@.take(i as int),
        decreases v@.len() - i,
    {
        out.push(v[i]);
        i = i + 1;
        proof {
            assert(out@ =~= old(out)@ + v@.take(i as int));
        }
    }
    proof {
        assert(out@ =~= old(out)@ + v@);
    }
}

/// Appends the decimal digits of `n`.
pub fn push_u64(out: &mut Vec<u8>, n: u64)
    ensures
        final(out)@ == old(out)@ + enc_nat(n as nat),
    decreases n,
{
    if n < 10 {
        out.push(48 + n as u8);
        proof {
            assert(out@ =~= old(out)@ + enc_nat(n as nat));
        }
    } else {
        push_u64(out, n / 10);
        out.push(48 + (n % 10) as u8);
        proof {
            assert(out@ =~= old(out)@ + enc_nat(n as nat));
        }
    }
}

/// Appends the decimal form of `v`.
pub fn push_i64(out: &mut Vec<u8>, v: i64)
    requires
        v > i64::MIN,
    ensures
        final(out)@ == old(out)@ + enc_int(v as int),
{
    if v < 0 {
        out.push(MINUS);
        let m: u64 = ((-(v + 1)) as u64) + 1;
        assert(m == -(v as int));
        push_u64(out, m);
        proof {
            assert(out@ =~= old(out)@ + enc_int(v as int));
        }
    } else {
        push_u64(out, v as u64);
    }
}

/// Appends a quoted string.
pub fn push_text(out: &mut Vec<u8>, t: &Vec<u8>)
    ensures
        final(out)@ == old(out)@ + enc_text(t@),
{
    out.push(QUOTE);
    push_all(out, t);
    out.push(QUOTE);
    proof {
        assert(out@ =~= old(out)@ + enc_text(t@));
    }
}

fn push_bool(out: &mut Vec<u8>, b: bool)
    ensures
        final(out)@ == old(out)@ + enc_leaf(LeafModel::Bool(b)),
{
    if b {
        out.push(116);
        out.push(114);
        out.push(117);
        out.push(101);
        proof {
            assert(out@ =~= old(out)@ + lit_true());
        }
    } else {
        out.push(102);
        out.push(97);
        out.push(108);
        out.push(115);
        out.push(101);
        proof {
            assert(out@ =~= old(out)@ + lit_false());
        }
    }
}

proof fn lemma_enc_text_items_push(items: Seq<Seq<u8>>, t: Seq<u8>)
    ensures
        items.len() == 0 ==> enc_text_items(items.push(t)) == enc_text(t),
        items.len() > 0 ==> enc_text_items(items.push(t)) == enc_text_items(items) + seq![COMMA]
            + enc_text(t),
    decreases items.len(),
{
    if items.len() == 0 {
        assert(items.push(t)[0] == t);
        assert(items.push(t).len() == 1);
    } else {
        let p = items.push(t);
        assert(p.drop_first() =~= items.drop_first().push(t));
        lemma_enc_text_items_push(items.drop_first(), t);
        if items.len() == 1 {
            assert(enc_text_items(p) == enc_text(p[0]) + seq![COMMA] + enc_text_items(
                p.drop_first(),
            ));
            assert(p[0] == items[0]);
            assert(enc_text_items(p.drop_first()) == enc_text(t));
        } else {
            assert(enc_text_items(p) == enc_text(p[0]) + seq![COMMA] + enc_text_items(
                p.drop_first(),
            ));
            assert(enc_text_items(items) == enc_text(items[0]) + seq![COMMA] + enc_text_items(
                items.drop_first(),
            ));
            assert(enc_text_items(p) =~= enc_text_items(items) + seq![COMMA] + enc_text(t));
        }
    }
}

/// Appends a string array.
fn push_text_list(out: &mut Vec<u8>, items: &Vec<Vec<u8>>)
    ensures
        final(out)@ == old(out)@ + enc_leaf(
            LeafModel::TextList(items@.map_values(|v: Vec<u8>| v@)),
        ),
{
    let ghost m = items@.map_values(|v: Vec<u8>| v@);
    out.push(LBRACKET);
    let mut i: usize = 0;
    while i < items.len()
        invariant
            0 <= i <= items@.len(),
            m == items@.map_values(|v: Vec<u8>| v@),
            m.len() == items@.len(),
            out@ == old(out)@ + seq![LBRACKET] + enc_text_items(m.take(i as int)),
        decreases items@.len() - i,
    {
        if i > 0 {
            out.push(COMMA);
        }
        push_text(out, &items[i]);
        proof {
            assert(m.take(i + 1 as int) =~= m.take(i as int).push(m[i as int]));
            lemma_enc_text_items_push(m.take(i as int), m[i as int]);
            assert(m[i as int] == items@[i as int]@);
            if i == 0 {
                assert(out@ =~= old(out)@ + seq![LBRACKET] + enc_text_items(m.take(i + 1 as int)));
            } else {
                assert(out@ =~= old(out)@ + seq![LBRACKET] + enc_text_items(m.take(i + 1 as int)));
            }
        }
        i = i + 1;
    }
    out.push(RBRACKET);
    proof {
        assert(m.take(items@.len() as int) =~= m);
        assert(out@ =~= old(out)@ + enc_leaf(LeafModel::TextList(m)));
    }
}

/// Appends one scalar value.
pub fn push_leaf(out: &mut Vec<u8>, v: &LeafValue)
    requires
        v@.wf(),
    ensures
        final(out)@ == old(out)@ + enc_leaf(v@),
{
    match v {
        LeafValue::Bool(b) => push_bool(out, *b),
        LeafValue::Int(n) => push_i64(out, *n),
        LeafValue::Text(t) => push_text(out, t),
        LeafValue::TextList(items) => push_text_list(out, items),
    }
}

/// Appends one `key: leaf` field.
fn push_field(out: &mut Vec<u8>, f: &Field)
    requires
        f@.wf(),
    ensures
        final(out)@ == old(out)@ + enc_field(f@),
{
    push_text(out, &f.key);
    out.push(COLON);
    push_leaf(out, &f.value);
    proof {
        assert(out@ =~= old(out)@ + enc_field(f@));
    }
}

proof fn lemma_enc_field_items_push(fs: Seq<FieldModel>, f: FieldModel)
    ensures
        fs.len() == 0 ==> enc_field_items(fs.push(f)) == enc_field(f),
        fs.len() > 0 ==> enc_field_items(fs.push(f)) == enc_field_items(fs) + seq![COMMA]
            + enc_field(f),
    decreases fs.len(),
{
    if fs.len() == 0 {
        assert(fs.push(f)[0] == f);
    } else {
        let p = fs.push(f);
        assert(p.drop_first() =~= fs.drop_first().push(f));
        lemma_enc_field_items_push(fs.drop_first(), f);
        if fs.len() == 1 {
            assert(enc_field_items(p.drop_first()) == enc_field(f));
        } else {
            assert(enc_field_items(p) =~= enc_field_items(fs) + seq![COMMA] + enc_field(f));
        }
    }
}

/// Appends a nested object `{key: leaf, ...}`.
fn push_fields(out: &mut Vec<u8>, fs: &Vec<Field>)
    requires
        wf_fields(fs@.map_values(|f: Field| f@)),
    ensures
        final(out)@ == old(out)@ + seq![LBRACE] + enc_field_items(
            fs@.map_values(|f: Field| f@),
        ) + seq![RBRACE],
{
    let ghost m = fs@.map_values(|f: Field| f@);
    out.push(LBRACE);
    let mut i: usize = 0;
    while i < fs.len()
        invariant
            0 <= i <= fs@.len(),
            m == fs@.map_values(|f: Field| f@),
            m.len() == fs@.len(),
            wf_fields(m),
            out@ == old(out)@ + seq![LBRACE] + enc_field_items(m.take(i as int)),
        decreases fs@.len() - i,
    {
        if i > 0 {
            out.push(COMMA);
        }
        assert(m[i as int] == fs@[i as int]@);
        push_field(out, &fs[i]);
        proof {
            assert(m.take(i + 1 as int) =~= m.take(i as int).push(m[i as int]));
            lemma_enc_field_items_push(m.take(i as int), m[i as int]);
            assert(out@ =~= old(out)@ + seq![LBRACE] + enc_field_items(m.take(i + 1 as int)));
        }
        i = i + 1;
    }
    proof {
        assert(m.take(fs@.len() as int) =~= m);
    }
    out.push(RBRACE);
}

/// Appends one table row `key: {fields}`.
fn push_row(out: &mut Vec<u8>, r: &TableRow)
    requires
        wf_row(r@),
    ensures
        final(out)@ == old(out)@ + enc_row(r@),
{
    push_text(out, &r.key);
    out.push(COLON);
    push_fields(out, &r.fields);
    proof {
        assert(out@ =~= old(out)@ + enc_row(r@));
    }
}

proof fn lemma_enc_row_items_push(rows: Seq<(Seq<u8>, Seq<FieldModel>)>, r: (Seq<u8>, Seq<FieldModel>))
    ensures
        rows.len() == 0 ==> enc_row_items(rows.push(r)) == enc_row(r),
        rows.len() > 0 ==> enc_row_items(rows.push(r)) == enc_row_items(rows) + seq![COMMA]
            + enc_row(r),
    decreases rows.len(),
{
    if rows.len() == 0 {
        assert(rows.push(r)[0] == r);
    } else {
        let p = rows.push(r);
        assert(p.drop_first() =~= rows.drop_first().push(r));
        lemma_enc_row_items_push(rows.drop_first(), r);
        if rows.len() == 1 {
            assert(enc_row_items(p.drop_first()) == enc_row(r));
        } else {
            assert(enc_row_items(p) =~= enc_row_items(rows) + seq![COMMA] + enc_row(r));
        }
    }
}

/// Appends a body value.
pub fn push_body_value(out: &mut Vec<u8>, v: &BodyValue)
    requires
        v@.wf(),
    ensures
        final(out)@ == old(out)@ + enc_body_value(v@),
{
    match v {
        BodyValue::Leaf(l) => push_leaf(out, l),
        BodyValue::Table(rows) => {
            let ghost m = rows@.map_values(|r: TableRow| r@);
            proof {
                assert(v@ == BodyModel::Table(m));
                assert(wf_rows(m));
            }
            out.push(LBRACE);
            let mut i: usize = 0;
            while i < rows.len()
                invariant
                    0 <= i <= rows@.len(),
                    m == rows@.map_values(|r: TableRow| r@),
                    m.len() == rows@.len(),
                    wf_rows(m),
                    out@ == old(out)@ + seq![LBRACE] + enc_row_items(m.take(i as int)),
                decreases rows@.len() - i,
            {
                if i > 0 {
                    out.push(COMMA);
                }
                assert(m[i as int] == rows@[i as int]@);
                push_row(out, &rows[i]);
                proof {
                    assert(m.take(i + 1 as int) =~= m.take(i as int).push(m[i as int]));
                    lemma_enc_row_items_push(m.take(i as int), m[i as int]);
                    assert(out@ =~= old(out)@ + seq![LBRACE] + enc_row_items(m.take(i + 1 as int)));
                }
                i = i + 1;
            }
            proof {
                assert(m.take(rows@.len() as int) =~= m);
            }
            out.push(RBRACE);
            proof {
                assert(out@ =~= old(out)@ + enc_body_value(BodyModel::Table(m)));
            }
        },
    }
}

/// Appends one `key: value` field of a packet body.
fn push_body_field(out: &mut Vec<u8>, f: &BodyField)
    requires
        f@.wf(),
    ensures
        final(out)@ == old(out)@ + enc_body_field(f@),
{
    push_text(out, &f.key);
    out.push(COLON);
    push_body_value(out, &f.value);
    proof {
        assert(out@ =~= old(out)@ + enc_body_field(f@));
    }
}

proof fn lemma_enc_body_items_push(fs: Seq<BodyFieldModel>, f: BodyFieldModel)
    ensures
        fs.len() == 0 ==> enc_body_items(fs.push(f)) == enc_body_field(f),
        fs.len() > 0 ==> enc_body_items(fs.push(f)) == enc_body_items(fs) + seq![COMMA]
            + enc_body_field(f),
    decreases fs.len(),
{
    if fs.len() == 0 {
        assert(fs.push(f)[0] == f);
    } else {
        let p = fs.push(f);
        assert(p.drop_first() =~= fs.drop_first().push(f));
        lemma_enc_body_items_push(fs.drop_first(), f);
        if fs.len() == 1 {
            assert(enc_body_items(p.drop_first()) == enc_body_field(f));
        } else {
            assert(enc_body_items(p) =~= enc_body_items(fs) + seq![COMMA] + enc_body_field(f));
        }
    }
}

/// Appends a packet body `{key: value, ...}`.
pub fn push_body(out: &mut Vec<u8>, body: &Vec<BodyField>)
    requires
        wf_body(body_view(body@)),
    ensures
        final(out)@ == old(out)@ + seq![LBRACE] + enc_body_items(body_view(body@)) + seq![RBRACE],
{
    let ghost m = body_view(body@);
    out.push(LBRACE);
    let mut i: usize = 0;
    while i < body.len()
        invariant
            0 <= i <= body@.len(),
            m == body_view(body@),
            m.len() == body@.len(),
            wf_body(m),
            out@ == old(out)@ + seq![LBRACE] + enc_body_items(m.take(i as int)),
        decreases body@.len() - i,
    {
        if i > 0 {
            out.push(COMMA);
        }
        assert(m[i as int] == body@[i as int]@);
        push_body_field(out, &body[i]);
        proof {
            assert(m.take(i + 1 as int) =~= m.take(i as int).push(m[i as int]));
            lemma_enc_body_items_push(m.take(i as int), m[i as int]);
            assert(out@ =~= old(out)@ + seq![LBRACE] + enc_body_items(m.take(i + 1 as int)));
        }
        i = i + 1;
    }
    proof {
        assert(m.take(body@.len() as int) =~= m);
    }
    out.push(RBRACE);
}

// ---------------------------------------------------------------------
// Decoding, specified
// ---------------------------------------------------------------------

/// End of the run of decimal digits starting at `i`.
pub open spec fn digit_run_end(s: Seq<u8>, i: int) -> int
    decreases s.len() - i when 0 <= i <= s.len()
{
    if i < s.len() && is_digit(s[i]) {
        digit_run_end(s, i + 1)
    } else {
        i
    }
}

/// End of the run of plain string bytes starting at `i`.
pub open spec fn plain_run_end(s: Seq<u8>, i: int) -> int
    decreases s.len() - i when 0 <= i <= s.len()
{
    if i < s.len() && is_plain_byte(s[i]) {
        plain_run_end(s, i + 1)
    } else {
        i
    }
}

/// Value of a sequence of decimal digits, most significant first.
pub open spec fn val_of(ds: Seq<u8>) -> nat
    decreases ds.len(),
{
    if ds.len() == 0 {
        0
    } else {
        (val_of(ds.drop_last()) * 10 + (ds.last() - 48)) as nat
    }
}

/// Whether `lit` stands at position `i` of `s`.
pub open spec fn match_at(s: Seq<u8>, i: int, lit: Seq<u8>) -> bool {
    0 <= i && i + lit.len() <= s.len() && s.subrange(i, i + lit.len()) == lit
}

/// Parses a decimal number without sign or leading zeros.
pub open spec fn parse_u64(s: Seq<u8>, i: int) -> Option<(u64, int)> {
    let e = digit_run_end(s, i);
    if e == i {
        None
    } else if s[i] == 48 && e > i + 1 {
        None
    } else {
        let v = val_of(s.subrange(i, e));
        if v <= u64::MAX {
            Some((v as u64, e))
        } else {
            None
        }
    }
}

/// Parses a decimal number with an optional minus sign, within `i64`
/// range on either side of zero.
pub open spec fn parse_int(s: Seq<u8>, i: int) -> Option<(int, int)> {
    if i < s.len() && s[i] == MINUS {
        match parse_u64(s, i + 1) {
            Some((m, j)) => if m <= i64::MAX as u64 {
                Some((-(m as int), j))
            } else {
                None
            },
            None => None,
        }
    } else {
        match parse_u64(s, i) {
            Some((m, j)) => if m <= i64::MAX as u64 {
                Some((m as int, j))
            } else {
                None
            },
            None => None,
        }
    }
}

/// Parses a quoted string of plain bytes.
pub open spec fn parse_text(s: Seq<u8>, i: int) -> Option<(Seq<u8>, int)> {
    if 0 <= i && i < s.len() && s[i] == QUOTE {
        let e = plain_run_end(s, i + 1);
        if e < s.len() && s[e] == QUOTE {
            Some((s.subrange(i + 1, e), e + 1))
        } else {
            None
        }
    } else {
        None
    }
}

pub open spec fn parse_bool(s: Seq<u8>, i: int) -> Option<(bool, int)> {
    if match_at(s, i, lit_true()) {
        Some((true, i + 4))
    } else if match_at(s, i, lit_false()) {
        Some((false, i + 5))
    } else {
        None
    }
}

/// Parses the items of a non-empty string array, up to and including
/// the closing bracket.
pub open spec fn parse_text_items(s: Seq<u8>, i: int) -> Option<(Seq<Seq<u8>>, int)>
    decreases s.len() - i when 0 <= i <= s.len()
{
    match parse_text(s, i) {
        Some((t, j)) => if j < s.len() && s[j] == RBRACKET {
            Some((seq![t], j + 1))
        } else if j < s.len() && s[j] == COMMA && j + 1 > i {
            match parse_text_items(s, j + 1) {
                Some((rest, k)) => Some((seq![t] + rest, k)),
                None => None,
            }
        } else {
            None
        },
        None => None,
    }
}

/// Parses a string array, bracket to bracket.
pub open spec fn parse_textlist(s: Seq<u8>, i: int) -> Option<(Seq<Seq<u8>>, int)> {
    if 0 <= i && i < s.len() && s[i] == LBRACKET {
        if i + 1 < s.len() && s[i + 1] == RBRACKET {
            Some((Seq::<Seq<u8>>::empty(), i + 2))
        } else {
            parse_text_items(s, i + 1)
        }
    } else {
        None
    }
}

/// Parses one scalar value, dispatching on its first byte.
pub open spec fn parse_leaf(s: Seq<u8>, i: int) -> Option<(LeafModel, int)> {
    if !(0 <= i && i < s.len()) {
        None
    } else if s[i] == QUOTE {
        match parse_text(s, i) {
            Some((t, j)) => Some((LeafModel::Text(t), j)),
            None => None,
        }
    } else if s[i] == 116 || s[i] == 102 {
        match parse_bool(s, i) {
            Some((b, j)) => Some((LeafModel::Bool(b), j)),
            None => None,
        }
    } else if s[i] == MINUS || is_digit(s[i]) {
        match parse_int(s, i) {
            Some((v, j)) => Some((LeafModel::Int(v), j)),
            None => None,
        }
    } else if s[i] == LBRACKET {
        match parse_textlist(s, i) {
            Some((items, j)) => Some((LeafModel::TextList(items), j)),
            None => None,
        }
    } else {
        None
    }
}

/// Parses one `key: leaf` field.
pub open spec fn parse_field(s: Seq<u8>, i: int) -> Option<(FieldModel, int)> {
    match parse_text(s, i) {
        Some((k, j)) => if j < s.len() && s[j] == COLON {
            match parse_leaf(s, j + 1) {
                Some((v, e)) => Some((FieldModel { key: k, value: v }, e)),
                None => None,
            }
        } else {
            None
        },
        None => None,
    }
}

/// Parses the fields of a non-empty nested object, up to and including
/// the closing brace.
pub open spec fn parse_field_items(s: Seq<u8>, i: int) -> Option<(Seq<FieldModel>, int)>
    decreases s.len() - i when 0 <= i <= s.len()
{
    match parse_field(s, i) {
        Some((f, j)) => if j < s.len() && s[j] == RBRACE {
            Some((seq![f], j + 1))
        } else if j < s.len() && s[j] == COMMA && j + 1 > i {
            match parse_field_items(s, j + 1) {
                Some((rest, k)) => Some((seq![f] + rest, k)),
                None => None,
            }
        } else {
            None
        },
        None => None,
    }
}

/// Parses a nested object of leaves, brace to brace.
pub open spec fn parse_fields_obj(s: Seq<u8>, i: int) -> Option<(Seq<FieldModel>, int)> {
    if 0 <= i && i < s.len() && s[i] == LBRACE {
        if i + 1 < s.len() && s[i + 1] == RBRACE {
            Some((Seq::<FieldModel>::empty(), i + 2))
        } else {
            parse_field_items(s, i + 1)
        }
    } else {
        None
    }
}

/// Parses one table row `key: {fields}`.
pub open spec fn parse_row(s: Seq<u8>, i: int) -> Option<((Seq<u8>, Seq<FieldModel>), int)> {
    match parse_text(s, i) {
        Some((k, j)) => if j < s.len() && s[j] == COLON {
            match parse_fields_obj(s, j + 1) {
                Some((fs, e)) => Some(((k, fs), e)),
                None => None,
            }
        } else {
            None
        },
        None => None,
    }
}

/// Parses the rows of a non-empty table, up to and including the
/// closing brace.
pub open spec fn parse_row_items(s: Seq<u8>, i: int) -> Option<
    (Seq<(Seq<u8>, Seq<FieldModel>)>, int),
>
    decreases s.len() - i when 0 <= i <= s.len()
{
    match parse_row(s, i) {
        Some((r, j)) => if j < s.len() && s[j] == RBRACE {
            Some((seq![r], j + 1))
        } else if j < s.len() && s[j] == COMMA && j + 1 > i {
            match parse_row_items(s, j + 1) {
                Some((rest, k)) => Some((seq![r] + rest, k)),
                None => None,
            }
        } else {
            None
        },
        None => None,
    }
}

/// Parses a body value: a table when a brace follows, else a scalar.
pub open spec fn parse_body_value(s: Seq<u8>, i: int) -> Option<(BodyModel, int)> {
    if 0 <= i && i < s.len() && s[i] == LBRACE {
        if i + 1 < s.len() && s[i + 1] == RBRACE {
            Some((BodyModel::Table(Seq::empty()), i + 2))
        } else {
            match parse_row_items(s, i + 1) {
                Some((rows, j)) => Some((BodyModel::Table(rows), j)),
                None => None,
            }
        }
    } else {
        match parse_leaf(s, i) {
            Some((l, j)) => Some((BodyModel::Leaf(l), j)),
            None => None,
        }
    }
}

/// Parses one `key: value` field of a packet body.
pub open spec fn parse_body_field(s: Seq<u8>, i: int) -> Option<(BodyFieldModel, int)> {
    match parse_text(s, i) {
        Some((k, j)) => if j < s.len() && s[j] == COLON {
            match parse_body_value(s, j + 1) {
                Some((v, e)) => Some((BodyFieldModel { key: k, value: v }, e)),
                None => None,
            }
        } else {
            None
        },
        None => None,
    }
}

/// Parses the fields of a non-empty packet body, up to and including
/// the closing brace.
pub open spec fn parse_body_items(s: Seq<u8>, i: int) -> Option<(Seq<BodyFieldModel>, int)>
    decreases s.len() - i when 0 <= i <= s.len()
{
    match parse_body_field(s, i) {
        Some((f, j)) => if j < s.len() && s[j] == RBRACE {
            Some((seq![f], j + 1))
        } else if j < s.len() && s[j] == COMMA && j + 1 > i {
            match parse_body_items(s, j + 1) {
                Some((rest, k)) => Some((seq![f] + rest, k)),
                None => None,
            }
        } else {
            None
        },
        None => None,
    }
}

/// Parses a packet body object, brace to brace.
pub open spec fn parse_body_obj(s: Seq<u8>, i: int) -> Option<(Seq<BodyFieldModel>, int)> {
    if 0 <= i && i < s.len() && s[i] == LBRACE {
        if i + 1 < s.len() && s[i + 1] == RBRACE {
            Some((Seq::<BodyFieldModel>::empty(), i + 2))
        } else {
            parse_body_items(s, i + 1)
        }
    } else {
        None
    }
}

// ---------------------------------------------------------------------
// Decoding inverts encoding
// ---------------------------------------------------------------------

pub proof fn lemma_enc_nat_props(n: nat)
    ensures
        enc_nat(n).len() >= 1,
        forall|k: int| 0 <= k < enc_nat(n).len() ==> is_digit(#[trigger] enc_nat(n)[k]),
        n < 10 ==> enc_nat(n).len() == 1,
        n >= 10 ==> enc_nat(n).len() >= 2,
        n > 0 ==> enc_nat(n)[0] != 48,
    decreases n,
{
    if n < 10 {
    } else {
        lemma_enc_nat_props(n / 10);
        assert(enc_nat(n) == enc_nat(n / 10).push((48 + n % 10) as u8));
        assert(enc_nat(n)[0] == enc_nat(n / 10)[0]);
        assert(n / 10 > 0);
    }
}

proof fn lemma_val_of_enc_nat(n: nat)
    ensures
        val_of(enc_nat(n)) == n,
    decreases n,
{
    if n < 10 {
        let e = enc_nat(n);
        assert(e == seq![(48 + n) as u8]);
        assert(e.drop_last() =~= Seq::<u8>::empty());
        assert(val_of(e.drop_last()) == 0);
        assert(e.last() == (48 + n) as u8);
        assert((48 + n) as u8 == 48 + n);
        assert(val_of(e) == (val_of(e.drop_last()) * 10 + (e.last() - 48)) as nat);
    } else {
        lemma_val_of_enc_nat(n / 10);
        let e = enc_nat(n);
        assert(e == enc_nat(n / 10).push((48 + n % 10) as u8));
        assert(e.drop_last() =~= enc_nat(n / 10));
        assert(e.last() == (48 + n % 10) as u8);
        assert(val_of(e) == (n / 10) * 10 + n % 10);
    }
}

proof fn lemma_digit_run_end_stops(s: Seq<u8>, i: int, j: int)
    requires
        0 <= i <= j <= s.len(),
        forall|k: int| i <= k < j ==> is_digit(#[trigger] s[k]),
        j == s.len() || !is_digit(s[j]),
    ensures
        digit_run_end(s, i) == j,
    decreases j - i,
{
    if i < j {
        lemma_digit_run_end_stops(s, i + 1, j);
    }
}

proof fn lemma_plain_run_end_stops(s: Seq<u8>, i: int, j: int)
    requires
        0 <= i <= j <= s.len(),
        forall|k: int| i <= k < j ==> is_plain_byte(#[trigger] s[k]),
        j == s.len() || !is_plain_byte(s[j]),
    ensures
        plain_run_end(s, i) == j,
    decreases j - i,
{
    if i < j {
        lemma_plain_run_end_stops(s, i + 1, j);
    }
}

pub proof fn lemma_parse_u64_at(s: Seq<u8>, i: int, n: u64)
    requires
        0 <= i,
        i + enc_nat(n as nat).len() <= s.len(),
        s.subrange(i, i + enc_nat(n as nat).len() as int) == enc_nat(n as nat),
        i + enc_nat(n as nat).len() == s.len() || !is_digit(s[i + enc_nat(n as nat).len()]),
    ensures
        parse_u64(s, i) == Some((n, i + enc_nat(n as nat).len() as int)),
{
    let e = enc_nat(n as nat);
    let l = e.len() as int;
    lemma_enc_nat_props(n as nat);
    assert forall|k: int| i <= k < i + l implies is_digit(#[trigger] s[k]) by {
        assert(s[k] == s.subrange(i, i + l)[k - i]);
    }
    lemma_digit_run_end_stops(s, i, i + l);
    assert(s.subrange(i, i + l) == e);
    lemma_val_of_enc_nat(n as nat);
    assert(s[i] == s.subrange(i, i + l)[0]);
    if l > 1 {
        assert(n as nat >= 10) by {
            if (n as nat) < 10 {
                assert(e.len() == 1);
            }
        }
        assert(s[i] != 48);
    }
}

pub proof fn lemma_parse_int_at(s: Seq<u8>, i: int, v: int)
    requires
        0 <= i,
        i64::MIN < v <= i64::MAX,
        i + enc_int(v).len() <= s.len(),
        s.subrange(i, i + enc_int(v).len() as int) == enc_int(v),
        i + enc_int(v).len() == s.len() || !is_digit(s[i + enc_int(v).len()]),
    ensures
        parse_int(s, i) == Some((v, i + enc_int(v).len() as int)),
{
    if v < 0 {
        let m = (-v) as nat;
        let e = enc_nat(m);
        let l = e.len() as int;
        assert(enc_int(v) == seq![MINUS] + e);
        assert(s[i] == (seq![MINUS] + e)[0]) by {
            assert(s[i] == s.subrange(i, i + 1 + l)[0]);
        }
        assert(s[i] == MINUS);
        assert(s.subrange(i + 1, i + 1 + l) =~= e) by {
            assert forall|k: int| 0 <= k < l implies s.subrange(i + 1, i + 1 + l)[k] == e[k] by {
                assert(s.subrange(i + 1, i + 1 + l)[k] == s[i + 1 + k]);
                assert(s[i + 1 + k] == s.subrange(i, i + 1 + l)[k + 1]);
                assert((seq![MINUS] + e)[k + 1] == e[k]);
            }
        }
        lemma_parse_u64_at(s, i + 1, ((-v) as u64));
        lemma_enc_nat_props(m);
        assert(!is_digit(MINUS));
    } else {
        assert(enc_int(v) == enc_nat(v as nat));
        lemma_parse_u64_at(s, i, v as u64);
        lemma_enc_nat_props(v as nat);
        assert(s[i] == s.subrange(i, i + enc_int(v).len() as int)[0]);
        assert(is_digit(s[i]));
        assert(s[i] != MINUS);
    }
}

pub proof fn lemma_parse_text_at(s: Seq<u8>, i: int, t: Seq<u8>)
    requires
        0 <= i,
        wf_text(t),
        i + t.len() + 2 <= s.len(),
        s.subrange(i, i + t.len() + 2) == enc_text(t),
    ensures
        parse_text(s, i) == Some((t, i + t.len() + 2)),
{
    let l = t.len() as int;
    assert(s[i] == s.subrange(i, i + l + 2)[0]);
    assert(s[i] == QUOTE);
    assert(s[i + 1 + l] == s.subrange(i, i + l + 2)[l + 1]);
    assert(s[i + 1 + l] == QUOTE);
    assert forall|k: int| i + 1 <= k < i + 1 + l implies is_plain_byte(#[trigger] s[k]) by {
        assert(s[k] == s.subrange(i, i + l + 2)[k - i]);
        assert(enc_text(t)[k - i] == t[k - i - 1]);
    }
    assert(!is_plain_byte(QUOTE));
    lemma_plain_run_end_stops(s, i + 1, i + 1 + l);
    assert(s.subrange(i + 1, i + 1 + l) =~= t) by {
        assert forall|k: int| 0 <= k < l implies s.subrange(i + 1, i + 1 + l)[k] == t[k] by {
            assert(s.subrange(i + 1, i + 1 + l)[k] == s[i + 1 + k]);
            assert(s[i + 1 + k] == s.subrange(i, i + l + 2)[k + 1]);
            assert(enc_text(t)[k + 1] == t[k]);
        }
    }
}

/// Splits one subrange equality over a concatenation into the two
/// subrange equalities of its parts.
pub proof fn lemma_subrange_split(s: Seq<u8>, i: int, a: Seq<u8>, b: Seq<u8>)
    requires
        0 <= i,
        i + a.len() + b.len() <= s.len(),
        s.subrange(i, i + a.len() + b.len()) == a + b,
    ensures
        s.subrange(i, i + a.len() as int) == a,
        s.subrange(i + a.len(), i + a.len() + b.len()) == b,
{
    let la = a.len() as int;
    let lb = b.len() as int;
    assert(s.subrange(i, i + la) =~= a) by {
        assert forall|k: int| 0 <= k < la implies s.subrange(i, i + la)[k] == a[k] by {
            assert(s[i + k] == s.subrange(i, i + la + lb)[k]);
            assert((a + b)[k] == a[k]);
        }
    }
    assert(s.subrange(i + la, i + la + lb) =~= b) by {
        assert forall|k: int| 0 <= k < lb implies s.subrange(i + la, i + la + lb)[k] == b[k] by {
            assert(s[i + la + k] == s.subrange(i, i + la + lb)[la + k]);
            assert((a + b)[la + k] == b[k]);
        }
    }
}

pub proof fn lemma_parse_bool_at(s: Seq<u8>, i: int, b: bool)
    requires
        0 <= i,
        i + enc_leaf(LeafModel::Bool(b)).len() <= s.len(),
        s.subrange(i, i + enc_leaf(LeafModel::Bool(b)).len() as int) == enc_leaf(
            LeafModel::Bool(b),
        ),
    ensures
        parse_bool(s, i) == Some((b, i + enc_leaf(LeafModel::Bool(b)).len() as int)),
{
    if b {
        assert(match_at(s, i, lit_true()));
    } else {
        assert(s[i] == s.subrange(i, i + 5)[0]);
        assert(s[i] == 102);
        assert(!match_at(s, i, lit_true())) by {
            if match_at(s, i, lit_true()) {
                assert(s[i] == s.subrange(i, i + 4)[0]);
            }
        }
        assert(match_at(s, i, lit_false()));
    }
}

proof fn lemma_parse_text_items_at(s: Seq<u8>, i: int, items: Seq<Seq<u8>>)
    requires
        0 <= i,
        items.len() >= 1,
        forall|k: int| 0 <= k < items.len() ==> wf_text(#[trigger] items[k]),
        i + enc_text_items(items).len() + 1 <= s.len(),
        s.subrange(i, i + enc_text_items(items).len() + 1) == enc_text_items(items) + seq![
            RBRACKET,
        ],
    ensures
        parse_text_items(s, i) == Some((items, i + enc_text_items(items).len() + 1)),
    decreases items.len(),
{
    let t = items[0];
    let et = enc_text(t);
    if items.len() == 1 {
        assert(enc_text_items(items) == et);
        lemma_subrange_split(s, i, et, seq![RBRACKET]);
        lemma_parse_text_at(s, i, t);
        let j = i + t.len() + 2;
        assert(s[j] == s.subrange(j, j + 1)[0]);
        assert(s[j] == RBRACKET);
        assert(seq![t] =~= items);
    } else {
        let rest = items.drop_first();
        let er = enc_text_items(rest);
        assert(enc_text_items(items) == et + seq![COMMA] + er);
        let b = seq![COMMA] + (er + seq![RBRACKET]);
        assert(enc_text_items(items) + seq![RBRACKET] =~= et + b);
        lemma_subrange_split(s, i, et, b);
        lemma_parse_text_at(s, i, t);
        let j = i + t.len() + 2;
        lemma_subrange_split(s, j, seq![COMMA], er + seq![RBRACKET]);
        assert(s[j] == s.subrange(j, j + 1)[0]);
        assert(s[j] == COMMA);
        lemma_parse_text_items_at(s, j + 1, rest);
        assert(seq![t] + rest =~= items);
    }
}

/// First byte of the encoding of a non-empty item run: always a quote,
/// since every item and field starts with its quoted key or text.
proof fn lemma_enc_text_items_first(items: Seq<Seq<u8>>)
    requires
        items.len() >= 1,
    ensures
        enc_text_items(items).len() >= 2,
        enc_text_items(items)[0] == QUOTE,
{
    let et = enc_text(items[0]);
    assert(et[0] == QUOTE);
    if items.len() == 1 {
    } else {
        assert(enc_text_items(items) == et + seq![COMMA] + enc_text_items(items.drop_first()));
        assert(enc_text_items(items)[0] == et[0]);
    }
}

pub proof fn lemma_parse_leaf_at(s: Seq<u8>, i: int, m: LeafModel)
    requires
        0 <= i,
        m.wf(),
        i + enc_leaf(m).len() <= s.len(),
        s.subrange(i, i + enc_leaf(m).len() as int) == enc_leaf(m),
        i + enc_leaf(m).len() == s.len() || !is_digit(s[i + enc_leaf(m).len()]),
    ensures
        parse_leaf(s, i) == Some((m, i + enc_leaf(m).len() as int)),
{
    let l = enc_leaf(m).len() as int;
    assert(s[i] == s.subrange(i, i + l)[0]);
    match m {
        LeafModel::Bool(b) => {
            lemma_parse_bool_at(s, i, b);
            assert(s[i] == enc_leaf(m)[0]);
            if b {
                assert(enc_leaf(m) == lit_true());
                assert(enc_leaf(m)[0] == 116u8);
            } else {
                assert(enc_leaf(m) == lit_false());
                assert(enc_leaf(m)[0] == 102u8);
            }
            assert(parse_leaf(s, i) == Some((m, i + enc_leaf(m).len() as int)));
        },
        LeafModel::Int(v) => {
            lemma_parse_int_at(s, i, v);
            assert(s[i] == enc_leaf(m)[0]);
            if v < 0 {
                assert(enc_leaf(m)[0] == (seq![MINUS] + enc_nat((-v) as nat))[0]);
                assert(s[i] == MINUS);
            } else {
                lemma_enc_nat_props(v as nat);
                assert(enc_leaf(m)[0] == enc_nat(v as nat)[0]);
                assert(is_digit(s[i]));
            }
            assert(i < s.len());
            assert(s[i] != QUOTE && s[i] != 116 && s[i] != 102);
            assert(parse_int(s, i) == Some((v, i + enc_leaf(m).len() as int)));
            assert(m =~= LeafModel::Int(v));
            assert(parse_leaf(s, i) == Some((m, i + enc_leaf(m).len() as int)));
        },
        LeafModel::Text(t) => {
            lemma_parse_text_at(s, i, t);
            assert(s[i] == QUOTE);
            assert(parse_leaf(s, i) == Some((m, i + enc_leaf(m).len() as int)));
        },
        LeafModel::TextList(items) => {
            assert(s[i] == enc_leaf(m)[0]);
            assert(enc_leaf(m)[0] == LBRACKET) by {
                assert(enc_leaf(m) == seq![LBRACKET] + enc_text_items(items) + seq![RBRACKET]);
            }
            if items.len() == 0 {
                assert(enc_leaf(m) =~= seq![LBRACKET, RBRACKET]);
                assert(s[i + 1] == s.subrange(i, i + l)[1]);
                assert(s[i + 1] == RBRACKET);
                assert(parse_textlist(s, i) == Some((Seq::<Seq<u8>>::empty(), i + 2)));
            } else {
                let eti = enc_text_items(items);
                let b = eti + seq![RBRACKET];
                assert(enc_leaf(m) =~= seq![LBRACKET] + b);
                lemma_subrange_split(s, i, seq![LBRACKET], b);
                lemma_enc_text_items_first(items);
                assert(s[i + 1] == s.subrange(i + 1, i + 1 + b.len())[0]);
                assert(s[i + 1] == QUOTE);
                lemma_parse_text_items_at(s, i + 1, items);
            }
            assert(parse_leaf(s, i) == Some((m, i + enc_leaf(m).len() as int)));
        },
    }
}

pub proof fn lemma_parse_field_at(s: Seq<u8>, i: int, f: FieldModel)
    requires
        0 <= i,
        f.wf(),
        i + enc_field(f).len() <= s.len(),
        s.subrange(i, i + enc_field(f).len() as int) == enc_field(f),
        i + enc_field(f).len() == s.len() || !is_digit(s[i + enc_field(f).len()]),
    ensures
        parse_field(s, i) == Some((f, i + enc_field(f).len() as int)),
{
    let et = enc_text(f.key);
    let el = enc_leaf(f.value);
    let b = seq![COLON] + el;
    assert(enc_field(f) =~= et + b);
    lemma_subrange_split(s, i, et, b);
    lemma_parse_text_at(s, i, f.key);
    let j = i + f.key.len() + 2;
    lemma_subrange_split(s, j, seq![COLON], el);
    assert(s[j] == s.subrange(j, j + 1)[0]);
    assert(s[j] == COLON);
    lemma_parse_leaf_at(s, j + 1, f.value);
}

proof fn lemma_parse_field_items_at(s: Seq<u8>, i: int, fs: Seq<FieldModel>)
    requires
        0 <= i,
        fs.len() >= 1,
        wf_fields(fs),
        i + enc_field_items(fs).len() + 1 <= s.len(),
        s.subrange(i, i + enc_field_items(fs).len() + 1) == enc_field_items(fs) + seq![RBRACE],
    ensures
        parse_field_items(s, i) == Some((fs, i + enc_field_items(fs).len() + 1)),
    decreases fs.len(),
{
    let f = fs[0];
    let ef = enc_field(f);
    if fs.len() == 1 {
        assert(enc_field_items(fs) == ef);
        lemma_subrange_split(s, i, ef, seq![RBRACE]);
        let j = i + ef.len() as int;
        assert(s[j] == s.subrange(j, j + 1)[0]);
        assert(s[j] == RBRACE);
        lemma_parse_field_at(s, i, f);
        assert(seq![f] =~= fs);
    } else {
        let rest = fs.drop_first();
        let er = enc_field_items(rest);
        assert(enc_field_items(fs) == ef + seq![COMMA] + er);
        let b = seq![COMMA] + (er + seq![RBRACE]);
        assert(enc_field_items(fs) + seq![RBRACE] =~= ef + b);
        lemma_subrange_split(s, i, ef, b);
        let j = i + ef.len() as int;
        lemma_subrange_split(s, j, seq![COMMA], er + seq![RBRACE]);
        assert(s[j] == s.subrange(j, j + 1)[0]);
        assert(s[j] == COMMA);
        lemma_parse_field_at(s, i, f);
        assert(forall|k: int| 0 <= k < rest.len() ==> (#[trigger] rest[k]).wf());
        lemma_parse_field_items_at(s, j + 1, rest);
        assert(seq![f] + rest =~= fs);
    }
}

proof fn lemma_enc_field_items_first(fs: Seq<FieldModel>)
    requires
        fs.len() >= 1,
    ensures
        enc_field_items(fs).len() >= 1,
        enc_field_items(fs)[0] == QUOTE,
{
    let ef = enc_field(fs[0]);
    assert(ef[0] == enc_text(fs[0].key)[0]);
    assert(ef[0] == QUOTE);
    if fs.len() == 1 {
    } else {
        assert(enc_field_items(fs) == ef + seq![COMMA] + enc_field_items(fs.drop_first()));
        assert(enc_field_items(fs)[0] == ef[0]);
    }
}

/// The brace-wrapped form of a nested object.
pub open spec fn enc_fields_obj(fs: Seq<FieldModel>) -> Seq<u8> {
    seq![LBRACE] + enc_field_items(fs) + seq![RBRACE]
}

pub proof fn lemma_parse_fields_obj_at(s: Seq<u8>, i: int, fs: Seq<FieldModel>)
    requires
        0 <= i,
        wf_fields(fs),
        i + enc_fields_obj(fs).len() <= s.len(),
        s.subrange(i, i + enc_fields_obj(fs).len() as int) == enc_fields_obj(fs),
    ensures
        parse_fields_obj(s, i) == Some((fs, i + enc_fields_obj(fs).len() as int)),
{
    let l = enc_fields_obj(fs).len() as int;
    assert(s[i] == s.subrange(i, i + l)[0]);
    assert(s[i] == LBRACE);
    if fs.len() == 0 {
        assert(enc_fields_obj(fs) =~= seq![LBRACE, RBRACE]);
        assert(s[i + 1] == s.subrange(i, i + l)[1]);
        assert(s[i + 1] == RBRACE);
    } else {
        let efi = enc_field_items(fs);
        let b = efi + seq![RBRACE];
        assert(enc_fields_obj(fs) =~= seq![LBRACE] + b);
        lemma_subrange_split(s, i, seq![LBRACE], b);
        lemma_enc_field_items_first(fs);
        assert(s[i + 1] == s.subrange(i + 1, i + 1 + b.len())[0]);
        assert(s[i + 1] == QUOTE);
        lemma_parse_field_items_at(s, i + 1, fs);
    }
}

pub proof fn lemma_parse_row_at(s: Seq<u8>, i: int, r: (Seq<u8>, Seq<FieldModel>))
    requires
        0 <= i,
        wf_row(r),
        i + enc_row(r).len() <= s.len(),
        s.subrange(i, i + enc_row(r).len() as int) == enc_row(r),
    ensures
        parse_row(s, i) == Some((r, i + enc_row(r).len() as int)),
{
    let et = enc_text(r.0);
    let eo = enc_fields_obj(r.1);
    let b = seq![COLON] + eo;
    assert(enc_row(r) =~= et + b);
    lemma_subrange_split(s, i, et, b);
    lemma_parse_text_at(s, i, r.0);
    let j = i + r.0.len() + 2;
    lemma_subrange_split(s, j, seq![COLON], eo);
    assert(s[j] == s.subrange(j, j + 1)[0]);
    assert(s[j] == COLON);
    lemma_parse_fields_obj_at(s, j + 1, r.1);
}

proof fn lemma_parse_row_items_at(s: Seq<u8>, i: int, rows: Seq<(Seq<u8>, Seq<FieldModel>)>)
    requires
        0 <= i,
        rows.len() >= 1,
        wf_rows(rows),
        i + enc_row_items(rows).len() + 1 <= s.len(),
        s.subrange(i, i + enc_row_items(rows).len() + 1) == enc_row_items(rows) + seq![RBRACE],
    ensures
        parse_row_items(s, i) == Some((rows, i + enc_row_items(rows).len() + 1)),
    decreases rows.len(),
{
    let r = rows[0];
    let er = enc_row(r);
    if rows.len() == 1 {
        assert(enc_row_items(rows) == er);
        lemma_subrange_split(s, i, er, seq![RBRACE]);
        let j = i + er.len() as int;
        assert(s[j] == s.subrange(j, j + 1)[0]);
        assert(s[j] == RBRACE);
        lemma_parse_row_at(s, i, r);
        assert(seq![r] =~= rows);
    } else {
        let rest = rows.drop_first();
        let err = enc_row_items(rest);
        assert(enc_row_items(rows) == er + seq![COMMA] + err);
        let b = seq![COMMA] + (err + seq![RBRACE]);
        assert(enc_row_items(rows) + seq![RBRACE] =~= er + b);
        lemma_subrange_split(s, i, er, b);
        let j = i + er.len() as int;
        lemma_subrange_split(s, j, seq![COMMA], err + seq![RBRACE]);
        assert(s[j] == s.subrange(j, j + 1)[0]);
        assert(s[j] == COMMA);
        lemma_parse_row_at(s, i, r);
        assert(forall|k: int| 0 <= k < rest.len() ==> wf_row(#[trigger] rest[k]));
        lemma_parse_row_items_at(s, j + 1, rest);
        assert(seq![r] + rest =~= rows);
    }
}

pub proof fn lemma_parse_body_value_at(s: Seq<u8>, i: int, m: BodyModel)
    requires
        0 <= i,
        m.wf(),
        i + enc_body_value(m).len() <= s.len(),
        s.subrange(i, i + enc_body_value(m).len() as int) == enc_body_value(m),
        i + enc_body_value(m).len() == s.len() || !is_digit(s[i + enc_body_value(m).len()]),
    ensures
        parse_body_value(s, i) == Some((m, i + enc_body_value(m).len() as int)),
{
    let l = enc_body_value(m).len() as int;
    assert(s[i] == s.subrange(i, i + l)[0]);
    match m {
        BodyModel::Leaf(lm) => {
            lemma_parse_leaf_at(s, i, lm);
            assert(s[i] == enc_leaf(lm)[0]);
            assert(s[i] != LBRACE) by {
                match lm {
                    LeafModel::Bool(b) => {
                        if b {
                            assert(enc_leaf(lm) == lit_true());
                            assert(enc_leaf(lm)[0] == 116u8);
                        } else {
                            assert(enc_leaf(lm) == lit_false());
                            assert(enc_leaf(lm)[0] == 102u8);
                        }
                    },
                    LeafModel::Int(v) => {
                        if v < 0 {
                            assert(enc_leaf(lm)[0] == MINUS);
                        } else {
                            lemma_enc_nat_props(v as nat);
                            assert(is_digit(enc_leaf(lm)[0]));
                        }
                    },
                    LeafModel::Text(_) => {
                        assert(enc_leaf(lm)[0] == QUOTE);
                    },
                    LeafModel::TextList(items) => {
                        assert(enc_leaf(lm) == seq![LBRACKET] + enc_text_items(items) + seq![
                            RBRACKET,
                        ]);
                        assert(enc_leaf(lm)[0] == LBRACKET);
                    },
                }
            }
        },
        BodyModel::Table(rows) => {
            assert(enc_body_value(m) == seq![LBRACE] + enc_row_items(rows) + seq![RBRACE]);
            assert(s[i] == LBRACE);
            if rows.len() == 0 {
                assert(enc_body_value(m) =~= seq![LBRACE, RBRACE]);
                assert(s[i + 1] == s.subrange(i, i + l)[1]);
                assert(s[i + 1] == RBRACE);
            } else {
                let eri = enc_row_items(rows);
                let b = eri + seq![RBRACE];
                assert(enc_body_value(m) =~= seq![LBRACE] + b);
                lemma_subrange_split(s, i, seq![LBRACE], b);
                assert(eri[0] == QUOTE && eri.len() >= 1) by {
                    let er = enc_row(rows[0]);
                    assert(er[0] == enc_text(rows[0].0)[0]);
                    assert(er[0] == QUOTE);
                    if rows.len() > 1 {
                        assert(eri == er + seq![COMMA] + enc_row_items(rows.drop_first()));
                        assert(eri[0] == er[0]);
                    }
                }
                assert(s[i + 1] == s.subrange(i + 1, i + 1 + b.len())[0]);
                assert(s[i + 1] == QUOTE);
                lemma_parse_row_items_at(s, i + 1, rows);
            }
        },
    }
}

pub proof fn lemma_parse_body_field_at(s: Seq<u8>, i: int, f: BodyFieldModel)
    requires
        0 <= i,
        f.wf(),
        i + enc_body_field(f).len() <= s.len(),
        s.subrange(i, i + enc_body_field(f).len() as int) == enc_body_field(f),
        i + enc_body_field(f).len() == s.len() || !is_digit(s[i + enc_body_field(f).len()]),
    ensures
        parse_body_field(s, i) == Some((f, i + enc_body_field(f).len() as int)),
{
    let et = enc_text(f.key);
    let ev = enc_body_value(f.value);
    let b = seq![COLON] + ev;
    assert(enc_body_field(f) =~= et + b);
    lemma_subrange_split(s, i, et, b);
    lemma_parse_text_at(s, i, f.key);
    let j = i + f.key.len() + 2;
    lemma_subrange_split(s, j, seq![COLON], ev);
    assert(s[j] == s.subrange(j, j + 1)[0]);
    assert(s[j] == COLON);
    lemma_parse_body_value_at(s, j + 1, f.value);
}

proof fn lemma_parse_body_items_at(s: Seq<u8>, i: int, fs: Seq<BodyFieldModel>)
    requires
        0 <= i,
        fs.len() >= 1,
        wf_body(fs),
        i + enc_body_items(fs).len() + 1 <= s.len(),
        s.subrange(i, i + enc_body_items(fs).len() + 1) == enc_body_items(fs) + seq![RBRACE],
    ensures
        parse_body_items(s, i) == Some((fs, i + enc_body_items(fs).len() + 1)),
    decreases fs.len(),
{
    let f = fs[0];
    let ef = enc_body_field(f);
    if fs.len() == 1 {
        assert(enc_body_items(fs) == ef);
        lemma_subrange_split(s, i, ef, seq![RBRACE]);
        let j = i + ef.len() as int;
        assert(s[j] == s.subrange(j, j + 1)[0]);
        assert(s[j] == RBRACE);
        lemma_parse_body_field_at(s, i, f);
        assert(seq![f] =~= fs);
    } else {
        let rest = fs.drop_first();
        let er = enc_body_items(rest);
        assert(enc_body_items(fs) == ef + seq![COMMA] + er);
        let b = seq![COMMA] + (er + seq![RBRACE]);
        assert(enc_body_items(fs) + seq![RBRACE] =~= ef + b);
        lemma_subrange_split(s, i, ef, b);
        let j = i + ef.len() as int;
        lemma_subrange_split(s, j, seq![COMMA], er + seq![RBRACE]);
        assert(s[j] == s.subrange(j, j + 1)[0]);
        assert(s[j] == COMMA);
        lemma_parse_body_field_at(s, i, f);
        assert(forall|k: int| 0 <= k < rest.len() ==> (#[trigger] rest[k]).wf());
        lemma_parse_body_items_at(s, j + 1, rest);
        assert(seq![f] + rest =~= fs);
    }
}

/// The brace-wrapped form of a packet body.
pub open spec fn enc_body_obj(fs: Seq<BodyFieldModel>) -> Seq<u8> {
    seq![LBRACE] + enc_body_items(fs) + seq![RBRACE]
}

pub proof fn lemma_parse_body_obj_at(s: Seq<u8>, i: int, fs: Seq<BodyFieldModel>)
    requires
        0 <= i,
        wf_body(fs),
        i + enc_body_obj(fs).len() <= s.len(),
        s.subrange(i, i + enc_body_obj(fs).len() as int) == enc_body_obj(fs),
    ensures
        parse_body_obj(s, i) == Some((fs, i + enc_body_obj(fs).len() as int)),
{
    let l = enc_body_obj(fs).len() as int;
    assert(s[i] == s.subrange(i, i + l)[0]);
    assert(s[i] == LBRACE);
    if fs.len() == 0 {
        assert(enc_body_obj(fs) =~= seq![LBRACE, RBRACE]);
        assert(s[i + 1] == s.subrange(i, i + l)[1]);
        assert(s[i + 1] == RBRACE);
    } else {
        let ebi = enc_body_items(fs);
        let b = ebi + seq![RBRACE];
        assert(enc_body_obj(fs) =~= seq![LBRACE] + b);
        lemma_subrange_split(s, i, seq![LBRACE], b);
        assert(ebi[0] == QUOTE && ebi.len() >= 1) by {
            let ef = enc_body_field(fs[0]);
            assert(ef[0] == enc_text(fs[0].key)[0]);
            assert(ef[0] == QUOTE);
            if fs.len() > 1 {
                assert(ebi == ef + seq![COMMA] + enc_body_items(fs.drop_first()));
                assert(ebi[0] == ef[0]);
            }
        }
        assert(s[i + 1] == s.subrange(i + 1, i + 1 + b.len())[0]);
        assert(s[i + 1] == QUOTE);
        lemma_parse_body_items_at(s, i + 1, fs);
    }
}

// ---------------------------------------------------------------------
// Decoding, executable
// ---------------------------------------------------------------------

pub open spec fn opt_u64(r: Option<(u64, usize)>) -> Option<(u64, int)> {
    match r {
        Some((v, j)) => Some((v, j as int)),
        None => None,
    }
}

pub open spec fn opt_int(r: Option<(i64, usize)>) -> Option<(int, int)> {
    match r {
        Some((v, j)) => Some((v as int, j as int)),
        None => None,
    }
}

pub open spec fn opt_text(r: Option<(Vec<u8>, usize)>) -> Option<(Seq<u8>, int)> {
    match r {
        Some((t, j)) => Some((t@, j as int)),
        None => None,
    }
}

pub open spec fn opt_texts(r: Option<(Vec<Vec<u8>>, usize)>) -> Option<(Seq<Seq<u8>>, int)> {
    match r {
        Some((ts, j)) => Some((ts@.map_values(|t: Vec<u8>| t@), j as int)),
        None => None,
    }
}

pub open spec fn opt_leaf(r: Option<(LeafValue, usize)>) -> Option<(LeafModel, int)> {
    match r {
        Some((v, j)) => Some((v@, j as int)),
        None => None,
    }
}

/// Byte-string equality.
pub fn bytes_eq(a: &Vec<u8>, b: &Vec<u8>) -> (r: bool)
    ensures
        r == (a@ == b@),
{
    if a.len() != b.len() {
        assert(a@ != b@) by {
            assert(a@.len() != b@.len());
        }
        return false;
    }
    let mut i: usize = 0;
    while i < a.len()
        invariant
            0 <= i <= a@.len(),
            a@.len() == b@.len(),
            forall|j: int| 0 <= j < i ==> a@[j] == b@[j],
        decreases a@.len() - i,
    {
        if a[i] != b[i] {
            return false;
        }
        i = i + 1;
    }
    proof {
        assert(a@ =~= b@);
    }
    true
}

fn exec_is_digit(b: u8) -> (r: bool)
    ensures
        r == is_digit(b),
{
    48 <= b && b <= 57
}

fn exec_is_plain(b: u8) -> (r: bool)
    ensures
        r == is_plain_byte(b),
{
    0x20 <= b && b < 0x7f && b != QUOTE && b != 0x5c
}

fn run_digits(s: &Vec<u8>, i: usize) -> (e: usize)
    requires
        i <= s@.len(),
    ensures
        e == digit_run_end(s@, i as int),
        i <= e <= s@.len(),
        forall|k: int| i <= k < e ==> is_digit(#[trigger] s@[k]),
        e == s@.len() || !is_digit(s@[e as int]),
{
    let mut k: usize = i;
    loop
        invariant
            i <= k <= s@.len(),
            digit_run_end(s@, i as int) == digit_run_end(s@, k as int),
            forall|j: int| i <= j < k ==> is_digit(#[trigger] s@[j]),
        decreases s@.len() - k,
    {
        if k < s.len() && exec_is_digit(s[k]) {
            proof {
                assert(digit_run_end(s@, k as int) == digit_run_end(s@, k + 1 as int));
            }
            k = k + 1;
        } else {
            proof {
                assert(digit_run_end(s@, k as int) == k as int);
            }
            return k;
        }
    }
}

fn run_plain(s: &Vec<u8>, i: usize) -> (e: usize)
    requires
        i <= s@.len(),
    ensures
        e == plain_run_end(s@, i as int),
        i <= e <= s@.len(),
        forall|k: int| i <= k < e ==> is_plain_byte(#[trigger] s@[k]),
        e == s@.len() || !is_plain_byte(s@[e as int]),
{
    let mut k: usize = i;
    loop
        invariant
            i <= k <= s@.len(),
            plain_run_end(s@, i as int) == plain_run_end(s@, k as int),
            forall|j: int| i <= j < k ==> is_plain_byte(#[trigger] s@[j]),
        decreases s@.len() - k,
    {
        if k < s.len() && exec_is_plain(s[k]) {
            proof {
                assert(plain_run_end(s@, k as int) == plain_run_end(s@, k + 1 as int));
            }
            k = k + 1;
        } else {
            proof {
                assert(plain_run_end(s@, k as int) == k as int);
            }
            return k;
        }
    }
}

proof fn lemma_val_of_nonneg_step(ds: Seq<u8>)
    requires
        ds.len() > 0,
        forall|k: int| 0 <= k < ds.len() ==> is_digit(#[trigger] ds[k]),
    ensures
        val_of(ds) == val_of(ds.drop_last()) * 10 + (ds.last() - 48),
{
    assert(is_digit(ds.last()));
}

proof fn lemma_val_of_prefix_mono(ds: Seq<u8>, k: int)
    requires
        0 <= k <= ds.len(),
        forall|j: int| 0 <= j < ds.len() ==> is_digit(#[trigger] ds[j]),
    ensures
        val_of(ds.take(k)) <= val_of(ds),
    decreases ds.len(),
{
    if k == ds.len() {
        assert(ds.take(k) =~= ds);
    } else {
        let dl = ds.drop_last();
        assert(forall|j: int| 0 <= j < dl.len() ==> is_digit(#[trigger] dl[j]));
        lemma_val_of_nonneg_step(ds);
        assert(ds.take(k) =~= dl.take(k));
        lemma_val_of_prefix_mono(dl, k);
        assert(val_of(dl) * 10 >= val_of(dl)) by (nonlinear_arith);
        assert(val_of(ds) >= val_of(dl));
    }
}

/// Parses an unsigned decimal number, exactly where the specification
/// does.
pub fn d_u64(s: &Vec<u8>, i: usize) -> (r: Option<(u64, usize)>)
    requires
        i <= s@.len(),
    ensures
        opt_u64(r) == parse_u64(s@, i as int),
        r matches Some((v, j)) ==> i < j <= s@.len(),
{
    let e = run_digits(s, i);
    if e == i {
        return None;
    }
    if s[i] == 48 && e > i + 1 {
        return None;
    }
    let ghost ds = s@.subrange(i as int, e as int);
    let mut acc: u64 = 0;
    let mut k: usize = i;
    while k < e
        invariant
            i <= k <= e <= s@.len(),
            e == digit_run_end(s@, i as int),
            forall|j: int| i <= j < e ==> is_digit(#[trigger] s@[j]),
            ds == s@.subrange(i as int, e as int),
            acc == val_of(s@.subrange(i as int, k as int)),
        decreases e - k,
    {
        let d: u8 = s[k] - 48;
        if acc > (u64::MAX - d as u64) / 10 {
            proof {
                let m = (u64::MAX - d) as int;
                vstd::arithmetic::div_mod::lemma_fundamental_div_mod(m, 10);
                assert(acc * 10 >= (m / 10 + 1) * 10) by (nonlinear_arith)
                    requires
                        acc >= m / 10 + 1,
                ;
                let pre = s@.subrange(i as int, k + 1 as int);
                assert(pre.drop_last() =~= s@.subrange(i as int, k as int));
                assert(pre.last() == s@[k as int]);
                assert(forall|j: int| 0 <= j < pre.len() ==> is_digit(#[trigger] pre[j]));
                lemma_val_of_nonneg_step(pre);
                assert(val_of(pre) > u64::MAX);
                assert(forall|j: int| 0 <= j < ds.len() ==> is_digit(#[trigger] ds[j]));
                assert(pre =~= ds.take(k + 1 - i));
                lemma_val_of_prefix_mono(ds, k + 1 - i);
                assert(val_of(ds) > u64::MAX);
            }
            return None;
        }
        proof {
            let pre = s@.subrange(i as int, k + 1 as int);
            assert(pre.drop_last() =~= s@.subrange(i as int, k as int));
            assert(pre.last() == s@[k as int]);
            assert(forall|j: int| 0 <= j < pre.len() ==> is_digit(#[trigger] pre[j]));
            lemma_val_of_nonneg_step(pre);
        }
        acc = acc * 10 + d as u64;
        k = k + 1;
    }
    proof {
        assert(s@.subrange(i as int, k as int) == ds);
    }
    Some((acc, e))
}

/// Parses a signed decimal number, exactly where the specification
/// does.
pub fn d_int(s: &Vec<u8>, i: usize) -> (r: Option<(i64, usize)>)
    requires
        i <= s@.len(),
    ensures
        opt_int(r) == parse_int(s@, i as int),
        r matches Some((v, j)) ==> i < j <= s@.len() && v > i64::MIN,
{
    if i < s.len() && s[i] == MINUS {
        match d_u64(s, i + 1) {
            Some((m, j)) => {
                if m <= i64::MAX as u64 {
                    let v: i64 = -(m as i64);
                    Some((v, j))
                } else {
                    None
                }
            },
            None => None,
        }
    } else {
        match d_u64(s, i) {
            Some((m, j)) => {
                if m <= i64::MAX as u64 {
                    Some((m as i64, j))
                } else {
                    None
                }
            },
            None => None,
        }
    }
}

/// Parses a quoted string, exactly where the specification does.
pub fn d_text(s: &Vec<u8>, i: usize) -> (r: Option<(Vec<u8>, usize)>)
    requires
        i <= s@.len(),
    ensures
        opt_text(r) == parse_text(s@, i as int),
        r matches Some((t, j)) ==> i < j <= s@.len() && wf_text(t@),
{
    if i < s.len() && s[i] == QUOTE {
        let e = run_plain(s, i + 1);
        if e < s.len() && s[e] == QUOTE {
            let mut out: Vec<u8> = Vec::new();
            let mut k: usize = i + 1;
            while k < e
                invariant
                    i + 1 <= k <= e < s@.len(),
                    out@ == s@.subrange(i + 1 as int, k as int),
                decreases e - k,
            {
                out.push(s[k]);
                k = k + 1;
                proof {
                    assert(out@ =~= s@.subrange(i + 1 as int, k as int));
                }
            }
            proof {
                assert(out@ == s@.subrange(i + 1 as int, e as int));
            }
            Some((out, e + 1))
        } else {
            None
        }
    } else {
        None
    }
}

/// Parses a boolean literal, exactly where the specification does.
pub fn d_bool(s: &Vec<u8>, i: usize) -> (r: Option<(bool, usize)>)
    requires
        i <= s@.len(),
    ensures
        (match r {
            Some((b, j)) => Some((b, j as int)),
            None => None,
        }) == parse_bool(s@, i as int),
        r matches Some((b, j)) ==> i < j <= s@.len(),
{
    if s.len() - i >= 4 && s[i] == 116 && s[i + 1] == 114 && s[i + 2] == 117 && s[i + 3] == 101 {
        proof {
            assert(s@.subrange(i as int, i + 4 as int) =~= lit_true());
        }
        Some((true, i + 4))
    } else if s.len() - i >= 5 && s[i] == 102 && s[i + 1] == 97 && s[i + 2] == 108 && s[i + 3]
        == 115 && s[i + 4] == 101 {
        proof {
            assert(s@.subrange(i as int, i + 5 as int) =~= lit_false());
            assert(!match_at(s@, i as int, lit_true())) by {
                if match_at(s@, i as int, lit_true()) {
                    assert(s@[i as int] == s@.subrange(i as int, i + 4 as int)[0]);
                }
            }
        }
        Some((false, i + 5))
    } else {
        proof {
            assert(!match_at(s@, i as int, lit_true())) by {
                if match_at(s@, i as int, lit_true()) {
                    assert(s@[i + 0 as int] == lit_true()[0]);
                    assert(s@[i + 1 as int] == s@.subrange(i as int, i + 4 as int)[1]);
                    assert(s@[i + 2 as int] == s@.subrange(i as int, i + 4 as int)[2]);
                    assert(s@[i + 3 as int] == s@.subrange(i as int, i + 4 as int)[3]);
                }
            }
            assert(!match_at(s@, i as int, lit_false())) by {
                if match_at(s@, i as int, lit_false()) {
                    assert(s@[i + 0 as int] == lit_false()[0]);
                    assert(s@[i + 1 as int] == s@.subrange(i as int, i + 5 as int)[1]);
                    assert(s@[i + 2 as int] == s@.subrange(i as int, i + 5 as int)[2]);
                    assert(s@[i + 3 as int] == s@.subrange(i as int, i + 5 as int)[3]);
                    assert(s@[i + 4 as int] == s@.subrange(i as int, i + 5 as int)[4]);
                }
            }
        }
        None
    }
}

/// Parses the items of a non-empty string array, exactly where the
/// specification does.
fn d_text_items(s: &Vec<u8>, i: usize) -> (r: Option<(Vec<Vec<u8>>, usize)>)
    requires
        i <= s@.len(),
    ensures
        opt_texts(r) == parse_text_items(s@, i as int),
        r matches Some((ts, j)) ==> i < j <= s@.len() && wf_texts(
            ts@.map_values(|t: Vec<u8>| t@),
        ),
    decreases s@.len() - i,
{
    match d_text(s, i) {
        Some((t, j)) => {
            if j < s.len() && s[j] == RBRACKET {
                let mut out: Vec<Vec<u8>> = Vec::new();
                let ghost tv = t@;
                out.push(t);
                proof {
                    let m = out@.map_values(|x: Vec<u8>| x@);
                    assert(m =~= seq![tv]);
                    assert(forall|k: int| 0 <= k < m.len() ==> wf_text(#[trigger] m[k]));
                }
                Some((out, j + 1))
            } else if j < s.len() && s[j] == COMMA && j + 1 > i {
                match d_text_items(s, j + 1) {
                    Some((mut rest, k)) => {
                        let ghost restv = rest@.map_values(|x: Vec<u8>| x@);
                        let ghost tv = t@;
                        rest.insert(0, t);
                        proof {
                            let m = rest@.map_values(|x: Vec<u8>| x@);
                            assert(m =~= seq![tv] + restv);
                            assert(forall|q: int|
                                0 <= q < restv.len() ==> wf_text(#[trigger] restv[q]));
                            assert forall|q: int| 0 <= q < m.len() implies wf_text(
                                #[trigger] m[q],
                            ) by {
                                if q == 0 {
                                    assert(m[q] == tv);
                                } else {
                                    assert(m[q] == restv[q - 1]);
                                }
                            }
                        }
                        Some((rest, k))
                    },
                    None => None,
                }
            } else {
                None
            }
        },
        None => None,
    }
}

/// Parses a string array, exactly where the specification does.
fn d_textlist(s: &Vec<u8>, i: usize) -> (r: Option<(Vec<Vec<u8>>, usize)>)
    requires
        i <= s@.len(),
    ensures
        opt_texts(r) == parse_textlist(s@, i as int),
        r matches Some((ts, j)) ==> i < j <= s@.len() && wf_texts(
            ts@.map_values(|t: Vec<u8>| t@),
        ),
{
    if i < s.len() && s[i] == LBRACKET {
        if i + 1 < s.len() && s[i + 1] == RBRACKET {
            let out: Vec<Vec<u8>> = Vec::new();
            proof {
                assert(out@.map_values(|x: Vec<u8>| x@) =~= Seq::<Seq<u8>>::empty());
            }
            Some((out, i + 2))
        } else {
            d_text_items(s, i + 1)
        }
    } else {
        None
    }
}

/// Parses one scalar value, exactly where the specification does.
pub fn d_leaf(s: &Vec<u8>, i: usize) -> (r: Option<(LeafValue, usize)>)
    requires
        i <= s@.len(),
    ensures
        opt_leaf(r) == parse_leaf(s@, i as int),
        r matches Some((v, j)) ==> i < j <= s@.len() && v@.wf(),
{
    if i >= s.len() {
        return None;
    }
    let b = s[i];
    if b == QUOTE {
        match d_text(s, i) {
            Some((t, j)) => Some((LeafValue::Text(t), j)),
            None => None,
        }
    } else if b == 116 || b == 102 {
        match d_bool(s, i) {
            Some((x, j)) => Some((LeafValue::Bool(x), j)),
            None => None,
        }
    } else if b == MINUS || exec_is_digit(b) {
        match d_int(s, i) {
            Some((v, j)) => Some((LeafValue::Int(v), j)),
            None => None,
        }
    } else if b == LBRACKET {
        match d_textlist(s, i) {
            Some((ts, j)) => Some((LeafValue::TextList(ts), j)),
            None => None,
        }
    } else {
        None
    }
}

pub open spec fn opt_field(r: Option<(Field, usize)>) -> Option<(FieldModel, int)> {
    match r {
        Some((f, j)) => Some((f@, j as int)),
        None => None,
    }
}

pub open spec fn opt_fields(r: Option<(Vec<Field>, usize)>) -> Option<(Seq<FieldModel>, int)> {
    match r {
        Some((fs, j)) => Some((fs@.map_values(|f: Field| f@), j as int)),
        None => None,
    }
}

pub open spec fn opt_row(r: Option<(TableRow, usize)>) -> Option<
    ((Seq<u8>, Seq<FieldModel>), int),
> {
    match r {
        Some((x, j)) => Some((x@, j as int)),
        None => None,
    }
}

pub open spec fn opt_rows(r: Option<(Vec<TableRow>, usize)>) -> Option<
    (Seq<(Seq<u8>, Seq<FieldModel>)>, int),
> {
    match r {
        Some((xs, j)) => Some((xs@.map_values(|x: TableRow| x@), j as int)),
        None => None,
    }
}

pub open spec fn opt_bval(r: Option<(BodyValue, usize)>) -> Option<(BodyModel, int)> {
    match r {
        Some((v, j)) => Some((v@, j as int)),
        None => None,
    }
}

pub open spec fn opt_bfield(r: Option<(BodyField, usize)>) -> Option<(BodyFieldModel, int)> {
    match r {
        Some((f, j)) => Some((f@, j as int)),
        None => None,
    }
}

pub open spec fn opt_bfields(r: Option<(Vec<BodyField>, usize)>) -> Option<
    (Seq<BodyFieldModel>, int),
> {
    match r {
        Some((fs, j)) => Some((fs@.map_values(|f: BodyField| f@), j as int)),
        None => None,
    }
}

/// Parses one `key: leaf` field, exactly where the specification does.
fn d_field(s: &Vec<u8>, i: usize) -> (r: Option<(Field, usize)>)
    requires
        i <= s@.len(),
    ensures
        opt_field(r) == parse_field(s@, i as int),
        r matches Some((f, j)) ==> i < j <= s@.len() && f@.wf(),
{
    match d_text(s, i) {
        Some((k, j)) => {
            if j < s.len() && s[j] == COLON {
                match d_leaf(s, j + 1) {
                    Some((v, e)) => Some((Field { key: k, value: v }, e)),
                    None => None,
                }
            } else {
                None
            }
        },
        None => None,
    }
}

/// Parses the fields of a non-empty nested object, exactly where the
/// specification does.
fn d_field_items(s: &Vec<u8>, i: usize) -> (r: Option<(Vec<Field>, usize)>)
    requires
        i <= s@.len(),
    ensures
        opt_fields(r) == parse_field_items(s@, i as int),
        r matches Some((fs, j)) ==> i < j <= s@.len() && wf_fields(
            fs@.map_values(|f: Field| f@),
        ),
    decreases s@.len() - i,
{
    match d_field(s, i) {
        Some((f, j)) => {
            if j < s.len() && s[j] == RBRACE {
                let ghost fv = f@;
                let mut out: Vec<Field> = Vec::new();
                out.push(f);
                proof {
                    assert(out@.map_values(|x: Field| x@) =~= seq![fv]);
                }
                Some((out, j + 1))
            } else if j < s.len() && s[j] == COMMA && j + 1 > i {
                match d_field_items(s, j + 1) {
                    Some((mut rest, k)) => {
                        let ghost restv = rest@.map_values(|x: Field| x@);
                        let ghost fv = f@;
                        rest.insert(0, f);
                        proof {
                            assert(rest@.map_values(|x: Field| x@) =~= seq![fv] + restv);
                        }
                        Some((rest, k))
                    },
                    None => None,
                }
            } else {
                None
            }
        },
        None => None,
    }
}

/// Parses a nested object of leaves, exactly where the specification
/// does.
fn d_fields_obj(s: &Vec<u8>, i: usize) -> (r: Option<(Vec<Field>, usize)>)
    requires
        i <= s@.len(),
    ensures
        opt_fields(r) == parse_fields_obj(s@, i as int),
        r matches Some((fs, j)) ==> i < j <= s@.len() && wf_fields(
            fs@.map_values(|f: Field| f@),
        ),
{
    if i < s.len() && s[i] == LBRACE {
        if i + 1 < s.len() && s[i + 1] == RBRACE {
            let out: Vec<Field> = Vec::new();
            proof {
                assert(out@.map_values(|x: Field| x@) =~= Seq::<FieldModel>::empty());
            }
            Some((out, i + 2))
        } else {
            d_field_items(s, i + 1)
        }
    } else {
        None
    }
}

/// Parses one table row, exactly where the specification does.
fn d_row(s: &Vec<u8>, i: usize) -> (r: Option<(TableRow, usize)>)
    requires
        i <= s@.len(),
    ensures
        opt_row(r) == parse_row(s@, i as int),
        r matches Some((x, j)) ==> i < j <= s@.len() && wf_row(x@),
{
    match d_text(s, i) {
        Some((k, j)) => {
            if j < s.len() && s[j] == COLON {
                match d_fields_obj(s, j + 1) {
                    Some((fs, e)) => Some((TableRow { key: k, fields: fs }, e)),
                    None => None,
                }
            } else {
                None
            }
        },
        None => None,
    }
}

/// Parses the rows of a non-empty table, exactly where the
/// specification does.
fn d_row_items(s: &Vec<u8>, i: usize) -> (r: Option<(Vec<TableRow>, usize)>)
    requires
        i <= s@.len(),
    ensures
        opt_rows(r) == parse_row_items(s@, i as int),
        r matches Some((xs, j)) ==> i < j <= s@.len() && wf_rows(
            xs@.map_values(|x: TableRow| x@),
        ),
    decreases s@.len() - i,
{
    match d_row(s, i) {
        Some((x, j)) => {
            if j < s.len() && s[j] == RBRACE {
                let ghost xv = x@;
                let mut out: Vec<TableRow> = Vec::new();
                out.push(x);
                proof {
                    assert(out@.map_values(|y: TableRow| y@) =~= seq![xv]);
                }
                Some((out, j + 1))
            } else if j < s.len() && s[j] == COMMA && j + 1 > i {
                match d_row_items(s, j + 1) {
                    Some((mut rest, k)) => {
                        let ghost restv = rest@.map_values(|y: TableRow| y@);
                        let ghost xv = x@;
                        rest.insert(0, x);
                        proof {
                            assert(rest@.map_values(|y: TableRow| y@) =~= seq![xv] + restv);
                        }
                        Some((rest, k))
                    },
                    None => None,
                }
            } else {
                None
            }
        },
        None => None,
    }
}

/// Parses a body value, exactly where the specification does.
pub fn d_body_value(s: &Vec<u8>, i: usize) -> (r: Option<(BodyValue, usize)>)
    requires
        i <= s@.len(),
    ensures
        opt_bval(r) == parse_body_value(s@, i as int),
        r matches Some((v, j)) ==> i < j <= s@.len() && v@.wf(),
{
    if i < s.len() && s[i] == LBRACE {
        if i + 1 < s.len() && s[i + 1] == RBRACE {
            let out: Vec<TableRow> = Vec::new();
            proof {
                assert(out@.map_values(|y: TableRow| y@) =~= Seq::<(Seq<u8>, Seq<FieldModel>)>::empty());
            }
            Some((BodyValue::Table(out), i + 2))
        } else {
            match d_row_items(s, i + 1) {
                Some((rows, j)) => Some((BodyValue::Table(rows), j)),
                None => None,
            }
        }
    } else {
        match d_leaf(s, i) {
            Some((l, j)) => Some((BodyValue::Leaf(l), j)),
            None => None,
        }
    }
}

/// Parses one `key: value` field of a packet body, exactly where the
/// specification does.
fn d_body_field(s: &Vec<u8>, i: usize) -> (r: Option<(BodyField, usize)>)
    requires
        i <= s@.len(),
    ensures
        opt_bfield(r) == parse_body_field(s@, i as int),
        r matches Some((f, j)) ==> i < j <= s@.len() && f@.wf(),
{
    match d_text(s, i) {
        Some((k, j)) => {
            if j < s.len() && s[j] == COLON {
                match d_body_value(s, j + 1) {
                    Some((v, e)) => Some((BodyField { key: k, value: v }, e)),
                    None => None,
                }
            } else {
                None
            }
        },
        None => None,
    }
}

/// Parses the fields of a non-empty packet body, exactly where the
/// specification does.
fn d_body_items(s: &Vec<u8>, i: usize) -> (r: Option<(Vec<BodyField>, usize)>)
    requires
        i <= s@.len(),
    ensures
        opt_bfields(r) == parse_body_items(s@, i as int),
        r matches Some((fs, j)) ==> i < j <= s@.len() && wf_body(
            fs@.map_values(|f: BodyField| f@),
        ),
    decreases s@.len() - i,
{
    match d_body_field(s, i) {
        Some((f, j)) => {
            if j < s.len() && s[j] == RBRACE {
                let ghost fv = f@;
                let mut out: Vec<BodyField> = Vec::new();
                out.push(f);
                proof {
                    assert(out@.map_values(|x: BodyField| x@) =~= seq![fv]);
                }
                Some((out, j + 1))
            } else if j < s.len() && s[j] == COMMA && j + 1 > i {
                match d_body_items(s, j + 1) {
                    Some((mut rest, k)) => {
                        let ghost restv = rest@.map_values(|x: BodyField| x@);
                        let ghost fv = f@;
                        rest.insert(0, f);
                        proof {
                            assert(rest@.map_values(|x: BodyField| x@) =~= seq![fv] + restv);
                        }
                        Some((rest, k))
                    },
                    None => None,
                }
            } else {
                None
            }
        },
        None => None,
    }
}

/// Parses a packet body object, exactly where the specification does.
pub fn d_body_obj(s: &Vec<u8>, i: usize) -> (r: Option<(Vec<BodyField>, usize)>)
    requires
        i <= s@.len(),
    ensures
        opt_bfields(r) == parse_body_obj(s@, i as int),
        r matches Some((fs, j)) ==> i < j <= s@.len() && wf_body(
            fs@.map_values(|f: BodyField| f@),
        ),
{
    if i < s.len() && s[i] == LBRACE {
        if i + 1 < s.len() && s[i + 1] == RBRACE {
            let out: Vec<BodyField> = Vec::new();
            proof {
                assert(out@.map_values(|x: BodyField| x@) =~= Seq::<BodyFieldModel>::empty());
            }
            Some((out, i + 2))
        } else {
            d_body_items(s, i + 1)
        }
    } else {
        None
    }
}

} // verus!
