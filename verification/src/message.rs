//! `ZMessage`, the protobuf message that clients and nodes exchange, with its
//! encoding and decoding.
use vstd::prelude::*;
use crate::varint::{
    lemma_varint_len_within_bound, lemma_varint_roundtrip, varint_at, varint_bytes, varint_len,
};
use crate::wire::{
    bytes_field_at, key_at, merge_bytes_field, put_bytes_field, read_key, skip_unknown_field,
    skipped_field_len, MAX_TAG,
};

verus! {

/// A message as the protobuf schema has it: four `bytes` fields, numbered
/// 1 (`id`), 2 (`from`), 3 (`to`) and 4 (`data`).
#[derive(Clone, Debug, PartialEq, Eq)]
pub struct ZMessage {
    pub id: Vec<u8>,
    pub from: Vec<u8>,
    pub to: Vec<u8>,
    pub data: Vec<u8>,
}

/// The contents of a `ZMessage`.
#[verifier::ext_equal]
pub struct ZMessageView {
    pub id: Seq<u8>,
    pub from: Seq<u8>,
    pub to: Seq<u8>,
    pub data: Seq<u8>,
}

impl ZMessageView {
    /// The message with every field empty, which is also the protobuf default.
    pub open spec fn empty() -> ZMessageView {
        ZMessageView { id: Seq::empty(), from: Seq::empty(), to: Seq::empty(), data: Seq::empty() }
    }

    /// The message with field number `tag` (1 to 4) replaced by `v`.
    pub open spec fn with_field(self, tag: nat, v: Seq<u8>) -> ZMessageView {
        if tag == 1 {
            ZMessageView { id: v, ..self }
        } else if tag == 2 {
            ZMessageView { from: v, ..self }
        } else if tag == 3 {
            ZMessageView { to: v, ..self }
        } else if tag == 4 {
            ZMessageView { data: v, ..self }
        } else {
            self
        }
    }
}

impl View for ZMessage {
    type V = ZMessageView;

    open spec fn view(&self) -> ZMessageView {
        ZMessageView { id: self.id@, from: self.from@, to: self.to@, data: self.data@ }
    }
}

impl Default for ZMessage {
    fn default() -> (m: ZMessage)
        ensures
            m@ == ZMessageView::empty(),
    {
        ZMessage { id: Vec::new(), from: Vec::new(), to: Vec::new(), data: Vec::new() }
    }
}

/// The encoding of one `bytes` field: nothing for an empty value (proto3 leaves
/// default values out), else the key `tag * 8 + 2`, the length and the payload.
pub open spec fn field_bytes(tag: nat, v: Seq<u8>) -> Seq<u8> {
    if v.len() == 0 {
        Seq::empty()
    } else {
        varint_bytes(tag * 8 + 2) + varint_bytes(v.len()) + v
    }
}

/// The encoding of a message: its fields in the order of their numbers.
pub open spec fn encode_view(m: ZMessageView) -> Seq<u8> {
    field_bytes(1, m.id) + field_bytes(2, m.from) + field_bytes(3, m.to) + field_bytes(4, m.data)
}

/// Reading the fields in `s` into `m`, one after the other: a known field
/// replaces its value in `m`, an unknown one is skipped; `None` when a key, a
/// known field or an unknown field is malformed.
pub open spec fn decode_fields(s: Seq<u8>, m: ZMessageView) -> Option<ZMessageView>
    decreases s.len(),
{
    if s.len() == 0 {
        Some(m)
    } else {
        match key_at(s) {
            None => None,
            Some((tag, wire, kl)) => {
                let rest = s.skip(kl as int);
                if kl < 1 || kl > s.len() {
                    None
                } else if 1 <= tag <= 4 {
                    match bytes_field_at(wire, rest) {
                        Some((v, n)) => if n <= rest.len() {
                            decode_fields(rest.skip(n as int), m.with_field(tag, v))
                        } else {
                            None
                        },
                        None => None,
                    }
                } else {
                    match skipped_field_len(wire as u8, tag as u32, rest) {
                        Some(n) => if n <= rest.len() {
                            decode_fields(rest.skip(n as int), m)
                        } else {
                            None
                        },
                        None => None,
                    }
                }
            },
        }
    }
}

/// The message that `s` decodes to, if any.
pub open spec fn decode_view(s: Seq<u8>) -> Option<ZMessageView> {
    decode_fields(s, ZMessageView::empty())
}

/// `s` could not be decoded as a `ZMessage`.
#[derive(Clone, Copy, Debug, PartialEq, Eq)]
pub struct MessageDecodeError;

/// Appends the encoding of one `bytes` field, leaving an empty value out.
fn put_field(tag: u32, value: &Vec<u8>, buf: &mut Vec<u8>)
    requires
        1 <= tag <= 4,
    ensures
        final(buf)@ == old(buf)@ + field_bytes(tag as nat, value@),
{
    if value.len() != 0 {
        put_bytes_field(tag, value, buf);
    } else {
        assert(buf@ =~= buf@ + field_bytes(tag as nat, value@));
    }
}

impl ZMessage {
    /// Appends the encoding of this message to `buf`.
    pub fn encode(&self, buf: &mut Vec<u8>)
        ensures
            final(buf)@ == old(buf)@ + encode_view(self@),
            final(buf)@ == old(buf)@ + bytes_field_on_wire(0x0a, self.id@) + bytes_field_on_wire(
                0x12,
                self.from@,
            ) + bytes_field_on_wire(0x1a, self.to@) + bytes_field_on_wire(0x22, self.data@),
    {
        let _: usize = self.id.len();
        let _: usize = self.from.len();
        let _: usize = self.to.len();
        let _: usize = self.data.len();
        proof {
            lemma_encode_layout(self@);
        }
        let ghost start = buf@;
        put_field(1, &self.id, buf);
        put_field(2, &self.from, buf);
        put_field(3, &self.to, buf);
        put_field(4, &self.data, buf);
        assert(buf@ =~= start + encode_view(self@));
        assert(buf@ =~= start + (bytes_field_on_wire(0x0a, self.id@) + bytes_field_on_wire(
            0x12,
            self.from@,
        ) + bytes_field_on_wire(0x1a, self.to@) + bytes_field_on_wire(0x22, self.data@)));
    }

    /// Decodes a message from `buf`; an error exactly when `buf` is not the
    /// encoding of a message.
    pub fn decode(buf: &[u8]) -> (res: Result<ZMessage, MessageDecodeError>)
        ensures
            decode_view(buf@) matches Some(m) ==> res matches Ok(msg) && msg@ == m,
            decode_view(buf@) is None ==> res is Err,
    {
        let mut msg = ZMessage::default();
        let mut rest = buf;
        while rest.len() > 0
            invariant
                decode_view(buf@) == decode_fields(rest@, msg@),
            decreases rest@.len(),
        {
            let (key, after_key) = read_key(rest);
            let (tag, wire) = match key {
                Ok(k) => k,
                Err(_) => return Err(MessageDecodeError),
            };
            proof {
                lemma_varint_len_within_bound(rest@, 10);
            }
            let ghost before = msg@;
            if 1 <= tag && tag <= 4 {
                let (outcome, after) = if tag == 1 {
                    merge_bytes_field(wire, &mut msg.id, after_key)
                } else if tag == 2 {
                    merge_bytes_field(wire, &mut msg.from, after_key)
                } else if tag == 3 {
                    merge_bytes_field(wire, &mut msg.to, after_key)
                } else {
                    merge_bytes_field(wire, &mut msg.data, after_key)
                };
                if outcome.is_err() {
                    return Err(MessageDecodeError);
                }
                assert(msg@ =~= before.with_field(tag as nat, bytes_field_at(wire as nat, after_key@).unwrap().0));
                rest = after;
            } else {
                let (outcome, after) = skip_unknown_field(wire, tag, after_key);
                if outcome.is_err() {
                    return Err(MessageDecodeError);
                }
                rest = after;
            }
        }
        Ok(msg)
    }
}

/// Reading a non-empty field's encoding sets that field and goes on with what follows.
proof fn lemma_decode_field(tag: nat, v: Seq<u8>, rest: Seq<u8>, m: ZMessageView)
    requires
        1 <= tag <= 4,
        0 < v.len() <= u64::MAX,
    ensures
        decode_fields(field_bytes(tag, v) + rest, m) == decode_fields(rest, m.with_field(tag, v)),
{
    let kb = varint_bytes(tag * 8 + 2);
    let lb = varint_bytes(v.len());
    let s = field_bytes(tag, v) + rest;
    assert(s =~= kb + (lb + v + rest));
    lemma_varint_roundtrip((tag * 8 + 2) as u64, lb + v + rest);
    assert(key_at(s) == Some((tag, 2nat, kb.len())));
    let after_key = s.skip(kb.len() as int);
    assert(after_key =~= lb + (v + rest));
    lemma_varint_roundtrip(v.len() as u64, v + rest);
    assert(varint_at(after_key) == Some((v.len(), lb.len())));
    assert(after_key.subrange(lb.len() as int, (lb.len() + v.len()) as int) =~= v);
    assert(bytes_field_at(2, after_key) == Some((v, lb.len() + v.len())));
    assert(after_key.skip((lb.len() + v.len()) as int) =~= rest);
}

/// Decoding the encoding of a message gives back that message.
pub proof fn lemma_decode_encode(m: ZMessageView)
    requires
        m.id.len() <= u64::MAX,
        m.from.len() <= u64::MAX,
        m.to.len() <= u64::MAX,
        m.data.len() <= u64::MAX,
    ensures
        decode_view(encode_view(m)) == Some(m),
{
    let e = ZMessageView::empty();
    let f1 = field_bytes(1, m.id);
    let f2 = field_bytes(2, m.from);
    let f3 = field_bytes(3, m.to);
    let f4 = field_bytes(4, m.data);
    let m1 = ZMessageView { id: m.id, ..e };
    let m2 = ZMessageView { from: m.from, ..m1 };
    let m3 = ZMessageView { to: m.to, ..m2 };
    assert(encode_view(m) =~= f1 + (f2 + (f3 + (f4 + Seq::empty()))));
    if m.id.len() > 0 {
        lemma_decode_field(1, m.id, f2 + (f3 + (f4 + Seq::empty())), e);
    } else {
        assert(f1 + (f2 + (f3 + (f4 + Seq::empty()))) =~= f2 + (f3 + (f4 + Seq::empty())));
        assert(m1 =~= e);
    }
    if m.from.len() > 0 {
        lemma_decode_field(2, m.from, f3 + (f4 + Seq::empty()), m1);
    } else {
        assert(f2 + (f3 + (f4 + Seq::empty())) =~= f3 + (f4 + Seq::empty()));
        assert(m2 =~= m1);
    }
    if m.to.len() > 0 {
        lemma_decode_field(3, m.to, f4 + Seq::empty(), m2);
    } else {
        assert(f3 + (f4 + Seq::empty()) =~= f4 + Seq::empty());
        assert(m3 =~= m2);
    }
    if m.data.len() > 0 {
        lemma_decode_field(4, m.data, Seq::empty(), m3);
    } else {
        assert(f4 + Seq::empty() =~= Seq::<u8>::empty());
    }
    assert(m3.with_field(4, m.data) =~= m);
}

/// One `bytes` field on the wire, spelled out: nothing when `v` is empty, else
/// the single key byte `key`, the payload's length as a varint and the payload.
pub open spec fn bytes_field_on_wire(key: u8, v: Seq<u8>) -> Seq<u8> {
    if v.len() == 0 {
        Seq::empty()
    } else {
        seq![key] + varint_bytes(v.len()) + v
    }
}

/// The encoding of a message puts `id` under field number 1 (key byte `0x0a`),
/// `from` under 2 (`0x12`), `to` under 3 (`0x1a`) and `data` under 4 (`0x22`),
/// in that order, leaving empty fields out; and those bytes decode back to the
/// message.
pub proof fn lemma_encode_layout(m: ZMessageView)
    requires
        m.id.len() <= u64::MAX,
        m.from.len() <= u64::MAX,
        m.to.len() <= u64::MAX,
        m.data.len() <= u64::MAX,
    ensures
        encode_view(m) == bytes_field_on_wire(0x0a, m.id) + bytes_field_on_wire(0x12, m.from)
            + bytes_field_on_wire(0x1a, m.to) + bytes_field_on_wire(0x22, m.data),
        decode_view(
            bytes_field_on_wire(0x0a, m.id) + bytes_field_on_wire(0x12, m.from) + bytes_field_on_wire(
                0x1a,
                m.to,
            ) + bytes_field_on_wire(0x22, m.data),
        ) == Some(m),
{
    assert(varint_bytes(10) == seq![10u8]);
    assert(varint_bytes(18) == seq![18u8]);
    assert(varint_bytes(26) == seq![26u8]);
    assert(varint_bytes(34) == seq![34u8]);
    assert(field_bytes(1, m.id) == bytes_field_on_wire(0x0a, m.id));
    assert(field_bytes(2, m.from) == bytes_field_on_wire(0x12, m.from));
    assert(field_bytes(3, m.to) == bytes_field_on_wire(0x1a, m.to));
    assert(field_bytes(4, m.data) == bytes_field_on_wire(0x22, m.data));
    lemma_decode_encode(m);
}

/// Reading an unknown field (number 5 or more) that the skipping rules accept
/// goes on with what follows it, leaving the message as it is.
proof fn lemma_skip_unknown(tag: u32, wire: u8, field: Seq<u8>, rest: Seq<u8>, m: ZMessageView)
    requires
        5 <= tag <= MAX_TAG,
        wire <= 5,
        skipped_field_len(wire, tag, field + rest) == Some(field.len()),
    ensures
        decode_fields(varint_bytes((tag * 8 + wire) as nat) + field + rest, m) == decode_fields(
            rest,
            m,
        ),
{
    let k = (tag * 8 + wire) as u64;
    let kb = varint_bytes(k as nat);
    let s = kb + field + rest;
    assert(s =~= kb + (field + rest));
    lemma_varint_roundtrip(k, field + rest);
    assert(k as nat / 8 == tag as nat);
    assert(k as nat % 8 == wire as nat);
    assert(key_at(s) == Some((tag as nat, wire as nat, kb.len())));
    let after_key = s.skip(kb.len() as int);
    assert(after_key =~= field + rest);
    assert(after_key.skip(field.len() as int) =~= rest);
}

/// An unknown field is skipped whatever its wire type: a varint (wire type 0),
/// eight bytes (1), a length-delimited payload (2) or four bytes (5) under a
/// field number of 5 or more leaves the decoding of what follows unchanged.
pub proof fn lemma_decode_skips_unknown(
    tag: u32,
    v: u64,
    payload: Seq<u8>,
    rest: Seq<u8>,
    m: ZMessageView,
)
    requires
        5 <= tag <= MAX_TAG,
        payload.len() <= u64::MAX,
    ensures
        decode_fields(varint_bytes((tag * 8) as nat) + varint_bytes(v as nat) + rest, m)
            == decode_fields(rest, m),
        payload.len() == 8 ==> decode_fields(
            varint_bytes((tag * 8 + 1) as nat) + payload + rest,
            m,
        ) == decode_fields(rest, m),
        decode_fields(
            varint_bytes((tag * 8 + 2) as nat) + (varint_bytes(payload.len()) + payload) + rest,
            m,
        ) == decode_fields(rest, m),
        payload.len() == 4 ==> decode_fields(
            varint_bytes((tag * 8 + 5) as nat) + payload + rest,
            m,
        ) == decode_fields(rest, m),
{
    // wire type 0
    let vb = varint_bytes(v as nat);
    lemma_varint_roundtrip(v, rest);
    assert(varint_len(vb + rest) == Some(vb.len()));
    lemma_skip_unknown(tag, 0, vb, rest, m);
    assert(varint_bytes((tag * 8 + 0) as nat) == varint_bytes((tag * 8) as nat));
    // wire types 1 and 5
    if payload.len() == 8 {
        lemma_skip_unknown(tag, 1, payload, rest, m);
    }
    if payload.len() == 4 {
        lemma_skip_unknown(tag, 5, payload, rest, m);
    }
    // wire type 2
    let lb = varint_bytes(payload.len());
    let field = lb + payload;
    assert(field + rest =~= lb + (payload + rest));
    lemma_varint_roundtrip(payload.len() as u64, payload + rest);
    assert(varint_at(field + rest) == Some((payload.len(), lb.len())));
    assert(skipped_field_len(2, tag, field + rest) == Some(field.len()));
    lemma_skip_unknown(tag, 2, field, rest, m);
}

/// Any unknown field that `prost` skips, groups included, leaves the decoding
/// of what follows unchanged.
pub proof fn lemma_decode_skips_any_unknown(
    tag: u32,
    wire: u8,
    field: Seq<u8>,
    rest: Seq<u8>,
    m: ZMessageView,
)
    requires
        5 <= tag <= MAX_TAG,
        wire <= 5,
        skipped_field_len(wire, tag, field + rest) == Some(field.len()),
    ensures
        decode_fields(varint_bytes((tag * 8 + wire) as nat) + field + rest, m) == decode_fields(
            rest,
            m,
        ),
{
    lemma_skip_unknown(tag, wire, field, rest, m);
}

} // verus!
