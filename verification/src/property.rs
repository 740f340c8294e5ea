//! The property model and its canonical byte encoding.
//!
//! A property's identity is a pure function of its exact byte content: the
//! canonical encoding below is length-prefixed and therefore injective, so
//! two properties map to the same identifier exactly when predicate and
//! inputs agree element-wise and in order.

use vstd::prelude::*;

verus! {

/// An opaque ledger identifier (an account or predicate reference).
#[derive(Clone, Copy, Debug, PartialEq, Eq, Structural)]
pub struct Address(pub u64);

/// A claim: a predicate address together with an ordered sequence of
/// byte-string inputs.  Witness data is never part of a property.
pub struct Property {
    pub predicate: Address,
    pub inputs: Vec<Vec<u8>>,
}

/// The mathematical model of a [`Property`].
#[verifier::ext_equal]
pub ghost struct PropertyModel {
    pub predicate: u64,
    pub inputs: Seq<Seq<u8>>,
}

impl View for Property {
    type V = PropertyModel;

    open spec fn view(&self) -> PropertyModel {
        PropertyModel { predicate: self.predicate.0, inputs: self.inputs.deep_view() }
    }
}

/// The eight little-endian bytes of a 64-bit word.
pub open spec fn u64_le_bytes(x: u64) -> Seq<u8> {
    seq![
        (x & 0xff) as u8,
        ((x >> 8) & 0xff) as u8,
        ((x >> 16) & 0xff) as u8,
        ((x >> 24) & 0xff) as u8,
        ((x >> 32) & 0xff) as u8,
        ((x >> 40) & 0xff) as u8,
        ((x >> 48) & 0xff) as u8,
        ((x >> 56) & 0xff) as u8,
    ]
}

/// The 64-bit word read back from eight little-endian bytes.
pub open spec fn u64_of_le(s: Seq<u8>) -> u64
    recommends
        s.len() == 8,
{
    ((s[0] as u64) | ((s[1] as u64) << 8) | ((s[2] as u64) << 16) | ((s[3] as u64) << 24)
        | ((s[4] as u64) << 32) | ((s[5] as u64) << 40) | ((s[6] as u64) << 48)
        | ((s[7] as u64) << 56)) as u64
}

pub proof fn lemma_u64_le_round_trip(x: u64)
    ensures
        u64_of_le(u64_le_bytes(x)) == x,
{
    let s = u64_le_bytes(x);
    assert(s[0] == (x & 0xff) as u8);
    assert(s[1] == ((x >> 8) & 0xff) as u8);
    assert(s[2] == ((x >> 16) & 0xff) as u8);
    assert(s[3] == ((x >> 24) & 0xff) as u8);
    assert(s[4] == ((x >> 32) & 0xff) as u8);
    assert(s[5] == ((x >> 40) & 0xff) as u8);
    assert(s[6] == ((x >> 48) & 0xff) as u8);
    assert(s[7] == ((x >> 56) & 0xff) as u8);
    assert((((x & 0xff) as u8 as u64) | ((((x >> 8) & 0xff) as u8 as u64) << 8)
        | ((((x >> 16) & 0xff) as u8 as u64) << 16) | ((((x >> 24) & 0xff) as u8 as u64) << 24)
        | ((((x >> 32) & 0xff) as u8 as u64) << 32) | ((((x >> 40) & 0xff) as u8 as u64) << 40)
        | ((((x >> 48) & 0xff) as u8 as u64) << 48) | ((((x >> 56) & 0xff) as u8 as u64) << 56))
        == x) by (bit_vector);
}

/// Canonical encoding of an input list: each input is prefixed with its
/// 64-bit little-endian length.
pub open spec fn spec_encode_inputs(inputs: Seq<Seq<u8>>) -> Seq<u8>
    decreases inputs.len(),
{
    if inputs.len() == 0 {
        Seq::empty()
    } else {
        u64_le_bytes(inputs[0].len() as u64) + inputs[0] + spec_encode_inputs(inputs.drop_first())
    }
}

/// Canonical encoding of a property: predicate address, input count, then
/// each input with its length prefix, all 64-bit little-endian.
pub open spec fn spec_encode(p: PropertyModel) -> Seq<u8> {
    u64_le_bytes(p.predicate) + u64_le_bytes(p.inputs.len() as u64) + spec_encode_inputs(p.inputs)
}

/// The encoding is injective only while every length fits in 64 bits; any
/// value built from in-memory vectors satisfies this.
pub open spec fn encodable(p: PropertyModel) -> bool {
    &&& p.inputs.len() <= u64::MAX
    &&& forall|i: int| 0 <= i < p.inputs.len() ==> (#[trigger] p.inputs[i]).len() <= u64::MAX
}

proof fn lemma_encode_inputs_push(inputs: Seq<Seq<u8>>, x: Seq<u8>)
    ensures
        spec_encode_inputs(inputs.push(x)) == spec_encode_inputs(inputs) + u64_le_bytes(
            x.len() as u64,
        ) + x,
    decreases inputs.len(),
{
    let pushed = inputs.push(x);
    assert(pushed.len() == inputs.len() + 1);
    assert(spec_encode_inputs(pushed) == u64_le_bytes(pushed[0].len() as u64) + pushed[0]
        + spec_encode_inputs(pushed.drop_first()));
    if inputs.len() == 0 {
        assert(pushed[0] == x);
        assert(pushed.drop_first() =~= Seq::<Seq<u8>>::empty());
        assert(spec_encode_inputs(pushed.drop_first()) == Seq::<u8>::empty());
        assert(spec_encode_inputs(inputs) == Seq::<u8>::empty());
        assert(spec_encode_inputs(pushed) =~= spec_encode_inputs(inputs) + u64_le_bytes(
            x.len() as u64,
        ) + x);
    } else {
        assert(pushed[0] == inputs[0]);
        assert(pushed.drop_first() =~= inputs.drop_first().push(x));
        lemma_encode_inputs_push(inputs.drop_first(), x);
        assert(spec_encode_inputs(inputs) == u64_le_bytes(inputs[0].len() as u64) + inputs[0]
            + spec_encode_inputs(inputs.drop_first()));
        assert(spec_encode_inputs(pushed) =~= spec_encode_inputs(inputs) + u64_le_bytes(
            x.len() as u64,
        ) + x);
    }
}

/// Parses back an input list of exactly `n` entries; `None` on any
/// malformed tail.  This is the ghost inverse of [`spec_encode_inputs`],
/// used to establish that the encoding is injective.
pub open spec fn spec_decode_inputs(s: Seq<u8>, n: nat) -> Option<Seq<Seq<u8>>>
    decreases n,
{
    if n == 0 {
        if s.len() == 0 {
            Some(Seq::empty())
        } else {
            None
        }
    } else if s.len() < 8 {
        None
    } else {
        let len = u64_of_le(s.take(8)) as int;
        if s.len() - 8 < len {
            None
        } else {
            let first = s.subrange(8, 8 + len);
            match spec_decode_inputs(s.skip(8 + len), (n - 1) as nat) {
                None => None,
                Some(rest) => Some(seq![first] + rest),
            }
        }
    }
}

/// Parses back a property from its canonical encoding.
pub open spec fn spec_decode(s: Seq<u8>) -> Option<PropertyModel> {
    if s.len() < 16 {
        None
    } else {
        let predicate = u64_of_le(s.take(8));
        let n = u64_of_le(s.subrange(8, 16));
        match spec_decode_inputs(s.skip(16), n as nat) {
            None => None,
            Some(inputs) => Some(PropertyModel { predicate, inputs }),
        }
    }
}

proof fn lemma_concat_parts(a: Seq<u8>, b: Seq<u8>, c: Seq<u8>)
    ensures
        (a + b + c).len() == a.len() + b.len() + c.len(),
        (a + b + c).take(a.len() as int) == a,
        (a + b + c).subrange(a.len() as int, (a.len() + b.len()) as int) == b,
        (a + b + c).skip((a.len() + b.len()) as int) == c,
{
    let e = a + b + c;
    assert(e.take(a.len() as int) =~= a);
    assert(e.subrange(a.len() as int, (a.len() + b.len()) as int) =~= b);
    assert(e.skip((a.len() + b.len()) as int) =~= c);
}

proof fn lemma_decode_inputs_round_trip(inputs: Seq<Seq<u8>>)
    requires
        forall|i: int| 0 <= i < inputs.len() ==> (#[trigger] inputs[i]).len() <= u64::MAX,
    ensures
        spec_decode_inputs(spec_encode_inputs(inputs), inputs.len()) == Some(inputs),
    decreases inputs.len(),
{
    let e = spec_encode_inputs(inputs);
    if inputs.len() == 0 {
        assert(e.len() == 0);
        assert(spec_decode_inputs(e, 0) == Some(Seq::<Seq<u8>>::empty()));
        assert(Seq::<Seq<u8>>::empty() =~= inputs);
    } else {
        let first = inputs[0];
        let rest = inputs.drop_first();
        let tail = spec_encode_inputs(rest);
        let prefix = u64_le_bytes(first.len() as u64);
        assert(e == prefix + first + tail);
        assert(prefix.len() == 8);
        lemma_concat_parts(prefix, first, tail);
        lemma_u64_le_round_trip(first.len() as u64);
        let len = u64_of_le(e.take(8)) as int;
        assert(len == first.len());
        assert(e.subrange(8, 8 + len) == first);
        assert(e.skip(8 + len) == tail);
        assert(forall|i: int| 0 <= i < rest.len() ==> (#[trigger] rest[i]).len() <= u64::MAX);
        lemma_decode_inputs_round_trip(rest);
        assert(spec_decode_inputs(tail, rest.len()) == Some(rest));
        assert(spec_decode_inputs(e, inputs.len()) == Some(seq![first] + rest));
        assert(seq![first] + rest =~= inputs);
        assert(spec_decode_inputs(e, inputs.len()) == Some(inputs));
    }
}

/// The canonical encoding round-trips through its ghost decoder.
pub proof fn lemma_encode_round_trip(p: PropertyModel)
    requires
        encodable(p),
    ensures
        spec_decode(spec_encode(p)) == Some(p),
{
    let e = spec_encode(p);
    let body = spec_encode_inputs(p.inputs);
    assert(e == u64_le_bytes(p.predicate) + u64_le_bytes(p.inputs.len() as u64) + body);
    lemma_concat_parts(u64_le_bytes(p.predicate), u64_le_bytes(p.inputs.len() as u64), body);
    assert(e.len() == 16 + body.len());
    assert(e.take(8) == u64_le_bytes(p.predicate));
    assert(e.subrange(8, 16) == u64_le_bytes(p.inputs.len() as u64));
    assert(e.skip(16) == body);
    lemma_u64_le_round_trip(p.predicate);
    lemma_u64_le_round_trip(p.inputs.len() as u64);
    lemma_decode_inputs_round_trip(p.inputs);
    assert(spec_decode(e) == Some(PropertyModel { predicate: p.predicate, inputs: p.inputs }));
    assert(PropertyModel { predicate: p.predicate, inputs: p.inputs } =~= p);
}

/// Law: property identity is injective.  Two properties have the same
/// canonical identifier exactly when their predicate addresses agree and
/// their input sequences agree element-wise and in order.
pub proof fn lemma_property_id_injective(p1: PropertyModel, p2: PropertyModel)
    requires
        encodable(p1),
        encodable(p2),
    ensures
        spec_encode(p1) == spec_encode(p2) <==> (p1.predicate == p2.predicate && p1.inputs
            =~~= p2.inputs),
{
    if spec_encode(p1) == spec_encode(p2) {
        lemma_encode_round_trip(p1);
        lemma_encode_round_trip(p2);
        assert(Some(p1) == Some(p2));
        assert(p1 == p2);
    }
    if p1.predicate == p2.predicate && p1.inputs =~~= p2.inputs {
        assert(p1 =~= p2);
    }
}

/// Appends the eight little-endian bytes of `x`.
fn push_u64_le(out: &mut Vec<u8>, x: u64)
    ensures
        final(out)@ == old(out)@ + u64_le_bytes(x),
{
    out.push((x & 0xff) as u8);
    out.push(((x >> 8) & 0xff) as u8);
    out.push(((x >> 16) & 0xff) as u8);
    out.push(((x >> 24) & 0xff) as u8);
    out.push(((x >> 32) & 0xff) as u8);
    out.push(((x >> 40) & 0xff) as u8);
    out.push(((x >> 48) & 0xff) as u8);
    out.push(((x >> 56) & 0xff) as u8);
    assert(out@ =~= old(out)@ + u64_le_bytes(x));
}

/// Appends a copy of `bytes`.
fn push_bytes(out: &mut Vec<u8>, bytes: &Vec<u8>)
    ensures
        final(out)@ == old(out)@ + bytes@,
{
    let mut i: usize = 0;
    while i < bytes.len()
        invariant
            i <= bytes.len(),
            out@ == old(out)@ + bytes@.take(i as int),
        decreases bytes.len() - i,
    {
        out.push(bytes[i]);
        assert(out@ =~= old(out)@ + bytes@.take(i + 1));
        i = i + 1;
    }
    assert(out@ =~= old(out)@ + bytes@);
}

/// Computes the canonical encoding of `p`; the result is the property's
/// identifier on the ledger.
pub fn encode_property(p: &Property) -> (r: Vec<u8>)
    ensures
        r@ == spec_encode(p@),
{
    let mut out: Vec<u8> = Vec::new();
    push_u64_le(&mut out, p.predicate.0);
    push_u64_le(&mut out, p.inputs.len() as u64);
    let ghost header = u64_le_bytes(p@.predicate) + u64_le_bytes(p@.inputs.len() as u64);
    assert(out@ =~= header + spec_encode_inputs(p@.inputs.take(0)));
    let mut i: usize = 0;
    while i < p.inputs.len()
        invariant
            i <= p.inputs.len(),
            p.inputs.deep_view().len() == p.inputs@.len(),
            out@ == header + spec_encode_inputs(p@.inputs.take(i as int)),
        decreases p.inputs.len() - i,
    {
        let input = &p.inputs[i];
        push_u64_le(&mut out, input.len() as u64);
        push_bytes(&mut out, input);
        proof {
            assert(p@.inputs.take(i + 1) =~= p@.inputs.take(i as int).push(p@.inputs[i as int]));
            lemma_encode_inputs_push(p@.inputs.take(i as int), p@.inputs[i as int]);
            assert(out@ =~= header + spec_encode_inputs(p@.inputs.take(i + 1)));
        }
        i = i + 1;
    }
    assert(p@.inputs.take(p.inputs.len() as int) =~= p@.inputs);
    out
}

/// Byte-wise equality of two buffers.
pub fn bytes_eq(a: &Vec<u8>, b: &Vec<u8>) -> (r: bool)
    ensures
        r == (a@ == b@),
{
    if a.len() != b.len() {
        return false;
    }
    let mut i: usize = 0;
    while i < a.len()
        invariant
            i <= a.len(),
            a@.len() == b@.len(),
            forall|j: int| 0 <= j < i ==> a@[j] == b@[j],
        decreases a.len() - i,
    {
        if a[i] != b[i] {
            return false;
        }
        i = i + 1;
    }
    assert(a@ =~= b@);
    true
}

/// A fresh copy of a byte buffer.
pub fn copy_bytes(v: &Vec<u8>) -> (r: Vec<u8>)
    ensures
        r@ == v@,
{
    let mut out: Vec<u8> = Vec::new();
    push_bytes(&mut out, v);
    assert(out@ =~= v@);
    out
}

} // verus!
