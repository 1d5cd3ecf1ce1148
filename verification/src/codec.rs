//! The invocation envelope, the invocation response, and their wire format.
//!
//! Envelopes cross host boundaries on the networked transport, so their
//! encoding must be stable: every field is length-prefixed (eight bytes,
//! little endian) and every message carries a leading schema tag. Encoding
//! and decoding are verified against the specification functions below, and
//! decoding an encoded value is proved to give the value back.

use vstd::prelude::*;
use vstd::string::*;
use vstd::utf8::{encode_utf8, decode_utf8, valid_utf8};
use crate::errors::{Error, ErrorKind};

verus! {

/// The schema tag of an encoded invocation.
pub const TAG_INVOCATION: u8 = 1;

/// The schema tag of an encoded invocation response.
pub const TAG_RESPONSE: u8 = 2;

/// The addressee of an invocation: an actor, or a capability provider under
/// a binding name.
#[derive(Clone, Debug)]
pub enum InvocationTarget {
    Actor(String),
    Capability { capid: String, binding: String },
}

/// The canonical invocation envelope carried on the bus.
#[derive(Clone, Debug)]
pub struct Invocation {
    /// The public key of the calling actor, or the reserved system origin.
    pub origin: String,
    /// The addressee.
    pub target: InvocationTarget,
    /// The name of the operation to perform.
    pub operation: String,
    /// The opaque payload.
    pub msg: Vec<u8>,
}

/// The reply to an invocation. Exactly one of the two fields carries
/// signal: a present `error` means the invocation failed at some layer.
#[derive(Clone, Debug)]
pub struct InvocationResponse {
    pub msg: Vec<u8>,
    pub error: Option<String>,
}

/// The mathematical content of an [`InvocationTarget`].
#[verifier::ext_equal]
pub ghost enum TargetView {
    Actor { pk: Seq<char> },
    Capability { capid: Seq<char>, binding: Seq<char> },
}

/// The mathematical content of an [`Invocation`].
#[verifier::ext_equal]
pub ghost struct InvocationView {
    pub origin: Seq<char>,
    pub target: TargetView,
    pub operation: Seq<char>,
    pub msg: Seq<u8>,
}

/// The mathematical content of an [`InvocationResponse`].
#[verifier::ext_equal]
pub ghost struct ResponseView {
    pub msg: Seq<u8>,
    pub error: Option<Seq<char>>,
}

impl View for InvocationTarget {
    type V = TargetView;

    open spec fn view(&self) -> TargetView {
        match self {
            InvocationTarget::Actor(pk) => TargetView::Actor { pk: pk@ },
            InvocationTarget::Capability { capid, binding } => TargetView::Capability {
                capid: capid@,
                binding: binding@,
            },
        }
    }
}

impl View for Invocation {
    type V = InvocationView;

    open spec fn view(&self) -> InvocationView {
        InvocationView {
            origin: self.origin@,
            target: self.target@,
            operation: self.operation@,
            msg: self.msg@,
        }
    }
}

impl View for InvocationResponse {
    type V = ResponseView;

    open spec fn view(&self) -> ResponseView {
        ResponseView {
            msg: self.msg@,
            error: match &self.error {
                Some(e) => Some(e@),
                None => None,
            },
        }
    }
}

impl Invocation {
    /// Builds an invocation envelope.
    pub fn new(origin: String, target: InvocationTarget, op: &str, msg: Vec<u8>) -> (r: Invocation)
        ensures
            r@.origin == origin@,
            r@.target == target@,
            r@.operation == op@,
            r@.msg == msg@,
    {
        Invocation { origin, target, operation: op.to_owned(), msg }
    }
}

impl InvocationResponse {
    /// A successful reply carrying `msg`.
    pub fn success(msg: Vec<u8>) -> (r: InvocationResponse)
        ensures
            r@.msg == msg@,
            r@.error is None,
    {
        InvocationResponse { msg, error: None }
    }

    /// A failed reply carrying the reason.
    pub fn error(reason: String) -> (r: InvocationResponse)
        ensures
            r@.msg == Seq::<u8>::empty(),
            r@.error == Some(reason@),
    {
        let r = InvocationResponse { msg: Vec::new(), error: Some(reason) };
        proof {
            assert(r@.msg =~= Seq::<u8>::empty());
        }
        r
    }
}

impl InvocationTarget {
    /// An exact copy of this target.
    pub fn duplicate(&self) -> (r: InvocationTarget)
        ensures
            r@ == self@,
    {
        match self {
            InvocationTarget::Actor(pk) => InvocationTarget::Actor(pk.clone()),
            InvocationTarget::Capability { capid, binding } => InvocationTarget::Capability {
                capid: capid.clone(),
                binding: binding.clone(),
            },
        }
    }
}

/// An exact copy of a byte vector.
pub fn copy_bytes(b: &Vec<u8>) -> (r: Vec<u8>)
    ensures
        r@ == b@,
{
    let mut out: Vec<u8> = Vec::new();
    push_all(&mut out, b.as_slice());
    proof {
        assert(out@ =~= b@);
    }
    out
}

impl Invocation {
    /// An exact copy of this envelope.
    pub fn duplicate(&self) -> (r: Invocation)
        ensures
            r@ == self@,
    {
        let r = Invocation {
            origin: self.origin.clone(),
            target: self.target.duplicate(),
            operation: self.operation.clone(),
            msg: copy_bytes(&self.msg),
        };
        proof {
            assert(r@ =~= self@);
        }
        r
    }
}

impl InvocationResponse {
    /// An exact copy of this response.
    pub fn duplicate(&self) -> (r: InvocationResponse)
        ensures
            r@ == self@,
    {
        let r = InvocationResponse {
            msg: copy_bytes(&self.msg),
            error: match &self.error {
                Some(e) => Some(e.clone()),
                None => None,
            },
        };
        proof {
            assert(r@ =~= self@);
        }
        r
    }
}

/// The eight little-endian bytes of `x`.
pub open spec fn spec_u64_bytes(x: u64) -> Seq<u8> {
    seq![
        (x & 0xff) as u8,
        ((x >> 8) & 0xff) as u8,
        ((x >> 16) & 0xff) as u8,
        ((x >> 24) & 0xff) as u8,
        ((x >> 32) & 0xff) as u8,
        ((x >> 40) & 0xff) as u8,
        ((x >> 48) & 0xff) as u8,
        ((x >> 56) & 0xff) as u8,
    ]
}

/// The value of the eight little-endian bytes of `s` starting at `i`.
pub open spec fn spec_u64_of(s: Seq<u8>, i: int) -> u64
    recommends
        0 <= i,
        i + 8 <= s.len(),
{
    ((s[i] as u64) | ((s[i + 1] as u64) << 8) | ((s[i + 2] as u64) << 16) | ((s[i + 3] as u64)
        << 24) | ((s[i + 4] as u64) << 32) | ((s[i + 5] as u64) << 40) | ((s[i + 6] as u64) << 48)
        | ((s[i + 7] as u64) << 56)) as u64
}

/// Reading back the little-endian bytes of `x` yields `x`.
pub proof fn lemma_u64_le_roundtrip(s: Seq<u8>, i: int, x: u64)
    requires
        0 <= i,
        i + 8 <= s.len(),
        s.subrange(i, i + 8) =~= spec_u64_bytes(x),
    ensures
        spec_u64_of(s, i) == x,
{
    let b0 = (x & 0xff) as u8;
    let b1 = ((x >> 8) & 0xff) as u8;
    let b2 = ((x >> 16) & 0xff) as u8;
    let b3 = ((x >> 24) & 0xff) as u8;
    let b4 = ((x >> 32) & 0xff) as u8;
    let b5 = ((x >> 40) & 0xff) as u8;
    let b6 = ((x >> 48) & 0xff) as u8;
    let b7 = ((x >> 56) & 0xff) as u8;
    assert(s[i] == s.subrange(i, i + 8)[0]);
    assert(s[i + 1] == s.subrange(i, i + 8)[1]);
    assert(s[i + 2] == s.subrange(i, i + 8)[2]);
    assert(s[i + 3] == s.subrange(i, i + 8)[3]);
    assert(s[i + 4] == s.subrange(i, i + 8)[4]);
    assert(s[i + 5] == s.subrange(i, i + 8)[5]);
    assert(s[i + 6] == s.subrange(i, i + 8)[6]);
    assert(s[i + 7] == s.subrange(i, i + 8)[7]);
    assert(((b0 as u64) | ((b1 as u64) << 8) | ((b2 as u64) << 16) | ((b3 as u64) << 24) | ((
    b4 as u64) << 32) | ((b5 as u64) << 40) | ((b6 as u64) << 48) | ((b7 as u64) << 56)) as u64
        == x) by (bit_vector)
        requires
            b0 == (x & 0xff) as u8,
            b1 == ((x >> 8) & 0xff) as u8,
            b2 == ((x >> 16) & 0xff) as u8,
            b3 == ((x >> 24) & 0xff) as u8,
            b4 == ((x >> 32) & 0xff) as u8,
            b5 == ((x >> 40) & 0xff) as u8,
            b6 == ((x >> 48) & 0xff) as u8,
            b7 == ((x >> 56) & 0xff) as u8,
    ;
}

/// A length-prefixed chunk of bytes.
pub open spec fn spec_enc_chunk(b: Seq<u8>) -> Seq<u8> {
    spec_u64_bytes(b.len() as u64) + b
}

/// A length-prefixed string: the UTF-8 bytes of its characters.
pub open spec fn spec_enc_str(s: Seq<char>) -> Seq<u8> {
    spec_enc_chunk(encode_utf8(s))
}

/// An encoded target: a tag and the identifying strings.
pub open spec fn spec_enc_target(t: TargetView) -> Seq<u8> {
    match t {
        TargetView::Actor { pk } => seq![0u8] + spec_enc_str(pk),
        TargetView::Capability { capid, binding } => seq![1u8] + spec_enc_str(capid)
            + spec_enc_str(binding),
    }
}

/// An encoded invocation envelope.
pub open spec fn spec_enc_invocation(v: InvocationView) -> Seq<u8> {
    seq![TAG_INVOCATION] + spec_enc_str(v.origin) + spec_enc_target(v.target) + spec_enc_str(
        v.operation,
    ) + spec_enc_chunk(v.msg)
}

/// An encoded invocation response.
pub open spec fn spec_enc_response(v: ResponseView) -> Seq<u8> {
    seq![TAG_RESPONSE] + spec_enc_chunk(v.msg) + match v.error {
        None => seq![0u8],
        Some(e) => seq![1u8] + spec_enc_str(e),
    }
}

/// Decodes eight little-endian bytes at `i`; yields the value and the next
/// position.
pub open spec fn spec_dec_u64_at(s: Seq<u8>, i: int) -> Option<(u64, int)> {
    if 0 <= i && i + 8 <= s.len() {
        Some((spec_u64_of(s, i), i + 8))
    } else {
        None
    }
}

/// Decodes a length-prefixed chunk at `i`.
pub open spec fn spec_dec_chunk_at(s: Seq<u8>, i: int) -> Option<(Seq<u8>, int)> {
    match spec_dec_u64_at(s, i) {
        None => None,
        Some((n, j)) => if j + n <= s.len() {
            Some((s.subrange(j, j + n), j + n))
        } else {
            None
        },
    }
}

/// Decodes a length-prefixed string at `i`; fails on bytes that are not
/// valid UTF-8.
pub open spec fn spec_dec_str_at(s: Seq<u8>, i: int) -> Option<(Seq<char>, int)> {
    match spec_dec_chunk_at(s, i) {
        None => None,
        Some((b, j)) => if valid_utf8(b) {
            Some((decode_utf8(b), j))
        } else {
            None
        },
    }
}

/// Decodes a target at `i`.
pub open spec fn spec_dec_target_at(s: Seq<u8>, i: int) -> Option<(TargetView, int)> {
    if 0 <= i && i < s.len() {
        if s[i] == 0u8 {
            match spec_dec_str_at(s, i + 1) {
                None => None,
                Some((pk, j)) => Some((TargetView::Actor { pk }, j)),
            }
        } else if s[i] == 1u8 {
            match spec_dec_str_at(s, i + 1) {
                None => None,
                Some((capid, j)) => match spec_dec_str_at(s, j) {
                    None => None,
                    Some((binding, k)) => Some((TargetView::Capability { capid, binding }, k)),
                },
            }
        } else {
            None
        }
    } else {
        None
    }
}

/// Decodes a whole invocation envelope; the bytes must be consumed exactly.
pub open spec fn spec_dec_invocation(s: Seq<u8>) -> Option<InvocationView> {
    if s.len() > 0 && s[0] == TAG_INVOCATION {
        match spec_dec_str_at(s, 1) {
            None => None,
            Some((origin, i)) => match spec_dec_target_at(s, i) {
                None => None,
                Some((target, j)) => match spec_dec_str_at(s, j) {
                    None => None,
                    Some((operation, k)) => match spec_dec_chunk_at(s, k) {
                        None => None,
                        Some((msg, m)) => if m == s.len() {
                            Some(InvocationView { origin, target, operation, msg })
                        } else {
                            None
                        },
                    },
                },
            },
        }
    } else {
        None
    }
}

/// Decodes a whole invocation response; the bytes must be consumed exactly.
pub open spec fn spec_dec_response(s: Seq<u8>) -> Option<ResponseView> {
    if s.len() > 0 && s[0] == TAG_RESPONSE {
        match spec_dec_chunk_at(s, 1) {
            None => None,
            Some((msg, i)) => if i < s.len() {
                if s[i] == 0u8 {
                    if i + 1 == s.len() {
                        Some(ResponseView { msg, error: None })
                    } else {
                        None
                    }
                } else if s[i] == 1u8 {
                    match spec_dec_str_at(s, i + 1) {
                        None => None,
                        Some((e, j)) => if j == s.len() {
                            Some(ResponseView { msg, error: Some(e) })
                        } else {
                            None
                        },
                    }
                } else {
                    None
                }
            } else {
                None
            },
        }
    } else {
        None
    }
}

/// Decoding a chunk out of a stream that carries its encoding at `i` yields
/// the chunk itself.
pub proof fn lemma_dec_chunk_at(s: Seq<u8>, i: int, b: Seq<u8>)
    requires
        0 <= i,
        b.len() < 0x1_0000_0000_0000_0000,
        i + 8 + b.len() <= s.len(),
        s.subrange(i, i + 8 + b.len()) =~= spec_enc_chunk(b),
    ensures
        spec_dec_chunk_at(s, i) == Some((b, i + 8 + b.len())),
{
    let n = b.len() as u64;
    assert(s.subrange(i, i + 8) =~= spec_u64_bytes(n)) by {
        assert forall|k: int| 0 <= k < 8 implies s.subrange(i, i + 8)[k] == spec_u64_bytes(n)[k] by {
            assert(s.subrange(i, i + 8)[k] == s.subrange(i, i + 8 + b.len() as int)[k]);
        }
    }
    lemma_u64_le_roundtrip(s, i, n);
    assert(s.subrange(i + 8, i + 8 + b.len() as int) =~= b) by {
        assert forall|k: int| 0 <= k < b.len() implies s.subrange(i + 8, i + 8 + b.len() as int)[k]
            == b[k] by {
            assert(s.subrange(i, i + 8 + b.len() as int)[k + 8] == b[k]);
        }
    }
}

/// Decoding a string out of a stream that carries its encoding at `i`
/// yields the characters themselves.
pub proof fn lemma_dec_str_at(s: Seq<u8>, i: int, t: Seq<char>)
    requires
        0 <= i,
        encode_utf8(t).len() < 0x1_0000_0000_0000_0000,
        i + 8 + encode_utf8(t).len() <= s.len(),
        s.subrange(i, i + 8 + encode_utf8(t).len()) =~= spec_enc_str(t),
    ensures
        spec_dec_str_at(s, i) == Some((t, i + 8 + encode_utf8(t).len())),
{
    lemma_dec_chunk_at(s, i, encode_utf8(t));
    vstd::utf8::encode_utf8_valid_utf8(t);
    vstd::utf8::encode_utf8_decode_utf8(t);
}

/// The sizes of an invocation's fields fit the wire format's length
/// prefixes. Every envelope built from executable values satisfies this.
pub open spec fn spec_invocation_sizes_ok(v: InvocationView) -> bool {
    &&& encode_utf8(v.origin).len() < 0x1_0000_0000_0000_0000
    &&& encode_utf8(v.operation).len() < 0x1_0000_0000_0000_0000
    &&& v.msg.len() < 0x1_0000_0000_0000_0000
    &&& match v.target {
        TargetView::Actor { pk } => encode_utf8(pk).len() < 0x1_0000_0000_0000_0000,
        TargetView::Capability { capid, binding } => encode_utf8(capid).len()
            < 0x1_0000_0000_0000_0000 && encode_utf8(binding).len() < 0x1_0000_0000_0000_0000,
    }
}

/// The sizes of a response's fields fit the wire format's length prefixes.
pub open spec fn spec_response_sizes_ok(v: ResponseView) -> bool {
    &&& v.msg.len() < 0x1_0000_0000_0000_0000
    &&& match v.error {
        None => true,
        Some(e) => encode_utf8(e).len() < 0x1_0000_0000_0000_0000,
    }
}

/// Decoding a target out of a stream that carries its encoding at `i`
/// yields the target itself.
pub proof fn lemma_dec_target_at(s: Seq<u8>, i: int, t: TargetView)
    requires
        0 <= i,
        i + spec_enc_target(t).len() <= s.len(),
        s.subrange(i, i + spec_enc_target(t).len()) =~= spec_enc_target(t),
        match t {
            TargetView::Actor { pk } => encode_utf8(pk).len() < 0x1_0000_0000_0000_0000,
            TargetView::Capability { capid, binding } => encode_utf8(capid).len()
                < 0x1_0000_0000_0000_0000 && encode_utf8(binding).len() < 0x1_0000_0000_0000_0000,
        },
    ensures
        spec_dec_target_at(s, i) == Some((t, i + spec_enc_target(t).len())),
{
    let enc = spec_enc_target(t);
    match t {
        TargetView::Actor { pk } => {
            assert(s[i] == enc[0]);
            let a = spec_enc_str(pk);
            assert(s.subrange(i + 1, i + 1 + a.len() as int) =~= a) by {
                assert forall|k: int|
                    0 <= k < a.len() implies s.subrange(i + 1, i + 1 + a.len() as int)[k]
                    == a[k] by {
                    assert(s.subrange(i, i + enc.len() as int)[k + 1] == enc[k + 1]);
                }
            }
            lemma_dec_str_at(s, i + 1, pk);
        },
        TargetView::Capability { capid, binding } => {
            assert(s[i] == enc[0]);
            let a = spec_enc_str(capid);
            let b = spec_enc_str(binding);
            assert(s.subrange(i + 1, i + 1 + a.len() as int) =~= a) by {
                assert forall|k: int|
                    0 <= k < a.len() implies s.subrange(i + 1, i + 1 + a.len() as int)[k]
                    == a[k] by {
                    assert(s.subrange(i, i + enc.len() as int)[k + 1] == enc[k + 1]);
                }
            }
            lemma_dec_str_at(s, i + 1, capid);
            let j = i + 1 + a.len() as int;
            assert(s.subrange(j, j + b.len() as int) =~= b) by {
                assert forall|k: int|
                    0 <= k < b.len() implies s.subrange(j, j + b.len() as int)[k] == b[k] by {
                    assert(s.subrange(i, i + enc.len() as int)[k + 1 + a.len()] == enc[k + 1
                        + a.len()]);
                }
            }
            lemma_dec_str_at(s, j, binding);
        },
    }
}

/// Decoding an encoded invocation envelope yields the envelope itself:
/// the wire format loses nothing.
#[verifier::rlimit(60)]
pub proof fn lemma_invocation_roundtrip(v: InvocationView)
    requires
        spec_invocation_sizes_ok(v),
    ensures
        spec_dec_invocation(spec_enc_invocation(v)) == Some(v),
{
    let s = spec_enc_invocation(v);
    let a = spec_enc_str(v.origin);
    let t = spec_enc_target(v.target);
    let c = spec_enc_str(v.operation);
    let d = spec_enc_chunk(v.msg);
    assert(s =~= seq![TAG_INVOCATION] + a + t + c + d);
    assert(s[0] == TAG_INVOCATION);
    let i2 = 1 + a.len() as int;
    let i3 = i2 + t.len() as int;
    let i4 = i3 + c.len() as int;
    let i5 = i4 + d.len() as int;
    assert(s.subrange(1, i2) =~= a);
    lemma_dec_str_at(s, 1, v.origin);
    assert(s.subrange(i2, i3) =~= t);
    lemma_dec_target_at(s, i2, v.target);
    assert(s.subrange(i3, i4) =~= c);
    lemma_dec_str_at(s, i3, v.operation);
    assert(s.subrange(i4, i5) =~= d);
    lemma_dec_chunk_at(s, i4, v.msg);
    assert(i5 == s.len());
    assert(spec_dec_invocation(s) == Some(v));
}

/// Decoding an encoded invocation response yields the response itself.
pub proof fn lemma_response_roundtrip(v: ResponseView)
    requires
        spec_response_sizes_ok(v),
    ensures
        spec_dec_response(spec_enc_response(v)) == Some(v),
{
    let s = spec_enc_response(v);
    let d = spec_enc_chunk(v.msg);
    match v.error {
        None => {
            assert(s =~= seq![TAG_RESPONSE] + d + seq![0u8]);
            assert(s[0] == TAG_RESPONSE);
            let i2 = 1 + d.len() as int;
            assert(s.subrange(1, i2) =~= d);
            lemma_dec_chunk_at(s, 1, v.msg);
            assert(s[i2] == 0u8);
            assert(i2 + 1 == s.len());
        },
        Some(e) => {
            let b = spec_enc_str(e);
            assert(s =~= seq![TAG_RESPONSE] + d + seq![1u8] + b);
            assert(s[0] == TAG_RESPONSE);
            let i2 = 1 + d.len() as int;
            assert(s.subrange(1, i2) =~= d);
            lemma_dec_chunk_at(s, 1, v.msg);
            assert(s[i2] == 1u8);
            let i3 = i2 + 1 + b.len() as int;
            assert(s.subrange(i2 + 1, i3) =~= b);
            lemma_dec_str_at(s, i2 + 1, e);
            assert(i3 == s.len());
        },
    }
}

/// The views of a list of string pairs.
pub open spec fn spec_pairs_view(s: Seq<(String, String)>) -> Seq<(Seq<char>, Seq<char>)> {
    s.map_values(|p: (String, String)| (p.0@, p.1@))
}

/// The encoding of a list of string pairs, first to last.
pub open spec fn spec_enc_pairs(vs: Seq<(Seq<char>, Seq<char>)>) -> Seq<u8>
    decreases vs.len(),
{
    if vs.len() == 0 {
        Seq::<u8>::empty()
    } else {
        spec_enc_str(vs[0].0) + spec_enc_str(vs[0].1) + spec_enc_pairs(vs.drop_first())
    }
}

/// Appending a pair to the list appends its encoding to the bytes.
pub proof fn lemma_enc_pairs_push(vs: Seq<(Seq<char>, Seq<char>)>, p: (Seq<char>, Seq<char>))
    ensures
        spec_enc_pairs(vs.push(p)) =~= spec_enc_pairs(vs) + spec_enc_str(p.0) + spec_enc_str(p.1),
    decreases vs.len(),
{
    if vs.len() == 0 {
        assert(vs.push(p)[0] == p);
        assert(vs.push(p).drop_first() =~= Seq::<(Seq<char>, Seq<char>)>::empty());
        assert(spec_enc_pairs(vs.push(p).drop_first()) =~= Seq::<u8>::empty());
        assert(spec_enc_pairs(vs) =~= Seq::<u8>::empty());
    } else {
        assert(vs.push(p)[0] == vs[0]);
        assert(vs.push(p).drop_first() =~= vs.drop_first().push(p));
        lemma_enc_pairs_push(vs.drop_first(), p);
        assert(spec_enc_pairs(vs.push(p)) =~= spec_enc_str(vs[0].0) + spec_enc_str(vs[0].1) + (
        spec_enc_pairs(vs.drop_first()) + spec_enc_str(p.0) + spec_enc_str(p.1)));
    }
}

/// The configuration payload a binding carries: the actor's public key and
/// the configuration values.
pub open spec fn spec_enc_config(module: Seq<char>, values: Seq<(Seq<char>, Seq<char>)>) -> Seq<
    u8,
> {
    spec_enc_str(module) + spec_u64_bytes(values.len() as u64) + spec_enc_pairs(values)
}

/// Encodes the configuration payload of a binding.
pub fn serialize_capability_configuration(module: &str, values: &Vec<(String, String)>) -> (r: Vec<
    u8,
>)
    ensures
        r@ == spec_enc_config(module@, spec_pairs_view(values@)),
{
    let mut out: Vec<u8> = Vec::new();
    put_str(&mut out, module);
    put_u64(&mut out, values.len() as u64);
    let ghost prefix = out@;
    let mut i: usize = 0;
    while i < values.len()
        invariant
            i <= values@.len(),
            prefix =~= spec_enc_str(module@) + spec_u64_bytes(values@.len() as u64),
            out@ =~= prefix + spec_enc_pairs(spec_pairs_view(values@.take(i as int))),
        decreases values@.len() - i,
    {
        put_str(&mut out, values[i].0.as_str());
        put_str(&mut out, values[i].1.as_str());
        proof {
            let pv = spec_pairs_view(values@.take(i as int));
            let p = (values@[i as int].0@, values@[i as int].1@);
            lemma_enc_pairs_push(pv, p);
            assert(spec_pairs_view(values@.take(i + 1)) =~= pv.push(p));
        }
        i = i + 1;
    }
    proof {
        assert(values@.take(values@.len() as int) =~= values@);
    }
    out
}

/// Appends every byte of `sl` to `out`.
pub(crate) fn push_all(out: &mut Vec<u8>, sl: &[u8])
    ensures
        final(out)@ =~= old(out)@ + sl@,
{
    let mut k: usize = 0;
    while k < sl.len()
        invariant
            k <= sl@.len(),
            out@ =~= old(out)@ + sl@.take(k as int),
        decreases sl@.len() - k,
    {
        out.push(*vstd::slice::slice_index_get(sl, k));
        proof {
            assert(out@ =~= old(out)@ + sl@.take(k + 1 as int));
        }
        k = k + 1;
    }
    proof {
        assert(sl@.take(sl@.len() as int) =~= sl@);
    }
}

/// Appends the eight little-endian bytes of `x` to `out`.
fn put_u64(out: &mut Vec<u8>, x: u64)
    ensures
        final(out)@ =~= old(out)@ + spec_u64_bytes(x),
{
    out.push((x & 0xff) as u8);
    out.push(((x >> 8) & 0xff) as u8);
    out.push(((x >> 16) & 0xff) as u8);
    out.push(((x >> 24) & 0xff) as u8);
    out.push(((x >> 32) & 0xff) as u8);
    out.push(((x >> 40) & 0xff) as u8);
    out.push(((x >> 48) & 0xff) as u8);
    out.push(((x >> 56) & 0xff) as u8);
}

/// Appends a length-prefixed chunk to `out`.
fn put_chunk(out: &mut Vec<u8>, b: &Vec<u8>)
    ensures
        final(out)@ =~= old(out)@ + spec_enc_chunk(b@),
{
    put_u64(out, b.len() as u64);
    push_all(out, b.as_slice());
}

/// Appends a length-prefixed string to `out`.
fn put_str(out: &mut Vec<u8>, s: &str)
    ensures
        final(out)@ =~= old(out)@ + spec_enc_str(s@),
{
    let sb = s.as_bytes();
    put_u64(out, sb.len() as u64);
    push_all(out, sb);
}

/// Encodes an invocation envelope for the wire.
pub fn serialize_invocation(inv: &Invocation) -> (r: Vec<u8>)
    ensures
        r@ == spec_enc_invocation(inv@),
{
    let mut out: Vec<u8> = Vec::new();
    out.push(TAG_INVOCATION);
    put_str(&mut out, inv.origin.as_str());
    match &inv.target {
        InvocationTarget::Actor(pk) => {
            out.push(0u8);
            put_str(&mut out, pk.as_str());
        },
        InvocationTarget::Capability { capid, binding } => {
            out.push(1u8);
            put_str(&mut out, capid.as_str());
            put_str(&mut out, binding.as_str());
        },
    }
    put_str(&mut out, inv.operation.as_str());
    put_chunk(&mut out, &inv.msg);
    proof {
        assert(out@ =~= spec_enc_invocation(inv@));
    }
    out
}

/// Encodes an invocation response for the wire.
pub fn serialize_response(resp: &InvocationResponse) -> (r: Vec<u8>)
    ensures
        r@ == spec_enc_response(resp@),
{
    let mut out: Vec<u8> = Vec::new();
    out.push(TAG_RESPONSE);
    put_chunk(&mut out, &resp.msg);
    match &resp.error {
        None => {
            out.push(0u8);
        },
        Some(e) => {
            out.push(1u8);
            put_str(&mut out, e.as_str());
        },
    }
    proof {
        assert(out@ =~= spec_enc_response(resp@));
    }
    out
}

/// Relies on `String::from_utf8`: it succeeds exactly on valid UTF-8 input
/// and the returned string holds exactly the given bytes.
#[verifier::external_body]
fn string_from_utf8(v: Vec<u8>) -> (r: Option<String>)
    ensures
        r is Some <==> valid_utf8(v@),
        r matches Some(s) ==> encode_utf8(s@) == v@,
{
    String::from_utf8(v).ok()
}

/// Reads eight little-endian bytes at `*pos`, advancing `*pos` on success.
fn read_u64(bytes: &Vec<u8>, pos: &mut usize) -> (r: Option<u64>)
    requires
        *old(pos) <= bytes@.len(),
    ensures
        *final(pos) <= bytes@.len(),
        match spec_dec_u64_at(bytes@, *old(pos) as int) {
            Some(vj) => r == Some(vj.0) && *final(pos) as int == vj.1,
            None => r is None && *final(pos) == *old(pos),
        },
{
    if bytes.len() - *pos >= 8 {
        let p = *pos;
        let v = (bytes[p] as u64) | ((bytes[p + 1] as u64) << 8) | ((bytes[p + 2] as u64) << 16) | (
        (bytes[p + 3] as u64) << 24) | ((bytes[p + 4] as u64) << 32) | ((bytes[p + 5] as u64)
            << 40) | ((bytes[p + 6] as u64) << 48) | ((bytes[p + 7] as u64) << 56);
        *pos = p + 8;
        Some(v)
    } else {
        None
    }
}

/// Reads a length-prefixed chunk at `*pos`, advancing `*pos` on success and
/// restoring it on failure.
fn read_chunk(bytes: &Vec<u8>, pos: &mut usize) -> (r: Option<Vec<u8>>)
    requires
        *old(pos) <= bytes@.len(),
    ensures
        *final(pos) <= bytes@.len(),
        match spec_dec_chunk_at(bytes@, *old(pos) as int) {
            Some(bj) => r matches Some(v) && v@ == bj.0 && *final(pos) as int == bj.1,
            None => r is None && *final(pos) == *old(pos),
        },
{
    let start = *pos;
    let n = match read_u64(bytes, pos) {
        Some(n) => n,
        None => {
            return None;
        },
    };
    if n > (bytes.len() - *pos) as u64 {
        *pos = start;
        return None;
    }
    let ln = n as usize;
    let mut out: Vec<u8> = Vec::new();
    let mut k: usize = 0;
    while k < ln
        invariant
            k <= ln,
            *pos + ln <= bytes@.len(),
            bytes@.len() <= usize::MAX,
            out@ =~= bytes@.subrange(*pos as int, *pos + k as int),
        decreases ln - k,
    {
        out.push(bytes[*pos + k]);
        proof {
            assert(out@ =~= bytes@.subrange(*pos as int, *pos + (k + 1) as int));
        }
        k = k + 1;
    }
    *pos = *pos + ln;
    Some(out)
}

/// Reads a length-prefixed string at `*pos`, advancing `*pos` on success
/// and restoring it on failure.
fn read_string(bytes: &Vec<u8>, pos: &mut usize) -> (r: Option<String>)
    requires
        *old(pos) <= bytes@.len(),
    ensures
        *final(pos) <= bytes@.len(),
        match spec_dec_str_at(bytes@, *old(pos) as int) {
            Some(sj) => r matches Some(s) && s@ == sj.0 && *final(pos) as int == sj.1,
            None => r is None && *final(pos) == *old(pos),
        },
{
    let start = *pos;
    let chunk = match read_chunk(bytes, pos) {
        Some(c) => c,
        None => {
            return None;
        },
    };
    let ghost chunk_view = chunk@;
    match string_from_utf8(chunk) {
        Some(s) => {
            proof {
                vstd::utf8::encode_utf8_decode_utf8(s@);
            }
            Some(s)
        },
        None => {
            *pos = start;
            None
        },
    }
}

/// Reads an encoded target at `*pos`, advancing `*pos` on success and
/// restoring it on failure.
fn read_target(bytes: &Vec<u8>, pos: &mut usize) -> (r: Option<InvocationTarget>)
    requires
        *old(pos) <= bytes@.len(),
    ensures
        *final(pos) <= bytes@.len(),
        match spec_dec_target_at(bytes@, *old(pos) as int) {
            Some(tj) => r matches Some(t) && t@ == tj.0 && *final(pos) as int == tj.1,
            None => r is None && *final(pos) == *old(pos),
        },
{
    let start = *pos;
    if *pos >= bytes.len() {
        return None;
    }
    let tag = bytes[*pos];
    *pos = *pos + 1;
    if tag == 0u8 {
        match read_string(bytes, pos) {
            Some(pk) => Some(InvocationTarget::Actor(pk)),
            None => {
                *pos = start;
                None
            },
        }
    } else if tag == 1u8 {
        let capid = match read_string(bytes, pos) {
            Some(c) => c,
            None => {
                *pos = start;
                return None;
            },
        };
        match read_string(bytes, pos) {
            Some(binding) => Some(InvocationTarget::Capability { capid, binding }),
            None => {
                *pos = start;
                None
            },
        }
    } else {
        *pos = start;
        None
    }
}

/// Decodes an invocation envelope from the wire. Succeeds exactly on the
/// byte strings that encode an envelope; anything else is a serialization
/// error.
pub fn deserialize_invocation(bytes: &Vec<u8>) -> (r: Result<Invocation, Error>)
    ensures
        match spec_dec_invocation(bytes@) {
            Some(iv) => r matches Ok(v) && v@ == iv,
            None => r matches Err(e) && e.kind == ErrorKind::Serialization,
        },
{
    let mut pos: usize = 0;
    if bytes.len() == 0 || bytes[0] != TAG_INVOCATION {
        return Err(
            Error::new(ErrorKind::Serialization, String::from_str("malformed invocation")),
        );
    }
    pos = 1;
    let origin = match read_string(bytes, &mut pos) {
        Some(s) => s,
        None => {
            return Err(
                Error::new(ErrorKind::Serialization, String::from_str("malformed invocation")),
            );
        },
    };
    let target = match read_target(bytes, &mut pos) {
        Some(t) => t,
        None => {
            return Err(
                Error::new(ErrorKind::Serialization, String::from_str("malformed invocation")),
            );
        },
    };
    let operation = match read_string(bytes, &mut pos) {
        Some(s) => s,
        None => {
            return Err(
                Error::new(ErrorKind::Serialization, String::from_str("malformed invocation")),
            );
        },
    };
    let msg = match read_chunk(bytes, &mut pos) {
        Some(m) => m,
        None => {
            return Err(
                Error::new(ErrorKind::Serialization, String::from_str("malformed invocation")),
            );
        },
    };
    if pos != bytes.len() {
        return Err(
            Error::new(ErrorKind::Serialization, String::from_str("malformed invocation")),
        );
    }
    Ok(Invocation { origin, target, operation, msg })
}

/// Decodes an invocation response from the wire. Succeeds exactly on the
/// byte strings that encode a response; anything else is a serialization
/// error.
pub fn deserialize_response(bytes: &Vec<u8>) -> (r: Result<InvocationResponse, Error>)
    ensures
        match spec_dec_response(bytes@) {
            Some(rv) => r matches Ok(v) && v@ == rv,
            None => r matches Err(e) && e.kind == ErrorKind::Serialization,
        },
{
    let mut pos: usize = 0;
    if bytes.len() == 0 || bytes[0] != TAG_RESPONSE {
        return Err(Error::new(ErrorKind::Serialization, String::from_str("malformed response")));
    }
    pos = 1;
    let msg = match read_chunk(bytes, &mut pos) {
        Some(m) => m,
        None => {
            return Err(
                Error::new(ErrorKind::Serialization, String::from_str("malformed response")),
            );
        },
    };
    if pos >= bytes.len() {
        return Err(Error::new(ErrorKind::Serialization, String::from_str("malformed response")));
    }
    let tag = bytes[pos];
    pos = pos + 1;
    if tag == 0u8 {
        if pos != bytes.len() {
            return Err(
                Error::new(ErrorKind::Serialization, String::from_str("malformed response")),
            );
        }
        Ok(InvocationResponse { msg, error: None })
    } else if tag == 1u8 {
        let e = match read_string(bytes, &mut pos) {
            Some(s) => s,
            None => {
                return Err(
                    Error::new(ErrorKind::Serialization, String::from_str("malformed response")),
                );
            },
        };
        if pos != bytes.len() {
            return Err(
                Error::new(ErrorKind::Serialization, String::from_str("malformed response")),
            );
        }
        Ok(InvocationResponse { msg, error: Some(e) })
    } else {
        Err(Error::new(ErrorKind::Serialization, String::from_str("malformed response")))
    }
}

} // verus!
