//! Values of a fixed byte width: identifiers, keys, signatures.
//!
//! Such a value is written as its bytes, with no length in front.

use crate::compact::{DeserializeCompact, SerializeCompact, WireFormat};
use crate::context::SerializationContext;
use crate::error::ProtocolError;
use vstd::prelude::*;

verus! {

/// Number of bytes of a block identifier.
pub const BLOCK_ID_SIZE_BYTES: usize = 32;

/// Number of bytes of an operation identifier.
pub const OPERATION_ID_SIZE_BYTES: usize = 32;

/// Number of bytes of a public key.
pub const PUBLIC_KEY_SIZE_BYTES: usize = 33;

/// Number of bytes of a signature.
pub const SIGNATURE_SIZE_BYTES: usize = 64;

/// Number of random bytes in a handshake initiation.
pub const HANDSHAKE_RANDOMNESS_SIZE_BYTES: usize = 32;

/// The first `width` bytes of `buf`, if it holds that many.
pub open spec fn spec_decode_fixed(buf: Seq<u8>, width: nat) -> Result<
    (Seq<u8>, nat),
    ProtocolError,
> {
    if buf.len() >= width {
        Ok((buf.take(width as int), width))
    } else {
        Err(ProtocolError::Truncated)
    }
}

/// Reading `width` bytes gives them back whatever follows, and fails on
/// fewer because the buffer is short.
pub proof fn lemma_fixed_laws(v: Seq<u8>, rest: Seq<u8>, n: int)
    ensures
        spec_decode_fixed(v + rest, v.len()) == Ok::<(Seq<u8>, nat), ProtocolError>((v, v.len())),
        0 <= n < v.len() ==> spec_decode_fixed(v.take(n), v.len()) == Err::<
            (Seq<u8>, nat),
            ProtocolError,
        >(ProtocolError::Truncated),
{
    assert((v + rest).take(v.len() as int) =~= v);
}

/// The first `N` bytes of `buffer` as an array.
pub fn array_from_slice<const N: usize>(buffer: &[u8]) -> (r: Result<[u8; N], ProtocolError>)
    ensures
        match r {
            Ok(a) => spec_decode_fixed(buffer@, N as nat) == Ok::<(Seq<u8>, nat), ProtocolError>(
                (a@, N as nat),
            ),
            Err(e) => spec_decode_fixed(buffer@, N as nat) == Err::<(Seq<u8>, nat), ProtocolError>(
                e,
            ),
        },
{
    if buffer.len() < N {
        return Err(ProtocolError::Truncated);
    }
    let mut a: [u8; N] = [0u8; N];
    let mut i: usize = 0;
    while i < N
        invariant
            i <= N,
            N <= buffer@.len(),
            forall|j: int| 0 <= j < i ==> a@[j] == buffer@[j],
        decreases N - i,
    {
        a[i] = buffer[i];
        i = i + 1;
    }
    assert(a@ =~= buffer@.take(N as int));
    Ok(a)
}

/// The bytes of `a` in a vector.
pub fn array_to_vec<const N: usize>(a: &[u8; N]) -> (out: Vec<u8>)
    ensures
        out@ == a@,
{
    let mut out: Vec<u8> = Vec::new();
    let mut i: usize = 0;
    while i < N
        invariant
            i <= N,
            out@ == a@.take(i as int),
        decreases N - i,
    {
        out.push(a[i]);
        i = i + 1;
    }
    out
}

/// Whether two arrays hold the same bytes.
pub fn array_eq<const N: usize>(a: &[u8; N], b: &[u8; N]) -> (r: bool)
    ensures
        r == (a@ == b@),
{
    let mut i: usize = 0;
    while i < N
        invariant
            i <= N,
            forall|j: int| 0 <= j < i ==> a@[j] == b@[j],
        decreases N - i,
    {
        if a[i] != b[i] {
            return false;
        }
        i = i + 1;
    }
    assert(a@ =~= b@);
    true
}

/// The identifier of a block.
#[derive(Clone, Copy, Debug, PartialEq, Eq, Hash)]
pub struct BlockId {
    /// The bytes of the identifier.
    pub bytes: [u8; 32],
}

impl View for BlockId {
    type V = Seq<u8>;

    open spec fn view(&self) -> Seq<u8> {
        self.bytes@
    }
}

impl BlockId {
    /// The identifier with these bytes.
    pub fn from_bytes(bytes: &[u8; 32]) -> (r: Self)
        ensures
            r@ == bytes@,
    {
        BlockId { bytes: *bytes }
    }

    /// The bytes of the identifier.
    pub fn to_bytes(&self) -> (r: [u8; 32])
        ensures
            r@ == self@,
    {
        self.bytes
    }
}

impl WireFormat for BlockId {
    open spec fn well_formed(v: Seq<u8>) -> bool {
        v.len() == BLOCK_ID_SIZE_BYTES
    }

    open spec fn within_limits(v: Seq<u8>, context: SerializationContext) -> bool {
        true
    }

    open spec fn spec_encode(v: Seq<u8>) -> Result<Seq<u8>, ProtocolError> {
        Ok(v)
    }

    open spec fn spec_decode(buf: Seq<u8>, context: SerializationContext) -> Result<
        (Seq<u8>, nat),
        ProtocolError,
    > {
        spec_decode_fixed(buf, BLOCK_ID_SIZE_BYTES as nat)
    }

    proof fn lemma_decode_consumed(buf: Seq<u8>, context: SerializationContext) {
    }

    proof fn lemma_round_trip(v: Seq<u8>, rest: Seq<u8>, context: SerializationContext) {
        lemma_fixed_laws(v, rest, 0);
    }

    proof fn lemma_truncated(v: Seq<u8>, n: int, context: SerializationContext) {
    }
}

impl SerializeCompact for BlockId {
    fn to_bytes_compact(&self) -> (r: Result<Vec<u8>, ProtocolError>) {
        Ok(array_to_vec(&self.bytes))
    }
}

impl DeserializeCompact for BlockId {
    fn from_bytes_compact(buffer: &[u8], context: &SerializationContext) -> (r: Result<
        (Self, usize),
        ProtocolError,
    >) {
        match array_from_slice::<32>(buffer) {
            Ok(bytes) => Ok((BlockId { bytes }, BLOCK_ID_SIZE_BYTES)),
            Err(e) => Err(e),
        }
    }
}

/// The identifier of an operation.
#[derive(Clone, Copy, Debug, PartialEq, Eq, Hash)]
pub struct OperationId {
    /// The bytes of the identifier.
    pub bytes: [u8; 32],
}

impl View for OperationId {
    type V = Seq<u8>;

    open spec fn view(&self) -> Seq<u8> {
        self.bytes@
    }
}

impl OperationId {
    /// The identifier with these bytes.
    pub fn from_bytes(bytes: &[u8; 32]) -> (r: Self)
        ensures
            r@ == bytes@,
    {
        OperationId { bytes: *bytes }
    }

    /// The bytes of the identifier.
    pub fn to_bytes(&self) -> (r: [u8; 32])
        ensures
            r@ == self@,
    {
        self.bytes
    }
}

impl WireFormat for OperationId {
    open spec fn well_formed(v: Seq<u8>) -> bool {
        v.len() == OPERATION_ID_SIZE_BYTES
    }

    open spec fn within_limits(v: Seq<u8>, context: SerializationContext) -> bool {
        true
    }

    open spec fn spec_encode(v: Seq<u8>) -> Result<Seq<u8>, ProtocolError> {
        Ok(v)
    }

    open spec fn spec_decode(buf: Seq<u8>, context: SerializationContext) -> Result<
        (Seq<u8>, nat),
        ProtocolError,
    > {
        spec_decode_fixed(buf, OPERATION_ID_SIZE_BYTES as nat)
    }

    proof fn lemma_decode_consumed(buf: Seq<u8>, context: SerializationContext) {
    }

    proof fn lemma_round_trip(v: Seq<u8>, rest: Seq<u8>, context: SerializationContext) {
        lemma_fixed_laws(v, rest, 0);
    }

    proof fn lemma_truncated(v: Seq<u8>, n: int, context: SerializationContext) {
    }
}

impl SerializeCompact for OperationId {
    fn to_bytes_compact(&self) -> (r: Result<Vec<u8>, ProtocolError>) {
        Ok(array_to_vec(&self.bytes))
    }
}

impl DeserializeCompact for OperationId {
    fn from_bytes_compact(buffer: &[u8], context: &SerializationContext) -> (r: Result<
        (Self, usize),
        ProtocolError,
    >) {
        match array_from_slice::<32>(buffer) {
            Ok(bytes) => Ok((OperationId { bytes }, OPERATION_ID_SIZE_BYTES)),
            Err(e) => Err(e),
        }
    }
}

/// A public key, as the bytes that stand for it on the wire.
#[derive(Clone, Copy, Debug, PartialEq, Eq, Hash)]
pub struct PublicKey {
    /// The bytes of the key.
    pub bytes: [u8; 33],
}

impl View for PublicKey {
    type V = Seq<u8>;

    open spec fn view(&self) -> Seq<u8> {
        self.bytes@
    }
}

impl PublicKey {
    /// The key with these bytes.
    pub fn from_bytes(bytes: &[u8; 33]) -> (r: Self)
        ensures
            r@ == bytes@,
    {
        PublicKey { bytes: *bytes }
    }

    /// The bytes of the key.
    pub fn to_bytes(&self) -> (r: [u8; 33])
        ensures
            r@ == self@,
    {
        self.bytes
    }
}

impl WireFormat for PublicKey {
    open spec fn well_formed(v: Seq<u8>) -> bool {
        v.len() == PUBLIC_KEY_SIZE_BYTES
    }

    open spec fn within_limits(v: Seq<u8>, context: SerializationContext) -> bool {
        true
    }

    open spec fn spec_encode(v: Seq<u8>) -> Result<Seq<u8>, ProtocolError> {
        Ok(v)
    }

    open spec fn spec_decode(buf: Seq<u8>, context: SerializationContext) -> Result<
        (Seq<u8>, nat),
        ProtocolError,
    > {
        spec_decode_fixed(buf, PUBLIC_KEY_SIZE_BYTES as nat)
    }

    proof fn lemma_decode_consumed(buf: Seq<u8>, context: SerializationContext) {
    }

    proof fn lemma_round_trip(v: Seq<u8>, rest: Seq<u8>, context: SerializationContext) {
        lemma_fixed_laws(v, rest, 0);
    }

    proof fn lemma_truncated(v: Seq<u8>, n: int, context: SerializationContext) {
    }
}

impl SerializeCompact for PublicKey {
    fn to_bytes_compact(&self) -> (r: Result<Vec<u8>, ProtocolError>) {
        Ok(array_to_vec(&self.bytes))
    }
}

impl DeserializeCompact for PublicKey {
    fn from_bytes_compact(buffer: &[u8], context: &SerializationContext) -> (r: Result<
        (Self, usize),
        ProtocolError,
    >) {
        match array_from_slice::<33>(buffer) {
            Ok(bytes) => Ok((PublicKey { bytes }, PUBLIC_KEY_SIZE_BYTES)),
            Err(e) => Err(e),
        }
    }
}

/// A signature, as the bytes that stand for it on the wire.
#[derive(Clone, Copy, Debug, PartialEq, Eq, Hash)]
pub struct Signature {
    /// The bytes of the signature.
    pub bytes: [u8; 64],
}

impl View for Signature {
    type V = Seq<u8>;

    open spec fn view(&self) -> Seq<u8> {
        self.bytes@
    }
}

impl Signature {
    /// The signature with these bytes.
    pub fn from_bytes(bytes: &[u8; 64]) -> (r: Self)
        ensures
            r@ == bytes@,
    {
        Signature { bytes: *bytes }
    }

    /// The bytes of the signature.
    pub fn to_bytes(&self) -> (r: [u8; 64])
        ensures
            r@ == self@,
    {
        self.bytes
    }
}

impl WireFormat for Signature {
    open spec fn well_formed(v: Seq<u8>) -> bool {
        v.len() == SIGNATURE_SIZE_BYTES
    }

    open spec fn within_limits(v: Seq<u8>, context: SerializationContext) -> bool {
        true
    }

    open spec fn spec_encode(v: Seq<u8>) -> Result<Seq<u8>, ProtocolError> {
        Ok(v)
    }

    open spec fn spec_decode(buf: Seq<u8>, context: SerializationContext) -> Result<
        (Seq<u8>, nat),
        ProtocolError,
    > {
        spec_decode_fixed(buf, SIGNATURE_SIZE_BYTES as nat)
    }

    proof fn lemma_decode_consumed(buf: Seq<u8>, context: SerializationContext) {
    }

    proof fn lemma_round_trip(v: Seq<u8>, rest: Seq<u8>, context: SerializationContext) {
        lemma_fixed_laws(v, rest, 0);
    }

    proof fn lemma_truncated(v: Seq<u8>, n: int, context: SerializationContext) {
    }
}

impl SerializeCompact for Signature {
    fn to_bytes_compact(&self) -> (r: Result<Vec<u8>, ProtocolError>) {
        Ok(array_to_vec(&self.bytes))
    }
}

impl DeserializeCompact for Signature {
    fn from_bytes_compact(buffer: &[u8], context: &SerializationContext) -> (r: Result<
        (Self, usize),
        ProtocolError,
    >) {
        match array_from_slice::<64>(buffer) {
            Ok(bytes) => Ok((Signature { bytes }, SIGNATURE_SIZE_BYTES)),
            Err(e) => Err(e),
        }
    }
}

} // verus!
