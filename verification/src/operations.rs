//! Operation identifiers and the mapping from identifiers to operations.
//!
//! The answer to a request for operations maps each identifier to the
//! operation, or to nothing when the operation is not known. On the wire an
//! entry is the identifier, a presence tag of four bytes, big-endian, and the
//! operation if the tag is not zero.

use crate::compact::{DeserializeCompact, SerializeCompact, WireFormat};
use crate::context::SerializationContext;
use crate::error::{nested_failure, wrap_nested_failure, Field, ProtocolError};
use crate::keyed::{
    distinct_keys, has_key, index_of_key, lemma_collect_distinct, lemma_collect_identity,
    spec_collect, spec_insert, spec_mapping,
};
use crate::fixed::{
    array_eq, array_from_slice, array_to_vec, OperationId, OPERATION_ID_SIZE_BYTES,
};
use crate::sequence::{
    all_well_formed, all_within_limits, deserialize_items, lemma_collection_round_trip,
    lemma_collection_truncated,
    lemma_decode_collection_consumed, remaining, serialize_items, spec_decode_collection,
    spec_decode_items, spec_encode_collection, views,
};
use crate::varint::spec_from_varint_bytes_bounded;
use vstd::prelude::*;
use vstd::slice::slice_subrange;

verus! {

/// Number of bytes of a presence tag.
pub const PRESENCE_TAG_SIZE_BYTES: usize = 4;

/// The tag in front of nothing.
pub open spec fn absent_tag() -> Seq<u8> {
    seq![0u8, 0u8, 0u8, 0u8]
}

/// The tag in front of an operation.
pub open spec fn present_tag() -> Seq<u8> {
    seq![0u8, 0u8, 0u8, 1u8]
}

/// The number that four bytes stand for, the most significant first.
pub open spec fn spec_be_u32(bytes: Seq<u8>) -> nat {
    (bytes[0] * 16777216 + bytes[1] * 65536 + bytes[2] * 256 + bytes[3]) as nat
}

/// The view of what an optional value holds.
pub open spec fn option_view<T: View>(o: Option<T>) -> Option<T::V> {
    match o {
        Some(t) => Some(t@),
        None => None,
    }
}

/// One entry of the mapping: an identifier, and the operation if it is known.
#[derive(Debug)]
pub struct OperationEntry<O> {
    /// The identifier that was asked for.
    pub id: OperationId,
    /// The operation, or nothing when it was not found.
    pub operation: Option<O>,
}

impl<O: View> View for OperationEntry<O> {
    type V = (Seq<u8>, Option<O::V>);

    open spec fn view(&self) -> Self::V {
        (self.id@, option_view(self.operation))
    }
}

impl<O: WireFormat> WireFormat for OperationEntry<O> {
    open spec fn well_formed(v: Self::V) -> bool {
        &&& v.0.len() == OPERATION_ID_SIZE_BYTES
        &&& v.1 matches Some(op) ==> O::well_formed(op)
    }

    open spec fn within_limits(v: Self::V, context: SerializationContext) -> bool {
        v.1 matches Some(op) ==> O::within_limits(op, context)
    }

    open spec fn spec_encode(v: Self::V) -> Result<Seq<u8>, ProtocolError> {
        match v.1 {
            None => Ok(v.0 + absent_tag()),
            Some(op) => match O::spec_encode(op) {
                Ok(bytes) => Ok(v.0 + present_tag() + bytes),
                Err(_) => Err(ProtocolError::NestedCodecError(Field::Operation)),
            },
        }
    }

    open spec fn spec_decode(buf: Seq<u8>, context: SerializationContext) -> Result<
        (Self::V, nat),
        ProtocolError,
    > {
        if buf.len() < OPERATION_ID_SIZE_BYTES + PRESENCE_TAG_SIZE_BYTES {
            Err(ProtocolError::Truncated)
        } else {
            let id = buf.take(32);
            if spec_be_u32(buf.subrange(32, 36)) == 0 {
                Ok(((id, None), 36))
            } else {
                match O::spec_decode(buf.skip(36), context) {
                    Ok((op, n)) => Ok(((id, Some(op)), 36 + n)),
                    Err(e) => Err(nested_failure(e, Field::Operation)),
                }
            }
        }
    }

    proof fn lemma_decode_consumed(buf: Seq<u8>, context: SerializationContext) {
        if buf.len() >= 36 {
            O::lemma_decode_consumed(buf.skip(36), context);
        }
    }

    proof fn lemma_round_trip(v: Self::V, rest: Seq<u8>, context: SerializationContext) {
        let buf = Self::spec_encode(v)->Ok_0 + rest;
        assert(buf.take(32) =~= v.0);
        match v.1 {
            None => {},
            Some(op) => {
                let bytes = O::spec_encode(op)->Ok_0;
                assert(buf.skip(36) =~= bytes + rest);
                O::lemma_round_trip(op, rest, context);
            },
        }
    }

    proof fn lemma_truncated(v: Self::V, n: int, context: SerializationContext) {
        let buf = Self::spec_encode(v)->Ok_0.take(n);
        if n >= 36 {
            let op = v.1->Some_0;
            let bytes = O::spec_encode(op)->Ok_0;
            assert(buf.skip(36) =~= bytes.take(n - 36));
            O::lemma_truncated(op, n - 36, context);
        }
    }
}

impl<O: SerializeCompact> SerializeCompact for OperationEntry<O> {
    fn to_bytes_compact(&self) -> (r: Result<Vec<u8>, ProtocolError>) {
        let mut out: Vec<u8> = array_to_vec(&self.id.bytes);
        match &self.operation {
            None => {
                out.push(0);
                out.push(0);
                out.push(0);
                out.push(0);
                assert(out@ =~= self@.0 + absent_tag());
                Ok(out)
            },
            Some(op) => {
                match op.to_bytes_compact() {
                    Ok(mut bytes) => {
                        out.push(0);
                        out.push(0);
                        out.push(0);
                        out.push(1);
                        assert(out@ + bytes@ =~= self@.0 + present_tag() + bytes@);
                        out.append(&mut bytes);
                        Ok(out)
                    },
                    Err(_) => Err(ProtocolError::NestedCodecError(Field::Operation)),
                }
            },
        }
    }
}

impl<O: DeserializeCompact> DeserializeCompact for OperationEntry<O> {
    fn from_bytes_compact(buffer: &[u8], context: &SerializationContext) -> (r: Result<
        (Self, usize),
        ProtocolError,
    >) {
        if buffer.len() < 36 {
            return Err(ProtocolError::Truncated);
        }
        let id = match array_from_slice::<32>(buffer) {
            Ok(bytes) => OperationId { bytes },
            Err(e) => {
                return Err(e);
            },
        };
        let tag = match array_from_slice::<4>(slice_subrange(buffer, 32, 36)) {
            Ok(tag) => tag,
            Err(e) => {
                return Err(e);
            },
        };
        if tag[0] == 0 && tag[1] == 0 && tag[2] == 0 && tag[3] == 0 {
            return Ok((OperationEntry { id, operation: None }, 36));
        }
        match O::from_bytes_compact(slice_subrange(buffer, 36, buffer.len()), context) {
            Ok((op, n)) => Ok((OperationEntry { id, operation: Some(op) }, 36 + n)),
            Err(e) => Err(wrap_nested_failure(e, Field::Operation)),
        }
    }
}

/// The presence tag of an entry is the four bytes behind its identifier. It
/// is `0, 0, 0, 1` in front of an operation and `0, 0, 0, 0` in front of
/// nothing, whatever the context and whatever the operation.
pub proof fn lemma_presence_tag<O: WireFormat>(v: (Seq<u8>, Option<O::V>))
    requires
        OperationEntry::<O>::well_formed(v),
        OperationEntry::<O>::spec_encode(v) is Ok,
    ensures
        OperationEntry::<O>::spec_encode(v)->Ok_0.len() >= OPERATION_ID_SIZE_BYTES
            + PRESENCE_TAG_SIZE_BYTES,
        OperationEntry::<O>::spec_encode(v)->Ok_0.take(32) == v.0,
        OperationEntry::<O>::spec_encode(v)->Ok_0.subrange(32, 36) == if v.1 is Some {
            present_tag()
        } else {
            absent_tag()
        },
{
}

/// The mapping from operation identifiers to operations, or to nothing for
/// the operations that were not found. No identifier stands in it twice.
/// Entries keep the order in which their identifiers first came.
#[derive(Debug)]
pub struct OperationMap<O> {
    entries: Vec<OperationEntry<O>>,
}

impl<O: View> View for OperationMap<O> {
    type V = Seq<(Seq<u8>, Option<O::V>)>;

    closed spec fn view(&self) -> Self::V {
        views(self.entries@)
    }
}

/// Whether no identifier stands in two of these entries.
pub open spec fn entry_ids_distinct<O>(entries: Seq<OperationEntry<O>>) -> bool {
    forall|i: int, j: int|
        0 <= i < j < entries.len() ==> (#[trigger] entries[i]).id@ != (#[trigger] entries[j]).id@
}

/// Entries have distinct identifiers exactly when their views have.
pub proof fn lemma_entry_ids_distinct<O: View>(entries: Seq<OperationEntry<O>>)
    ensures
        entry_ids_distinct(entries) == distinct_keys(views(entries)),
{
    let all = views(entries);
    if distinct_keys(all) {
        assert forall|i: int, j: int| 0 <= i < j < entries.len() implies (
        #[trigger] entries[i]).id@ != (#[trigger] entries[j]).id@ by {
            assert(all[i].0 == entries[i].id@);
            assert(all[j].0 == entries[j].id@);
        }
    }
}

impl<O> OperationMap<O> {
    #[verifier::type_invariant]
    spec fn ids_are_distinct(self) -> bool {
        entry_ids_distinct(self.entries@)
    }
}

impl<O: View> OperationMap<O> {
    /// The mapping that the entries stand for.
    pub open spec fn mapping(&self) -> Map<Seq<u8>, Option<O::V>> {
        spec_mapping(self@)
    }

    /// The mapping without entries.
    pub fn new() -> (r: Self)
        ensures
            r@ == Seq::<(Seq<u8>, Option<O::V>)>::empty(),
    {
        let entries: Vec<OperationEntry<O>> = Vec::new();
        OperationMap { entries }
    }

    /// The number of entries.
    pub fn len(&self) -> (r: usize)
        ensures
            r == self@.len(),
    {
        self.entries.len()
    }

    /// The entries, in order. Their identifiers are distinct.
    pub fn entries(&self) -> (r: &Vec<OperationEntry<O>>)
        ensures
            views(r@) == self@,
            distinct_keys(self@),
    {
        proof {
            use_type_invariant(self);
        }
        &self.entries
    }

    /// Hands out the entries, in order. Their identifiers are distinct.
    pub fn into_entries(self) -> (r: Vec<OperationEntry<O>>)
        ensures
            views(r@) == self@,
            distinct_keys(self@),
    {
        proof {
            use_type_invariant(&self);
        }
        self.entries
    }

    /// The place of the entry of `id`, if it has one.
    pub fn position(&self, id: &OperationId) -> (r: Option<usize>)
        ensures
            distinct_keys(self@),
            match r {
                Some(i) => has_key(self@, id@) && i == index_of_key(self@, id@) && i < self@.len(),
                None => !has_key(self@, id@),
            },
    {
        proof {
            use_type_invariant(self);
        }
        let ghost all = views(self.entries@);
        let mut i: usize = 0;
        while i < self.entries.len()
            invariant
                i <= self.entries.len(),
                all == views(self.entries@),
                distinct_keys(all),
                forall|j: int| 0 <= j < i ==> (#[trigger] all[j]).0 != id@,
            decreases self.entries.len() - i,
        {
            if array_eq(&self.entries[i].id.bytes, &id.bytes) {
                proof {
                    assert(all[i as int].0 == id@);
                }
                return Some(i);
            }
            i = i + 1;
        }
        None
    }

    /// What `id` is mapped to: nothing at all if it has no entry, else the
    /// operation or the note that it was not found.
    pub fn get(&self, id: &OperationId) -> (r: Option<&Option<O>>)
        ensures
            match r {
                Some(found) => self.mapping().dom().contains(id@) && self.mapping()[id@]
                    == option_view(*found),
                None => !self.mapping().dom().contains(id@),
            },
    {
        match self.position(id) {
            Some(i) => {
                Some(&self.entries[i].operation)
            },
            None => None,
        }
    }

    /// Maps `id` to `operation`. An entry that `id` had is replaced where it
    /// stands; else the new entry comes last.
    pub fn insert(&mut self, id: OperationId, operation: Option<O>)
        ensures
            final(self)@ == spec_insert(old(self)@, (id@, option_view(operation))),
    {
        let found = self.position(&id);
        let ghost before = views(self.entries@);
        let ghost entry = (id@, option_view(operation));
        let mut entries: Vec<OperationEntry<O>> = Vec::new();
        core::mem::swap(&mut self.entries, &mut entries);
        match found {
            Some(i) => {
                entries[i] = OperationEntry { id, operation };
                proof {
                    assert(views(entries@) =~= before.update(i as int, entry));
                }
            },
            None => {
                entries.push(OperationEntry { id, operation });
                proof {
                    assert(views(entries@) =~= before.push(entry));
                }
            },
        }
        proof {
            lemma_entry_ids_distinct(entries@);
        }
        core::mem::swap(&mut self.entries, &mut entries);
    }
}

/// Appends the encoding of `operation_ids` as a collection to `res`. On
/// failure `res` is left as it was.
pub fn serialize_operation_ids(res: &mut Vec<u8>, operation_ids: &Vec<OperationId>) -> (r: Result<
    (),
    ProtocolError,
>)
    ensures
        match r {
            Ok(()) => spec_encode_collection::<OperationId>(
                views(operation_ids@),
                Field::OperationId,
            ) is Ok && final(res)@ == old(res)@ + spec_encode_collection::<OperationId>(
                views(operation_ids@),
                Field::OperationId,
            )->Ok_0 && all_well_formed::<OperationId>(views(operation_ids@)),
            Err(e) => spec_encode_collection::<OperationId>(
                views(operation_ids@),
                Field::OperationId,
            ) == Err::<Seq<u8>, ProtocolError>(e) && final(res)@ == old(res)@,
        },
{
    serialize_items::<OperationId>(res, operation_ids, Field::OperationId)
}

/// Identifiers are read the same under every context.
pub proof fn lemma_operation_ids_any_context(
    buf: Seq<u8>,
    count: nat,
    a: SerializationContext,
    b: SerializationContext,
)
    ensures
        spec_decode_items::<OperationId>(buf, count, Field::OperationId, a) == spec_decode_items::<
            OperationId,
        >(buf, count, Field::OperationId, b),
    decreases count,
{
    if count > 0 {
        match OperationId::spec_decode(buf, a) {
            Ok((v, n)) => {
                lemma_operation_ids_any_context(remaining(buf, n), (count - 1) as nat, a, b);
            },
            Err(_) => {},
        }
    }
}

/// Reads a collection of `max_operations_per_message` operation identifiers
/// at most from `buffer`, starting at `cursor`, and moves the cursor behind
/// it. On failure the cursor stays. What is read is the same under every
/// context.
pub fn deserialize_operation_ids(
    buffer: &[u8],
    cursor: &mut usize,
    max_operations_per_message: u32,
) -> (r: Result<Vec<OperationId>, ProtocolError>)
    ensures
        forall|context: SerializationContext|
            match r {
                Ok(ids) => #[trigger] spec_decode_collection::<OperationId>(
                    remaining(buffer@, *old(cursor) as nat),
                    max_operations_per_message,
                    Field::OperationId,
                    context,
                ) == Ok::<(Seq<Seq<u8>>, nat), ProtocolError>(
                    (views(ids@), (*final(cursor) - *old(cursor)) as nat),
                ),
                Err(e) => #[trigger] spec_decode_collection::<OperationId>(
                    remaining(buffer@, *old(cursor) as nat),
                    max_operations_per_message,
                    Field::OperationId,
                    context,
                ) == Err::<(Seq<Seq<u8>>, nat), ProtocolError>(e),
            },
        match r {
            Ok(ids) => *old(cursor) <= *final(cursor) <= buffer@.len() && ids@.len()
                <= max_operations_per_message && all_well_formed::<OperationId>(views(ids@)),
            Err(_) => *final(cursor) == *old(cursor),
        },
{
    // Identifiers have no limits of their own: only the maximum counts.
    let limits = SerializationContext {
        max_operations_per_block: 0,
        thread_count: 0,
        max_advertise_length: 0,
        max_message_size: 0,
        max_block_size: 0,
        max_bootstrap_blocks: 0,
        max_bootstrap_cliques: 0,
        max_bootstrap_deps: 0,
        max_bootstrap_children: 0,
        max_ask_blocks_per_message: 0,
        max_operations_per_message,
        max_endorsements_per_message: 0,
        max_bootstrap_message_size: 0,
        max_bootstrap_pos_entries: 0,
        max_bootstrap_pos_cycles: 0,
        endorsement_count: 0,
    };
    let ghost buf = remaining(buffer@, *cursor as nat);
    let r = deserialize_items::<OperationId>(
        buffer,
        cursor,
        max_operations_per_message,
        Field::OperationId,
        &limits,
    );
    proof {
        assert forall|context: SerializationContext| #[trigger]
            spec_decode_collection::<OperationId>(
                buf,
                max_operations_per_message,
                Field::OperationId,
                context,
            ) == spec_decode_collection::<OperationId>(
                buf,
                max_operations_per_message,
                Field::OperationId,
                limits,
            ) by {
            match spec_from_varint_bytes_bounded(buf, max_operations_per_message) {
                Ok((count, n)) => {
                    lemma_operation_ids_any_context(
                        remaining(buf, n),
                        count as nat,
                        context,
                        limits,
                    );
                },
                Err(_) => {},
            }
        }
    }
    r
}

/// The encoding of the mapping with these entries.
pub open spec fn spec_encode_operation_map<O: WireFormat>(
    entries: Seq<(Seq<u8>, Option<O::V>)>,
) -> Result<Seq<u8>, ProtocolError> {
    spec_encode_collection::<OperationEntry<O>>(entries, Field::Operation)
}

/// Reads a mapping of `max` entries at most from the front of `buf`: its
/// entries and the number of bytes that it took.
pub open spec fn spec_decode_operation_map<O: WireFormat>(
    buf: Seq<u8>,
    max: u32,
    context: SerializationContext,
) -> Result<(Seq<(Seq<u8>, Option<O::V>)>, nat), ProtocolError> {
    match spec_decode_collection::<OperationEntry<O>>(buf, max, Field::Operation, context) {
        Ok((raw, n)) => Ok((spec_collect(raw), n)),
        Err(e) => Err(e),
    }
}

/// What was read is a mapping of `max` entries at most, with distinct
/// identifiers, and took no more bytes than the buffer holds.
pub proof fn lemma_operation_map_consumed<O: WireFormat>(
    buf: Seq<u8>,
    max: u32,
    context: SerializationContext,
)
    ensures
        spec_decode_operation_map::<O>(buf, max, context) matches Ok((entries, n)) ==> n
            <= buf.len() && entries.len() <= max && distinct_keys(entries) && all_well_formed::<
            OperationEntry<O>,
        >(entries),
{
    lemma_decode_collection_consumed::<OperationEntry<O>>(buf, max, Field::Operation, context);
    match spec_decode_collection::<OperationEntry<O>>(buf, max, Field::Operation, context) {
        Ok((raw, n)) => {
            lemma_collect_distinct(raw);
            lemma_collect_well_formed::<O>(raw);
        },
        Err(_) => {},
    }
}

/// Reading back a mapping that was written, and that is within the maximum,
/// gives its entries back, and the length of its encoding, whatever follows in
/// the buffer.
pub proof fn lemma_operation_map_round_trip<O: WireFormat>(
    entries: Seq<(Seq<u8>, Option<O::V>)>,
    rest: Seq<u8>,
    max: u32,
    context: SerializationContext,
)
    requires
        distinct_keys(entries),
        all_well_formed::<OperationEntry<O>>(entries),
        all_within_limits::<OperationEntry<O>>(entries, context),
        entries.len() <= max,
        spec_encode_operation_map::<O>(entries) is Ok,
    ensures
        spec_decode_operation_map::<O>(
            spec_encode_operation_map::<O>(entries)->Ok_0 + rest,
            max,
            context,
        ) == Ok::<(Seq<(Seq<u8>, Option<O::V>)>, nat), ProtocolError>(
            (entries, spec_encode_operation_map::<O>(entries)->Ok_0.len()),
        ),
{
    lemma_collection_round_trip::<OperationEntry<O>>(
        entries,
        rest,
        max,
        Field::Operation,
        context,
    );
    lemma_collect_identity(entries);
}

/// Reading a mapping from a strict prefix of what was written fails because
/// the buffer is short.
pub proof fn lemma_operation_map_truncated<O: WireFormat>(
    entries: Seq<(Seq<u8>, Option<O::V>)>,
    n: int,
    max: u32,
    context: SerializationContext,
)
    requires
        all_well_formed::<OperationEntry<O>>(entries),
        all_within_limits::<OperationEntry<O>>(entries, context),
        entries.len() <= max,
        spec_encode_operation_map::<O>(entries) is Ok,
        0 <= n < spec_encode_operation_map::<O>(entries)->Ok_0.len(),
    ensures
        spec_decode_operation_map::<O>(
            spec_encode_operation_map::<O>(entries)->Ok_0.take(n),
            max,
            context,
        ) == Err::<(Seq<(Seq<u8>, Option<O::V>)>, nat), ProtocolError>(ProtocolError::Truncated),
{
    lemma_collection_truncated::<OperationEntry<O>>(entries, n, max, Field::Operation, context);
}

/// Appends the encoding of `operations` to `res`: the number of entries, then
/// each entry as its identifier, its presence tag and, if the tag says so, the
/// operation. On failure `res` is left as it was.
pub fn serialize_operation_opt_map<O: SerializeCompact>(
    res: &mut Vec<u8>,
    operations: &OperationMap<O>,
) -> (r: Result<(), ProtocolError>)
    ensures
        match r {
            Ok(()) => spec_encode_operation_map::<O>(operations@) is Ok && final(res)@ == old(
                res,
            )@ + spec_encode_operation_map::<O>(operations@)->Ok_0 && all_well_formed::<
                OperationEntry<O>,
            >(operations@) && distinct_keys(operations@),
            Err(e) => spec_encode_operation_map::<O>(operations@) == Err::<Seq<u8>, ProtocolError>(
                e,
            ) && final(res)@ == old(res)@,
        },
{
    serialize_items::<OperationEntry<O>>(res, operations.entries(), Field::Operation)
}

/// Reads a mapping of `max_operations_per_message` entries at most from
/// `buffer`, starting at `cursor`, and moves the cursor behind it. Of two
/// entries with one identifier the later one stays. On failure the cursor
/// stays.
pub fn derialize_operation_opt_map<O: DeserializeCompact>(
    buffer: &[u8],
    cursor: &mut usize,
    max_operations_per_message: u32,
    context: &SerializationContext,
) -> (r: Result<OperationMap<O>, ProtocolError>)
    ensures
        match r {
            Ok(operations) => spec_decode_operation_map::<O>(
                remaining(buffer@, *old(cursor) as nat),
                max_operations_per_message,
                *context,
            ) == Ok::<(Seq<(Seq<u8>, Option<O::V>)>, nat), ProtocolError>(
                (operations@, (*final(cursor) - *old(cursor)) as nat),
            ) && *old(cursor) <= *final(cursor) <= buffer@.len() && operations@.len()
                <= max_operations_per_message && all_well_formed::<OperationEntry<O>>(
                operations@,
            ) && distinct_keys(operations@),
            Err(e) => spec_decode_operation_map::<O>(
                remaining(buffer@, *old(cursor) as nat),
                max_operations_per_message,
                *context,
            ) == Err::<(Seq<(Seq<u8>, Option<O::V>)>, nat), ProtocolError>(e) && *final(cursor)
                == *old(cursor),
        },
{
    let raw: Vec<OperationEntry<O>> = match deserialize_items::<OperationEntry<O>>(
        buffer,
        cursor,
        max_operations_per_message,
        Field::Operation,
        context,
    ) {
        Ok(raw) => raw,
        Err(e) => {
            return Err(e);
        },
    };
    let ghost entries = raw@;
    let ghost all = views(raw@);
    let mut operations: OperationMap<O> = OperationMap::new();
    for entry in it: raw
        invariant
            it.seq() == entries,
            all == views(entries),
            operations@ == spec_collect(all.take(it.index() as int)),
    {
        proof {
            let i = it.index() as int;
            assert(all.take(i + 1).drop_last() =~= all.take(i));
        }
        let OperationEntry { id, operation } = entry;
        operations.insert(id, operation);
    }
    proof {
        assert(all.take(all.len() as int) =~= all);
        lemma_collect_distinct(all);
        lemma_collect_well_formed::<O>(all);
    }
    Ok(operations)
}

/// What was collected from values of the type holds only values of the type.
pub proof fn lemma_collect_well_formed<O: WireFormat>(raw: Seq<(Seq<u8>, Option<O::V>)>)
    requires
        all_well_formed::<OperationEntry<O>>(raw),
    ensures
        all_well_formed::<OperationEntry<O>>(spec_collect(raw)),
    decreases raw.len(),
{
    if raw.len() > 0 {
        let front = raw.drop_last();
        lemma_collect_well_formed::<O>(front);
    }
}

} // verus!
