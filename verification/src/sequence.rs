//! Count-prefixed collections.
//!
//! A collection is written as the number of its items, as a variable-length
//! integer, followed by the items one after the other. When it is read, the
//! number is held against a maximum before any item is read or any room is
//! made for one.

use crate::compact::{DeserializeCompact, SerializeCompact, WireFormat};
use crate::context::SerializationContext;
use crate::error::{nested_failure, wrap_nested_failure, Field, ProtocolError};
use crate::varint::{
    from_varint_bytes_bounded, lemma_parse_varint_consumed, lemma_parse_varint_round_trip,
    lemma_parse_varint_truncated, lemma_u32_varint_len, parse_varint,
    spec_from_varint_bytes_bounded, to_varint_bytes, varint_bytes,
};
use vstd::prelude::*;
use vstd::slice::slice_subrange;

verus! {

/// The views of the items of `s`, in order.
pub open spec fn views<T: View>(s: Seq<T>) -> Seq<T::V> {
    s.map_values(|t: T| t@)
}

/// What is left of `buf` from `cursor` on: nothing, if the cursor is past
/// the end.
pub open spec fn remaining(buf: Seq<u8>, cursor: nat) -> Seq<u8> {
    if cursor <= buf.len() {
        buf.skip(cursor as int)
    } else {
        Seq::empty()
    }
}

/// Whether every item of `items` is a value of the type.
pub open spec fn all_well_formed<T: WireFormat>(items: Seq<T::V>) -> bool {
    forall|i: int| 0 <= i < items.len() ==> T::well_formed(#[trigger] items[i])
}

/// Whether every item of `items` is within the limits of `context`.
pub open spec fn all_within_limits<T: WireFormat>(
    items: Seq<T::V>,
    context: SerializationContext,
) -> bool {
    forall|i: int| 0 <= i < items.len() ==> T::within_limits(#[trigger] items[i], context)
}

/// The encodings of `items`, one after the other. The first item that has no
/// encoding makes the whole fail, with `field` as the place.
pub open spec fn spec_encode_items<T: WireFormat>(items: Seq<T::V>, field: Field) -> Result<
    Seq<u8>,
    ProtocolError,
>
    decreases items.len(),
{
    if items.len() == 0 {
        Ok(Seq::empty())
    } else {
        match T::spec_encode(items[0]) {
            Err(_) => Err(ProtocolError::NestedCodecError(field)),
            Ok(head) => match spec_encode_items::<T>(items.skip(1), field) {
                Ok(tail) => Ok(head + tail),
                Err(e) => Err(e),
            },
        }
    }
}

/// Reads `count` items from the front of `buf`: the items and the number of
/// bytes that they took together.
pub open spec fn spec_decode_items<T: WireFormat>(
    buf: Seq<u8>,
    count: nat,
    field: Field,
    context: SerializationContext,
) -> Result<(Seq<T::V>, nat), ProtocolError>
    decreases count,
{
    if count == 0 {
        Ok((Seq::empty(), 0))
    } else {
        match T::spec_decode(buf, context) {
            Err(e) => Err(nested_failure(e, field)),
            Ok((v, n)) => match spec_decode_items::<T>(
                remaining(buf, n),
                (count - 1) as nat,
                field,
                context,
            ) {
                Ok((vs, m)) => Ok((seq![v] + vs, n + m)),
                Err(e) => Err(e),
            },
        }
    }
}

/// The encoding of a collection: its count, then its items. A collection
/// whose count does not fit in 32 bits has none.
pub open spec fn spec_encode_collection<T: WireFormat>(items: Seq<T::V>, field: Field) -> Result<
    Seq<u8>,
    ProtocolError,
> {
    if items.len() > u32::MAX {
        Err(ProtocolError::LengthOverflow)
    } else {
        match spec_encode_items::<T>(items, field) {
            Ok(body) => Ok(varint_bytes(items.len()) + body),
            Err(e) => Err(e),
        }
    }
}

/// Reads a collection of `max` items at most from the front of `buf`. A count
/// above `max` is refused before any item is read.
pub open spec fn spec_decode_collection<T: WireFormat>(
    buf: Seq<u8>,
    max: u32,
    field: Field,
    context: SerializationContext,
) -> Result<(Seq<T::V>, nat), ProtocolError> {
    match spec_from_varint_bytes_bounded(buf, max) {
        Err(e) => Err(e),
        Ok((count, n)) => match spec_decode_items::<T>(
            remaining(buf, n),
            count as nat,
            field,
            context,
        ) {
            Ok((items, m)) => Ok((items, n + m)),
            Err(e) => Err(e),
        },
    }
}

/// What a reader that holds `acc`, read from `taken` bytes, makes of what
/// the rest of the buffer gives.
pub open spec fn resume_items<V>(
    acc: Seq<V>,
    taken: nat,
    rest: Result<(Seq<V>, nat), ProtocolError>,
) -> Result<(Seq<V>, nat), ProtocolError> {
    match rest {
        Ok((vs, m)) => Ok((acc + vs, taken + m)),
        Err(e) => Err(e),
    }
}

/// Encoding a collection with one more item at its end.
pub proof fn lemma_encode_items_push<T: WireFormat>(items: Seq<T::V>, last: T::V, field: Field)
    ensures
        spec_encode_items::<T>(items.push(last), field) == match spec_encode_items::<T>(
            items,
            field,
        ) {
            Err(e) => Err(e),
            Ok(body) => match T::spec_encode(last) {
                Ok(b) => Ok(body + b),
                Err(_) => Err(ProtocolError::NestedCodecError(field)),
            },
        },
    decreases items.len(),
{
    let all = items.push(last);
    if items.len() == 0 {
        assert(all.skip(1) =~= Seq::<T::V>::empty());
    } else {
        assert(all.skip(1) =~= items.skip(1).push(last));
        lemma_encode_items_push::<T>(items.skip(1), last, field);
        match T::spec_encode(items[0]) {
            Ok(head) => match spec_encode_items::<T>(items.skip(1), field) {
                Ok(tail) => match T::spec_encode(last) {
                    Ok(b) => {
                        assert(head + (tail + b) =~= (head + tail) + b);
                    },
                    Err(_) => {},
                },
                Err(_) => {},
            },
            Err(_) => {},
        }
    }
}

/// A collection whose front part has no encoding has none, for the same
/// reason.
pub proof fn lemma_encode_items_prefix_err<T: WireFormat>(items: Seq<T::V>, k: int, field: Field)
    requires
        0 <= k <= items.len(),
        spec_encode_items::<T>(items.take(k), field) is Err,
    ensures
        spec_encode_items::<T>(items, field) == spec_encode_items::<T>(items.take(k), field),
    decreases items.len() - k,
{
    if k < items.len() {
        assert(items.take(k + 1) =~= items.take(k).push(items[k]));
        lemma_encode_items_push::<T>(items.take(k), items[k], field);
        lemma_encode_items_prefix_err::<T>(items, k + 1, field);
    } else {
        assert(items.take(k) =~= items);
    }
}

/// The items that were read are as many as asked for, are values of the
/// type, and took no more bytes than the buffer holds.
pub proof fn lemma_decode_items_consumed<T: WireFormat>(
    buf: Seq<u8>,
    count: nat,
    field: Field,
    context: SerializationContext,
)
    ensures
        spec_decode_items::<T>(buf, count, field, context) matches Ok((items, n)) ==> n
            <= buf.len() && items.len() == count && all_well_formed::<T>(items),
    decreases count,
{
    if count > 0 {
        T::lemma_decode_consumed(buf, context);
        match T::spec_decode(buf, context) {
            Ok((v, n)) => {
                lemma_decode_items_consumed::<T>(
                    remaining(buf, n),
                    (count - 1) as nat,
                    field,
                    context,
                );
            },
            Err(_) => {},
        }
    }
}

/// Reading back the items that were written gives them back, and the length
/// of their encodings, whatever follows in the buffer.
pub proof fn lemma_items_round_trip<T: WireFormat>(
    items: Seq<T::V>,
    rest: Seq<u8>,
    field: Field,
    context: SerializationContext,
)
    requires
        all_well_formed::<T>(items),
        all_within_limits::<T>(items, context),
        spec_encode_items::<T>(items, field) is Ok,
    ensures
        spec_decode_items::<T>(
            spec_encode_items::<T>(items, field)->Ok_0 + rest,
            items.len(),
            field,
            context,
        ) == Ok::<(Seq<T::V>, nat), ProtocolError>(
            (items, spec_encode_items::<T>(items, field)->Ok_0.len()),
        ),
    decreases items.len(),
{
    if items.len() > 0 {
        let head = T::spec_encode(items[0])->Ok_0;
        let tail = spec_encode_items::<T>(items.skip(1), field)->Ok_0;
        let buf = (head + tail) + rest;
        assert(buf =~= head + (tail + rest));
        T::lemma_round_trip(items[0], tail + rest, context);
        assert(remaining(buf, head.len()) =~= tail + rest);
        lemma_items_round_trip::<T>(items.skip(1), rest, field, context);
        assert(seq![items[0]] + items.skip(1) =~= items);
    } else {
        assert(items =~= Seq::<T::V>::empty());
    }
}

/// Reading the items from a strict prefix of what was written fails because
/// the buffer is short.
pub proof fn lemma_items_truncated<T: WireFormat>(
    items: Seq<T::V>,
    n: int,
    field: Field,
    context: SerializationContext,
)
    requires
        all_well_formed::<T>(items),
        all_within_limits::<T>(items, context),
        spec_encode_items::<T>(items, field) is Ok,
        0 <= n < spec_encode_items::<T>(items, field)->Ok_0.len(),
    ensures
        spec_decode_items::<T>(
            spec_encode_items::<T>(items, field)->Ok_0.take(n),
            items.len(),
            field,
            context,
        ) == Err::<(Seq<T::V>, nat), ProtocolError>(ProtocolError::Truncated),
    decreases items.len(),
{
    let head = T::spec_encode(items[0])->Ok_0;
    let tail = spec_encode_items::<T>(items.skip(1), field)->Ok_0;
    let buf = (head + tail).take(n);
    if n < head.len() {
        assert(buf =~= head.take(n));
        T::lemma_truncated(items[0], n, context);
    } else {
        assert(buf =~= head + tail.take(n - head.len()));
        T::lemma_round_trip(items[0], tail.take(n - head.len()), context);
        assert(remaining(buf, head.len()) =~= tail.take(n - head.len()));
        lemma_items_truncated::<T>(items.skip(1), n - head.len(), field, context);
    }
}

/// What was read is a collection of `max` values of the type at most, and
/// took no more bytes than the buffer holds.
pub proof fn lemma_decode_collection_consumed<T: WireFormat>(
    buf: Seq<u8>,
    max: u32,
    field: Field,
    context: SerializationContext,
)
    ensures
        spec_decode_collection::<T>(buf, max, field, context) matches Ok((items, n)) ==> n
            <= buf.len() && items.len() <= max && all_well_formed::<T>(items),
{
    lemma_parse_varint_consumed(buf, 5);
    match spec_from_varint_bytes_bounded(buf, max) {
        Ok((count, n)) => {
            lemma_decode_items_consumed::<T>(remaining(buf, n), count as nat, field, context);
        },
        Err(_) => {},
    }
}

/// A count above the maximum is refused, whatever follows it.
pub proof fn lemma_collection_bound_enforced<T: WireFormat>(
    buf: Seq<u8>,
    max: u32,
    field: Field,
    context: SerializationContext,
)
    requires
        parse_varint(buf, 5) matches Ok((count, _)) && count > max,
    ensures
        spec_decode_collection::<T>(buf, max, field, context) == Err::<
            (Seq<T::V>, nat),
            ProtocolError,
        >(ProtocolError::BoundExceeded),
{
}

/// Reading back a collection that was written, and that is within the
/// maximum, gives it back, and the length of its encoding, whatever follows in
/// the buffer.
pub proof fn lemma_collection_round_trip<T: WireFormat>(
    items: Seq<T::V>,
    rest: Seq<u8>,
    max: u32,
    field: Field,
    context: SerializationContext,
)
    requires
        all_well_formed::<T>(items),
        all_within_limits::<T>(items, context),
        items.len() <= max,
        spec_encode_collection::<T>(items, field) is Ok,
    ensures
        spec_decode_collection::<T>(
            spec_encode_collection::<T>(items, field)->Ok_0 + rest,
            max,
            field,
            context,
        ) == Ok::<(Seq<T::V>, nat), ProtocolError>(
            (items, spec_encode_collection::<T>(items, field)->Ok_0.len()),
        ),
{
    let count = varint_bytes(items.len());
    let body = spec_encode_items::<T>(items, field)->Ok_0;
    let buf = (count + body) + rest;
    assert(buf =~= count + (body + rest));
    lemma_u32_varint_len(items.len() as u32);
    lemma_parse_varint_round_trip(items.len(), body + rest, 5);
    assert(remaining(buf, count.len()) =~= body + rest);
    lemma_items_round_trip::<T>(items, rest, field, context);
}

/// Reading a collection from a strict prefix of what was written fails
/// because the buffer is short.
pub proof fn lemma_collection_truncated<T: WireFormat>(
    items: Seq<T::V>,
    n: int,
    max: u32,
    field: Field,
    context: SerializationContext,
)
    requires
        all_well_formed::<T>(items),
        all_within_limits::<T>(items, context),
        items.len() <= max,
        spec_encode_collection::<T>(items, field) is Ok,
        0 <= n < spec_encode_collection::<T>(items, field)->Ok_0.len(),
    ensures
        spec_decode_collection::<T>(
            spec_encode_collection::<T>(items, field)->Ok_0.take(n),
            max,
            field,
            context,
        ) == Err::<(Seq<T::V>, nat), ProtocolError>(ProtocolError::Truncated),
{
    let count = varint_bytes(items.len());
    let body = spec_encode_items::<T>(items, field)->Ok_0;
    let buf = (count + body).take(n);
    lemma_u32_varint_len(items.len() as u32);
    if n < count.len() {
        assert(buf =~= count.take(n));
        lemma_parse_varint_truncated(items.len(), n, 5);
    } else {
        assert(buf =~= count + body.take(n - count.len()));
        lemma_parse_varint_round_trip(items.len(), body.take(n - count.len()), 5);
        assert(remaining(buf, count.len()) =~= body.take(n - count.len()));
        lemma_items_truncated::<T>(items, n - count.len(), field, context);
    }
}

proof fn lemma_resume_items_step<T: WireFormat>(
    buf: Seq<u8>,
    cursor: nat,
    acc: Seq<T::V>,
    taken: nat,
    left: nat,
    field: Field,
    context: SerializationContext,
)
    requires
        cursor <= buf.len(),
        left > 0,
        T::spec_decode(buf.skip(cursor as int), context) is Ok,
    ensures
        ({
            let (v, n) = T::spec_decode(buf.skip(cursor as int), context)->Ok_0;
            &&& cursor + n <= buf.len()
            &&& resume_items(
                acc,
                taken,
                spec_decode_items::<T>(buf.skip(cursor as int), left, field, context),
            ) == resume_items(
                acc.push(v),
                taken + n,
                spec_decode_items::<T>(
                    buf.skip((cursor + n) as int),
                    (left - 1) as nat,
                    field,
                    context,
                ),
            )
        }),
{
    let here = buf.skip(cursor as int);
    T::lemma_decode_consumed(here, context);
    let (v, n) = T::spec_decode(here, context)->Ok_0;
    assert(remaining(here, n) =~= buf.skip((cursor + n) as int));
    match spec_decode_items::<T>(buf.skip((cursor + n) as int), (left - 1) as nat, field, context) {
        Ok((vs, m)) => {
            assert(acc + (seq![v] + vs) =~= acc.push(v) + vs);
        },
        Err(_) => {},
    }
}

/// Appends the encoding of `items` as a collection to `res`. On failure `res`
/// is left as it was.
pub fn serialize_items<T: SerializeCompact>(res: &mut Vec<u8>, items: &Vec<T>, field: Field) -> (r:
    Result<(), ProtocolError>)
    ensures
        match r {
            Ok(()) => spec_encode_collection::<T>(views(items@), field) is Ok && final(res)@
                == old(res)@ + spec_encode_collection::<T>(views(items@), field)->Ok_0
                && all_well_formed::<T>(views(items@)),
            Err(e) => spec_encode_collection::<T>(views(items@), field) == Err::<
                Seq<u8>,
                ProtocolError,
            >(e) && final(res)@ == old(res)@,
        },
{
    let ghost all = views(items@);
    if items.len() > 0xffff_ffff {
        return Err(ProtocolError::LengthOverflow);
    }
    let mut out: Vec<u8> = to_varint_bytes(items.len() as u32);
    let ghost prefix = out@;
    let mut i: usize = 0;
    while i < items.len()
        invariant
            i <= items.len(),
            items.len() <= u32::MAX,
            res@ == old(res)@,
            all == views(items@),
            spec_encode_items::<T>(all.take(i as int), field) is Ok,
            out@ == prefix + spec_encode_items::<T>(all.take(i as int), field)->Ok_0,
            all_well_formed::<T>(all.take(i as int)),
        decreases items.len() - i,
    {
        proof {
            assert(all.take(i + 1) =~= all.take(i as int).push(all[i as int]));
            lemma_encode_items_push::<T>(all.take(i as int), all[i as int], field);
        }
        match items[i].to_bytes_compact() {
            Ok(mut bytes) => {
                out.append(&mut bytes);
            },
            Err(_) => {
                proof {
                    lemma_encode_items_prefix_err::<T>(all, i + 1, field);
                }
                return Err(ProtocolError::NestedCodecError(field));
            },
        }
        i = i + 1;
    }
    proof {
        assert(all.take(i as int) =~= all);
    }
    res.append(&mut out);
    Ok(())
}

/// Reads a collection of `max` items at most from `buffer`, starting at
/// `cursor`, and moves the cursor behind it. On failure the cursor stays.
pub fn deserialize_items<T: DeserializeCompact>(
    buffer: &[u8],
    cursor: &mut usize,
    max: u32,
    field: Field,
    context: &SerializationContext,
) -> (r: Result<Vec<T>, ProtocolError>)
    ensures
        match r {
            Ok(items) => spec_decode_collection::<T>(
                remaining(buffer@, *old(cursor) as nat),
                max,
                field,
                *context,
            ) == Ok::<(Seq<T::V>, nat), ProtocolError>(
                (views(items@), (*final(cursor) - *old(cursor)) as nat),
            ) && *old(cursor) <= *final(cursor) <= buffer@.len() && items@.len() <= max
                && all_well_formed::<T>(views(items@)),
            Err(e) => spec_decode_collection::<T>(
                remaining(buffer@, *old(cursor) as nat),
                max,
                field,
                *context,
            ) == Err::<(Seq<T::V>, nat), ProtocolError>(e) && *final(cursor) == *old(cursor),
        },
{
    let start: usize = *cursor;
    if start > buffer.len() {
        return Err(ProtocolError::Truncated);
    }
    let (length, delta) = match from_varint_bytes_bounded(
        slice_subrange(buffer, start, buffer.len()),
        max,
    ) {
        Ok(read) => read,
        Err(e) => {
            return Err(e);
        },
    };
    let mut c: usize = start + delta;
    let mut items: Vec<T> = Vec::with_capacity(length as usize);
    let mut i: u32 = 0;
    proof {
        assert(remaining(remaining(buffer@, start as nat), delta as nat) =~= buffer@.skip(
            c as int,
        ));
    }
    while i < length
        invariant
            i <= length,
            *cursor == *old(cursor),
            start == *old(cursor),
            start + delta <= c <= buffer@.len(),
            items@.len() == i,
            all_well_formed::<T>(views(items@)),
            spec_decode_collection::<T>(
                remaining(buffer@, start as nat),
                max,
                field,
                *context,
            ) == resume_items(
                views(items@),
                (c - start) as nat,
                spec_decode_items::<T>(
                    buffer@.skip(c as int),
                    (length - i) as nat,
                    field,
                    *context,
                ),
            ),
        decreases length - i,
    {
        match T::from_bytes_compact(slice_subrange(buffer, c, buffer.len()), context) {
            Ok((item, n)) => {
                proof {
                    lemma_resume_items_step::<T>(
                        buffer@,
                        c as nat,
                        views(items@),
                        (c - start) as nat,
                        (length - i) as nat,
                        field,
                        *context,
                    );
                    assert(views(items@.push(item)) =~= views(items@).push(item@));
                }
                c = c + n;
                items.push(item);
            },
            Err(e) => {
                return Err(wrap_nested_failure(e, field));
            },
        }
        i = i + 1;
    }
    *cursor = c;
    Ok(items)
}

} // verus!
