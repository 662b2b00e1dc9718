//! Node versions.
//!
//! A version names a network instance by four bytes and carries a major and
//! a minor number, as in `TEST.1.2`. On the wire it is the four bytes of the
//! instance followed by the two numbers as variable-length integers.

use crate::compact::{DeserializeCompact, SerializeCompact, WireFormat};
use crate::context::SerializationContext;
use crate::error::{Field, ProtocolError};
use crate::fixed::{array_from_slice, array_to_vec};
use crate::varint::{
    from_varint_bytes, lemma_parse_varint_round_trip, lemma_parse_varint_truncated,
    lemma_u32_varint_len, spec_from_varint_bytes, to_varint_bytes, varint_bytes, VarintError,
};
use vstd::prelude::*;
use vstd::slice::slice_subrange;
use vstd::string::StringSliceAdditionalSpecFns;

verus! {

/// Number of bytes of the name of a network instance.
pub const INSTANCE_SIZE_BYTES: usize = 4;

/// The version of a node.
#[derive(Clone, Copy, Debug, PartialEq, Eq, Hash)]
pub struct Version {
    /// The name of the network instance.
    pub instance: [u8; 4],
    /// The major number.
    pub major: u32,
    /// The minor number.
    pub minor: u32,
}

/// The model of a version.
pub struct VersionView {
    /// The name of the network instance.
    pub instance: Seq<u8>,
    /// The major number.
    pub major: u32,
    /// The minor number.
    pub minor: u32,
}

impl View for Version {
    type V = VersionView;

    open spec fn view(&self) -> VersionView {
        VersionView { instance: self.instance@, major: self.major, minor: self.minor }
    }
}

/// What a failed read of a number means for the version that holds it.
pub open spec fn version_failure(e: VarintError) -> ProtocolError {
    match e {
        VarintError::Truncated => ProtocolError::Truncated,
        VarintError::TooLarge => ProtocolError::NestedCodecError(Field::Version),
    }
}

impl WireFormat for Version {
    open spec fn well_formed(v: VersionView) -> bool {
        v.instance.len() == INSTANCE_SIZE_BYTES
    }

    open spec fn within_limits(v: VersionView, context: SerializationContext) -> bool {
        true
    }

    open spec fn spec_encode(v: VersionView) -> Result<Seq<u8>, ProtocolError> {
        Ok(v.instance + varint_bytes(v.major as nat) + varint_bytes(v.minor as nat))
    }

    open spec fn spec_decode(buf: Seq<u8>, context: SerializationContext) -> Result<
        (VersionView, nat),
        ProtocolError,
    > {
        if buf.len() < INSTANCE_SIZE_BYTES {
            Err(ProtocolError::Truncated)
        } else {
            match spec_from_varint_bytes(buf.skip(4)) {
                Err(e) => Err(version_failure(e)),
                Ok((major, n)) => match spec_from_varint_bytes(buf.skip((4 + n) as int)) {
                    Err(e) => Err(version_failure(e)),
                    Ok((minor, m)) => Ok(
                        (VersionView { instance: buf.take(4), major, minor }, 4 + n + m),
                    ),
                },
            }
        }
    }

    proof fn lemma_decode_consumed(buf: Seq<u8>, context: SerializationContext) {
        if buf.len() >= 4 {
            crate::varint::lemma_parse_varint_consumed(buf.skip(4), 5);
            match spec_from_varint_bytes(buf.skip(4)) {
                Ok((major, n)) => {
                    crate::varint::lemma_parse_varint_consumed(buf.skip((4 + n) as int), 5);
                },
                Err(_) => {},
            }
        }
    }

    proof fn lemma_round_trip(v: VersionView, rest: Seq<u8>, context: SerializationContext) {
        let major = varint_bytes(v.major as nat);
        let minor = varint_bytes(v.minor as nat);
        let buf = (v.instance + major + minor) + rest;
        lemma_u32_varint_len(v.major);
        lemma_u32_varint_len(v.minor);
        assert(buf.take(4) =~= v.instance);
        assert(buf.skip(4) =~= major + (minor + rest));
        lemma_parse_varint_round_trip(v.major as nat, minor + rest, 5);
        assert(buf.skip((4 + major.len()) as int) =~= minor + rest);
        lemma_parse_varint_round_trip(v.minor as nat, rest, 5);
    }

    proof fn lemma_truncated(v: VersionView, n: int, context: SerializationContext) {
        let major = varint_bytes(v.major as nat);
        let minor = varint_bytes(v.minor as nat);
        let buf = (v.instance + major + minor).take(n);
        lemma_u32_varint_len(v.major);
        lemma_u32_varint_len(v.minor);
        if n >= 4 {
            if n < 4 + major.len() {
                assert(buf.skip(4) =~= major.take(n - 4));
                lemma_parse_varint_truncated(v.major as nat, n - 4, 5);
            } else {
                let cut = n - 4 - major.len();
                assert(buf.skip(4) =~= major + minor.take(cut));
                lemma_parse_varint_round_trip(v.major as nat, minor.take(cut), 5);
                assert(buf.skip((4 + major.len()) as int) =~= minor.take(cut));
                lemma_parse_varint_truncated(v.minor as nat, cut, 5);
            }
        }
    }
}

impl SerializeCompact for Version {
    fn to_bytes_compact(&self) -> (r: Result<Vec<u8>, ProtocolError>) {
        let mut out: Vec<u8> = array_to_vec(&self.instance);
        let mut major = to_varint_bytes(self.major);
        let mut minor = to_varint_bytes(self.minor);
        out.append(&mut major);
        out.append(&mut minor);
        Ok(out)
    }
}

/// Computes [`version_failure`].
fn wrap_version_failure(e: VarintError) -> (r: ProtocolError)
    ensures
        r == version_failure(e),
{
    match e {
        VarintError::Truncated => ProtocolError::Truncated,
        VarintError::TooLarge => ProtocolError::NestedCodecError(Field::Version),
    }
}

impl DeserializeCompact for Version {
    fn from_bytes_compact(buffer: &[u8], context: &SerializationContext) -> (r: Result<
        (Self, usize),
        ProtocolError,
    >) {
        let instance = match array_from_slice::<4>(buffer) {
            Ok(instance) => instance,
            Err(e) => {
                return Err(e);
            },
        };
        let (major, n) = match from_varint_bytes(slice_subrange(buffer, 4, buffer.len())) {
            Ok(read) => read,
            Err(e) => {
                return Err(wrap_version_failure(e));
            },
        };
        let (minor, m) = match from_varint_bytes(slice_subrange(buffer, 4 + n, buffer.len())) {
            Ok(read) => read,
            Err(e) => {
                return Err(wrap_version_failure(e));
            },
        };
        Ok((Version { instance, major, minor }, 4 + n + m))
    }
}

/// Why a text is not a version.
#[derive(Clone, Copy, Debug, PartialEq, Eq, Hash)]
pub enum VersionError {
    /// The text is not of the form instance, dot, major, dot, minor, with an
    /// instance of four bytes and two decimal numbers of 32 bits.
    InvalidFormat,
}

/// Whether `b` is a decimal digit.
pub open spec fn is_digit(b: u8) -> bool {
    48 <= b <= 57
}

/// Whether every byte of `s` is a decimal digit.
pub open spec fn all_digits(s: Seq<u8>) -> bool {
    forall|i: int| 0 <= i < s.len() ==> is_digit(#[trigger] s[i])
}

/// The number that the decimal digits `s` stand for.
pub open spec fn decimal_value(s: Seq<u8>) -> nat
    decreases s.len(),
{
    if s.len() == 0 {
        0
    } else {
        10 * decimal_value(s.drop_last()) + (s.last() - 48) as nat
    }
}

/// The number that `s` stands for, if `s` is one decimal digit or more and
/// the number fits in 32 bits.
pub open spec fn spec_parse_number(s: Seq<u8>) -> Option<u32> {
    if s.len() > 0 && all_digits(s) && decimal_value(s) <= u32::MAX {
        Some(decimal_value(s) as u32)
    } else {
        None
    }
}

/// The place of the first dot in `s`, or the length of `s` if it has none.
pub open spec fn first_dot(s: Seq<u8>) -> int
    decreases s.len(),
{
    if s.len() == 0 {
        0
    } else if s[0] == 46 {
        0
    } else {
        1 + first_dot(s.skip(1))
    }
}

/// The version that the text `b` stands for: four bytes of instance, none of
/// them a dot, then a dot, the major number, a dot and the minor number.
pub open spec fn spec_version_from_bytes(b: Seq<u8>) -> Option<VersionView> {
    if b.len() < 5 || first_dot(b) != 4 {
        None
    } else {
        let rest = b.skip(5);
        let dot = first_dot(rest);
        if dot >= rest.len() {
            None
        } else {
            match (spec_parse_number(rest.take(dot)), spec_parse_number(rest.skip(dot + 1))) {
                (Some(major), Some(minor)) => Some(
                    VersionView { instance: b.take(4), major, minor },
                ),
                _ => None,
            }
        }
    }
}

/// The first dot is in the sequence, or at its end, and no byte before it is
/// a dot.
pub proof fn lemma_first_dot(s: Seq<u8>)
    ensures
        0 <= first_dot(s) <= s.len(),
        first_dot(s) < s.len() ==> s[first_dot(s)] == 46,
        forall|i: int| 0 <= i < first_dot(s) ==> #[trigger] s[i] != 46,
    decreases s.len(),
{
    if s.len() > 0 && s[0] != 46 {
        lemma_first_dot(s.skip(1));
        assert forall|i: int| 0 <= i < first_dot(s) implies #[trigger] s[i] != 46 by {
            if i > 0 {
                assert(s[i] == s.skip(1)[i - 1]);
            }
        }
    }
}

/// A place that holds a dot, with no dot before it, is the first dot.
pub proof fn lemma_first_dot_is(s: Seq<u8>, k: int)
    requires
        0 <= k <= s.len(),
        k < s.len() ==> s[k] == 46,
        forall|i: int| 0 <= i < k ==> #[trigger] s[i] != 46,
    ensures
        first_dot(s) == k,
{
    lemma_first_dot(s);
}

/// More digits never stand for a smaller number.
pub proof fn lemma_decimal_value_grows(s: Seq<u8>, i: int)
    requires
        0 <= i <= s.len(),
        all_digits(s),
    ensures
        decimal_value(s.take(i)) <= decimal_value(s),
    decreases s.len() - i,
{
    if i < s.len() {
        lemma_decimal_value_grows(s, i + 1);
        assert(s.take(i + 1).drop_last() =~= s.take(i));
    } else {
        assert(s.take(i) =~= s);
    }
}

/// Reads the decimal number that the bytes from `start` to `end` stand for.
fn parse_number(bytes: &[u8], start: usize, end: usize) -> (r: Option<u32>)
    requires
        start <= end <= bytes@.len(),
    ensures
        r == spec_parse_number(bytes@.subrange(start as int, end as int)),
{
    let ghost digits = bytes@.subrange(start as int, end as int);
    if start == end {
        return None;
    }
    let mut acc: u64 = 0;
    let mut i: usize = start;
    while i < end
        invariant
            start <= i <= end <= bytes@.len(),
            digits == bytes@.subrange(start as int, end as int),
            all_digits(digits.take(i - start)),
            acc == decimal_value(digits.take(i - start)),
            acc <= u32::MAX,
        decreases end - i,
    {
        let b: u8 = bytes[i];
        let ghost upto = digits.take(i - start + 1);
        proof {
            assert(upto.drop_last() =~= digits.take(i - start));
        }
        if b < 48 || b > 57 {
            proof {
                assert(!is_digit(digits[i - start]));
            }
            return None;
        }
        acc = acc * 10 + (b - 48) as u64;
        if acc > 0xffff_ffff {
            proof {
                if all_digits(digits) {
                    lemma_decimal_value_grows(digits, i - start + 1);
                }
            }
            return None;
        }
        i = i + 1;
    }
    proof {
        assert(digits.take(i - start) =~= digits);
    }
    Some(acc as u32)
}

/// The place of the first dot of `bytes` at or after `start`, or the length
/// of `bytes` if there is none.
fn find_dot(bytes: &[u8], start: usize) -> (r: usize)
    requires
        start <= bytes@.len(),
    ensures
        start <= r <= bytes@.len(),
        r - start == first_dot(bytes@.skip(start as int)),
{
    let mut i: usize = start;
    while i < bytes.len()
        invariant
            start <= i <= bytes@.len(),
            forall|j: int| start <= j < i ==> #[trigger] bytes@[j] != 46,
        decreases bytes@.len() - i,
    {
        if bytes[i] == 46 {
            proof {
                let rest = bytes@.skip(start as int);
                lemma_first_dot_is(rest, i - start);
            }
            return i;
        }
        i = i + 1;
    }
    proof {
        let rest = bytes@.skip(start as int);
        lemma_first_dot_is(rest, i - start);
    }
    i
}

impl Version {
    /// Reads a version from the bytes of a text such as `TEST.1.2`.
    pub fn from_text_bytes(bytes: &[u8]) -> (r: Result<Version, VersionError>)
        ensures
            match r {
                Ok(version) => spec_version_from_bytes(bytes@) == Some(version@),
                Err(_) => spec_version_from_bytes(bytes@) is None,
            },
    {
        proof {
            assert(bytes@.skip(0) =~= bytes@);
        }
        if bytes.len() < 5 || find_dot(bytes, 0) != 4 {
            return Err(VersionError::InvalidFormat);
        }
        let dot = find_dot(bytes, 5);
        if dot >= bytes.len() {
            return Err(VersionError::InvalidFormat);
        }
        proof {
            let rest = bytes@.skip(5);
            assert(rest.take(dot - 5) =~= bytes@.subrange(5, dot as int));
            assert(rest.skip(dot - 5 + 1) =~= bytes@.subrange(dot + 1, bytes@.len() as int));
        }
        let major = parse_number(bytes, 5, dot);
        let minor = parse_number(bytes, dot + 1, bytes.len());
        match (major, minor) {
            (Some(major), Some(minor)) => {
                let instance: [u8; 4] = [bytes[0], bytes[1], bytes[2], bytes[3]];
                assert(instance@ =~= bytes@.take(4));
                Ok(Version { instance, major, minor })
            },
            _ => Err(VersionError::InvalidFormat),
        }
    }

    /// Reads a version from a text such as `TEST.1.2`: four bytes that name
    /// the instance, a dot, the major number, a dot and the minor number.
    pub fn from_str(text: &str) -> (r: Result<Version, VersionError>)
        ensures
            match r {
                Ok(version) => spec_version_from_bytes(text.spec_bytes()) == Some(version@),
                Err(_) => spec_version_from_bytes(text.spec_bytes()) is None,
            },
    {
        Version::from_text_bytes(text.as_bytes())
    }
}

} // verus!
