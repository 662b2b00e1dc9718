//! Peer addresses.
//!
//! An address is written as one byte that names its family, 4 or 6, and the
//! octets of the address: four of them for the first family, sixteen for the
//! second.

use crate::compact::{DeserializeCompact, SerializeCompact, WireFormat};
use crate::context::SerializationContext;
use crate::error::{Field, ProtocolError};
use crate::fixed::{array_from_slice, array_to_vec};
use vstd::prelude::*;
use vstd::slice::slice_subrange;

verus! {

/// The address of a peer.
#[derive(Clone, Copy, Debug, PartialEq, Eq, Hash)]
pub enum IpAddr {
    /// An address of four octets.
    V4([u8; 4]),
    /// An address of sixteen octets.
    V6([u8; 16]),
}

/// The model of an address: its family and its octets.
pub enum IpAddrView {
    /// An address of four octets.
    V4(Seq<u8>),
    /// An address of sixteen octets.
    V6(Seq<u8>),
}

impl View for IpAddr {
    type V = IpAddrView;

    open spec fn view(&self) -> IpAddrView {
        match self {
            IpAddr::V4(octets) => IpAddrView::V4(octets@),
            IpAddr::V6(octets) => IpAddrView::V6(octets@),
        }
    }
}

impl WireFormat for IpAddr {
    open spec fn well_formed(v: IpAddrView) -> bool {
        match v {
            IpAddrView::V4(octets) => octets.len() == 4,
            IpAddrView::V6(octets) => octets.len() == 16,
        }
    }

    open spec fn within_limits(v: IpAddrView, context: SerializationContext) -> bool {
        true
    }

    open spec fn spec_encode(v: IpAddrView) -> Result<Seq<u8>, ProtocolError> {
        match v {
            IpAddrView::V4(octets) => Ok(seq![4u8] + octets),
            IpAddrView::V6(octets) => Ok(seq![6u8] + octets),
        }
    }

    open spec fn spec_decode(buf: Seq<u8>, context: SerializationContext) -> Result<
        (IpAddrView, nat),
        ProtocolError,
    > {
        if buf.len() == 0 {
            Err(ProtocolError::Truncated)
        } else if buf[0] == 4 {
            if buf.len() >= 5 {
                Ok((IpAddrView::V4(buf.subrange(1, 5)), 5))
            } else {
                Err(ProtocolError::Truncated)
            }
        } else if buf[0] == 6 {
            if buf.len() >= 17 {
                Ok((IpAddrView::V6(buf.subrange(1, 17)), 17))
            } else {
                Err(ProtocolError::Truncated)
            }
        } else {
            Err(ProtocolError::NestedCodecError(Field::PeerAddress))
        }
    }

    proof fn lemma_decode_consumed(buf: Seq<u8>, context: SerializationContext) {
    }

    proof fn lemma_round_trip(v: IpAddrView, rest: Seq<u8>, context: SerializationContext) {
        let buf = Self::spec_encode(v)->Ok_0 + rest;
        match v {
            IpAddrView::V4(octets) => {
                assert(buf.subrange(1, 5) =~= octets);
            },
            IpAddrView::V6(octets) => {
                assert(buf.subrange(1, 17) =~= octets);
            },
        }
    }

    proof fn lemma_truncated(v: IpAddrView, n: int, context: SerializationContext) {
        let buf = Self::spec_encode(v)->Ok_0.take(n);
        if n > 0 {
            assert(buf[0] == Self::spec_encode(v)->Ok_0[0]);
        }
    }
}

impl SerializeCompact for IpAddr {
    fn to_bytes_compact(&self) -> (r: Result<Vec<u8>, ProtocolError>) {
        let mut out: Vec<u8> = Vec::new();
        match self {
            IpAddr::V4(octets) => {
                out.push(4);
                let mut tail = array_to_vec(octets);
                out.append(&mut tail);
            },
            IpAddr::V6(octets) => {
                out.push(6);
                let mut tail = array_to_vec(octets);
                out.append(&mut tail);
            },
        }
        Ok(out)
    }
}

impl DeserializeCompact for IpAddr {
    fn from_bytes_compact(buffer: &[u8], context: &SerializationContext) -> (r: Result<
        (Self, usize),
        ProtocolError,
    >) {
        if buffer.len() == 0 {
            return Err(ProtocolError::Truncated);
        }
        let family: u8 = buffer[0];
        if family == 4 {
            match array_from_slice::<4>(slice_subrange(buffer, 1, buffer.len())) {
                Ok(octets) => {
                    assert(buffer@.subrange(1, buffer@.len() as int).take(4) =~= buffer@.subrange(
                        1,
                        5,
                    ));
                    Ok((IpAddr::V4(octets), 5))
                },
                Err(e) => Err(e),
            }
        } else if family == 6 {
            match array_from_slice::<16>(slice_subrange(buffer, 1, buffer.len())) {
                Ok(octets) => {
                    assert(buffer@.subrange(1, buffer@.len() as int).take(16)
                        =~= buffer@.subrange(1, 17));
                    Ok((IpAddr::V6(octets), 17))
                },
                Err(e) => Err(e),
            }
        } else {
            Err(ProtocolError::NestedCodecError(Field::PeerAddress))
        }
    }
}

} // verus!
