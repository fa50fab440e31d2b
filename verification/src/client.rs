//! Client records: the windows the manager has taken over, as shared with
//! plugins, with the same fixed-size wire form as the window values.

use crate::encoding::{
    i16_from_le_bytes, i16_to_le_bytes, spec_i16_from_le_bytes, spec_i16_to_le_bytes, write_prefix,
    DecodeError, EncodeError,
};
use vstd::bytes::*;
use vstd::prelude::*;
use vstd::slice::slice_subrange;

verus! {

/// Identifier of a managed client window.
pub type ClientId = u32;

/// Position and size of a managed client.
#[derive(Clone, Copy, Debug, Hash, PartialEq, Eq, Structural)]
pub struct ClientGeometry {
    pub x: i16,
    pub y: i16,
    pub width: u16,
    pub height: u16,
}

impl ClientGeometry {
    /// Wire form: x, y, width, height, each two bytes little-endian.
    pub open spec fn spec_bytes(self) -> Seq<u8> {
        spec_i16_to_le_bytes(self.x) + spec_i16_to_le_bytes(self.y) + spec_u16_to_le_bytes(
            self.width,
        ) + spec_u16_to_le_bytes(self.height)
    }

    /// The geometry a buffer decodes to; bytes past the first eight are ignored.
    pub open spec fn spec_of_bytes(b: Seq<u8>) -> Option<ClientGeometry> {
        if b.len() < 8 {
            None
        } else {
            Some(
                ClientGeometry {
                    x: spec_i16_from_le_bytes(b.subrange(0, 2)),
                    y: spec_i16_from_le_bytes(b.subrange(2, 4)),
                    width: spec_u16_from_le_bytes(b.subrange(4, 6)),
                    height: spec_u16_from_le_bytes(b.subrange(6, 8)),
                },
            )
        }
    }

    /// Number of bytes the wire form takes.
    pub fn encoded_size(&self) -> (n: usize)
        ensures
            n == self.spec_bytes().len(),
    {
        proof {
            crate::encoding::lemma_auto_spec_i16_to_from_le_bytes();
            lemma_auto_spec_u16_to_from_le_bytes();
        }
        8
    }

    /// Encode into a fresh buffer of exactly the encoded size.
    pub fn encode_to_vec(&self) -> (r: Vec<u8>)
        ensures
            r@ == self.spec_bytes(),
    {
        let mut r = i16_to_le_bytes(self.x);
        let mut t = i16_to_le_bytes(self.y);
        r.append(&mut t);
        let mut t = u16_to_le_bytes(self.width);
        r.append(&mut t);
        let mut t = u16_to_le_bytes(self.height);
        r.append(&mut t);
        proof {
            assert(r@ =~= self.spec_bytes());
        }
        r
    }

    /// Encode into the front of a caller-supplied buffer.
    pub fn encode_to(&self, buffer: &mut Vec<u8>) -> (r: Result<(), EncodeError>)
        ensures
            r is Ok <==> old(buffer).len() >= self.spec_bytes().len(),
            r is Ok ==> final(buffer)@ == self.spec_bytes() + old(buffer)@.skip(
                self.spec_bytes().len() as int,
            ),
            r is Err ==> final(buffer)@ == old(buffer)@ && r == Err::<(), EncodeError>(
                EncodeError::BufferSize,
            ),
    {
        let bytes = self.encode_to_vec();
        write_prefix(buffer, &bytes)
    }

    /// Decode a client geometry from the front of `buffer`.
    pub fn decode(buffer: &[u8]) -> (r: Result<ClientGeometry, DecodeError>)
        ensures
            (r is Ok) == (ClientGeometry::spec_of_bytes(buffer@) is Some),
            r matches Ok(g) ==> ClientGeometry::spec_of_bytes(buffer@) == Some(g),
            r matches Err(e) ==> e == DecodeError::BadFormat,
    {
        if buffer.len() < 8 {
            return Err(DecodeError::BadFormat);
        }
        Ok(
            ClientGeometry {
                x: i16_from_le_bytes(slice_subrange(buffer, 0, 2)),
                y: i16_from_le_bytes(slice_subrange(buffer, 2, 4)),
                width: u16_from_le_bytes(slice_subrange(buffer, 4, 6)),
                height: u16_from_le_bytes(slice_subrange(buffer, 6, 8)),
            },
        )
    }
}

/// A managed client: identifier plus geometry.
#[derive(Clone, Copy, Debug, Hash, PartialEq, Eq, Structural)]
pub struct Client {
    pub id: ClientId,
    pub geometry: ClientGeometry,
}

impl Client {
    /// Wire form: the identifier as four little-endian bytes, then the geometry.
    pub open spec fn spec_bytes(self) -> Seq<u8> {
        spec_u32_to_le_bytes(self.id) + self.geometry.spec_bytes()
    }

    /// The client a buffer decodes to; bytes past the first twelve are ignored.
    pub open spec fn spec_of_bytes(b: Seq<u8>) -> Option<Client> {
        if b.len() < 12 {
            None
        } else {
            match ClientGeometry::spec_of_bytes(b.skip(4)) {
                Some(g) => Some(Client { id: spec_u32_from_le_bytes(b.subrange(0, 4)), geometry: g }),
                None => None,
            }
        }
    }

    /// Number of bytes the wire form takes.
    pub fn encoded_size(&self) -> (n: usize)
        ensures
            n == self.spec_bytes().len(),
    {
        proof {
            crate::encoding::lemma_auto_spec_i16_to_from_le_bytes();
            lemma_auto_spec_u16_to_from_le_bytes();
            lemma_auto_spec_u32_to_from_le_bytes();
        }
        let g = self.geometry.encoded_size();
        4 + g
    }

    /// Encode into a fresh buffer of exactly the encoded size.
    pub fn encode_to_vec(&self) -> (r: Vec<u8>)
        ensures
            r@ == self.spec_bytes(),
    {
        let mut r = u32_to_le_bytes(self.id);
        let mut t = self.geometry.encode_to_vec();
        r.append(&mut t);
        proof {
            assert(r@ =~= self.spec_bytes());
        }
        r
    }

    /// Encode into the front of a caller-supplied buffer.
    pub fn encode_to(&self, buffer: &mut Vec<u8>) -> (r: Result<(), EncodeError>)
        ensures
            r is Ok <==> old(buffer).len() >= self.spec_bytes().len(),
            r is Ok ==> final(buffer)@ == self.spec_bytes() + old(buffer)@.skip(
                self.spec_bytes().len() as int,
            ),
            r is Err ==> final(buffer)@ == old(buffer)@ && r == Err::<(), EncodeError>(
                EncodeError::BufferSize,
            ),
    {
        let bytes = self.encode_to_vec();
        write_prefix(buffer, &bytes)
    }

    /// Decode a client from the front of `buffer`.
    pub fn decode(buffer: &[u8]) -> (r: Result<Client, DecodeError>)
        ensures
            (r is Ok) == (Client::spec_of_bytes(buffer@) is Some),
            r matches Ok(c) ==> Client::spec_of_bytes(buffer@) == Some(c),
            r matches Err(e) ==> e == DecodeError::BadFormat,
    {
        if buffer.len() < 12 {
            return Err(DecodeError::BadFormat);
        }
        let id = u32_from_le_bytes(slice_subrange(buffer, 0, 4));
        let rest = slice_subrange(buffer, 4, buffer.len());
        proof {
            assert(rest@ =~= buffer@.skip(4));
        }
        match ClientGeometry::decode(rest) {
            Ok(geometry) => Ok(Client { id, geometry }),
            Err(e) => Err(e),
        }
    }
}

/// Law: decoding the wire form of any client gives that client back.
pub proof fn lemma_client_round_trip(c: Client)
    ensures
        Client::spec_of_bytes(c.spec_bytes()) == Some(c),
        c.spec_bytes().len() == 12,
{
    crate::encoding::lemma_auto_spec_i16_to_from_le_bytes();
    lemma_auto_spec_u16_to_from_le_bytes();
    lemma_auto_spec_u32_to_from_le_bytes();
    let g = c.geometry;
    let gb = g.spec_bytes();
    assert(gb.subrange(0, 2) =~= spec_i16_to_le_bytes(g.x));
    assert(gb.subrange(2, 4) =~= spec_i16_to_le_bytes(g.y));
    assert(gb.subrange(4, 6) =~= spec_u16_to_le_bytes(g.width));
    assert(gb.subrange(6, 8) =~= spec_u16_to_le_bytes(g.height));
    let b = c.spec_bytes();
    assert(b.subrange(0, 4) =~= spec_u32_to_le_bytes(c.id));
    assert(b.skip(4) =~= gb);
}

} // verus!
