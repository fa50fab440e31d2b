//! Keyboard values: the modifier mask, the key code, and the `Key` pair that
//! key events carry, together with their three-byte wire form.

use crate::encoding::{write_prefix, DecodeError, EncodeError};
use vstd::bytes::*;
use vstd::prelude::*;
use vstd::slice::slice_subrange;

verus! {

/// Modifier bitmask carried by key events.
#[derive(Clone, Copy, Debug, Hash, PartialEq, Eq, Structural)]
pub struct ModMask(pub u16);

/// Key code as reported by the input hardware.
#[derive(Clone, Copy, Debug, Hash, PartialEq, Eq, Structural)]
pub struct Keycode(pub u8);

/// A concrete key: modifier state plus key code.
#[derive(Clone, Copy, Debug, Hash, PartialEq, Eq, Structural)]
pub struct Key {
    pub modmask: ModMask,
    pub keycode: Keycode,
}

impl Key {
    /// Wire form: the modifier mask as two little-endian bytes, then the key
    /// code, three bytes in all.
    pub open spec fn spec_bytes(self) -> Seq<u8> {
        spec_u16_to_le_bytes(self.modmask.0) + seq![self.keycode.0]
    }

    /// The key a buffer decodes to; the bytes past the first three are ignored.
    pub open spec fn spec_of_bytes(b: Seq<u8>) -> Option<Key> {
        if b.len() < 3 {
            None
        } else {
            Some(
                Key {
                    modmask: ModMask(spec_u16_from_le_bytes(b.subrange(0, 2))),
                    keycode: Keycode(b[2]),
                },
            )
        }
    }

    pub fn new(modmask: ModMask, keycode: Keycode) -> (r: Key)
        ensures
            r == (Key { modmask, keycode }),
    {
        Key { modmask, keycode }
    }

    /// Number of bytes the wire form takes.
    pub fn encoded_size(&self) -> (n: usize)
        ensures
            n == self.spec_bytes().len(),
    {
        proof {
            lemma_auto_spec_u16_to_from_le_bytes();
        }
        3
    }

    /// Encode into a fresh buffer of exactly the encoded size.
    pub fn encode_to_vec(&self) -> (r: Vec<u8>)
        ensures
            r@ == self.spec_bytes(),
    {
        let mut r = u16_to_le_bytes(self.modmask.0);
        r.push(self.keycode.0);
        proof {
            assert(r@ =~= self.spec_bytes());
        }
        r
    }

    /// Encode into the front of a caller-supplied buffer.
    pub fn encode_to(&self, buffer: &mut Vec<u8>) -> (r: Result<(), EncodeError>)
        ensures
            r is Ok <==> old(buffer).len() >= self.spec_bytes().len(),
            r is Ok ==> final(buffer)@ == self.spec_bytes() + old(buffer)@.skip(
                self.spec_bytes().len() as int,
            ),
            r is Err ==> final(buffer)@ == old(buffer)@ && r == Err::<(), EncodeError>(
                EncodeError::BufferSize,
            ),
    {
        let bytes = self.encode_to_vec();
        write_prefix(buffer, &bytes)
    }

    /// Decode a key from the front of `buffer`.
    pub fn decode(buffer: &[u8]) -> (r: Result<Key, DecodeError>)
        ensures
            (r is Ok) == (Key::spec_of_bytes(buffer@) is Some),
            r matches Ok(k) ==> Key::spec_of_bytes(buffer@) == Some(k),
            r matches Err(e) ==> e == DecodeError::BadFormat,
    {
        if buffer.len() < 3 {
            return Err(DecodeError::BadFormat);
        }
        let modmask = u16_from_le_bytes(slice_subrange(buffer, 0, 2));
        let keycode = *vstd::slice::slice_index_get(buffer, 2);
        Ok(Key { modmask: ModMask(modmask), keycode: Keycode(keycode) })
    }
}

impl Key {
    /// Subscription shape for presses of this key.
    pub fn press_subscription(self) -> (r: crate::event::SubscriptionEvent)
        ensures
            r == crate::event::SubscriptionEvent::KeyPress(self),
    {
        crate::event::SubscriptionEvent::KeyPress(self)
    }

    /// Subscription shape for releases of this key.
    pub fn release_subscription(self) -> (r: crate::event::SubscriptionEvent)
        ensures
            r == crate::event::SubscriptionEvent::KeyRelease(self),
    {
        crate::event::SubscriptionEvent::KeyRelease(self)
    }
}

/// A key pattern named by raw integers, as host-call buffers carry it.
#[derive(Clone, Copy, Debug, Hash, PartialEq, Eq, Structural)]
pub struct KeySubscription {
    pub modmask: u16,
    pub keycode: u8,
}

impl KeySubscription {
    pub fn new(modmask: u16, keycode: u8) -> (r: KeySubscription)
        ensures
            r == (KeySubscription { modmask, keycode }),
    {
        KeySubscription { modmask, keycode }
    }

    /// The key this pattern names.
    pub fn key(&self) -> (r: Key)
        ensures
            r == (Key { modmask: ModMask(self.modmask), keycode: Keycode(self.keycode) }),
    {
        Key { modmask: ModMask(self.modmask), keycode: Keycode(self.keycode) }
    }
}

/// Law: decoding the wire form of any key gives that key back.
pub proof fn lemma_key_round_trip(k: Key)
    ensures
        Key::spec_of_bytes(k.spec_bytes()) == Some(k),
{
    lemma_auto_spec_u16_to_from_le_bytes();
    let b = k.spec_bytes();
    assert(b.subrange(0, 2) =~= spec_u16_to_le_bytes(k.modmask.0));
    assert(b[2] == k.keycode.0);
}

/// Law: the reported encoded size is the length of the wire form.
pub proof fn lemma_key_size(k: Key)
    ensures
        k.spec_bytes().len() == 3,
{
    lemma_auto_spec_u16_to_from_le_bytes();
}

} // verus!
