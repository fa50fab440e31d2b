//! Events, subscriptions, and their tagged wire forms.
//!
//! An event is a four-byte little-endian tag followed by a payload whose size
//! is fixed by the tag.  A subscription event mirrors an event but carries no
//! per-instance payload for the window variants.

use crate::encoding::{write_prefix, DecodeError, EncodeError};
use crate::key::Key;
use crate::window::{Window, WindowId};
use vstd::bytes::*;
use vstd::prelude::*;
use vstd::slice::slice_subrange;

verus! {

/// Wire tag of a key-press event.
pub const KEY_PRESS: u32 = 1;

/// Wire tag of a key-release event.
pub const KEY_RELEASE: u32 = 2;

/// Wire tag of a window-added event.
pub const WINDOW_ADD: u32 = 3;

/// Wire tag of a window-removed event.
pub const WINDOW_REMOVE: u32 = 4;

/// Wire tag of a window-configured event.
pub const WINDOW_CONFIGURE: u32 = 5;

/// An event as delivered to plugins.
#[derive(Clone, Copy, Debug, Hash, PartialEq, Eq, Structural)]
pub enum Event {
    KeyPress(Key),
    KeyRelease(Key),
    WindowAdd(WindowId),
    WindowRemove(WindowId),
    WindowConfigure(Window),
}

impl Event {
    /// Wire tag of this event.
    pub open spec fn spec_id(self) -> u32 {
        match self {
            Event::KeyPress(_) => KEY_PRESS,
            Event::KeyRelease(_) => KEY_RELEASE,
            Event::WindowAdd(_) => WINDOW_ADD,
            Event::WindowRemove(_) => WINDOW_REMOVE,
            Event::WindowConfigure(_) => WINDOW_CONFIGURE,
        }
    }

    pub fn id(&self) -> (r: u32)
        ensures
            r == self.spec_id(),
    {
        match self {
            Event::KeyPress(_) => KEY_PRESS,
            Event::KeyRelease(_) => KEY_RELEASE,
            Event::WindowAdd(_) => WINDOW_ADD,
            Event::WindowRemove(_) => WINDOW_REMOVE,
            Event::WindowConfigure(_) => WINDOW_CONFIGURE,
        }
    }

    /// Wire form: the tag, then the payload the tag calls for.
    pub open spec fn spec_bytes(self) -> Seq<u8> {
        spec_u32_to_le_bytes(self.spec_id()) + match self {
            Event::KeyPress(k) => k.spec_bytes(),
            Event::KeyRelease(k) => k.spec_bytes(),
            Event::WindowAdd(w) => spec_u32_to_le_bytes(w),
            Event::WindowRemove(w) => spec_u32_to_le_bytes(w),
            Event::WindowConfigure(w) => w.spec_bytes(),
        }
    }

    /// The event a buffer decodes to, if its tag is known and its payload is
    /// long enough; bytes past the payload are ignored.
    pub open spec fn spec_of_bytes(b: Seq<u8>) -> Option<Event> {
        if b.len() < 4 {
            None
        } else {
            let tag = spec_u32_from_le_bytes(b.subrange(0, 4));
            let rest = b.skip(4);
            if tag == KEY_PRESS {
                match Key::spec_of_bytes(rest) {
                    Some(k) => Some(Event::KeyPress(k)),
                    None => None,
                }
            } else if tag == KEY_RELEASE {
                match Key::spec_of_bytes(rest) {
                    Some(k) => Some(Event::KeyRelease(k)),
                    None => None,
                }
            } else if tag == WINDOW_ADD {
                if rest.len() < 4 {
                    None
                } else {
                    Some(Event::WindowAdd(spec_u32_from_le_bytes(rest.subrange(0, 4))))
                }
            } else if tag == WINDOW_REMOVE {
                if rest.len() < 4 {
                    None
                } else {
                    Some(Event::WindowRemove(spec_u32_from_le_bytes(rest.subrange(0, 4))))
                }
            } else if tag == WINDOW_CONFIGURE {
                match Window::spec_of_bytes(rest) {
                    Some(w) => Some(Event::WindowConfigure(w)),
                    None => None,
                }
            } else {
                None
            }
        }
    }

    /// Number of bytes the wire form takes: fixed per tag.
    pub fn encoded_size(&self) -> (n: usize)
        ensures
            n == self.spec_bytes().len(),
    {
        proof {
            lemma_auto_spec_u32_to_from_le_bytes();
            crate::encoding::lemma_auto_spec_i16_to_from_le_bytes();
            lemma_auto_spec_u16_to_from_le_bytes();
        }
        match self {
            Event::KeyPress(k) => 4 + k.encoded_size(),
            Event::KeyRelease(k) => 4 + k.encoded_size(),
            Event::WindowAdd(_) => 8,
            Event::WindowRemove(_) => 8,
            Event::WindowConfigure(w) => 4 + w.encoded_size(),
        }
    }

    /// Encode into a fresh buffer of exactly the encoded size.
    pub fn encode_to_vec(&self) -> (r: Vec<u8>)
        ensures
            r@ == self.spec_bytes(),
    {
        let mut r = u32_to_le_bytes(self.id());
        let mut payload = match self {
            Event::KeyPress(k) => k.encode_to_vec(),
            Event::KeyRelease(k) => k.encode_to_vec(),
            Event::WindowAdd(w) => u32_to_le_bytes(*w),
            Event::WindowRemove(w) => u32_to_le_bytes(*w),
            Event::WindowConfigure(w) => w.encode_to_vec(),
        };
        r.append(&mut payload);
        proof {
            assert(r@ =~= self.spec_bytes());
        }
        r
    }

    /// Encode into the front of a caller-supplied buffer.
    pub fn encode_to(&self, buffer: &mut Vec<u8>) -> (r: Result<(), EncodeError>)
        ensures
            r is Ok <==> old(buffer).len() >= self.spec_bytes().len(),
            r is Ok ==> final(buffer)@ == self.spec_bytes() + old(buffer)@.skip(
                self.spec_bytes().len() as int,
            ),
            r is Err ==> final(buffer)@ == old(buffer)@ && r == Err::<(), EncodeError>(
                EncodeError::BufferSize,
            ),
    {
        let bytes = self.encode_to_vec();
        write_prefix(buffer, &bytes)
    }

    /// Decode an event from the front of `buffer`.
    pub fn decode(buffer: &[u8]) -> (r: Result<Event, DecodeError>)
        ensures
            (r is Ok) == (Event::spec_of_bytes(buffer@) is Some),
            r matches Ok(e) ==> Event::spec_of_bytes(buffer@) == Some(e),
            r matches Err(e) ==> e == DecodeError::BadFormat,
    {
        if buffer.len() < 4 {
            return Err(DecodeError::BadFormat);
        }
        let tag = u32_from_le_bytes(slice_subrange(buffer, 0, 4));
        let rest = slice_subrange(buffer, 4, buffer.len());
        proof {
            assert(rest@ =~= buffer@.skip(4));
        }
        if tag == KEY_PRESS {
            match Key::decode(rest) {
                Ok(k) => Ok(Event::KeyPress(k)),
                Err(e) => Err(e),
            }
        } else if tag == KEY_RELEASE {
            match Key::decode(rest) {
                Ok(k) => Ok(Event::KeyRelease(k)),
                Err(e) => Err(e),
            }
        } else if tag == WINDOW_ADD {
            if rest.len() < 4 {
                Err(DecodeError::BadFormat)
            } else {
                Ok(Event::WindowAdd(u32_from_le_bytes(slice_subrange(rest, 0, 4))))
            }
        } else if tag == WINDOW_REMOVE {
            if rest.len() < 4 {
                Err(DecodeError::BadFormat)
            } else {
                Ok(Event::WindowRemove(u32_from_le_bytes(slice_subrange(rest, 0, 4))))
            }
        } else if tag == WINDOW_CONFIGURE {
            match Window::decode(rest) {
                Ok(w) => Ok(Event::WindowConfigure(w)),
                Err(e) => Err(e),
            }
        } else {
            Err(DecodeError::BadFormat)
        }
    }

    /// Whether this event satisfies every filter of the group.  No filter is
    /// defined yet, so every group is satisfied.
    pub fn matches(&self, _filters: &SubscriptionFilterGroup) -> (r: bool)
        ensures
            r,
    {
        true
    }
}

/// A message the core sends to its window-system collaborator: start or stop
/// producing an event shape, or reconfigure a window.
#[derive(Clone, Copy, Debug, PartialEq, Eq)]
pub enum Command {
    Subscribe(SubscriptionEvent),
    Unsubscribe(SubscriptionEvent),
    ConfigureWindow {
        id: WindowId,
        x: Option<i16>,
        y: Option<i16>,
        width: Option<u16>,
        height: Option<u16>,
    },
}

/// An event shape a plugin can subscribe to: like [`Event`], but the window
/// variants carry no payload.
#[derive(Clone, Copy, Debug, Hash, PartialEq, Eq, Structural)]
pub enum SubscriptionEvent {
    KeyPress(Key),
    KeyRelease(Key),
    WindowAdd,
    WindowRemove,
    WindowConfigure,
}

impl SubscriptionEvent {
    /// Wire tag of this subscription event.
    pub open spec fn spec_id(self) -> u32 {
        match self {
            SubscriptionEvent::KeyPress(_) => KEY_PRESS,
            SubscriptionEvent::KeyRelease(_) => KEY_RELEASE,
            SubscriptionEvent::WindowAdd => WINDOW_ADD,
            SubscriptionEvent::WindowRemove => WINDOW_REMOVE,
            SubscriptionEvent::WindowConfigure => WINDOW_CONFIGURE,
        }
    }

    pub fn id(&self) -> (r: u32)
        ensures
            r == self.spec_id(),
    {
        match self {
            SubscriptionEvent::KeyPress(_) => KEY_PRESS,
            SubscriptionEvent::KeyRelease(_) => KEY_RELEASE,
            SubscriptionEvent::WindowAdd => WINDOW_ADD,
            SubscriptionEvent::WindowRemove => WINDOW_REMOVE,
            SubscriptionEvent::WindowConfigure => WINDOW_CONFIGURE,
        }
    }

    /// The subscription shape that matches an event.
    pub open spec fn spec_from_event(ev: Event) -> SubscriptionEvent {
        match ev {
            Event::KeyPress(k) => SubscriptionEvent::KeyPress(k),
            Event::KeyRelease(k) => SubscriptionEvent::KeyRelease(k),
            Event::WindowAdd(_) => SubscriptionEvent::WindowAdd,
            Event::WindowRemove(_) => SubscriptionEvent::WindowRemove,
            Event::WindowConfigure(_) => SubscriptionEvent::WindowConfigure,
        }
    }

    pub fn from_event(ev: &Event) -> (r: SubscriptionEvent)
        ensures
            r == SubscriptionEvent::spec_from_event(*ev),
    {
        match ev {
            Event::KeyPress(k) => SubscriptionEvent::KeyPress(*k),
            Event::KeyRelease(k) => SubscriptionEvent::KeyRelease(*k),
            Event::WindowAdd(_) => SubscriptionEvent::WindowAdd,
            Event::WindowRemove(_) => SubscriptionEvent::WindowRemove,
            Event::WindowConfigure(_) => SubscriptionEvent::WindowConfigure,
        }
    }

    /// Wire form: the tag, then a key payload for the key variants only.
    pub open spec fn spec_bytes(self) -> Seq<u8> {
        spec_u32_to_le_bytes(self.spec_id()) + match self {
            SubscriptionEvent::KeyPress(k) => k.spec_bytes(),
            SubscriptionEvent::KeyRelease(k) => k.spec_bytes(),
            SubscriptionEvent::WindowAdd => Seq::<u8>::empty(),
            SubscriptionEvent::WindowRemove => Seq::<u8>::empty(),
            SubscriptionEvent::WindowConfigure => Seq::<u8>::empty(),
        }
    }

    /// The subscription event a buffer decodes to; the window variants take no
    /// payload, and bytes past the payload are ignored.
    pub open spec fn spec_of_bytes(b: Seq<u8>) -> Option<SubscriptionEvent> {
        if b.len() < 4 {
            None
        } else {
            let tag = spec_u32_from_le_bytes(b.subrange(0, 4));
            let rest = b.skip(4);
            if tag == KEY_PRESS {
                match Key::spec_of_bytes(rest) {
                    Some(k) => Some(SubscriptionEvent::KeyPress(k)),
                    None => None,
                }
            } else if tag == KEY_RELEASE {
                match Key::spec_of_bytes(rest) {
                    Some(k) => Some(SubscriptionEvent::KeyRelease(k)),
                    None => None,
                }
            } else if tag == WINDOW_ADD {
                Some(SubscriptionEvent::WindowAdd)
            } else if tag == WINDOW_REMOVE {
                Some(SubscriptionEvent::WindowRemove)
            } else if tag == WINDOW_CONFIGURE {
                Some(SubscriptionEvent::WindowConfigure)
            } else {
                None
            }
        }
    }

    /// Number of bytes the wire form takes: seven for the key variants, four
    /// for the window variants.
    pub fn encoded_size(&self) -> (n: usize)
        ensures
            n == self.spec_bytes().len(),
    {
        proof {
            lemma_auto_spec_u32_to_from_le_bytes();
            lemma_auto_spec_u16_to_from_le_bytes();
        }
        match self {
            SubscriptionEvent::KeyPress(k) => 4 + k.encoded_size(),
            SubscriptionEvent::KeyRelease(k) => 4 + k.encoded_size(),
            SubscriptionEvent::WindowAdd => 4,
            SubscriptionEvent::WindowRemove => 4,
            SubscriptionEvent::WindowConfigure => 4,
        }
    }

    /// Encode into a fresh buffer of exactly the encoded size.
    pub fn encode_to_vec(&self) -> (r: Vec<u8>)
        ensures
            r@ == self.spec_bytes(),
    {
        let mut r = u32_to_le_bytes(self.id());
        match self {
            SubscriptionEvent::KeyPress(k) => {
                let mut payload = k.encode_to_vec();
                r.append(&mut payload);
            },
            SubscriptionEvent::KeyRelease(k) => {
                let mut payload = k.encode_to_vec();
                r.append(&mut payload);
            },
            SubscriptionEvent::WindowAdd => {},
            SubscriptionEvent::WindowRemove => {},
            SubscriptionEvent::WindowConfigure => {},
        }
        proof {
            assert(r@ =~= self.spec_bytes());
        }
        r
    }

    /// Encode into the front of a caller-supplied buffer.
    pub fn encode_to(&self, buffer: &mut Vec<u8>) -> (r: Result<(), EncodeError>)
        ensures
            r is Ok <==> old(buffer).len() >= self.spec_bytes().len(),
            r is Ok ==> final(buffer)@ == self.spec_bytes() + old(buffer)@.skip(
                self.spec_bytes().len() as int,
            ),
            r is Err ==> final(buffer)@ == old(buffer)@ && r == Err::<(), EncodeError>(
                EncodeError::BufferSize,
            ),
    {
        let bytes = self.encode_to_vec();
        write_prefix(buffer, &bytes)
    }

    /// Encode into the front of a caller-supplied buffer, reporting the number
    /// of bytes written.  No filters are appended: the filter vocabulary is
    /// still empty.
    pub fn init_without_filters(&self, buffer: &mut Vec<u8>) -> (r: Result<
        usize,
        SubscriptionInitError,
    >)
        ensures
            r is Ok <==> old(buffer).len() >= self.spec_bytes().len(),
            r matches Ok(n) ==> n == self.spec_bytes().len() && final(buffer)@ == self.spec_bytes()
                + old(buffer)@.skip(n as int),
            r is Err ==> final(buffer)@ == old(buffer)@ && r == Err::<usize, SubscriptionInitError>(
                SubscriptionInitError::BufferTooSmall,
            ),
    {
        match self.encode_to(buffer) {
            Ok(_) => Ok(self.encoded_size()),
            Err(_) => Err(SubscriptionInitError::BufferTooSmall),
        }
    }

    /// Decode a subscription event from the front of `buffer`.
    pub fn decode(buffer: &[u8]) -> (r: Result<SubscriptionEvent, DecodeError>)
        ensures
            (r is Ok) == (SubscriptionEvent::spec_of_bytes(buffer@) is Some),
            r matches Ok(e) ==> SubscriptionEvent::spec_of_bytes(buffer@) == Some(e),
            r matches Err(e) ==> e == DecodeError::BadFormat,
    {
        if buffer.len() < 4 {
            return Err(DecodeError::BadFormat);
        }
        let tag = u32_from_le_bytes(slice_subrange(buffer, 0, 4));
        let rest = slice_subrange(buffer, 4, buffer.len());
        proof {
            assert(rest@ =~= buffer@.skip(4));
        }
        if tag == KEY_PRESS {
            match Key::decode(rest) {
                Ok(k) => Ok(SubscriptionEvent::KeyPress(k)),
                Err(e) => Err(e),
            }
        } else if tag == KEY_RELEASE {
            match Key::decode(rest) {
                Ok(k) => Ok(SubscriptionEvent::KeyRelease(k)),
                Err(e) => Err(e),
            }
        } else if tag == WINDOW_ADD {
            Ok(SubscriptionEvent::WindowAdd)
        } else if tag == WINDOW_REMOVE {
            Ok(SubscriptionEvent::WindowRemove)
        } else if tag == WINDOW_CONFIGURE {
            Ok(SubscriptionEvent::WindowConfigure)
        } else {
            Err(DecodeError::BadFormat)
        }
    }
}

/// Error returned when a subscription buffer cannot hold the encoding.
#[derive(Clone, Copy, Debug, PartialEq, Eq, Structural)]
pub enum SubscriptionInitError {
    BufferTooSmall,
}

/// A single subscription filter.  The vocabulary is reserved: no filter is
/// defined yet, so no value of this type is ever produced by the decoders.
#[derive(Clone, Copy, Debug, Hash, PartialEq, Eq, Structural)]
pub enum SubscriptionFilter {
    Reserved,
}

/// An ordered group of filters, all of which must hold for the group to match.
#[derive(Debug)]
pub struct SubscriptionFilterGroup(pub Vec<SubscriptionFilter>);

impl Clone for SubscriptionFilterGroup {
    fn clone(&self) -> (r: SubscriptionFilterGroup)
        ensures
            r@ == self@,
    {
        let mut v: Vec<SubscriptionFilter> = Vec::new();
        let n = self.0.len();
        let mut i: usize = 0;
        while i < n
            invariant
                0 <= i <= n,
                n == self.0.len(),
                v@ == self.0@.take(i as int),
            decreases n - i,
        {
            v.push(self.0[i]);
            proof {
                assert(v@ =~= self.0@.take(i + 1));
            }
            i += 1;
        }
        proof {
            assert(self.0@.take(n as int) =~= self.0@);
        }
        SubscriptionFilterGroup(v)
    }
}

impl View for SubscriptionFilterGroup {
    type V = Seq<SubscriptionFilter>;

    open spec fn view(&self) -> Seq<SubscriptionFilter> {
        self.0@
    }
}

impl DeepView for SubscriptionFilterGroup {
    type V = Seq<SubscriptionFilter>;

    open spec fn deep_view(&self) -> Seq<SubscriptionFilter> {
        self.0@
    }
}

impl PartialEq for SubscriptionFilterGroup {
    fn eq(&self, other: &SubscriptionFilterGroup) -> (r: bool)
        ensures
            r == (self@ == other@),
    {
        if self.0.len() != other.0.len() {
            proof {
                assert(self@ != other@);
            }
            return false;
        }
        let n = self.0.len();
        let mut i: usize = 0;
        while i < n
            invariant
                0 <= i <= n,
                n == self.0.len(),
                n == other.0.len(),
                forall|j: int| 0 <= j < i ==> self.0@[j] == other.0@[j],
            decreases n - i,
        {
            if self.0[i] != other.0[i] {
                return false;
            }
            i += 1;
        }
        proof {
            assert(self@ =~= other@);
        }
        true
    }
}

impl vstd::std_specs::cmp::PartialEqSpecImpl for SubscriptionFilterGroup {
    open spec fn obeys_eq_spec() -> bool {
        true
    }

    open spec fn eq_spec(&self, other: &SubscriptionFilterGroup) -> bool {
        self@ == other@
    }
}

impl SubscriptionFilterGroup {
    /// The empty group, the only one the current vocabulary can express.
    pub fn new() -> (r: SubscriptionFilterGroup)
        ensures
            r@ == Seq::<SubscriptionFilter>::empty(),
    {
        SubscriptionFilterGroup(Vec::new())
    }

    /// Parse the filter region of a subscription buffer.  The vocabulary is
    /// empty, so any region parses to the empty group.
    pub fn parse(_buffer: &[u8]) -> (r: Option<SubscriptionFilterGroup>)
        ensures
            r matches Some(g) && g@ == Seq::<SubscriptionFilter>::empty(),
    {
        Some(SubscriptionFilterGroup(Vec::new()))
    }

    pub fn is_empty(&self) -> (r: bool)
        ensures
            r == (self@.len() == 0),
    {
        self.0.is_empty()
    }
}

/// A plugin's request to receive events of one shape, optionally narrowed by a
/// filter group.
#[derive(Debug)]
pub struct Subscription {
    pub event: SubscriptionEvent,
    pub filters: SubscriptionFilterGroup,
}

impl PartialEq for Subscription {
    fn eq(&self, other: &Subscription) -> (r: bool)
        ensures
            r == (self.event == other.event && self.filters@ == other.filters@),
    {
        self.event == other.event && self.filters.eq(&other.filters)
    }
}

impl vstd::std_specs::cmp::PartialEqSpecImpl for Subscription {
    open spec fn obeys_eq_spec() -> bool {
        true
    }

    open spec fn eq_spec(&self, other: &Subscription) -> bool {
        self.event == other.event && self.filters@ == other.filters@
    }
}

impl Clone for Subscription {
    fn clone(&self) -> (r: Subscription)
        ensures
            r.event == self.event,
            r.filters@ == self.filters@,
    {
        Subscription { event: self.event, filters: self.filters.clone() }
    }
}

impl Subscription {
    /// A subscription to `event` with no filters.
    pub fn from_event(event: SubscriptionEvent) -> (r: Subscription)
        ensures
            r.event == event,
            r.filters@ == Seq::<SubscriptionFilter>::empty(),
    {
        Subscription { event, filters: SubscriptionFilterGroup::new() }
    }

    /// Wire form: the event followed by the filter region, which is empty in
    /// the current vocabulary.
    pub open spec fn spec_bytes(self) -> Seq<u8> {
        self.event.spec_bytes()
    }

    /// Number of bytes the wire form takes.
    pub fn encoded_size(&self) -> (n: usize)
        ensures
            n == self.spec_bytes().len(),
    {
        self.event.encoded_size()
    }

    /// Encode into a fresh buffer of exactly the encoded size.
    pub fn encode_to_vec(&self) -> (r: Vec<u8>)
        ensures
            r@ == self.spec_bytes(),
    {
        self.event.encode_to_vec()
    }

    /// Encode into the front of a caller-supplied buffer.
    pub fn encode_to(&self, buffer: &mut Vec<u8>) -> (r: Result<(), EncodeError>)
        ensures
            r is Ok <==> old(buffer).len() >= self.spec_bytes().len(),
            r is Ok ==> final(buffer)@ == self.spec_bytes() + old(buffer)@.skip(
                self.spec_bytes().len() as int,
            ),
            r is Err ==> final(buffer)@ == old(buffer)@ && r == Err::<(), EncodeError>(
                EncodeError::BufferSize,
            ),
    {
        self.event.encode_to(buffer)
    }

    /// Decode a subscription: the leading subscription event, then the filter
    /// region, which today always parses to the empty group.
    pub fn decode(buffer: &[u8]) -> (r: Result<Subscription, DecodeError>)
        ensures
            (r is Ok) == (SubscriptionEvent::spec_of_bytes(buffer@) is Some),
            r matches Ok(s) ==> SubscriptionEvent::spec_of_bytes(buffer@) == Some(s.event)
                && s.filters@ == Seq::<SubscriptionFilter>::empty(),
            r matches Err(e) ==> e == DecodeError::BadFormat,
    {
        let event = match SubscriptionEvent::decode(buffer) {
            Ok(e) => e,
            Err(e) => {
                return Err(e);
            },
        };
        let used = event.encoded_size();
        proof {
            lemma_sub_event_bytes_within(buffer@, event);
        }
        let region = slice_subrange(buffer, used, buffer.len());
        match SubscriptionFilterGroup::parse(region) {
            Some(filters) => Ok(Subscription { event, filters }),
            None => Err(DecodeError::BadFormat),
        }
    }
}

/// A decoded subscription event never claims more bytes than its buffer held.
proof fn lemma_sub_event_bytes_within(b: Seq<u8>, e: SubscriptionEvent)
    requires
        SubscriptionEvent::spec_of_bytes(b) == Some(e),
    ensures
        e.spec_bytes().len() <= b.len(),
{
    lemma_auto_spec_u32_to_from_le_bytes();
    lemma_auto_spec_u16_to_from_le_bytes();
}

/// The byte form an event takes while it waits in a plugin queue.
#[derive(Debug)]
pub struct EncodedEvent {
    bytes: Vec<u8>,
}

impl View for EncodedEvent {
    type V = Seq<u8>;

    closed spec fn view(&self) -> Seq<u8> {
        self.bytes@
    }
}

/// End of the chunk a partial read yields: `offset + max_len`, clipped to the
/// end of the encoding.
pub open spec fn chunk_end(len: int, offset: int, max_len: int) -> int {
    if offset + max_len <= len {
        offset + max_len
    } else {
        len
    }
}

impl EncodedEvent {
    /// Encode `event` for queueing.
    pub fn new(event: &Event) -> (r: EncodedEvent)
        ensures
            r@ == event.spec_bytes(),
    {
        EncodedEvent { bytes: event.encode_to_vec() }
    }

    /// Number of bytes of the encoding.
    pub fn size(&self) -> (n: usize)
        ensures
            n == self@.len(),
    {
        self.bytes.len()
    }

    /// The bytes a partial read starting at `offset` with room for `max_len`
    /// bytes yields.
    pub fn read_chunk(&self, offset: usize, max_len: usize) -> (r: Vec<u8>)
        requires
            offset <= self@.len(),
        ensures
            r@ == self@.subrange(offset as int, chunk_end(self@.len() as int, offset as int, max_len as int)),
    {
        let end = if max_len <= self.bytes.len() - offset {
            offset + max_len
        } else {
            self.bytes.len()
        };
        let mut r: Vec<u8> = Vec::new();
        let mut i: usize = offset;
        while i < end
            invariant
                offset <= i <= end,
                end <= self.bytes.len(),
                end == chunk_end(self@.len() as int, offset as int, max_len as int),
                r@ == self@.subrange(offset as int, i as int),
            decreases end - i,
        {
            r.push(self.bytes[i]);
            proof {
                assert(r@ =~= self@.subrange(offset as int, i + 1));
            }
            i += 1;
        }
        r
    }
}

/// Every event's wire form is between seven and sixteen bytes.
pub proof fn lemma_event_size_bounds(e: Event)
    ensures
        7 <= e.spec_bytes().len() <= 16,
{
    lemma_auto_spec_u32_to_from_le_bytes();
    lemma_auto_spec_u16_to_from_le_bytes();
    crate::encoding::lemma_auto_spec_i16_to_from_le_bytes();
}

/// Law: decoding the wire form of any event gives that event back.
pub proof fn lemma_event_round_trip(e: Event)
    ensures
        Event::spec_of_bytes(e.spec_bytes()) == Some(e),
{
    lemma_auto_spec_u32_to_from_le_bytes();
    let b = e.spec_bytes();
    assert(b.subrange(0, 4) =~= spec_u32_to_le_bytes(e.spec_id()));
    match e {
        Event::KeyPress(k) => {
            assert(b.skip(4) =~= k.spec_bytes());
            crate::key::lemma_key_round_trip(k);
        },
        Event::KeyRelease(k) => {
            assert(b.skip(4) =~= k.spec_bytes());
            crate::key::lemma_key_round_trip(k);
        },
        Event::WindowAdd(w) => {
            assert(b.skip(4) =~= spec_u32_to_le_bytes(w));
            assert(b.skip(4).subrange(0, 4) =~= spec_u32_to_le_bytes(w));
        },
        Event::WindowRemove(w) => {
            assert(b.skip(4) =~= spec_u32_to_le_bytes(w));
            assert(b.skip(4).subrange(0, 4) =~= spec_u32_to_le_bytes(w));
        },
        Event::WindowConfigure(w) => {
            assert(b.skip(4) =~= w.spec_bytes());
            crate::window::lemma_window_round_trip(w);
        },
    }
}

/// Law: decoding the wire form of any subscription event gives it back.
pub proof fn lemma_sub_event_round_trip(e: SubscriptionEvent)
    ensures
        SubscriptionEvent::spec_of_bytes(e.spec_bytes()) == Some(e),
{
    lemma_auto_spec_u32_to_from_le_bytes();
    let b = e.spec_bytes();
    assert(b.subrange(0, 4) =~= spec_u32_to_le_bytes(e.spec_id()));
    match e {
        SubscriptionEvent::KeyPress(k) => {
            assert(b.skip(4) =~= k.spec_bytes());
            crate::key::lemma_key_round_trip(k);
        },
        SubscriptionEvent::KeyRelease(k) => {
            assert(b.skip(4) =~= k.spec_bytes());
            crate::key::lemma_key_round_trip(k);
        },
        SubscriptionEvent::WindowAdd => {},
        SubscriptionEvent::WindowRemove => {},
        SubscriptionEvent::WindowConfigure => {},
    }
}

} // verus!
