//! The host-call surface: the result codes the guests see, and the verified
//! handlers behind the `subscribe`, `unsubscribe`, `event_len` and
//! `event_read` imports.  The runtime binds each import to one of these
//! handlers after reading the guest's buffer out of its linear memory.

use crate::event::{Command, Subscription, SubscriptionEvent, SubscriptionFilter};
use crate::plug_mgr::PluginHost;
use crate::plug_mgr::PluginId;
use crate::queue::{read_queue_after, read_result};
use crate::sub_mgr::{subscribe_step, unsubscribe_step};
use vstd::prelude::*;

verus! {

/// Error set of the host calls.  Every host call returns `0` on success and
/// one of these negative codes on failure.
#[derive(Clone, Copy, Debug, Hash, PartialEq, Eq, Structural)]
pub enum ErrorCode {
    /// The guest's linear memory could not be reached.
    UnableToGetMemory,
    /// The named window does not exist.
    Window,
    /// A malformed buffer, offset, or string was handed in.
    BadArgument,
    /// Spawning the requested child process failed.
    Execution,
    /// Failure with no further information.
    Unknown,
    /// Not an error.
    Success,
}

impl ErrorCode {
    /// The `i32` each code takes on the wire.
    pub open spec fn spec_code(self) -> i32 {
        match self {
            ErrorCode::UnableToGetMemory => -128i32,
            ErrorCode::Window => -4i32,
            ErrorCode::BadArgument => -3i32,
            ErrorCode::Execution => -2i32,
            ErrorCode::Unknown => -1i32,
            ErrorCode::Success => 0i32,
        }
    }

    pub fn code(&self) -> (r: i32)
        ensures
            r == self.spec_code(),
    {
        match self {
            ErrorCode::UnableToGetMemory => -128,
            ErrorCode::Window => -4,
            ErrorCode::BadArgument => -3,
            ErrorCode::Execution => -2,
            ErrorCode::Unknown => -1,
            ErrorCode::Success => 0,
        }
    }
}


impl PluginHost {
    /// Host call `subscribe`: decode a subscription from the guest's buffer
    /// and register it for `id`.  Returns the wire result code, and the
    /// command to forward when the event shape gained its first subscriber.
    pub fn subscribe(&mut self, id: &PluginId, data: &[u8]) -> (r: (i32, Option<Command>))
        requires
            old(self).wf(),
        ensures
            final(self).wf(),
            final(self).registry() == old(self).registry(),
            final(self).queues == old(self).queues,
            SubscriptionEvent::spec_of_bytes(data@) matches Some(e) ==> r.0 == 0
                && subscribe_step(
                old(self).subs,
                id@,
                e,
                Seq::<SubscriptionFilter>::empty(),
                final(self).subs,
                r.1,
            ),
            SubscriptionEvent::spec_of_bytes(data@) is None ==> r.0
                == ErrorCode::BadArgument.spec_code() && r.1 is None && final(self).subs == old(
                self,
            ).subs,
    {
        match Subscription::decode(data) {
            Ok(sub) => {
                let cmd = self.subs.subscribe(id.clone(), sub);
                (0, cmd)
            },
            Err(_) => (ErrorCode::BadArgument.code(), None),
        }
    }

    /// Host call `unsubscribe`: decode a subscription from the guest's buffer
    /// and drop the matching registrations of `id`.  Returns the wire result
    /// code, and the command to forward when the event shape lost its last
    /// subscriber.
    pub fn unsubscribe(&mut self, id: &PluginId, data: &[u8]) -> (r: (i32, Option<Command>))
        requires
            old(self).wf(),
        ensures
            final(self).wf(),
            final(self).registry() == old(self).registry(),
            final(self).queues == old(self).queues,
            SubscriptionEvent::spec_of_bytes(data@) matches Some(e) ==> r.0 == 0
                && unsubscribe_step(
                old(self).subs,
                id@,
                e,
                Seq::<SubscriptionFilter>::empty(),
                final(self).subs,
                r.1,
            ),
            SubscriptionEvent::spec_of_bytes(data@) is None ==> r.0
                == ErrorCode::BadArgument.spec_code() && r.1 is None && final(self).subs == old(
                self,
            ).subs,
    {
        match Subscription::decode(data) {
            Ok(sub) => {
                let cmd = self.subs.unsubscribe(id, &sub);
                (0, cmd)
            },
            Err(_) => (ErrorCode::BadArgument.code(), None),
        }
    }

    /// Host call `event_len`: the encoded size of the head event of `id`'s
    /// queue, or `0` when nothing is pending.
    pub fn event_len(&self, id: &PluginId) -> (n: u32)
        ensures
            n == (if self.queues.q_of(id@).len() == 0 {
                0int
            } else {
                self.queues.q_of(id@)[0].spec_bytes().len() as int
            }),
    {
        proof {
            if self.queues.q_of(id@).len() > 0 {
                crate::event::lemma_event_size_bounds(self.queues.q_of(id@)[0]);
            }
        }
        let l = self.queues.len(id);
        l as u32
    }

    /// Host call `event_read`: read up to `buf_len` bytes of the head
    /// event's encoding starting at `offset`.  Returns the number of bytes
    /// handed back, or a negative result code, together with the bytes for
    /// the runtime to copy into the guest's buffer; the head event is popped
    /// exactly when the read reached its last byte.
    pub fn event_read(&mut self, id: &PluginId, buf_len: u32, offset: u32) -> (r: (i32, Vec<u8>))
        ensures
            final(self).subs == old(self).subs,
            final(self).plugins == old(self).plugins,
            read_result(old(self).queues.q_of(id@), buf_len as int, offset as int) matches Ok(
                bytes,
            ) ==> r.0 == bytes.len() && r.1@ == bytes,
            read_result(old(self).queues.q_of(id@), buf_len as int, offset as int) matches Err(e)
                ==> r.0 == e.spec_code() && r.1@ == Seq::<u8>::empty(),
            final(self).queues.q_of(id@) == read_queue_after(
                old(self).queues.q_of(id@),
                buf_len as int,
                offset as int,
            ),
            forall|p: Seq<char>|
                p != id@ ==> #[trigger] final(self).queues.q_of(p) == old(self).queues.q_of(p),
    {
        proof {
            if old(self).queues.q_of(id@).len() > 0 {
                crate::event::lemma_event_size_bounds(old(self).queues.q_of(id@)[0]);
            }
        }
        match self.queues.read_from(id, buf_len as usize, offset as usize) {
            Ok(v) => {
                let n = v.len();
                (n as i32, v)
            },
            Err(e) => (e.code(), Vec::new()),
        }
    }
}

} // verus!
