//! Plugin identity and the plugin host: the store of loaded plugin names, and
//! the dispatch of events to the plugins that subscribed to them.

use crate::event::{Event, SubscriptionEvent};
use vstd::prelude::*;

verus! {

/// Name under which a loaded plugin is known, unique per process.
#[derive(Debug, Hash)]
pub struct PluginId(String);

impl View for PluginId {
    type V = Seq<char>;

    closed spec fn view(&self) -> Seq<char> {
        self.0@
    }
}

impl DeepView for PluginId {
    type V = Seq<char>;

    open spec fn deep_view(&self) -> Seq<char> {
        self.view()
    }
}

impl Clone for PluginId {
    fn clone(&self) -> (r: PluginId)
        ensures
            r == *self,
    {
        PluginId(self.0.clone())
    }
}

impl PartialEq for PluginId {
    fn eq(&self, other: &PluginId) -> (r: bool)
        ensures
            r == (self@ == other@),
    {
        self.0.eq(&other.0)
    }
}

impl vstd::std_specs::cmp::PartialEqSpecImpl for PluginId {
    open spec fn obeys_eq_spec() -> bool {
        true
    }

    open spec fn eq_spec(&self, other: &PluginId) -> bool {
        self@ == other@
    }
}

impl From<String> for PluginId {
    fn from(id: String) -> (r: PluginId) {
        PluginId(id)
    }
}

impl vstd::std_specs::convert::FromSpecImpl<String> for PluginId {
    open spec fn obeys_from_spec() -> bool {
        true
    }

    closed spec fn from_spec(id: String) -> PluginId {
        PluginId(id)
    }
}

impl PluginId {
    /// Identifier with the given name, usually a plugin file's base name.
    pub fn from_name(name: &str) -> (r: PluginId)
        ensures
            r@ == name@,
    {
        PluginId(name.to_owned())
    }

    /// The name as an owned string, for display.
    pub fn text(&self) -> (r: String)
        ensures
            r@ == self@,
    {
        self.0.clone()
    }
}


/// The plugin host's verified core: the subscription index, the per-plugin
/// event queues, and the names of the loaded plugins.  The engine-side store
/// of live instances is keyed by the same names outside this crate.
pub struct PluginHost {
    pub subs: crate::sub_mgr::SubscriptionManager,
    pub queues: crate::queue::EventQueues,
    pub plugins: Vec<PluginId>,
}

/// One dispatch of `ev` against index `s`: every subscriber's queue gains
/// `ev` at its tail, and no other queue changes.
pub open spec fn dispatch_step(
    s: crate::sub_mgr::SubscriptionManager,
    pre: crate::queue::EventQueues,
    ev: Event,
    post: crate::queue::EventQueues,
) -> bool {
    forall|p: Seq<char>| #[trigger] post.q_of(p) == (if s.plugins_of(
        SubscriptionEvent::spec_from_event(ev),
    ).contains(p) {
        pre.q_of(p).push(ev)
    } else {
        pre.q_of(p)
    })
}

/// The subsequence of `es`, in order, whose events plugin `p` subscribes to
/// under index `s`.
pub open spec fn delivered(
    s: crate::sub_mgr::SubscriptionManager,
    es: Seq<Event>,
    p: Seq<char>,
) -> Seq<Event>
    decreases es.len(),
{
    if es.len() == 0 {
        Seq::<Event>::empty()
    } else {
        let rest = delivered(s, es.drop_last(), p);
        if s.plugins_of(SubscriptionEvent::spec_from_event(es.last())).contains(p) {
            rest.push(es.last())
        } else {
            rest
        }
    }
}

/// Law: across a dispatch of events `es` under a fixed index, each plugin's
/// queue ends as it began plus exactly the events it subscribed to, in
/// producer order.  Together with the read contract, a plugin that fully
/// drains its queue reads that subsequence in order.
pub proof fn lemma_dispatch_sequence(
    s: crate::sub_mgr::SubscriptionManager,
    qs: Seq<crate::queue::EventQueues>,
    es: Seq<Event>,
    p: Seq<char>,
)
    requires
        qs.len() == es.len() + 1,
        forall|i: int| 0 <= i < es.len() ==> dispatch_step(s, qs[i], es[i], #[trigger] qs[i + 1]),
    ensures
        qs.last().q_of(p) == qs[0].q_of(p) + delivered(s, es, p),
    decreases es.len(),
{
    let n = es.len();
    if n == 0 {
        assert(qs[0].q_of(p) + delivered(s, es, p) =~= qs[0].q_of(p));
    } else {
        let qpre = qs.take(n as int);
        let epre = es.take(n - 1);
        assert forall|i: int|
            0 <= i < epre.len() implies dispatch_step(s, qpre[i], epre[i], #[trigger] qpre[i + 1]) by {
            assert(qpre[i] == qs[i] && qpre[i + 1] == qs[i + 1] && epre[i] == es[i]);
        }
        lemma_dispatch_sequence(s, qpre, epre, p);
        assert(epre =~= es.drop_last());
        assert(qpre.last() == qs[n - 1]);
        assert(dispatch_step(s, qs[n - 1], es[n - 1], qs[n as int]));
        assert(es.last() == es[n - 1]);
        if s.plugins_of(SubscriptionEvent::spec_from_event(es[n - 1])).contains(p) {
            assert(qs.last().q_of(p) == (qs[0].q_of(p) + delivered(s, es.drop_last(), p)).push(
                es[n - 1],
            ));
            assert((qs[0].q_of(p) + delivered(s, es.drop_last(), p)).push(es[n - 1]) =~= qs[0].q_of(
                p,
            ) + delivered(s, es, p));
        } else {
            assert(qs[0].q_of(p) + delivered(s, es.drop_last(), p) =~= qs[0].q_of(p) + delivered(
                s,
                es,
                p,
            ));
        }
    }
}

impl PluginHost {
    /// Names of the loaded plugins, in load order, each at most once.
    pub open spec fn registry(&self) -> Seq<Seq<char>> {
        self.plugins.deep_view()
    }

    /// The index is well formed and no plugin name is registered twice.
    pub open spec fn wf(&self) -> bool {
        &&& self.subs.wf()
        &&& forall|i: int, j: int|
            0 <= i < j < self.plugins@.len() ==> self.plugins@[i]@ != self.plugins@[j]@
    }

    /// A host with no plugins, no subscriptions, and nothing queued.
    pub fn new() -> (r: PluginHost)
        ensures
            r.wf(),
            r.registry() == Seq::<Seq<char>>::empty(),
            forall|e: SubscriptionEvent| !(#[trigger] r.subs.has_event(e)),
            forall|e: SubscriptionEvent| #[trigger] r.subs.plugins_of(e) == Seq::<
                Seq<char>,
            >::empty(),
            forall|p: Seq<char>| #[trigger] r.queues.q_of(p) == Seq::<Event>::empty(),
    {
        let r = PluginHost {
            subs: crate::sub_mgr::SubscriptionManager::new(),
            queues: crate::queue::EventQueues::new(),
            plugins: Vec::new(),
        };
        proof {
            assert(r.registry() =~= Seq::<Seq<char>>::empty());
        }
        r
    }

    /// Record a loaded plugin under its name.  A later plugin with the name
    /// of an earlier one replaces it; the returned flag reports that, so the
    /// loader can log the collision.
    pub fn register(&mut self, id: PluginId) -> (replaced: bool)
        requires
            old(self).wf(),
        ensures
            final(self).wf(),
            replaced == old(self).registry().contains(id@),
            final(self).registry() == (if old(self).registry().contains(id@) {
                old(self).registry()
            } else {
                old(self).registry().push(id@)
            }),
            final(self).subs == old(self).subs,
            final(self).queues == old(self).queues,
    {
        let ghost pre = *old(self);
        let ghost gid = id@;
        let n = self.plugins.len();
        let mut idx: usize = n;
        let mut i: usize = 0;
        while i < n
            invariant
                *self == pre,
                gid == id@,
                0 <= i <= n,
                n == self.plugins@.len(),
                idx == n || (idx < i && self.plugins@[idx as int]@ == gid),
                idx == n ==> forall|k: int| 0 <= k < i ==> self.plugins@[k]@ != gid,
                idx < n ==> forall|k: int| 0 <= k < idx ==> self.plugins@[k]@ != gid,
            decreases n - i,
        {
            if idx == n && self.plugins[i].eq(&id) {
                idx = i;
            }
            i += 1;
        }
        if idx < n {
            self.plugins[idx] = id;
            proof {
                assert(self.plugins@ =~= pre.plugins@.update(idx as int, self.plugins@[idx as int]));
                assert(pre.registry()[idx as int] == gid);
                assert(pre.registry().contains(gid));
                assert(self.registry() =~= pre.registry());
            }
            true
        } else {
            self.plugins.push(id);
            proof {
                assert(!pre.registry().contains(gid)) by {
                    if pre.registry().contains(gid) {
                        let w = choose|w: int|
                            0 <= w < pre.registry().len() && pre.registry()[w] == gid;
                        assert(pre.plugins@[w]@ == gid);
                    }
                }
                assert(self.registry() =~= pre.registry().push(gid));
            }
            false
        }
    }

    /// Whether a plugin of this name is loaded.
    pub fn is_registered(&self, id: &PluginId) -> (r: bool)
        ensures
            r == self.registry().contains(id@),
    {
        let n = self.plugins.len();
        let mut i: usize = 0;
        while i < n
            invariant
                0 <= i <= n,
                n == self.plugins@.len(),
                forall|k: int| 0 <= k < i ==> self.plugins@[k]@ != id@,
            decreases n - i,
        {
            if self.plugins[i].eq(id) {
                proof {
                    assert(self.registry()[i as int] == id@);
                }
                return true;
            }
            i += 1;
        }
        proof {
            if self.registry().contains(id@) {
                let w = choose|w: int| 0 <= w < self.registry().len() && self.registry()[w] == id@;
                assert(self.plugins@[w]@ == id@);
            }
        }
        false
    }

    /// Dispatch one event: look up its subscribers, append the event to each
    /// of their queues, and hand back the subscriber names in order, for the
    /// caller to invoke each plugin's `handle` export.  Every queue gains the
    /// event before any plugin runs.
    pub fn handle(&mut self, ev: &Event) -> (subs: Vec<PluginId>)
        requires
            old(self).wf(),
        ensures
            final(self).wf(),
            final(self).subs == old(self).subs,
            final(self).registry() == old(self).registry(),
            subs.deep_view() == old(self).subs.plugins_of(SubscriptionEvent::spec_from_event(*ev)),
            dispatch_step(old(self).subs, old(self).queues, *ev, final(self).queues),
    {
        let ghost pre = *old(self);
        let ghost gse = SubscriptionEvent::spec_from_event(*ev);
        proof {
            pre.subs.lemma_wf_observations();
        }
        let subscribers = self.subs.subscribers(ev);
        let ghost dv = subscribers.deep_view();
        proof {
            assert forall|a: int, b: int| 0 <= a < b < dv.len() implies dv[a] != dv[b] by {
                assert(pre.subs.plugins_of(gse)[a] != pre.subs.plugins_of(gse)[b]);
            }
        }
        let n = subscribers.len();
        let mut i: usize = 0;
        while i < n
            invariant
                self.subs == pre.subs,
                self.plugins == pre.plugins,
                self.subs.wf(),
                0 <= i <= n,
                n == subscribers@.len(),
                dv == subscribers.deep_view(),
                dv == pre.subs.plugins_of(SubscriptionEvent::spec_from_event(*ev)),
                gse == SubscriptionEvent::spec_from_event(*ev),
                forall|a: int, b: int| 0 <= a < b < dv.len() ==> dv[a] != dv[b],
                forall|p: Seq<char>| #[trigger] self.queues.q_of(p) == (if dv.take(
                    i as int,
                ).contains(p) {
                    pre.queues.q_of(p).push(*ev)
                } else {
                    pre.queues.q_of(p)
                }),
            decreases n - i,
        {
            proof {
                assert(dv[i as int] == subscribers@[i as int]@);
                assert(!dv.take(i as int).contains(dv[i as int])) by {
                    if dv.take(i as int).contains(dv[i as int]) {
                        let w = choose|w: int|
                            0 <= w < i && #[trigger] dv.take(i as int)[w] == dv[i as int];
                        assert(dv[w] == dv[i as int]);
                    }
                }
            }
            let ghost qpre = self.queues;
            self.queues.enqueue(&subscribers[i], ev);
            proof {
                assert(dv.take(i + 1) =~= dv.take(i as int).push(dv[i as int]));
                assert forall|p: Seq<char>| true implies #[trigger] self.queues.q_of(p) == (if dv.take(
                    i + 1,
                ).contains(p) {
                    pre.queues.q_of(p).push(*ev)
                } else {
                    pre.queues.q_of(p)
                }) by {
                    if p == dv[i as int] {
                        assert(dv.take(i + 1).contains(p)) by {
                            assert(dv.take(i + 1)[i as int] == p);
                        }
                        assert(self.queues.q_of(p) == qpre.q_of(p).push(*ev));
                    } else {
                        assert(self.queues.q_of(p) == qpre.q_of(p));
                        assert(dv.take(i + 1).contains(p) == dv.take(i as int).contains(p)) by {
                            if dv.take(i + 1).contains(p) {
                                let w = choose|w: int|
                                    0 <= w < i + 1 && #[trigger] dv.take(i + 1)[w] == p;
                                assert(w != i as int);
                                assert(dv.take(i as int)[w] == p);
                            } else if dv.take(i as int).contains(p) {
                                let w = choose|w: int|
                                    0 <= w < i && #[trigger] dv.take(i as int)[w] == p;
                                assert(dv.take(i + 1)[w] == p);
                            }
                        }
                    }
                }
            }
            i += 1;
        }
        proof {
            assert(dv.take(n as int) =~= dv);
        }
        subscribers
    }
}

} // verus!
