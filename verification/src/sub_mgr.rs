//! The subscription index: which plugins want which event shapes, under which
//! filter groups, and the subscribe/unsubscribe commands its first-entry and
//! last-exit transitions emit for the event producer.

use crate::event::{
    Command, Event, Subscription, SubscriptionEvent, SubscriptionFilter, SubscriptionFilterGroup,
};
use crate::plug_mgr::PluginId;
use vstd::prelude::*;

verus! {

/// One plugin registered under an event shape, with the filter groups it
/// accumulated, in subscription order.
pub struct PluginEntry {
    pub id: PluginId,
    pub groups: Vec<SubscriptionFilterGroup>,
}

/// One event shape with its registered plugins, in first-subscription order.
pub struct SubEntry {
    pub event: SubscriptionEvent,
    pub plugins: Vec<PluginEntry>,
}

/// The names of the plugins of an entry list, in order.
pub open spec fn plugin_ids(ps: Seq<PluginEntry>) -> Seq<Seq<char>> {
    ps.map_values(|pe: PluginEntry| pe.id@)
}

/// The filter groups of a group list, as sequences.
pub open spec fn groups_view(gs: Seq<SubscriptionFilterGroup>) -> Seq<Seq<SubscriptionFilter>> {
    gs.map_values(|g: SubscriptionFilterGroup| g@)
}

/// The event shapes of an entry list, in order.
pub open spec fn entry_events(s: Seq<SubEntry>) -> Seq<SubscriptionEvent> {
    s.map_values(|en: SubEntry| en.event)
}

/// First entry of `s` registered under `e`, if any.
pub open spec fn entry_lookup(s: Seq<SubEntry>, e: SubscriptionEvent) -> Option<SubEntry>
    decreases s.len(),
{
    if s.len() == 0 {
        None
    } else if s[0].event == e {
        Some(s[0])
    } else {
        entry_lookup(s.skip(1), e)
    }
}

/// First entry of `ps` named `p`, if any.
pub open spec fn plugin_lookup(ps: Seq<PluginEntry>, p: Seq<char>) -> Option<PluginEntry>
    decreases ps.len(),
{
    if ps.len() == 0 {
        None
    } else if ps[0].id@ == p {
        Some(ps[0])
    } else {
        plugin_lookup(ps.skip(1), p)
    }
}

/// The subscription index.
pub struct SubscriptionManager {
    entries: Vec<SubEntry>,
}

impl SubscriptionManager {
    /// Event shapes with at least one subscriber, in first-subscription order.
    pub closed spec fn evs(&self) -> Seq<SubscriptionEvent> {
        entry_events(self.entries@)
    }

    /// Whether any plugin is subscribed to `e`.
    pub closed spec fn has_event(&self, e: SubscriptionEvent) -> bool {
        entry_lookup(self.entries@, e) is Some
    }

    /// Names of the plugins subscribed to `e`, in first-subscription order;
    /// empty if `e` has no subscriber.
    pub closed spec fn plugins_of(&self, e: SubscriptionEvent) -> Seq<Seq<char>> {
        match entry_lookup(self.entries@, e) {
            Some(en) => plugin_ids(en.plugins@),
            None => Seq::empty(),
        }
    }

    /// Filter groups plugin `p` holds under `e`, in subscription order; empty
    /// if it holds none.
    pub closed spec fn groups_of(&self, e: SubscriptionEvent, p: Seq<char>) -> Seq<
        Seq<SubscriptionFilter>,
    > {
        match entry_lookup(self.entries@, e) {
            Some(en) => match plugin_lookup(en.plugins@, p) {
                Some(pe) => groups_view(pe.groups@),
                None => Seq::empty(),
            },
            None => Seq::empty(),
        }
    }

    /// Structural invariant: event keys are unique; every entry has at least
    /// one plugin; plugin names are unique per entry; every plugin holds at
    /// least one group.
    pub closed spec fn wf(&self) -> bool {
        &&& forall|i: int, j: int|
            0 <= i < j < self.entries@.len() ==> self.entries@[i].event != self.entries@[j].event
        &&& forall|i: int| 0 <= i < self.entries@.len() ==> wf_entry(#[trigger] self.entries@[i])
    }
}

/// Well-formedness of one event entry.
pub open spec fn wf_entry(en: SubEntry) -> bool {
    &&& en.plugins@.len() > 0
    &&& forall|a: int, b: int|
        0 <= a < b < en.plugins@.len() ==> en.plugins@[a].id@ != en.plugins@[b].id@
    &&& forall|a: int| 0 <= a < en.plugins@.len() ==> (#[trigger] en.plugins@[a]).groups@.len() > 0
}

/// An entry list that matches nowhere in its prefix and at `i` looks up to `i`.
proof fn lemma_entry_lookup_at(s: Seq<SubEntry>, e: SubscriptionEvent, i: int)
    requires
        0 <= i < s.len(),
        s[i].event == e,
        forall|k: int| 0 <= k < i ==> s[k].event != e,
    ensures
        entry_lookup(s, e) == Some(s[i]),
    decreases s.len(),
{
    if i > 0 {
        lemma_entry_lookup_at(s.skip(1), e, i - 1);
    }
}

/// An entry list with no matching key looks up to nothing.
proof fn lemma_entry_lookup_absent(s: Seq<SubEntry>, e: SubscriptionEvent)
    requires
        forall|k: int| 0 <= k < s.len() ==> s[k].event != e,
    ensures
        entry_lookup(s, e) is None,
    decreases s.len(),
{
    if s.len() > 0 {
        lemma_entry_lookup_absent(s.skip(1), e);
    }
}

/// Lookup after appending an entry: earlier keys win; the new key is found.
proof fn lemma_entry_lookup_push(s: Seq<SubEntry>, en: SubEntry, e: SubscriptionEvent)
    ensures
        entry_lookup(s.push(en), e) == if entry_lookup(s, e) is Some {
            entry_lookup(s, e)
        } else if en.event == e {
            Some(en)
        } else {
            None::<SubEntry>
        },
    decreases s.len(),
{
    if s.len() == 0 {
        assert(s.push(en).skip(1) =~= s);
    } else {
        assert(s.push(en).skip(1) =~= s.skip(1).push(en));
        lemma_entry_lookup_push(s.skip(1), en, e);
    }
}

/// Lookup after replacing the entry at `i` by one with the same key, when the
/// keys are unique.
proof fn lemma_entry_lookup_update(s: Seq<SubEntry>, i: int, en: SubEntry, e: SubscriptionEvent)
    requires
        0 <= i < s.len(),
        en.event == s[i].event,
        forall|a: int, b: int| 0 <= a < b < s.len() ==> s[a].event != s[b].event,
    ensures
        entry_lookup(s.update(i, en), e) == if e == s[i].event {
            Some(en)
        } else {
            entry_lookup(s, e)
        },
    decreases s.len(),
{
    if i == 0 {
        if e != s[0].event {
            assert(s.update(0, en).skip(1) =~= s.skip(1));
        }
    } else {
        assert(s.update(i, en).skip(1) =~= s.skip(1).update(i - 1, en));
        lemma_entry_lookup_update(s.skip(1), i - 1, en, e);
    }
}

/// Lookup after removing the entry at `i`, when the keys are unique.
proof fn lemma_entry_lookup_remove(s: Seq<SubEntry>, i: int, e: SubscriptionEvent)
    requires
        0 <= i < s.len(),
        forall|a: int, b: int| 0 <= a < b < s.len() ==> s[a].event != s[b].event,
    ensures
        entry_lookup(s.remove(i), e) == if e == s[i].event {
            None::<SubEntry>
        } else {
            entry_lookup(s, e)
        },
    decreases s.len(),
{
    if i == 0 {
        assert(s.remove(0) =~= s.skip(1));
        if e == s[0].event {
            assert(forall|k: int| 0 <= k < s.skip(1).len() ==> s.skip(1)[k] == s[k + 1]);
            lemma_entry_lookup_absent(s.skip(1), e);
        }
    } else {
        assert(s.remove(i).skip(1) =~= s.skip(1).remove(i - 1));
        lemma_entry_lookup_remove(s.skip(1), i - 1, e);
    }
}

/// A lookup that succeeds does so at some index; the key list contains the key.
proof fn lemma_entry_lookup_contains(s: Seq<SubEntry>, e: SubscriptionEvent)
    ensures
        (entry_lookup(s, e) is Some) == entry_events(s).contains(e),
    decreases s.len(),
{
    if s.len() > 0 {
        lemma_entry_lookup_contains(s.skip(1), e);
        assert(entry_events(s.skip(1)) =~= entry_events(s).skip(1));
        if entry_events(s).contains(e) {
            let w = choose|w: int| 0 <= w < entry_events(s).len() && entry_events(s)[w] == e;
            if s[0].event != e {
                assert(entry_events(s).skip(1)[w - 1] == e);
            }
        } else {
            assert(entry_events(s)[0] == s[0].event);
            assert(s[0].event != e);
            if entry_events(s).skip(1).contains(e) {
                let w = choose|w: int|
                    0 <= w < entry_events(s).skip(1).len() && entry_events(s).skip(1)[w] == e;
                assert(entry_events(s)[w + 1] == e);
            }
        }
    }
}

/// The plugin-level mirror of [`lemma_entry_lookup_at`].
proof fn lemma_plugin_lookup_at(ps: Seq<PluginEntry>, p: Seq<char>, i: int)
    requires
        0 <= i < ps.len(),
        ps[i].id@ == p,
        forall|k: int| 0 <= k < i ==> ps[k].id@ != p,
    ensures
        plugin_lookup(ps, p) == Some(ps[i]),
    decreases ps.len(),
{
    if i > 0 {
        lemma_plugin_lookup_at(ps.skip(1), p, i - 1);
    }
}

/// The plugin-level mirror of [`lemma_entry_lookup_absent`].
proof fn lemma_plugin_lookup_absent(ps: Seq<PluginEntry>, p: Seq<char>)
    requires
        forall|k: int| 0 <= k < ps.len() ==> ps[k].id@ != p,
    ensures
        plugin_lookup(ps, p) is None,
    decreases ps.len(),
{
    if ps.len() > 0 {
        lemma_plugin_lookup_absent(ps.skip(1), p);
    }
}

/// The plugin-level mirror of [`lemma_entry_lookup_push`].
proof fn lemma_plugin_lookup_push(ps: Seq<PluginEntry>, pe: PluginEntry, p: Seq<char>)
    ensures
        plugin_lookup(ps.push(pe), p) == if plugin_lookup(ps, p) is Some {
            plugin_lookup(ps, p)
        } else if pe.id@ == p {
            Some(pe)
        } else {
            None::<PluginEntry>
        },
    decreases ps.len(),
{
    if ps.len() == 0 {
        assert(ps.push(pe).skip(1) =~= ps);
    } else {
        assert(ps.push(pe).skip(1) =~= ps.skip(1).push(pe));
        lemma_plugin_lookup_push(ps.skip(1), pe, p);
    }
}

/// The plugin-level mirror of [`lemma_entry_lookup_update`].
proof fn lemma_plugin_lookup_update(ps: Seq<PluginEntry>, i: int, pe: PluginEntry, p: Seq<char>)
    requires
        0 <= i < ps.len(),
        pe.id@ == ps[i].id@,
        forall|a: int, b: int| 0 <= a < b < ps.len() ==> ps[a].id@ != ps[b].id@,
    ensures
        plugin_lookup(ps.update(i, pe), p) == if p == ps[i].id@ {
            Some(pe)
        } else {
            plugin_lookup(ps, p)
        },
    decreases ps.len(),
{
    if i == 0 {
        if p != ps[0].id@ {
            assert(ps.update(0, pe).skip(1) =~= ps.skip(1));
        }
    } else {
        assert(ps.update(i, pe).skip(1) =~= ps.skip(1).update(i - 1, pe));
        lemma_plugin_lookup_update(ps.skip(1), i - 1, pe, p);
    }
}

/// The plugin-level mirror of [`lemma_entry_lookup_remove`].
proof fn lemma_plugin_lookup_remove(ps: Seq<PluginEntry>, i: int, p: Seq<char>)
    requires
        0 <= i < ps.len(),
        forall|a: int, b: int| 0 <= a < b < ps.len() ==> ps[a].id@ != ps[b].id@,
    ensures
        plugin_lookup(ps.remove(i), p) == if p == ps[i].id@ {
            None::<PluginEntry>
        } else {
            plugin_lookup(ps, p)
        },
    decreases ps.len(),
{
    if i == 0 {
        assert(ps.remove(0) =~= ps.skip(1));
        if p == ps[0].id@ {
            lemma_plugin_lookup_absent(ps.skip(1), p);
        }
    } else {
        assert(ps.remove(i).skip(1) =~= ps.skip(1).remove(i - 1));
        lemma_plugin_lookup_remove(ps.skip(1), i - 1, p);
    }
}

/// The plugin-level mirror of [`lemma_entry_lookup_contains`].
proof fn lemma_plugin_lookup_contains(ps: Seq<PluginEntry>, p: Seq<char>)
    ensures
        (plugin_lookup(ps, p) is Some) == plugin_ids(ps).contains(p),
    decreases ps.len(),
{
    if ps.len() > 0 {
        lemma_plugin_lookup_contains(ps.skip(1), p);
        assert(plugin_ids(ps.skip(1)) =~= plugin_ids(ps).skip(1));
        if plugin_ids(ps).contains(p) {
            let w = choose|w: int| 0 <= w < plugin_ids(ps).len() && plugin_ids(ps)[w] == p;
            if ps[0].id@ != p {
                assert(plugin_ids(ps).skip(1)[w - 1] == p);
            }
        } else {
            assert(plugin_ids(ps)[0] == ps[0].id@);
            assert(ps[0].id@ != p);
            if plugin_ids(ps).skip(1).contains(p) {
                let w = choose|w: int|
                    0 <= w < plugin_ids(ps).skip(1).len() && plugin_ids(ps).skip(1)[w] == p;
                assert(plugin_ids(ps)[w + 1] == p);
            }
        }
    }
}




/// The groups of the plugin named `p` in an entry list, empty if it is absent.
pub open spec fn lookup_groups(ps: Seq<PluginEntry>, p: Seq<char>) -> Seq<Seq<SubscriptionFilter>> {
    match plugin_lookup(ps, p) {
        Some(pe) => groups_view(pe.groups@),
        None => Seq::<Seq<SubscriptionFilter>>::empty(),
    }
}

/// `plugin_ids` after replacing an entry by one with the same name.
proof fn lemma_plugin_ids_update(ps: Seq<PluginEntry>, j: int, pe: PluginEntry)
    requires
        0 <= j < ps.len(),
        pe.id@ == ps[j].id@,
    ensures
        plugin_ids(ps.update(j, pe)) == plugin_ids(ps),
{
    assert(plugin_ids(ps.update(j, pe)) =~= plugin_ids(ps));
}

/// `plugin_ids` after appending an entry.
proof fn lemma_plugin_ids_push(ps: Seq<PluginEntry>, pe: PluginEntry)
    ensures
        plugin_ids(ps.push(pe)) == plugin_ids(ps).push(pe.id@),
{
    assert(plugin_ids(ps.push(pe)) =~= plugin_ids(ps).push(pe.id@));
}

/// `plugin_ids` after removing the entry at `j`; with unique names this is
/// also the removal of the first occurrence of that name.
proof fn lemma_plugin_ids_remove(ps: Seq<PluginEntry>, j: int)
    requires
        0 <= j < ps.len(),
        forall|a: int, b: int| 0 <= a < b < ps.len() ==> ps[a].id@ != ps[b].id@,
    ensures
        plugin_ids(ps.remove(j)) == plugin_ids(ps).remove(j),
        plugin_ids(ps).remove_value(ps[j].id@) == plugin_ids(ps).remove(j),
{
    assert(plugin_ids(ps.remove(j)) =~= plugin_ids(ps).remove(j));
    let ids = plugin_ids(ps);
    ids.index_of_first_ensures(ps[j].id@);
    assert(ids[j] == ps[j].id@);
    match ids.index_of_first(ps[j].id@) {
        Some(k) => {
            assert(ids[k] == ps[j].id@);
            assert(ps[k].id@ == ps[j].id@);
            if k != j {
                assert(false);
            }
        },
        None => {
            assert(false);
        },
    }
}

/// `entry_events` after removing the entry at `i`; with unique keys this is
/// also the removal of the first occurrence of that key.
proof fn lemma_entry_events_remove(s: Seq<SubEntry>, i: int)
    requires
        0 <= i < s.len(),
        forall|a: int, b: int| 0 <= a < b < s.len() ==> s[a].event != s[b].event,
    ensures
        entry_events(s.remove(i)) == entry_events(s).remove(i),
        entry_events(s).remove_value(s[i].event) == entry_events(s).remove(i),
{
    assert(entry_events(s.remove(i)) =~= entry_events(s).remove(i));
    let evs = entry_events(s);
    evs.index_of_first_ensures(s[i].event);
    assert(evs[i] == s[i].event);
    match evs.index_of_first(s[i].event) {
        Some(k) => {
            assert(evs[k] == s[i].event);
            assert(s[k].event == s[i].event);
            if k != i {
                assert(false);
            }
        },
        None => {
            assert(false);
        },
    }
}

/// What every observation of the index becomes when the entry at `idx` is
/// replaced by one with the same event key `ev`.
proof fn lemma_obs_update(
    pre: SubscriptionManager,
    post: SubscriptionManager,
    idx: int,
    en2: SubEntry,
    ev: SubscriptionEvent,
)
    requires
        pre.wf(),
        0 <= idx < pre.entries@.len(),
        ev == pre.entries@[idx].event,
        en2.event == ev,
        post.entries@ == pre.entries@.update(idx, en2),
    ensures
        post.evs() == pre.evs(),
        forall|e: SubscriptionEvent| #[trigger] post.has_event(e) == pre.has_event(e),
        forall|e: SubscriptionEvent| e != ev ==> #[trigger] post.plugins_of(e) == pre.plugins_of(e),
        forall|e: SubscriptionEvent, p: Seq<char>|
            e != ev ==> #[trigger] post.groups_of(e, p) == pre.groups_of(e, p),
        post.plugins_of(ev) == plugin_ids(en2.plugins@),
        forall|p: Seq<char>| #[trigger] post.groups_of(ev, p) == lookup_groups(en2.plugins@, p),
        pre.has_event(ev),
        pre.plugins_of(ev) == plugin_ids(pre.entries@[idx].plugins@),
        forall|p: Seq<char>| #[trigger] pre.groups_of(ev, p) == lookup_groups(
            pre.entries@[idx].plugins@,
            p,
        ),
{
    assert(entry_events(post.entries@) =~= entry_events(pre.entries@));
    lemma_entry_lookup_at(pre.entries@, ev, idx);
    assert forall|e: SubscriptionEvent| true implies #[trigger] entry_lookup(post.entries@, e)
        == (if e == ev {
        Some(en2)
    } else {
        entry_lookup(pre.entries@, e)
    }) by {
        lemma_entry_lookup_update(pre.entries@, idx, en2, e);
    }
}

/// What every observation of the index becomes when an entry with a fresh
/// event key is appended.
proof fn lemma_obs_push(pre: SubscriptionManager, post: SubscriptionManager, en2: SubEntry)
    requires
        pre.wf(),
        entry_lookup(pre.entries@, en2.event) is None,
        post.entries@ == pre.entries@.push(en2),
    ensures
        post.evs() == pre.evs().push(en2.event),
        post.has_event(en2.event),
        forall|e: SubscriptionEvent|
            e != en2.event ==> #[trigger] post.has_event(e) == pre.has_event(e),
        forall|e: SubscriptionEvent|
            e != en2.event ==> #[trigger] post.plugins_of(e) == pre.plugins_of(e),
        forall|e: SubscriptionEvent, p: Seq<char>|
            e != en2.event ==> #[trigger] post.groups_of(e, p) == pre.groups_of(e, p),
        post.plugins_of(en2.event) == plugin_ids(en2.plugins@),
        forall|p: Seq<char>| #[trigger] post.groups_of(en2.event, p) == lookup_groups(
            en2.plugins@,
            p,
        ),
        !pre.has_event(en2.event),
        pre.plugins_of(en2.event) == Seq::<Seq<char>>::empty(),
        forall|p: Seq<char>| #[trigger] pre.groups_of(en2.event, p) == (Seq::<Seq<SubscriptionFilter>>::empty()),
{
    assert(entry_events(post.entries@) =~= entry_events(pre.entries@).push(en2.event));
    assert forall|e: SubscriptionEvent| true implies #[trigger] entry_lookup(post.entries@, e)
        == (if entry_lookup(pre.entries@, e) is Some {
        entry_lookup(pre.entries@, e)
    } else if en2.event == e {
        Some(en2)
    } else {
        None::<SubEntry>
    }) by {
        lemma_entry_lookup_push(pre.entries@, en2, e);
    }
}

/// What every observation of the index becomes when the entry at `idx`, with
/// event key `ev`, is removed outright.
proof fn lemma_obs_remove(
    pre: SubscriptionManager,
    post: SubscriptionManager,
    idx: int,
    ev: SubscriptionEvent,
)
    requires
        pre.wf(),
        0 <= idx < pre.entries@.len(),
        ev == pre.entries@[idx].event,
        post.entries@ == pre.entries@.remove(idx),
    ensures
        post.evs() == pre.evs().remove_value(ev),
        !post.has_event(ev),
        forall|e: SubscriptionEvent| e != ev ==> #[trigger] post.has_event(e) == pre.has_event(e),
        forall|e: SubscriptionEvent| e != ev ==> #[trigger] post.plugins_of(e) == pre.plugins_of(e),
        forall|e: SubscriptionEvent, p: Seq<char>|
            e != ev ==> #[trigger] post.groups_of(e, p) == pre.groups_of(e, p),
        post.plugins_of(ev) == Seq::<Seq<char>>::empty(),
        forall|p: Seq<char>| #[trigger] post.groups_of(ev, p) == (Seq::<Seq<SubscriptionFilter>>::empty()),
        pre.has_event(ev),
        pre.plugins_of(ev) == plugin_ids(pre.entries@[idx].plugins@),
        forall|p: Seq<char>| #[trigger] pre.groups_of(ev, p) == lookup_groups(
            pre.entries@[idx].plugins@,
            p,
        ),
{
    lemma_entry_events_remove(pre.entries@, idx);
    lemma_entry_lookup_at(pre.entries@, ev, idx);
    assert forall|e: SubscriptionEvent| true implies #[trigger] entry_lookup(post.entries@, e)
        == (if e == ev {
        None::<SubEntry>
    } else {
        entry_lookup(pre.entries@, e)
    }) by {
        lemma_entry_lookup_remove(pre.entries@, idx, e);
    }
}


/// The group list with every copy of `f` removed.
pub open spec fn without_group(gs: Seq<Seq<SubscriptionFilter>>, f: Seq<SubscriptionFilter>) -> Seq<
    Seq<SubscriptionFilter>,
> {
    gs.filter(|g: Seq<SubscriptionFilter>| g != f)
}

/// How one `subscribe` call changes the index and what it emits: the filter
/// group is appended for `(sub_event, id)`, the plugin joins the event's list
/// if it was not on it, the event joins the index if it was absent, and
/// exactly that last transition emits `Command::Subscribe`.
pub open spec fn subscribe_step(
    pre: SubscriptionManager,
    id: Seq<char>,
    sub_event: SubscriptionEvent,
    filters: Seq<SubscriptionFilter>,
    post: SubscriptionManager,
    cmd: Option<Command>,
) -> bool {
    &&& post.groups_of(sub_event, id) == pre.groups_of(sub_event, id).push(filters)
    &&& forall|e: SubscriptionEvent, p: Seq<char>|
        !(e == sub_event && p == id) ==> #[trigger] post.groups_of(e, p) == pre.groups_of(e, p)
    &&& post.plugins_of(sub_event) == (if pre.plugins_of(sub_event).contains(id) {
        pre.plugins_of(sub_event)
    } else {
        pre.plugins_of(sub_event).push(id)
    })
    &&& forall|e: SubscriptionEvent|
        e != sub_event ==> #[trigger] post.plugins_of(e) == pre.plugins_of(e)
    &&& post.evs() == (if pre.has_event(sub_event) {
        pre.evs()
    } else {
        pre.evs().push(sub_event)
    })
    &&& forall|e: SubscriptionEvent|
        e != sub_event ==> #[trigger] post.has_event(e) == pre.has_event(e)
    &&& post.has_event(sub_event)
    &&& cmd == (if pre.has_event(sub_event) {
        None::<Command>
    } else {
        Some(Command::Subscribe(sub_event))
    })
}

/// How one `unsubscribe` call changes the index and what it emits: an empty
/// filter group drops every group of `(sub_event, id)`, a non-empty one drops
/// its own copies; a plugin left without groups leaves the event's list; an
/// event left without plugins leaves the index, and exactly that transition
/// emits `Command::Unsubscribe`.
pub open spec fn unsubscribe_step(
    pre: SubscriptionManager,
    id: Seq<char>,
    sub_event: SubscriptionEvent,
    filters: Seq<SubscriptionFilter>,
    post: SubscriptionManager,
    cmd: Option<Command>,
) -> bool {
    let new_groups = if filters.len() == 0 {
        Seq::<Seq<SubscriptionFilter>>::empty()
    } else {
        without_group(pre.groups_of(sub_event, id), filters)
    };
    &&& post.groups_of(sub_event, id) == new_groups
    &&& forall|e: SubscriptionEvent, p: Seq<char>|
        !(e == sub_event && p == id) ==> #[trigger] post.groups_of(e, p) == pre.groups_of(e, p)
    &&& post.plugins_of(sub_event) == (if new_groups.len() == 0 {
        pre.plugins_of(sub_event).remove_value(id)
    } else {
        pre.plugins_of(sub_event)
    })
    &&& forall|e: SubscriptionEvent|
        e != sub_event ==> #[trigger] post.plugins_of(e) == pre.plugins_of(e)
    &&& post.evs() == (if pre.has_event(sub_event) && post.plugins_of(sub_event).len() == 0 {
        pre.evs().remove_value(sub_event)
    } else {
        pre.evs()
    })
    &&& forall|e: SubscriptionEvent|
        e != sub_event ==> #[trigger] post.has_event(e) == pre.has_event(e)
    &&& post.has_event(sub_event) == (pre.has_event(sub_event) && post.plugins_of(
        sub_event,
    ).len() > 0)
    &&& cmd == (if pre.has_event(sub_event) && !post.has_event(sub_event) {
        Some(Command::Unsubscribe(sub_event))
    } else {
        None::<Command>
    })
}

impl SubscriptionManager {
    /// An index with no subscriptions.
    pub fn new() -> (r: SubscriptionManager)
        ensures
            r.wf(),
            r.evs() == Seq::<SubscriptionEvent>::empty(),
            forall|e: SubscriptionEvent| !(#[trigger] r.has_event(e)),
            forall|e: SubscriptionEvent| #[trigger] r.plugins_of(e) == Seq::<Seq<char>>::empty(),
            forall|e: SubscriptionEvent, p: Seq<char>| #[trigger] r.groups_of(e, p) == (Seq::<
                Seq<SubscriptionFilter>,
            >::empty()),
    {
        let r = SubscriptionManager { entries: Vec::new() };
        proof {
            assert(r.evs() =~= Seq::<SubscriptionEvent>::empty());
        }
        r
    }

    /// Register `sub.filters` under `(sub.event, id)`.  Returns the subscribe
    /// command for the event producer when the event shape gains its first
    /// subscriber, and nothing otherwise.
    pub fn subscribe(&mut self, id: PluginId, sub: Subscription) -> (cmd: Option<Command>)
        requires
            old(self).wf(),
        ensures
            final(self).wf(),
            subscribe_step(*old(self), id@, sub.event, sub.filters@, *final(self), cmd),
    {
        let ghost pre = *old(self);
        let ghost gid = id@;
        let n = self.entries.len();
        let mut idx: usize = n;
        let mut i: usize = 0;
        while i < n
            invariant
                *self == pre,
                0 <= i <= n,
                n == self.entries@.len(),
                idx == n || (idx < i && self.entries@[idx as int].event == sub.event),
                idx == n ==> forall|k: int| 0 <= k < i ==> self.entries@[k].event != sub.event,
                idx < n ==> forall|k: int| 0 <= k < idx ==> self.entries@[k].event != sub.event,
            decreases n - i,
        {
            if idx == n && self.entries[i].event == sub.event {
                idx = i;
            }
            i += 1;
        }
        if idx < n {
            let ghost old_entry = pre.entries@[idx as int];
            let mut entry = self.entries.remove(idx);
            let m = entry.plugins.len();
            let mut jdx: usize = m;
            let mut j: usize = 0;
            while j < m
                invariant
                    gid == id@,
                    entry == old_entry,
                    0 <= j <= m,
                    m == entry.plugins@.len(),
                    jdx == m || (jdx < j && entry.plugins@[jdx as int].id@ == gid),
                    jdx == m ==> forall|k: int| 0 <= k < j ==> entry.plugins@[k].id@ != gid,
                    jdx < m ==> forall|k: int| 0 <= k < jdx ==> entry.plugins@[k].id@ != gid,
                decreases m - j,
            {
                if jdx == m && entry.plugins[j].id.eq(&id) {
                    jdx = j;
                }
                j += 1;
            }
            if jdx < m {
                proof {
                    lemma_plugin_lookup_at(old_entry.plugins@, gid, jdx as int);
                }
                let ghost old_pe = old_entry.plugins@[jdx as int];
                let mut pe = entry.plugins.remove(jdx);
                pe.groups.push(sub.filters);
                let ghost new_pe = pe;
                entry.plugins.insert(jdx, pe);
                let ghost new_entry = entry;
                proof {
                    assert(new_entry.plugins@ =~= old_entry.plugins@.update(jdx as int, new_pe));
                }
                self.entries.insert(idx, entry);
                proof {
                    assert(self.entries@ =~= pre.entries@.update(idx as int, new_entry));
                    lemma_obs_update(pre, *self, idx as int, new_entry, sub.event);
                    lemma_plugin_ids_update(old_entry.plugins@, jdx as int, new_pe);
                    assert(groups_view(new_pe.groups@) =~= groups_view(old_pe.groups@).push(
                        sub.filters@,
                    ));
                    assert forall|p: Seq<char>| true implies #[trigger] plugin_lookup(
                        new_entry.plugins@,
                        p,
                    ) == (if p == gid {
                        Some(new_pe)
                    } else {
                        plugin_lookup(old_entry.plugins@, p)
                    }) by {
                        lemma_plugin_lookup_update(old_entry.plugins@, jdx as int, new_pe, p);
                    }
                    assert(plugin_ids(old_entry.plugins@)[jdx as int] == gid);
                    assert(pre.plugins_of(sub.event).contains(gid));
                    assert(subscribe_step(pre, gid, sub.event, sub.filters@, *self, None));
                    assert forall|a: int| 0 <= a < self.entries@.len() implies wf_entry(
                        #[trigger] self.entries@[a],
                    ) by {
                        if a != idx as int {
                            assert(self.entries@[a] == pre.entries@[a]);
                        }
                    }
                }
                None
            } else {
                proof {
                    lemma_plugin_lookup_absent(old_entry.plugins@, gid);
                }
                let mut groups: Vec<SubscriptionFilterGroup> = Vec::new();
                groups.push(sub.filters);
                let ghost new_pe_groups = groups@;
                entry.plugins.push(PluginEntry { id, groups });
                let ghost new_entry = entry;
                let ghost new_pe = new_entry.plugins@.last();
                self.entries.insert(idx, entry);
                proof {
                    assert(self.entries@ =~= pre.entries@.update(idx as int, new_entry));
                    lemma_obs_update(pre, *self, idx as int, new_entry, sub.event);
                    lemma_plugin_ids_push(old_entry.plugins@, new_pe);
                    assert(groups_view(new_pe.groups@) =~= Seq::<
                        Seq<SubscriptionFilter>,
                    >::empty().push(sub.filters@));
                    assert forall|p: Seq<char>| true implies #[trigger] plugin_lookup(
                        new_entry.plugins@,
                        p,
                    ) == (if plugin_lookup(old_entry.plugins@, p) is Some {
                        plugin_lookup(old_entry.plugins@, p)
                    } else if p == gid {
                        Some(new_pe)
                    } else {
                        None::<PluginEntry>
                    }) by {
                        lemma_plugin_lookup_push(old_entry.plugins@, new_pe, p);
                    }
                    lemma_plugin_lookup_contains(old_entry.plugins@, gid);
                    assert(subscribe_step(pre, gid, sub.event, sub.filters@, *self, None));
                    assert forall|a: int| 0 <= a < self.entries@.len() implies wf_entry(
                        #[trigger] self.entries@[a],
                    ) by {
                        if a != idx as int {
                            assert(self.entries@[a] == pre.entries@[a]);
                        } else {
                            assert(forall|k: int|
                                0 <= k < old_entry.plugins@.len()
                                    ==> #[trigger] old_entry.plugins@[k].id@ != gid);
                        }
                    }
                }
                None
            }
        } else {
            proof {
                lemma_entry_lookup_absent(pre.entries@, sub.event);
            }
            let mut groups: Vec<SubscriptionFilterGroup> = Vec::new();
            groups.push(sub.filters);
            let mut plugins: Vec<PluginEntry> = Vec::new();
            plugins.push(PluginEntry { id, groups });
            self.entries.push(SubEntry { event: sub.event, plugins });
            proof {
                let en = self.entries@.last();
                assert(self.entries@ =~= pre.entries@.push(en));
                lemma_obs_push(pre, *self, en);
                let new_pe = en.plugins@[0];
                assert(plugin_ids(en.plugins@) =~= Seq::<Seq<char>>::empty().push(gid));
                assert(groups_view(new_pe.groups@) =~= Seq::<
                    Seq<SubscriptionFilter>,
                >::empty().push(sub.filters@));
                assert forall|p: Seq<char>| true implies #[trigger] plugin_lookup(en.plugins@, p)
                    == (if p == gid {
                    Some(new_pe)
                } else {
                    None::<PluginEntry>
                }) by {
                    if p != gid {
                        lemma_plugin_lookup_absent(en.plugins@, p);
                    }
                }
                assert(subscribe_step(
                    pre,
                    gid,
                    sub.event,
                    sub.filters@,
                    *self,
                    Some(Command::Subscribe(sub.event)),
                ));
                assert forall|a: int| 0 <= a < self.entries@.len() implies wf_entry(
                    #[trigger] self.entries@[a],
                ) by {
                    if a < self.entries@.len() - 1 {
                        assert(self.entries@[a] == pre.entries@[a]);
                    }
                }
            }
            Some(Command::Subscribe(sub.event))
        }
    }
}


impl SubscriptionManager {
    /// Drop filter groups registered under `(unsub.event, id)`: all of them
    /// when `unsub.filters` is empty, otherwise every copy of `unsub.filters`.
    /// Returns the unsubscribe command for the event producer when the event
    /// shape loses its last subscriber, and nothing otherwise.
    pub fn unsubscribe(&mut self, id: &PluginId, unsub: &Subscription) -> (cmd: Option<Command>)
        requires
            old(self).wf(),
        ensures
            final(self).wf(),
            unsubscribe_step(*old(self), id@, unsub.event, unsub.filters@, *final(self), cmd),
    {
        let ghost pre = *old(self);
        let ghost gid = id@;
        let ghost ev = unsub.event;
        let n = self.entries.len();
        let mut idx: usize = n;
        let mut i: usize = 0;
        while i < n
            invariant
                *self == pre,
                0 <= i <= n,
                n == self.entries@.len(),
                idx == n || (idx < i && self.entries@[idx as int].event == unsub.event),
                idx == n ==> forall|k: int| 0 <= k < i ==> self.entries@[k].event != unsub.event,
                idx < n ==> forall|k: int| 0 <= k < idx ==> self.entries@[k].event != unsub.event,
            decreases n - i,
        {
            if idx == n && self.entries[i].event == unsub.event {
                idx = i;
            }
            i += 1;
        }
        if idx == n {
            proof {
                lemma_entry_lookup_absent(pre.entries@, ev);
                reveal(Seq::<Seq<SubscriptionFilter>>::filter);
                assert(without_group(Seq::<Seq<SubscriptionFilter>>::empty(), unsub.filters@)
                    =~= Seq::<Seq<SubscriptionFilter>>::empty());
                Seq::<Seq<char>>::empty().index_of_first_ensures(gid);
                assert(!Seq::<Seq<char>>::empty().contains(gid));
                assert(Seq::<Seq<char>>::empty().remove_value(gid) == Seq::<Seq<char>>::empty());
                assert(unsubscribe_step(pre, gid, ev, unsub.filters@, *self, None::<Command>));
            }
            return None;
        }
        let ghost old_entry = pre.entries@[idx as int];
        let mut entry = self.entries.remove(idx);
        let m = entry.plugins.len();
        let mut jdx: usize = m;
        let mut j: usize = 0;
        while j < m
            invariant
                gid == id@,
                entry == old_entry,
                0 <= j <= m,
                m == entry.plugins@.len(),
                jdx == m || (jdx < j && entry.plugins@[jdx as int].id@ == gid),
                jdx == m ==> forall|k: int| 0 <= k < j ==> entry.plugins@[k].id@ != gid,
                jdx < m ==> forall|k: int| 0 <= k < jdx ==> entry.plugins@[k].id@ != gid,
            decreases m - j,
        {
            if jdx == m && entry.plugins[j].id.eq(id) {
                jdx = j;
            }
            j += 1;
        }
        proof {
            lemma_entry_lookup_at(pre.entries@, ev, idx as int);
        }
        if jdx == m {
            proof {
                lemma_plugin_lookup_absent(old_entry.plugins@, gid);
                lemma_plugin_lookup_contains(old_entry.plugins@, gid);
            }
            self.entries.insert(idx, entry);
            proof {
                assert(self.entries@ =~= pre.entries@);
                reveal(Seq::<Seq<SubscriptionFilter>>::filter);
                assert(without_group(Seq::<Seq<SubscriptionFilter>>::empty(), unsub.filters@)
                    =~= Seq::<Seq<SubscriptionFilter>>::empty());
                plugin_ids(old_entry.plugins@).index_of_first_ensures(gid);
                assert(plugin_ids(old_entry.plugins@).remove_value(gid) == plugin_ids(
                    old_entry.plugins@,
                ));
                assert(unsubscribe_step(pre, gid, ev, unsub.filters@, *self, None::<Command>));
            }
            return None;
        }
        proof {
            lemma_plugin_lookup_at(old_entry.plugins@, gid, jdx as int);
        }
        let ghost old_pe = old_entry.plugins@[jdx as int];
        let mut pe = entry.plugins.remove(jdx);
        let mut kept: Vec<SubscriptionFilterGroup> = Vec::new();
        if !unsub.filters.is_empty() {
            let gl = pe.groups.len();
            let mut k: usize = 0;
            while k < gl
                invariant
                    pe == old_pe,
                    0 <= k <= gl,
                    gl == pe.groups@.len(),
                    groups_view(kept@) == without_group(
                        groups_view(pe.groups@.take(k as int)),
                        unsub.filters@,
                    ),
                decreases gl - k,
            {
                let ghost gv = groups_view(pe.groups@);
                let ghost prefix = groups_view(pe.groups@.take(k as int));
                let ghost prefix1 = groups_view(pe.groups@.take(k + 1));
                let g = pe.groups[k].clone();
                proof {
                    reveal(Seq::filter);
                    assert(prefix1.drop_last() =~= prefix);
                    assert(prefix1.last() == g@);
                }
                if g.eq(&unsub.filters) {
                    proof {
                        assert(without_group(prefix1, unsub.filters@) == without_group(
                            prefix,
                            unsub.filters@,
                        ));
                    }
                } else {
                    kept.push(g);
                    proof {
                        assert(groups_view(kept@) =~= without_group(prefix, unsub.filters@).push(
                            g@,
                        ));
                        assert(without_group(prefix1, unsub.filters@) == without_group(
                            prefix,
                            unsub.filters@,
                        ).push(g@));
                    }
                }
                k += 1;
            }
            proof {
                assert(pe.groups@.take(gl as int) =~= pe.groups@);
            }
        }
        let ghost new_groups_v = groups_view(kept@);
        proof {
            if unsub.filters@.len() == 0 {
                assert(new_groups_v =~= Seq::<Seq<SubscriptionFilter>>::empty());
            }
            assert(pre.groups_of(ev, gid) == groups_view(old_pe.groups@));
        }
        if kept.len() > 0 {
            pe.groups = kept;
            let ghost new_pe = pe;
            entry.plugins.insert(jdx, pe);
            let ghost new_entry = entry;
            proof {
                assert(new_entry.plugins@ =~= old_entry.plugins@.update(jdx as int, new_pe));
            }
            self.entries.insert(idx, entry);
            proof {
                assert(self.entries@ =~= pre.entries@.update(idx as int, new_entry));
                lemma_obs_update(pre, *self, idx as int, new_entry, ev);
                lemma_plugin_ids_update(old_entry.plugins@, jdx as int, new_pe);
                assert forall|p: Seq<char>| true implies #[trigger] plugin_lookup(
                    new_entry.plugins@,
                    p,
                ) == (if p == gid {
                    Some(new_pe)
                } else {
                    plugin_lookup(old_entry.plugins@, p)
                }) by {
                    lemma_plugin_lookup_update(old_entry.plugins@, jdx as int, new_pe, p);
                }
                assert(unsubscribe_step(pre, gid, ev, unsub.filters@, *self, None::<Command>));
                assert forall|a: int| 0 <= a < self.entries@.len() implies wf_entry(
                    #[trigger] self.entries@[a],
                ) by {
                    if a != idx as int {
                        assert(self.entries@[a] == pre.entries@[a]);
                    }
                }
            }
            None
        } else {
            let ghost new_entry = entry;
            proof {
                assert(groups_view(kept@) =~= Seq::<Seq<SubscriptionFilter>>::empty());
                assert(new_entry.plugins@ =~= old_entry.plugins@.remove(jdx as int));
                lemma_plugin_ids_remove(old_entry.plugins@, jdx as int);
            }
            if entry.plugins.is_empty() {
                proof {
                    lemma_obs_remove(pre, *self, idx as int, ev);
                    assert(plugin_ids(old_entry.plugins@).remove(jdx as int) =~= Seq::<
                        Seq<char>,
                    >::empty());
                    assert forall|p: Seq<char>| p != gid implies (#[trigger] plugin_lookup(
                        old_entry.plugins@,
                        p,
                    )) is None by {
                        assert(old_entry.plugins@.len() == 1);
                        assert(old_entry.plugins@[0].id@ == gid);
                        lemma_plugin_lookup_absent(old_entry.plugins@, p);
                    }
                    assert(unsubscribe_step(
                        pre,
                        gid,
                        ev,
                        unsub.filters@,
                        *self,
                        Some(Command::Unsubscribe(ev)),
                    ));
                    pre.entries@.remove_ensures(idx as int);
                    assert forall|a: int| 0 <= a < self.entries@.len() implies wf_entry(
                        #[trigger] self.entries@[a],
                    ) by {
                        if a < idx as int {
                            assert(self.entries@[a] == pre.entries@[a]);
                        } else {
                            assert(self.entries@[a] == pre.entries@[a + 1]);
                        }
                    }
                    assert forall|a: int, b: int|
                        0 <= a < b < self.entries@.len() implies self.entries@[a].event
                        != self.entries@[b].event by {
                        if b < idx as int {
                        } else if a < idx as int {
                            assert(self.entries@[b] == pre.entries@[b + 1]);
                        } else {
                            assert(self.entries@[a] == pre.entries@[a + 1]);
                            assert(self.entries@[b] == pre.entries@[b + 1]);
                        }
                    }
                }
                Some(Command::Unsubscribe(unsub.event))
            } else {
                self.entries.insert(idx, entry);
                proof {
                    assert(self.entries@ =~= pre.entries@.update(idx as int, new_entry));
                    lemma_obs_update(pre, *self, idx as int, new_entry, ev);
                    assert forall|p: Seq<char>| true implies #[trigger] plugin_lookup(
                        new_entry.plugins@,
                        p,
                    ) == (if p == gid {
                        None::<PluginEntry>
                    } else {
                        plugin_lookup(old_entry.plugins@, p)
                    }) by {
                        lemma_plugin_lookup_remove(old_entry.plugins@, jdx as int, p);
                    }
                    assert(unsubscribe_step(pre, gid, ev, unsub.filters@, *self, None::<Command>));
                    old_entry.plugins@.remove_ensures(jdx as int);
                    assert forall|a: int| 0 <= a < self.entries@.len() implies wf_entry(
                        #[trigger] self.entries@[a],
                    ) by {
                        if a != idx as int {
                            assert(self.entries@[a] == pre.entries@[a]);
                        }
                    }
                }
                None
            }
        }
    }
}


/// A successful entry lookup returns an element of the list.
proof fn lemma_entry_lookup_index(s: Seq<SubEntry>, e: SubscriptionEvent)
    requires
        entry_lookup(s, e) is Some,
    ensures
        exists|k: int|
            0 <= k < s.len() && s[k] == entry_lookup(s, e).unwrap() && (#[trigger] s[k]).event == e,
    decreases s.len(),
{
    if s.len() > 0 {
        if s[0].event == e {
            assert(s[0] == entry_lookup(s, e).unwrap() && s[0].event == e);
        } else {
            lemma_entry_lookup_index(s.skip(1), e);
            let k = choose|k: int|
                0 <= k < s.skip(1).len() && s.skip(1)[k] == entry_lookup(s.skip(1), e).unwrap() && (
                #[trigger] s.skip(1)[k]).event == e;
            assert(s[k + 1] == entry_lookup(s, e).unwrap() && s[k + 1].event == e);
        }
    }
}

/// A successful plugin lookup returns an element of the list.
proof fn lemma_plugin_lookup_index(ps: Seq<PluginEntry>, p: Seq<char>)
    requires
        plugin_lookup(ps, p) is Some,
    ensures
        exists|k: int|
            0 <= k < ps.len() && ps[k] == plugin_lookup(ps, p).unwrap() && (#[trigger] ps[k]).id@
                == p,
    decreases ps.len(),
{
    if ps.len() > 0 {
        if ps[0].id@ == p {
            assert(ps[0] == plugin_lookup(ps, p).unwrap() && ps[0].id@ == p);
        } else {
            lemma_plugin_lookup_index(ps.skip(1), p);
            let k = choose|k: int|
                0 <= k < ps.skip(1).len() && ps.skip(1)[k] == plugin_lookup(ps.skip(1), p).unwrap()
                    && (#[trigger] ps.skip(1)[k]).id@ == p;
            assert(ps[k + 1] == plugin_lookup(ps, p).unwrap() && ps[k + 1].id@ == p);
        }
    }
}

impl SubscriptionManager {
    /// Law: in a well-formed index the observations agree.  An event shape is
    /// present exactly when it has a subscriber; a plugin is listed under a
    /// shape exactly when it holds at least one filter group there; the
    /// present shapes are exactly those the event list names; and no plugin
    /// is listed twice under one shape.
    pub proof fn lemma_wf_observations(&self)
        requires
            self.wf(),
        ensures
            forall|e: SubscriptionEvent| #[trigger] self.has_event(e) == (self.plugins_of(e).len()
                > 0),
            forall|e: SubscriptionEvent| #[trigger] self.has_event(e) == self.evs().contains(e),
            forall|e: SubscriptionEvent, p: Seq<char>| #[trigger] self.plugins_of(e).contains(p)
                == (self.groups_of(e, p).len() > 0),
            forall|e: SubscriptionEvent, a: int, b: int|
                0 <= a < b < self.plugins_of(e).len() ==> #[trigger] self.plugins_of(e)[a]
                    != #[trigger] self.plugins_of(e)[b],
    {
        assert forall|e: SubscriptionEvent| #[trigger] self.has_event(e) == (self.plugins_of(
            e,
        ).len() > 0) by {
            if self.has_event(e) {
                lemma_entry_lookup_index(self.entries@, e);
            }
        }
        assert forall|e: SubscriptionEvent| #[trigger] self.has_event(e) == self.evs().contains(
            e,
        ) by {
            lemma_entry_lookup_contains(self.entries@, e);
        }
        assert forall|e: SubscriptionEvent, p: Seq<char>| #[trigger] self.plugins_of(e).contains(p)
            == (self.groups_of(e, p).len() > 0) by {
            if self.has_event(e) {
                lemma_entry_lookup_index(self.entries@, e);
                let en = entry_lookup(self.entries@, e).unwrap();
                lemma_plugin_lookup_contains(en.plugins@, p);
                if plugin_lookup(en.plugins@, p) is Some {
                    lemma_plugin_lookup_index(en.plugins@, p);
                }
            }
        }
        assert forall|e: SubscriptionEvent, a: int, b: int|
            0 <= a < b < self.plugins_of(e).len() implies #[trigger] self.plugins_of(e)[a]
            != #[trigger] self.plugins_of(e)[b] by {
            if self.has_event(e) {
                lemma_entry_lookup_index(self.entries@, e);
            }
        }
    }

    /// The plugins to hand `ev` to: every plugin registered under `ev`'s
    /// subscription shape with at least one filter group the event satisfies.
    /// No filter is defined yet, so every group is satisfied and every
    /// registered plugin is returned, in first-subscription order.
    pub fn subscribers(&self, ev: &Event) -> (r: Vec<PluginId>)
        requires
            self.wf(),
        ensures
            r.deep_view() == self.plugins_of(SubscriptionEvent::spec_from_event(*ev)),
            forall|p: Seq<char>| #[trigger] r.deep_view().contains(p) == (self.groups_of(
                SubscriptionEvent::spec_from_event(*ev),
                p,
            ).len() > 0),
    {
        proof {
            self.lemma_wf_observations();
        }
        let sub = SubscriptionEvent::from_event(ev);
        let ghost gse = SubscriptionEvent::spec_from_event(*ev);
        let n = self.entries.len();
        let mut idx: usize = n;
        let mut i: usize = 0;
        while i < n
            invariant
                0 <= i <= n,
                n == self.entries@.len(),
                sub == gse,
                idx == n || (idx < i && self.entries@[idx as int].event == gse),
                idx == n ==> forall|k: int| 0 <= k < i ==> self.entries@[k].event != gse,
                idx < n ==> forall|k: int| 0 <= k < idx ==> self.entries@[k].event != gse,
            decreases n - i,
        {
            if idx == n && self.entries[i].event == sub {
                idx = i;
            }
            i += 1;
        }
        if idx == n {
            proof {
                lemma_entry_lookup_absent(self.entries@, gse);
            }
            let r: Vec<PluginId> = Vec::new();
            proof {
                assert(r.deep_view() =~= Seq::<Seq<char>>::empty());
                assert forall|p: Seq<char>| #[trigger] r.deep_view().contains(p) == (self.groups_of(
                    gse,
                    p,
                ).len() > 0) by {
                    assert(!r.deep_view().contains(p));
                    assert(self.groups_of(gse, p).len() == 0);
                }
            }
            return r;
        }
        proof {
            lemma_entry_lookup_at(self.entries@, gse, idx as int);
        }
        let entry = &self.entries[idx];
        let m = entry.plugins.len();
        let mut r: Vec<PluginId> = Vec::new();
        let mut j: usize = 0;
        while j < m
            invariant
                0 <= j <= m,
                0 <= idx < self.entries@.len(),
                *entry == self.entries@[idx as int],
                m == entry.plugins@.len(),
                self.wf(),
                r.deep_view() == plugin_ids(entry.plugins@.take(j as int)),
            decreases m - j,
        {
            let pl = &entry.plugins[j];
            let gl = pl.groups.len();
            let mut matched = false;
            let mut k: usize = 0;
            while !matched && k < gl
                invariant
                    0 <= k <= gl,
                    matched == (k > 0),
                    gl == pl.groups@.len(),
                decreases gl - k,
            {
                if ev.matches(&pl.groups[k]) {
                    matched = true;
                }
                k += 1;
            }
            proof {
                assert(wf_entry(self.entries@[idx as int]));
                assert(*pl == entry.plugins@[j as int]);
                assert(pl.groups@.len() > 0);
                assert(matched);
            }
            let ghost old_rv = r@;
            proof {
                assert(r.deep_view().len() == plugin_ids(entry.plugins@.take(j as int)).len());
                assert(plugin_ids(entry.plugins@.take(j as int)).len() == j as int);
                assert(r.deep_view().len() == r@.len());
                assert(r@.len() == j);
            }
            if matched {
                r.push(pl.id.clone());
            }
            proof {
                assert(r@.len() == j + 1);
                assert(r@[j as int] == entry.plugins@[j as int].id);
                assert forall|t: int| 0 <= t < r@.len() implies #[trigger] r.deep_view()[t]
                    == plugin_ids(entry.plugins@.take(j + 1))[t] by {
                    assert(r.deep_view()[t] == r@[t].deep_view());
                    assert(plugin_ids(entry.plugins@.take(j + 1))[t] == entry.plugins@.take(
                        j + 1,
                    )[t].id@);
                    if t < j as int {
                        assert(r@[t] == old_rv[t]);
                        assert(old_rv[t].deep_view() == plugin_ids(entry.plugins@.take(j as int))[t]);
                    }
                }
                assert(r.deep_view() =~= plugin_ids(entry.plugins@.take(j + 1)));
            }
            j += 1;
        }
        proof {
            assert(entry.plugins@.take(m as int) =~= entry.plugins@);
            assert(r.deep_view() == self.plugins_of(gse));
            assert forall|p: Seq<char>| #[trigger] r.deep_view().contains(p) == (self.groups_of(
                gse,
                p,
            ).len() > 0) by {
                assert(self.plugins_of(gse).contains(p) == (self.groups_of(gse, p).len() > 0));
            }
        }
        r
    }
}

/// Law: a subscribe of `(sub_event, filters)` followed by an unsubscribe of
/// the same pair, by a plugin that held no group under that event shape,
/// leaves every observation of the index as it was before.  The filter group
/// must be the empty one, the only group the current vocabulary can express.
pub proof fn lemma_subscribe_unsubscribe_restores(
    s0: SubscriptionManager,
    s1: SubscriptionManager,
    s2: SubscriptionManager,
    id: Seq<char>,
    sub_event: SubscriptionEvent,
    filters: Seq<SubscriptionFilter>,
    c1: Option<Command>,
    c2: Option<Command>,
)
    requires
        s0.wf(),
        s0.groups_of(sub_event, id).len() == 0,
        filters.len() == 0,
        subscribe_step(s0, id, sub_event, filters, s1, c1),
        unsubscribe_step(s1, id, sub_event, filters, s2, c2),
    ensures
        s2.evs() == s0.evs(),
        forall|e: SubscriptionEvent| #[trigger] s2.has_event(e) == s0.has_event(e),
        forall|e: SubscriptionEvent| #[trigger] s2.plugins_of(e) == s0.plugins_of(e),
        forall|e: SubscriptionEvent, p: Seq<char>| #[trigger] s2.groups_of(e, p) == s0.groups_of(
            e,
            p,
        ),
{
    s0.lemma_wf_observations();
    assert(!s0.plugins_of(sub_event).contains(id));
    assert(s1.plugins_of(sub_event) == s0.plugins_of(sub_event).push(id));
    lemma_push_remove_value(s0.plugins_of(sub_event), id);
    assert(s2.plugins_of(sub_event) == s0.plugins_of(sub_event));
    if s0.has_event(sub_event) {
        assert(s2.evs() == s1.evs());
    } else {
        assert(s0.plugins_of(sub_event).len() == 0);
        assert(s2.plugins_of(sub_event).len() == 0);
        assert(s1.evs() == s0.evs().push(sub_event));
        assert(!s0.evs().contains(sub_event));
        lemma_push_remove_value(s0.evs(), sub_event);
        assert(s2.evs() == s0.evs());
    }
    assert forall|e: SubscriptionEvent, p: Seq<char>| true implies #[trigger] s2.groups_of(e, p)
        == s0.groups_of(e, p) by {
        if e == sub_event && p == id {
            assert(s2.groups_of(e, p) =~= s0.groups_of(e, p));
        }
    }
}

/// A value pushed on a list it was absent from is the one `remove_value`
/// takes back off.
proof fn lemma_push_remove_value<A>(s: Seq<A>, x: A)
    requires
        !s.contains(x),
    ensures
        s.push(x).remove_value(x) == s,
{
    let t = s.push(x);
    t.index_of_first_ensures(x);
    assert(t[s.len() as int] == x);
    match t.index_of_first(x) {
        Some(k) => {
            if k < s.len() {
                assert(s[k] == x);
                assert(false);
            }
            assert(t.remove(s.len() as int) =~= s);
        },
        None => {
            assert(false);
        },
    }
}

/// Law: subscribing twice with one and the same subscription leaves the
/// plugin's filter-group list under that event extended by two copies.
pub proof fn lemma_subscribe_twice_duplicates(
    s0: SubscriptionManager,
    s1: SubscriptionManager,
    s2: SubscriptionManager,
    id: Seq<char>,
    sub_event: SubscriptionEvent,
    filters: Seq<SubscriptionFilter>,
    c1: Option<Command>,
    c2: Option<Command>,
)
    requires
        subscribe_step(s0, id, sub_event, filters, s1, c1),
        subscribe_step(s1, id, sub_event, filters, s2, c2),
    ensures
        s2.groups_of(sub_event, id) == s0.groups_of(sub_event, id).push(filters).push(filters),
{
}

/// One call into the index, as a trace element.
pub enum IndexOp {
    Sub { id: Seq<char>, event: SubscriptionEvent, filters: Seq<SubscriptionFilter> },
    Unsub { id: Seq<char>, event: SubscriptionEvent, filters: Seq<SubscriptionFilter> },
}

/// Whether `op` takes the index from `pre` to `post` emitting `cmd`.
pub open spec fn index_step(
    pre: SubscriptionManager,
    op: IndexOp,
    post: SubscriptionManager,
    cmd: Option<Command>,
) -> bool {
    match op {
        IndexOp::Sub { id, event, filters } => subscribe_step(pre, id, event, filters, post, cmd),
        IndexOp::Unsub { id, event, filters } => unsubscribe_step(
            pre,
            id,
            event,
            filters,
            post,
            cmd,
        ),
    }
}

/// How many of the emissions are exactly `c`.
pub open spec fn count_matching(cmds: Seq<Option<Command>>, c: Command) -> int
    decreases cmds.len(),
{
    if cmds.len() == 0 {
        0
    } else {
        count_matching(cmds.drop_last(), c) + if cmds.last() == Some(c) {
            1int
        } else {
            0int
        }
    }
}

/// Law: across any run of subscribe and unsubscribe calls that starts with no
/// subscriber for `e`, the subscribe emissions for `e` outnumber the
/// unsubscribe emissions by one exactly while `e` has a subscriber, and
/// balance out whenever it has none — so over any balanced run the two
/// counts are equal.
pub proof fn lemma_command_balance(
    states: Seq<SubscriptionManager>,
    ops: Seq<IndexOp>,
    cmds: Seq<Option<Command>>,
    e: SubscriptionEvent,
)
    requires
        states.len() == ops.len() + 1,
        cmds.len() == ops.len(),
        forall|i: int|
            0 <= i < ops.len() ==> index_step(states[i], ops[i], #[trigger] states[i + 1], cmds[i]),
        !states[0].has_event(e),
    ensures
        count_matching(cmds, Command::Subscribe(e)) - count_matching(cmds, Command::Unsubscribe(e))
            == if states.last().has_event(e) {
            1int
        } else {
            0int
        },
    decreases ops.len(),
{
    let n = ops.len();
    if n > 0 {
        let spre = states.take(n as int);
        let opre = ops.take(n - 1);
        let cpre = cmds.take(n - 1);
        assert forall|i: int|
            0 <= i < opre.len() implies index_step(
            spre[i],
            opre[i],
            #[trigger] spre[i + 1],
            cpre[i],
        ) by {
            assert(spre[i] == states[i] && spre[i + 1] == states[i + 1] && opre[i] == ops[i]
                && cpre[i] == cmds[i]);
        }
        lemma_command_balance(spre, opre, cpre, e);
        assert(cpre =~= cmds.drop_last());
        assert(spre.last() == states[n - 1]);
        assert(index_step(states[n - 1], ops[n - 1], states[n as int], cmds[n - 1]));
        assert(cmds.last() == cmds[n - 1]);
        assert(states.last() == states[n as int]);
        match ops[n - 1] {
            IndexOp::Sub { id, event, filters } => {
                if event != e {
                    assert(Command::Subscribe(event) != Command::Subscribe(e));
                }
            },
            IndexOp::Unsub { id, event, filters } => {
                if event != e {
                    assert(Command::Unsubscribe(event) != Command::Unsubscribe(e));
                }
            },
        }
    }
}

} // verus!
