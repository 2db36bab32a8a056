//! Module-specific message preprocessors: the handles that name them, the
//! order in which they run, and the options of the routing hook.
use vstd::prelude::*;
use crate::strs::{decimal, push_decimal};

verus! {

/// A handle to a hook that allows the lifetime managment of hooks.
#[derive(Debug, Clone, PartialEq, Eq, Hash)]
pub struct HookHandle {
    id: usize,
    hook_info: String,
}

/// How a handle describes itself: `Hook #<id> { <info> }`.
pub open spec fn handle_text(id: usize, info: Seq<char>) -> Seq<char> {
    seq!['H', 'o', 'o', 'k', ' ', '#'] + decimal(id as nat) + seq![' ', '{', ' '] + info + seq![' ', '}']
}

impl HookHandle {
    /// The identifier of the hook.
    pub closed spec fn spec_id(&self) -> usize {
        self.id
    }

    /// What the handle says of its hook.
    pub closed spec fn info(&self) -> Seq<char> {
        self.hook_info@
    }

    /// The identifier of the hook.
    pub fn id(&self) -> (r: usize)
        ensures
            r == self.spec_id(),
    {
        self.id
    }

    /// The handle's description, such as `Hook #3 { clock @ node }`.
    pub fn describe(&self) -> (r: String)
        ensures
            r@ == handle_text(self.spec_id(), self.info()),
    {
        let mut out = String::new();
        out.append("Hook #");
        push_decimal(&mut out, self.id);
        out.append(" { ");
        out.append(self.hook_info.as_str());
        out.append(" }");
        proof {
            reveal_strlit("Hook #");
            reveal_strlit(" { ");
            reveal_strlit(" }");
            assert(out@ =~= handle_text(self.spec_id(), self.info()));
        }
        out
    }
}

/// A hook registered on a module, with the priority it runs at.
#[derive(Debug)]
pub struct HookEntry<H> {
    /// The identifier of the hook.
    pub id: usize,
    /// The hook.
    pub hook: H,
    /// Lower values run first.
    pub priority: usize,
}

/// The registered hooks as identifier and priority, in the order in which
/// they run.
pub open spec fn entries_view<H>(s: Seq<HookEntry<H>>) -> Seq<(usize, usize)> {
    s.map_values(|e: HookEntry<H>| (e.id, e.priority))
}

/// Whether the priorities never decrease along `s`.
pub open spec fn sorted_by_priority(s: Seq<(usize, usize)>) -> bool {
    forall|i: int, j: int| 0 <= i < j < s.len() ==> #[trigger] s[i].1 <= #[trigger] s[j].1
}

/// The place where a hook of priority `p` goes: before the first hook of the
/// same or a later priority.
pub open spec fn insert_position(s: Seq<(usize, usize)>, p: usize) -> int
    decreases s.len(),
{
    if s.len() == 0 {
        0
    } else if s[0].1 >= p {
        0
    } else {
        1 + insert_position(s.drop_first(), p)
    }
}

/// The position of the first hook with identifier `id`, if any.
pub open spec fn position_of(s: Seq<(usize, usize)>, id: usize) -> Option<int>
    decreases s.len(),
{
    if s.len() == 0 {
        None
    } else if s[0].0 == id {
        Some(0)
    } else {
        match position_of(s.drop_first(), id) {
            Some(i) => Some(i + 1),
            None => None,
        }
    }
}

proof fn lemma_insert_position(s: Seq<(usize, usize)>, p: usize)
    requires
        sorted_by_priority(s),
    ensures
        0 <= insert_position(s, p) <= s.len(),
        forall|i: int| 0 <= i < insert_position(s, p) ==> s[i].1 < p,
        forall|i: int| insert_position(s, p) <= i < s.len() ==> s[i].1 >= p,
    decreases s.len(),
{
    if s.len() > 0 && s[0].1 < p {
        let t = s.drop_first();
        assert(sorted_by_priority(t)) by {
            assert forall|i: int, j: int| 0 <= i < j < t.len() implies t[i].1 <= t[j].1 by {
                assert(t[i] == s[i + 1] && t[j] == s[j + 1]);
            }
        }
        lemma_insert_position(t, p);
        assert forall|i: int| 0 <= i < insert_position(s, p) implies s[i].1 < p by {
            if i > 0 {
                assert(s[i] == t[i - 1]);
            }
        }
        assert forall|i: int| insert_position(s, p) <= i < s.len() implies s[i].1 >= p by {
            assert(s[i] == t[i - 1]);
        }
    } else if s.len() > 0 {
        assert forall|i: int| 0 <= i < s.len() implies s[i].1 >= p by {
            if i > 0 {
                assert(s[0].1 <= s[i].1);
            }
        }
    }
}

proof fn lemma_position_of(s: Seq<(usize, usize)>, id: usize)
    ensures
        match position_of(s, id) {
            Some(i) => 0 <= i < s.len() && s[i].0 == id && forall|j: int| 0 <= j < i ==> s[j].0 != id,
            None => forall|j: int| 0 <= j < s.len() ==> s[j].0 != id,
        },
    decreases s.len(),
{
    if s.len() > 0 && s[0].0 != id {
        let t = s.drop_first();
        lemma_position_of(t, id);
        match position_of(t, id) {
            Some(i) => {
                assert forall|j: int| 0 <= j < i + 1 implies s[j].0 != id by {
                    if j > 0 {
                        assert(s[j] == t[j - 1]);
                    }
                }
            },
            None => {
                assert forall|j: int| 0 <= j < s.len() implies s[j].0 != id by {
                    if j > 0 {
                        assert(s[j] == t[j - 1]);
                    }
                }
            },
        }
    }
}

/// The hooks of one module, ordered by priority.
#[derive(Debug)]
pub struct HookRegistry<H> {
    entries: Vec<HookEntry<H>>,
}

/// The source of hook identifiers, shared by all modules of one thread of
/// the simulation, so that identifiers differ across modules.
#[derive(Debug)]
pub struct HookIdCounter {
    /// The identifier the next hook gets.
    pub next: usize,
}

impl HookIdCounter {
    /// A counter that starts at zero.
    pub fn new() -> (r: Self)
        ensures
            r.next == 0,
    {
        HookIdCounter { next: 0 }
    }
}

impl<H> HookRegistry<H> {
    /// The hooks as identifier and priority, in the order in which they run.
    pub closed spec fn view_entries(&self) -> Seq<(usize, usize)> {
        entries_view(self.entries@)
    }

    /// The hooks themselves, in the order in which they run.
    pub closed spec fn hooks(&self) -> Seq<H> {
        self.entries@.map_values(|e: HookEntry<H>| e.hook)
    }

    /// The hooks run in order of priority.
    pub closed spec fn wf(&self) -> bool {
        sorted_by_priority(self.view_entries())
    }

    /// A module without hooks.
    pub fn new() -> (r: Self)
        ensures
            r.wf(),
            r.view_entries() == Seq::<(usize, usize)>::empty(),
            r.hooks() == Seq::<H>::empty(),
    {
        let r = HookRegistry { entries: Vec::new() };
        proof {
            assert(r.view_entries() =~= Seq::<(usize, usize)>::empty());
            assert(r.hooks() =~= Seq::<H>::empty());
        }
        r
    }

    /// The number of hooks.
    pub fn len(&self) -> (r: usize)
        ensures
            r == self.view_entries().len(),
    {
        self.entries.len()
    }

    /// The hook at position `i` in running order, to be run on a message.
    pub fn hook_mut(&mut self, i: usize) -> (r: &mut H)
        requires
            i < old(self).view_entries().len(),
        ensures
            *r == old(self).hooks()[i as int],
            final(self).hooks() == old(self).hooks().update(i as int, *final(r)),
            final(self).view_entries() == old(self).view_entries(),
    {
        let HookRegistry { entries } = self;
        let e = vec_slot(entries, i);
        &mut e.hook
    }
}

/// A mutable reference to the slot `i` of `v`; the other slots and the
/// length stay as they are.
fn vec_slot<E>(v: &mut Vec<E>, i: usize) -> (r: &mut E)
    requires
        i < old(v).len(),
    ensures
        *r == old(v)@[i as int],
        final(v)@ == old(v)@.update(i as int, *final(r)),
{
    &mut v[i]
}

/// Registers `hook` on a module at `priority` (lower values run first),
/// described by `info`: it goes before the first hook of the same or a later
/// priority and gets the counter's identifier; the identifier after it
/// (wrapping) is the next one.
pub fn create_hook<H>(registry: &mut HookRegistry<H>, ids: &mut HookIdCounter, hook: H, priority: usize, info: String) -> (r: HookHandle)
    requires
        old(registry).wf(),
    ensures
        final(registry).wf(),
        r.spec_id() == old(ids).next,
        r.info() == info@,
        final(registry).view_entries() == old(registry).view_entries().insert(
            insert_position(old(registry).view_entries(), priority),
            (r.spec_id(), priority),
        ),
        final(registry).hooks() == old(registry).hooks().insert(
            insert_position(old(registry).view_entries(), priority),
            hook,
        ),
        final(ids).next == (if old(ids).next == usize::MAX { 0 } else { (old(ids).next + 1) as usize }),
{
    let ghost old_view = registry.view_entries();
    proof {
        lemma_insert_position(old_view, priority);
    }
    let id = ids.next;
    let mut at: usize = 0;
    while at < registry.entries.len() && registry.entries[at].priority < priority
        invariant
            at <= registry.entries@.len(),
            registry.view_entries() == old_view,
            forall|i: int| 0 <= i < at ==> old_view[i].1 < priority,
            forall|i: int| insert_position(old_view, priority) <= i < old_view.len() ==> old_view[i].1 >= priority,
            0 <= insert_position(old_view, priority) <= old_view.len(),
        decreases registry.entries@.len() - at,
    {
        at = at + 1;
    }
    proof {
        let ip = insert_position(old_view, priority);
        if at < registry.entries.len() {
            assert(old_view[at as int] == (registry.entries@[at as int].id, registry.entries@[at as int].priority));
        }
        if at < ip {
            assert(old_view[at as int] == (registry.entries@[at as int].id, registry.entries@[at as int].priority));
        }
        if ip < at {
            assert(old_view[ip].1 < priority);
        }
    }
    let ghost old_hooks = registry.hooks();
    let ghost new_hook = hook;
    registry.entries.insert(at, HookEntry { id, hook, priority });
    ids.next = ids.next.wrapping_add(1);
    proof {
        let new_view = registry.view_entries();
        assert(new_view =~= old_view.insert(at as int, (id, priority)));
        assert(registry.hooks() =~= old_hooks.insert(at as int, new_hook));
        assert forall|i: int, j: int| 0 <= i < j < new_view.len() implies new_view[i].1 <= new_view[j].1 by {
            if j < at {
            } else if j == at {
                assert(new_view[i] == old_view[i]);
            } else if i < at {
                assert(new_view[j] == old_view[j - 1]);
            } else if i == at {
                assert(new_view[j] == old_view[j - 1]);
            } else {
                assert(new_view[i] == old_view[i - 1]);
                assert(new_view[j] == old_view[j - 1]);
            }
        }
    }
    HookHandle { id, hook_info: info }
}

/// Whether a hook with identifier `id` is registered.
pub fn has_hook<H>(registry: &HookRegistry<H>, id: usize) -> (r: bool)
    ensures
        r == (position_of(registry.view_entries(), id) is Some),
{
    proof {
        lemma_position_of(registry.view_entries(), id);
    }
    let mut i: usize = 0;
    while i < registry.entries.len()
        invariant
            i <= registry.entries@.len(),
            forall|j: int| 0 <= j < i ==> registry.view_entries()[j].0 != id,
        decreases registry.entries@.len() - i,
    {
        if registry.entries[i].id == id {
            proof {
                lemma_position_of(registry.view_entries(), id);
                assert(registry.view_entries()[i as int].0 == id);
            }
            return true;
        }
        i = i + 1;
    }
    false
}

/// Destroys the hook described by `handle`: the first hook with its
/// identifier leaves, the others keep their order. The hook must be
/// registered on this module.
pub fn destroy_hook<H>(registry: &mut HookRegistry<H>, handle: HookHandle)
    requires
        old(registry).wf(),
        position_of(old(registry).view_entries(), handle.spec_id()) is Some,
    ensures
        final(registry).wf(),
        final(registry).view_entries() == old(registry).view_entries().remove(
            position_of(old(registry).view_entries(), handle.spec_id())->0,
        ),
        final(registry).hooks() == old(registry).hooks().remove(
            position_of(old(registry).view_entries(), handle.spec_id())->0,
        ),
{
    let ghost old_view = registry.view_entries();
    proof {
        lemma_position_of(old_view, handle.id);
    }
    let ghost pos = position_of(old_view, handle.id)->0;
    let len = registry.entries.len();
    let mut i: usize = 0;
    while registry.entries[i].id != handle.id
        invariant
            i <= pos,
            registry.view_entries() == old_view,
            0 <= pos < old_view.len(),
            old_view[pos].0 == handle.id,
            old_view.len() == registry.entries@.len(),
            old_view.len() == len,
            forall|j: int| 0 <= j < pos ==> old_view[j].0 != handle.id,
        decreases pos - i,
    {
        assert(old_view[i as int] == (registry.entries@[i as int].id, registry.entries@[i as int].priority));
        i = i + 1;
    }
    assert(i == pos) by {
        if i < pos {
            assert(old_view[i as int].0 != handle.id);
        }
    }
    let ghost old_hooks = registry.hooks();
    let _removed = registry.entries.remove(i);
    proof {
        let new_view = registry.view_entries();
        assert(new_view =~= old_view.remove(i as int));
        assert(registry.hooks() =~= old_hooks.remove(i as int));
        assert forall|a: int, b: int| 0 <= a < b < new_view.len() implies new_view[a].1 <= new_view[b].1 by {
            if b < i {
            } else if a < i {
                assert(new_view[b] == old_view[b + 1]);
            } else {
                assert(new_view[a] == old_view[a + 1]);
                assert(new_view[b] == old_view[b + 1]);
            }
        }
    }
}

/// Destroying the hook that was just created gives back the hooks as they
/// were, when its identifier was not in use: `create_hook` inserts it where
/// `destroy_hook` then finds it.
pub proof fn law_destroy_undoes_create(before: Seq<(usize, usize)>, id: usize, priority: usize)
    requires
        sorted_by_priority(before),
        position_of(before, id) is None,
    ensures
        ({
            let at = insert_position(before, priority);
            let after = before.insert(at, (id, priority));
            &&& position_of(after, id) == Some(at)
            &&& after.remove(at) == before
        }),
{
    let at = insert_position(before, priority);
    let after = before.insert(at, (id, priority));
    lemma_insert_position(before, priority);
    lemma_position_of(before, id);
    lemma_position_of(after, id);
    assert(after[at] == (id, priority));
    match position_of(after, id) {
        Some(k) => {
            if k < at {
                assert(after[k] == before[k]);
            }
            assert(k <= at);
            assert(k == at);
        },
        None => {
            assert(after[at].0 == id);
        },
    }
    assert(after.remove(at) =~= before);
}

/// options for configuring the routing hook
#[derive(Debug, Clone, Copy, PartialEq, Eq, Structural, Hash)]
pub struct RoutingHookOptions {
    /// If this flag is set all TCP / UDP packtes will be routed
    /// based on the `dest_node`. If no destionation was set the packet
    /// will NOT be consumed by the hook.
    ///
    /// If no route was found, the packet will NOT be consumed by the hook.
    pub route_tcp_udp: bool,
    /// If this flag is set all packtes will be routed
    /// based on the `target_module_id`. If no destionation was set the packet
    /// will NOT be consumed by the hook.
    ///
    /// If no route was found, the packet will NOT be consumed by the hook.
    /// This routing mechanism is secondary to TCP / UDP routing.
    pub route_module_id: bool,
    /// If this flag is set, the router will decrease the ttl of all arriving
    /// routed packets, dropping those with a ttl == 0. This will only
    /// affect packets that would have been routed by the hook.
    pub ttl: bool,
}

impl RoutingHookOptions {
    /// A config used for most internet cases: route by address, count hops.
    pub fn inet() -> (r: RoutingHookOptions)
        ensures
            r == (RoutingHookOptions { route_tcp_udp: true, route_module_id: false, ttl: true }),
    {
        RoutingHookOptions { route_tcp_udp: true, route_module_id: false, ttl: true }
    }
}

} // verus!
