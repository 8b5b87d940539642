//! The pipes of a protocol, kept by endpoint, and the sets of endpoints that
//! are ready for an operation.
use vstd::prelude::*;

use crate::common::{Action, ActionView, EndpointId, Message};
use crate::context::Context;

verus! {

/// What the protocols know of a pipe: its endpoint and the priorities it
/// was opened with.
#[derive(Clone, Copy, Debug, PartialEq, Eq, Structural)]
pub struct Pipe {
    pub id: EndpointId,
    pub send_priority: u8,
    pub recv_priority: u8,
}

impl Pipe {
    pub fn new(id: EndpointId, send_priority: u8, recv_priority: u8) -> (p: Pipe)
        ensures
            p.id == id,
            p.send_priority == send_priority,
            p.recv_priority == recv_priority,
    {
        Pipe { id, send_priority, recv_priority }
    }

    pub fn id(&self) -> (id: EndpointId)
        ensures
            id == self.id,
    {
        self.id
    }

    /// Asks the pipe to close.
    pub fn close(&self, ctx: &mut Context)
        ensures
            final(ctx)@ == old(ctx)@.push(ActionView::Close(self.id)),
            final(ctx).next_timer() == old(ctx).next_timer(),
    {
        ctx.record(Action::Close(self.id));
    }

    pub fn get_send_priority(&self) -> (p: u8)
        ensures
            p == self.send_priority,
    {
        self.send_priority
    }

    pub fn get_recv_priority(&self) -> (p: u8)
        ensures
            p == self.recv_priority,
    {
        self.recv_priority
    }
}

/// The index of the first entry from `lo` on whose endpoint is `id`.
pub open spec fn entry_index_from(entries: Seq<(EndpointId, Pipe)>, lo: int, id: EndpointId) -> Option<int>
    decreases entries.len() - lo,
{
    if lo < 0 || lo >= entries.len() {
        None
    } else if entries[lo].0 == id {
        Some(lo)
    } else {
        entry_index_from(entries, lo + 1, id)
    }
}

/// The index of the entry whose endpoint is `id`.
pub open spec fn entry_index(entries: Seq<(EndpointId, Pipe)>, id: EndpointId) -> Option<int> {
    entry_index_from(entries, 0, id)
}

pub proof fn lemma_entry_index_from(entries: Seq<(EndpointId, Pipe)>, lo: int, id: EndpointId)
    requires
        0 <= lo,
    ensures
        match entry_index_from(entries, lo, id) {
            Some(i) => lo <= i < entries.len() && entries[i].0 == id && forall|j: int|
                lo <= j < i ==> #[trigger] entries[j].0 != id,
            None => forall|j: int| lo <= j < entries.len() ==> #[trigger] entries[j].0 != id,
        },
    decreases entries.len() - lo,
{
    if lo < entries.len() {
        lemma_entry_index_from(entries, lo + 1, id);
    }
}

pub proof fn lemma_entry_index(entries: Seq<(EndpointId, Pipe)>, id: EndpointId)
    ensures
        match entry_index(entries, id) {
            Some(i) => 0 <= i < entries.len() && entries[i].0 == id && forall|j: int|
                0 <= j < i ==> #[trigger] entries[j].0 != id,
            None => forall|j: int| 0 <= j < entries.len() ==> #[trigger] entries[j].0 != id,
        },
{
    lemma_entry_index_from(entries, 0, id);
}

/// With distinct endpoints, the entry of an endpoint is the one that holds it.
pub proof fn lemma_entry_index_unique(entries: Seq<(EndpointId, Pipe)>, i: int)
    requires
        distinct_keys(entries),
        0 <= i < entries.len(),
    ensures
        entry_index(entries, entries[i].0) == Some(i),
{
    lemma_entry_index(entries, entries[i].0);
    if let Some(j) = entry_index(entries, entries[i].0) {
        if j > i {
            assert(entries[i].0 != entries[i].0);
        } else if j < i {
            assert(entries[j].0 != entries[i].0);
        }
    }
}

/// No endpoint has two entries.
pub open spec fn distinct_keys(entries: Seq<(EndpointId, Pipe)>) -> bool {
    forall|i: int, j: int| 0 <= i < j < entries.len() ==> #[trigger] entries[i].0 != #[trigger] entries[j].0
}

/// What is read of the pipes after a pipe is stored or dropped: the pipe
/// stored for `id`, nothing once it is dropped, and for any other endpoint
/// what was there before.
pub proof fn lemma_pipe_read_after_write(entries: Seq<(EndpointId, Pipe)>, id: EndpointId, pipe: Pipe, other: EndpointId)
    requires
        distinct_keys(entries),
        other != id,
    ensures
        entry_pipe(entry_inserted(entries, id, pipe), id) == Some(pipe),
        entry_pipe(entry_inserted(entries, id, pipe), other) == entry_pipe(entries, other),
        entry_pipe(entry_removed(entries, id), id) is None,
        entry_pipe(entry_removed(entries, id), other) == entry_pipe(entries, other),
{
    lemma_entry_index(entries, id);
    lemma_entry_index(entries, other);
    let ins = entry_inserted(entries, id, pipe);
    let rem = entry_removed(entries, id);
    lemma_entry_index(ins, id);
    lemma_entry_index(ins, other);
    lemma_entry_index(rem, id);
    lemma_entry_index(rem, other);
    match entry_index(entries, id) {
        Some(i) => {
            assert(ins[i].0 == id);
            if let Some(k) = entry_index(ins, id) {
                assert(k <= i);
            }
            match entry_index(entries, other) {
                Some(j) => {
                    assert(ins[j].0 == other);
                    if let Some(k) = entry_index(ins, other) {
                        assert(k <= j);
                    }
                    if j < i {
                        assert(rem[j].0 == other);
                        if let Some(k) = entry_index(rem, other) {
                            assert(k <= j);
                        }
                    } else {
                        assert(rem[j - 1].0 == other);
                        if let Some(k) = entry_index(rem, other) {
                            assert(k <= j - 1);
                            if k >= i {
                                assert(entries[k + 1].0 == other);
                            }
                        }
                    }
                },
                None => {},
            }
            if let Some(k) = entry_index(rem, id) {
                if k < i {
                    assert(entries[k].0 == id);
                } else {
                    assert(entries[k + 1].0 == id);
                }
            }
        },
        None => {
            assert(ins[entries.len() as int].0 == id);
            if let Some(j) = entry_index(entries, other) {
                assert(ins[j].0 == other);
            }
        },
    }
}

pub struct PipeCollection {
    pipes: Vec<(EndpointId, Pipe)>,
}

impl View for PipeCollection {
    type V = Seq<(EndpointId, Pipe)>;

    open spec fn view(&self) -> Seq<(EndpointId, Pipe)> {
        self.entries()
    }
}

/// Whether endpoint `id` has an entry.
pub open spec fn has_entry(entries: Seq<(EndpointId, Pipe)>, id: EndpointId) -> bool {
    entry_index(entries, id) is Some
}

/// The entries once the pipe of `id` is stored.
pub open spec fn entry_inserted(entries: Seq<(EndpointId, Pipe)>, id: EndpointId, pipe: Pipe) -> Seq<(EndpointId, Pipe)> {
    match entry_index(entries, id) {
        Some(i) => entries.update(i, (id, pipe)),
        None => entries.push((id, pipe)),
    }
}

/// The entries once the pipe of `id` is dropped.
pub open spec fn entry_removed(entries: Seq<(EndpointId, Pipe)>, id: EndpointId) -> Seq<(EndpointId, Pipe)> {
    match entry_index(entries, id) {
        Some(i) => entries.remove(i),
        None => entries,
    }
}

/// The pipe of `id`, if it has one.
pub open spec fn entry_pipe(entries: Seq<(EndpointId, Pipe)>, id: EndpointId) -> Option<Pipe> {
    match entry_index(entries, id) {
        Some(i) => Some(entries[i].1),
        None => None,
    }
}

impl PipeCollection {
    /// The entries, in the order in which they are kept.
    pub closed spec fn entries(&self) -> Seq<(EndpointId, Pipe)> {
        self.pipes@
    }

    pub open spec fn inv(&self) -> bool {
        distinct_keys(self.entries())
    }

    /// Whether endpoint `id` has a pipe.
    pub open spec fn has(&self, id: EndpointId) -> bool {
        entry_index(self.entries(), id) is Some
    }

    pub fn new() -> (c: PipeCollection)
        ensures
            c.inv(),
            c.entries() == Seq::<(EndpointId, Pipe)>::empty(),
    {
        PipeCollection { pipes: Vec::new() }
    }

    fn index_of(&self, id: &EndpointId) -> (r: Option<usize>)
        ensures
            r matches Some(i) ==> entry_index(self.entries(), *id) == Some(i as int),
            r is None ==> entry_index(self.entries(), *id) is None,
    {
        proof {
            lemma_entry_index(self.pipes@, *id);
        }
        let mut i: usize = 0;
        while i < self.pipes.len()
            invariant
                i <= self.pipes@.len(),
                forall|j: int| 0 <= j < i ==> #[trigger] self.pipes@[j].0 != *id,
                entry_index(self.pipes@, *id) == entry_index_from(self.pipes@, i as int, *id),
            decreases self.pipes@.len() - i,
        {
            if self.pipes[i].0 == *id {
                return Some(i);
            }
            i = i + 1;
        }
        None
    }

    /// Stores the pipe of endpoint `id`, handing back the one it replaces.
    pub fn insert(&mut self, id: EndpointId, pipe: Pipe) -> (r: Option<Pipe>)
        requires
            old(self).inv(),
        ensures
            final(self).inv(),
            final(self).has(id),
            match entry_index(old(self).entries(), id) {
                Some(i) => r == Some(old(self).entries()[i].1) && final(self).entries()
                    == old(self).entries().update(i, (id, pipe)),
                None => r is None && final(self).entries() == old(self).entries().push((id, pipe)),
            },
    {
        proof {
            lemma_entry_index(self.pipes@, id);
        }
        match self.index_of(&id) {
            Some(i) => {
                let previous = self.pipes[i].1;
                self.pipes.set(i, (id, pipe));
                proof {
                    assert forall|a: int, b: int| 0 <= a < b < self.pipes@.len() implies #[trigger] self.pipes@[a].0 != #[trigger] self.pipes@[b].0 by {
                        assert(old(self).pipes@[a].0 != old(self).pipes@[b].0);
                    }
                    lemma_entry_index_unique(self.pipes@, i as int);
                }
                Some(previous)
            },
            None => {
                self.pipes.push((id, pipe));
                proof {
                    assert forall|a: int, b: int| 0 <= a < b < self.pipes@.len() implies #[trigger] self.pipes@[a].0 != #[trigger] self.pipes@[b].0 by {
                        if b < old(self).pipes@.len() {
                            assert(old(self).pipes@[a].0 != old(self).pipes@[b].0);
                        } else {
                            assert(old(self).pipes@[a].0 != id);
                        }
                    }
                    lemma_entry_index_unique(self.pipes@, self.pipes@.len() - 1);
                }
                None
            },
        }
    }

    /// Drops the pipe of endpoint `id` and hands it back.
    pub fn remove(&mut self, id: &EndpointId) -> (r: Option<Pipe>)
        requires
            old(self).inv(),
        ensures
            final(self).inv(),
            !final(self).has(*id),
            match entry_index(old(self).entries(), *id) {
                Some(i) => r == Some(old(self).entries()[i].1) && final(self).entries()
                    == old(self).entries().remove(i),
                None => r is None && final(self).entries() == old(self).entries(),
            },
    {
        proof {
            lemma_entry_index(self.pipes@, *id);
        }
        match self.index_of(id) {
            Some(i) => {
                let (_, pipe) = self.pipes.remove(i);
                proof {
                    let o = old(self).pipes@;
                    let n = self.pipes@;
                    assert forall|a: int, b: int| 0 <= a < b < n.len() implies #[trigger] n[a].0 != #[trigger] n[b].0 by {
                        let oa = if a < i { a } else { a + 1 };
                        let ob = if b < i { b } else { b + 1 };
                        assert(n[a] == o[oa]);
                        assert(n[b] == o[ob]);
                        assert(o[oa].0 != o[ob].0);
                    }
                    lemma_entry_index(n, *id);
                    if let Some(k) = entry_index(n, *id) {
                        let ok = if k < i { k } else { k + 1 };
                        assert(n[k] == o[ok]);
                        assert(o[ok].0 != o[i as int].0);
                    }
                }
                Some(pipe)
            },
            None => None,
        }
    }

    /// The pipe of endpoint `id`, to be changed in place.
    pub fn get_mut(&mut self, id: &EndpointId) -> (r: Option<&mut Pipe>)
        requires
            old(self).inv(),
        ensures
            match entry_index(old(self).entries(), *id) {
                Some(i) => r is Some && *r->0 == old(self).entries()[i].1 && final(self).entries()
                    == old(self).entries().update(i, (*id, *final(r->0))),
                None => r is None && final(self).entries() == old(self).entries(),
            },
    {
        proof {
            lemma_entry_index(self.pipes@, *id);
        }
        match self.index_of(id) {
            Some(i) => Some(&mut self.pipes[i].1),
            None => None,
        }
    }

    /// Asks the pipe of endpoint `eid`, if there is one, to send `msg`.
    pub fn send_to(&mut self, ctx: &mut Context, msg: Message, eid: EndpointId) -> (r: Option<EndpointId>)
        ensures
            final(self).entries() == old(self).entries(),
            final(ctx).next_timer() == old(ctx).next_timer(),
            old(self).has(eid) ==> r == Some(eid) && final(ctx)@ == old(ctx)@.push(ActionView::Send(eid, msg@)),
            !old(self).has(eid) ==> r is None && final(ctx)@ == old(ctx)@,
    {
        match self.index_of(&eid) {
            Some(_) => {
                ctx.record(Action::Send(eid, msg));
                Some(eid)
            },
            None => None,
        }
    }

    /// Asks the pipe of endpoint `eid`, if there is one, to receive.
    pub fn recv_from(&mut self, ctx: &mut Context, eid: EndpointId) -> (r: Option<EndpointId>)
        ensures
            final(self).entries() == old(self).entries(),
            final(ctx).next_timer() == old(ctx).next_timer(),
            old(self).has(eid) ==> r == Some(eid) && final(ctx)@ == old(ctx)@.push(ActionView::Recv(eid)),
            !old(self).has(eid) ==> r is None && final(ctx)@ == old(ctx)@,
    {
        match self.index_of(&eid) {
            Some(_) => {
                ctx.record(Action::Recv(eid));
                Some(eid)
            },
            None => None,
        }
    }

    /// Whether endpoint `eid` has a pipe.
    pub fn contains(&self, eid: &EndpointId) -> (b: bool)
        ensures
            b == self.has(*eid),
    {
        self.index_of(eid).is_some()
    }

    /// Closes every pipe, in the order in which they are kept, and forgets
    /// them.
    pub fn close_all(&mut self, ctx: &mut Context)
        ensures
            final(self).entries() == Seq::<(EndpointId, Pipe)>::empty(),
            final(self).inv(),
            final(ctx).next_timer() == old(ctx).next_timer(),
            final(ctx)@ == old(ctx)@ + closed_all(old(self).entries()),
    {
        let mut i: usize = 0;
        let n = self.pipes.len();
        while i < n
            invariant
                n == self.pipes@.len(),
                self.pipes@ == old(self).pipes@,
                i <= n,
                ctx.next_timer() == old(ctx).next_timer(),
                ctx@ == old(ctx)@ + closed_all(self.pipes@.take(i as int)),
            decreases n - i,
        {
            let eid = self.pipes[i].0;
            ctx.record(Action::Close(eid));
            proof {
                assert(self.pipes@.take(i as int + 1) =~= self.pipes@.take(i as int).push(self.pipes@[i as int]));
                assert(closed_all(self.pipes@.take(i as int + 1)) =~= closed_all(self.pipes@.take(i as int)).push(
                    ActionView::Close(eid),
                ));
            }
            i = i + 1;
        }
        proof {
            assert(self.pipes@.take(n as int) =~= self.pipes@);
        }
        self.pipes.clear();
    }

    pub fn len(&self) -> (n: usize)
        ensures
            n == self.entries().len(),
    {
        self.pipes.len()
    }
}

/// What closing the pipes of `entries`, in order, records.
pub open spec fn closed_all(entries: Seq<(EndpointId, Pipe)>) -> Seq<ActionView> {
    entries.map_values(|e: (EndpointId, Pipe)| ActionView::Close(e.0))
}

/// A set of endpoints, kept in the order in which they joined.
pub struct EidSet {
    ids: Vec<EndpointId>,
}

impl View for EidSet {
    type V = Seq<EndpointId>;

    open spec fn view(&self) -> Seq<EndpointId> {
        self.ids()
    }
}

/// The set once `id` joins it.
pub open spec fn eid_inserted(ids: Seq<EndpointId>, id: EndpointId) -> Seq<EndpointId> {
    if ids.contains(id) {
        ids
    } else {
        ids.push(id)
    }
}

/// The set once `id` leaves it.
pub open spec fn eid_removed(ids: Seq<EndpointId>, id: EndpointId) -> Seq<EndpointId> {
    if ids.contains(id) {
        ids.remove(ids.index_of(id))
    } else {
        ids
    }
}

impl EidSet {
    pub closed spec fn ids(&self) -> Seq<EndpointId> {
        self.ids@
    }

    pub open spec fn inv(&self) -> bool {
        self.ids().no_duplicates()
    }

    pub open spec fn contents(&self) -> Set<EndpointId> {
        self.ids().to_set()
    }

    pub fn new() -> (s: EidSet)
        ensures
            s.inv(),
            s.ids() == Seq::<EndpointId>::empty(),
    {
        EidSet { ids: Vec::new() }
    }

    fn position(&self, id: &EndpointId) -> (r: Option<usize>)
        ensures
            r matches Some(i) ==> i < self.ids().len() && self.ids()[i as int] == *id,
            r is None ==> !self.ids().contains(*id),
    {
        let mut i: usize = 0;
        while i < self.ids.len()
            invariant
                i <= self.ids@.len(),
                forall|j: int| 0 <= j < i ==> #[trigger] self.ids@[j] != *id,
            decreases self.ids@.len() - i,
        {
            if self.ids[i] == *id {
                return Some(i);
            }
            i = i + 1;
        }
        None
    }

    pub fn contains(&self, id: &EndpointId) -> (b: bool)
        ensures
            b == self.ids().contains(*id),
    {
        self.position(id).is_some()
    }

    /// Adds `id`; tells whether it was absent.
    pub fn insert(&mut self, id: EndpointId) -> (added: bool)
        requires
            old(self).inv(),
        ensures
            final(self).inv(),
            added == !old(self).ids().contains(id),
            added ==> final(self).ids() == old(self).ids().push(id),
            !added ==> final(self).ids() == old(self).ids(),
            final(self).contents() == old(self).contents().insert(id),
    {
        if self.position(&id).is_some() {
            proof {
                assert(old(self).contents().insert(id) =~= old(self).contents());
            }
            false
        } else {
            self.ids.push(id);
            proof {
                assert(self.ids@.to_set() =~= old(self).ids@.to_set().insert(id)) by {
                    assert forall|x: EndpointId| self.ids@.contains(x) <==> (old(self).ids@.contains(x) || x == id) by {
                        if self.ids@.contains(x) {
                            let k = choose|k: int| 0 <= k < self.ids@.len() && self.ids@[k] == x;
                            if k < old(self).ids@.len() {
                                assert(old(self).ids@[k] == x);
                            }
                        }
                        if old(self).ids@.contains(x) {
                            let k = choose|k: int| 0 <= k < old(self).ids@.len() && old(self).ids@[k] == x;
                            assert(self.ids@[k] == x);
                        }
                        if x == id {
                            assert(self.ids@[self.ids@.len() - 1] == x);
                        }
                    }
                }
            }
            true
        }
    }

    /// Drops `id`; tells whether it was present.
    pub fn remove(&mut self, id: &EndpointId) -> (removed: bool)
        requires
            old(self).inv(),
        ensures
            final(self).inv(),
            removed == old(self).ids().contains(*id),
            final(self).contents() == old(self).contents().remove(*id),
            removed ==> final(self).ids() == old(self).ids().remove(old(self).ids().index_of(*id)),
            !removed ==> final(self).ids() == old(self).ids(),
    {
        match self.position(id) {
            Some(i) => {
                self.ids.remove(i);
                proof {
                    let o = old(self).ids@;
                    let n = self.ids@;
                    assert(o.index_of(*id) == i as int) by {
                        let k = o.index_of(*id);
                        assert(o.contains(*id)) by {
                            assert(o[i as int] == *id);
                        }
                        assert(0 <= k < o.len() && o[k] == *id);
                        if k != i {
                            assert(o[k] == o[i as int]);
                        }
                    }
                    assert(n.no_duplicates()) by {
                        assert forall|a: int, b: int| 0 <= a < b < n.len() implies n[a] != n[b] by {
                            let oa = if a < i { a } else { a + 1 };
                            let ob = if b < i { b } else { b + 1 };
                            assert(n[a] == o[oa]);
                            assert(n[b] == o[ob]);
                        }
                    }
                    assert(n.to_set() =~= o.to_set().remove(*id)) by {
                        assert forall|x: EndpointId| n.contains(x) <==> (o.contains(x) && x != *id) by {
                            if n.contains(x) {
                                let k = choose|k: int| 0 <= k < n.len() && n[k] == x;
                                let ok = if k < i { k } else { k + 1 };
                                assert(o[ok] == x);
                                assert(ok != i);
                            }
                            if o.contains(x) && x != *id {
                                let k = choose|k: int| 0 <= k < o.len() && o[k] == x;
                                assert(k != i);
                                if k < i {
                                    assert(n[k] == x);
                                } else {
                                    assert(n[k - 1] == x);
                                }
                            }
                        }
                    }
                }
                true
            },
            None => {
                proof {
                    let o = old(self).ids@;
                    assert(o.to_set().remove(*id) =~= o.to_set());
                }
                false
            },
        }
    }

    pub fn is_empty(&self) -> (b: bool)
        ensures
            b == (self.ids().len() == 0),
    {
        self.ids.len() == 0
    }

    /// Hands out every endpoint, in order, and empties the set.
    pub fn drain(&mut self) -> (all: Vec<EndpointId>)
        ensures
            all@ == old(self).ids(),
            final(self).ids() == Seq::<EndpointId>::empty(),
            final(self).inv(),
    {
        let mut all = Vec::new();
        std::mem::swap(&mut all, &mut self.ids);
        all
    }
}

} // verus!
