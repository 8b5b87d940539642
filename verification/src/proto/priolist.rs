//! A list of endpoints ordered by priority, used to pick the pipe that sends
//! (load balancing) or receives (fair queuing) next.
//!
//! - insert stores the item and assigns it a priority, inactive;
//! - activate marks the item active; if there was no current it becomes
//!   current, and if the current had a lower priority (a greater number) it
//!   becomes current;
//! - next gives up when there is no current; otherwise it deactivates the
//!   current item, selects the new current amongst the active items and
//!   returns the old current;
//! - remove drops the item; when it was current another one is selected.
use std::ops::Range;

use vstd::prelude::*;

use crate::common::EndpointId;

verus! {

/// The lowest priority that the selection of a new current looks at
/// (priorities are numbers, a smaller number is a higher priority).
pub const LOWEST_PRIORITY: u8 = 16;

pub struct Item {
    pub value: EndpointId,
    pub priority: u8,
    pub active: bool,
}

impl Item {
    pub fn new(id: EndpointId, prio: u8) -> (item: Item)
        ensures
            item == (Item { value: id, priority: prio, active: false }),
    {
        Item { value: id, priority: prio, active: false }
    }
}

/// The first index `i` in `lo..hi` such that `pred(items[i])`.
pub open spec fn first_in(items: Seq<Item>, lo: int, hi: int, pred: spec_fn(Item) -> bool) -> Option<int>
    decreases hi - lo,
{
    if lo >= hi {
        None
    } else if pred(items[lo]) {
        Some(lo)
    } else {
        first_in(items, lo + 1, hi, pred)
    }
}

pub open spec fn has_value(id: EndpointId) -> spec_fn(Item) -> bool {
    |x: Item| x.value == id
}

pub open spec fn active_with(p: u8) -> spec_fn(Item) -> bool {
    |x: Item| x.active && x.priority == p
}

/// The index of the first item that holds `id`.
pub open spec fn index_of(items: Seq<Item>, id: EndpointId) -> Option<int> {
    first_in(items, 0, items.len() as int, has_value(id))
}

/// The first active item of the highest priority in `p..=LOWEST_PRIORITY`.
pub open spec fn first_active_from(items: Seq<Item>, p: int) -> Option<(int, u8)>
    decreases LOWEST_PRIORITY + 1 - p,
{
    if p < 0 || p > LOWEST_PRIORITY {
        None
    } else {
        match first_in(items, 0, items.len() as int, active_with(p as u8)) {
            Some(i) => Some((i, p as u8)),
            None => first_active_from(items, p + 1),
        }
    }
}

/// The current selected after `pivot` of priority `p` is given up: the next
/// active item of the same priority at or after `pivot`, else the first one
/// before `pivot`, else the first active item of the highest lower priority.
pub open spec fn select_after(items: Seq<Item>, pivot: int, p: u8) -> Option<(int, u8)> {
    match first_in(items, pivot, items.len() as int, active_with(p)) {
        Some(i) => Some((i, p)),
        None => match first_in(items, 0, pivot, active_with(p)) {
            Some(i) => Some((i, p)),
            None => first_active_from(items, p + 1),
        },
    }
}

/// What `Vec::swap_remove` makes of a sequence.
pub open spec fn swap_removed(items: Seq<Item>, i: int) -> Seq<Item> {
    items.update(i, items.last()).drop_last()
}

/// The least priority number that an active item may have while `p` is the
/// priority of the current: `p` itself, or, beyond `LOWEST_PRIORITY`, the
/// first number beyond it.
pub open spec fn floor_of(p: u8) -> int {
    if p <= LOWEST_PRIORITY {
        p as int
    } else {
        LOWEST_PRIORITY + 1
    }
}

/// The invariant of a priority list: every priority is below 255; the
/// current item, if any, is active and holds the recorded priority; no active
/// item has a priority number below the floor of the current's priority, and
/// without a current every active item has a priority beyond
/// `LOWEST_PRIORITY`.
pub open spec fn priolist_inv(items: Seq<Item>, current: Option<(int, u8)>) -> bool {
    &&& forall|j: int| 0 <= j < items.len() ==> #[trigger] items[j].priority < 255
    &&& match current {
        Some((c, p)) => {
            &&& 0 <= c < items.len()
            &&& items[c].active
            &&& items[c].priority == p
            &&& forall|j: int| 0 <= j < items.len() && #[trigger] items[j].active ==> items[j].priority >= floor_of(p)
        },
        None => forall|j: int|
            0 <= j < items.len() && #[trigger] items[j].active ==> items[j].priority > LOWEST_PRIORITY,
    }
}

pub proof fn lemma_first_in(items: Seq<Item>, lo: int, hi: int, pred: spec_fn(Item) -> bool)
    ensures
        match first_in(items, lo, hi, pred) {
            Some(i) => lo <= i < hi && pred(items[i]) && forall|j: int| lo <= j < i ==> !pred(#[trigger] items[j]),
            None => forall|j: int| lo <= j < hi ==> !pred(#[trigger] items[j]),
        },
    decreases hi - lo,
{
    if lo < hi {
        lemma_first_in(items, lo + 1, hi, pred);
    }
}

pub proof fn lemma_first_active_from(items: Seq<Item>, p: int)
    requires
        0 <= p,
    ensures
        match first_active_from(items, p) {
            Some((i, q)) => {
                &&& p <= q <= LOWEST_PRIORITY
                &&& 0 <= i < items.len()
                &&& items[i].active
                &&& items[i].priority == q
                &&& forall|j: int| 0 <= j < items.len() && #[trigger] items[j].active ==> !(p <= items[j].priority < q)
            },
            None => forall|j: int|
                0 <= j < items.len() && #[trigger] items[j].active ==> !(p <= items[j].priority <= LOWEST_PRIORITY),
        },
    decreases LOWEST_PRIORITY + 1 - p,
{
    if p <= LOWEST_PRIORITY {
        lemma_first_in(items, 0, items.len() as int, active_with(p as u8));
        lemma_first_active_from(items, p + 1);
        match first_in(items, 0, items.len() as int, active_with(p as u8)) {
            Some(i) => {},
            None => {
                assert forall|j: int| 0 <= j < items.len() && #[trigger] items[j].active implies items[j].priority != p by {
                    assert(!active_with(p as u8)(items[j]));
                }
            },
        }
    }
}

/// The selection made by `select_after` keeps the invariant when no active
/// item has a priority number below the floor of `p`.
pub proof fn lemma_select_after_inv(items: Seq<Item>, pivot: int, p: u8)
    requires
        0 <= pivot <= items.len(),
        p < 255,
        forall|j: int| 0 <= j < items.len() ==> #[trigger] items[j].priority < 255,
        forall|j: int| 0 <= j < items.len() && #[trigger] items[j].active ==> items[j].priority >= floor_of(p),
    ensures
        priolist_inv(items, select_after(items, pivot, p)),
{
    lemma_first_in(items, pivot, items.len() as int, active_with(p));
    lemma_first_in(items, 0, pivot, active_with(p));
    lemma_first_active_from(items, p + 1);
    match first_in(items, pivot, items.len() as int, active_with(p)) {
        Some(i) => {
            assert(active_with(p)(items[i]));
        },
        None => match first_in(items, 0, pivot, active_with(p)) {
            Some(i) => {
                assert(active_with(p)(items[i]));
            },
            None => {
                assert forall|j: int| 0 <= j < items.len() && #[trigger] items[j].active implies items[j].priority != p by {
                    if j < pivot {
                        assert(!active_with(p)(items[j]));
                    } else {
                        assert(!active_with(p)(items[j]));
                    }
                }
            },
        },
    }
}

/// A priority list seen as its items, in storage order, and the index and
/// priority of its current item.
pub struct PriolistModel {
    pub items: Seq<Item>,
    pub current: Option<(int, u8)>,
}

impl PriolistModel {
    pub open spec fn inv(self) -> bool {
        priolist_inv(self.items, self.current)
    }

    pub open spec fn inserted(self, id: EndpointId, prio: u8) -> PriolistModel {
        PriolistModel { items: self.items.push(Item { value: id, priority: prio, active: false }), current: self.current }
    }

    pub open spec fn removed(self, id: EndpointId) -> PriolistModel {
        match index_of(self.items, id) {
            None => self,
            Some(i) => {
                let items = swap_removed(self.items, i);
                let removed = self.items[i];
                PriolistModel {
                    items,
                    current: match self.current {
                        Some((c, p)) => if c == i {
                            select_after(items, i, removed.priority)
                        } else if c == self.items.len() - 1 {
                            Some((i, p))
                        } else {
                            Some((c, p))
                        },
                        None => None,
                    },
                }
            },
        }
    }

    pub open spec fn activated(self, id: EndpointId) -> PriolistModel {
        match index_of(self.items, id) {
            None => self,
            Some(i) => PriolistModel {
                items: self.items.update(i, Item { active: true, ..self.items[i] }),
                current: activated_current(self.items, self.current, i),
            },
        }
    }

    pub open spec fn deactivated(self, id: EndpointId) -> PriolistModel {
        match index_of(self.items, id) {
            None => self,
            Some(i) => if !self.items[i].active {
                self
            } else {
                let items = self.items.update(i, Item { active: false, ..self.items[i] });
                PriolistModel {
                    items,
                    current: match self.current {
                        Some((c, p)) => if c == i {
                            select_after(items, i, p)
                        } else {
                            Some((c, p))
                        },
                        None => None,
                    },
                }
            },
        }
    }

    /// The endpoint of the current item, and the list after it is given up.
    pub open spec fn popped(self) -> (Option<EndpointId>, PriolistModel) {
        match self.current {
            None => (None, self),
            Some((c, p)) => {
                let items = self.items.update(c, Item { active: false, ..self.items[c] });
                (Some(self.items[c].value), PriolistModel { items, current: select_after(items, c, p) })
            },
        }
    }

    pub open spec fn has_current(self) -> bool {
        self.current is Some
    }
}

pub struct Priolist {
    items: Vec<Item>,
    current: Option<(usize, u8)>,
}

impl View for Priolist {
    type V = PriolistModel;

    open spec fn view(&self) -> PriolistModel {
        PriolistModel { items: self.items(), current: self.current() }
    }
}

impl Priolist {
    /// The items, in the order in which they are stored.
    pub closed spec fn items(&self) -> Seq<Item> {
        self.items@
    }

    /// The index and the priority of the current item.
    pub closed spec fn current(&self) -> Option<(int, u8)> {
        match self.current {
            Some((i, p)) => Some((i as int, p)),
            None => None,
        }
    }

    pub open spec fn inv(&self) -> bool {
        priolist_inv(self.items(), self.current())
    }

    pub fn new() -> (list: Priolist)
        ensures
            list.inv(),
            list@ == (PriolistModel { items: Seq::empty(), current: None }),
    {
        Priolist { items: Vec::new(), current: None }
    }

    pub fn insert(&mut self, id: EndpointId, prio: u8)
        requires
            old(self).inv(),
            prio < 255,
        ensures
            final(self).inv(),
            final(self)@ == old(self)@.inserted(id, prio),
    {
        self.items.push(Item::new(id, prio))
    }

    pub fn remove(&mut self, id: &EndpointId)
        requires
            old(self).inv(),
        ensures
            final(self).inv(),
            final(self)@ == old(self)@.removed(*id),
    {
        proof {
            lemma_first_in(self.items@, 0, self.items@.len() as int, has_value(*id));
        }
        if let Some(index) = self.find_by_id_in_all(id) {
            let ghost old_items = self.items@;
            let last = self.items.len() - 1;
            let item = self.items.swap_remove(index);
            let priority = item.priority;

            assert forall|j: int| 0 <= j < self.items@.len() implies #[trigger] self.items@[j].priority < 255 by {
                if j == index {
                    assert(self.items@[j] == old_items[last as int]);
                } else {
                    assert(self.items@[j] == old_items[j]);
                }
            }
            if self.current == Some((index, priority)) {
                proof {
                    assert forall|j: int| 0 <= j < self.items@.len() && #[trigger] self.items@[j].active implies self.items@[j].priority >= floor_of(priority) by {
                        if j == index {
                            assert(self.items@[j] == old_items[last as int]);
                        } else {
                            assert(self.items@[j] == old_items[j]);
                        }
                    }
                    lemma_select_after_inv(self.items@, index as int, priority);
                }
                self.compute_next(index, priority);
            } else if let Some((cur_idx, cur_prio)) = self.current {
                if cur_idx == last {
                    // the current item has been moved to the freed slot
                    self.set_current(index, cur_prio);
                }
                proof {
                    assert(cur_idx != index);
                    assert forall|j: int| 0 <= j < self.items@.len() && #[trigger] self.items@[j].active implies self.items@[j].priority >= floor_of(cur_prio) by {
                        if j == index {
                            assert(self.items@[j] == old_items[last as int]);
                        } else {
                            assert(self.items@[j] == old_items[j]);
                        }
                    }
                }
            } else {
                proof {
                    assert forall|j: int| 0 <= j < self.items@.len() && #[trigger] self.items@[j].active implies self.items@[j].priority > LOWEST_PRIORITY by {
                        if j == index {
                            assert(self.items@[j] == old_items[last as int]);
                        } else {
                            assert(self.items@[j] == old_items[j]);
                        }
                    }
                }
            }
        }
    }

    pub fn activate(&mut self, id: &EndpointId)
        requires
            old(self).inv(),
        ensures
            final(self).inv(),
            final(self)@ == old(self)@.activated(*id),
    {
        proof {
            lemma_first_in(self.items@, 0, self.items@.len() as int, has_value(*id));
        }
        if let Some(index) = self.find_by_id_in_all(id) {
            self.activate_at_index(index);
        }
    }

    /// Marks the item of `id` inactive; when it was current, another one is
    /// selected.
    pub fn deactivate(&mut self, id: &EndpointId)
        requires
            old(self).inv(),
        ensures
            final(self).inv(),
            final(self)@ == old(self)@.deactivated(*id),
    {
        proof {
            lemma_first_in(self.items@, 0, self.items@.len() as int, has_value(*id));
        }
        if let Some(index) = self.find_by_id_in_all(id) {
            if !self.is_index_active(index) {
                return;
            }
            let priority = self.items[index].priority;
            self.set_index_active(index, false);
            if let Some((cur_idx, cur_prio)) = self.current {
                if cur_idx == index {
                    proof {
                        let items = self.items@;
                        assert forall|j: int| 0 <= j < items.len() && #[trigger] items[j].active implies items[j].priority >= floor_of(cur_prio) by {
                            if j != index {
                                assert(items[j] == old(self).items()[j]);
                            }
                        }
                        lemma_select_after_inv(items, index as int, cur_prio);
                    }
                    self.compute_next(index, cur_prio);
                } else {
                    proof {
                        let items = self.items@;
                        assert forall|j: int| 0 <= j < items.len() && #[trigger] items[j].active implies items[j].priority >= floor_of(cur_prio) by {
                            if j != index {
                                assert(items[j] == old(self).items()[j]);
                            }
                        }
                    }
                }
            } else {
                proof {
                    let items = self.items@;
                    assert forall|j: int| 0 <= j < items.len() && #[trigger] items[j].active implies items[j].priority > LOWEST_PRIORITY by {
                        if j != index {
                            assert(items[j] == old(self).items()[j]);
                        }
                    }
                }
            }
        }
    }

    fn activate_at_index(&mut self, index: usize)
        requires
            old(self).inv(),
            index < old(self).items().len(),
        ensures
            final(self).inv(),
            final(self).items() == old(self).items().update(
                index as int,
                Item { active: true, ..old(self).items()[index as int] },
            ),
            final(self).current() == activated_current(old(self).items(), old(self).current(), index as int),
    {
        if self.is_index_active(index) {
            proof {
                assert(self.items@.update(index as int, Item { active: true, ..self.items@[index as int] }) =~= self.items@);
            }
            return;
        }
        let priority = self.items[index].priority;

        self.set_index_active(index, true);

        if let Some((cur_idx, cur_prio)) = self.current.take() {
            if priority < cur_prio {
                self.set_current(index, priority);
            } else {
                self.set_current(cur_idx, cur_prio);
            }
        } else {
            self.set_current(index, priority);
        }
    }

    fn is_index_active(&self, index: usize) -> (b: bool)
        requires
            index < self.items().len(),
        ensures
            b == self.items()[index as int].active,
    {
        self.items[index].active
    }

    fn set_index_active(&mut self, index: usize, active: bool)
        requires
            index < old(self).items().len(),
        ensures
            final(self).items() == old(self).items().update(
                index as int,
                Item { active: active, ..old(self).items()[index as int] },
            ),
            final(self).current() == old(self).current(),
    {
        let item = Item { active: active, ..self.items[index] };
        self.items.set(index, item);
    }

    /// Deactivates the current item and returns its endpoint, after the
    /// selection of the next current; gives `None` without a current.
    pub fn next(&mut self) -> (r: Option<&EndpointId>)
        requires
            old(self).inv(),
        ensures
            final(self).inv(),
            final(self)@ == old(self)@.popped().1,
            r matches Some(v) ==> old(self)@.popped().0 == Some(*v),
            r is None ==> old(self)@.popped().0 is None,
    {
        if let Some((index, priority)) = self.current.take() {
            self.set_index_active(index, false);
            proof {
                let items = self.items@;
                assert forall|j: int| 0 <= j < items.len() && #[trigger] items[j].active implies items[j].priority >= floor_of(priority) by {
                    if j != index {
                        assert(items[j] == old(self).items()[j]);
                    }
                }
                lemma_select_after_inv(items, index as int, priority);
            }
            self.compute_next(index, priority);

            Some(&self.items[index].value)
        } else {
            None
        }
    }

    /// The endpoint of the current item, which then stops being active.
    pub fn pop(&mut self) -> (r: Option<EndpointId>)
        requires
            old(self).inv(),
        ensures
            final(self).inv(),
            final(self)@ == old(self)@.popped().1,
            r == old(self)@.popped().0,
    {
        match self.next() {
            Some(eid) => Some(*eid),
            None => None,
        }
    }

    /// Whether some item is current.
    pub fn peek(&self) -> (b: bool)
        ensures
            b == self@.has_current(),
    {
        self.current.is_some()
    }

    fn compute_next(&mut self, pivot: usize, priority: u8)
        requires
            pivot <= old(self).items().len(),
            priority < 255,
        ensures
            final(self).items() == old(self).items(),
            final(self).current() == select_after(old(self).items(), pivot as int, priority),
    {
        let len = self.len();
        proof {
            lemma_first_in(self.items@, pivot as int, len as int, active_with(priority));
            lemma_first_in(self.items@, 0, pivot as int, active_with(priority));
        }
        let r = self.find(
            (|x: &Item| -> (b: bool)
                ensures
                    b == (x.active && x.priority == priority),
                { x.active && x.priority == priority }),
            pivot..len,
            Ghost(active_with(priority)),
        );
        if let Some(index) = r {
            return self.set_current(index, priority);
        }
        let r = self.find(
            (|x: &Item| -> (b: bool)
                ensures
                    b == (x.active && x.priority == priority),
                { x.active && x.priority == priority }),
            0..pivot,
            Ghost(active_with(priority)),
        );
        if let Some(index) = r {
            return self.set_current(index, priority);
        }
        let lower_priority = priority + 1;
        let mut prio = lower_priority;
        while prio < LOWEST_PRIORITY + 1
            invariant
                self.items() == old(self).items(),
                lower_priority <= prio,
                lower_priority <= LOWEST_PRIORITY + 1 ==> prio <= LOWEST_PRIORITY + 1,
                first_active_from(self.items(), lower_priority as int) == first_active_from(
                    self.items(),
                    prio as int,
                ),
                select_after(self.items(), pivot as int, priority) == first_active_from(
                    self.items(),
                    lower_priority as int,
                ),
            decreases LOWEST_PRIORITY + 1 - prio,
        {
            let all = self.all();
            let p = prio;
            proof {
                lemma_first_in(self.items@, 0, self.items@.len() as int, active_with(p));
            }
            let r = self.find(
                (|x: &Item| -> (b: bool)
                    ensures
                        b == (x.active && x.priority == p),
                    { x.active && x.priority == p }),
                all,
                Ghost(active_with(p)),
            );
            if let Some(index) = r {
                return self.set_current(index, prio);
            }
            prio = prio + 1;
        }
        self.unset_cur_idx();
    }

    fn set_current(&mut self, index: usize, priority: u8)
        ensures
            final(self).items() == old(self).items(),
            final(self).current() == Some((index as int, priority)),
    {
        self.current = Some((index, priority));
    }

    fn unset_cur_idx(&mut self)
        ensures
            final(self).items() == old(self).items(),
            final(self).current() is None,
    {
        self.current = None;
    }

    pub fn len(&self) -> (n: usize)
        ensures
            n == self.items().len(),
    {
        self.items.len()
    }

    pub fn is_empty(&self) -> (b: bool)
        ensures
            b == (self.items().len() == 0),
    {
        self.len() == 0
    }

    fn all(&self) -> (r: Range<usize>)
        ensures
            r.start == 0,
            r.end == self.items().len(),
    {
        0..self.len()
    }

    fn find_by_id_in_all(&self, id: &EndpointId) -> (r: Option<usize>)
        ensures
            r matches Some(k) ==> index_of(self.items(), *id) == Some(k as int),
            r is None ==> index_of(self.items(), *id) is None,
    {
        let all = self.all();
        self.find_by_id(id, all)
    }

    fn find_by_id(&self, id: &EndpointId, range: Range<usize>) -> (r: Option<usize>)
        requires
            range.start <= range.end <= self.items().len(),
        ensures
            r matches Some(k) ==> first_in(self.items(), range.start as int, range.end as int, has_value(*id)) == Some(k as int),
            r is None ==> first_in(self.items(), range.start as int, range.end as int, has_value(*id)) is None,
    {
        let target = *id;
        self.find(
            (|x: &Item| -> (b: bool)
                ensures
                    b == (x.value == target),
                { x.value == target }),
            range,
            Ghost(has_value(target)),
        )
    }

    fn find<F: Fn(&Item) -> bool>(&self, predicate: F, range: Range<usize>, Ghost(pred): Ghost<spec_fn(Item) -> bool>) -> (r: Option<usize>)
        requires
            range.start <= range.end <= self.items().len(),
            forall|x: Item| #[trigger] predicate.requires((&x,)),
            forall|x: Item, b: bool| predicate.ensures((&x,), b) ==> b == pred(x),
        ensures
            r matches Some(k) ==> first_in(self.items(), range.start as int, range.end as int, pred) == Some(k as int),
            r is None ==> first_in(self.items(), range.start as int, range.end as int, pred) is None,
    {
        let mut i = range.start;
        while i < range.end
            invariant
                range.start <= i <= range.end <= self.items().len(),
                forall|x: Item| #[trigger] predicate.requires((&x,)),
                forall|x: Item, b: bool| predicate.ensures((&x,), b) ==> b == pred(x),
                first_in(self.items(), range.start as int, range.end as int, pred) == first_in(
                    self.items(),
                    i as int,
                    range.end as int,
                    pred,
                ),
            decreases range.end - i,
        {
            let item = &self.items[i];
            if predicate(item) {
                return Some(i);
            }
            i = i + 1;
        }
        None
    }
}

/// The current after the item at `index` is activated: it takes over when
/// there was none or when the current had a lower priority.
pub open spec fn activated_current(items: Seq<Item>, current: Option<(int, u8)>, index: int) -> Option<(int, u8)> {
    let item = items[index];
    if item.active {
        current
    } else {
        match current {
            Some((c, p)) => if item.priority < p {
                Some((index, item.priority))
            } else {
                Some((c, p))
            },
            None => Some((index, item.priority)),
        }
    }
}

/// When every priority is at most `LOWEST_PRIORITY`, a list has a current
/// exactly when one of its items is active.
pub proof fn lemma_current_iff_some_active(list: Priolist)
    requires
        list.inv(),
        forall|j: int| 0 <= j < list.items().len() ==> #[trigger] list.items()[j].priority <= LOWEST_PRIORITY,
    ensures
        list.current() is Some <==> exists|j: int| 0 <= j < list.items().len() && #[trigger] list.items()[j].active,
{
    if let Some((c, p)) = list.current() {
        assert(list.items()[c].active);
    }
}

/// When every priority is at most `LOWEST_PRIORITY`, the current of a list,
/// if any, is an active item and no active item has a higher priority.
pub proof fn lemma_current_is_highest_active(list: Priolist)
    requires
        list.inv(),
        forall|j: int| 0 <= j < list.items().len() ==> #[trigger] list.items()[j].priority <= LOWEST_PRIORITY,
    ensures
        list.current() matches Some((c, p)) ==> {
            &&& list.items()[c].active
            &&& forall|j: int| 0 <= j < list.items().len() && #[trigger] list.items()[j].active ==> p <= list.items()[j].priority
        },
{
    if let Some((c, p)) = list.current() {
        assert(list.items()[c].priority <= LOWEST_PRIORITY);
    }
}


/// Items are served in turn: once the current item is taken, the next
/// current is another active item of the same priority when there is one.
pub proof fn lemma_pop_serves_in_turn(m: PriolistModel, j: int)
    requires
        m.inv(),
        m.current matches Some((c, p)) && 0 <= j < m.items.len() && j != c && m.items[j].active && m.items[j].priority
            == p,
    ensures
        ({
            let (c, p) = m.current->0;
            let next = m.popped().1;
            &&& next.current matches Some((k, q)) && k != c && q == p && next.items[k].active
            &&& m.popped().0 == Some(m.items[c].value)
        }),
{
    let (c, p) = m.current->0;
    let items = m.items.update(c, Item { active: false, ..m.items[c] });
    lemma_first_in(items, c, items.len() as int, active_with(p));
    lemma_first_in(items, 0, c, active_with(p));
    assert(items[j].active && items[j].priority == p);
    if j >= c {
        assert(active_with(p)(items[j]));
    } else {
        assert(active_with(p)(items[j]));
    }
}


/// Every priority of `items` is at most `LOWEST_PRIORITY`.
pub open spec fn priorities_bounded(items: Seq<Item>) -> bool {
    forall|j: int| 0 <= j < items.len() ==> #[trigger] items[j].priority <= LOWEST_PRIORITY
}

/// Inserting appends the item, inactive, and changes nothing else: the
/// earlier items and the current stay, so the next item taken is the one
/// that would have been taken before.
pub proof fn lemma_insert_keeps_current(m: PriolistModel, id: EndpointId, prio: u8)
    ensures
        ({
            let n = m.inserted(id, prio);
            &&& n.items.len() == m.items.len() + 1
            &&& n.items.last() == (Item { value: id, priority: prio, active: false })
            &&& forall|j: int| 0 <= j < m.items.len() ==> #[trigger] n.items[j] == m.items[j]
            &&& n.current == m.current
            &&& m.inv() ==> n.popped().0 == m.popped().0
        }),
{
}

/// No operation gives an item a priority number beyond `LOWEST_PRIORITY`
/// when every stored item and the inserted one have priorities at most
/// `LOWEST_PRIORITY`: each later list then has a current exactly when one of
/// its items is active (`lemma_current_iff_some_active`).
pub proof fn lemma_priorities_stay_bounded(m: PriolistModel, id: EndpointId, prio: u8)
    requires
        m.inv(),
        priorities_bounded(m.items),
    ensures
        prio <= LOWEST_PRIORITY ==> priorities_bounded(m.inserted(id, prio).items),
        priorities_bounded(m.removed(id).items),
        priorities_bounded(m.activated(id).items),
        priorities_bounded(m.deactivated(id).items),
        priorities_bounded(m.popped().1.items),
{
    if prio <= LOWEST_PRIORITY {
        let n = m.inserted(id, prio).items;
        assert forall|j: int| 0 <= j < n.len() implies #[trigger] n[j].priority <= LOWEST_PRIORITY by {
            if j < m.items.len() {
                assert(n[j] == m.items[j]);
            }
        }
    }
    if let Some(i) = index_of(m.items, id) {
        lemma_first_in(m.items, 0, m.items.len() as int, has_value(id));
        let r = swap_removed(m.items, i);
        assert forall|j: int| 0 <= j < r.len() implies #[trigger] r[j].priority <= LOWEST_PRIORITY by {
            if j == i {
                assert(r[j] == m.items[m.items.len() - 1]);
            } else {
                assert(r[j] == m.items[j]);
            }
        }
        let a = m.items.update(i, Item { active: true, ..m.items[i] });
        assert forall|j: int| 0 <= j < a.len() implies #[trigger] a[j].priority <= LOWEST_PRIORITY by {
            assert(m.items[j].priority <= LOWEST_PRIORITY);
        }
        let d = m.items.update(i, Item { active: false, ..m.items[i] });
        assert forall|j: int| 0 <= j < d.len() implies #[trigger] d[j].priority <= LOWEST_PRIORITY by {
            assert(m.items[j].priority <= LOWEST_PRIORITY);
        }
    }
    if let Some((c, p)) = m.current {
        let d = m.items.update(c, Item { active: false, ..m.items[c] });
        assert forall|j: int| 0 <= j < d.len() implies #[trigger] d[j].priority <= LOWEST_PRIORITY by {
            assert(m.items[j].priority <= LOWEST_PRIORITY);
        }
    }
}

} // verus!
