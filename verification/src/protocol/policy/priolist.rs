//! A list of pipe tokens with priorities, which picks the pipe that sends or
//! receives next.
//!
//! - insert assigns the item a priority; the item is hidden and inactive;
//! - show makes the item visible: only a visible item can be activated;
//! - activate makes a visible item part of the active items; if there was
//!   no current it becomes current, and if the current had a lower priority
//!   (a greater number) it becomes current;
//! - advance selects the next active item of the current's priority;
//! - skip hides and deactivates the current, then selects another one;
//! - get gives the current item, if any;
//! - remove drops the item; when it was current another one is selected.
use std::ops::Range;

use vstd::prelude::*;

verus! {

/// The number of priorities that a new current is searched through.
pub const PRIORITIES: u8 = 16;

#[derive(Clone, Copy)]
pub struct PrioListItem {
    pub token: usize,
    pub priority: u8,
    pub visible: bool,
    pub active: bool,
}

/// The first index `i` in `lo..hi` such that `pred(items[i])`.
pub open spec fn first_where(items: Seq<PrioListItem>, lo: int, hi: int, pred: spec_fn(PrioListItem) -> bool) -> Option<int>
    decreases hi - lo,
{
    if lo >= hi {
        None
    } else if pred(items[lo]) {
        Some(lo)
    } else {
        first_where(items, lo + 1, hi, pred)
    }
}

pub proof fn lemma_first_where(items: Seq<PrioListItem>, lo: int, hi: int, pred: spec_fn(PrioListItem) -> bool)
    ensures
        match first_where(items, lo, hi, pred) {
            Some(i) => lo <= i < hi && pred(items[i]) && forall|j: int| lo <= j < i ==> !pred(#[trigger] items[j]),
            None => forall|j: int| lo <= j < hi ==> !pred(#[trigger] items[j]),
        },
    decreases hi - lo,
{
    if lo < hi {
        lemma_first_where(items, lo + 1, hi, pred);
    }
}

pub open spec fn has_token(tok: usize) -> spec_fn(PrioListItem) -> bool {
    |x: PrioListItem| x.token == tok
}

/// An item that holds `tok` and can be activated: visible and inactive.
pub open spec fn activable(tok: usize) -> spec_fn(PrioListItem) -> bool {
    |x: PrioListItem| x.token == tok && x.visible && !x.active
}

pub open spec fn deactivable(tok: usize) -> spec_fn(PrioListItem) -> bool {
    |x: PrioListItem| x.token == tok && x.active
}

pub open spec fn active_with(p: u8) -> spec_fn(PrioListItem) -> bool {
    |x: PrioListItem| x.active && x.priority == p
}

/// The first active item of the first priority in `from..PRIORITIES` that
/// has one.
pub open spec fn first_active_from(items: Seq<PrioListItem>, from: int) -> Option<int>
    decreases PRIORITIES - from,
{
    if from < 0 || from >= PRIORITIES {
        None
    } else {
        match first_where(items, 0, items.len() as int, active_with(from as u8)) {
            Some(i) => Some(i),
            None => first_active_from(items, from + 1),
        }
    }
}

pub proof fn lemma_first_active_from(items: Seq<PrioListItem>, from: int)
    requires
        0 <= from,
    ensures
        first_active_from(items, from) matches Some(i) ==> 0 <= i < items.len() && items[i].active,
    decreases PRIORITIES - from,
{
    if from < PRIORITIES {
        lemma_first_where(items, 0, items.len() as int, active_with(from as u8));
        lemma_first_active_from(items, from + 1);
    }
}

/// What `Vec::swap_remove` makes of a sequence.
pub open spec fn swap_removed(items: Seq<PrioListItem>, i: int) -> Seq<PrioListItem> {
    items.update(i, items.last()).drop_last()
}

/// A priority list seen as its items, in order, and the index of the
/// current one.
pub struct PrioListModel {
    pub items: Seq<PrioListItem>,
    pub current: Option<int>,
}

impl PrioListModel {
    /// The current item, if any, is one of the items and is active.
    pub open spec fn wf(self) -> bool {
        self.current matches Some(c) ==> 0 <= c < self.items.len() && self.items[c].active
    }

    pub open spec fn get(self) -> Option<usize> {
        match self.current {
            Some(c) => Some(self.items[c].token),
            None => None,
        }
    }

    pub open spec fn inserted(self, tok: usize, priority: u8) -> PrioListModel {
        PrioListModel {
            items: self.items.push(PrioListItem { token: tok, priority, visible: false, active: false }),
            ..self
        }
    }

    pub open spec fn shown(self, tok: usize) -> PrioListModel {
        match first_where(self.items, 0, self.items.len() as int, has_token(tok)) {
            Some(i) => PrioListModel { items: self.items.update(i, PrioListItem { visible: true, ..self.items[i] }), ..self },
            None => self,
        }
    }

    pub open spec fn activated_at(self, i: int) -> PrioListModel {
        let items = self.items.update(i, PrioListItem { active: true, ..self.items[i] });
        let current = match self.current {
            Some(c) => if self.items[i].priority < self.items[c].priority {
                Some(i)
            } else {
                Some(c)
            },
            None => Some(i),
        };
        PrioListModel { items, current }
    }

    pub open spec fn activated(self, tok: usize) -> PrioListModel {
        match first_where(self.items, 0, self.items.len() as int, activable(tok)) {
            Some(i) => self.activated_at(i),
            None => self,
        }
    }

    /// Item `i` is deactivated and a new current is selected: the next
    /// active item of its priority after it, else the first one before it,
    /// else the first active item of the next priorities.
    pub open spec fn deactivated_and_advanced(self, i: int) -> PrioListModel {
        let items = self.items.update(i, PrioListItem { active: false, ..self.items[i] });
        let p = self.items[i].priority;
        let current = match first_where(items, i + 1, items.len() as int, active_with(p)) {
            Some(j) => Some(j),
            None => match first_where(items, 0, i, active_with(p)) {
                Some(j) => Some(j),
                None => if p < PRIORITIES {
                    first_active_from(items, p + 1)
                } else {
                    None
                },
            },
        };
        PrioListModel { items, current }
    }

    pub open spec fn deactivated(self, tok: usize) -> PrioListModel {
        match first_where(self.items, 0, self.items.len() as int, deactivable(tok)) {
            Some(i) => if self.current == Some(i) {
                self.deactivated_and_advanced(i)
            } else {
                PrioListModel { items: self.items.update(i, PrioListItem { active: false, ..self.items[i] }), ..self }
            },
            None => self,
        }
    }

    /// The current moves to the next active item of its priority, after it
    /// or else before it; it stays when there is none.
    pub open spec fn advanced(self) -> PrioListModel {
        match self.current {
            Some(c) => {
                let p = self.items[c].priority;
                match first_where(self.items, c + 1, self.items.len() as int, active_with(p)) {
                    Some(j) => PrioListModel { current: Some(j), ..self },
                    None => match first_where(self.items, 0, c, active_with(p)) {
                        Some(j) => PrioListModel { current: Some(j), ..self },
                        None => self,
                    },
                }
            },
            None => self,
        }
    }

    pub open spec fn skipped(self) -> PrioListModel {
        match self.current {
            Some(c) => PrioListModel {
                items: self.items.update(c, PrioListItem { visible: false, ..self.items[c] }),
                ..self
            }.deactivated_and_advanced(c),
            None => self,
        }
    }

    /// Item `i` goes while the current, a different item, stays current.
    pub open spec fn removed_not_current(self, i: int, c: int) -> PrioListModel {
        if i < c {
            let swapped = self.items.update(i, self.items[c]).update(c, self.items[i]);
            PrioListModel { items: swap_removed(swapped, c), current: Some(i) }
        } else {
            PrioListModel { items: swap_removed(self.items, i), current: Some(c) }
        }
    }

    /// Item `i` goes; when it is the current one, another current is
    /// selected first, and none is left when no other item is active.
    pub open spec fn removed_at(self, i: int) -> PrioListModel {
        match self.current {
            Some(c) => if i == c {
                let m = self.deactivated_and_advanced(i);
                match m.current {
                    Some(nc) => m.removed_not_current(i, nc),
                    None => PrioListModel { items: swap_removed(m.items, i), current: None },
                }
            } else {
                self.removed_not_current(i, c)
            },
            None => PrioListModel { items: swap_removed(self.items, i), current: None },
        }
    }

    pub open spec fn removed(self, tok: usize) -> PrioListModel {
        match first_where(self.items, 0, self.items.len() as int, has_token(tok)) {
            Some(i) => self.removed_at(i),
            None => self,
        }
    }
}

/// Activating an item when there is no current makes it current.
pub proof fn lemma_activate_without_current(m: PrioListModel, tok: usize)
    requires
        m.wf(),
        m.current is None,
        first_where(m.items, 0, m.items.len() as int, activable(tok)) is Some,
    ensures
        m.activated(tok).get() == Some(tok),
{
    lemma_first_where(m.items, 0, m.items.len() as int, activable(tok));
}

/// Activating an item of a higher priority (a smaller number) than the
/// current makes it current; one of the same or a lower priority leaves the
/// current as it was.
pub proof fn lemma_activate_by_priority(m: PrioListModel, tok: usize)
    requires
        m.wf(),
        m.current is Some,
        first_where(m.items, 0, m.items.len() as int, activable(tok)) is Some,
    ensures
        ({
            let i = first_where(m.items, 0, m.items.len() as int, activable(tok))->0;
            let c = m.current->0;
            &&& m.items[i].priority < m.items[c].priority ==> m.activated(tok).get() == Some(tok)
            &&& m.items[i].priority >= m.items[c].priority ==> m.activated(tok).get() == m.get()
        }),
{
    lemma_first_where(m.items, 0, m.items.len() as int, activable(tok));
    let i = first_where(m.items, 0, m.items.len() as int, activable(tok))->0;
    let c = m.current->0;
    assert(i != c);
}

/// Advancing keeps the current within its priority: the new current is an
/// active item of the priority of the old one.
pub proof fn lemma_advance_keeps_priority(m: PrioListModel)
    requires
        m.wf(),
        m.current is Some,
    ensures
        m.advanced().wf(),
        m.advanced().items == m.items,
        m.items[m.advanced().current->0].priority == m.items[m.current->0].priority,
{
    let c = m.current->0;
    let p = m.items[c].priority;
    lemma_first_where(m.items, c + 1, m.items.len() as int, active_with(p));
    lemma_first_where(m.items, 0, c, active_with(p));
}

/// Removing a token that the list holds drops one item, the first that
/// holds it; the list keeps no current when no other item was active.
pub proof fn lemma_remove_drops_one(m: PrioListModel, tok: usize)
    requires
        m.wf(),
        first_where(m.items, 0, m.items.len() as int, has_token(tok)) is Some,
    ensures
        m.removed(tok).items.len() == m.items.len() - 1,
        m.removed(tok).wf(),
        ({
            let i = first_where(m.items, 0, m.items.len() as int, has_token(tok))->0;
            (forall|j: int| 0 <= j < m.items.len() && j != i ==> !#[trigger] m.items[j].active)
                ==> m.removed(tok).current is None
        }),
{
    lemma_first_where(m.items, 0, m.items.len() as int, has_token(tok));
    let i = first_where(m.items, 0, m.items.len() as int, has_token(tok))->0;
    if m.current == Some(i) {
        lemma_deactivated_and_advanced_wf(m, i);
        let d = m.deactivated_and_advanced(i);
        if d.current is Some {
            let k = d.current->0;
            assert(d.items[k] == m.items[k]);
        }
    }
}

/// Removing the current item selects another current when another active
/// item has its priority.
pub proof fn lemma_remove_current_selects_another(m: PrioListModel, tok: usize, j: int)
    requires
        m.wf(),
        first_where(m.items, 0, m.items.len() as int, has_token(tok)) == m.current,
        m.current matches Some(c) && 0 <= j < m.items.len() && j != c && m.items[j].active && m.items[j].priority
            == m.items[c].priority,
    ensures
        m.removed(tok).current is Some,
        m.removed(tok).items.len() == m.items.len() - 1,
{
    let c = m.current->0;
    let p = m.items[c].priority;
    let items = m.items.update(c, PrioListItem { active: false, ..m.items[c] });
    lemma_first_where(items, c + 1, items.len() as int, active_with(p));
    lemma_first_where(items, 0, c, active_with(p));
    assert(active_with(p)(items[j]));
    lemma_deactivated_and_advanced_wf(m, c);
}

/// Deactivating item `i` and selecting a new current leaves a current, if
/// any, that is active, hence not `i`.
pub proof fn lemma_deactivated_and_advanced_wf(m: PrioListModel, i: int)
    requires
        0 <= i < m.items.len(),
    ensures
        m.deactivated_and_advanced(i).wf(),
        m.deactivated_and_advanced(i).items.len() == m.items.len(),
        m.deactivated_and_advanced(i).current != Some(i),
{
    let items = m.items.update(i, PrioListItem { active: false, ..m.items[i] });
    let p = m.items[i].priority;
    lemma_first_where(items, i + 1, items.len() as int, active_with(p));
    lemma_first_where(items, 0, i, active_with(p));
    lemma_first_active_from(items, p + 1);
}

impl PrioListItem {
    pub fn new(token: usize, priority: u8) -> (item: PrioListItem)
        ensures
            item == (PrioListItem { token, priority, visible: false, active: false }),
    {
        PrioListItem { token, priority, visible: false, active: false }
    }

    pub fn is(&self, tok: &usize) -> (b: bool)
        ensures
            b == (self.token == *tok),
    {
        self.token == *tok
    }

    pub fn has(&self, prio: u8) -> (b: bool)
        ensures
            b == (self.priority == prio),
    {
        self.priority == prio
    }

    pub fn is_active(&self) -> (b: bool)
        ensures
            b == self.active,
    {
        self.active
    }

    pub fn is_activable(&self) -> (b: bool)
        ensures
            b == (self.visible && !self.active),
    {
        self.visible && !self.active
    }
}

pub struct PrioList {
    items: Vec<PrioListItem>,
    current: Option<usize>,
}

impl View for PrioList {
    type V = PrioListModel;

    closed spec fn view(&self) -> PrioListModel {
        PrioListModel {
            items: self.items@,
            current: match self.current {
                Some(c) => Some(c as int),
                None => None,
            },
        }
    }
}

impl PrioList {
    pub open spec fn inv(&self) -> bool {
        self@.wf()
    }

    pub fn new() -> (list: PrioList)
        ensures
            list.inv(),
            list@ == (PrioListModel { items: Seq::empty(), current: None }),
    {
        PrioList { items: Vec::new(), current: None }
    }

    /// The token of the current item, if any.
    pub fn get(&self) -> (r: Option<usize>)
        requires
            self.inv(),
        ensures
            r == self@.get(),
    {
        match self.current {
            Some(i) => Some(self.items[i].token),
            None => None,
        }
    }

    fn set(&mut self, index: usize)
        ensures
            final(self)@ == (PrioListModel { current: Some(index as int), ..old(self)@ }),
    {
        self.current = Some(index);
    }

    fn unset(&mut self)
        ensures
            final(self)@ == (PrioListModel { current: None, ..old(self)@ }),
    {
        self.current = None;
    }

    fn full_range(&self) -> (r: Range<usize>)
        ensures
            r.start == 0,
            r.end == self@.items.len(),
    {
        0..self.items.len()
    }

    pub fn insert(&mut self, tok: usize, priority: u8)
        requires
            old(self).inv(),
        ensures
            final(self).inv(),
            final(self)@ == old(self)@.inserted(tok, priority),
    {
        self.items.push(PrioListItem::new(tok, priority));
    }

    fn find_item_index_in<P: Fn(&PrioListItem) -> bool>(
        &self,
        range: Range<usize>,
        predicate: &P,
        Ghost(pred): Ghost<spec_fn(PrioListItem) -> bool>,
    ) -> (r: Option<usize>)
        requires
            range.end <= self@.items.len(),
            forall|x: PrioListItem| #[trigger] predicate.requires((&x,)),
            forall|x: PrioListItem, b: bool| predicate.ensures((&x,), b) ==> b == pred(x),
        ensures
            r matches Some(k) ==> first_where(self@.items, range.start as int, range.end as int, pred) == Some(k as int),
            r is None ==> first_where(self@.items, range.start as int, range.end as int, pred) is None,
    {
        let mut i = range.start;
        if range.end <= i {
            return None;
        }
        while i < range.end
            invariant
                range.start <= i <= range.end <= self@.items.len(),
                forall|x: PrioListItem| #[trigger] predicate.requires((&x,)),
                forall|x: PrioListItem, b: bool| predicate.ensures((&x,), b) ==> b == pred(x),
                first_where(self@.items, range.start as int, range.end as int, pred) == first_where(
                    self@.items,
                    i as int,
                    range.end as int,
                    pred,
                ),
            decreases range.end - i,
        {
            if predicate(&self.items[i]) {
                return Some(i);
            }
            i = i + 1;
        }
        None
    }

    fn find_item_index<P: Fn(&PrioListItem) -> bool>(
        &self,
        predicate: &P,
        Ghost(pred): Ghost<spec_fn(PrioListItem) -> bool>,
    ) -> (r: Option<usize>)
        requires
            forall|x: PrioListItem| #[trigger] predicate.requires((&x,)),
            forall|x: PrioListItem, b: bool| predicate.ensures((&x,), b) ==> b == pred(x),
        ensures
            r matches Some(k) ==> first_where(self@.items, 0, self@.items.len() as int, pred) == Some(k as int),
            r is None ==> first_where(self@.items, 0, self@.items.len() as int, pred) is None,
    {
        let range = self.full_range();
        self.find_item_index_in(range, predicate, Ghost(pred))
    }

    /// The index of the first item that holds `tok` and can be activated.
    pub fn find_activable_index(&self, tok: &usize) -> (r: Option<usize>)
        ensures
            r matches Some(k) ==> first_where(self@.items, 0, self@.items.len() as int, activable(*tok)) == Some(k as int),
            r is None ==> first_where(self@.items, 0, self@.items.len() as int, activable(*tok)) is None,
    {
        let t = *tok;
        self.find_item_index(
            &(|item: &PrioListItem| -> (b: bool)
                ensures
                    b == (item.token == t && item.visible && !item.active),
                { item.is(&t) && item.is_activable() }),
            Ghost(activable(t)),
        )
    }

    fn find_deactivable_index(&self, tok: &usize) -> (r: Option<usize>)
        ensures
            r matches Some(k) ==> first_where(self@.items, 0, self@.items.len() as int, deactivable(*tok)) == Some(k as int),
            r is None ==> first_where(self@.items, 0, self@.items.len() as int, deactivable(*tok)) is None,
    {
        let t = *tok;
        self.find_item_index(
            &(|item: &PrioListItem| -> (b: bool)
                ensures
                    b == (item.token == t && item.active),
                { item.is(&t) && item.is_active() }),
            Ghost(deactivable(t)),
        )
    }

    fn find_token_index(&self, tok: &usize) -> (r: Option<usize>)
        ensures
            r matches Some(k) ==> first_where(self@.items, 0, self@.items.len() as int, has_token(*tok)) == Some(k as int),
            r is None ==> first_where(self@.items, 0, self@.items.len() as int, has_token(*tok)) is None,
    {
        let t = *tok;
        self.find_item_index(
            &(|item: &PrioListItem| -> (b: bool)
                ensures
                    b == (item.token == t),
                { item.is(&t) }),
            Ghost(has_token(t)),
        )
    }

    /// The index of the first active item of `priority` in `range`.
    fn find_active_index(&self, range: Range<usize>, priority: u8) -> (r: Option<usize>)
        requires
            range.end <= self@.items.len(),
        ensures
            r matches Some(k) ==> first_where(self@.items, range.start as int, range.end as int, active_with(priority)) == Some(k as int),
            r is None ==> first_where(self@.items, range.start as int, range.end as int, active_with(priority)) is None,
    {
        self.find_item_index_in(
            range,
            &(|item: &PrioListItem| -> (b: bool)
                ensures
                    b == (item.active && item.priority == priority),
                { item.is_active() && item.has(priority) }),
            Ghost(active_with(priority)),
        )
    }

    /// The index of the first active item of `priority` after `pivot`.
    pub fn find_active_index_after(&self, pivot: usize, priority: u8) -> (r: Option<usize>)
        requires
            pivot < usize::MAX,
        ensures
            r matches Some(k) ==> first_where(self@.items, pivot + 1, self@.items.len() as int, active_with(priority)) == Some(k as int),
            r is None ==> first_where(self@.items, pivot + 1, self@.items.len() as int, active_with(priority)) is None,
    {
        let from = pivot + 1;
        let to = self.items.len();
        self.find_active_index(from..to, priority)
    }

    /// The index of the first active item of `priority` before `pivot`.
    pub fn find_active_index_before(&self, pivot: usize, priority: u8) -> (r: Option<usize>)
        requires
            pivot <= self@.items.len(),
        ensures
            r matches Some(k) ==> first_where(self@.items, 0, pivot as int, active_with(priority)) == Some(k as int),
            r is None ==> first_where(self@.items, 0, pivot as int, active_with(priority)) is None,
    {
        self.find_active_index(0..pivot, priority)
    }

    /// Makes the first item that holds `tok` visible.
    pub fn show(&mut self, tok: usize)
        requires
            old(self).inv(),
        ensures
            final(self).inv(),
            final(self)@ == old(self)@.shown(tok),
    {
        if let Some(index) = self.find_token_index(&tok) {
            proof {
                lemma_first_where(self@.items, 0, self@.items.len() as int, has_token(tok));
            }
            let mut item = self.items[index];
            item.visible = true;
            self.items.set(index, item);
        }
    }

    /// Activates the first item that holds `tok` and can be activated.
    pub fn activate(&mut self, tok: usize)
        requires
            old(self).inv(),
        ensures
            final(self).inv(),
            final(self)@ == old(self)@.activated(tok),
    {
        let activable_index = self.find_activable_index(&tok);
        if let Some(index) = activable_index {
            proof {
                lemma_first_where(self@.items, 0, self@.items.len() as int, activable(tok));
            }
            self.activate_index(index);
        }
    }

    fn activate_index(&mut self, index: usize)
        requires
            old(self).inv(),
            index < old(self)@.items.len(),
        ensures
            final(self).inv(),
            final(self)@ == old(self)@.activated_at(index as int),
    {
        let mut item = self.items[index];
        item.active = true;
        self.items.set(index, item);
        if let Some(current) = self.current {
            if self.items[index].priority < self.items[current].priority {
                self.set(index);
            }
        } else {
            self.set(index);
        }
    }

    /// Deactivates the first active item that holds `tok`; when it was the
    /// current one, another one is selected.
    pub fn deactivate(&mut self, tok: usize)
        requires
            old(self).inv(),
        ensures
            final(self).inv(),
            final(self)@ == old(self)@.deactivated(tok),
    {
        let deactivable_index = self.find_deactivable_index(&tok);
        if let Some(index) = deactivable_index {
            proof {
                lemma_first_where(self@.items, 0, self@.items.len() as int, deactivable(tok));
            }
            self.deactivate_index(index);
        }
    }

    fn deactivate_index(&mut self, index: usize)
        requires
            old(self).inv(),
            index < old(self)@.items.len(),
        ensures
            final(self).inv(),
            old(self)@.current == Some(index as int) ==> final(self)@ == old(self)@.deactivated_and_advanced(index as int),
            old(self)@.current != Some(index as int) ==> final(self)@ == (PrioListModel {
                items: old(self)@.items.update(index as int, PrioListItem { active: false, ..old(self)@.items[index as int] }),
                ..old(self)@
            }),
    {
        let mut item = self.items[index];
        item.active = false;
        self.items.set(index, item);
        if let Some(current) = self.current {
            if current == index {
                self.deactivate_index_and_advance(index);
                proof {
                    assert(old(self)@.items.update(index as int, item) =~= old(self)@.items.update(index as int, item).update(index as int, item));
                }
            }
        }
    }

    /// The current moves to the next active item of its priority.
    pub fn advance(&mut self)
        requires
            old(self).inv(),
        ensures
            final(self).inv(),
            final(self)@ == old(self)@.advanced(),
    {
        if let Some(index) = self.current {
            let priority = self.items[index].priority;
            proof {
                assert(self.items.len() == self.items@.len());
                lemma_first_where(self@.items, index + 1, self@.items.len() as int, active_with(priority));
                lemma_first_where(self@.items, 0, index as int, active_with(priority));
            }
            if let Some(i) = self.find_active_index_after(index, priority) {
                self.set(i);
            } else if let Some(i) = self.find_active_index_before(index, priority) {
                self.set(i);
            }
        }
    }

    /// Hides and deactivates the current item, then selects another one.
    pub fn skip(&mut self)
        requires
            old(self).inv(),
        ensures
            final(self).inv(),
            final(self)@ == old(self)@.skipped(),
    {
        if let Some(index) = self.current {
            let mut item = self.items[index];
            item.visible = false;
            self.items.set(index, item);
            self.deactivate_index_and_advance(index);
        }
    }

    fn deactivate_index_and_advance(&mut self, index: usize)
        requires
            index < old(self)@.items.len(),
        ensures
            final(self).inv(),
            final(self)@ == old(self)@.deactivated_and_advanced(index as int),
    {
        let mut item = self.items[index];
        item.active = false;
        self.items.set(index, item);
        self.unset();
        let priority = self.items[index].priority;
        proof {
            assert(self.items.len() == self.items@.len());
            lemma_first_where(self@.items, index + 1, self@.items.len() as int, active_with(priority));
            lemma_first_where(self@.items, 0, index as int, active_with(priority));
            lemma_first_active_from(self@.items, priority + 1);
        }
        if let Some(i) = self.find_active_index_after(index, priority) {
            self.set(i);
        } else if let Some(i) = self.find_active_index_before(index, priority) {
            self.set(i);
        } else if priority < PRIORITIES {
            self.advance_through_priorities(priority + 1);
        }
    }

    fn advance_through_priorities(&mut self, from: u8)
        requires
            old(self)@.current is None,
        ensures
            final(self)@.items == old(self)@.items,
            final(self)@.current == first_active_from(old(self)@.items, from as int),
    {
        let mut priority = from;
        while priority < PRIORITIES
            invariant
                from <= priority,
                from <= PRIORITIES ==> priority <= PRIORITIES,
                self@.items == old(self)@.items,
                self@.current is None,
                first_active_from(self@.items, from as int) == first_active_from(self@.items, priority as int),
            decreases PRIORITIES - priority,
        {
            let all = self.full_range();
            if let Some(i) = self.find_active_index(all, priority) {
                self.set(i);
                return;
            }
            priority = priority + 1;
        }
    }

    /// Drops the first item that holds `tok`.
    pub fn remove(&mut self, tok: &usize)
        requires
            old(self).inv(),
        ensures
            final(self).inv(),
            final(self)@ == old(self)@.removed(*tok),
    {
        if let Some(index) = self.find_token_index(tok) {
            proof {
                lemma_first_where(self@.items, 0, self@.items.len() as int, has_token(*tok));
            }
            self.remove_index(index);
        }
    }

    fn remove_index(&mut self, index: usize)
        requires
            old(self).inv(),
            index < old(self)@.items.len(),
        ensures
            final(self).inv(),
            final(self)@ == old(self)@.removed_at(index as int),
    {
        if let Some(current) = self.current {
            if index == current {
                self.deactivate_index_and_advance(index);
                if let Some(new_current) = self.current {
                    self.remove_index_that_is_not_current(index, new_current);
                } else {
                    self.items.swap_remove(index);
                    proof {
                        assert(self@.items =~= swap_removed(old(self)@.deactivated_and_advanced(index as int).items, index as int));
                    }
                }
            } else {
                self.remove_index_that_is_not_current(index, current);
            }
        } else {
            self.items.swap_remove(index);
            proof {
                assert(self@.items =~= swap_removed(old(self)@.items, index as int));
            }
        }
    }

    fn remove_index_that_is_not_current(&mut self, index: usize, current: usize)
        requires
            old(self).inv(),
            old(self)@.current == Some(current as int),
            index < old(self)@.items.len(),
            index != current,
        ensures
            final(self).inv(),
            final(self)@ == old(self)@.removed_not_current(index as int, current as int),
    {
        if index < current {
            let removed = self.items[index];
            let kept = self.items[current];
            self.items.set(index, kept);
            self.items.set(current, removed);
            self.items.swap_remove(current);
            self.set(index);
            proof {
                let swapped = old(self)@.items.update(index as int, old(self)@.items[current as int]).update(
                    current as int,
                    old(self)@.items[index as int],
                );
                assert(self@.items =~= swap_removed(swapped, current as int));
            }
        } else {
            self.items.swap_remove(index);
            proof {
                assert(self@.items =~= swap_removed(old(self)@.items, index as int));
            }
        }
    }
}

} // verus!
