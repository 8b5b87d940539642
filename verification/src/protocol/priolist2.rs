//! A list of pipe tokens with priorities, in the order they were inserted:
//! an activated item becomes current when there is none or when it has a
//! higher priority (a smaller number), and advancing moves the current to
//! the next active item after it.
use vstd::prelude::*;

verus! {

#[derive(Clone, Copy)]
pub struct TokenItem {
    pub token: usize,
    pub priority: u8,
    pub active: bool,
}

/// The first index `i` in `lo..hi` such that `pred(items[i])`.
pub open spec fn first_with(items: Seq<TokenItem>, lo: int, hi: int, pred: spec_fn(TokenItem) -> bool) -> Option<int>
    decreases hi - lo,
{
    if lo >= hi {
        None
    } else if pred(items[lo]) {
        Some(lo)
    } else {
        first_with(items, lo + 1, hi, pred)
    }
}

pub proof fn lemma_first_with(items: Seq<TokenItem>, lo: int, hi: int, pred: spec_fn(TokenItem) -> bool)
    ensures
        match first_with(items, lo, hi, pred) {
            Some(i) => lo <= i < hi && pred(items[i]) && forall|j: int| lo <= j < i ==> !pred(#[trigger] items[j]),
            None => forall|j: int| lo <= j < hi ==> !pred(#[trigger] items[j]),
        },
    decreases hi - lo,
{
    if lo < hi {
        lemma_first_with(items, lo + 1, hi, pred);
    }
}

/// An inactive item that holds `tok`.
pub open spec fn inactive_with(tok: usize) -> spec_fn(TokenItem) -> bool {
    |x: TokenItem| x.token == tok && !x.active
}

pub open spec fn is_active() -> spec_fn(TokenItem) -> bool {
    |x: TokenItem| x.active
}

pub struct TokenItemsModel {
    pub items: Seq<TokenItem>,
    pub current: Option<int>,
}

impl TokenItemsModel {
    pub open spec fn wf(self) -> bool {
        self.current matches Some(c) ==> 0 <= c < self.items.len() && self.items[c].active
    }

    pub open spec fn get(self) -> Option<usize> {
        match self.current {
            Some(c) => Some(self.items[c].token),
            None => None,
        }
    }

    pub open spec fn inserted(self, tok: usize, priority: u8) -> TokenItemsModel {
        TokenItemsModel { items: self.items.push(TokenItem { token: tok, priority, active: false }), ..self }
    }

    pub open spec fn activated(self, tok: usize) -> TokenItemsModel {
        match first_with(self.items, 0, self.items.len() as int, inactive_with(tok)) {
            Some(i) => TokenItemsModel {
                items: self.items.update(i, TokenItem { active: true, ..self.items[i] }),
                current: match self.current {
                    Some(c) => if self.items[i].priority < self.items[c].priority {
                        Some(i)
                    } else {
                        Some(c)
                    },
                    None => Some(i),
                },
            },
            None => self,
        }
    }

    /// The current moves to the next active item after it, if there is one.
    pub open spec fn advanced(self) -> TokenItemsModel {
        match self.current {
            Some(c) => match first_with(self.items, c + 1, self.items.len() as int, is_active()) {
                Some(j) => TokenItemsModel { current: Some(j), ..self },
                None => self,
            },
            None => self,
        }
    }
}

pub struct PrioList {
    items: Vec<TokenItem>,
    current: Option<usize>,
}

impl View for PrioList {
    type V = TokenItemsModel;

    closed spec fn view(&self) -> TokenItemsModel {
        TokenItemsModel {
            items: self.items@,
            current: match self.current {
                Some(c) => Some(c as int),
                None => None,
            },
        }
    }
}

impl PrioList {
    pub open spec fn inv(&self) -> bool {
        self@.wf()
    }

    pub fn new() -> (list: PrioList)
        ensures
            list.inv(),
            list@ == (TokenItemsModel { items: Seq::empty(), current: None }),
    {
        PrioList { items: Vec::new(), current: None }
    }

    pub fn get(&self) -> (r: Option<usize>)
        requires
            self.inv(),
        ensures
            r == self@.get(),
    {
        match self.current {
            Some(i) => Some(self.items[i].token),
            None => None,
        }
    }

    pub fn insert(&mut self, tok: usize, priority: u8)
        requires
            old(self).inv(),
        ensures
            final(self).inv(),
            final(self)@ == old(self)@.inserted(tok, priority),
    {
        self.items.push(TokenItem { token: tok, priority, active: false });
    }

    /// Leaves the list as it is.
    pub fn remove(&mut self, _tok: usize)
        ensures
            final(self)@ == old(self)@,
    {
    }

    pub fn activate(&mut self, tok: usize)
        requires
            old(self).inv(),
        ensures
            final(self).inv(),
            final(self)@ == old(self)@.activated(tok),
    {
        let activable_index = self.find_activable_index(tok);
        if let Some(index) = activable_index {
            proof {
                lemma_first_with(self@.items, 0, self@.items.len() as int, inactive_with(tok));
            }
            self.activate_index(index);
        }
    }

    fn activate_index(&mut self, index: usize)
        requires
            old(self).inv(),
            index < old(self)@.items.len(),
        ensures
            final(self).inv(),
            final(self)@ == (TokenItemsModel {
                items: old(self)@.items.update(index as int, TokenItem { active: true, ..old(self)@.items[index as int] }),
                current: match old(self)@.current {
                    Some(c) => if old(self)@.items[index as int].priority < old(self)@.items[c].priority {
                        Some(index as int)
                    } else {
                        Some(c)
                    },
                    None => Some(index as int),
                },
            }),
    {
        let mut item = self.items[index];
        item.active = true;
        self.items.set(index, item);
        if let Some(current) = self.current {
            if self.items[index].priority < self.items[current].priority {
                self.current = Some(index);
            }
        } else {
            self.current = Some(index);
        }
    }

    /// The index of the first inactive item that holds `tok`.
    pub fn find_activable_index(&self, tok: usize) -> (r: Option<usize>)
        ensures
            r matches Some(k) ==> first_with(self@.items, 0, self@.items.len() as int, inactive_with(tok)) == Some(k as int),
            r is None ==> first_with(self@.items, 0, self@.items.len() as int, inactive_with(tok)) is None,
    {
        let mut i: usize = 0;
        while i < self.items.len()
            invariant
                i <= self@.items.len(),
                first_with(self@.items, 0, self@.items.len() as int, inactive_with(tok)) == first_with(
                    self@.items,
                    i as int,
                    self@.items.len() as int,
                    inactive_with(tok),
                ),
            decreases self@.items.len() - i,
        {
            if self.items[i].token == tok && !self.items[i].active {
                return Some(i);
            }
            i = i + 1;
        }
        None
    }

    pub fn advance(&mut self)
        requires
            old(self).inv(),
        ensures
            final(self).inv(),
            final(self)@ == old(self)@.advanced(),
    {
        if let Some(index) = self.current {
            proof {
                assert(self.items.len() == self.items@.len());
                lemma_first_with(self@.items, index + 1, self@.items.len() as int, is_active());
            }
            if let Some(i) = self.find_active_index_after(index + 1) {
                self.current = Some(i);
            }
        }
    }

    /// The index of the first active item from `from` on.
    fn find_active_index_after(&self, from: usize) -> (r: Option<usize>)
        ensures
            r matches Some(k) ==> first_with(self@.items, from as int, self@.items.len() as int, is_active()) == Some(k as int),
            r is None ==> first_with(self@.items, from as int, self@.items.len() as int, is_active()) is None,
    {
        if from == self.items.len() {
            None
        } else {
            let mut i = from;
            while i < self.items.len()
                invariant
                    from <= i,
                    i <= self@.items.len() || i == from,
                    first_with(self@.items, from as int, self@.items.len() as int, is_active()) == first_with(
                        self@.items,
                        i as int,
                        self@.items.len() as int,
                        is_active(),
                    ),
                decreases self@.items.len() - i,
            {
                if self.items[i].active {
                    return Some(i);
                }
                i = i + 1;
            }
            None
        }
    }

    /// Leaves the list as it is.
    pub fn deactivate_and_advance(&mut self)
        ensures
            final(self)@ == old(self)@,
    {
    }
}

} // verus!
