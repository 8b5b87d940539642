//! A list of pipe tokens that turns through the active ones in the order of
//! their numbers; priorities are ignored.
//!
//! - insert adds a pending token;
//! - activate moves a pending token to the active ones; the first active
//!   token becomes current;
//! - advance moves the current to the next active token, wrapping around;
//! - get gives the current token, if any;
//! - remove drops a pending token, or else an active one; when it was
//!   current, the smallest active token becomes current.
use vstd::prelude::*;

verus! {

/// Strictly increasing.
pub open spec fn sorted(s: Seq<usize>) -> bool {
    forall|i: int, j: int| 0 <= i < j < s.len() ==> s[i] < s[j]
}

pub open spec fn is_least(s: Set<usize>, x: usize) -> bool {
    s.contains(x) && forall|y: usize| s.contains(y) ==> x <= y
}

/// The least element of a set that has one.
pub open spec fn least(s: Set<usize>) -> usize {
    choose|x: usize| is_least(s, x)
}

/// The token that follows `t` among `s`: the least one above `t`, or else
/// the least one.
pub open spec fn following(s: Set<usize>, t: usize) -> usize {
    let above = s.filter(|x: usize| x > t);
    if exists|x: usize| above.contains(x) {
        least(above)
    } else {
        least(s)
    }
}

/// The tokens waiting to be activated, the active ones and the current one.
pub struct TokenListModel {
    pub pending: Set<usize>,
    pub active: Set<usize>,
    pub current: Option<usize>,
}

impl TokenListModel {
    pub open spec fn inserted(self, t: usize) -> TokenListModel {
        TokenListModel { pending: self.pending.insert(t), ..self }
    }

    pub open spec fn removed(self, t: usize) -> TokenListModel {
        if self.pending.contains(t) {
            TokenListModel { pending: self.pending.remove(t), ..self }
        } else if self.active.contains(t) {
            let active = self.active.remove(t);
            let current = if self.current == Some(t) {
                if active.is_empty() {
                    None
                } else {
                    Some(least(active))
                }
            } else {
                self.current
            };
            TokenListModel { active, current, ..self }
        } else {
            self
        }
    }

    pub open spec fn activated(self, t: usize) -> TokenListModel {
        if self.pending.contains(t) || self.active.contains(t) {
            TokenListModel {
                pending: self.pending.remove(t),
                active: self.active.insert(t),
                current: if self.current is None {
                    Some(t)
                } else {
                    self.current
                },
            }
        } else {
            self
        }
    }

    pub open spec fn advanced(self) -> TokenListModel {
        match self.current {
            Some(t) => TokenListModel { current: Some(following(self.active, t)), ..self },
            None => self,
        }
    }
}

pub proof fn lemma_least(s: Seq<usize>)
    requires
        sorted(s),
        s.len() > 0,
    ensures
        least(s.to_set()) == s[0],
{
    assert(is_least(s.to_set(), s[0])) by {
        assert(s.to_set().contains(s[0]));
        assert forall|y: usize| s.to_set().contains(y) implies s[0] <= y by {
            let k = choose|k: int| 0 <= k < s.len() && s[k] == y;
            assert(s.contains(y));
        }
    }
    let x = least(s.to_set());
    assert(is_least(s.to_set(), x));
    assert(x == s[0]) by {
        assert(s.contains(x));
    }
}

/// In a sorted sequence the token that follows `s[i]` is the next one, or
/// the first one after the last.
pub proof fn lemma_following(s: Seq<usize>, i: int)
    requires
        sorted(s),
        0 <= i < s.len(),
    ensures
        following(s.to_set(), s[i]) == s[(i + 1) % (s.len() as int)],
{
    let t = s[i];
    let above = s.to_set().filter(|x: usize| x > t);
    if i + 1 < s.len() {
        assert(above.contains(s[i + 1])) by {
            assert(s.contains(s[i + 1]));
        }
        let tail = s.subrange(i + 1, s.len() as int);
        assert(tail.to_set() =~= above) by {
            assert forall|x: usize| above.contains(x) implies tail.to_set().contains(x) by {
                assert(s.contains(x));
                let k = choose|k: int| 0 <= k < s.len() && s[k] == x;
                if k <= i {
                    assert(s[k] <= s[i]);
                }
                assert(tail[k - (i + 1)] == x);
                assert(tail.contains(x));
            }
            assert forall|x: usize| tail.to_set().contains(x) implies above.contains(x) by {
                assert(tail.contains(x));
                let k = choose|k: int| 0 <= k < tail.len() && tail[k] == x;
                assert(s[k + i + 1] == x);
                assert(s.contains(x));
            }
        }
        lemma_least(tail);
        assert((i + 1) % (s.len() as int) == i + 1) by (nonlinear_arith)
            requires
                0 <= i + 1 < s.len(),
        ;
    } else {
        assert forall|x: usize| !above.contains(x) by {
            if above.contains(x) {
                assert(s.contains(x));
                let k = choose|k: int| 0 <= k < s.len() && s[k] == x;
                if k < i {
                    assert(s[k] < s[i]);
                }
            }
        }
        lemma_least(s);
        vstd::arithmetic::div_mod::lemma_mod_self_0(s.len() as int);
    }
}

/// Inserting `t` where it keeps the order.
pub proof fn lemma_sorted_insert(s: Seq<usize>, i: int, t: usize)
    requires
        sorted(s),
        0 <= i <= s.len(),
        forall|j: int| 0 <= j < i ==> s[j] < t,
        forall|j: int| i <= j < s.len() ==> s[j] > t,
    ensures
        sorted(s.insert(i, t)),
        s.insert(i, t).to_set() == s.to_set().insert(t),
{
    let r = s.insert(i, t);
    assert forall|a: int, b: int| 0 <= a < b < r.len() implies r[a] < r[b] by {
        if b < i {
        } else if b == i {
        } else if a < i {
            assert(s[a] < t && t < s[b - 1]);
        } else if a == i {
        } else {
        }
    }
    assert(r.to_set() =~= s.to_set().insert(t)) by {
        assert forall|x: usize| r.to_set().contains(x) implies s.to_set().insert(t).contains(x) by {
            assert(r.contains(x));
            let k = choose|k: int| 0 <= k < r.len() && r[k] == x;
            if k < i {
                assert(s.contains(x));
            } else if k > i {
                assert(s[k - 1] == x);
                assert(s.contains(x));
            }
        }
        assert forall|x: usize| s.to_set().insert(t).contains(x) implies r.to_set().contains(x) by {
            if x == t {
                assert(r[i] == t);
                assert(r.contains(x));
            } else {
                assert(s.contains(x));
                let k = choose|k: int| 0 <= k < s.len() && s[k] == x;
                if k < i {
                    assert(r[k] == x);
                } else {
                    assert(r[k + 1] == x);
                }
                assert(r.contains(x));
            }
        }
    }
}

/// Removing the element at `i`.
pub proof fn lemma_sorted_remove(s: Seq<usize>, i: int)
    requires
        sorted(s),
        0 <= i < s.len(),
    ensures
        sorted(s.remove(i)),
        s.remove(i).to_set() == s.to_set().remove(s[i]),
{
    let r = s.remove(i);
    assert forall|a: int, b: int| 0 <= a < b < r.len() implies r[a] < r[b] by {
        if b < i {
        } else if a < i {
            assert(s[a] < s[b + 1]);
        } else {
            assert(s[a + 1] < s[b + 1]);
        }
    }
    assert(r.to_set() =~= s.to_set().remove(s[i])) by {
        assert forall|x: usize| r.to_set().contains(x) implies s.to_set().remove(s[i]).contains(x) by {
            assert(r.contains(x));
            let k = choose|k: int| 0 <= k < r.len() && r[k] == x;
            if k < i {
                assert(s[k] == x);
                assert(s[k] < s[i]);
            } else {
                assert(s[k + 1] == x);
                assert(s[i] < s[k + 1]);
            }
            assert(s.contains(x));
        }
        assert forall|x: usize| s.to_set().remove(s[i]).contains(x) implies r.to_set().contains(x) by {
            assert(s.contains(x));
            let k = choose|k: int| 0 <= k < s.len() && s[k] == x;
            assert(k != i);
            if k < i {
                assert(r[k] == x);
            } else {
                assert(r[k - 1] == x);
            }
            assert(r.contains(x));
        }
    }
}

/// Where `t` is in a sorted vector, or where it would go.
pub fn search(v: &Vec<usize>, t: usize) -> (r: Result<usize, usize>)
    requires
        sorted(v@),
    ensures
        r matches Ok(i) ==> i < v@.len() && v@[i as int] == t,
        r matches Err(i) ==> i <= v@.len() && (forall|j: int| 0 <= j < i ==> v@[j] < t) && (forall|j: int|
            i <= j < v@.len() ==> v@[j] > t),
        r is Err <==> !v@.contains(t),
{
    let mut lo: usize = 0;
    let mut hi: usize = v.len();
    while lo < hi
        invariant
            sorted(v@),
            lo <= hi <= v@.len(),
            forall|j: int| 0 <= j < lo ==> v@[j] < t,
            forall|j: int| hi <= j < v@.len() ==> v@[j] > t,
        decreases hi - lo,
    {
        let mid = lo + (hi - lo) / 2;
        if v[mid] == t {
            return Ok(mid);
        } else if v[mid] < t {
            lo = mid + 1;
        } else {
            hi = mid;
        }
    }
    proof {
        if v@.contains(t) {
            let k = choose|k: int| 0 <= k < v@.len() && v@[k] == t;
            assert(v@[k] == t);
        }
    }
    Err(lo)
}

pub struct PrioList {
    pending: Vec<usize>,
    tokens: Vec<usize>,
    current: Option<usize>,
}

impl View for PrioList {
    type V = TokenListModel;

    closed spec fn view(&self) -> TokenListModel {
        TokenListModel { pending: self.pending@.to_set(), active: self.tokens@.to_set(), current: self.current }
    }
}

impl PrioList {
    /// Both lists are sorted; there is a current exactly when a token is
    /// active, and it is one of them.
    pub closed spec fn inv(&self) -> bool {
        &&& sorted(self.pending@)
        &&& sorted(self.tokens@)
        &&& self.current is None <==> self.tokens@.len() == 0
        &&& self.current matches Some(t) ==> self.tokens@.contains(t)
    }

    /// There is a current token exactly when a token is active, and it is
    /// one of the active tokens.
    pub proof fn lemma_current_is_active(&self)
        requires
            self.inv(),
        ensures
            self@.current is None <==> self@.active =~= Set::<usize>::empty(),
            self@.current matches Some(t) ==> self@.active.contains(t),
    {
        if self.tokens@.len() > 0 {
            assert(self@.active.contains(self.tokens@[0]));
        }
    }

    pub fn new() -> (list: PrioList)
        ensures
            list.inv(),
            list@ == (TokenListModel { pending: Set::empty(), active: Set::empty(), current: None }),
    {
        let list = PrioList { pending: Vec::new(), tokens: Vec::new(), current: None };
        proof {
            assert(list.pending@.to_set() =~= Set::<usize>::empty());
            assert(list.tokens@.to_set() =~= Set::<usize>::empty());
        }
        list
    }

    /// Adds a pending token; the priority is not used.
    pub fn insert(&mut self, token: usize, _priority: usize)
        requires
            old(self).inv(),
        ensures
            final(self).inv(),
            final(self)@ == old(self)@.inserted(token),
    {
        if let Err(index) = search(&self.pending, token) {
            proof {
                lemma_sorted_insert(self.pending@, index as int, token);
            }
            self.pending.insert(index, token);
        } else {
            proof {
                assert(old(self)@.pending.insert(token) =~= old(self)@.pending);
            }
        }
    }

    pub fn remove(&mut self, token: &usize)
        requires
            old(self).inv(),
        ensures
            final(self).inv(),
            final(self)@ == old(self)@.removed(*token),
    {
        if let Ok(index) = search(&self.pending, *token) {
            proof {
                lemma_sorted_remove(self.pending@, index as int);
                assert(self.pending@.contains(*token));
            }
            self.pending.remove(index);
        } else if let Ok(index) = search(&self.tokens, *token) {
            proof {
                lemma_sorted_remove(self.tokens@, index as int);
                assert(self.tokens@.contains(*token));
            }
            let removed = self.tokens.remove(index);
            if Some(removed) == self.current {
                self.current = if self.tokens.len() == 0 {
                    proof {
                        assert(self.tokens@.to_set() =~= Set::<usize>::empty());
                    }
                    None
                } else {
                    proof {
                        lemma_least(self.tokens@);
                        assert(self.tokens@.to_set().contains(self.tokens@[0]));
                    }
                    Some(self.tokens[0])
                };
            } else {
                proof {
                    let t = self.current->0;
                    assert(old(self).tokens@.contains(t));
                    let k = choose|k: int| 0 <= k < old(self).tokens@.len() && old(self).tokens@[k] == t;
                    assert(k != index);
                    if k < index {
                        assert(self.tokens@[k] == t);
                    } else {
                        assert(self.tokens@[k - 1] == t);
                    }
                }
            }
        }
    }

    /// The current token, if any.
    pub fn get(&self) -> (r: Option<usize>)
        ensures
            r == self@.current,
    {
        self.current
    }

    /// Moves a pending token to the active ones; the first active token
    /// becomes current.
    pub fn activate(&mut self, token: usize)
        requires
            old(self).inv(),
        ensures
            final(self).inv(),
            final(self)@ == old(self)@.activated(token),
    {
        let mut activated = false;
        if let Ok(index) = search(&self.pending, token) {
            proof {
                lemma_sorted_remove(self.pending@, index as int);
            }
            let token = self.pending.remove(index);
            if let Err(index) = search(&self.tokens, token) {
                proof {
                    lemma_sorted_insert(self.tokens@, index as int, token);
                }
                self.tokens.insert(index, token);
                activated = true;
            } else {
                proof {
                    assert(old(self)@.active.insert(token) =~= old(self)@.active);
                }
            }
        } else if let Ok(_) = search(&self.tokens, token) {
            activated = true;
            proof {
                assert(old(self)@.active.insert(token) =~= old(self)@.active);
                assert(old(self)@.pending.remove(token) =~= old(self)@.pending);
            }
        }
        if activated && self.current.is_none() {
            self.current = Some(token);
        }
        proof {
            if let Some(t) = self.current {
                if t != token {
                    assert(old(self).tokens@.contains(t));
                    let k = choose|k: int| 0 <= k < old(self).tokens@.len() && old(self).tokens@[k] == t;
                    assert(self@.active.contains(t));
                }
                assert(self@.active.contains(t));
            }
        }
    }

    /// The current moves to the next active token, wrapping around.
    pub fn advance(&mut self)
        requires
            old(self).inv(),
        ensures
            final(self).inv(),
            final(self)@ == old(self)@.advanced(),
    {
        if let Some(token) = self.current {
            if let Ok(index) = search(&self.tokens, token) {
                proof {
                    assert(self.tokens.len() == self.tokens@.len());
                }
                let next = (index + 1) % self.tokens.len();
                proof {
                    lemma_following(self.tokens@, index as int);
                }
                self.current = Some(self.tokens[next]);
            }
        }
    }
}

} // verus!
