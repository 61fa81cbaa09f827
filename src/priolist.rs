use vstd::prelude::*;

verus! {

/// Abstract state of a fair queue: the registered tokens in rotation order,
/// which of them are eligible, and the position the next search starts from.
pub struct FairQueueView {
    pub tokens: Seq<usize>,
    pub active: Seq<bool>,
    pub cursor: int,
}

impl FairQueueView {
    pub open spec fn wf(self) -> bool {
        &&& self.tokens.len() == self.active.len()
        &&& self.tokens.no_duplicates()
        &&& (if self.tokens.len() == 0 { self.cursor == 0 } else { 0 <= self.cursor < self.tokens.len() })
    }

    pub open spec fn contains(self, tok: usize) -> bool {
        self.tokens.contains(tok)
    }

    /// Position of the slot `offset` steps after the cursor, wrapping around.
    pub open spec fn slot(self, offset: int) -> int {
        (self.cursor + offset) % (self.tokens.len() as int)
    }

    /// Offset from the cursor of the first eligible slot at or after `from`.
    pub open spec fn first_active(self, from: nat) -> Option<nat>
        decreases self.tokens.len() - from,
    {
        if from >= self.tokens.len() {
            None
        } else if self.active[self.slot(from as int)] {
            Some(from)
        } else {
            self.first_active(from + 1)
        }
    }

    /// Registers a token, not yet eligible, at the back of the rotation.
    pub open spec fn insert(self, tok: usize) -> FairQueueView {
        if self.contains(tok) {
            self
        } else {
            FairQueueView { tokens: self.tokens.push(tok), active: self.active.push(false), cursor: self.cursor }
        }
    }

    /// Unregisters a token; the others keep their order, and the cursor keeps
    /// pointing at the same token unless that is the one removed.
    pub open spec fn remove(self, tok: usize) -> FairQueueView {
        if !self.contains(tok) {
            self
        } else {
            let i = self.tokens.index_of(tok);
            let n = self.tokens.len() - 1;
            let c = if i < self.cursor { self.cursor - 1 } else { self.cursor };
            FairQueueView {
                tokens: self.tokens.remove(i),
                active: self.active.remove(i),
                cursor: if c >= n { 0 } else { c },
            }
        }
    }

    /// Sets whether a registered token is eligible.
    pub open spec fn set_active(self, tok: usize, on: bool) -> FairQueueView {
        if !self.contains(tok) {
            self
        } else {
            FairQueueView { active: self.active.update(self.tokens.index_of(tok), on), ..self }
        }
    }

    /// Takes the next eligible token in rotation order: it becomes ineligible
    /// and the cursor moves just past it.
    pub open spec fn pop(self) -> (FairQueueView, Option<usize>) {
        match self.first_active(0) {
            None => (self, None),
            Some(off) => {
                let i = self.slot(off as int);
                (
                    FairQueueView {
                        tokens: self.tokens,
                        active: self.active.update(i, false),
                        cursor: (i + 1) % (self.tokens.len() as int),
                    },
                    Some(self.tokens[i]),
                )
            },
        }
    }
}

impl FairQueueView {
    /// The state after `k` successive pops, and the tokens they handed out.
    pub open spec fn pop_n(self, k: nat) -> (FairQueueView, Seq<usize>)
        decreases k,
    {
        if k == 0 {
            (self, Seq::<usize>::empty())
        } else {
            let prev = self.pop_n((k - 1) as nat);
            let next = prev.0.pop();
            (next.0, match next.1 { Some(t) => prev.1.push(t), None => prev.1 })
        }
    }

    pub open spec fn all_active(self) -> bool {
        forall|i: int| 0 <= i < self.active.len() ==> self.active[i]
    }
}

/// Adding `j` steps to position `c` in a ring of `n` wraps at most once.
pub proof fn lemma_wrap(c: int, j: int, n: int)
    requires
        0 <= c < n,
        0 <= j <= n,
    ensures
        (c + j) % n == if c + j < n { c + j } else { c + j - n },
{
    if c + j < n {
        vstd::arithmetic::div_mod::lemma_small_mod((c + j) as nat, n as nat);
    } else {
        vstd::arithmetic::div_mod::lemma_mod_add_multiples_vanish(c + j - n, n);
        vstd::arithmetic::div_mod::lemma_small_mod((c + j - n) as nat, n as nat);
    }
}

/// State reached after `k` pops from a queue whose pipes were all eligible.
proof fn lemma_pop_n_all_active(v: FairQueueView, k: nat)
    requires
        v.wf(),
        v.all_active(),
        v.tokens.len() > 0,
        k <= v.tokens.len(),
    ensures
        ({
            let n = v.tokens.len() as int;
            let r = v.pop_n(k);
            &&& r.0.tokens == v.tokens
            &&& r.0.cursor == (v.cursor + k) % n
            &&& r.0.active.len() == n
            &&& forall|i: int| 0 <= i < n ==> (r.0.active[i] <==> !(exists|j: int| 0 <= j < k && #[trigger] ((v.cursor + j) % n) == i))
            &&& r.1 == Seq::new(k, |j: int| v.tokens[(v.cursor + j) % n])
        }),
    decreases k,
{
    let n = v.tokens.len() as int;
    let c = v.cursor;
    if k == 0 {
        vstd::arithmetic::div_mod::lemma_small_mod(c as nat, n as nat);
        assert(v.pop_n(0).1 =~= Seq::new(0, |j: int| v.tokens[(c + j) % n]));
    } else {
        let k1 = (k - 1) as nat;
        lemma_pop_n_all_active(v, k1);
        let prev = v.pop_n(k1);
        let s = prev.0;
        lemma_wrap(c, k1 as int, n);
        lemma_wrap(c, k as int, n);
        let i = (c + k1) % n;
        assert(s.slot(0) == i) by {
            vstd::arithmetic::div_mod::lemma_small_mod(i as nat, n as nat);
        }
        assert(s.active[i]) by {
            if exists|j: int| 0 <= j < k1 && #[trigger] ((c + j) % n) == i {
                let j = choose|j: int| 0 <= j < k1 && #[trigger] ((c + j) % n) == i;
                lemma_wrap(c, j, n);
            }
        }
        assert(s.first_active(0) == Some(0nat));
        let next = s.pop();
        assert(next.1 == Some(v.tokens[i]));
        assert forall|x: int| 0 <= x < n implies (next.0.active[x] <==> !(exists|j: int| 0 <= j < k && #[trigger] ((c + j) % n) == x)) by {
            if x == i {
                assert((c + k1) % n == x);
            } else {
                if exists|j: int| 0 <= j < k && #[trigger] ((c + j) % n) == x {
                    let j = choose|j: int| 0 <= j < k && #[trigger] ((c + j) % n) == x;
                    assert(j != k1);
                }
            }
        }
        assert(next.0.cursor == (c + k) % n) by {
            lemma_wrap(i, 1, n);
        }
        assert(v.pop_n(k).1 =~= Seq::new(k, |j: int| v.tokens[(c + j) % n]));
    }
}

/// Fairness: when all `n` registered pipes are eligible, `n` successive pops
/// hand out every token exactly once, in rotation order starting at the
/// cursor, whatever order the tokens were registered in.
pub proof fn lemma_fair_rotation(v: FairQueueView)
    requires
        v.wf(),
        v.all_active(),
    ensures
        v.pop_n(v.tokens.len()).1 == v.tokens.subrange(v.cursor, v.tokens.len() as int) + v.tokens.subrange(0, v.cursor),
        v.pop_n(v.tokens.len()).1.to_multiset() == v.tokens.to_multiset(),
{
    let n = v.tokens.len() as int;
    let c = v.cursor;
    let rot = v.tokens.subrange(c, n) + v.tokens.subrange(0, c);
    if n == 0 {
        assert(v.pop_n(0).1 =~= rot);
    } else {
        lemma_pop_n_all_active(v, n as nat);
        assert forall|j: int| 0 <= j < n implies v.pop_n(n as nat).1[j] == rot[j] by {
            lemma_wrap(c, j, n);
        }
        assert(v.pop_n(n as nat).1 =~= rot);
    }
    vstd::seq_lib::lemma_multiset_commutative(v.tokens.subrange(c, n), v.tokens.subrange(0, c));
    vstd::seq_lib::lemma_multiset_commutative(v.tokens.subrange(0, c), v.tokens.subrange(c, n));
    assert(v.tokens.subrange(0, c) + v.tokens.subrange(c, n) =~= v.tokens);
}

/// Round-robin selector over the pipes of a socket.
pub struct PrioList {
    tokens: Vec<usize>,
    active: Vec<bool>,
    cursor: usize,
}

impl View for PrioList {
    type V = FairQueueView;

    closed spec fn view(&self) -> FairQueueView {
        FairQueueView { tokens: self.tokens@, active: self.active@, cursor: self.cursor as int }
    }
}

impl PrioList {
    pub open spec fn wf(&self) -> bool {
        self@.wf()
    }

    pub fn new() -> (r: PrioList)
        ensures
            r.wf(),
            r@.tokens == Seq::<usize>::empty(),
    {
        PrioList { tokens: Vec::new(), active: Vec::new(), cursor: 0 }
    }

    pub fn len(&self) -> (r: usize)
        ensures
            r == self@.tokens.len(),
    {
        self.tokens.len()
    }

    /// Position of `tok`, if registered.
    fn find(&self, tok: usize) -> (r: Option<usize>)
        requires
            self.wf(),
        ensures
            match r {
                None => !self@.contains(tok),
                Some(i) => self@.contains(tok) && i == self@.tokens.index_of(tok) && i < self@.tokens.len(),
            },
    {
        let mut i: usize = 0;
        while i < self.tokens.len()
            invariant
                self.wf(),
                i <= self.tokens@.len(),
                forall|j: int| 0 <= j < i ==> self.tokens@[j] != tok,
            decreases self.tokens@.len() - i,
        {
            if self.tokens[i] == tok {
                proof {
                    self.tokens@.index_of_first_ensures(tok);
                    assert(self.tokens@.contains(tok));
                }
                return Some(i);
            }
            i = i + 1;
        }
        None
    }

    pub fn contains(&self, tok: usize) -> (r: bool)
        requires
            self.wf(),
        ensures
            r == self@.contains(tok),
    {
        self.find(tok).is_some()
    }

    pub fn tokens(&self) -> (r: &Vec<usize>)
        ensures
            r@ == self@.tokens,
    {
        &self.tokens
    }

    pub fn insert(&mut self, tok: usize)
        requires
            old(self).wf(),
        ensures
            final(self).wf(),
            final(self)@ == old(self)@.insert(tok),
    {
        if self.contains(tok) {
            return;
        }
        self.tokens.push(tok);
        self.active.push(false);
        proof {
            assert forall|a: int, b: int| 0 <= a < b < self.tokens@.len() implies self.tokens@[a] != self.tokens@[b] by {
                if b == self.tokens@.len() - 1 {
                    assert(old(self).tokens@[a] == self.tokens@[a]);
                }
            }
        }
    }

    pub fn remove(&mut self, tok: usize)
        requires
            old(self).wf(),
        ensures
            final(self).wf(),
            final(self)@ == old(self)@.remove(tok),
    {
        match self.find(tok) {
            None => {},
            Some(i) => {
                self.tokens.remove(i);
                self.active.remove(i);
                let c: usize = if i < self.cursor { self.cursor - 1 } else { self.cursor };
                self.cursor = if c >= self.tokens.len() { 0 } else { c };
                proof {
                    let s = old(self).tokens@;
                    assert forall|a: int, b: int| 0 <= a < b < self.tokens@.len() implies self.tokens@[a] != self.tokens@[b] by {
                        let a0 = if a < i { a } else { a + 1 };
                        let b0 = if b < i { b } else { b + 1 };
                        assert(self.tokens@[a] == s[a0]);
                        assert(self.tokens@[b] == s[b0]);
                    }
                }
            },
        }
    }

    pub fn set_active(&mut self, tok: usize, on: bool)
        requires
            old(self).wf(),
        ensures
            final(self).wf(),
            final(self)@ == old(self)@.set_active(tok, on),
    {
        match self.find(tok) {
            None => {},
            Some(i) => {
                self.active.set(i, on);
            },
        }
    }

    pub fn activate(&mut self, tok: usize)
        requires
            old(self).wf(),
        ensures
            final(self).wf(),
            final(self)@ == old(self)@.set_active(tok, true),
    {
        self.set_active(tok, true);
    }

    pub fn deactivate(&mut self, tok: usize)
        requires
            old(self).wf(),
        ensures
            final(self).wf(),
            final(self)@ == old(self)@.set_active(tok, false),
    {
        self.set_active(tok, false);
    }

    /// Takes the next eligible token after the cursor, if any.
    pub fn pop(&mut self) -> (r: Option<usize>)
        requires
            old(self).wf(),
        ensures
            final(self).wf(),
            (final(self)@, r) == old(self)@.pop(),
    {
        let n = self.tokens.len();
        let mut off: usize = 0;
        while off < n
            invariant
                self.wf(),
                *self == *old(self),
                n == self.tokens@.len(),
                off <= n,
                self@.first_active(0) == self@.first_active(off as nat),
            decreases n - off,
        {
            let i: usize = if self.cursor < n - off { self.cursor + off } else { self.cursor - (n - off) };
            proof {
                let c = self.cursor as int;
                if c + off < n {
                    vstd::arithmetic::div_mod::lemma_small_mod((c + off) as nat, n as nat);
                } else {
                    vstd::arithmetic::div_mod::lemma_mod_add_multiples_vanish((c + off - n) as int, n as int);
                    vstd::arithmetic::div_mod::lemma_small_mod((c + off - n) as nat, n as nat);
                }
                assert(self@.slot(off as int) == i);
            }
            if self.active[i] {
                self.active.set(i, false);
                self.cursor = if i + 1 == n { 0 } else { i + 1 };
                proof {
                    if i + 1 < n {
                        vstd::arithmetic::div_mod::lemma_small_mod((i + 1) as nat, n as nat);
                    } else {
                        vstd::arithmetic::div_mod::lemma_mod_self_0(n as int);
                    }
                }
                return Some(self.tokens[i]);
            }
            off = off + 1;
        }
        None
    }

    /// Unregisters every token.
    pub fn clear(&mut self)
        ensures
            final(self).wf(),
            final(self)@.tokens == Seq::<usize>::empty(),
    {
        self.tokens.clear();
        self.active.clear();
        self.cursor = 0;
    }
}

} // verus!
