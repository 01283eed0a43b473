//! Pairs, lists, dictionaries and double-ended queues built from quad-cells.
//!
//! Walks along a chain of cells stop after `WALK_MAX` links: a chain longer
//! than the number of cells in memory must repeat a cell, so it is cyclic and
//! a walk without that bound would never end.
use vstd::prelude::*;
use crate::value::{
    Any, Error, spec_is_fix, spec_is_ptr, fix_val, spec_fix, is_fixnum_range, fix_num, fix, UNDEF,
    NIL, PAIR_T, DICT_T, EMPTY_DQ,
};
use crate::quad::{Quad, mk, valid};
use crate::cpu::{Core, CoreView, valid_cell};

verus! {

/// Upper bound on the links of a walk: the number of cells in memory.
pub const WALK_MAX: usize = 1536;

impl CoreView {
    /// The pairs of a list, following `cdr` links, at most `fuel` of them.
    pub open spec fn spine(self, p: Any, fuel: nat) -> Seq<Any>
        decreases fuel,
    {
        if fuel == 0 || !self.typeq(PAIR_T, p) {
            Seq::empty()
        } else {
            seq![p] + self.spine(self.cell(p).y, (fuel - 1) as nat)
        }
    }

    /// The number of pairs in a list.
    pub open spec fn list_len(self, p: Any) -> int {
        self.spine(p, WALK_MAX as nat).len() as int
    }

    /// The elements of a list.
    pub open spec fn items(self, p: Any) -> Seq<Any> {
        self.spine(p, WALK_MAX as nat).map_values(|c: Any| self.cell(c).x)
    }

    pub open spec fn car(self, p: Any) -> Any {
        if self.typeq(PAIR_T, p) {
            self.cell(p).x
        } else {
            UNDEF
        }
    }

    pub open spec fn cdr(self, p: Any) -> Any {
        if self.typeq(PAIR_T, p) {
            self.cell(p).y
        } else {
            UNDEF
        }
    }

    /// The `n`-th element of a list (counting from 1), or `UNDEF`.
    pub open spec fn nth_item(self, p: Any, n: int) -> Any
        decreases n,
    {
        if n <= 1 {
            if n == 1 {
                self.car(p)
            } else {
                UNDEF
            }
        } else if !self.typeq(PAIR_T, p) {
            UNDEF
        } else {
            self.nth_item(self.cell(p).y, n - 1)
        }
    }

    /// The tail of a list after its `m`-th pair (counting from 1), or `UNDEF`.
    pub open spec fn nth_tail(self, p: Any, m: int) -> Any
        decreases m,
    {
        if m <= 1 {
            if m == 1 {
                self.cdr(p)
            } else {
                UNDEF
            }
        } else if !self.typeq(PAIR_T, p) {
            UNDEF
        } else {
            self.nth_tail(self.cell(p).y, m - 1)
        }
    }

    /// Selection by index: 0 is the whole list, `n > 0` its `n`-th element,
    /// `n < 0` the tail after its `-n`-th pair.
    pub open spec fn extract(self, lst: Any, n: int) -> Any {
        if n == 0 {
            lst
        } else if n > 0 {
            self.nth_item(lst, n)
        } else {
            self.nth_tail(lst, -n)
        }
    }

    /// The `n`-th pair of a list and its predecessor, stopping early at the
    /// end of the list.
    pub open spec fn split_from(self, pred: Any, nth: Any, n: int) -> (Any, Any)
        decreases n,
    {
        if n > 1 && self.typeq(PAIR_T, nth) {
            self.split_from(nth, self.cell(nth).y, n - 1)
        } else {
            (pred, nth)
        }
    }

    /// The value bound to `key` by the first entry of a dictionary chain that
    /// has it, looking at no more than `fuel` entries.
    pub open spec fn dict_lookup(self, d: Any, key: Any, fuel: nat) -> Option<Any>
        decreases fuel,
    {
        if fuel == 0 || !self.typeq(DICT_T, d) {
            None
        } else if self.cell(d).x == key {
            Some(self.cell(d).y)
        } else {
            self.dict_lookup(self.cell(d).z, key, (fuel - 1) as nat)
        }
    }

    pub open spec fn dict_get(self, d: Any, key: Any) -> Any {
        match self.dict_lookup(d, key, WALK_MAX as nat) {
            Some(v) => v,
            None => UNDEF,
        }
    }

    pub open spec fn deque_empty(self, d: Any) -> bool {
        if self.typeq(PAIR_T, d) {
            !(self.typeq(PAIR_T, self.car(d)) || self.typeq(PAIR_T, self.cdr(d)))
        } else {
            true
        }
    }

    /// Allocate a pair and report the outcome and the new contents.
    pub open spec fn cons_step(self, car: Any, cdr: Any) -> (Result<Any, Error>, CoreView) {
        let init = mk(PAIR_T, car, cdr, UNDEF);
        (self.alloc_outcome(init), self.alloc_state(init))
    }
}

/// Every element of a list read from well-formed memory is a valid value.
pub proof fn lemma_spine_valid(v: CoreView, p: Any, fuel: nat)
    requires
        v.wf(),
        valid(p),
    ensures
        forall|i: int| 0 <= i < v.spine(p, fuel).len() ==> valid(#[trigger] v.spine(p, fuel)[i])
            && v.typeq(PAIR_T, v.spine(p, fuel)[i]),
    decreases fuel,
{
    if fuel > 0 && v.typeq(PAIR_T, p) {
        lemma_cell_fields_valid(v, p);
        lemma_spine_valid(v, v.cell(p).y, (fuel - 1) as nat);
        let s = v.spine(p, fuel);
        let t = v.spine(v.cell(p).y, (fuel - 1) as nat);
        assert forall|i: int| 0 <= i < s.len() implies valid(#[trigger] s[i]) && v.typeq(
            PAIR_T,
            s[i],
        ) by {
            if i > 0 {
                assert(s[i] == t[i - 1]);
            }
        }
    }
}

/// Unbinding a key keeps memory well-formed and gives a valid dictionary.
pub proof fn lemma_dict_del_step_wf(v: CoreView, dict: Any, key: Any, fuel: nat)
    requires
        v.wf(),
        valid(dict),
    ensures
        v.dict_del_step(dict, key, fuel).1.wf(),
        v.dict_del_step(dict, key, fuel).0 matches Ok(d) ==> valid(d),
    decreases fuel,
{
    if v.typeq(DICT_T, dict) {
        lemma_cell_fields_valid(v, dict);
        let e = v.cell(dict);
        if e.x != key {
            if fuel > 1 {
                lemma_dict_del_step_wf(v, e.z, key, (fuel - 1) as nat);
                let (r, v1) = v.dict_del_step(e.z, key, (fuel - 1) as nat);
                if let Ok(d) = r {
                    if v1.alloc_outcome(mk(DICT_T, e.x, e.y, d)) is Ok {
                        v1.lemma_alloc_cell(mk(DICT_T, e.x, e.y, d), UNDEF);
                    }
                }
            } else if v.alloc_outcome(mk(DICT_T, e.x, e.y, NIL)) is Ok {
                v.lemma_alloc_cell(mk(DICT_T, e.x, e.y, NIL), UNDEF);
            }
        }
    }
}

/// A walk of `fuel` links visits at most `fuel` pairs.
pub proof fn lemma_spine_len(v: CoreView, p: Any, fuel: nat)
    ensures
        v.spine(p, fuel).len() <= fuel,
    decreases fuel,
{
    if fuel > 0 && v.typeq(PAIR_T, p) {
        lemma_spine_len(v, v.cell(p).y, (fuel - 1) as nat);
    }
}

/// The fields of a readable cell of well-formed memory are valid values.
pub proof fn lemma_cell_fields_valid(v: CoreView, p: Any)
    requires
        v.wf(),
        !spec_is_fix(p),
        valid(p),
    ensures
        valid_cell(v.cell(p)),
{
}

impl Core {
    /// The first element of a pair, or `UNDEF`.
    pub fn car(&self, pair: Any) -> (r: Any)
        requires
            self@.wf(),
            valid(pair),
        ensures
            r == self@.car(pair),
            valid(r),
    {
        if self.typeq(PAIR_T, pair) {
            self.mem(pair).x
        } else {
            UNDEF
        }
    }

    /// The rest of a pair, or `UNDEF`.
    pub fn cdr(&self, pair: Any) -> (r: Any)
        requires
            self@.wf(),
            valid(pair),
        ensures
            r == self@.cdr(pair),
            valid(r),
    {
        if self.typeq(PAIR_T, pair) {
            self.mem(pair).y
        } else {
            UNDEF
        }
    }

    /// Allocate a pair for the current event.
    pub fn cons(&mut self, car: Any, cdr: Any) -> (r: Result<Any, Error>)
        requires
            old(self)@.wf(),
            valid(car),
            valid(cdr),
        ensures
            final(self)@.wf(),
            r == old(self)@.cons_step(car, cdr).0,
            final(self)@ == old(self)@.cons_step(car, cdr).1,
            r matches Ok(p) ==> valid(p) && spec_is_ptr(p),
    {
        let pair = Quad::pair_t(car, cdr);
        self.alloc_cell(&pair)
    }

    /// The number of pairs in a list.
    pub(crate) fn list_len(&self, list: Any) -> (n: isize)
        requires
            self@.wf(),
            valid(list),
        ensures
            n == self@.list_len(list),
            0 <= n <= WALK_MAX,
    {
        let mut n: isize = 0;
        let mut p = list;
        while n < WALK_MAX as isize && self.typeq(PAIR_T, p)
            invariant
                self@.wf(),
                valid(p),
                0 <= n <= WALK_MAX,
                n + self@.spine(p, (WALK_MAX - n) as nat).len() == self@.list_len(list),
            decreases WALK_MAX - n,
        {
            proof {
                lemma_cell_fields_valid(self@, p);
            }
            n += 1;
            p = self.cdr(p);
        }
        n
    }

    /// Select from a list by index (see `CoreView::extract`).
    pub(crate) fn extract_nth(&self, lst: Any, n: isize) -> (r: Any)
        requires
            self@.wf(),
            valid(lst),
            -64 < n < 64,
        ensures
            r == self@.extract(lst, n as int),
            valid(r),
    {
        let mut p = lst;
        if n == 0 {
            p
        } else if n > 0 {
            let mut k = n;
            while k > 1 && self.typeq(PAIR_T, p)
                invariant
                    self@.wf(),
                    valid(p),
                    1 <= k <= n,
                    self@.nth_item(p, k as int) == self@.nth_item(lst, n as int),
                decreases k,
            {
                proof {
                    lemma_cell_fields_valid(self@, p);
                }
                k -= 1;
                p = self.cdr(p);
            }
            if k == 1 {
                self.car(p)
            } else {
                UNDEF
            }
        } else {
            let mut k = -n;
            while k > 1 && self.typeq(PAIR_T, p)
                invariant
                    self@.wf(),
                    valid(p),
                    1 <= k <= -n,
                    self@.nth_tail(p, k as int) == self@.nth_tail(lst, -n as int),
                decreases k,
            {
                proof {
                    lemma_cell_fields_valid(self@, p);
                }
                k -= 1;
                p = self.cdr(p);
            }
            if k == 1 {
                self.cdr(p)
            } else {
                UNDEF
            }
        }
    }

    /// The `n`-th pair of a list and its predecessor (`UNDEF` if none).
    pub(crate) fn split_nth(&self, lst: Any, n: isize) -> (r: (Any, Any))
        requires
            self@.wf(),
            valid(lst),
            n < 64,
        ensures
            r == self@.split_from(UNDEF, lst, n as int),
            valid(r.0),
            valid(r.1),
    {
        let mut nth = lst;
        let mut pred = UNDEF;
        let ghost n0 = n;
        let mut n = n;
        while n > 1 && self.typeq(PAIR_T, nth)
            invariant
                self@.wf(),
                valid(nth),
                valid(pred),
                n < 64,
                self@.split_from(pred, nth, n as int) == self@.split_from(UNDEF, lst, n0 as int),
            decreases n,
        {
            proof {
                lemma_cell_fields_valid(self@, nth);
            }
            pred = nth;
            nth = self.cdr(nth);
            n -= 1;
        }
        (pred, nth)
    }

    /// Select from a list by a fixnum index (see `CoreView::extract`), or
    /// `UNDEF` when the index is not a fixnum.
    pub fn nth(&self, list: Any, index: Any) -> (r: Any)
        requires
            self@.wf(),
            valid(list),
            spec_is_fix(index) ==> -64 < fix_val(index) < 64,
        ensures
            r == (if spec_is_fix(index) { self@.extract(list, fix_val(index)) } else { UNDEF }),
    {
        if let Some(n) = fix_num(index) {
            self.extract_nth(list, n)
        } else {
            UNDEF
        }
    }

    /// Does the dictionary bind `key`?
    pub fn dict_has(&self, dict: Any, key: Any) -> (r: bool)
        requires
            self@.wf(),
            valid(dict),
        ensures
            r == self@.dict_lookup(dict, key, WALK_MAX as nat) is Some,
    {
        let mut d = dict;
        let mut fuel: usize = WALK_MAX;
        while fuel > 0 && self.typeq(DICT_T, d)
            invariant
                self@.wf(),
                valid(d),
                fuel <= WALK_MAX,
                self@.dict_lookup(d, key, fuel as nat) == self@.dict_lookup(
                    dict,
                    key,
                    WALK_MAX as nat,
                ),
            decreases fuel,
        {
            let entry = self.mem(d);
            if key == entry.x {
                return true;
            }
            d = entry.z;
            fuel -= 1;
        }
        false
    }

    /// The value the dictionary binds to `key`, or `UNDEF`.
    pub fn dict_get(&self, dict: Any, key: Any) -> (r: Any)
        requires
            self@.wf(),
            valid(dict),
        ensures
            r == self@.dict_get(dict, key),
            valid(r),
    {
        let mut d = dict;
        let mut fuel: usize = WALK_MAX;
        while fuel > 0 && self.typeq(DICT_T, d)
            invariant
                self@.wf(),
                valid(d),
                fuel <= WALK_MAX,
                self@.dict_lookup(d, key, fuel as nat) == self@.dict_lookup(
                    dict,
                    key,
                    WALK_MAX as nat,
                ),
            decreases fuel,
        {
            let entry = self.mem(d);
            if key == entry.x {
                return entry.y;
            }
            d = entry.z;
            fuel -= 1;
        }
        UNDEF
    }

    /// Add an entry binding `key` to `value` in front of a dictionary.
    pub fn dict_add(&mut self, dict: Any, key: Any, value: Any) -> (r: Result<Any, Error>)
        requires
            old(self)@.wf(),
            valid(dict),
            valid(key),
            valid(value),
        ensures
            final(self)@.wf(),
            r == old(self)@.alloc_outcome(mk(DICT_T, key, value, dict)),
            final(self)@ == old(self)@.alloc_state(mk(DICT_T, key, value, dict)),
            r matches Ok(p) ==> valid(p) && spec_is_ptr(p),
    {
        let dict = Quad::dict_t(key, value, dict);
        self.alloc_cell(&dict)
    }

    /// The empty deque.
    pub fn deque_new(&self) -> (r: Any)
        ensures
            r == EMPTY_DQ,
    {
        EMPTY_DQ
    }

    /// Is the deque empty (a non-pair counts as empty)?
    pub fn deque_empty(&self, deque: Any) -> (r: bool)
        requires
            self@.wf(),
            valid(deque),
        ensures
            r == self@.deque_empty(deque),
    {
        if self.typeq(PAIR_T, deque) {
            let front = self.car(deque);
            let back = self.cdr(deque);
            !(self.typeq(PAIR_T, front) || self.typeq(PAIR_T, back))
        } else {
            true
        }
    }

    /// The number of elements of a deque.
    pub fn deque_len(&self, deque: Any) -> (r: isize)
        requires
            self@.wf(),
            valid(deque),
        ensures
            r == self@.list_len(self@.car(deque)) + self@.list_len(self@.cdr(deque)),
            0 <= r <= 2 * WALK_MAX,
    {
        let front = self.car(deque);
        let back = self.cdr(deque);
        self.list_len(front) + self.list_len(back)
    }
}

} // verus!

verus! {

impl CoreView {
    /// Push onto the front of a deque: cons `item` onto the front list, then
    /// a new deque cell of that and the back list.
    pub open spec fn deque_push_step(self, d: Any, item: Any) -> (Result<Any, Error>, CoreView) {
        let (r1, v1) = self.cons_step(item, self.car(d));
        match r1 {
            Ok(f) => v1.cons_step(f, v1.cdr(d)),
            Err(e) => (Err(e), v1),
        }
    }

    /// Remove the first entry for `key` from a dictionary, looking at no more
    /// than `fuel` entries: the entries before it are copied into cells
    /// allocated for the current event, the entries after it are shared. At
    /// the walk bound the copy ends the dictionary.
    pub open spec fn dict_del_step(self, dict: Any, key: Any, fuel: nat) -> (Result<Any, Error>, CoreView)
        decreases fuel,
    {
        if !self.typeq(DICT_T, dict) {
            (Ok(NIL), self)
        } else {
            let e = self.cell(dict);
            if e.x == key {
                (Ok(e.z), self)
            } else if fuel > 1 {
                let (r, v1) = self.dict_del_step(e.z, key, (fuel - 1) as nat);
                match r {
                    Ok(d) => (
                        v1.alloc_outcome(mk(DICT_T, e.x, e.y, d)),
                        v1.alloc_state(mk(DICT_T, e.x, e.y, d)),
                    ),
                    Err(err) => (Err(err), v1),
                }
            } else {
                (
                    self.alloc_outcome(mk(DICT_T, e.x, e.y, NIL)),
                    self.alloc_state(mk(DICT_T, e.x, e.y, NIL)),
                )
            }
        }
    }

    /// The dictionary without its first entry for `key` (the dictionary
    /// itself when it binds no such key), and the contents after that step.
    pub open spec fn dict_unbind_step(self, dict: Any, key: Any) -> (Result<Any, Error>, CoreView) {
        if self.dict_lookup(dict, key, WALK_MAX as nat) is Some {
            self.dict_del_step(dict, key, WALK_MAX as nat)
        } else {
            (Ok(dict), self)
        }
    }

    /// Bind `key` to `value`: unbind it, then add an entry in front.
    pub open spec fn dict_set_step(self, dict: Any, key: Any, value: Any) -> (Result<Any, Error>, CoreView) {
        let (r0, v0) = self.dict_unbind_step(dict, key);
        match r0 {
            Ok(d) => (v0.alloc_outcome(mk(DICT_T, key, value, d)), v0.alloc_state(mk(DICT_T, key, value, d))),
            Err(e) => (Err(e), v0),
        }
    }

    /// Move the items of list `from` one by one onto the front of list
    /// `onto` (reversing them), at most `fuel` of them: the grown `onto` and
    /// what is left of `from`, and the contents after the allocations.
    pub open spec fn move_step(self, from: Any, onto: Any, fuel: nat) -> (Result<(Any, Any), Error>, CoreView)
        decreases fuel,
    {
        if fuel == 0 || !self.typeq(PAIR_T, from) {
            (Ok((onto, from)), self)
        } else {
            let (r, v1) = self.cons_step(self.car(from), onto);
            match r {
                Ok(o) => v1.move_step(self.cdr(from), o, (fuel - 1) as nat),
                Err(e) => (Err(e), v1),
            }
        }
    }

    /// Take the first item of list `front` and build a deque of the rest of
    /// it and `back`; no item (and `deque` unchanged) when `front` is not a pair.
    pub open spec fn take_first_step(self, deque: Any, front: Any, back: Any) -> (Result<(Any, Any), Error>, CoreView) {
        if self.typeq(PAIR_T, front) {
            let (r, w) = self.cons_step(self.cdr(front), back);
            match r {
                Ok(nd) => (Ok((nd, self.car(front))), w),
                Err(e) => (Err(e), w),
            }
        } else {
            (Ok((deque, UNDEF)), self)
        }
    }

    /// Pop from the front of a deque, first moving the back list to the front
    /// when the front list is empty.
    pub open spec fn deque_pop_step(self, deque: Any) -> (Result<(Any, Any), Error>, CoreView) {
        let front = self.car(deque);
        let back = self.cdr(deque);
        if !self.typeq(PAIR_T, deque) {
            (Ok((deque, UNDEF)), self)
        } else if self.typeq(PAIR_T, front) {
            self.take_first_step(deque, front, back)
        } else if self.typeq(PAIR_T, back) {
            let (r, v1) = self.move_step(back, front, WALK_MAX as nat);
            match r {
                Ok((onto, rest)) => v1.take_first_step(deque, onto, rest),
                Err(e) => (Err(e), v1),
            }
        } else {
            (Ok((deque, UNDEF)), self)
        }
    }

    /// Take the first item of list `back` and build a deque of `front` and
    /// the rest of it; no item (and `deque` unchanged) when `back` is not a pair.
    pub open spec fn take_last_step(self, deque: Any, front: Any, back: Any) -> (Result<(Any, Any), Error>, CoreView) {
        if self.typeq(PAIR_T, back) {
            let (r, w) = self.cons_step(front, self.cdr(back));
            match r {
                Ok(nd) => (Ok((nd, self.car(back))), w),
                Err(e) => (Err(e), w),
            }
        } else {
            (Ok((deque, UNDEF)), self)
        }
    }

    /// Pull from the back of a deque, first moving the front list to the back
    /// when the back list is empty.
    pub open spec fn deque_pull_step(self, deque: Any) -> (Result<(Any, Any), Error>, CoreView) {
        let front = self.car(deque);
        let back = self.cdr(deque);
        if !self.typeq(PAIR_T, deque) {
            (Ok((deque, UNDEF)), self)
        } else if self.typeq(PAIR_T, back) {
            self.take_last_step(deque, front, back)
        } else if self.typeq(PAIR_T, front) {
            let (r, v1) = self.move_step(front, back, WALK_MAX as nat);
            match r {
                Ok((onto, rest)) => v1.take_last_step(deque, rest, onto),
                Err(e) => (Err(e), v1),
            }
        } else {
            (Ok((deque, UNDEF)), self)
        }
    }

    /// Put onto the back of a deque: cons `item` onto the back list, then a
    /// new deque cell of the front list and that.
    pub open spec fn deque_put_step(self, d: Any, item: Any) -> (Result<Any, Error>, CoreView) {
        let (r1, v1) = self.cons_step(item, self.cdr(d));
        match r1 {
            Ok(b) => v1.cons_step(self.car(d), b),
            Err(e) => (Err(e), v1),
        }
    }
}

impl Core {
    /// Bind `key` to `value`: remove the first entry for `key` (if any) and
    /// add a new entry in front.
    pub fn dict_set(&mut self, dict: Any, key: Any, value: Any) -> (r: Result<Any, Error>)
        requires
            old(self)@.wf(),
            valid(dict),
            valid(key),
            valid(value),
        ensures
            final(self)@.wf(),
            r == old(self)@.dict_set_step(dict, key, value).0,
            final(self)@ == old(self)@.dict_set_step(dict, key, value).1,
            r matches Ok(d) ==> valid(d) && spec_is_ptr(d),
    {
        let d = if self.dict_has(dict, key) {
            self.dict_del(dict, key)?
        } else {
            dict
        };
        self.dict_add(d, key, value)
    }

    /// Remove the first entry for `key` from a dictionary, copying the
    /// entries before it.
    pub fn dict_del(&mut self, dict: Any, key: Any) -> (r: Result<Any, Error>)
        requires
            old(self)@.wf(),
            valid(dict),
        ensures
            final(self)@.wf(),
            r == old(self)@.dict_del_step(dict, key, WALK_MAX as nat).0,
            final(self)@ == old(self)@.dict_del_step(dict, key, WALK_MAX as nat).1,
            r matches Ok(d) ==> valid(d),
    {
        self.dict_del_walk(dict, key, WALK_MAX)
    }

    fn dict_del_walk(&mut self, dict: Any, key: Any, fuel: usize) -> (r: Result<Any, Error>)
        requires
            old(self)@.wf(),
            valid(dict),
            fuel > 0,
        ensures
            final(self)@.wf(),
            r == old(self)@.dict_del_step(dict, key, fuel as nat).0,
            final(self)@ == old(self)@.dict_del_step(dict, key, fuel as nat).1,
            r matches Ok(d) ==> valid(d),
        decreases fuel,
    {
        if self.typeq(DICT_T, dict) {
            let entry = self.mem(dict);
            let k = entry.x;
            let value = entry.y;
            let next = entry.z;
            if key == k {
                Ok(next)
            } else if fuel > 1 {
                let d = self.dict_del_walk(next, key, fuel - 1)?;
                self.dict_add(d, k, value)
            } else {
                self.dict_add(NIL, k, value)
            }
        } else {
            Ok(NIL)
        }
    }

    /// Push `item` onto the front of a deque.
    pub fn deque_push(&mut self, deque: Any, item: Any) -> (r: Result<Any, Error>)
        requires
            old(self)@.wf(),
            valid(deque),
            valid(item),
        ensures
            final(self)@.wf(),
            r == old(self)@.deque_push_step(deque, item).0,
            final(self)@ == old(self)@.deque_push_step(deque, item).1,
            r matches Ok(d) ==> valid(d),
    {
        let front = self.car(deque);
        let front = self.cons(item, front)?;
        let back = self.cdr(deque);
        self.cons(front, back)
    }

    /// Put `item` onto the back of a deque.
    pub fn deque_put(&mut self, deque: Any, item: Any) -> (r: Result<Any, Error>)
        requires
            old(self)@.wf(),
            valid(deque),
            valid(item),
        ensures
            final(self)@.wf(),
            r == old(self)@.deque_put_step(deque, item).0,
            final(self)@ == old(self)@.deque_put_step(deque, item).1,
            r matches Ok(d) ==> valid(d),
    {
        let front = self.car(deque);
        let back = self.cdr(deque);
        let back = self.cons(item, back)?;
        self.cons(front, back)
    }

    /// Pop an item from the front of a deque, moving the back list to the
    /// front when the front is empty. Returns the new deque and the item, or
    /// the deque unchanged and `UNDEF` when it is empty.
    pub fn deque_pop(&mut self, deque: Any) -> (r: Result<(Any, Any), Error>)
        requires
            old(self)@.wf(),
            valid(deque),
        ensures
            final(self)@.wf(),
            r == old(self)@.deque_pop_step(deque).0,
            final(self)@ == old(self)@.deque_pop_step(deque).1,
            r matches Ok((d, item)) ==> valid(d) && valid(item),
    {
        if !self.typeq(PAIR_T, deque) {
            return Ok((deque, UNDEF));
        }
        let front = self.car(deque);
        let back = self.cdr(deque);
        let (front, back) = if self.typeq(PAIR_T, front) {
            (front, back)
        } else if self.typeq(PAIR_T, back) {
            let (onto, rest) = self.move_items(back, front)?;
            (onto, rest)
        } else {
            return Ok((deque, UNDEF));
        };
        if self.typeq(PAIR_T, front) {
            let item = self.car(front);
            let front = self.cdr(front);
            let deque = self.cons(front, back)?;
            Ok((deque, item))
        } else {
            Ok((deque, UNDEF))
        }
    }

    /// Pull an item from the back of a deque, moving the front list to the
    /// back when the back is empty. Returns the new deque and the item, or
    /// the deque unchanged and `UNDEF` when it is empty.
    pub fn deque_pull(&mut self, deque: Any) -> (r: Result<(Any, Any), Error>)
        requires
            old(self)@.wf(),
            valid(deque),
        ensures
            final(self)@.wf(),
            r == old(self)@.deque_pull_step(deque).0,
            final(self)@ == old(self)@.deque_pull_step(deque).1,
            r matches Ok((d, item)) ==> valid(d) && valid(item),
    {
        if !self.typeq(PAIR_T, deque) {
            return Ok((deque, UNDEF));
        }
        let front = self.car(deque);
        let back = self.cdr(deque);
        let (front, back) = if self.typeq(PAIR_T, back) {
            (front, back)
        } else if self.typeq(PAIR_T, front) {
            let (onto, rest) = self.move_items(front, back)?;
            (rest, onto)
        } else {
            return Ok((deque, UNDEF));
        };
        if self.typeq(PAIR_T, back) {
            let item = self.car(back);
            let back = self.cdr(back);
            let deque = self.cons(front, back)?;
            Ok((deque, item))
        } else {
            Ok((deque, UNDEF))
        }
    }

    /// Move the items of list `from` one by one onto the front of list
    /// `onto` (reversing them). Returns the grown `onto` and what is left of
    /// `from` (not a pair unless the walk bound was reached).
    fn move_items(&mut self, from: Any, onto: Any) -> (r: Result<(Any, Any), Error>)
        requires
            old(self)@.wf(),
            valid(from),
            valid(onto),
        ensures
            final(self)@.wf(),
            r == old(self)@.move_step(from, onto, WALK_MAX as nat).0,
            final(self)@ == old(self)@.move_step(from, onto, WALK_MAX as nat).1,
            r matches Ok((o, f)) ==> valid(o) && valid(f),
    {
        let mut rest = from;
        let mut built = onto;
        let mut fuel: usize = WALK_MAX;
        while fuel > 0 && self.typeq(PAIR_T, rest)
            invariant
                self@.wf(),
                valid(rest),
                valid(built),
                fuel <= WALK_MAX,
                old(self)@.move_step(from, onto, WALK_MAX as nat) == self@.move_step(rest, built, fuel as nat),
            decreases fuel,
        {
            let item = self.car(rest);
            let next = self.cdr(rest);
            let ghost cur = self@;
            match self.cons(item, built) {
                Ok(o) => {
                    built = o;
                },
                Err(e) => {
                    proof {
                        assert(cur.move_step(rest, built, fuel as nat) == (
                            Err::<(Any, Any), Error>(e),
                            self@,
                        ));
                    }
                    return Err(e);
                },
            }
            rest = next;
            fuel -= 1;
        }
        Ok((built, rest))
    }
}

} // verus!
