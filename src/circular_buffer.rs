//! A fixed-capacity ring buffer that overwrites its oldest element when full.
use vstd::prelude::*;

verus! {

/// Position in the storage of the `i`-th live element, counted from `back`.
pub open spec fn slot(back: int, i: int, cap: int) -> int {
    if back + i >= cap {
        back + i - cap
    } else {
        back + i
    }
}

/// The slot after `cur` in a ring of `cap` slots: the next one, or the
/// first once the last is passed.
pub open spec fn next_slot(cur: int, cap: int) -> int {
    if cur + 1 < cap {
        cur + 1
    } else {
        0
    }
}

/// The live elements after pushing `item` into a ring of `cap` slots that
/// holds `s`: when the ring is full the oldest element gives way.
pub open spec fn pushed<T>(s: Seq<T>, cap: nat, item: T) -> Seq<T> {
    if s.len() < cap {
        s.push(item)
    } else {
        s.drop_first().push(item)
    }
}

/// The live elements after a pop: the oldest leaves, if there is one.
pub open spec fn popped<T>(s: Seq<T>) -> Seq<T> {
    if s.len() == 0 {
        s
    } else {
        s.drop_first()
    }
}

/// Pushing into a ring of `cap` slots that holds `cap` elements drops
/// exactly the oldest one, and the ring stays full.
pub proof fn lemma_full_push_drops_oldest<T>(s: Seq<T>, cap: nat, item: T)
    requires
        cap > 0,
        s.len() == cap,
    ensures
        pushed(s, cap, item).len() == cap,
        pushed(s, cap, item) == s.subrange(1, cap as int).push(item),
{
}

/// Runs a sequence of operations on a ring of `cap` slots holding `s`:
/// `Some(x)` pushes `x`, `None` pops. Gives the live elements at the end and
/// the elements the pops returned, in order.
pub open spec fn run_ops<T>(s: Seq<T>, cap: nat, ops: Seq<Option<T>>) -> (Seq<T>, Seq<T>)
    decreases ops.len(),
{
    if ops.len() == 0 {
        (s, Seq::empty())
    } else {
        let (v, out) = run_ops(s, cap, ops.drop_last());
        match ops.last() {
            Some(x) => (pushed(v, cap, x), out),
            None => (
                popped(v),
                if v.len() == 0 {
                    out
                } else {
                    out.push(v[0])
                },
            ),
        }
    }
}

/// What a pop handed out, as a sequence of at most one element.
pub open spec fn popped_items<T>(r: Option<T>) -> Seq<T> {
    match r {
        Some(x) => seq![x],
        None => Seq::empty(),
    }
}

proof fn lemma_run_one<T>(s: Seq<T>, cap: nat, op: Option<T>)
    ensures
        run_ops(s, cap, seq![op]) == match op {
            Some(x) => (pushed(s, cap, x), Seq::<T>::empty()),
            None => (popped(s), if s.len() == 0 { Seq::<T>::empty() } else { seq![s[0]] }),
        },
{
    let ops = seq![op];
    assert(ops.last() == op);
    assert(ops.drop_last() =~= Seq::<Option<T>>::empty());
    assert(run_ops(s, cap, ops.drop_last()) == (s, Seq::<T>::empty()));
    if s.len() > 0 {
        assert(Seq::<T>::empty().push(s[0]) =~= seq![s[0]]);
    }
}

/// Running `a` then `b` is running `a + b`: the contents carry over and the
/// popped elements follow one another. With the single-step clauses of
/// `push` and `pop`, this ties any sequence of calls to `run_ops`.
pub proof fn lemma_run_ops_concat<T>(s: Seq<T>, cap: nat, a: Seq<Option<T>>, b: Seq<Option<T>>)
    ensures
        ({
            let (v1, out1) = run_ops(s, cap, a);
            let (v2, out2) = run_ops(v1, cap, b);
            run_ops(s, cap, a + b) == (v2, out1 + out2)
        }),
    decreases b.len(),
{
    let (v1, out1) = run_ops(s, cap, a);
    if b.len() == 0 {
        assert(a + b =~= a);
        assert(out1 + Seq::<T>::empty() =~= out1);
    } else {
        assert((a + b).drop_last() =~= a + b.drop_last());
        assert((a + b).last() == b.last());
        lemma_run_ops_concat(s, cap, a, b.drop_last());
        let (w, o) = run_ops(v1, cap, b.drop_last());
        match b.last() {
            Some(x) => {},
            None => {
                if w.len() > 0 {
                    assert(out1 + o.push(w[0]) =~= (out1 + o).push(w[0]));
                }
            },
        }
    }
}

/// `s` is ordered by `key`, smallest first.
pub open spec fn ordered_by<T>(s: Seq<T>, key: spec_fn(T) -> int) -> bool {
    forall|i: int, j: int| 0 <= i < j < s.len() ==> key(s[i]) <= key(s[j])
}

/// The pushes of `ops` come in order of `key`.
pub open spec fn pushes_ordered<T>(ops: Seq<Option<T>>, key: spec_fn(T) -> int) -> bool {
    forall|i: int, j: int|
        0 <= i < j < ops.len() && ops[i] is Some && ops[j] is Some ==> key(ops[i]->Some_0) <= key(
            ops[j]->Some_0,
        )
}

/// No push of `ops` meets a full ring and no pop an empty one.
pub open spec fn within_bounds<T>(cap: nat, ops: Seq<Option<T>>) -> bool {
    forall|i: int|
        0 <= i < ops.len() ==> {
            let v = (#[trigger] run_ops(Seq::<T>::empty(), cap, ops.take(i))).0;
            &&& ops[i] is Some ==> v.len() < cap
            &&& ops[i] is None ==> v.len() > 0
        }
}

/// The number of pushes in `ops`.
pub open spec fn push_count<T>(ops: Seq<Option<T>>) -> nat
    decreases ops.len(),
{
    if ops.len() == 0 {
        0
    } else {
        push_count(ops.drop_last()) + if ops.last() is Some {
            1nat
        } else {
            0nat
        }
    }
}

/// The last item `ops` pushes, when it pushes any.
pub open spec fn last_push<T>(ops: Seq<Option<T>>) -> Option<T>
    decreases ops.len(),
{
    if ops.len() == 0 {
        None
    } else {
        match ops.last() {
            Some(x) => Some(x),
            None => last_push(ops.drop_last()),
        }
    }
}

proof fn lemma_last_push_is_push<T>(ops: Seq<Option<T>>)
    ensures
        last_push(ops) is Some ==> exists|i: int|
            0 <= i < ops.len() && ops[i] == Some(last_push(ops)->Some_0),
    decreases ops.len(),
{
    if ops.len() > 0 {
        lemma_last_push_is_push(ops.drop_last());
        if ops.last() is None && last_push(ops) is Some {
            let i = choose|i: int|
                0 <= i < ops.drop_last().len() && ops.drop_last()[i] == Some(
                    last_push(ops)->Some_0,
                );
            assert(ops[i] == ops.drop_last()[i]);
        }
    }
}

proof fn lemma_run_ordered<T>(cap: nat, ops: Seq<Option<T>>, key: spec_fn(T) -> int)
    requires
        cap > 0,
        pushes_ordered(ops, key),
    ensures
        ({
            let (v, out) = run_ops(Seq::<T>::empty(), cap, ops);
            &&& ordered_by(v, key)
            &&& ordered_by(out, key)
            &&& forall|a: int, b: int|
                0 <= a < out.len() && 0 <= b < v.len() ==> key(out[a]) <= key(v[b])
            &&& last_push(ops) is None ==> v.len() == 0 && out.len() == 0
            &&& last_push(ops) is Some ==> (forall|b: int|
                0 <= b < v.len() ==> key(v[b]) <= key(last_push(ops)->Some_0)) && (forall|a: int|
                0 <= a < out.len() ==> key(out[a]) <= key(last_push(ops)->Some_0))
        }),
    decreases ops.len(),
{
    if ops.len() > 0 {
        let pre = ops.drop_last();
        assert(pushes_ordered(pre, key)) by {
            assert forall|i: int, j: int|
                0 <= i < j < pre.len() && pre[i] is Some && pre[j] is Some implies key(
                pre[i]->Some_0) <= key(pre[j]->Some_0) by {
                assert(pre[i] == ops[i]);
                assert(pre[j] == ops[j]);
            }
        }
        lemma_run_ordered(cap, pre, key);
        let (v, out) = run_ops(Seq::<T>::empty(), cap, pre);
        match ops.last() {
            Some(x) => {
                if last_push(pre) is Some {
                    lemma_last_push_is_push(pre);
                    let i = choose|i: int|
                        0 <= i < pre.len() && pre[i] == Some(last_push(pre)->Some_0);
                    assert(ops[i] == pre[i]);
                    assert(key(last_push(pre)->Some_0) <= key(x));
                }
                let w = pushed(v, cap, x);
                let shift: int = if v.len() < cap {
                    0
                } else {
                    1
                };
                assert(w.len() == v.len() - shift + 1);
                assert forall|b: int| 0 <= b < w.len() - 1 implies w[b] == v[b + shift] by {}
                assert(w[w.len() - 1] == x);
                assert forall|b: int| 0 <= b < w.len() implies key(w[b]) <= key(x) by {
                    if b < w.len() - 1 {
                        assert(w[b] == v[b + shift]);
                    }
                }
                assert forall|i: int, j: int| 0 <= i < j < w.len() implies key(w[i]) <= key(w[j]) by {
                    if j < w.len() - 1 {
                        assert(w[i] == v[i + shift]);
                        assert(w[j] == v[j + shift]);
                    } else {
                        assert(key(w[i]) <= key(x));
                    }
                }
                assert forall|a: int, b: int|
                    0 <= a < out.len() && 0 <= b < w.len() implies key(out[a]) <= key(w[b]) by {
                    if b < w.len() - 1 {
                        assert(w[b] == v[b + shift]);
                    }
                }
            },
            None => {
                if v.len() > 0 {
                    let v2 = v.drop_first();
                    let o2 = out.push(v[0]);
                    assert forall|i: int, j: int| 0 <= i < j < o2.len() implies key(o2[i]) <= key(
                        o2[j],
                    ) by {
                        if j == out.len() {
                            assert(o2[j] == v[0]);
                            assert(o2[i] == out[i]);
                        } else {
                            assert(o2[i] == out[i]);
                            assert(o2[j] == out[j]);
                        }
                    }
                    assert forall|a: int, b: int|
                        0 <= a < o2.len() && 0 <= b < v2.len() implies key(o2[a]) <= key(v2[b]) by {
                        assert(v2[b] == v[b + 1]);
                        if a < out.len() {
                            assert(o2[a] == out[a]);
                        } else {
                            assert(o2[a] == v[0]);
                        }
                    }
                    assert forall|i: int, j: int| 0 <= i < j < v2.len() implies key(v2[i]) <= key(
                        v2[j],
                    ) by {
                        assert(v2[i] == v[i + 1]);
                        assert(v2[j] == v[j + 1]);
                    }
                    if last_push(ops) is Some {
                        assert forall|a: int| 0 <= a < o2.len() implies key(o2[a]) <= key(
                            last_push(ops)->Some_0,
                        ) by {
                            if a < out.len() {
                                assert(o2[a] == out[a]);
                            } else {
                                assert(o2[a] == v[0]);
                            }
                        }
                        assert forall|b: int| 0 <= b < v2.len() implies key(v2[b]) <= key(
                            last_push(ops)->Some_0,
                        ) by {
                            assert(v2[b] == v[b + 1]);
                        }
                    }
                }
            },
        }
    }
}

/// Pushing messages in order of their key and popping in between hands
/// the messages out in order of their key, whether or not pushes meet a full
/// ring.
pub proof fn lemma_pops_come_in_order<T>(cap: nat, ops: Seq<Option<T>>, key: spec_fn(T) -> int)
    requires
        cap > 0,
        pushes_ordered(ops, key),
    ensures
        ordered_by(run_ops(Seq::<T>::empty(), cap, ops).1, key),
{
    lemma_run_ordered(cap, ops, key);
}

/// Where no push meets a full ring and no pop an empty one, a ring that
/// started empty holds as many elements as there were pushes less pops.
pub proof fn lemma_len_counts_ops<T>(cap: nat, ops: Seq<Option<T>>)
    requires
        within_bounds(cap, ops),
    ensures
        run_ops(Seq::<T>::empty(), cap, ops).0.len() == push_count(ops) - (ops.len() - push_count(
            ops,
        )),
    decreases ops.len(),
{
    if ops.len() > 0 {
        let pre = ops.drop_last();
        assert(within_bounds(cap, pre)) by {
            assert forall|i: int| 0 <= i < pre.len() implies {
                let v = (#[trigger] run_ops(Seq::<T>::empty(), cap, pre.take(i))).0;
                &&& pre[i] is Some ==> v.len() < cap
                &&& pre[i] is None ==> v.len() > 0
            } by {
                assert(pre.take(i) =~= ops.take(i));
                assert(run_ops(Seq::<T>::empty(), cap, ops.take(i)).0.len() >= 0);
            }
        }
        lemma_len_counts_ops(cap, pre);
        let n = ops.len() - 1;
        assert(ops.take(n) =~= pre);
        assert(run_ops(Seq::<T>::empty(), cap, ops.take(n)).0.len() >= 0);
    }
}

/// A ring of `data.len()` slots. `back` indexes the oldest live element and
/// `front` the slot the next push writes; `full` tells an empty ring from a
/// full one when the two cursors meet.
#[derive(Debug)]
pub struct CircularBuffer<T> {
    pub front: usize,
    pub back: usize,
    pub data: Vec<Option<T>>,
    pub full: bool,
}

impl<T> CircularBuffer<T> {
    pub open spec fn capacity(&self) -> nat {
        self.data@.len()
    }

    pub open spec fn len_spec(&self) -> nat {
        if self.full {
            self.capacity()
        } else if self.front >= self.back {
            (self.front - self.back) as nat
        } else {
            (self.capacity() - self.back + self.front) as nat
        }
    }

    pub open spec fn wf(&self) -> bool {
        &&& self.capacity() > 0
        &&& self.front < self.capacity()
        &&& self.back < self.capacity()
        &&& self.full ==> self.front == self.back
        &&& forall|i: int|
            0 <= i < self.len_spec() ==> (#[trigger] self.data@[slot(
                self.back as int,
                i,
                self.capacity() as int,
            )]).is_some()
    }

    /// The live elements, oldest first.
    pub open spec fn view(&self) -> Seq<T> {
        Seq::new(
            self.len_spec(),
            |i: int| self.data@[slot(self.back as int, i, self.capacity() as int)]->Some_0,
        )
    }

    /// Makes an empty buffer with room for `size` elements.
    pub fn new(size: usize) -> (r: Self)
        requires
            size > 0,
        ensures
            r.wf(),
            r@ == Seq::<T>::empty(),
            r.capacity() == size,
            r.front == 0,
            r.back == 0,
            !r.full,
    {
        let mut data: Vec<Option<T>> = Vec::with_capacity(size);
        let mut k: usize = 0;
        while k < size
            invariant
                k <= size,
                data@.len() == k,
            decreases size - k,
        {
            data.push(None);
            k = k + 1;
        }
        CircularBuffer { front: 0, back: 0, data, full: false }
    }

    #[inline]
    pub(crate) fn size(&self) -> (r: usize)
        ensures
            r == self.capacity(),
    {
        self.data.len()
    }

    /// The slot after `cur_index`, wrapping round to the first.
    #[inline]
    pub fn next_index(&self, cur_index: usize) -> (r: usize)
        requires
            self.capacity() > 0,
        ensures
            r == next_slot(cur_index as int, self.capacity() as int),
    {
        if cur_index < self.size() - 1 {
            cur_index + 1
        } else {
            0
        }
    }

    /// Appends `item` as the newest element. When the buffer is full the
    /// oldest element is dropped to make room.
    pub fn push(&mut self, item: T)
        requires
            old(self).wf(),
        ensures
            final(self).wf(),
            final(self).capacity() == old(self).capacity(),
            final(self)@ == pushed(old(self)@, old(self).capacity(), item),
            (final(self)@, Seq::<T>::empty()) == run_ops(
                old(self)@,
                old(self).capacity(),
                seq![Some(item)],
            ),
            final(self).front == next_slot(old(self).front as int, old(self).capacity() as int),
            final(self).back == if old(self).full {
                next_slot(old(self).back as int, old(self).capacity() as int)
            } else {
                old(self).back as int
            },
            final(self).full == (final(self).front == final(self).back),
    {
        let ghost old_self = *self;
        if self.front == self.back && self.full {
            self.back = self.next_index(self.back);
        }
        let f = self.front;
        self.data.set(f, Some(item));
        self.front = self.next_index(self.front);
        if self.front == self.back {
            self.full = true;
        }
        proof {
            lemma_run_one(old_self@, old_self.capacity(), Some(item));
            let cap = self.capacity() as int;
            let n = old_self.len_spec() as int;
            assert(slot(old_self.back as int, n % cap, cap) == f) by {
                if old_self.full {
                    assert(n == cap);
                    assert(n % cap == 0) by {
                        vstd::arithmetic::div_mod::lemma_mod_self_0(cap);
                    }
                } else {
                    assert(n < cap);
                    vstd::arithmetic::div_mod::lemma_small_mod(n as nat, cap as nat);
                }
            }
            if old_self.full {
                assert forall|i: int| 0 <= i < self.len_spec() implies (#[trigger] self.data@[slot(
                    self.back as int,
                    i,
                    cap,
                )]).is_some() by {
                    if i < cap - 1 {
                        assert(slot(self.back as int, i, cap) == slot(
                            old_self.back as int,
                            i + 1,
                            cap,
                        ));
                        assert(old_self.data@[slot(old_self.back as int, i + 1, cap)].is_some());
                    }
                }
                assert(self@ =~= old_self@.drop_first().push(item)) by {
                    assert forall|i: int| 0 <= i < cap - 1 implies self@[i] == old_self@[i + 1] by {
                        assert(slot(self.back as int, i, cap) == slot(
                            old_self.back as int,
                            i + 1,
                            cap,
                        ));
                    }
                }
            } else {
                assert(self.len_spec() == n + 1);
                assert forall|i: int| 0 <= i < self.len_spec() implies (#[trigger] self.data@[slot(
                    self.back as int,
                    i,
                    cap,
                )]).is_some() by {
                    if i < n {
                        assert(old_self.data@[slot(old_self.back as int, i, cap)].is_some());
                    }
                }
                assert(self@ =~= old_self@.push(item)) by {
                    assert forall|i: int| 0 <= i < n implies self@[i] == old_self@[i] by {
                        assert(slot(self.back as int, i, cap) != f);
                    }
                }
            }
        }
    }

    /// Removes and returns the oldest element, or `None` when empty.
    pub fn pop(&mut self) -> (r: Option<T>)
        requires
            old(self).wf(),
        ensures
            final(self).wf(),
            final(self).capacity() == old(self).capacity(),
            final(self)@ == popped(old(self)@),
            old(self)@.len() == 0 ==> r.is_none() && *final(self) == *old(self),
            old(self)@.len() > 0 ==> r == Some(old(self)@[0]),
            (final(self)@, popped_items(r)) == run_ops(old(self)@, old(self).capacity(), seq![None]),
            old(self)@.len() > 0 ==> {
                &&& final(self).back == next_slot(old(self).back as int, old(self).capacity() as int)
                &&& final(self).front == old(self).front
                &&& !final(self).full
            },
    {
        proof {
            lemma_run_one(self@, self.capacity(), None);
        }
        if self.front == self.back && !self.full {
            None
        } else {
            let ghost old_self = *self;
            let b = self.back;
            proof {
                assert(old_self.data@[slot(b as int, 0, old_self.capacity() as int)].is_some());
            }
            let item = self.data[b].take();
            self.back = self.next_index(self.back);
            self.full = false;
            proof {
                let cap = self.capacity() as int;
                assert(self.len_spec() == old_self.len_spec() - 1);
                assert forall|i: int| 0 <= i < self.len_spec() implies (#[trigger] self.data@[slot(
                    self.back as int,
                    i,
                    cap,
                )]).is_some() && self.data@[slot(self.back as int, i, cap)] == old_self.data@[slot(
                    old_self.back as int,
                    i + 1,
                    cap,
                )] by {
                    assert(slot(self.back as int, i, cap) == slot(old_self.back as int, i + 1, cap));
                    assert(old_self.data@[slot(old_self.back as int, i + 1, cap)].is_some());
                }
                assert(self@ =~= old_self@.drop_first());
            }
            item
        }
    }

    /// Given an index into the data represented by this buffer, returns the
    /// index of that element within the underlying storage.
    fn transform_index(&self, relative_index: usize) -> (r: usize)
        requires
            self.wf(),
            relative_index < self.capacity(),
        ensures
            r == slot(self.back as int, relative_index as int, self.capacity() as int),
    {
        if relative_index >= self.size() - self.back {
            relative_index - (self.size() - self.back)
        } else {
            self.back + relative_index
        }
    }

    /// The `i`-th live element, counted from the oldest.
    pub fn get(&self, i: usize) -> (r: Option<&T>)
        requires
            self.wf(),
        ensures
            i < self@.len() ==> r.is_some() && *r.unwrap() == self@[i as int],
            i >= self@.len() ==> r.is_none(),
    {
        if i >= self.len() {
            return None;
        }
        let real_index = self.transform_index(i);
        proof {
            assert(self.data@[slot(self.back as int, i as int, self.capacity() as int)].is_some());
        }
        self.data[real_index].as_ref()
    }

    /// The number of live elements.
    pub fn len(&self) -> (r: usize)
        requires
            self.wf(),
        ensures
            r == self@.len(),
            r <= self.capacity(),
    {
        if self.front == self.back {
            if self.full {
                self.size()
            } else {
                0
            }
        } else {
            if self.back > self.front {
                (self.size() - self.back) + self.front
            } else {
                self.front - self.back
            }
        }
    }

    pub fn is_empty(&self) -> (r: bool)
        requires
            self.wf(),
        ensures
            r == (self@.len() == 0),
    {
        self.front == self.back && !self.full
    }
}

impl<T: Clone> CircularBuffer<T> {
    /// Removes and returns the oldest element, or `None` when empty. The
    /// element is moved out of its slot, which the buffer no longer reads.
    pub fn pop_clone(&mut self) -> (r: Option<T>)
        requires
            old(self).wf(),
        ensures
            final(self).wf(),
            final(self).capacity() == old(self).capacity(),
            final(self)@ == popped(old(self)@),
            old(self)@.len() == 0 ==> r.is_none() && *final(self) == *old(self),
            old(self)@.len() > 0 ==> r == Some(old(self)@[0]),
            (final(self)@, popped_items(r)) == run_ops(old(self)@, old(self).capacity(), seq![None]),
            old(self)@.len() > 0 ==> {
                &&& final(self).back == next_slot(old(self).back as int, old(self).capacity() as int)
                &&& final(self).front == old(self).front
                &&& !final(self).full
            },
    {
        self.pop()
    }
}

/// Walks the live elements of a buffer, oldest first.
pub struct CircularBufferIter<'a, T> {
    pub cur: usize,
    pub full: bool,
    pub inner: &'a CircularBuffer<T>,
}

impl<'a, T> CircularBufferIter<'a, T> {
    /// How many elements have been handed out so far.
    pub open spec fn consumed(&self) -> nat {
        let cap = self.inner.capacity() as int;
        let b = self.inner.back as int;
        if self.full {
            0
        } else if self.inner.full && self.cur == self.inner.back {
            cap as nat
        } else if self.cur >= b {
            (self.cur - b) as nat
        } else {
            (cap - b + self.cur) as nat
        }
    }

    pub open spec fn wf(&self) -> bool {
        &&& self.inner.wf()
        &&& self.cur < self.inner.capacity()
        &&& self.full ==> self.inner.full && self.cur == self.inner.back
        &&& self.consumed() <= self.inner@.len()
        &&& self.cur == slot(
            self.inner.back as int,
            self.consumed() as int % self.inner.capacity() as int,
            self.inner.capacity() as int,
        )
    }

    pub fn new(inner: &'a CircularBuffer<T>) -> (r: Self)
        requires
            inner.wf(),
        ensures
            r.wf(),
            r.inner == inner,
            r.consumed() == 0,
    {
        proof {
            vstd::arithmetic::div_mod::lemma_small_mod(0, inner.capacity());
        }
        CircularBufferIter { cur: inner.back, full: inner.full, inner }
    }

    /// Hands out the next element, or `None` once all have been seen.
    pub fn next(&mut self) -> (r: Option<&'a T>)
        requires
            old(self).wf(),
        ensures
            final(self).wf(),
            final(self).inner == old(self).inner,
            old(self).consumed() < old(self).inner@.len() ==> r.is_some() && *r.unwrap()
                == old(self).inner@[old(self).consumed() as int] && final(self).consumed()
                == old(self).consumed() + 1,
            old(self).consumed() == old(self).inner@.len() ==> r.is_none() && final(self).consumed()
                == old(self).consumed(),
    {
        let ghost k = self.consumed() as int;
        let ghost cap = self.inner.capacity() as int;
        if self.cur == self.inner.front {
            if self.full {
                self.full = false;
            } else {
                proof {
                    if k < self.inner@.len() {
                        vstd::arithmetic::div_mod::lemma_small_mod(k as nat, cap as nat);
                    }
                }
                return None;
            }
        }
        proof {
            vstd::arithmetic::div_mod::lemma_small_mod(k as nat, cap as nat);
            assert(self.inner.data@[slot(self.inner.back as int, k, cap)].is_some());
        }
        let item = self.inner.data[self.cur].as_ref();
        self.cur = self.inner.next_index(self.cur);
        proof {
            if k + 1 < cap {
                vstd::arithmetic::div_mod::lemma_small_mod((k + 1) as nat, cap as nat);
            } else {
                vstd::arithmetic::div_mod::lemma_mod_self_0(cap);
            }
        }
        item
    }
}

impl<T> CircularBuffer<T> {
    /// References to the live elements, oldest first.
    pub fn iter(&self) -> (r: Vec<&T>)
        requires
            self.wf(),
        ensures
            r@.len() == self@.len(),
            forall|i: int| 0 <= i < r@.len() ==> *r@[i] == self@[i],
    {
        let mut it = CircularBufferIter::new(self);
        let mut out: Vec<&T> = Vec::new();
        let n = self.len();
        while out.len() < n
            invariant
                it.wf(),
                it.inner == self,
                n == self@.len(),
                out@.len() == it.consumed(),
                out@.len() <= n,
                forall|i: int| 0 <= i < out@.len() ==> *out@[i] == self@[i],
            decreases n - out.len(),
        {
            let x = it.next().unwrap();
            out.push(x);
        }
        out
    }
}

} // verus!
