//! Sequences of buffer calls, described over the buffer's view, and the
//! ordering and capacity laws they obey.
//!
//! Every mutating method of `RingBuffer` states its effect as `Call::apply`
//! on its view (and each pop its result as `Call::output`), so what is proved
//! here of call sequences holds of the executable buffer.

use vstd::prelude::*;

verus! {

/// One mutating call on a ring buffer.
pub enum Call<T> {
    PushBack(T),
    PushFront(T),
    PopFront,
    PopBack,
}

impl<T> Call<T> {
    /// Contents after this call on contents `s` in a buffer of `cap` slots.
    pub open spec fn apply(self, s: Seq<T>, cap: nat) -> Seq<T> {
        match self {
            Call::PushBack(x) => if s.len() < cap {
                s.push(x)
            } else {
                s
            },
            Call::PushFront(x) => if s.len() < cap {
                seq![x] + s
            } else {
                s
            },
            Call::PopFront => if s.len() > 0 {
                s.drop_first()
            } else {
                s
            },
            Call::PopBack => if s.len() > 0 {
                s.drop_last()
            } else {
                s
            },
        }
    }

    /// The value this call hands out on contents `s`: only a pop of a
    /// non-empty buffer returns one.
    pub open spec fn output(self, s: Seq<T>) -> Option<T> {
        match self {
            Call::PopFront => if s.len() > 0 {
                Some(s[0])
            } else {
                None
            },
            Call::PopBack => if s.len() > 0 {
                Some(s.last())
            } else {
                None
            },
            _ => None,
        }
    }

    /// The value this call stores on contents `s`: only a push that finds room.
    pub open spec fn input(self, s: Seq<T>, cap: nat) -> Option<T> {
        match self {
            Call::PushBack(x) => if s.len() < cap {
                Some(x)
            } else {
                None
            },
            Call::PushFront(x) => if s.len() < cap {
                Some(x)
            } else {
                None
            },
            _ => None,
        }
    }

    /// A call that touches only the back for pushing and the front for popping.
    pub open spec fn is_back_queue_call(self) -> bool {
        self is PushBack || self is PopFront
    }
}

/// Zero or one values, as a sequence.
pub open spec fn option_seq<T>(o: Option<T>) -> Seq<T> {
    match o {
        Some(v) => seq![v],
        None => Seq::empty(),
    }
}

/// Contents after running `calls` in order from contents `s`.
pub open spec fn run<T>(s: Seq<T>, calls: Seq<Call<T>>, cap: nat) -> Seq<T>
    decreases calls.len(),
{
    if calls.len() == 0 {
        s
    } else {
        run(calls[0].apply(s, cap), calls.drop_first(), cap)
    }
}

/// Values handed out by the pops among `calls`, in call order.
pub open spec fn outputs<T>(s: Seq<T>, calls: Seq<Call<T>>, cap: nat) -> Seq<T>
    decreases calls.len(),
{
    if calls.len() == 0 {
        Seq::empty()
    } else {
        option_seq(calls[0].output(s)) + outputs(calls[0].apply(s, cap), calls.drop_first(), cap)
    }
}

/// Values stored by the accepted pushes among `calls`, in call order.
pub open spec fn inputs<T>(s: Seq<T>, calls: Seq<Call<T>>, cap: nat) -> Seq<T>
    decreases calls.len(),
{
    if calls.len() == 0 {
        Seq::empty()
    } else {
        option_seq(calls[0].input(s, cap)) + inputs(calls[0].apply(s, cap), calls.drop_first(), cap)
    }
}

/// A `push_back` of each of `xs`, in order.
pub open spec fn push_backs<T>(xs: Seq<T>) -> Seq<Call<T>> {
    xs.map_values(|x: T| Call::PushBack(x))
}

/// A `push_front` of each of `xs`, in order.
pub open spec fn push_fronts<T>(xs: Seq<T>) -> Seq<Call<T>> {
    xs.map_values(|x: T| Call::PushFront(x))
}

/// `n` calls of `pop_front`.
pub open spec fn pop_fronts<T>(n: nat) -> Seq<Call<T>> {
    Seq::new(n, |i: int| Call::PopFront)
}

/// Running `a` then `b` is running `a + b`.
pub proof fn lemma_run_append<T>(s: Seq<T>, a: Seq<Call<T>>, b: Seq<Call<T>>, cap: nat)
    ensures
        run(s, a + b, cap) == run(run(s, a, cap), b, cap),
        outputs(s, a + b, cap) == outputs(s, a, cap) + outputs(run(s, a, cap), b, cap),
        inputs(s, a + b, cap) == inputs(s, a, cap) + inputs(run(s, a, cap), b, cap),
    decreases a.len(),
{
    if a.len() == 0 {
        assert(a + b =~= b);
        assert(outputs(s, a + b, cap) =~= outputs(s, a, cap) + outputs(run(s, a, cap), b, cap));
        assert(inputs(s, a + b, cap) =~= inputs(s, a, cap) + inputs(run(s, a, cap), b, cap));
    } else {
        let s1 = a[0].apply(s, cap);
        assert((a + b)[0] == a[0]);
        assert((a + b).drop_first() =~= a.drop_first() + b);
        lemma_run_append(s1, a.drop_first(), b, cap);
        assert(outputs(s, a + b, cap) =~= outputs(s, a, cap) + outputs(run(s, a, cap), b, cap));
        assert(inputs(s, a + b, cap) =~= inputs(s, a, cap) + inputs(run(s, a, cap), b, cap));
    }
}

/// Under any calls, a buffer that starts within its capacity stays within it.
pub proof fn lemma_capacity_kept<T>(s: Seq<T>, calls: Seq<Call<T>>, cap: nat)
    requires
        s.len() <= cap,
    ensures
        run(s, calls, cap).len() <= cap,
        run(s, calls, cap).len() + (cap - run(s, calls, cap).len()) == cap,
    decreases calls.len(),
{
    if calls.len() > 0 {
        lemma_capacity_kept(calls[0].apply(s, cap), calls.drop_first(), cap);
    }
}

/// First in, first out: under any mix of `push_back` and `pop_front`, of any
/// length, the values handed out followed by what is left are exactly the
/// starting contents followed by the values accepted.
pub proof fn lemma_back_queue_order<T>(s: Seq<T>, calls: Seq<Call<T>>, cap: nat)
    requires
        forall|i: int| 0 <= i < calls.len() ==> (#[trigger] calls[i]).is_back_queue_call(),
    ensures
        s + inputs(s, calls, cap) == outputs(s, calls, cap) + run(s, calls, cap),
    decreases calls.len(),
{
    if calls.len() == 0 {
        assert(s + inputs(s, calls, cap) =~= outputs(s, calls, cap) + run(s, calls, cap));
    } else {
        let c = calls[0];
        let s1 = c.apply(s, cap);
        let rest = calls.drop_first();
        assert forall|i: int| 0 <= i < rest.len() implies (#[trigger] rest[i]).is_back_queue_call() by {
            assert(calls[i + 1].is_back_queue_call());
        }
        lemma_back_queue_order(s1, rest, cap);
        assert(c.is_back_queue_call());
        let ins = inputs(s1, rest, cap);
        let outs = outputs(s1, rest, cap);
        let left = run(s1, rest, cap);
        assert(s1 + ins == outs + left);
        assert(run(s, calls, cap) == left);
        match c {
            Call::PushBack(x) => {
                assert(outputs(s, calls, cap) =~= outs);
                if s.len() < cap {
                    assert(inputs(s, calls, cap) =~= seq![x] + ins);
                    assert(s + (seq![x] + ins) =~= s.push(x) + ins);
                } else {
                    assert(inputs(s, calls, cap) =~= ins);
                }
            },
            Call::PopFront => {
                assert(inputs(s, calls, cap) =~= ins);
                if s.len() > 0 {
                    assert(outputs(s, calls, cap) =~= seq![s[0]] + outs);
                    assert(s + ins =~= seq![s[0]] + (s1 + ins));
                    assert(seq![s[0]] + (outs + left) =~= (seq![s[0]] + outs) + left);
                } else {
                    assert(outputs(s, calls, cap) =~= outs);
                }
            },
            _ => {},
        }
    }
}

/// Pushing `xs` to the back, with room for all, appends them in order.
pub proof fn lemma_push_backs<T>(s: Seq<T>, xs: Seq<T>, cap: nat)
    requires
        s.len() + xs.len() <= cap,
    ensures
        run(s, push_backs(xs), cap) == s + xs,
        inputs(s, push_backs(xs), cap) == xs,
        outputs(s, push_backs(xs), cap) == Seq::<T>::empty(),
    decreases xs.len(),
{
    if xs.len() == 0 {
        assert(s + xs =~= s);
        assert(inputs(s, push_backs(xs), cap) =~= xs);
    } else {
        let calls = push_backs(xs);
        assert(calls.drop_first() =~= push_backs(xs.drop_first()));
        lemma_push_backs(s.push(xs[0]), xs.drop_first(), cap);
        assert(s.push(xs[0]) + xs.drop_first() =~= s + xs);
        assert(inputs(s, calls, cap) =~= xs);
        assert(outputs(s, calls, cap) =~= Seq::<T>::empty());
    }
}

/// Pushing `xs` to the front, with room for all, puts them before `s` in
/// reverse order.
pub proof fn lemma_push_fronts<T>(s: Seq<T>, xs: Seq<T>, cap: nat)
    requires
        s.len() + xs.len() <= cap,
    ensures
        run(s, push_fronts(xs), cap) == xs.reverse() + s,
        inputs(s, push_fronts(xs), cap) == xs,
        outputs(s, push_fronts(xs), cap) == Seq::<T>::empty(),
    decreases xs.len(),
{
    if xs.len() == 0 {
        assert(xs.reverse() + s =~= s);
        assert(inputs(s, push_fronts(xs), cap) =~= xs);
    } else {
        let calls = push_fronts(xs);
        let s1 = seq![xs[0]] + s;
        assert(calls.drop_first() =~= push_fronts(xs.drop_first()));
        lemma_push_fronts(s1, xs.drop_first(), cap);
        assert(xs.drop_first().reverse() + s1 =~= xs.reverse() + s);
        assert(inputs(s, calls, cap) =~= xs);
        assert(outputs(s, calls, cap) =~= Seq::<T>::empty());
    }
}

/// `n` pops from the front hand out the first `n` values, in order.
pub proof fn lemma_pop_fronts<T>(s: Seq<T>, n: nat, cap: nat)
    requires
        n <= s.len(),
    ensures
        outputs(s, pop_fronts(n), cap) == s.take(n as int),
        run(s, pop_fronts(n), cap) == s.skip(n as int),
        inputs(s, pop_fronts::<T>(n), cap) == Seq::<T>::empty(),
    decreases n,
{
    if n == 0 {
        assert(s.take(0) =~= Seq::<T>::empty());
        assert(s.skip(0) =~= s);
    } else {
        assert(pop_fronts::<T>(n).drop_first() =~= pop_fronts::<T>((n - 1) as nat));
        lemma_pop_fronts(s.drop_first(), (n - 1) as nat, cap);
        assert(seq![s[0]] + s.drop_first().take(n - 1) =~= s.take(n as int));
        assert(s.drop_first().skip(n - 1) =~= s.skip(n as int));
        assert(inputs(s, pop_fronts::<T>(n), cap) =~= Seq::<T>::empty());
    }
}

/// Pushed to the back, then popped from the front: values come out in the
/// order they went in, and the buffer is left as it was.
pub proof fn lemma_back_then_front<T>(s: Seq<T>, xs: Seq<T>, cap: nat)
    requires
        s.len() + xs.len() <= cap,
    ensures
        ({
            let calls = push_backs(xs) + pop_fronts((s.len() + xs.len()) as nat);
            outputs(s, calls, cap) == s + xs && run(s, calls, cap) == Seq::<T>::empty()
        }),
{
    let n = (s.len() + xs.len()) as nat;
    lemma_run_append(s, push_backs(xs), pop_fronts(n), cap);
    lemma_push_backs(s, xs, cap);
    lemma_pop_fronts(s + xs, n, cap);
    assert((s + xs).take(n as int) =~= s + xs);
    assert((s + xs).skip(n as int) =~= Seq::<T>::empty());
    assert(Seq::<T>::empty() + (s + xs) =~= s + xs);
}

/// An empty buffer, fresh or just cleared, filled to capacity and then
/// drained from the front hands back what went in, in order, and is empty
/// again.
pub proof fn lemma_refill_and_drain<T>(xs: Seq<T>, cap: nat)
    requires
        xs.len() == cap,
    ensures
        outputs(Seq::<T>::empty(), push_backs(xs) + pop_fronts(cap), cap) == xs,
        run(Seq::<T>::empty(), push_backs(xs) + pop_fronts(cap), cap) == Seq::<T>::empty(),
{
    lemma_back_then_front(Seq::<T>::empty(), xs, cap);
    assert(Seq::<T>::empty() + xs =~= xs);
}

/// Pushed to the front, then popped from the front: values come out in
/// reverse of the order they went in, and what was there before is back.
pub proof fn lemma_front_then_front<T>(s: Seq<T>, xs: Seq<T>, cap: nat)
    requires
        s.len() + xs.len() <= cap,
    ensures
        ({
            let calls = push_fronts(xs) + pop_fronts(xs.len());
            outputs(s, calls, cap) == xs.reverse() && run(s, calls, cap) == s
        }),
{
    lemma_run_append(s, push_fronts(xs), pop_fronts(xs.len()), cap);
    lemma_push_fronts(s, xs, cap);
    let t = xs.reverse() + s;
    lemma_pop_fronts(t, xs.len(), cap);
    assert(t.take(xs.len() as int) =~= xs.reverse());
    assert(t.skip(xs.len() as int) =~= s);
    assert(Seq::<T>::empty() + xs.reverse() =~= xs.reverse());
}

/// A buffer filled to capacity holds exactly what was pushed, and then
/// rejects a further push at either end, leaving its contents as they were.
pub proof fn lemma_full_rejects<T>(xs: Seq<T>, x: T, cap: nat)
    requires
        xs.len() == cap,
    ensures
        run(Seq::<T>::empty(), push_backs(xs), cap) == xs,
        inputs(Seq::<T>::empty(), push_backs(xs), cap) == xs,
        Call::PushBack(x).apply(xs, cap) == xs,
        Call::PushBack(x).input(xs, cap) is None,
        Call::PushFront(x).apply(xs, cap) == xs,
        Call::PushFront(x).input(xs, cap) is None,
{
    lemma_push_backs(Seq::<T>::empty(), xs, cap);
    assert(Seq::<T>::empty() + xs =~= xs);
}

/// Popping an empty buffer hands out nothing and changes nothing.
pub proof fn lemma_empty_pop<T>(cap: nat)
    ensures
        Call::<T>::PopFront.apply(Seq::empty(), cap) == Seq::<T>::empty(),
        Call::<T>::PopFront.output(Seq::empty()) is None,
        Call::<T>::PopBack.apply(Seq::empty(), cap) == Seq::<T>::empty(),
        Call::<T>::PopBack.output(Seq::empty()) is None,
{
}

} // verus!
