use vstd::prelude::*;

verus! {

/// One successful operation on a queue, as a value.
pub enum QueueOp<T> {
    Push(T),
    Extend(Seq<T>),
    Pop,
    Pull(nat),
}

/// What one operation hands out and what the queue holds afterwards, for a
/// queue holding `s`.
pub open spec fn step<T>(s: Seq<T>, op: QueueOp<T>) -> (Seq<T>, Seq<T>) {
    match op {
        QueueOp::Push(v) => (Seq::empty(), s.push(v)),
        QueueOp::Extend(vs) => (Seq::empty(), s + vs),
        QueueOp::Pop => if s.len() == 0 {
            (Seq::empty(), s)
        } else {
            (seq![s[0]], s.drop_first())
        },
        QueueOp::Pull(n) => {
            let k = if n < s.len() {
                n as int
            } else {
                s.len() as int
            };
            (s.take(k), s.skip(k))
        },
    }
}

/// What a run of operations hands out, in order, and what the queue holds
/// afterwards, starting from a queue holding `s`.
pub open spec fn run<T>(s: Seq<T>, ops: Seq<QueueOp<T>>) -> (Seq<T>, Seq<T>)
    decreases ops.len(),
{
    if ops.len() == 0 {
        (Seq::empty(), s)
    } else {
        let (out, rest) = step(s, ops[0]);
        let (more, last) = run(rest, ops.drop_first());
        (out + more, last)
    }
}

/// Everything a run of operations adds to the queue, in order.
pub open spec fn inputs<T>(ops: Seq<QueueOp<T>>) -> Seq<T>
    decreases ops.len(),
{
    if ops.len() == 0 {
        Seq::empty()
    } else {
        let first = match ops[0] {
            QueueOp::Push(v) => seq![v],
            QueueOp::Extend(vs) => vs,
            QueueOp::Pop => Seq::empty(),
            QueueOp::Pull(_) => Seq::empty(),
        };
        first + inputs(ops.drop_first())
    }
}

/// One operation loses and duplicates nothing: what it hands out followed
/// by what remains is what was there followed by what it added.
pub proof fn lemma_step_conserves<T>(s: Seq<T>, op: QueueOp<T>)
    ensures
        step(s, op).0 + step(s, op).1 == s + inputs(seq![op]),
{
    let ops = seq![op];
    assert(ops.drop_first() =~= Seq::<QueueOp<T>>::empty());
    assert(inputs(ops.drop_first()) =~= Seq::<T>::empty());
    match op {
        QueueOp::Push(v) => {
            assert(step(s, op).0 + step(s, op).1 =~= s + seq![v]);
            assert(inputs(ops) =~= seq![v]);
        },
        QueueOp::Extend(vs) => {
            assert(step(s, op).0 + step(s, op).1 =~= s + vs);
            assert(inputs(ops) =~= vs);
        },
        QueueOp::Pop => {
            assert(inputs(ops) =~= Seq::<T>::empty());
            if s.len() > 0 {
                assert(step(s, op).0 + step(s, op).1 =~= s);
            } else {
                assert(step(s, op).0 + step(s, op).1 =~= s);
            }
            assert(s + inputs(ops) =~= s);
        },
        QueueOp::Pull(n) => {
            assert(inputs(ops) =~= Seq::<T>::empty());
            let k = if n < s.len() {
                n as int
            } else {
                s.len() as int
            };
            assert(s.take(k) + s.skip(k) =~= s);
            assert(s + inputs(ops) =~= s);
        },
    }
}

/// Any run of pushes, extensions, pops and pulls conserves the elements and
/// their order: everything handed out, in the order it was handed out,
/// followed by what the queue holds at the end, is exactly what it held at
/// the start followed by everything added, in the order it was added. So the
/// values taken out and the values left are, together, the values put in,
/// none lost and none twice, and what is left is the latest of them in
/// insertion order.
pub proof fn law_run_conserves<T>(s: Seq<T>, ops: Seq<QueueOp<T>>)
    ensures
        run(s, ops).0 + run(s, ops).1 == s + inputs(ops),
    decreases ops.len(),
{
    if ops.len() > 0 {
        let (out, rest) = step(s, ops[0]);
        lemma_step_conserves(s, ops[0]);
        law_run_conserves(rest, ops.drop_first());
        let first = match ops[0] {
            QueueOp::Push(v) => seq![v],
            QueueOp::Extend(vs) => vs,
            QueueOp::Pop => Seq::empty(),
            QueueOp::Pull(_) => Seq::empty(),
        };
        assert(inputs(seq![ops[0]]) =~= first) by {
            let one = seq![ops[0]];
            assert(one.drop_first() =~= Seq::<QueueOp<T>>::empty());
            assert(inputs(one.drop_first()) =~= Seq::<T>::empty());
        }
        let (more, last) = run(rest, ops.drop_first());
        let tail = inputs(ops.drop_first());
        assert(out + rest == s + first);
        assert(more + last == rest + tail);
        assert(inputs(ops) == first + tail);
        assert(run(s, ops) == (out + more, last));
        assert((out + more) + last =~= out + (more + last));
        assert(out + (rest + tail) =~= (out + rest) + tail);
        assert((s + first) + tail =~= s + (first + tail));
    } else {
        assert(run(s, ops).0 + run(s, ops).1 =~= s + inputs(ops));
    }
}

} // verus!
