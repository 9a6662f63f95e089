//! The decisions of a bounded multi-producer channel.
//!
//! [`Shared`] is the state that all ends of a channel share (behind a lock
//! where the ends live on several threads): the queue, its capacity and how
//! many senders and receivers are alive. A [`Receiver`] keeps a local cache:
//! when its cache is empty, a receive moves everything queued into it at
//! once, so that later receives need not touch the shared state.
//!
//! Nothing here blocks. Where a threaded channel would wait (a full queue
//! on send, an empty one on receive), these functions report it and leave
//! the state as it was; the caller waits and asks again.
use vstd::prelude::*;

verus! {

/// Why a value could not be sent; the value comes back.
#[derive(Debug)]
pub enum SendError<T> {
    /// The queue holds `cap` values: wait for a receiver, then retry.
    Full(T),
    /// No receiver is alive: the value can never be received.
    NoReceivers(T),
}

/// Why nothing could be received.
#[derive(Debug, PartialEq, Eq, Structural)]
pub enum RecvError {
    /// Nothing is queued but a sender is alive: wait, then retry.
    Empty,
    /// Nothing is queued and no sender is alive.
    NoSenders,
}

/// The abstract state of the shared part of a channel.
pub struct SharedState<T> {
    pub queue: Seq<T>,
    pub cap: nat,
    pub senders: nat,
    pub receivers: nat,
}

impl<T> SharedState<T> {
    pub open spec fn wf(self) -> bool {
        self.queue.len() <= self.cap
    }
}

/// What `send` does: the next shared state and its result.
pub open spec fn send_step<T>(s: SharedState<T>, data: T) -> (SharedState<T>, Result<(), SendError<T>>) {
    if s.receivers == 0 {
        (s, Err(SendError::NoReceivers(data)))
    } else if s.queue.len() >= s.cap {
        (s, Err(SendError::Full(data)))
    } else {
        (SharedState { queue: s.queue.push(data), ..s }, Ok(()))
    }
}

/// What `recv` does: the next receiver cache, the next shared state and its
/// result. The cache serves first; an empty cache takes the whole queue.
pub open spec fn recv_step<T>(local: Seq<T>, s: SharedState<T>) -> (Seq<T>, SharedState<T>, Result<T, RecvError>) {
    if local.len() > 0 {
        (local.drop_first(), s, Ok(local[0]))
    } else if s.queue.len() > 0 {
        (s.queue.drop_first(), SharedState { queue: Seq::empty(), ..s }, Ok(s.queue[0]))
    } else if s.senders == 0 {
        (local, s, Err(RecvError::NoSenders))
    } else {
        (local, s, Err(RecvError::Empty))
    }
}

/// The state shared by all ends of one channel.
pub struct Shared<T> {
    q: std::collections::VecDeque<T>,
    cap: usize,
    senders: usize,
    receivers: usize,
}

impl<T> View for Shared<T> {
    type V = SharedState<T>;

    closed spec fn view(&self) -> SharedState<T> {
        SharedState {
            queue: self.q@,
            cap: self.cap as nat,
            senders: self.senders as nat,
            receivers: self.receivers as nat,
        }
    }
}

impl<T> Shared<T> {
    /// The queue never holds more than `cap` values.
    #[verifier::type_invariant]
    closed spec fn queue_within_cap(&self) -> bool {
        self.q@.len() <= self.cap
    }
}

/// The receiving end's own part: values already taken off the queue.
pub struct Receiver<T> {
    local: std::collections::VecDeque<T>,
}

impl<T> View for Receiver<T> {
    type V = Seq<T>;

    closed spec fn view(&self) -> Seq<T> {
        self.local@
    }
}

/// The sending end of a channel. Each live `Sender` is counted in the
/// channel's shared state; it sends through that state.
pub struct Sender<T> {
    marker: std::marker::PhantomData<T>,
}

/// A new channel that queues at most `cap` values, with its one sender and
/// one receiver.
pub fn bounded<T>(cap: usize) -> (res: (Shared<T>, Sender<T>, Receiver<T>))
    ensures
        res.0@ == (SharedState::<T> { queue: Seq::empty(), cap: cap as nat, senders: 1, receivers: 1 }),
        res.2@ == Seq::<T>::empty(),
{
    (
        Shared { q: std::collections::VecDeque::new(), cap, senders: 1, receivers: 1 },
        Sender { marker: std::marker::PhantomData },
        Receiver { local: std::collections::VecDeque::new() },
    )
}

impl<T> Sender<T> {
    /// Queues `data` at the back of the channel, unless no receiver is alive
    /// or the queue is full.
    pub fn send(&self, shared: &mut Shared<T>, data: T) -> (r: Result<(), SendError<T>>)
        ensures
            final(shared)@.wf(),
            (final(shared)@, r) == send_step(old(shared)@, data),
            old(shared)@.receivers == 0 ==> r == Err::<(), SendError<T>>(SendError::NoReceivers(data)),
    {
        shared.send(data)
    }

    /// How many values wait in the channel's queue.
    pub fn total_queued_items(&self, shared: &Shared<T>) -> (n: usize)
        ensures
            n == shared@.queue.len(),
    {
        shared.total_queued_items()
    }

    /// Another sender of the same channel.
    pub fn duplicate(&self, shared: &mut Shared<T>) -> (s: Sender<T>)
        requires
            old(shared)@.senders < usize::MAX,
        ensures
            final(shared)@ == (SharedState { senders: old(shared)@.senders + 1, ..old(shared)@ }),
    {
        shared.add_sender();
        Sender { marker: std::marker::PhantomData }
    }

    /// This sender goes away; true where it was the last one, so that
    /// waiting receivers must be told.
    pub fn close(self, shared: &mut Shared<T>) -> (last: bool)
        requires
            old(shared)@.senders > 0,
        ensures
            final(shared)@ == (SharedState { senders: (old(shared)@.senders - 1) as nat, ..old(shared)@ }),
            last == (old(shared)@.senders == 1),
    {
        shared.remove_sender()
    }
}

impl<T> Shared<T> {
    /// Queues `data` at the back, unless no receiver is alive or the queue
    /// is full.
    fn send(&mut self, data: T) -> (r: Result<(), SendError<T>>)
        ensures
            final(self)@.wf(),
            (final(self)@, r) == send_step(old(self)@, data),
    {
        proof {
            use_type_invariant(&*self);
        }
        if self.receivers == 0 {
            return Err(SendError::NoReceivers(data));
        }
        if self.q.len() == self.cap {
            return Err(SendError::Full(data));
        }
        let mut q = std::collections::VecDeque::new();
        std::mem::swap(&mut q, &mut self.q);
        q.push_back(data);
        self.q = q;
        proof {
            use_type_invariant(&*self);
        }
        Ok(())
    }

    /// How many values wait in the shared queue.
    fn total_queued_items(&self) -> (n: usize)
        ensures
            n == self@.queue.len(),
    {
        self.q.len()
    }

    /// How many senders of the channel are alive.
    pub fn senders(&self) -> (n: usize)
        ensures
            n == self@.senders,
    {
        self.senders
    }

    /// How many receivers of the channel are alive.
    pub fn receivers(&self) -> (n: usize)
        ensures
            n == self@.receivers,
    {
        self.receivers
    }

    /// Counts one more sender.
    fn add_sender(&mut self)
        requires
            old(self)@.senders < usize::MAX,
        ensures
            final(self)@ == (SharedState { senders: old(self)@.senders + 1, ..old(self)@ }),
    {
        proof {
            use_type_invariant(&*self);
        }
        self.senders = self.senders + 1;
    }

    /// Counts one sender less; true where it was the last one, so that
    /// waiting receivers must be told.
    fn remove_sender(&mut self) -> (last: bool)
        requires
            old(self)@.senders > 0,
        ensures
            final(self)@ == (SharedState { senders: (old(self)@.senders - 1) as nat, ..old(self)@ }),
            last == (old(self)@.senders == 1),
    {
        proof {
            use_type_invariant(&*self);
        }
        self.senders = self.senders - 1;
        self.senders == 0
    }

    /// Counts one more receiver.
    fn add_receiver(&mut self)
        requires
            old(self)@.receivers < usize::MAX,
        ensures
            final(self)@ == (SharedState { receivers: old(self)@.receivers + 1, ..old(self)@ }),
    {
        proof {
            use_type_invariant(&*self);
        }
        self.receivers = self.receivers + 1;
    }

    /// Counts one receiver less.
    fn remove_receiver(&mut self)
        requires
            old(self)@.receivers > 0,
        ensures
            final(self)@ == (SharedState { receivers: (old(self)@.receivers - 1) as nat, ..old(self)@ }),
    {
        proof {
            use_type_invariant(&*self);
        }
        self.receivers = self.receivers - 1;
    }
}

impl<T> Receiver<T> {
    /// An empty cache, for a new receiving end of an existing channel.
    fn new() -> (r: Self)
        ensures
            r@ == Seq::<T>::empty(),
    {
        Receiver { local: std::collections::VecDeque::new() }
    }

    /// Another receiver of the same channel, with an empty cache.
    pub fn duplicate(&self, shared: &mut Shared<T>) -> (r: Receiver<T>)
        requires
            old(shared)@.receivers < usize::MAX,
        ensures
            final(shared)@ == (SharedState { receivers: old(shared)@.receivers + 1, ..old(shared)@ }),
            r@ == Seq::<T>::empty(),
    {
        shared.add_receiver();
        Receiver::new()
    }

    /// This receiver goes away, and the values in its cache with it.
    pub fn close(self, shared: &mut Shared<T>)
        requires
            old(shared)@.receivers > 0,
        ensures
            final(shared)@ == (SharedState { receivers: (old(shared)@.receivers - 1) as nat, ..old(shared)@ }),
    {
        shared.remove_receiver()
    }

    /// How many values wait in this receiver's cache.
    pub fn local_len(&self) -> (n: usize)
        ensures
            n == self@.len(),
    {
        self.local.len()
    }

    /// Takes the oldest pending value. From the cache where it holds one;
    /// else everything queued moves into the cache first.
    pub fn recv(&mut self, shared: &mut Shared<T>) -> (r: Result<T, RecvError>)
        ensures
            final(shared)@.wf(),
            (final(self)@, final(shared)@, r) == recv_step(old(self)@, old(shared)@),
    {
        proof {
            use_type_invariant(&*shared);
        }
        if let Some(data) = self.local.pop_front() {
            return Ok(data);
        }
        // The cache is empty: everything queued moves into it at once, and
        // the queue is left empty.
        assert(self.local@ =~= Seq::<T>::empty());
        std::mem::swap(&mut self.local, &mut shared.q);
        assert(shared.q@ =~= Seq::<T>::empty());
        assert(shared@ == (SharedState { queue: Seq::<T>::empty(), ..old(shared)@ }));
        match self.local.pop_front() {
            Some(data) => Ok(data),
            None => {
                if shared.senders == 0 {
                    Err(RecvError::NoSenders)
                } else {
                    Err(RecvError::Empty)
                }
            },
        }
    }
}

/// A send succeeds only into a channel with a live receiver and room, and
/// where no receiver is alive it fails as such, however full the queue is;
/// a send is told to wait for room only where a receiver could make room.
pub proof fn lemma_send_outcomes<T>(s: SharedState<T>, data: T)
    ensures
        s.receivers == 0 ==> send_step(s, data) == (s, Err::<(), SendError<T>>(SendError::NoReceivers(data))),
        send_step(s, data).1 is Ok ==> s.receivers > 0 && s.queue.len() < s.cap,
        send_step(s, data).1 matches Err(SendError::Full(d)) ==> s.receivers > 0 && s.queue.len() >= s.cap && d == data,
        send_step(s, data).1 is Err ==> send_step(s, data).0 == s,
{
}

/// The values pending for a receiver, oldest first: its cache, then the
/// shared queue.
pub open spec fn pending<T>(local: Seq<T>, s: SharedState<T>) -> Seq<T> {
    local + s.queue
}

/// Sends each of `xs` in order, keeping the state of the last send.
pub open spec fn send_all<T>(s: SharedState<T>, xs: Seq<T>) -> SharedState<T>
    decreases xs.len(),
{
    if xs.len() == 0 {
        s
    } else {
        send_all(send_step(s, xs[0]).0, xs.drop_first())
    }
}

/// The values of `n` receives in a row, as far as they succeed.
pub open spec fn recv_all<T>(local: Seq<T>, s: SharedState<T>, n: nat) -> Seq<T>
    decreases n,
{
    if n == 0 {
        Seq::empty()
    } else {
        let (l2, s2, r) = recv_step(local, s);
        match r {
            Ok(v) => seq![v] + recv_all(l2, s2, (n - 1) as nat),
            Err(_) => Seq::empty(),
        }
    }
}

/// The queue never holds more than `cap` values, whatever is sent or received.
pub proof fn lemma_capacity_kept<T>(local: Seq<T>, s: SharedState<T>, data: T)
    requires
        s.wf(),
    ensures
        send_step(s, data).0.wf(),
        recv_step(local, s).1.wf(),
{
}

/// Values leave in the order they entered: a send adds at the back of what
/// is pending, a receive takes the front.
pub proof fn lemma_fifo<T>(local: Seq<T>, s: SharedState<T>, data: T)
    ensures
        send_step(s, data).1 is Ok ==> pending(local, send_step(s, data).0) == pending(local, s).push(data),
        ({
            let (l2, s2, r) = recv_step(local, s);
            r is Ok ==> pending(local, s) == seq![r->Ok_0] + pending(l2, s2)
        }),
        recv_step(local, s).2 is Err <==> pending(local, s).len() == 0,
{
    let (l2, s2, r) = recv_step(local, s);
    if local.len() > 0 {
        assert(local =~= seq![local[0]] + local.drop_first());
        assert(pending(local, s) =~= seq![local[0]] + pending(l2, s2));
    } else if s.queue.len() > 0 {
        assert(pending(local, s) =~= seq![s.queue[0]] + pending(l2, s2));
    }
    assert(pending(local, s).push(data) =~= local + s.queue.push(data));
}

/// What is pending after sending `xs`: the values pending before, then `xs`,
/// where the channel has a receiver and room for all of them.
pub proof fn lemma_send_all_pending<T>(local: Seq<T>, s: SharedState<T>, xs: Seq<T>)
    requires
        s.receivers > 0,
        s.queue.len() + xs.len() <= s.cap,
    ensures
        pending(local, send_all(s, xs)) == pending(local, s) + xs,
        send_all(s, xs).senders == s.senders,
    decreases xs.len(),
{
    if xs.len() > 0 {
        let s1 = send_step(s, xs[0]).0;
        lemma_fifo(local, s, xs[0]);
        lemma_send_all_pending(local, s1, xs.drop_first());
        assert(pending(local, s) + xs =~= pending(local, s).push(xs[0]) + xs.drop_first());
    } else {
        assert(pending(local, s) + xs =~= pending(local, s));
    }
}

/// `n` receives take the first `n` pending values, in order.
pub proof fn lemma_recv_all<T>(local: Seq<T>, s: SharedState<T>, n: nat)
    requires
        n <= pending(local, s).len(),
    ensures
        recv_all(local, s, n) == pending(local, s).take(n as int),
    decreases n,
{
    if n > 0 {
        let (l2, s2, r) = recv_step(local, s);
        lemma_fifo(local, s, local[0]);
        lemma_recv_all(l2, s2, (n - 1) as nat);
        assert(pending(local, s).take(n as int) =~= seq![r->Ok_0] + pending(l2, s2).take(n - 1));
    } else {
        assert(pending(local, s).take(0) =~= Seq::<T>::empty());
    }
}

/// A channel hands values over in the order they were sent: from an empty
/// channel with a receiver and room for all of `xs`, sending `xs` and then
/// receiving as many times gives back `xs`.
pub proof fn lemma_send_then_recv<T>(s: SharedState<T>, xs: Seq<T>)
    requires
        s.queue.len() == 0,
        s.receivers > 0,
        xs.len() <= s.cap,
    ensures
        recv_all(Seq::empty(), send_all(s, xs), xs.len()) == xs,
{
    lemma_send_all_pending(Seq::empty(), s, xs);
    assert(pending(Seq::<T>::empty(), s) + xs =~= xs);
    lemma_recv_all(Seq::empty(), send_all(s, xs), xs.len());
    assert(xs.take(xs.len() as int) =~= xs);
}

/// Once every sender is gone, a receiver still gets every pending value, in
/// order, and then is told that no sender is left.
pub proof fn lemma_drain_after_senders_gone<T>(local: Seq<T>, s: SharedState<T>)
    requires
        s.senders == 0,
    ensures
        recv_all(local, s, pending(local, s).len()) == pending(local, s),
        ({
            let (l2, s2) = drained(local, s, pending(local, s).len());
            recv_step(l2, s2).2 == Err::<T, RecvError>(RecvError::NoSenders)
        }),
{
    lemma_recv_all(local, s, pending(local, s).len());
    assert(pending(local, s).take(pending(local, s).len() as int) =~= pending(local, s));
    lemma_drained(local, s, pending(local, s).len());
    let (l2, s2) = drained(local, s, pending(local, s).len());
    assert(pending(local, s).skip(pending(local, s).len() as int).len() == 0);
    assert(pending(l2, s2).len() == l2.len() + s2.queue.len());
}

/// A send of a value or a receive, as one end of a channel makes them.
pub enum Op<T> {
    Send(T),
    Recv,
}

/// Makes the operations `ops` in order, on a channel with one receiver
/// whose cache is `local`: the cache and shared state after them, the values
/// that were sent (the sends that succeeded), and the values received.
pub open spec fn apply_ops<T>(local: Seq<T>, s: SharedState<T>, ops: Seq<Op<T>>) -> (Seq<T>, SharedState<T>, Seq<T>, Seq<T>)
    decreases ops.len(),
{
    if ops.len() == 0 {
        (local, s, Seq::empty(), Seq::empty())
    } else {
        let (l, s1, sent, got) = apply_ops(local, s, ops.drop_last());
        match ops.last() {
            Op::Send(x) => {
                let (s2, r) = send_step(s1, x);
                (l, s2, if r is Ok { sent.push(x) } else { sent }, got)
            },
            Op::Recv => {
                let (l2, s2, r) = recv_step(l, s1);
                (l2, s2, sent, match r {
                    Ok(v) => got.push(v),
                    Err(_) => got,
                })
            },
        }
    }
}

/// However sends and receives interleave, nothing is lost, made up or
/// reordered: what was pending, then what was sent, is what was received,
/// then what is still pending.
pub proof fn lemma_interleaved_fifo<T>(local: Seq<T>, s: SharedState<T>, ops: Seq<Op<T>>)
    ensures
        ({
            let (l, s2, sent, got) = apply_ops(local, s, ops);
            pending(local, s) + sent == got + pending(l, s2)
        }),
    decreases ops.len(),
{
    if ops.len() > 0 {
        lemma_interleaved_fifo(local, s, ops.drop_last());
        let (l, s1, sent, got) = apply_ops(local, s, ops.drop_last());
        match ops.last() {
            Op::Send(x) => {
                lemma_fifo(l, s1, x);
                let (s2, r) = send_step(s1, x);
                if r is Ok {
                    assert(pending(local, s) + sent.push(x) =~= (pending(local, s) + sent).push(x));
                    assert(got + pending(l, s1).push(x) =~= (got + pending(l, s1)).push(x));
                }
            },
            Op::Recv => {
                lemma_fifo(l, s1, arbitrary());
                let (l2, s2, r) = recv_step(l, s1);
                if r is Ok {
                    assert(got + (seq![r->Ok_0] + pending(l2, s2)) =~= got.push(r->Ok_0) + pending(l2, s2));
                }
            },
        }
    }
}

/// A send of a value, or a receive by the receiver at this index.
pub enum EndOp<T> {
    Send(T),
    Recv(int),
}

/// The values that the receiver caches `locals` hold together.
pub open spec fn held<T>(locals: Seq<Seq<T>>) -> vstd::multiset::Multiset<T>
    decreases locals.len(),
{
    if locals.len() == 0 {
        vstd::multiset::Multiset::empty()
    } else {
        held(locals.drop_last()).add(locals.last().to_multiset())
    }
}

/// Every value in a channel with receiver caches `locals`: in the caches
/// and in the shared queue.
pub open spec fn in_channel<T>(locals: Seq<Seq<T>>, s: SharedState<T>) -> vstd::multiset::Multiset<T> {
    held(locals).add(s.queue.to_multiset())
}

/// Makes the operations `ops` in order, on a channel whose receivers have
/// the caches `locals` (a receive by an index that names no receiver does
/// nothing): the caches and shared state after them, the values sent, and
/// the values received by any receiver.
pub open spec fn apply_end_ops<T>(locals: Seq<Seq<T>>, s: SharedState<T>, ops: Seq<EndOp<T>>) -> (Seq<Seq<T>>, SharedState<T>, Seq<T>, Seq<T>)
    decreases ops.len(),
{
    if ops.len() == 0 {
        (locals, s, Seq::empty(), Seq::empty())
    } else {
        let (ls, s1, sent, got) = apply_end_ops(locals, s, ops.drop_last());
        match ops.last() {
            EndOp::Send(x) => {
                let (s2, r) = send_step(s1, x);
                (ls, s2, if r is Ok { sent.push(x) } else { sent }, got)
            },
            EndOp::Recv(i) => {
                if 0 <= i < ls.len() {
                    let (l2, s2, r) = recv_step(ls[i], s1);
                    (ls.update(i, l2), s2, sent, match r {
                        Ok(v) => got.push(v),
                        Err(_) => got,
                    })
                } else {
                    (ls, s1, sent, got)
                }
            },
        }
    }
}

/// Changing one cache changes what the caches hold by as much.
proof fn lemma_held_update<T>(locals: Seq<Seq<T>>, i: int, x: Seq<T>)
    requires
        0 <= i < locals.len(),
    ensures
        held(locals.update(i, x)).add(locals[i].to_multiset()) == held(locals).add(x.to_multiset()),
    decreases locals.len(),
{
    broadcast use vstd::multiset::group_multiset_axioms;

    let u = locals.update(i, x);
    let n = locals.len() - 1;
    assert(held(u) == held(u.drop_last()).add(u.last().to_multiset()));
    assert(held(locals) == held(locals.drop_last()).add(locals.last().to_multiset()));
    if i == n {
        assert(u.drop_last() =~= locals.drop_last());
        assert(u.last() == x);
    } else {
        assert(u.drop_last() =~= locals.drop_last().update(i, x));
        assert(u.last() == locals.last());
        lemma_held_update(locals.drop_last(), i, x);
        assert(locals.drop_last()[i] == locals[i]);
    }
    let h = held(locals.drop_last());
    let hu = held(u.drop_last());
    assert forall|w: T| #[trigger] held(u).add(locals[i].to_multiset()).count(w) == held(locals).add(x.to_multiset()).count(w) by {
        assert(held(u).count(w) == hu.count(w) + u.last().to_multiset().count(w));
        assert(held(locals).count(w) == h.count(w) + locals.last().to_multiset().count(w));
        if i != n {
            assert(hu.add(locals[i].to_multiset()).count(w) == h.add(x.to_multiset()).count(w));
        }
    }
    assert(held(u).add(locals[i].to_multiset()) =~= held(locals).add(x.to_multiset()));
}

/// However the ends of a channel interleave their sends and receives, no
/// value is lost or made up: what the channel held, with what was sent, is
/// what was received, with what the channel holds after.
pub proof fn lemma_conservation<T>(locals: Seq<Seq<T>>, s: SharedState<T>, ops: Seq<EndOp<T>>)
    ensures
        ({
            let (ls, s2, sent, got) = apply_end_ops(locals, s, ops);
            in_channel(locals, s).add(sent.to_multiset()) == got.to_multiset().add(in_channel(ls, s2))
        }),
    decreases ops.len(),
{
    broadcast use vstd::multiset::group_multiset_axioms;
    broadcast use vstd::seq_lib::group_to_multiset_ensures;

    if ops.len() > 0 {
        lemma_conservation(locals, s, ops.drop_last());
        let (ls, s1, sent, got) = apply_end_ops(locals, s, ops.drop_last());
        let before = in_channel(locals, s);
        let in1 = in_channel(ls, s1);
        assert(before.add(sent.to_multiset()) == got.to_multiset().add(in1));
        match ops.last() {
            EndOp::Send(x) => {
                let (s2, r) = send_step(s1, x);
                if r is Ok {
                    assert(s2.queue == s1.queue.push(x));
                    assert(s1.queue.push(x).to_multiset() == s1.queue.to_multiset().insert(x));
                    assert(sent.push(x).to_multiset() == sent.to_multiset().insert(x));
                    assert(in_channel(ls, s2) =~= in1.insert(x));
                    assert forall|w: T| #[trigger] before.add(sent.push(x).to_multiset()).count(w)
                        == got.to_multiset().add(in_channel(ls, s2)).count(w) by {
                        assert(before.add(sent.to_multiset()).count(w) == got.to_multiset().add(in1).count(w));
                    }
                    assert(before.add(sent.push(x).to_multiset()) =~= got.to_multiset().add(in_channel(ls, s2)));
                }
            },
            EndOp::Recv(i) => {
                if 0 <= i < ls.len() {
                    let l = ls[i];
                    let (l2, s2, r) = recv_step(l, s1);
                    let u = ls.update(i, l2);
                    lemma_fifo(l, s1, arbitrary());
                    lemma_held_update(ls, i, l2);
                    vstd::seq_lib::lemma_multiset_commutative(l, s1.queue);
                    vstd::seq_lib::lemma_multiset_commutative(l2, s2.queue);
                    // what the caches and the queue hold, before and after
                    assert(in1.add(l.to_multiset()) =~= held(ls).add(pending(l, s1).to_multiset()));
                    assert forall|w: T| #[trigger] in_channel(u, s2).add(l.to_multiset()).count(w)
                        == held(ls).add(pending(l2, s2).to_multiset()).count(w) by {
                        assert(held(u).add(l.to_multiset()).count(w) == held(ls).add(l2.to_multiset()).count(w));
                    }
                    assert(in_channel(u, s2).add(l.to_multiset()) =~= held(ls).add(pending(l2, s2).to_multiset()));
                    if r is Ok {
                        let v = r->Ok_0;
                        vstd::seq_lib::lemma_multiset_commutative(seq![v], pending(l2, s2));
                        assert(seq![v] =~= Seq::<T>::empty().push(v));
                        assert(seq![v].to_multiset() =~= vstd::multiset::Multiset::empty().insert(v));
                        assert(pending(l, s1).to_multiset() =~= pending(l2, s2).to_multiset().insert(v));
                        let in2 = in_channel(u, s2);
                        assert forall|w: T| #[trigger] in1.count(w) == in2.insert(v).count(w) by {
                            assert(in1.add(l.to_multiset()).count(w) == held(ls).add(pending(l, s1).to_multiset()).count(w));
                            assert(in2.add(l.to_multiset()).count(w) == held(ls).add(pending(l2, s2).to_multiset()).count(w));
                            assert(pending(l, s1).to_multiset().count(w) == pending(l2, s2).to_multiset().insert(v).count(w));
                        }
                        assert(in1 =~= in2.insert(v));
                        assert(got.push(v).to_multiset() == got.to_multiset().insert(v));
                        assert(before.add(sent.to_multiset()) =~= got.push(v).to_multiset().add(in_channel(u, s2)));
                    } else {
                        assert(u =~= ls);
                    }
                }
            },
        }
    }
}

/// The receiver cache and shared state after `n` receives in a row.
pub open spec fn drained<T>(local: Seq<T>, s: SharedState<T>, n: nat) -> (Seq<T>, SharedState<T>)
    decreases n,
{
    if n == 0 {
        (local, s)
    } else {
        let (l2, s2, _r) = recv_step(local, s);
        drained(l2, s2, (n - 1) as nat)
    }
}

proof fn lemma_drained<T>(local: Seq<T>, s: SharedState<T>, n: nat)
    requires
        n <= pending(local, s).len(),
    ensures
        pending(drained(local, s, n).0, drained(local, s, n).1) == pending(local, s).skip(n as int),
        drained(local, s, n).1.senders == s.senders,
    decreases n,
{
    if n > 0 {
        let (l2, s2, r) = recv_step(local, s);
        lemma_fifo(local, s, local[0]);
        lemma_drained(l2, s2, (n - 1) as nat);
        assert(pending(local, s).skip(n as int) =~= pending(l2, s2).skip(n - 1));
    } else {
        assert(pending(local, s).skip(0) =~= pending(local, s));
    }
}

} // verus!
