//! A chain of plugs run one after another over a shared context.
//!
//! Each plug returns a [`PlugResult`] that tells the chain what to do next:
//! go on to the next plug, run the same plug again (at most
//! [`MAX_RERUNS`] times in a row), stop, replace the whole chain, or fail.
use vstd::prelude::*;

verus! {

/// How many times in a row one plug may ask to be run again.
pub const MAX_RERUNS: usize = 5;

/// The largest number of plug calls one `execute` makes before it gives up.
pub const STEP_LIMIT: u64 = 0xffff_ffff_ffff_ffff;

/// What a plug asks the chain to do after it ran.
pub enum PlugResult<P> {
    /// Go on with the next plug.
    Continue,
    /// Run the same plug again.
    Rerun,
    /// Stop the chain successfully.
    Terminate,
    /// Throw the remaining plugs away and start over with these.
    Replace(Vec<P>),
    /// Stop the chain with this error message.
    Error(String),
}

/// A step of the chain. Users implement it for their own plug type, and
/// say in `answers` what a call of it may do.
pub trait Plug<Ctx>: Sized {
    /// A call of this plug over `ctx` may answer `r`, leaving the plug as
    /// `after` and the context as `ctx_after`. A plug that does not say
    /// allows any call.
    open spec fn answers(self, ctx: Ctx, after: Self, ctx_after: Ctx, r: PlugResult<Self>) -> bool {
        true
    }

    fn execute(&mut self, ctx: &mut Ctx) -> (r: PlugResult<Self>)
        ensures
            (*old(self)).answers(*old(ctx), *final(self), *final(ctx), r);
}

/// Why a chain stopped with an error.
pub enum ChainError {
    /// A plug asked to be rerun more than `MAX_RERUNS` times in a row.
    TooManyReruns,
    /// A plug failed with this message.
    Plug(String),
    /// `STEP_LIMIT` plug calls happened without the chain finishing.
    StepLimit,
}

/// The message that reports `e`: a plug's own message, or the chain's.
pub open spec fn error_message(e: ChainError) -> Seq<char> {
    match e {
        ChainError::TooManyReruns => "two many reruns"@,
        ChainError::Plug(msg) => msg@,
        ChainError::StepLimit => "too many plug calls"@,
    }
}

impl ChainError {
    /// The message that reports this error.
    pub fn message(&self) -> (m: String)
        ensures
            m@ == error_message(*self),
    {
        match self {
            ChainError::TooManyReruns => String::from_str("two many reruns"),
            ChainError::Plug(msg) => msg.clone(),
            ChainError::StepLimit => String::from_str("too many plug calls"),
        }
    }
}

/// The abstract state of a chain.
pub struct ChainState<P> {
    pub plugs: Seq<P>,
    pub idx: nat,
    pub rerun: nat,
}

impl<P> ChainState<P> {
    /// Every plug has run: the chain is at its end.
    pub open spec fn at_end(self) -> bool {
        self.idx >= self.plugs.len()
    }

    pub open spec fn wf(self) -> bool {
        &&& self.idx <= self.plugs.len()
        &&& self.rerun <= MAX_RERUNS
    }

    /// The same state, with the current plug replaced by `p` (a plug may
    /// change itself while it runs).
    pub open spec fn with_current(self, p: P) -> ChainState<P> {
        ChainState { plugs: self.plugs.update(self.idx as int, p), idx: self.idx, rerun: self.rerun }
    }
}

/// What the chain does with the result of the current plug: the next state,
/// and `Some(outcome)` where the chain stops there.
pub open spec fn step<P>(s: ChainState<P>, r: PlugResult<P>) -> (ChainState<P>, Option<Result<(), ChainError>>) {
    match r {
        PlugResult::Continue => (ChainState { plugs: s.plugs, idx: s.idx + 1, rerun: 0 }, None),
        PlugResult::Rerun => {
            if s.rerun == MAX_RERUNS {
                (s, Some(Err(ChainError::TooManyReruns)))
            } else {
                (ChainState { plugs: s.plugs, idx: s.idx, rerun: s.rerun + 1 }, None)
            }
        },
        PlugResult::Terminate => (s, Some(Ok(()))),
        PlugResult::Replace(plugs) => (ChainState { plugs: plugs@, idx: 0, rerun: 0 }, None),
        PlugResult::Error(msg) => (s, Some(Err(ChainError::Plug(msg)))),
    }
}

/// One call of a plug: the plug and the context before it, the plug and
/// the context it left, and its answer.
pub struct Call<P, Ctx> {
    pub plug: P,
    pub ctx: Ctx,
    pub plug_after: P,
    pub ctx_after: Ctx,
    pub result: PlugResult<P>,
}

/// Runs the chain from `s` over the calls `t`: after each call the plug it
/// called is replaced by what the call left of it, and `step` applies the
/// call's answer.
pub open spec fn run<P, Ctx>(s: ChainState<P>, t: Seq<Call<P, Ctx>>) -> (ChainState<P>, Option<Result<(), ChainError>>)
    decreases t.len(),
{
    if t.len() == 0 {
        (s, None)
    } else {
        let (prev, _out) = run(s, t.drop_last());
        step(prev.with_current(t.last().plug_after), t.last().result)
    }
}

/// The context after the calls `t`, starting from `c`.
pub open spec fn ctx_after<P, Ctx>(c: Ctx, t: Seq<Call<P, Ctx>>) -> Ctx {
    if t.len() == 0 { c } else { t.last().ctx_after }
}

/// `t` are calls the chain makes from `s` over the context `c`: each call
/// is made while the chain is still going, to its current plug, over the
/// context the calls before it left, and answers as that plug may answer.
pub open spec fn made_calls<P: Plug<Ctx>, Ctx>(s: ChainState<P>, c: Ctx, t: Seq<Call<P, Ctx>>) -> bool
    decreases t.len(),
{
    if t.len() == 0 {
        true
    } else {
        let before = t.drop_last();
        let (prev, out) = run(s, before);
        let e = t.last();
        &&& made_calls(s, c, before)
        &&& out is None
        &&& !prev.at_end()
        &&& e.plug == prev.plugs[prev.idx as int]
        &&& e.ctx == ctx_after(c, before)
        &&& e.plug.answers(e.ctx, e.plug_after, e.ctx_after, e.result)
    }
}

/// `r` is what `execute` may return when it took the chain from `s` to `e`
/// and the context from `c` to `c2`: it made some calls, as `made_calls`
/// says, and stopped where a call stopped the chain, where the chain reached
/// its end, or after `STEP_LIMIT` calls.
pub open spec fn execution<P: Plug<Ctx>, Ctx>(s: ChainState<P>, c: Ctx, e: ChainState<P>, c2: Ctx, r: Result<(), ChainError>) -> bool {
    exists|t: Seq<Call<P, Ctx>>| {
        &&& #[trigger] made_calls(s, c, t)
        &&& run(s, t).0 == e
        &&& ctx_after(c, t) == c2
        &&& match run(s, t).1 {
            Some(o) => o == r,
            None => (e.at_end() && r is Ok)
                || (r == Err::<(), ChainError>(ChainError::StepLimit) && t.len() == STEP_LIMIT && !e.at_end()),
        }
    }
}

/// Where a chain stands: its plugs, the current one, and how many times in
/// a row it asked to be rerun.
struct Cursor<P> {
    plugs: Vec<P>,
    idx: usize,
    rerun: usize,
}

impl<P> Cursor<P> {
    closed spec fn state(&self) -> ChainState<P> {
        ChainState { plugs: self.plugs@, idx: self.idx as nat, rerun: self.rerun as nat }
    }

    /// A cursor on nothing: at its end.
    fn empty() -> (c: Self)
        ensures
            c.state().wf(),
    {
        Cursor { plugs: Vec::new(), idx: 0, rerun: 0 }
    }

    /// Applies what the current plug returned.
    fn apply(&mut self, result: PlugResult<P>) -> (out: Option<Result<(), ChainError>>)
        requires
            old(self).state().wf(),
            !old(self).state().at_end(),
        ensures
            final(self).state().wf(),
            (final(self).state(), out) == step(old(self).state(), result),
            result matches PlugResult::Replace(ps) ==> (out is None
                && final(self).state() == ChainState { plugs: ps@, idx: 0, rerun: 0 }),
    {
        proof {
            lemma_step_keeps_wf(self.state(), result);
        }
        match result {
            PlugResult::Continue => {
                assert(self.idx < self.plugs.len());
                self.idx = self.idx + 1;
                self.rerun = 0;
                None
            },
            PlugResult::Rerun => {
                if self.rerun == MAX_RERUNS {
                    Some(Err(ChainError::TooManyReruns))
                } else {
                    self.rerun = self.rerun + 1;
                    None
                }
            },
            PlugResult::Terminate => Some(Ok(())),
            PlugResult::Replace(plugs) => {
                self.plugs = plugs;
                self.idx = 0;
                self.rerun = 0;
                None
            },
            PlugResult::Error(msg) => Some(Err(ChainError::Plug(msg))),
        }
    }

    /// Runs the plugs from the current one on, as `Chain::execute` does.
    fn drive<Ctx>(&mut self, ctx: &mut Ctx) -> (r: Result<(), ChainError>)
        where P: Plug<Ctx>,
        requires
            old(self).state().wf(),
        ensures
            final(self).state().wf(),
            execution(old(self).state(), *old(ctx), final(self).state(), *final(ctx), r),
            old(self).state().at_end() ==> r is Ok && final(self).state() == old(self).state() && *final(ctx) == *old(ctx),
    {
        let ghost start = self.state();
        let ghost c0 = *ctx;
        let ghost mut trace: Seq<Call<P, Ctx>> = Seq::empty();
        let mut steps: u64 = 0;
        while self.idx < self.plugs.len()
            invariant
                start == old(self).state(),
                c0 == *old(ctx),
                self.state().wf(),
                made_calls(start, c0, trace),
                run(start, trace) == (self.state(), None::<Result<(), ChainError>>),
                ctx_after(c0, trace) == *ctx,
                trace.len() == steps,
                start.at_end() ==> trace.len() == 0,
            decreases STEP_LIMIT - steps,
        {
            if steps == STEP_LIMIT {
                assert(made_calls(start, c0, trace));
                return Err(ChainError::StepLimit);
            }
            let ghost before = self.state();
            let ghost plug = self.plugs@[self.idx as int];
            let ghost ctx_before = *ctx;
            let i = self.idx;
            let result = self.plugs[i].execute(ctx);
            let ghost call = Call { plug, ctx: ctx_before, plug_after: self.plugs@[i as int], ctx_after: *ctx, result };
            proof {
                lemma_made_calls_push(start, c0, trace, call);
                trace = trace.push(call);
                assert(self.state() == before.with_current(call.plug_after));
            }
            steps = steps + 1;
            let out = self.apply(result);
            if let Some(o) = out {
                assert(made_calls(start, c0, trace));
                return o;
            }
        }
        assert(made_calls(start, c0, trace));
        Ok(())
    }
}

#[verifier::reject_recursive_types(Ctx)]
pub struct Chain<Ctx, P> {
    cursor: Cursor<P>,
    ctx: std::marker::PhantomData<Ctx>,
}

impl<Ctx, P> View for Chain<Ctx, P> {
    type V = ChainState<P>;

    closed spec fn view(&self) -> ChainState<P> {
        self.cursor.state()
    }
}

impl<Ctx, P> Chain<Ctx, P> {
    /// The current plug lies within the plugs, and no plug was rerun more
    /// than `MAX_RERUNS` times in a row.
    #[verifier::type_invariant]
    closed spec fn well_formed(&self) -> bool {
        self.cursor.state().wf()
    }
}

impl<Ctx, P: Plug<Ctx>> Chain<Ctx, P> {
    /// A chain that starts at the first of `plugs`.
    pub fn new(plugs: Vec<P>) -> (chain: Self)
        ensures
            chain@ == (ChainState { plugs: plugs@, idx: 0, rerun: 0 }),
    {
        Chain { cursor: Cursor { plugs, idx: 0, rerun: 0 }, ctx: std::marker::PhantomData }
    }

    /// Whether every plug has run.
    pub fn at_end(&self) -> (r: bool)
        ensures
            r == self@.at_end(),
    {
        self.cursor.idx >= self.cursor.plugs.len()
    }

    /// Applies what the current plug returned to the chain.
    pub fn apply(&mut self, result: PlugResult<P>) -> (out: Option<Result<(), ChainError>>)
        requires
            !old(self)@.at_end(),
        ensures
            final(self)@.wf(),
            (final(self)@, out) == step(old(self)@, result),
            result matches PlugResult::Replace(ps) ==> (out is None
                && final(self)@ == ChainState { plugs: ps@, idx: 0, rerun: 0 }),
    {
        proof {
            use_type_invariant(&*self);
        }
        let mut cursor = Cursor::empty();
        std::mem::swap(&mut cursor, &mut self.cursor);
        let out = cursor.apply(result);
        self.cursor = cursor;
        out
    }

    /// Runs the plugs from the current one on until one stops the chain or
    /// the last one continues.
    pub fn execute(&mut self, ctx: &mut Ctx) -> (r: Result<(), ChainError>)
        ensures
            final(self)@.wf(),
            execution(old(self)@, *old(ctx), final(self)@, *final(ctx), r),
            old(self)@.at_end() ==> r is Ok && final(self)@ == old(self)@ && *final(ctx) == *old(ctx),
    {
        proof {
            use_type_invariant(&*self);
        }
        let mut cursor = Cursor::empty();
        std::mem::swap(&mut cursor, &mut self.cursor);
        let r = cursor.drive(ctx);
        self.cursor = cursor;
        r
    }
}

/// One more call, made while the chain is going, to its current plug over
/// the context the calls before left, extends the calls the chain made.
pub proof fn lemma_made_calls_push<P: Plug<Ctx>, Ctx>(s: ChainState<P>, c: Ctx, t: Seq<Call<P, Ctx>>, e: Call<P, Ctx>)
    requires
        made_calls(s, c, t),
        run(s, t).1 is None,
        !run(s, t).0.at_end(),
        e.plug == run(s, t).0.plugs[run(s, t).0.idx as int],
        e.ctx == ctx_after(c, t),
        e.plug.answers(e.ctx, e.plug_after, e.ctx_after, e.result),
    ensures
        made_calls(s, c, t.push(e)),
        run(s, t.push(e)) == step(run(s, t).0.with_current(e.plug_after), e.result),
        ctx_after(c, t.push(e)) == e.ctx_after,
{
    assert(t.push(e).drop_last() =~= t);
}

/// Every prefix of the calls a chain made is itself calls it made.
pub proof fn lemma_made_calls_prefix<P: Plug<Ctx>, Ctx>(s: ChainState<P>, c: Ctx, t: Seq<Call<P, Ctx>>, k: int)
    requires
        made_calls(s, c, t),
        0 <= k <= t.len(),
    ensures
        made_calls(s, c, t.take(k)),
    decreases t.len() - k,
{
    if k < t.len() {
        assert(t.take(t.len() as int) =~= t);
        lemma_made_calls_prefix(s, c, t.drop_last(), k);
        assert(t.drop_last().take(k) =~= t.take(k));
    } else {
        assert(t.take(k) =~= t);
    }
}

/// A plug that answers `Replace(ps)` throws the rest of the chain away: the
/// chain then holds exactly `ps`, stands at its first plug with no reruns,
/// and goes on.
pub proof fn lemma_replace_step<P>(s: ChainState<P>, ps: Vec<P>)
    ensures
        step(s, PlugResult::Replace(ps)) == (ChainState { plugs: ps@, idx: 0, rerun: 0 }, None::<Result<(), ChainError>>),
{
}

/// After a call that answers `Replace(ps)`, the chain holds exactly `ps`
/// from its first plug on, and the next call it makes, if any, is to the
/// first of `ps`: no plug of the chain it replaced runs again.
pub proof fn lemma_replace_restarts<P: Plug<Ctx>, Ctx>(s: ChainState<P>, c: Ctx, t: Seq<Call<P, Ctx>>, i: int, ps: Vec<P>)
    requires
        made_calls(s, c, t),
        0 <= i < t.len(),
        t[i].result == PlugResult::Replace(ps),
    ensures
        run(s, t.take(i + 1)) == (ChainState { plugs: ps@, idx: 0, rerun: 0 }, None::<Result<(), ChainError>>),
        i + 1 < t.len() ==> ps@.len() > 0 && t[i + 1].plug == ps@[0],
{
    let u = t.take(i + 1);
    assert(u.drop_last() =~= t.take(i));
    assert(u.last() == t[i]);
    if i + 1 < t.len() {
        let v = t.take(i + 2);
        lemma_made_calls_prefix(s, c, t, i + 2);
        assert(v.drop_last() =~= u);
        assert(v.last() == t[i + 1]);
    }
}

/// Every step keeps the chain well formed: its index stays within its plugs
/// and its rerun count at most `MAX_RERUNS`.
pub proof fn lemma_step_keeps_wf<P>(s: ChainState<P>, r: PlugResult<P>)
    requires
        s.wf(),
        !s.at_end(),
    ensures
        step(s, r).0.wf(),
{
}

/// How far a chain has got: `MAX_RERUNS + 1` per plug passed, plus the
/// reruns of the current one.
pub open spec fn progress<P>(s: ChainState<P>) -> int {
    (MAX_RERUNS + 1) * s.idx + s.rerun
}

/// No call of `t` answered `Replace`.
pub open spec fn no_replace<P, Ctx>(t: Seq<Call<P, Ctx>>) -> bool {
    forall|i: int| 0 <= i < t.len() ==> !(#[trigger] t[i].result is Replace)
}

/// Where no plug answers `Replace`, a chain makes at most `MAX_RERUNS + 1`
/// calls per plug: each call either moves the chain on or uses up one of
/// the current plug's reruns.
pub proof fn lemma_call_bound<P: Plug<Ctx>, Ctx>(s: ChainState<P>, c: Ctx, t: Seq<Call<P, Ctx>>)
    requires
        s.wf(),
        made_calls(s, c, t),
        no_replace(t),
    ensures
        t.len() > 0 ==> t.len() + progress(s) <= (MAX_RERUNS + 1) * s.plugs.len(),
        run(s, t).1 is None ==> {
            &&& progress(run(s, t).0) >= progress(s) + t.len()
            &&& run(s, t).0.plugs.len() == s.plugs.len()
            &&& run(s, t).0.wf()
        },
    decreases t.len(),
{
    if t.len() > 0 {
        let before = t.drop_last();
        let e = t.last();
        assert forall|i: int| 0 <= i < before.len() implies !(#[trigger] before[i].result is Replace) by {
            assert(before[i] == t[i]);
        }
        lemma_call_bound(s, c, before);
        let prev = run(s, before).0;
        let cur = prev.with_current(e.plug_after);
        assert(!(t[t.len() - 1].result is Replace));
        lemma_step_keeps_wf(cur, e.result);
    }
}

/// A plug may be rerun `MAX_RERUNS` times in a row: calls that all answer
/// `Rerun` keep the chain on the same plug, counting them, and the call
/// after the last allowed one stops the chain with `TooManyReruns`.
pub proof fn lemma_rerun_limit<P: Plug<Ctx>, Ctx>(s: ChainState<P>, c: Ctx, t: Seq<Call<P, Ctx>>)
    requires
        s.wf(),
        s.rerun == 0,
        made_calls(s, c, t),
        forall|i: int| 0 <= i < t.len() ==> (#[trigger] t[i].result) is Rerun,
    ensures
        t.len() <= MAX_RERUNS + 1,
        t.len() <= MAX_RERUNS ==> run(s, t).1 is None && run(s, t).0.rerun == t.len() && run(s, t).0.idx == s.idx,
        t.len() == MAX_RERUNS + 1 ==> run(s, t).1 == Some(Err::<(), ChainError>(ChainError::TooManyReruns)),
    decreases t.len(),
{
    if t.len() > 0 {
        let before = t.drop_last();
        assert forall|i: int| 0 <= i < before.len() implies (#[trigger] before[i].result) is Rerun by {
            assert(before[i] == t[i]);
        }
        lemma_rerun_limit(s, c, before);
        assert(t[t.len() - 1].result is Rerun);
    }
}

/// The plugs that the calls `t` left, in order.
pub open spec fn plugs_left<P, Ctx>(t: Seq<Call<P, Ctx>>) -> Seq<P> {
    t.map_values(|e: Call<P, Ctx>| e.plug_after)
}

/// From its first plug, a chain whose calls all answer `Continue` calls its
/// plugs once each, in order, each over the context the one before left,
/// and stands after the last one called.
pub proof fn lemma_all_continue<P: Plug<Ctx>, Ctx>(s: ChainState<P>, c: Ctx, t: Seq<Call<P, Ctx>>)
    requires
        s.idx == 0,
        s.rerun == 0,
        made_calls(s, c, t),
        forall|i: int| 0 <= i < t.len() ==> (#[trigger] t[i].result) is Continue,
    ensures
        t.len() <= s.plugs.len(),
        forall|i: int| 0 <= i < t.len() ==> (#[trigger] t[i]).plug == s.plugs[i],
        run(s, t) == (ChainState { plugs: plugs_left(t) + s.plugs.skip(t.len() as int), idx: t.len(), rerun: 0 }, None::<Result<(), ChainError>>),
    decreases t.len(),
{
    if t.len() == 0 {
        assert(plugs_left(t) + s.plugs.skip(0) =~= s.plugs);
    } else {
        let before = t.drop_last();
        let k = before.len();
        assert forall|i: int| 0 <= i < before.len() implies (#[trigger] before[i].result) is Continue by {
            assert(before[i] == t[i]);
        }
        lemma_all_continue(s, c, before);
        let prev = run(s, before).0;
        assert(prev.plugs[k as int] == s.plugs[k as int]);
        assert(t[k as int] == t.last());
        assert forall|i: int| 0 <= i < t.len() implies (#[trigger] t[i]).plug == s.plugs[i] by {
            if i < k {
                assert(t[i] == before[i]);
            }
        }
        assert(t[t.len() - 1].result is Continue);
        assert(prev.plugs.update(k as int, t.last().plug_after) =~= plugs_left(t) + s.plugs.skip(t.len() as int));
    }
}

} // verus!
