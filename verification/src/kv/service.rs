//! How the key-value service answers a request: hooks around a dispatch of
//! the command to the store.
use vstd::prelude::*;
use vstd::std_specs::convert::FromSpecImpl;
use crate::kv::error::{KvError, error_message, key_infix, not_found_prefix};
use crate::kv::pb::command_request::RequestData;
use crate::kv::pb::value;
use crate::kv::pb::{
    error_response, pairs_response, pairs_view, value_response, CommandRequest, CommandResponse, Hget,
    Hgetall, Hset, Kvpair, ResponseView, Value, ValueView, STATUS_NOT_FOUND, STATUS_OK, values_view,
};
use crate::kv::storage::{Memtable, Storage};

verus! {

/// The response to a get of `key` in `table` whose store lookup gave `r`.
pub open spec fn get_response(table: Seq<char>, key: Seq<char>, r: Result<Option<Value>, KvError>) -> ResponseView {
    match r {
        Ok(Some(v)) => value_response(v@),
        Ok(None) => ResponseView {
            status: STATUS_NOT_FOUND,
            message: not_found_prefix() + table + key_infix() + key,
            values: Seq::empty(),
            pairs: Seq::empty(),
        },
        Err(e) => error_response(e),
    }
}

/// The response to a set whose store update gave `r`: the value the key
/// had, or the empty value.
pub open spec fn set_response(r: Result<Option<Value>, KvError>) -> ResponseView {
    match r {
        Ok(Some(v)) => value_response(v@),
        Ok(None) => value_response(None),
        Err(e) => error_response(e),
    }
}

/// The response to a get of a whole table whose store lookup gave `r`.
pub open spec fn get_all_response(r: Result<Vec<Kvpair>, KvError>) -> ResponseView {
    match r {
        Ok(pairs) => pairs_response(pairs_view(pairs@)),
        Err(e) => error_response(e),
    }
}

/// Answers a get of `hget.key` in `hget.table` that the store answered
/// with `r`.
pub fn hget_response(hget: Hget, r: Result<Option<Value>, KvError>) -> (resp: CommandResponse)
    ensures
        resp@ == get_response(hget.table@, hget.key@, r),
{
    match r {
        Ok(Some(v)) => CommandResponse::from(v),
        Ok(None) => {
            let e = KvError::NotFound(hget.table, hget.key);
            let resp = CommandResponse::from(e);
            resp
        },
        Err(e) => CommandResponse::from(e),
    }
}

/// Answers a set that the store answered with `r`.
pub fn hset_response(r: Result<Option<Value>, KvError>) -> (resp: CommandResponse)
    ensures
        resp@ == set_response(r),
{
    match r {
        Ok(Some(v)) => CommandResponse::from(v),
        Ok(None) => CommandResponse::from(Value::default()),
        Err(e) => CommandResponse::from(e),
    }
}

/// Answers a get of a whole table that the store answered with `r`.
pub fn hgetall_response(r: Result<Vec<Kvpair>, KvError>) -> (resp: CommandResponse)
    ensures
        resp@ == get_all_response(r),
{
    match r {
        Ok(pairs) => CommandResponse::from(pairs),
        Err(e) => CommandResponse::from(e),
    }
}

/// The value a set request stores: the pair's value, or the empty value
/// where the pair holds none.
pub open spec fn stored_value(pair: Kvpair) -> Option<ValueView> {
    match pair.value {
        Some(v) => v@,
        None => None,
    }
}

/// What answering `request` against the store `before` gives: the store is
/// asked about the request's table and key (and value), `resp` is made of
/// its answer, and it is left as `after`. Only a set changes the store.
pub open spec fn dispatched<S: Storage>(before: S, after: S, request: CommandRequest, resp: ResponseView) -> bool {
    match request.request_data {
        Some(RequestData::Hget(h)) => after == before && exists|r: Result<Option<Value>, KvError>|
            before.answers_get(h.table@, h.key@, r) && resp == #[trigger] get_response(h.table@, h.key@, r),
        Some(RequestData::Hset(h)) => match h.pair {
            Some(p) => exists|r: Result<Option<Value>, KvError>|
                before.answers_set(after, h.table@, p.key@, stored_value(p), r) && resp == #[trigger] set_response(r),
            None => after == before && resp == value_response(None),
        },
        Some(RequestData::Hgetall(h)) => after == before && exists|r: Result<Vec<Kvpair>, KvError>|
            before.answers_get_all(h.table@, r) && resp == #[trigger] get_all_response(r),
        None => false,
    }
}

/// Runs the command of `request` against `store`.
pub fn dispatch<S: Storage>(store: &mut S, request: CommandRequest) -> (resp: CommandResponse)
    requires
        request.request_data is Some,
    ensures
        dispatched(*old(store), *final(store), request, resp@),
{
    let ghost req = request;
    match request.request_data {
        Some(RequestData::Hget(hget)) => {
            let r = store.get(hget.table.as_str(), hget.key.as_str());
            let ghost rr = r;
            let resp = hget_response(hget, r);
            assert(resp@ == get_response(hget.table@, hget.key@, rr));
            resp
        },
        Some(RequestData::Hset(hset)) => {
            match hset.pair {
                Some(pair) => {
                    let value = match pair.value {
                        Some(v) => v,
                        None => Value::default(),
                    };
                    assert(value@ == stored_value(pair));
                    let r = store.set(hset.table.as_str(), pair.key, value);
                    let ghost rr = r;
                    let resp = hset_response(r);
                    assert(resp@ == set_response(rr));
                    resp
                },
                None => CommandResponse::from(Value::default()),
            }
        },
        Some(RequestData::Hgetall(hgetall)) => {
            let r = store.get_all(hgetall.table.as_str());
            let ghost rr = r;
            let resp = hgetall_response(r);
            assert(resp@ == get_all_response(rr));
            resp
        },
        None => {
            assert(false);
            CommandResponse::ok()
        },
    }
}

/// Called with each request as it arrives.
pub trait OnReceived: Send + Sync {
    fn on_received(&self, request: &CommandRequest);
}

/// Called with each response once the command ran.
pub trait OnExecuted: Send + Sync {
    fn on_executed(&self, response: &CommandResponse);
}

/// May change each response before it is sent.
pub trait OnBeforeSend: Send + Sync {
    /// The hook may turn the response `before` into `after`. A hook that
    /// does not say may change it in any way.
    open spec fn changes(&self, before: ResponseView, after: ResponseView) -> bool {
        true
    }

    fn on_before_send(&self, response: &mut CommandResponse)
        ensures
            self.changes(old(response)@, final(response)@);
}

/// `last` is what the hooks `hooks`, called in order, may make of the
/// response `first`: each turns what the one before left into the next.
pub open spec fn through_hooks(hooks: Seq<Box<dyn OnBeforeSend>>, first: ResponseView, last: ResponseView) -> bool {
    exists|rs: Seq<ResponseView>| {
        &&& rs.len() == hooks.len() + 1
        &&& rs[0] == first
        &&& rs.last() == last
        &&& forall|i: int| 0 <= i < hooks.len() ==> #[trigger] hooks[i].changes(rs[i], rs[i + 1])
    }
}

/// Called after each response was sent.
pub trait OnAfterSend: Send + Sync {
    fn on_after_send(&self);
}

/// Pushing onto a sequence adds one element. (Stated for the hook lists,
/// whose elements are trait objects: the general facts on `push` are not
/// applied to them by themselves.)
proof fn lemma_pushed<T>(s: Seq<T>, x: T)
    ensures
        s.push(x).len() == s.len() + 1,
{
    vstd::seq::axiom_seq_push_len(s, x);
}

/// A store with the hooks to call around each command.
pub struct ServiceInner<Store> {
    store: Store,
    on_received: Vec<Box<dyn OnReceived>>,
    on_executed: Vec<Box<dyn OnExecuted>>,
    on_before_send: Vec<Box<dyn OnBeforeSend>>,
    on_after_send: Vec<Box<dyn OnAfterSend>>,
}

impl<Store> ServiceInner<Store> {
    /// The hooks called with each request, in the order they are called.
    pub closed spec fn received(&self) -> Seq<Box<dyn OnReceived>> {
        self.on_received@
    }

    /// The hooks called with each response once executed, in order.
    pub closed spec fn executed(&self) -> Seq<Box<dyn OnExecuted>> {
        self.on_executed@
    }

    /// The hooks that may change each response before it is sent, in order.
    pub closed spec fn before_send(&self) -> Seq<Box<dyn OnBeforeSend>> {
        self.on_before_send@
    }

    /// The hooks called after each response was sent, in order.
    pub closed spec fn after_send(&self) -> Seq<Box<dyn OnAfterSend>> {
        self.on_after_send@
    }

    pub closed spec fn store(&self) -> Store {
        self.store
    }

    /// A service of `store` without hooks.
    pub fn new(store: Store) -> (s: Self)
        ensures
            s.store() == store,
            s.received() == Seq::<Box<dyn OnReceived>>::empty(),
            s.executed() == Seq::<Box<dyn OnExecuted>>::empty(),
            s.before_send() == Seq::<Box<dyn OnBeforeSend>>::empty(),
            s.after_send() == Seq::<Box<dyn OnAfterSend>>::empty(),
            s.received().len() == 0,
            s.executed().len() == 0,
            s.before_send().len() == 0,
            s.after_send().len() == 0,
    {
        ServiceInner {
            store,
            on_received: Vec::new(),
            on_executed: Vec::new(),
            on_before_send: Vec::new(),
            on_after_send: Vec::new(),
        }
    }

    /// Adds a hook called with each request, after those already there.
    pub fn fn_received(self, f: Box<dyn OnReceived>) -> (s: Self)
        ensures
            s.store() == self.store(),
            s.received() == self.received().push(f),
            s.received().len() == self.received().len() + 1,
            s.executed() == self.executed(),
            s.before_send() == self.before_send(),
            s.after_send() == self.after_send(),
    {
        let mut s = self;
        let ghost before = s.on_received@;
        s.on_received.push(f);
        proof {
            lemma_pushed(before, f);
        }
        s
    }

    /// Adds a hook called with each response once executed, after those
    /// already there.
    pub fn fn_executed(self, f: Box<dyn OnExecuted>) -> (s: Self)
        ensures
            s.store() == self.store(),
            s.received() == self.received(),
            s.executed() == self.executed().push(f),
            s.executed().len() == self.executed().len() + 1,
            s.before_send() == self.before_send(),
            s.after_send() == self.after_send(),
    {
        let mut s = self;
        let ghost before = s.on_executed@;
        s.on_executed.push(f);
        proof {
            lemma_pushed(before, f);
        }
        s
    }

    /// Adds a hook that may change each response before it is sent, after
    /// those already there.
    pub fn fn_before_send(self, f: Box<dyn OnBeforeSend>) -> (s: Self)
        ensures
            s.store() == self.store(),
            s.received() == self.received(),
            s.executed() == self.executed(),
            s.before_send() == self.before_send().push(f),
            s.before_send().len() == self.before_send().len() + 1,
            s.after_send() == self.after_send(),
    {
        let mut s = self;
        let ghost before = s.on_before_send@;
        s.on_before_send.push(f);
        proof {
            lemma_pushed(before, f);
        }
        s
    }

    /// Adds a hook called after each response was sent, after those
    /// already there.
    pub fn fn_after_send(self, f: Box<dyn OnAfterSend>) -> (s: Self)
        ensures
            s.store() == self.store(),
            s.received() == self.received(),
            s.executed() == self.executed(),
            s.before_send() == self.before_send(),
            s.after_send() == self.after_send().push(f),
            s.after_send().len() == self.after_send().len() + 1,
    {
        let mut s = self;
        let ghost before = s.on_after_send@;
        s.on_after_send.push(f);
        proof {
            lemma_pushed(before, f);
        }
        s
    }
}

/// A store with its hooks, answering requests. Where threads share one,
/// it sits behind a lock.
pub struct Service<Store = Memtable> {
    inner: ServiceInner<Store>,
}

impl<Store> Service<Store> {
    /// The hooks and store the service runs with.
    pub closed spec fn inner(&self) -> ServiceInner<Store> {
        self.inner
    }

    pub fn new(inner: ServiceInner<Store>) -> (s: Self)
        ensures
            s.inner() == inner,
    {
        Service { inner }
    }
}

impl<Store> From<ServiceInner<Store>> for Service<Store> {
    fn from(inner: ServiceInner<Store>) -> (s: Self)
        ensures
            s.inner() == inner,
    {
        Service::new(inner)
    }
}

impl<Store> FromSpecImpl<ServiceInner<Store>> for Service<Store> {
    open spec fn obeys_from_spec() -> bool {
        true
    }

    closed spec fn from_spec(v: ServiceInner<Store>) -> Service<Store> {
        Service { inner: v }
    }
}

impl<Store: Storage> Service<Store> {
    /// Answers `request`: calls the receive hooks, runs the command, calls
    /// the execution hooks, and lets the before-send hooks change the
    /// response. The hooks stay; the store is left as the command leaves
    /// it.
    pub fn execute(&mut self, request: CommandRequest) -> (resp: CommandResponse)
        requires
            request.request_data is Some,
        ensures
            final(self).inner().received() == old(self).inner().received(),
            final(self).inner().executed() == old(self).inner().executed(),
            final(self).inner().before_send() == old(self).inner().before_send(),
            final(self).inner().after_send() == old(self).inner().after_send(),
            exists|d: ResponseView| dispatched(old(self).inner().store(), final(self).inner().store(), request, d)
                && #[trigger] through_hooks(old(self).inner().before_send(), d, resp@),
            old(self).inner().before_send().len() == 0
                ==> dispatched(old(self).inner().store(), final(self).inner().store(), request, resp@),
    {
        let ghost store0 = self.inner.store;
        let mut i: usize = 0;
        while i < self.inner.on_received.len()
            decreases self.inner.on_received@.len() - i,
        {
            self.inner.on_received[i].on_received(&request);
            i = i + 1;
        }
        let ghost req = request;
        let mut resp = dispatch(&mut self.inner.store, request);
        let ghost d = resp@;
        let ghost store1 = self.inner.store;
        assert(dispatched(store0, store1, req, d));
        let mut j: usize = 0;
        while j < self.inner.on_executed.len()
            invariant
                self.inner.store == store1,
            decreases self.inner.on_executed@.len() - j,
        {
            self.inner.on_executed[j].on_executed(&resp);
            j = j + 1;
        }
        let ghost hooks = self.inner.on_before_send@;
        let ghost mut rs: Seq<ResponseView> = seq![d];
        let mut k: usize = 0;
        while k < self.inner.on_before_send.len()
            invariant
                hooks == self.inner.on_before_send@,
                self.inner.store == store1,
                dispatched(store0, store1, req, d),
                k <= hooks.len(),
                rs.len() == k + 1,
                rs[0] == d,
                rs.last() == resp@,
                forall|i: int| 0 <= i < k ==> #[trigger] hooks[i].changes(rs[i], rs[i + 1]),
            decreases self.inner.on_before_send@.len() - k,
        {
            self.inner.on_before_send[k].on_before_send(&mut resp);
            proof {
                rs = rs.push(resp@);
            }
            k = k + 1;
        }
        assert(through_hooks(hooks, d, resp@));
        assert(hooks.len() == 0 ==> resp@ == d);
        assert(dispatched(old(self).inner().store(), self.inner().store(), req, d));
        assert(through_hooks(old(self).inner().before_send(), d, resp@));
        resp
    }
}

/// A set answers, through the service, what the key held (the empty value
/// for a new key), and a get of the same table and key after it answers
/// the value set.
pub proof fn lemma_service_get_after_set(
    m0: Memtable,
    m1: Memtable,
    m2: Memtable,
    set: CommandRequest,
    get: CommandRequest,
    resp1: ResponseView,
    resp2: ResponseView,
)
    requires
        set.request_data matches Some(RequestData::Hset(h)) && h.pair is Some,
        get.request_data matches Some(RequestData::Hget(g)),
        set.request_data->Some_0->Hset_0.table@ == get.request_data->Some_0->Hget_0.table@,
        set.request_data->Some_0->Hset_0.pair->Some_0.key@ == get.request_data->Some_0->Hget_0.key@,
        dispatched(m0, m1, set, resp1),
        dispatched(m1, m2, get, resp2),
    ensures
        ({
            let h = set.request_data->Some_0->Hset_0;
            let p = h.pair->Some_0;
            &&& !m0.contents().contains_key((h.table@, p.key@)) ==> resp1 == value_response(None)
            &&& m0.contents().contains_key((h.table@, p.key@)) ==> resp1 == value_response(m0.contents()[(h.table@, p.key@)])
            &&& resp2 == value_response(stored_value(p))
            &&& m2 == m1
        }),
{
    let h = set.request_data->Some_0->Hset_0;
    let p = h.pair->Some_0;
    let g = get.request_data->Some_0->Hget_0;
    let r1 = choose|r: Result<Option<Value>, KvError>|
        m0.answers_set(m1, h.table@, p.key@, stored_value(p), r) && resp1 == #[trigger] set_response(r);
    let r2 = choose|r: Result<Option<Value>, KvError>|
        m1.answers_get(g.table@, g.key@, r) && resp2 == #[trigger] get_response(g.table@, g.key@, r);
    crate::kv::storage::lemma_get_after_set(m0, m1, h.table@, p.key@, stored_value(p), r1, r2);
}

} // verus!

verus! {

/// Whether two values are the same.
fn same_value(a: &Value, b: &Value) -> (r: bool)
    ensures
        r == (a@ == b@),
{
    match (&a.value, &b.value) {
        (None, None) => true,
        (Some(value::Value::String(x)), Some(value::Value::String(y))) => x.as_str().to_owned() == y.as_str().to_owned(),
        (Some(value::Value::Binary(x)), Some(value::Value::Binary(y))) => {
            let r = x == y;
            proof {
                if r {
                    assert(x@ =~= y@);
                }
            }
            r
        },
        (Some(value::Value::Integer(x)), Some(value::Value::Integer(y))) => *x == *y,
        (Some(value::Value::Bool(x)), Some(value::Value::Bool(y))) => *x == *y,
        _ => false,
    }
}

/// Whether two pairs are the same.
fn same_pair(a: &Kvpair, b: &Kvpair) -> (r: bool)
    ensures
        r == (a@ == b@),
{
    if a.key.as_str().to_owned() != b.key.as_str().to_owned() {
        return false;
    }
    match (&a.value, &b.value) {
        (None, None) => true,
        (Some(x), Some(y)) => same_value(x, y),
        _ => false,
    }
}

/// Whether `response` is a success that carries exactly `values` and
/// `pairs`, in that order (sort the pairs alike before asking, where their
/// order does not matter).
pub fn assert_res_ok(response: &CommandResponse, values: &[Value], pairs: &[Kvpair]) -> (r: bool)
    ensures
        r == (response@ == (ResponseView { status: STATUS_OK, message: Seq::empty(), values: values_view(values@), pairs: pairs_view(pairs@) })),
{
    if response.status != STATUS_OK || response.message.as_str().unicode_len() != 0 {
        assert(response@.message.len() != 0 ==> response@.message != Seq::<char>::empty());
        return false;
    }
    if response.values.len() != values.len() || response.pairs.len() != pairs.len() {
        assert(values_view(response.values@).len() == response.values@.len());
        assert(values_view(values@).len() == values@.len());
        assert(pairs_view(response.pairs@).len() == response.pairs@.len());
        assert(pairs_view(pairs@).len() == pairs@.len());
        return false;
    }
    let mut i: usize = 0;
    while i < values.len()
        invariant
            response.values@.len() == values@.len(),
            i <= values@.len(),
            forall|j: int| 0 <= j < i ==> response.values@[j]@ == values@[j]@,
        decreases values@.len() - i,
    {
        if !same_value(&response.values[i], &values[i]) {
            assert(values_view(response.values@)[i as int] != values_view(values@)[i as int]);
            return false;
        }
        i = i + 1;
    }
    let mut k: usize = 0;
    while k < pairs.len()
        invariant
            response.pairs@.len() == pairs@.len(),
            k <= pairs@.len(),
            forall|j: int| 0 <= j < k ==> response.pairs@[j]@ == pairs@[j]@,
        decreases pairs@.len() - k,
    {
        if !same_pair(&response.pairs[k], &pairs[k]) {
            assert(pairs_view(response.pairs@)[k as int] != pairs_view(pairs@)[k as int]);
            return false;
        }
        k = k + 1;
    }
    assert(values_view(response.values@) =~= values_view(values@));
    assert(pairs_view(response.pairs@) =~= pairs_view(pairs@));
    assert(response.message@ =~= Seq::<char>::empty());
    true
}

/// `text` occurs in `message`.
pub open spec fn holds_text(message: Seq<char>, text: Seq<char>) -> bool {
    exists|i: int| 0 <= i <= message.len() - text.len() && #[trigger] message.subrange(i, i + text.len()) == text
}

/// Whether `response` fails with status `code`, a message holding `text`,
/// and nothing else.
pub fn assert_res_error(response: &CommandResponse, code: u32, text: &str) -> (r: bool)
    ensures
        r == (response@.status == code && holds_text(response@.message, text@)
            && response@.values.len() == 0 && response@.pairs.len() == 0),
{
    if response.status != code || response.values.len() != 0 || response.pairs.len() != 0 {
        return false;
    }
    let message = response.message.as_str();
    let m = message.unicode_len();
    let n = text.unicode_len();
    if n > m {
        return false;
    }
    // the places where `text` may start: 0 ..= m - n
    let last = m - n;
    let mut i: usize = 0;
    loop
        invariant
            message@ == response.message@,
            response.status == code,
            response.values@.len() == 0,
            response.pairs@.len() == 0,
            m == message@.len(),
            n == text@.len(),
            last == m - n,
            i <= last,
            forall|j: int| 0 <= j < i ==> #[trigger] message@.subrange(j, j + n) != text@,
        decreases last - i,
    {
        let piece = message.substring_char(i, i + n);
        if piece.to_owned() == text.to_owned() {
            assert(message@.subrange(i as int, i + n) == text@);
            assert(response@.message.subrange(i as int, i + text@.len()) == text@);
            assert(holds_text(response@.message, text@));
            return true;
        }
        if i == last {
            assert forall|j: int| 0 <= j <= m - n implies #[trigger] message@.subrange(j, j + n) != text@ by {}
            return false;
        }
        i = i + 1;
    }
}

} // verus!
