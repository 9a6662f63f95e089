//! The messages of the key-value service.
pub mod command_request;
pub mod value;

use vstd::prelude::*;
use vstd::std_specs::convert::FromSpecImpl;
use crate::kv::error::{KvError, error_message, error_status};

verus! {

/// A stored value; `None` stands for the empty value.
#[derive(Clone, Debug, PartialEq, PartialOrd)]
pub struct Value {
    pub value: Option<value::Value>,
}

/// A key with its value.
#[derive(Clone, Debug, PartialEq, PartialOrd)]
pub struct Kvpair {
    pub key: String,
    pub value: Option<Value>,
}

/// Get the value of `key` in `table`.
#[derive(Clone, Debug, PartialEq)]
pub struct Hget {
    pub table: String,
    pub key: String,
}

/// Get every pair of `table`.
#[derive(Clone, Debug, PartialEq)]
pub struct Hgetall {
    pub table: String,
}

/// Set a pair in `table`.
#[derive(Clone, Debug, PartialEq)]
pub struct Hset {
    pub table: String,
    pub pair: Option<Kvpair>,
}

#[derive(Clone, Debug, PartialEq)]
pub struct CommandRequest {
    pub request_data: Option<command_request::RequestData>,
}

#[derive(Clone, Debug, PartialEq)]
pub struct CommandResponse {
    /// An HTTP status code.
    pub status: u32,
    /// What went wrong, where something did.
    pub message: String,
    pub values: Vec<Value>,
    pub pairs: Vec<Kvpair>,
}

/// A value as plain data.
pub enum ValueView {
    Str(Seq<char>),
    Binary(Seq<u8>),
    Integer(i64),
    Bool(bool),
}

impl View for value::Value {
    type V = ValueView;

    open spec fn view(&self) -> ValueView {
        match self {
            value::Value::String(s) => ValueView::Str(s@),
            value::Value::Binary(b) => ValueView::Binary(b@),
            value::Value::Integer(i) => ValueView::Integer(*i),
            value::Value::Bool(b) => ValueView::Bool(*b),
        }
    }
}

impl View for Value {
    type V = Option<ValueView>;

    open spec fn view(&self) -> Option<ValueView> {
        match self.value {
            Some(v) => Some(v@),
            None => None,
        }
    }
}

/// A pair as plain data.
pub struct KvpairView {
    pub key: Seq<char>,
    pub value: Option<Option<ValueView>>,
}

impl View for Kvpair {
    type V = KvpairView;

    open spec fn view(&self) -> KvpairView {
        KvpairView {
            key: self.key@,
            value: match self.value {
                Some(v) => Some(v@),
                None => None,
            },
        }
    }
}

/// A response as plain data.
pub struct ResponseView {
    pub status: u32,
    pub message: Seq<char>,
    pub values: Seq<Option<ValueView>>,
    pub pairs: Seq<KvpairView>,
}

/// The values of `vs` as plain data.
pub open spec fn values_view(vs: Seq<Value>) -> Seq<Option<ValueView>> {
    vs.map_values(|v: Value| v@)
}

/// The pairs of `ps` as plain data.
pub open spec fn pairs_view(ps: Seq<Kvpair>) -> Seq<KvpairView> {
    ps.map_values(|p: Kvpair| p@)
}

impl View for CommandResponse {
    type V = ResponseView;

    open spec fn view(&self) -> ResponseView {
        ResponseView {
            status: self.status,
            message: self.message@,
            values: values_view(self.values@),
            pairs: pairs_view(self.pairs@),
        }
    }
}

/// The status of a successful response.
pub const STATUS_OK: u32 = 200;
/// The status of a request that named nothing stored.
pub const STATUS_NOT_FOUND: u32 = 404;
/// The status of a request that could not be understood.
pub const STATUS_BAD_REQUEST: u32 = 400;

impl Value {
    /// A copy of this value.
    pub fn duplicate(&self) -> (r: Value)
        ensures
            r@ == self@,
    {
        match &self.value {
            None => Value { value: None },
            Some(value::Value::String(s)) => Value { value: Some(value::Value::String(s.clone())) },
            Some(value::Value::Binary(b)) => Value { value: Some(value::Value::Binary(b.clone())) },
            Some(value::Value::Integer(i)) => Value { value: Some(value::Value::Integer(*i)) },
            Some(value::Value::Bool(b)) => Value { value: Some(value::Value::Bool(*b)) },
        }
    }
}

impl Default for Value {
    fn default() -> (r: Value)
        ensures
            r@ is None,
    {
        Value { value: None }
    }
}

impl From<String> for Value {
    fn from(value: String) -> (r: Value)
        ensures
            r@ == Some(ValueView::Str(value@)),
    {
        Value { value: Some(value::Value::String(value)) }
    }
}

impl FromSpecImpl<String> for Value {
    open spec fn obeys_from_spec() -> bool {
        true
    }

    open spec fn from_spec(v: String) -> Value {
        Value { value: Some(value::Value::String(v)) }
    }
}

impl From<&str> for Value {
    fn from(value: &str) -> (r: Value)
        ensures
            r@ == Some(ValueView::Str(value@)),
    {
        Value { value: Some(value::Value::String(value.to_owned())) }
    }
}

impl FromSpecImpl<&str> for Value {
    /// A `String` cannot be written in specifications, so the result is
    /// stated by the `ensures` of `from` alone.
    open spec fn obeys_from_spec() -> bool {
        false
    }

    open spec fn from_spec(v: &str) -> Value {
        Value { value: None }
    }
}

impl From<i64> for Value {
    fn from(value: i64) -> (r: Value)
        ensures
            r@ == Some(ValueView::Integer(value)),
    {
        Value { value: Some(value::Value::Integer(value)) }
    }
}

impl FromSpecImpl<i64> for Value {
    open spec fn obeys_from_spec() -> bool {
        true
    }

    open spec fn from_spec(v: i64) -> Value {
        Value { value: Some(value::Value::Integer(v)) }
    }
}

impl Kvpair {
    pub fn new(key: &str, value: Value) -> (p: Kvpair)
        ensures
            p@ == (KvpairView { key: key@, value: Some(value@) }),
    {
        Kvpair { key: key.to_owned(), value: Some(value) }
    }
}

impl From<(String, Value)> for Kvpair {
    fn from(p: (String, Value)) -> (r: Kvpair)
        ensures
            r@ == (KvpairView { key: p.0@, value: Some(p.1@) }),
    {
        Kvpair { key: p.0, value: Some(p.1) }
    }
}

impl FromSpecImpl<(String, Value)> for Kvpair {
    open spec fn obeys_from_spec() -> bool {
        true
    }

    open spec fn from_spec(p: (String, Value)) -> Kvpair {
        Kvpair { key: p.0, value: Some(p.1) }
    }
}

impl CommandRequest {
    /// A request to set `key` to `value` in `table`.
    pub fn new_hset(table: &str, key: &str, value: Value) -> (r: Self)
        ensures
            r.request_data matches Some(command_request::RequestData::Hset(h))
                && h.table@ == table@ && (h.pair matches Some(p) && p@ == (KvpairView { key: key@, value: Some(value@) })),
    {
        CommandRequest {
            request_data: Some(command_request::RequestData::Hset(Hset {
                table: table.to_owned(),
                pair: Some(Kvpair::new(key, value)),
            })),
        }
    }

    /// A request for the value of `key` in `table`.
    pub fn new_hget(table: &str, key: &str) -> (r: Self)
        ensures
            r.request_data matches Some(command_request::RequestData::Hget(h)) && h.table@ == table@ && h.key@ == key@,
    {
        CommandRequest {
            request_data: Some(command_request::RequestData::Hget(Hget { table: table.to_owned(), key: key.to_owned() })),
        }
    }

    /// A request for every pair of `table`.
    pub fn new_hgetall(table: &str) -> (r: Self)
        ensures
            r.request_data matches Some(command_request::RequestData::Hgetall(h)) && h.table@ == table@,
    {
        CommandRequest {
            request_data: Some(command_request::RequestData::Hgetall(Hgetall { table: table.to_owned() })),
        }
    }
}

impl CommandResponse {
    /// A successful response with nothing in it.
    pub fn ok() -> (r: Self)
        ensures
            r@ == (ResponseView { status: STATUS_OK, message: Seq::empty(), values: Seq::empty(), pairs: Seq::empty() }),
    {
        let r = CommandResponse { status: STATUS_OK, message: String::new(), values: Vec::new(), pairs: Vec::new() };
        assert(r.values@ =~= Seq::<Value>::empty());
        assert(r.pairs@ =~= Seq::<Kvpair>::empty());
        assert(values_view(r.values@) =~= Seq::empty());
        assert(pairs_view(r.pairs@) =~= Seq::empty());
        r
    }
}

impl Default for CommandResponse {
    fn default() -> (r: Self)
        ensures
            r@ == (ResponseView { status: 0, message: Seq::empty(), values: Seq::empty(), pairs: Seq::empty() }),
    {
        let r = CommandResponse { status: 0, message: String::new(), values: Vec::new(), pairs: Vec::new() };
        assert(values_view(r.values@) =~= Seq::empty());
        assert(pairs_view(r.pairs@) =~= Seq::empty());
        r
    }
}

/// The response that carries `v`.
pub open spec fn value_response(v: Option<ValueView>) -> ResponseView {
    ResponseView { status: STATUS_OK, message: Seq::empty(), values: seq![v], pairs: Seq::empty() }
}

/// The response that carries `pairs`.
pub open spec fn pairs_response(pairs: Seq<KvpairView>) -> ResponseView {
    ResponseView { status: STATUS_OK, message: Seq::empty(), values: Seq::empty(), pairs }
}

/// The response that reports `e`.
pub open spec fn error_response(e: KvError) -> ResponseView {
    ResponseView { status: error_status(e), message: error_message(e), values: Seq::empty(), pairs: Seq::empty() }
}

impl From<Value> for CommandResponse {
    fn from(value: Value) -> (r: Self)
        ensures
            r@ == value_response(value@),
    {
        let ghost v = value@;
        let mut values = Vec::new();
        values.push(value);
        let r = CommandResponse { status: STATUS_OK, message: String::new(), values, pairs: Vec::new() };
        assert(values_view(r.values@) =~= seq![v]);
        assert(pairs_view(r.pairs@) =~= Seq::empty());
        r
    }
}

impl FromSpecImpl<Value> for CommandResponse {
    /// A vector cannot be written in specifications, so the result is
    /// stated by the `ensures` of `from` alone.
    open spec fn obeys_from_spec() -> bool {
        false
    }

    open spec fn from_spec(v: Value) -> CommandResponse {
        vstd::pervasive::arbitrary()
    }
}

impl From<Vec<Kvpair>> for CommandResponse {
    fn from(pairs: Vec<Kvpair>) -> (r: Self)
        ensures
            r@ == pairs_response(pairs_view(pairs@)),
    {
        let r = CommandResponse { status: STATUS_OK, message: String::new(), values: Vec::new(), pairs };
        assert(values_view(r.values@) =~= Seq::empty());
        r
    }
}

impl FromSpecImpl<Vec<Kvpair>> for CommandResponse {
    /// See the impl for `Value`.
    open spec fn obeys_from_spec() -> bool {
        false
    }

    open spec fn from_spec(v: Vec<Kvpair>) -> CommandResponse {
        vstd::pervasive::arbitrary()
    }
}

impl From<KvError> for CommandResponse {
    fn from(err: KvError) -> (r: Self)
        ensures
            r@ == error_response(err),
    {
        let message = err.message();
        let mut status = STATUS_OK;
        match err {
            KvError::NotFound(_, _) => {
                status = STATUS_NOT_FOUND;
            },
            KvError::InvalidCommand(_) => {
                status = STATUS_BAD_REQUEST;
            },
            _ => {},
        }
        let r = CommandResponse { status, message, values: Vec::new(), pairs: Vec::new() };
        assert(values_view(r.values@) =~= Seq::empty());
        assert(pairs_view(r.pairs@) =~= Seq::empty());
        r
    }
}

impl FromSpecImpl<KvError> for CommandResponse {
    /// See the impl for `Value`.
    open spec fn obeys_from_spec() -> bool {
        false
    }

    open spec fn from_spec(v: KvError) -> CommandResponse {
        vstd::pervasive::arbitrary()
    }
}

} // verus!
