use vstd::prelude::*;

use crate::ast::BinaryOp;
use crate::error::EiriadError;
use crate::text::{decimal, push_str, push_u64};
use crate::value::{pieces_view, FunctionV, Piece, PieceV, UserFunction, Value, ValueV};

verus! {

/// The arithmetic that the host performs on doubles.
#[derive(Debug, Clone, Copy, PartialEq, Eq, Structural)]
pub enum ArithOp {
    Add,
    Sub,
    Mul,
    Div,
    Pow,
}

/// A number handed to the host: an integer (which the host converts to a
/// double with `as f64`) or the bits of a double.
#[derive(Debug, Clone, Copy, PartialEq, Eq, Structural)]
pub enum Num {
    Int(i64),
    Float(u64),
}

/// Work that the evaluator cannot do itself and asks its host for. The host
/// answers each with the `Reply` named below.
#[derive(Debug)]
pub enum HostCall {
    /// The double that a float literal's text denotes: `Reply::Float`.
    ParseFloat(String),
    /// `left op right` on doubles (`powf` for `Pow`): `Reply::Float`.
    Arith { op: ArithOp, left: Num, right: Num },
    /// The square root of the number as a double: `Reply::Float`.
    Sqrt(Num),
    /// `f64::total_cmp` of the two numbers as doubles, as -1, 0 or 1:
    /// `Reply::Order`. `op` is the comparison that asks.
    Order { op: BinaryOp, left: Num, right: Num },
    /// An HTTP request: `Reply::Http` with the status and body of the
    /// response, or `Reply::HttpFailed` with a message when none came.
    Http { method: String, url: String, body: Option<String> },
    /// The text of the pieces, each double shown the way Rust's `Display`
    /// for `f64` shows it: `Reply::Text`.
    Join(Vec<Piece>),
    /// Serve HTTP on `port`, answering each request through `Runtime::respond`
    /// with `handler`: `Reply::ServeEnded` when serving stops, or
    /// `Reply::ServeFailed` with a message.
    Serve { port: u16, handler: UserFunction },
}

/// What the host answers to a `HostCall`.
#[derive(Debug)]
pub enum Reply {
    Float(u64),
    Order(i8),
    Text(String),
    Http { status: u16, body: String },
    HttpFailed(String),
    ServeEnded,
    ServeFailed(String),
}

pub enum HostCallV {
    ParseFloat(Seq<char>),
    Arith { op: ArithOp, left: Num, right: Num },
    Sqrt(Num),
    Order { op: BinaryOp, left: Num, right: Num },
    Http { method: Seq<char>, url: Seq<char>, body: Option<Seq<char>> },
    Join(Seq<PieceV>),
    Serve { port: u16, handler: FunctionV },
}

pub enum ReplyV {
    Float(u64),
    Order(i8),
    Text(Seq<char>),
    Http { status: u16, body: Seq<char> },
    HttpFailed(Seq<char>),
    ServeEnded,
    ServeFailed(Seq<char>),
}

impl View for HostCall {
    type V = HostCallV;

    open spec fn view(&self) -> HostCallV {
        match self {
            HostCall::ParseFloat(t) => HostCallV::ParseFloat(t@),
            HostCall::Arith { op, left, right } => HostCallV::Arith { op: *op, left: *left, right: *right },
            HostCall::Sqrt(n) => HostCallV::Sqrt(*n),
            HostCall::Order { op, left, right } => HostCallV::Order { op: *op, left: *left, right: *right },
            HostCall::Http { method, url, body } => HostCallV::Http {
                method: method@,
                url: url@,
                body: match body {
                    Some(b) => Some(b@),
                    None => None,
                },
            },
            HostCall::Join(ps) => HostCallV::Join(pieces_view(ps@)),
            HostCall::Serve { port, handler } => HostCallV::Serve { port: *port, handler: handler@ },
        }
    }
}

impl View for Reply {
    type V = ReplyV;

    open spec fn view(&self) -> ReplyV {
        match self {
            Reply::Float(b) => ReplyV::Float(*b),
            Reply::Order(o) => ReplyV::Order(*o),
            Reply::Text(t) => ReplyV::Text(t@),
            Reply::Http { status, body } => ReplyV::Http { status: *status, body: body@ },
            Reply::HttpFailed(m) => ReplyV::HttpFailed(m@),
            Reply::ServeEnded => ReplyV::ServeEnded,
            Reply::ServeFailed(m) => ReplyV::ServeFailed(m@),
        }
    }
}

pub open spec fn replies_view(rs: Seq<Reply>) -> Seq<ReplyV> {
    rs.map_values(|r: Reply| r@)
}

/// How a piece of evaluation ended: with a result, with an error, or waiting
/// for the host to answer a call.
pub enum Outcome<T> {
    Done(T),
    Failed(Seq<char>),
    Needs(HostCallV),
}

/// The executable counterpart of `Outcome`.
#[derive(Debug)]
pub enum Flow<T> {
    Done(T),
    Failed(EiriadError),
    Needs(HostCall),
}

pub open spec fn flow_view(f: Flow<Value>) -> Outcome<ValueV> {
    match f {
        Flow::Done(v) => Outcome::Done(v@),
        Flow::Failed(e) => Outcome::Failed(e.message@),
        Flow::Needs(c) => Outcome::Needs(c@),
    }
}

/// The error for a reply that does not answer the call it follows.
pub open spec fn mismatch_msg() -> Seq<char> {
    "host reply does not match the request"@
}

/// Whether comparison `op` holds of two operands in order `o` (-1, 0 or 1).
pub open spec fn order_holds(op: BinaryOp, o: i8) -> bool {
    match op {
        BinaryOp::Lt => o < 0,
        BinaryOp::Le => o <= 0,
        BinaryOp::Gt => o > 0,
        _ => o >= 0,
    }
}

pub fn exec_order_holds(op: BinaryOp, o: i8) -> (b: bool)
    ensures
        b == order_holds(op, o),
{
    match op {
        BinaryOp::Lt => o < 0,
        BinaryOp::Le => o <= 0,
        BinaryOp::Gt => o > 0,
        _ => o >= 0,
    }
}

/// The value an HTTP built-in gives for a response: `Ok(body)` for a 2xx
/// status, otherwise `Err("HTTP <status>: <body>")`.
pub open spec fn http_value(status: u16, body: Seq<char>) -> ValueV {
    if 200 <= status && status < 300 {
        ValueV::OkV(Box::new(ValueV::Str(body)))
    } else {
        ValueV::ErrV(Box::new(ValueV::Str("HTTP "@ + decimal(status as nat) + ": "@ + body)))
    }
}

/// What the evaluator makes of the host's reply to a call.
pub open spec fn absorb(c: HostCallV, r: ReplyV) -> Outcome<ValueV> {
    match c {
        HostCallV::Order { op, left, right } => match r {
            ReplyV::Order(o) => Outcome::Done(ValueV::Bool(order_holds(op, o))),
            _ => Outcome::Failed(mismatch_msg()),
        },
        HostCallV::Http { method, url, body } => match r {
            ReplyV::Http { status, body } => Outcome::Done(http_value(status, body)),
            ReplyV::HttpFailed(m) => Outcome::Failed(m),
            _ => Outcome::Failed(mismatch_msg()),
        },
        HostCallV::Join(ps) => match r {
            ReplyV::Text(t) => Outcome::Done(ValueV::Str(t)),
            _ => Outcome::Failed(mismatch_msg()),
        },
        HostCallV::Serve { port, handler } => match r {
            ReplyV::ServeEnded => Outcome::Done(ValueV::Unit),
            ReplyV::ServeFailed(m) => Outcome::Failed(m),
            _ => Outcome::Failed(mismatch_msg()),
        },
        _ => match r {
            ReplyV::Float(b) => Outcome::Done(ValueV::Float(b)),
            _ => Outcome::Failed(mismatch_msg()),
        },
    }
}

/// The value of an HTTP response (`http_value`).
pub fn exec_http_value(status: u16, body: &String) -> (v: Value)
    ensures
        v@ == http_value(status, body@),
{
    if 200 <= status && status < 300 {
        let inner = Value::Str(body.clone());
        assert(inner@ == ValueV::Str(body@));
        Value::OkValue(Box::new(inner))
    } else {
        let mut t = String::from_str("HTTP ");
        push_u64(&mut t, status as u64);
        push_str(&mut t, ": ");
        push_str(&mut t, body.as_str());
        assert(t@ =~= "HTTP "@ + decimal(status as nat) + ": "@ + body@);
        let inner = Value::Str(t);
        assert(inner@ == ValueV::Str(t@));
        Value::ErrValue(Box::new(inner))
    }
}

fn mismatch() -> (r: Flow<Value>)
    ensures
        flow_view(r) == Outcome::<ValueV>::Failed(mismatch_msg()),
{
    Flow::Failed(EiriadError::new(String::from_str("host reply does not match the request")))
}

/// What the evaluator makes of the host's reply to a call (`absorb`).
pub fn exec_absorb(c: &HostCall, r: &Reply) -> (f: Flow<Value>)
    ensures
        flow_view(f) == absorb(c@, r@),
{
    match c {
        HostCall::Order { op, left: _, right: _ } => match r {
            Reply::Order(o) => Flow::Done(Value::Bool(exec_order_holds(*op, *o))),
            _ => mismatch(),
        },
        HostCall::Http { method: _, url: _, body: _ } => match r {
            Reply::Http { status, body } => Flow::Done(exec_http_value(*status, body)),
            Reply::HttpFailed(m) => Flow::Failed(EiriadError::new(m.clone())),
            _ => mismatch(),
        },
        HostCall::Join(_) => match r {
            Reply::Text(t) => {
                let v = Value::Str(t.clone());
                assert(v@ == ValueV::Str(t@));
                Flow::Done(v)
            },
            _ => mismatch(),
        },
        HostCall::Serve { port: _, handler: _ } => match r {
            Reply::ServeEnded => Flow::Done(Value::Unit),
            Reply::ServeFailed(m) => Flow::Failed(EiriadError::new(m.clone())),
            _ => mismatch(),
        },
        _ => match r {
            Reply::Float(b) => Flow::Done(Value::Float(*b)),
            _ => mismatch(),
        },
    }
}

} // verus!
