use vstd::prelude::*;

use crate::ast::{duplicate_names, Expr, ExprV, Pattern};
use crate::text::{decimal, int_text, push_i64, push_str, push_u64};

verus! {

/// An HTTP request as a `serve` handler sees it.
#[derive(Debug)]
pub struct HttpRequestValue {
    pub method: String,
    pub path: String,
    pub body: String,
}

impl HttpRequestValue {
    /// A request with the given method, path and body.
    pub fn new(method: String, path: String, body: String) -> (r: Self)
        ensures
            r.method@ == method@,
            r.path@ == path@,
            r.body@ == body@,
    {
        HttpRequestValue { method, path, body }
    }

    pub fn duplicate(&self) -> (r: Self)
        ensures
            r.method@ == self.method@,
            r.path@ == self.path@,
            r.body@ == self.body@,
    {
        HttpRequestValue { method: self.method.clone(), path: self.path.clone(), body: self.body.clone() }
    }
}

/// A response built by the `response` built-in.
#[derive(Debug)]
pub struct HttpResponseValue {
    pub status: u16,
    pub body: String,
}

impl HttpResponseValue {
    /// A response with the given status and body.
    pub fn new(status: u16, body: String) -> (r: Self)
        ensures
            r.status == status,
            r.body@ == body@,
    {
        HttpResponseValue { status, body }
    }

    /// The status code.
    pub fn status(&self) -> (s: u16)
        ensures
            s == self.status,
    {
        self.status
    }

    /// The body text.
    pub fn body(&self) -> (b: &str)
        ensures
            b@ == self.body@,
    {
        self.body.as_str()
    }
}

/// A function value: its parameters, its body, the bindings it closed over,
/// and, for a declared function, the name it was declared under (which a
/// call binds to the function itself, so that its body can call it).
#[derive(Debug)]
pub struct UserFunction {
    pub params: Vec<String>,
    pub body: Expr,
    pub captured: Vec<Entry>,
    pub self_name: Option<String>,
}

/// One binding of a scope. A later entry for a name hides earlier ones.
#[derive(Debug)]
pub struct Entry {
    pub name: String,
    pub mutable: bool,
    pub value: Value,
}

/// A runtime value. A float is held as the bits of an IEEE 754 double.
#[derive(Debug)]
pub enum Value {
    Int(i64),
    Float(u64),
    Bool(bool),
    Str(String),
    Request(HttpRequestValue),
    Response(HttpResponseValue),
    SomeValue(Box<Value>),
    NoneValue,
    OkValue(Box<Value>),
    ErrValue(Box<Value>),
    Function(UserFunction),
    Unit,
}

/// The model of a value: text becomes character sequences, lists become sequences.
pub enum ValueV {
    Int(i64),
    Float(u64),
    Bool(bool),
    Str(Seq<char>),
    Request(Seq<char>, Seq<char>, Seq<char>),
    Response(u16, Seq<char>),
    SomeV(Box<ValueV>),
    NoneV,
    OkV(Box<ValueV>),
    ErrV(Box<ValueV>),
    Function(FunctionV),
    Unit,
}

/// The model of a function value.
pub struct FunctionV {
    pub params: Seq<String>,
    pub body: ExprV,
    pub captured: Seq<EntryV>,
    pub self_name: Option<Seq<char>>,
}

/// The model of an optional name.
pub open spec fn name_view(n: Option<String>) -> Option<Seq<char>> {
    match n {
        Some(s) => Some(s@),
        None => None,
    }
}

/// The model of a binding.
pub struct EntryV {
    pub name: Seq<char>,
    pub mutable: bool,
    pub value: ValueV,
}

pub open spec fn value_view(v: Value) -> ValueV
    decreases v, 0nat,
{
    match v {
        Value::Int(n) => ValueV::Int(n),
        Value::Float(b) => ValueV::Float(b),
        Value::Bool(b) => ValueV::Bool(b),
        Value::Str(s) => ValueV::Str(s@),
        Value::Request(r) => ValueV::Request(r.method@, r.path@, r.body@),
        Value::Response(r) => ValueV::Response(r.status, r.body@),
        Value::SomeValue(x) => ValueV::SomeV(Box::new(value_view(*x))),
        Value::NoneValue => ValueV::NoneV,
        Value::OkValue(x) => ValueV::OkV(Box::new(value_view(*x))),
        Value::ErrValue(x) => ValueV::ErrV(Box::new(value_view(*x))),
        Value::Function(f) => ValueV::Function(
            FunctionV {
                params: f.params@,
                body: f.body@,
                captured: entries_view(f.captured@),
                self_name: name_view(f.self_name),
            },
        ),
        Value::Unit => ValueV::Unit,
    }
}

pub open spec fn entries_view(es: Seq<Entry>) -> Seq<EntryV>
    decreases es, 1nat,
{
    if es.len() == 0 {
        Seq::empty()
    } else {
        entries_view(es.drop_last()).push(
            EntryV { name: es.last().name@, mutable: es.last().mutable, value: value_view(es.last().value) },
        )
    }
}

impl View for Value {
    type V = ValueV;

    open spec fn view(&self) -> ValueV {
        value_view(*self)
    }
}

impl View for UserFunction {
    type V = FunctionV;

    open spec fn view(&self) -> FunctionV {
        FunctionV {
            params: self.params@,
            body: self.body@,
            captured: entries_view(self.captured@),
            self_name: name_view(self.self_name),
        }
    }
}

impl View for Entry {
    type V = EntryV;

    open spec fn view(&self) -> EntryV {
        EntryV { name: self.name@, mutable: self.mutable, value: self.value@ }
    }
}

/// The models of a list of values.
pub open spec fn values_view(vs: Seq<Value>) -> Seq<ValueV> {
    vs.map_values(|v: Value| v@)
}

/// A list of entries has one model per entry, in order.
pub proof fn lemma_entries_view_index(es: Seq<Entry>)
    ensures
        entries_view(es).len() == es.len(),
        forall|i: int| 0 <= i < es.len() ==> #[trigger] entries_view(es)[i] == es[i]@,
    decreases es.len(),
{
    if es.len() > 0 {
        lemma_entries_view_index(es.drop_last());
    }
}

/// Entry lists with the same models item by item have the same model.
pub proof fn lemma_entries_view_ext(a: Seq<Entry>, b: Seq<Entry>)
    requires
        a.len() == b.len(),
        forall|i: int| 0 <= i < a.len() ==> (#[trigger] a[i])@ == b[i]@,
    ensures
        entries_view(a) == entries_view(b),
{
    lemma_entries_view_index(a);
    lemma_entries_view_index(b);
    assert(entries_view(a) =~= entries_view(b));
}

pub proof fn lemma_entries_view_push(es: Seq<Entry>, e: Entry)
    ensures
        entries_view(es.push(e)) == entries_view(es).push(e@),
{
    assert(es.push(e).drop_last() =~= es);
}

pub proof fn lemma_entries_view_update(es: Seq<Entry>, i: int, e: Entry)
    requires
        0 <= i < es.len(),
    ensures
        entries_view(es.update(i, e)) == entries_view(es).update(i, e@),
{
    lemma_entries_view_index(es);
    lemma_entries_view_index(es.update(i, e));
    assert(entries_view(es.update(i, e)) =~= entries_view(es).update(i, e@));
}

pub proof fn lemma_entries_view_concat(a: Seq<Entry>, b: Seq<Entry>)
    ensures
        entries_view(a + b) == entries_view(a) + entries_view(b),
{
    lemma_entries_view_index(a);
    lemma_entries_view_index(b);
    lemma_entries_view_index(a + b);
    assert(entries_view(a + b) =~= entries_view(a) + entries_view(b));
}

impl Value {
    /// A copy of the value: same model.
    pub fn duplicate(&self) -> (r: Value)
        ensures
            r@ == self@,
        decreases self, 0nat,
    {
        match self {
            Value::Int(n) => Value::Int(*n),
            Value::Float(b) => Value::Float(*b),
            Value::Bool(b) => Value::Bool(*b),
            Value::Str(s) => Value::Str(s.clone()),
            Value::Request(r) => Value::Request(r.duplicate()),
            Value::Response(r) => Value::Response(HttpResponseValue { status: r.status, body: r.body.clone() }),
            Value::SomeValue(x) => Value::SomeValue(Box::new((**x).duplicate())),
            Value::NoneValue => Value::NoneValue,
            Value::OkValue(x) => Value::OkValue(Box::new((**x).duplicate())),
            Value::ErrValue(x) => Value::ErrValue(Box::new((**x).duplicate())),
            Value::Function(f) => Value::Function(f.duplicate()),
            Value::Unit => Value::Unit,
        }
    }
}

impl UserFunction {
    /// A copy of the function value.
    pub fn duplicate(&self) -> (r: UserFunction)
        ensures
            r@ == self@,
        decreases self, 1nat,
    {
        let captured = duplicate_entries(&self.captured);
        let self_name = match &self.self_name {
            Some(n) => Some(n.clone()),
            None => None,
        };
        UserFunction { params: duplicate_names(&self.params), body: self.body.duplicate(), captured, self_name }
    }
}

/// A copy of a list of bindings.
pub fn duplicate_entries(es: &Vec<Entry>) -> (r: Vec<Entry>)
    ensures
        entries_view(r@) == entries_view(es@),
        r@.len() == es@.len(),
        forall|i: int| 0 <= i < es@.len() ==> (#[trigger] r@[i])@ == es@[i]@,
    decreases es, 2nat,
{
    let mut r: Vec<Entry> = Vec::new();
    let mut i: usize = 0;
    while i < es.len()
        invariant
            i <= es@.len(),
            r@.len() == i,
            forall|j: int| 0 <= j < i ==> (#[trigger] r@[j])@ == es@[j]@,
        decreases es@.len() - i,
    {
        proof {
            assert(decreases_to!(*es => es@));
            assert(decreases_to!(es@ => es@[i as int]));
            assert(decreases_to!(es@[i as int] => es@[i as int].value));
        }
        let v = es[i].value.duplicate();
        r.push(Entry { name: es[i].name.clone(), mutable: es[i].mutable, value: v });
        i = i + 1;
    }
    proof {
        lemma_entries_view_ext(r@, es@);
    }
    r
}

// ---------------------------------------------------------------------------
// Floats held as IEEE 754 bits: the decisions that need no float arithmetic.
// ---------------------------------------------------------------------------

/// The bits are those of `+0.0` or `-0.0`.
pub open spec fn float_is_zero(b: u64) -> bool {
    b & 0x7fff_ffff_ffff_ffffu64 == 0
}

/// The bits are those of a NaN: every exponent bit set and a nonzero fraction.
pub open spec fn float_is_nan(b: u64) -> bool {
    b & 0x7ff0_0000_0000_0000u64 == 0x7ff0_0000_0000_0000u64 && b & 0x000f_ffff_ffff_ffffu64 != 0
}

/// `==` on doubles: NaN equals nothing, and the two zeros are equal.
pub open spec fn float_eq(a: u64, b: u64) -> bool {
    !float_is_nan(a) && !float_is_nan(b) && (a == b || (float_is_zero(a) && float_is_zero(b)))
}

/// The bits of the negated double: the sign bit flipped.
pub open spec fn float_neg(b: u64) -> u64 {
    b ^ 0x8000_0000_0000_0000u64
}

/// The key by which IEEE 754 `totalOrder` ranks doubles (`f64::total_cmp`):
/// nonnegative bit patterns rank by their bits, negative ones in reverse.
pub open spec fn total_key(b: u64) -> int {
    if b < 0x8000_0000_0000_0000u64 {
        b as int
    } else {
        -1 - (b - 0x8000_0000_0000_0000u64)
    }
}

pub fn exec_float_is_zero(b: u64) -> (r: bool)
    ensures
        r == float_is_zero(b),
{
    b & 0x7fff_ffff_ffff_ffffu64 == 0
}

pub fn exec_float_eq(a: u64, b: u64) -> (r: bool)
    ensures
        r == float_eq(a, b),
{
    let a_nan = a & 0x7ff0_0000_0000_0000u64 == 0x7ff0_0000_0000_0000u64 && a & 0x000f_ffff_ffff_ffffu64 != 0;
    let b_nan = b & 0x7ff0_0000_0000_0000u64 == 0x7ff0_0000_0000_0000u64 && b & 0x000f_ffff_ffff_ffffu64 != 0;
    !a_nan && !b_nan && (a == b || (exec_float_is_zero(a) && exec_float_is_zero(b)))
}

fn exec_total_key(b: u64) -> (k: i64)
    ensures
        k as int == total_key(b),
{
    if b < 0x8000_0000_0000_0000u64 {
        b as i64
    } else {
        let m: u64 = b - 0x8000_0000_0000_0000u64;
        -1 - (m as i64)
    }
}

// ---------------------------------------------------------------------------
// Orderings, as -1, 0 or 1.
// ---------------------------------------------------------------------------

/// -1, 0 or 1 as `a` is below, equal to or above `b`.
pub open spec fn sign_of(a: int, b: int) -> i8 {
    if a < b {
        -1i8
    } else if a == b {
        0i8
    } else {
        1i8
    }
}

/// Lexicographic order of two texts, by character code.
pub open spec fn text_order(a: Seq<char>, b: Seq<char>) -> i8
    decreases a.len(),
{
    if a.len() == 0 {
        if b.len() == 0 { 0i8 } else { -1i8 }
    } else if b.len() == 0 {
        1i8
    } else if a[0] != b[0] {
        sign_of(a[0] as int, b[0] as int)
    } else {
        text_order(a.drop_first(), b.drop_first())
    }
}

/// An `Ordering` as -1, 0 or 1.
pub fn ord_to_i8(ord: std::cmp::Ordering) -> (r: i8)
    ensures
        r == -1 <==> ord == std::cmp::Ordering::Less,
        r == 0 <==> ord == std::cmp::Ordering::Equal,
        r == 1 <==> ord == std::cmp::Ordering::Greater,
{
    match ord {
        std::cmp::Ordering::Less => -1,
        std::cmp::Ordering::Equal => 0,
        std::cmp::Ordering::Greater => 1,
    }
}

/// -1, 0 or 1 as `a` is below, equal to or above `b`.
pub open spec fn int_sign(a: i64, b: i64) -> i8 {
    if a < b {
        -1i8
    } else if a == b {
        0i8
    } else {
        1i8
    }
}

/// The order of two integers.
pub fn int_order(a: i64, b: i64) -> (r: i8)
    ensures
        r == int_sign(a, b),
{
    ord_to_i8(a.cmp(&b))
}

/// The order of two doubles under `f64::total_cmp`, from their bits.
pub fn float_order(a: u64, b: u64) -> (r: i8)
    ensures
        r == sign_of(total_key(a), total_key(b)),
{
    let ka = exec_total_key(a);
    let kb = exec_total_key(b);
    int_order(ka, kb)
}

proof fn lemma_text_order_skip(a: Seq<char>, b: Seq<char>, i: int)
    requires
        0 <= i <= a.len(),
        i <= b.len(),
        a.take(i) == b.take(i),
    ensures
        text_order(a, b) == text_order(a.skip(i), b.skip(i)),
    decreases i,
{
    if i > 0 {
        assert(a[0] == a.take(i)[0]);
        assert(b[0] == b.take(i)[0]);
        assert(a.drop_first().take(i - 1) =~= a.take(i).drop_first());
        assert(b.drop_first().take(i - 1) =~= b.take(i).drop_first());
        lemma_text_order_skip(a.drop_first(), b.drop_first(), i - 1);
        assert(a.drop_first().skip(i - 1) =~= a.skip(i));
        assert(b.drop_first().skip(i - 1) =~= b.skip(i));
    } else {
        assert(a.skip(0) =~= a);
        assert(b.skip(0) =~= b);
    }
}

/// The lexicographic order of two texts.
pub fn exec_text_order(a: &str, b: &str) -> (r: i8)
    ensures
        r == text_order(a@, b@),
{
    let x = crate::text::chars_of(a);
    let y = crate::text::chars_of(b);
    let mut i: usize = 0;
    while i < x.len() && i < y.len()
        invariant
            x@ == a@,
            y@ == b@,
            i <= x@.len(),
            i <= y@.len(),
            x@.take(i as int) == y@.take(i as int),
        decreases x@.len() - i,
    {
        if x[i] != y[i] {
            proof {
                lemma_text_order_skip(a@, b@, i as int);
                assert(a@.skip(i as int)[0] == x@[i as int]);
                assert(b@.skip(i as int)[0] == y@[i as int]);
            }
            return if x[i] < y[i] { -1 } else { 1 };
        }
        proof {
            assert(x@.take(i + 1) =~= x@.take(i as int).push(x@[i as int]));
            assert(y@.take(i + 1) =~= y@.take(i as int).push(y@[i as int]));
        }
        i = i + 1;
    }
    proof {
        lemma_text_order_skip(a@, b@, i as int);
    }
    if i < x.len() {
        1
    } else if i < y.len() {
        -1
    } else {
        0
    }
}

// ---------------------------------------------------------------------------
// Truthiness, equality, type names.
// ---------------------------------------------------------------------------

/// Whether a value counts as true in `&&`, `||` and `!`.
pub open spec fn truthy(v: ValueV) -> bool {
    match v {
        ValueV::Bool(b) => b,
        ValueV::Int(n) => n != 0,
        ValueV::Float(b) => !float_is_zero(b),
        ValueV::Str(s) => s.len() > 0,
        ValueV::Request(..) => true,
        ValueV::Response(..) => true,
        ValueV::SomeV(_) => true,
        ValueV::NoneV => false,
        ValueV::OkV(_) => true,
        ValueV::ErrV(_) => false,
        ValueV::Function(_) => true,
        ValueV::Unit => false,
    }
}

/// `==` on values: same kind and same content; functions are never equal.
pub open spec fn equals(a: ValueV, b: ValueV) -> bool
    decreases a,
{
    match (a, b) {
        (ValueV::Int(x), ValueV::Int(y)) => x == y,
        (ValueV::Float(x), ValueV::Float(y)) => float_eq(x, y),
        (ValueV::Bool(x), ValueV::Bool(y)) => x == y,
        (ValueV::Str(x), ValueV::Str(y)) => x == y,
        (ValueV::Request(m1, p1, b1), ValueV::Request(m2, p2, b2)) => m1 == m2 && p1 == p2 && b1 == b2,
        (ValueV::Response(s1, b1), ValueV::Response(s2, b2)) => s1 == s2 && b1 == b2,
        (ValueV::SomeV(x), ValueV::SomeV(y)) => equals(*x, *y),
        (ValueV::NoneV, ValueV::NoneV) => true,
        (ValueV::OkV(x), ValueV::OkV(y)) => equals(*x, *y),
        (ValueV::ErrV(x), ValueV::ErrV(y)) => equals(*x, *y),
        (ValueV::Unit, ValueV::Unit) => true,
        _ => false,
    }
}

/// The name `typeof` gives a value's kind.
pub open spec fn kind_name(v: ValueV) -> Seq<char> {
    match v {
        ValueV::Int(_) => "Int"@,
        ValueV::Float(_) => "Float"@,
        ValueV::Bool(_) => "Bool"@,
        ValueV::Str(_) => "Str"@,
        ValueV::Request(..) => "Request"@,
        ValueV::Response(..) => "Response"@,
        ValueV::SomeV(_) | ValueV::NoneV => "Option"@,
        ValueV::OkV(_) | ValueV::ErrV(_) => "Result"@,
        ValueV::Function(_) => "fn"@,
        ValueV::Unit => "()"@,
    }
}

impl Value {
    pub fn truthy(&self) -> (b: bool)
        ensures
            b == truthy(self@),
    {
        match self {
            Value::Bool(b) => *b,
            Value::Int(n) => *n != 0,
            Value::Float(b) => !exec_float_is_zero(*b),
            Value::Str(s) => s.as_str().unicode_len() > 0,
            Value::Request(_) => true,
            Value::Response(_) => true,
            Value::SomeValue(_) => true,
            Value::NoneValue => false,
            Value::OkValue(_) => true,
            Value::ErrValue(_) => false,
            Value::Function(_) => true,
            Value::Unit => false,
        }
    }

    pub fn equals(&self, other: &Value) -> (b: bool)
        ensures
            b == equals(self@, other@),
        decreases self,
    {
        match (self, other) {
            (Value::Int(x), Value::Int(y)) => *x == *y,
            (Value::Float(x), Value::Float(y)) => exec_float_eq(*x, *y),
            (Value::Bool(x), Value::Bool(y)) => *x == *y,
            (Value::Str(x), Value::Str(y)) => *x == *y,
            (Value::Request(x), Value::Request(y)) => x.method == y.method && x.path == y.path && x.body == y.body,
            (Value::Response(x), Value::Response(y)) => x.status == y.status && x.body == y.body,
            (Value::SomeValue(x), Value::SomeValue(y)) => (**x).equals(&**y),
            (Value::NoneValue, Value::NoneValue) => true,
            (Value::OkValue(x), Value::OkValue(y)) => (**x).equals(&**y),
            (Value::ErrValue(x), Value::ErrValue(y)) => (**x).equals(&**y),
            (Value::Unit, Value::Unit) => true,
            _ => false,
        }
    }

    /// The name `typeof` gives the value's kind.
    pub fn kind_name(&self) -> (s: &'static str)
        ensures
            s@ == kind_name(self@),
    {
        match self {
            Value::Int(_) => "Int",
            Value::Float(_) => "Float",
            Value::Bool(_) => "Bool",
            Value::Str(_) => "Str",
            Value::Request(_) => "Request",
            Value::Response(_) => "Response",
            Value::SomeValue(_) | Value::NoneValue => "Option",
            Value::OkValue(_) | Value::ErrValue(_) => "Result",
            Value::Function(_) => "fn",
            Value::Unit => "()",
        }
    }
}

// ---------------------------------------------------------------------------
// Display: a value's text, with each float left as a piece of its own for the
// host to format.
// ---------------------------------------------------------------------------

/// A piece of displayed text: literal text, or a double (by its bits) that
/// is shown the way Rust's `Display` for `f64` shows it.
#[derive(Debug)]
pub enum Piece {
    Text(String),
    Float(u64),
}

pub enum PieceV {
    Text(Seq<char>),
    Float(u64),
}

impl View for Piece {
    type V = PieceV;

    open spec fn view(&self) -> PieceV {
        match self {
            Piece::Text(t) => PieceV::Text(t@),
            Piece::Float(b) => PieceV::Float(*b),
        }
    }
}

pub open spec fn pieces_view(ps: Seq<Piece>) -> Seq<PieceV> {
    ps.map_values(|p: Piece| p@)
}

pub open spec fn text_piece(t: Seq<char>) -> Seq<PieceV> {
    seq![PieceV::Text(t)]
}

/// How `Display` shows a value, piece by piece.
pub open spec fn render(v: ValueV) -> Seq<PieceV>
    decreases v,
{
    match v {
        ValueV::Int(n) => text_piece(int_text(n)),
        ValueV::Float(b) => seq![PieceV::Float(b)],
        ValueV::Bool(b) => text_piece(if b { "true"@ } else { "false"@ }),
        ValueV::Str(s) => text_piece(s),
        ValueV::Request(m, p, _) => text_piece("Request("@ + m + ", "@ + p + ")"@),
        ValueV::Response(st, b) => text_piece("Response("@ + decimal(st as nat) + ", "@ + b + ")"@),
        ValueV::SomeV(x) => text_piece("Some("@) + render(*x) + text_piece(")"@),
        ValueV::NoneV => text_piece("None"@),
        ValueV::OkV(x) => text_piece("Ok("@) + render(*x) + text_piece(")"@),
        ValueV::ErrV(x) => text_piece("Err("@) + render(*x) + text_piece(")"@),
        ValueV::Function(_) => text_piece("<fn>"@),
        ValueV::Unit => text_piece("()"@),
    }
}

/// The text of a sequence of pieces, each float shown by `show`.
pub open spec fn join_pieces(ps: Seq<PieceV>, show: spec_fn(u64) -> Seq<char>) -> Seq<char>
    decreases ps.len(),
{
    if ps.len() == 0 {
        Seq::empty()
    } else {
        join_pieces(ps.drop_last(), show) + match ps.last() {
            PieceV::Text(t) => t,
            PieceV::Float(b) => show(b),
        }
    }
}

proof fn lemma_pieces_push(ps: Seq<Piece>, p: Piece)
    ensures
        pieces_view(ps.push(p)) == pieces_view(ps).push(p@),
{
    assert(pieces_view(ps.push(p)) =~= pieces_view(ps).push(p@));
}

fn push_text(out: &mut Vec<Piece>, t: String)
    ensures
        pieces_view(final(out)@) == pieces_view(old(out)@) + text_piece(t@),
{
    proof {
        lemma_pieces_push(out@, Piece::Text(t));
    }
    out.push(Piece::Text(t));
    assert(pieces_view(old(out)@).push(PieceV::Text(t@)) =~= pieces_view(old(out)@) + text_piece(t@));
}

fn push_lit(out: &mut Vec<Piece>, t: &str)
    ensures
        pieces_view(final(out)@) == pieces_view(old(out)@) + text_piece(t@),
{
    push_text(out, String::from_str(t));
}

impl Value {
    /// Appends the pieces of the value's text to `out`.
    pub fn render_into(&self, out: &mut Vec<Piece>)
        ensures
            pieces_view(final(out)@) == pieces_view(old(out)@) + render(self@),
        decreases self,
    {
        let ghost before = pieces_view(out@);
        match self {
            Value::Int(n) => {
                let mut t = String::new();
                push_i64(&mut t, *n);
                assert(t@ =~= int_text(*n));
                push_text(out, t);
            },
            Value::Float(b) => {
                proof {
                    lemma_pieces_push(out@, Piece::Float(*b));
                }
                out.push(Piece::Float(*b));
                assert(before.push(PieceV::Float(*b)) =~= before + seq![PieceV::Float(*b)]);
            },
            Value::Bool(b) => {
                if *b {
                    push_lit(out, "true");
                } else {
                    push_lit(out, "false");
                }
            },
            Value::Str(s) => push_text(out, s.clone()),
            Value::Request(r) => {
                let mut t = String::from_str("Request(");
                push_str(&mut t, r.method.as_str());
                push_str(&mut t, ", ");
                push_str(&mut t, r.path.as_str());
                push_str(&mut t, ")");
                assert(t@ =~= "Request("@ + r.method@ + ", "@ + r.path@ + ")"@);
                push_text(out, t);
            },
            Value::Response(r) => {
                let mut t = String::from_str("Response(");
                push_u64(&mut t, r.status as u64);
                push_str(&mut t, ", ");
                push_str(&mut t, r.body.as_str());
                push_str(&mut t, ")");
                assert(t@ =~= "Response("@ + decimal(r.status as nat) + ", "@ + r.body@ + ")"@);
                push_text(out, t);
            },
            Value::SomeValue(x) => {
                push_lit(out, "Some(");
                (**x).render_into(out);
                push_lit(out, ")");
                assert(pieces_view(out@) =~= before + render(self@));
            },
            Value::NoneValue => push_lit(out, "None"),
            Value::OkValue(x) => {
                push_lit(out, "Ok(");
                (**x).render_into(out);
                push_lit(out, ")");
                assert(pieces_view(out@) =~= before + render(self@));
            },
            Value::ErrValue(x) => {
                push_lit(out, "Err(");
                (**x).render_into(out);
                push_lit(out, ")");
                assert(pieces_view(out@) =~= before + render(self@));
            },
            Value::Function(_) => push_lit(out, "<fn>"),
            Value::Unit => push_lit(out, "()"),
        }
    }

    /// The pieces of the value's text (`Display`).
    pub fn render(&self) -> (r: Vec<Piece>)
        ensures
            pieces_view(r@) == render(self@),
    {
        let mut out: Vec<Piece> = Vec::new();
        self.render_into(&mut out);
        assert(pieces_view(Seq::<Piece>::empty()) =~= Seq::<PieceV>::empty());
        assert(Seq::<PieceV>::empty() + render(self@) =~= render(self@));
        out
    }
}

// ---------------------------------------------------------------------------
// Patterns.
// ---------------------------------------------------------------------------

/// The bindings a pattern makes when it matches a value, or `None` when it
/// does not match. A name binds the whole value, immutably.
pub open spec fn bindings_of(p: Pattern, v: ValueV) -> Option<Seq<EntryV>>
    decreases p,
{
    match p {
        Pattern::Wildcard => Some(Seq::empty()),
        Pattern::Ident(name) => Some(seq![EntryV { name: name@, mutable: false, value: v }]),
        Pattern::NonePat => if v is NoneV { Some(Seq::empty()) } else { None },
        Pattern::SomePat(inner) => match v {
            ValueV::SomeV(x) => bindings_of(*inner, *x),
            _ => None,
        },
        Pattern::OkPat(inner) => match v {
            ValueV::OkV(x) => bindings_of(*inner, *x),
            _ => None,
        },
        Pattern::ErrPat(inner) => match v {
            ValueV::ErrV(x) => bindings_of(*inner, *x),
            _ => None,
        },
    }
}

/// The bindings `pattern` makes for `value`, or `None` when it does not match.
pub fn pattern_bindings(pattern: &Pattern, value: &Value) -> (r: Option<Vec<Entry>>)
    ensures
        match bindings_of(*pattern, value@) {
            Some(bs) => r matches Some(es) && entries_view(es@) == bs,
            None => r is None,
        },
    decreases pattern,
{
    match pattern {
        Pattern::Wildcard => {
            let es: Vec<Entry> = Vec::new();
            assert(entries_view(es@) =~= Seq::<EntryV>::empty());
            Some(es)
        },
        Pattern::Ident(name) => {
            let mut es: Vec<Entry> = Vec::new();
            let e = Entry { name: name.clone(), mutable: false, value: value.duplicate() };
            proof {
                lemma_entries_view_push(es@, e);
                assert(entries_view(Seq::<Entry>::empty()) =~= Seq::<EntryV>::empty());
            }
            es.push(e);
            assert(entries_view(es@) =~= seq![EntryV { name: name@, mutable: false, value: value@ }]);
            Some(es)
        },
        Pattern::NonePat => match value {
            Value::NoneValue => {
                let es: Vec<Entry> = Vec::new();
                assert(entries_view(es@) =~= Seq::<EntryV>::empty());
                Some(es)
            },
            _ => None,
        },
        Pattern::SomePat(inner) => match value {
            Value::SomeValue(x) => pattern_bindings(&**inner, &**x),
            _ => None,
        },
        Pattern::OkPat(inner) => match value {
            Value::OkValue(x) => pattern_bindings(&**inner, &**x),
            _ => None,
        },
        Pattern::ErrPat(inner) => match value {
            Value::ErrValue(x) => pattern_bindings(&**inner, &**x),
            _ => None,
        },
    }
}

/// `text_order` is antisymmetric, and it is 0 exactly on equal texts.
pub proof fn lemma_text_order_antisym(a: Seq<char>, b: Seq<char>)
    ensures
        text_order(a, b) as int == -(text_order(b, a) as int),
        (text_order(a, b) == 0) == (a == b),
        text_order(a, b) == -1 || text_order(a, b) == 0 || text_order(a, b) == 1,
    decreases a.len(),
{
    if a.len() == 0 || b.len() == 0 {
        if a.len() == 0 && b.len() == 0 {
            assert(a =~= b);
        }
    } else if a[0] != b[0] {
    } else {
        lemma_text_order_antisym(a.drop_first(), b.drop_first());
        if a.drop_first() == b.drop_first() {
            assert(a =~= b) by {
                assert forall|i: int| 0 <= i < a.len() implies a[i] == b[i] by {
                    if i > 0 {
                        assert(a[i] == a.drop_first()[i - 1]);
                        assert(b[i] == b.drop_first()[i - 1]);
                    }
                }
            }
        }
        if a == b {
            assert(a.drop_first() =~= b.drop_first());
        }
    }
}

impl Clone for Value {
    fn clone(&self) -> (r: Self)
        ensures
            r@ == self@,
    {
        self.duplicate()
    }
}

impl Clone for UserFunction {
    fn clone(&self) -> (r: Self)
        ensures
            r@ == self@,
    {
        self.duplicate()
    }
}

impl Clone for HttpRequestValue {
    fn clone(&self) -> (r: Self)
        ensures
            r.method@ == self.method@,
            r.path@ == self.path@,
            r.body@ == self.body@,
    {
        self.duplicate()
    }
}

impl Clone for HttpResponseValue {
    fn clone(&self) -> (r: Self)
        ensures
            r.status == self.status,
            r.body@ == self.body@,
    {
        HttpResponseValue { status: self.status, body: self.body.clone() }
    }
}

/// The text of pieces that hold no double; `None` when one does.
pub open spec fn plain_text(ps: Seq<PieceV>) -> Option<Seq<char>>
    decreases ps.len(),
{
    if ps.len() == 0 {
        Some(Seq::empty())
    } else {
        match (plain_text(ps.drop_last()), ps.last()) {
            (Some(t), PieceV::Text(x)) => Some(t + x),
            _ => None,
        }
    }
}

proof fn lemma_plain_text_none(ps: Seq<PieceV>, k: int)
    requires
        0 <= k <= ps.len(),
        plain_text(ps.take(k)) is None,
    ensures
        plain_text(ps) is None,
    decreases ps.len(),
{
    if k < ps.len() {
        assert(ps.drop_last().take(k) =~= ps.take(k));
        lemma_plain_text_none(ps.drop_last(), k);
    } else {
        assert(ps.take(k) =~= ps);
    }
}

/// The text of pieces that hold no double (`plain_text`).
pub fn plain_text_of(ps: &Vec<Piece>) -> (r: Option<String>)
    ensures
        match plain_text(pieces_view(ps@)) {
            Some(t) => r matches Some(s) && s@ == t,
            None => r is None,
        },
{
    let ghost pv = pieces_view(ps@);
    let mut out = String::new();
    let mut i: usize = 0;
    proof {
        assert(pv.take(0) =~= Seq::<PieceV>::empty());
    }
    while i < ps.len()
        invariant
            i <= ps@.len(),
            pv == pieces_view(ps@),
            pv.len() == ps@.len(),
            plain_text(pv.take(i as int)) == Some(out@),
        decreases ps@.len() - i,
    {
        proof {
            assert(pv.take(i + 1).drop_last() =~= pv.take(i as int));
            assert(pv.take(i + 1).last() == ps@[i as int]@);
        }
        match &ps[i] {
            Piece::Text(t) => push_str(&mut out, t.as_str()),
            Piece::Float(_) => {
                proof {
                    lemma_plain_text_none(pv, i + 1);
                }
                return None;
            },
        }
        i = i + 1;
    }
    proof {
        assert(pv.take(ps@.len() as int) =~= pv);
    }
    Some(out)
}

} // verus!
