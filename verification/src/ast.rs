use vstd::prelude::*;

verus! {

/// A prefix operator.
#[derive(Debug, Clone, Copy, PartialEq, Eq, Structural)]
pub enum UnaryOp {
    Neg,
    Not,
}

/// An infix operator. `Pipe` never survives parsing: `a |> f(b)` becomes `f(a, b)`.
#[derive(Debug, Clone, Copy, PartialEq, Eq, Structural)]
pub enum BinaryOp {
    Add,
    Sub,
    Mul,
    Div,
    Mod,
    Pow,
    Eq,
    Ne,
    Lt,
    Le,
    Gt,
    Ge,
    And,
    Or,
    Pipe,
}

/// A pattern of a match arm.
#[derive(Debug)]
pub enum Pattern {
    /// `_`
    Wildcard,
    /// A name that binds the whole value.
    Ident(String),
    /// `None`
    NonePat,
    /// `Some(p)`
    SomePat(Box<Pattern>),
    /// `Ok(p)`
    OkPat(Box<Pattern>),
    /// `Err(p)`
    ErrPat(Box<Pattern>),
}

/// One arm of a match expression.
#[derive(Debug)]
pub struct MatchArm {
    pub pattern: Pattern,
    pub expr: Expr,
}

/// An expression. A float literal keeps its source text.
#[derive(Debug)]
pub enum Expr {
    Int(i64),
    Float(String),
    Bool(bool),
    Str(String),
    NoneLit,
    Ident(String),
    Unary { op: UnaryOp, expr: Box<Expr> },
    Binary { left: Box<Expr>, op: BinaryOp, right: Box<Expr> },
    Lambda { params: Vec<String>, body: Box<Expr> },
    Call { callee: Box<Expr>, args: Vec<Expr> },
    Match { value: Box<Expr>, arms: Vec<MatchArm> },
}

/// A statement.
#[derive(Debug)]
pub enum Stmt {
    Let { name: String, mutable: bool, expr: Expr },
    Fn { name: String, params: Vec<String>, body: Expr },
    Assign { name: String, expr: Expr },
    Expr(Expr),
}

/// The model of an expression: lists become sequences.
pub enum ExprV {
    Int(i64),
    Float(String),
    Bool(bool),
    Str(String),
    NoneLit,
    Ident(String),
    Unary { op: UnaryOp, expr: Box<ExprV> },
    Binary { left: Box<ExprV>, op: BinaryOp, right: Box<ExprV> },
    Lambda { params: Seq<String>, body: Box<ExprV> },
    Call { callee: Box<ExprV>, args: Seq<ExprV> },
    Match { value: Box<ExprV>, arms: Seq<ArmV> },
}

/// The model of a match arm.
pub struct ArmV {
    pub pattern: Pattern,
    pub expr: ExprV,
}

/// The model of a statement.
pub enum StmtV {
    Let { name: String, mutable: bool, expr: ExprV },
    Fn { name: String, params: Seq<String>, body: ExprV },
    Assign { name: String, expr: ExprV },
    Expr(ExprV),
}

/// The model of an expression.
pub open spec fn expr_model(e: Expr) -> ExprV
    decreases e, 0nat,
{
    match e {
        Expr::Int(n) => ExprV::Int(n),
        Expr::Float(s) => ExprV::Float(s),
        Expr::Bool(b) => ExprV::Bool(b),
        Expr::Str(s) => ExprV::Str(s),
        Expr::NoneLit => ExprV::NoneLit,
        Expr::Ident(s) => ExprV::Ident(s),
        Expr::Unary { op, expr } => ExprV::Unary { op, expr: Box::new(expr_model(*expr)) },
        Expr::Binary { left, op, right } => ExprV::Binary {
            left: Box::new(expr_model(*left)),
            op,
            right: Box::new(expr_model(*right)),
        },
        Expr::Lambda { params, body } => ExprV::Lambda { params: params@, body: Box::new(expr_model(*body)) },
        Expr::Call { callee, args } => ExprV::Call {
            callee: Box::new(expr_model(*callee)),
            args: exprs_model(args@),
        },
        Expr::Match { value, arms } => ExprV::Match {
            value: Box::new(expr_model(*value)),
            arms: arms_model(arms@),
        },
    }
}

/// The models of a list of expressions.
pub open spec fn exprs_model(es: Seq<Expr>) -> Seq<ExprV>
    decreases es, 1nat,
{
    if es.len() == 0 {
        Seq::empty()
    } else {
        exprs_model(es.drop_last()).push(expr_model(es.last()))
    }
}

/// The models of a list of arms.
pub open spec fn arms_model(arms: Seq<MatchArm>) -> Seq<ArmV>
    decreases arms, 1nat,
{
    if arms.len() == 0 {
        Seq::empty()
    } else {
        arms_model(arms.drop_last()).push(ArmV { pattern: arms.last().pattern, expr: expr_model(arms.last().expr) })
    }
}

impl View for Expr {
    type V = ExprV;

    open spec fn view(&self) -> ExprV {
        expr_model(*self)
    }
}

impl View for MatchArm {
    type V = ArmV;

    open spec fn view(&self) -> ArmV {
        ArmV { pattern: self.pattern, expr: self.expr@ }
    }
}

impl View for Stmt {
    type V = StmtV;

    open spec fn view(&self) -> StmtV {
        match self {
            Stmt::Let { name, mutable, expr } => StmtV::Let { name: *name, mutable: *mutable, expr: expr@ },
            Stmt::Fn { name, params, body } => StmtV::Fn { name: *name, params: params@, body: body@ },
            Stmt::Assign { name, expr } => StmtV::Assign { name: *name, expr: expr@ },
            Stmt::Expr(e) => StmtV::Expr(e@),
        }
    }
}

/// The models of a list of statements.
pub open spec fn stmts_view(ss: Seq<Stmt>) -> Seq<StmtV> {
    Seq::new(ss.len(), |i: int| ss[i]@)
}

/// The expression holds no `|>` operator node (the parser never builds one).
pub open spec fn pipe_free(e: ExprV) -> bool
    decreases e, 0nat,
{
    match e {
        ExprV::Unary { op, expr } => pipe_free(*expr),
        ExprV::Binary { left, op, right } => op != BinaryOp::Pipe && pipe_free(*left) && pipe_free(*right),
        ExprV::Lambda { params, body } => pipe_free(*body),
        ExprV::Call { callee, args } => pipe_free(*callee) && all_pipe_free(args),
        ExprV::Match { value, arms } => pipe_free(*value) && arms_pipe_free(arms),
        _ => true,
    }
}

pub open spec fn all_pipe_free(es: Seq<ExprV>) -> bool
    decreases es, 1nat,
{
    if es.len() == 0 {
        true
    } else {
        all_pipe_free(es.drop_last()) && pipe_free(es.last())
    }
}

pub open spec fn arms_pipe_free(arms: Seq<ArmV>) -> bool
    decreases arms, 1nat,
{
    if arms.len() == 0 {
        true
    } else {
        arms_pipe_free(arms.drop_last()) && pipe_free(arms.last().expr)
    }
}

pub open spec fn stmt_pipe_free(s: StmtV) -> bool {
    match s {
        StmtV::Let { name, mutable, expr } => pipe_free(expr),
        StmtV::Fn { name, params, body } => pipe_free(body),
        StmtV::Assign { name, expr } => pipe_free(expr),
        StmtV::Expr(e) => pipe_free(e),
    }
}

/// No statement holds a `|>` operator node.
pub open spec fn program_pipe_free(ss: Seq<StmtV>) -> bool {
    forall|i: int| 0 <= i < ss.len() ==> stmt_pipe_free(#[trigger] ss[i])
}

pub proof fn lemma_all_pipe_free_concat(a: Seq<ExprV>, b: Seq<ExprV>)
    requires
        all_pipe_free(a),
        all_pipe_free(b),
    ensures
        all_pipe_free(a + b),
    decreases b.len(),
{
    if b.len() == 0 {
        assert(a + b =~= a);
    } else {
        lemma_all_pipe_free_concat(a, b.drop_last());
        assert((a + b).drop_last() =~= a + b.drop_last());
    }
}

/// The model of a list has one element per item, each the item's model.
pub proof fn lemma_exprs_model_index(es: Seq<Expr>)
    ensures
        exprs_model(es).len() == es.len(),
        forall|i: int| 0 <= i < es.len() ==> #[trigger] exprs_model(es)[i] == es[i]@,
    decreases es.len(),
{
    if es.len() > 0 {
        lemma_exprs_model_index(es.drop_last());
    }
}

pub proof fn lemma_arms_model_index(arms: Seq<MatchArm>)
    ensures
        arms_model(arms).len() == arms.len(),
        forall|i: int| 0 <= i < arms.len() ==> #[trigger] arms_model(arms)[i] == arms[i]@,
    decreases arms.len(),
{
    if arms.len() > 0 {
        lemma_arms_model_index(arms.drop_last());
    }
}

pub proof fn lemma_all_pipe_free_index(es: Seq<ExprV>)
    requires
        all_pipe_free(es),
    ensures
        forall|i: int| 0 <= i < es.len() ==> pipe_free(#[trigger] es[i]),
    decreases es.len(),
{
    if es.len() > 0 {
        lemma_all_pipe_free_index(es.drop_last());
        assert forall|i: int| 0 <= i < es.len() implies pipe_free(#[trigger] es[i]) by {
            if i < es.len() - 1 {
                assert(es[i] == es.drop_last()[i]);
            }
        }
    }
}

pub proof fn lemma_arms_pipe_free_index(arms: Seq<ArmV>)
    requires
        arms_pipe_free(arms),
    ensures
        forall|i: int| 0 <= i < arms.len() ==> pipe_free(#[trigger] arms[i].expr),
    decreases arms.len(),
{
    if arms.len() > 0 {
        lemma_arms_pipe_free_index(arms.drop_last());
        assert forall|i: int| 0 <= i < arms.len() implies pipe_free(#[trigger] arms[i].expr) by {
            if i < arms.len() - 1 {
                assert(arms[i] == arms.drop_last()[i]);
            }
        }
    }
}

/// Two lists of expressions with the same models item by item have the same model.
pub proof fn lemma_exprs_model_ext(a: Seq<Expr>, b: Seq<Expr>)
    requires
        a.len() == b.len(),
        forall|i: int| 0 <= i < a.len() ==> (#[trigger] a[i])@ == b[i]@,
    ensures
        exprs_model(a) == exprs_model(b),
{
    lemma_exprs_model_index(a);
    lemma_exprs_model_index(b);
    assert(exprs_model(a) =~= exprs_model(b));
}

pub proof fn lemma_arms_model_ext(a: Seq<MatchArm>, b: Seq<MatchArm>)
    requires
        a.len() == b.len(),
        forall|i: int| 0 <= i < a.len() ==> (#[trigger] a[i])@ == b[i]@,
    ensures
        arms_model(a) == arms_model(b),
{
    lemma_arms_model_index(a);
    lemma_arms_model_index(b);
    assert(arms_model(a) =~= arms_model(b));
}

impl Pattern {
    /// A copy of the pattern.
    pub fn duplicate(&self) -> (r: Pattern)
        ensures
            r == *self,
        decreases self,
    {
        match self {
            Pattern::Wildcard => Pattern::Wildcard,
            Pattern::Ident(n) => Pattern::Ident(n.clone()),
            Pattern::NonePat => Pattern::NonePat,
            Pattern::SomePat(p) => Pattern::SomePat(Box::new((**p).duplicate())),
            Pattern::OkPat(p) => Pattern::OkPat(Box::new((**p).duplicate())),
            Pattern::ErrPat(p) => Pattern::ErrPat(Box::new((**p).duplicate())),
        }
    }
}

/// A copy of a list of names.
pub fn duplicate_names(names: &Vec<String>) -> (r: Vec<String>)
    ensures
        r@ == names@,
{
    let mut r: Vec<String> = Vec::new();
    let mut i: usize = 0;
    while i < names.len()
        invariant
            i <= names@.len(),
            r@ == names@.take(i as int),
        decreases names@.len() - i,
    {
        r.push(names[i].clone());
        proof {
            assert(names@.take(i + 1) =~= names@.take(i as int).push(names@[i as int]));
        }
        i = i + 1;
    }
    proof {
        assert(names@.take(names@.len() as int) =~= names@);
    }
    r
}

impl Expr {
    /// A copy of the expression: same model.
    pub fn duplicate(&self) -> (r: Expr)
        ensures
            r@ == self@,
        decreases self,
    {
        match self {
            Expr::Int(n) => Expr::Int(*n),
            Expr::Float(t) => Expr::Float(t.clone()),
            Expr::Bool(b) => Expr::Bool(*b),
            Expr::Str(t) => Expr::Str(t.clone()),
            Expr::NoneLit => Expr::NoneLit,
            Expr::Ident(n) => Expr::Ident(n.clone()),
            Expr::Unary { op, expr } => Expr::Unary { op: *op, expr: Box::new((**expr).duplicate()) },
            Expr::Binary { left, op, right } => Expr::Binary {
                left: Box::new((**left).duplicate()),
                op: *op,
                right: Box::new((**right).duplicate()),
            },
            Expr::Lambda { params, body } => Expr::Lambda {
                params: duplicate_names(params),
                body: Box::new((**body).duplicate()),
            },
            Expr::Call { callee, args } => {
                let c = (**callee).duplicate();
                let mut out: Vec<Expr> = Vec::new();
                let mut i: usize = 0;
                while i < args.len()
                    invariant
                        i <= args@.len(),
                        out@.len() == i,
                        forall|j: int| 0 <= j < i ==> (#[trigger] out@[j])@ == args@[j]@,
                        *self == (Expr::Call { callee: *callee, args: *args }),
                    decreases args@.len() - i,
                {
                    proof {
                        assert(decreases_to!(*self => self->Call_args));
                        assert(decreases_to!(*args => args@));
                        assert(decreases_to!(args@ => args@[i as int]));
                        assert(decreases_to!(*self => args@[i as int]));
                    }
                    let d = args[i].duplicate();
                    out.push(d);
                    i = i + 1;
                }
                proof {
                    lemma_exprs_model_ext(out@, args@);
                }
                Expr::Call { callee: Box::new(c), args: out }
            },
            Expr::Match { value, arms } => {
                let v = (**value).duplicate();
                let mut out: Vec<MatchArm> = Vec::new();
                let mut i: usize = 0;
                while i < arms.len()
                    invariant
                        i <= arms@.len(),
                        out@.len() == i,
                        forall|j: int| 0 <= j < i ==> (#[trigger] out@[j])@ == arms@[j]@,
                        *self == (Expr::Match { value: *value, arms: *arms }),
                    decreases arms@.len() - i,
                {
                    proof {
                        assert(decreases_to!(*self => self->Match_arms));
                        assert(decreases_to!(*arms => arms@));
                        assert(decreases_to!(arms@ => arms@[i as int]));
                        assert(decreases_to!(arms@[i as int] => arms@[i as int].expr));
                        assert(decreases_to!(*self => arms@[i as int].expr));
                    }
                    let e = arms[i].expr.duplicate();
                    out.push(MatchArm { pattern: arms[i].pattern.duplicate(), expr: e });
                    i = i + 1;
                }
                proof {
                    lemma_arms_model_ext(out@, arms@);
                }
                Expr::Match { value: Box::new(v), arms: out }
            },
        }
    }
}

impl Clone for Pattern {
    fn clone(&self) -> (r: Self)
        ensures
            r == *self,
    {
        self.duplicate()
    }
}

impl Clone for Expr {
    fn clone(&self) -> (r: Self)
        ensures
            r@ == self@,
    {
        self.duplicate()
    }
}

impl Clone for MatchArm {
    fn clone(&self) -> (r: Self)
        ensures
            r@ == self@,
    {
        MatchArm { pattern: self.pattern.duplicate(), expr: self.expr.duplicate() }
    }
}

impl Clone for Stmt {
    fn clone(&self) -> (r: Self)
        ensures
            r@ == self@,
    {
        match self {
            Stmt::Let { name, mutable, expr } => Stmt::Let { name: name.clone(), mutable: *mutable, expr: expr.duplicate() },
            Stmt::Fn { name, params, body } => Stmt::Fn {
                name: name.clone(),
                params: duplicate_names(params),
                body: body.duplicate(),
            },
            Stmt::Assign { name, expr } => Stmt::Assign { name: name.clone(), expr: expr.duplicate() },
            Stmt::Expr(e) => Stmt::Expr(e.duplicate()),
        }
    }
}

} // verus!
