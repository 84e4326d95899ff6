use vstd::prelude::*;

verus! {

broadcast use vstd::std_specs::vec::group_vec_axioms;

/// A statement of a PiaRao program.
#[derive(Debug, PartialEq)]
pub enum Stmt {
    /// The last expression of a block: its value is the block's value.
    TailReturn(Box<Expr>),
    Return(Box<Expr>),
    /// An expression whose value is dropped.
    Expr(Box<Expr>),
    /// An expression whose value is kept.
    NotPopValueExpr(Box<Expr>),
    /// `let` with the bound name (or the function name and its parameters) and the bound statement.
    Let(Box<Expr>, Box<Node>),
}

/// An expression of a PiaRao program.
#[derive(Debug, PartialEq)]
pub enum Expr {
    Number(i64),
    Float(String),
    String(String),
    Ident(String),
    BinaryOp(Box<Expr>, String, Box<Expr>),
    UnaryOp(String, Box<Expr>),
    Assign(String, Box<Expr>),
    Block(Vec<Node>),
    Call(String, Vec<Expr>),
    DynCall(Box<Expr>, Vec<Expr>),
    Lambda(Vec<String>, Box<Expr>),
    /// The empty expression (not the null value): it yields nothing.
    Null,
    /// A function name followed by its parameter names.
    IdentList(Vec<String>),
    /// Condition, then-branch, else-branch.
    If(Box<Expr>, Box<Expr>, Option<Box<Expr>>),
}

/// A statement with the line and column at which it starts.
#[derive(Debug, PartialEq)]
pub struct Node {
    pub stmt: Stmt,
    pub l: usize,
    pub c: usize,
}

/// A whole program: its top-level statements in order.
#[derive(Debug, PartialEq)]
pub struct Program {
    pub body: Vec<Node>,
}

impl Program {
    /// A program with the given top-level statements.
    pub fn new(body: Vec<Node>) -> (r: Self)
        ensures
            r.body == body,
    {
        Self { body }
    }
}

/// The mathematical form of a statement.
pub enum SpecStmt {
    TailReturn(Box<SpecExpr>),
    Return(Box<SpecExpr>),
    Expr(Box<SpecExpr>),
    NotPopValueExpr(Box<SpecExpr>),
    Let(Box<SpecExpr>, Box<SpecNode>),
}

/// The mathematical form of an expression: text as character sequences.
pub enum SpecExpr {
    Number(i64),
    Float(Seq<char>),
    String(Seq<char>),
    Ident(Seq<char>),
    BinaryOp(Box<SpecExpr>, Seq<char>, Box<SpecExpr>),
    UnaryOp(Seq<char>, Box<SpecExpr>),
    Assign(Seq<char>, Box<SpecExpr>),
    Block(Seq<SpecNode>),
    Call(Seq<char>, Seq<SpecExpr>),
    DynCall(Box<SpecExpr>, Seq<SpecExpr>),
    Lambda(Seq<Seq<char>>, Box<SpecExpr>),
    Null,
    IdentList(Seq<Seq<char>>),
    If(Box<SpecExpr>, Box<SpecExpr>, Option<Box<SpecExpr>>),
}

/// The mathematical form of a statement with its position.
pub struct SpecNode {
    pub stmt: SpecStmt,
    pub l: int,
    pub c: int,
}

/// The mathematical form of a sequence of names.
pub open spec fn strings_view(s: Seq<String>) -> Seq<Seq<char>> {
    s.map_values(|x: String| x@)
}

/// The mathematical form of an expression.
pub open spec fn expr_view(e: Expr) -> SpecExpr
    decreases e,
{
    match e {
        Expr::Number(n) => SpecExpr::Number(n),
        Expr::Float(s) => SpecExpr::Float(s@),
        Expr::String(s) => SpecExpr::String(s@),
        Expr::Ident(s) => SpecExpr::Ident(s@),
        Expr::BinaryOp(a, op, b) => SpecExpr::BinaryOp(
            Box::new(expr_view(*a)),
            op@,
            Box::new(expr_view(*b)),
        ),
        Expr::UnaryOp(op, a) => SpecExpr::UnaryOp(op@, Box::new(expr_view(*a))),
        Expr::Assign(n, a) => SpecExpr::Assign(n@, Box::new(expr_view(*a))),
        Expr::Block(v) => SpecExpr::Block(nodes_view(v@)),
        Expr::Call(n, args) => SpecExpr::Call(n@, exprs_view(args@)),
        Expr::DynCall(f, args) => SpecExpr::DynCall(Box::new(expr_view(*f)), exprs_view(args@)),
        Expr::Lambda(ps, b) => SpecExpr::Lambda(strings_view(ps@), Box::new(expr_view(*b))),
        Expr::Null => SpecExpr::Null,
        Expr::IdentList(ps) => SpecExpr::IdentList(strings_view(ps@)),
        Expr::If(c, t, e) => SpecExpr::If(
            Box::new(expr_view(*c)),
            Box::new(expr_view(*t)),
            match e {
                Some(x) => Some(Box::new(expr_view(*x))),
                None => None,
            },
        ),
    }
}

/// The mathematical form of a sequence of expressions.
pub open spec fn exprs_view(s: Seq<Expr>) -> Seq<SpecExpr>
    decreases s,
{
    if s.len() == 0 {
        seq![]
    } else {
        exprs_view(s.subrange(0, s.len() - 1)).push(expr_view(s[s.len() - 1]))
    }
}

/// The mathematical form of a statement.
pub open spec fn stmt_view(s: Stmt) -> SpecStmt
    decreases s,
{
    match s {
        Stmt::TailReturn(e) => SpecStmt::TailReturn(Box::new(expr_view(*e))),
        Stmt::Return(e) => SpecStmt::Return(Box::new(expr_view(*e))),
        Stmt::Expr(e) => SpecStmt::Expr(Box::new(expr_view(*e))),
        Stmt::NotPopValueExpr(e) => SpecStmt::NotPopValueExpr(Box::new(expr_view(*e))),
        Stmt::Let(a, n) => SpecStmt::Let(Box::new(expr_view(*a)), Box::new(node_view(*n))),
    }
}

/// The mathematical form of a statement with its position.
pub open spec fn node_view(n: Node) -> SpecNode
    decreases n,
{
    SpecNode { stmt: stmt_view(n.stmt), l: n.l as int, c: n.c as int }
}

/// The mathematical form of a sequence of statements.
pub open spec fn nodes_view(s: Seq<Node>) -> Seq<SpecNode>
    decreases s,
{
    if s.len() == 0 {
        seq![]
    } else {
        nodes_view(s.subrange(0, s.len() - 1)).push(node_view(s[s.len() - 1]))
    }
}

impl View for Expr {
    type V = SpecExpr;

    open spec fn view(&self) -> SpecExpr {
        expr_view(*self)
    }
}

impl View for Stmt {
    type V = SpecStmt;

    open spec fn view(&self) -> SpecStmt {
        stmt_view(*self)
    }
}

impl View for Node {
    type V = SpecNode;

    open spec fn view(&self) -> SpecNode {
        node_view(*self)
    }
}

impl View for Program {
    type V = Seq<SpecNode>;

    open spec fn view(&self) -> Seq<SpecNode> {
        nodes_view(self.body@)
    }
}

pub proof fn lemma_exprs_view_push(s: Seq<Expr>, e: Expr)
    ensures
        exprs_view(s.push(e)) == exprs_view(s).push(expr_view(e)),
{
    assert(s.push(e).subrange(0, s.len() as int) =~= s);
}

pub proof fn lemma_nodes_view_push(s: Seq<Node>, n: Node)
    ensures
        nodes_view(s.push(n)) == nodes_view(s).push(node_view(n)),
{
    assert(s.push(n).subrange(0, s.len() as int) =~= s);
}

pub proof fn lemma_exprs_view_len(s: Seq<Expr>)
    ensures
        exprs_view(s).len() == s.len(),
    decreases s.len(),
{
    if s.len() > 0 {
        lemma_exprs_view_len(s.subrange(0, s.len() - 1));
    }
}

pub proof fn lemma_nodes_view_len(s: Seq<Node>)
    ensures
        nodes_view(s).len() == s.len(),
    decreases s.len(),
{
    if s.len() > 0 {
        lemma_nodes_view_len(s.subrange(0, s.len() - 1));
    }
}

/// Element `i` of the mathematical form of a sequence of expressions is the
/// mathematical form of element `i`.
pub proof fn lemma_exprs_view_index(s: Seq<Expr>, i: int)
    requires
        0 <= i < s.len(),
    ensures
        exprs_view(s).len() == s.len(),
        exprs_view(s)[i] == expr_view(s[i]),
    decreases s.len(),
{
    lemma_exprs_view_len(s);
    if i < s.len() - 1 {
        lemma_exprs_view_index(s.subrange(0, s.len() - 1), i);
    }
}

pub proof fn lemma_nodes_view_index(s: Seq<Node>, i: int)
    requires
        0 <= i < s.len(),
    ensures
        nodes_view(s).len() == s.len(),
        nodes_view(s)[i] == node_view(s[i]),
    decreases s.len(),
{
    lemma_nodes_view_len(s);
    if i < s.len() - 1 {
        lemma_nodes_view_index(s.subrange(0, s.len() - 1), i);
    }
}


/// A copy of an expression.
pub fn clone_expr(e: &Expr) -> (r: Expr)
    ensures
        r@ == e@,
    decreases e,
{
    match e {
        Expr::Number(n) => Expr::Number(*n),
        Expr::Float(s) => Expr::Float(s.clone()),
        Expr::String(s) => Expr::String(s.clone()),
        Expr::Ident(s) => Expr::Ident(s.clone()),
        Expr::BinaryOp(a, op, b) => Expr::BinaryOp(
            Box::new(clone_expr(a)),
            op.clone(),
            Box::new(clone_expr(b)),
        ),
        Expr::UnaryOp(op, a) => Expr::UnaryOp(op.clone(), Box::new(clone_expr(a))),
        Expr::Assign(n, a) => Expr::Assign(n.clone(), Box::new(clone_expr(a))),
        Expr::Block(v) => Expr::Block(clone_nodes(v)),
        Expr::Call(n, args) => Expr::Call(n.clone(), clone_exprs(args)),
        Expr::DynCall(f, args) => Expr::DynCall(Box::new(clone_expr(f)), clone_exprs(args)),
        Expr::Lambda(ps, b) => Expr::Lambda(clone_strings(ps), Box::new(clone_expr(b))),
        Expr::Null => Expr::Null,
        Expr::IdentList(ps) => Expr::IdentList(clone_strings(ps)),
        Expr::If(c, t, e) => Expr::If(
            Box::new(clone_expr(c)),
            Box::new(clone_expr(t)),
            match e {
                Some(x) => Some(Box::new(clone_expr(x))),
                None => None,
            },
        ),
    }
}

/// A copy of a sequence of expressions.
pub fn clone_exprs(v: &Vec<Expr>) -> (r: Vec<Expr>)
    ensures
        exprs_view(r@) == exprs_view(v@),
    decreases v,
{
    let mut r: Vec<Expr> = Vec::new();
    let mut i: usize = 0;
    while i < v.len()
        invariant
            i <= v.len(),
            exprs_view(r@) == exprs_view(v@.subrange(0, i as int)),
        decreases v.len() - i,
    {
        let x = clone_expr(&v[i]);
        proof {
            lemma_exprs_view_push(r@, x);
            lemma_exprs_view_push(v@.subrange(0, i as int), v@[i as int]);
            assert(v@.subrange(0, i as int).push(v@[i as int]) =~= v@.subrange(0, i + 1));
        }
        r.push(x);
        i = i + 1;
    }
    assert(v@.subrange(0, v.len() as int) =~= v@);
    r
}

/// A copy of a sequence of names.
pub fn clone_strings(v: &Vec<String>) -> (r: Vec<String>)
    ensures
        r@ == v@,
{
    let mut r: Vec<String> = Vec::new();
    let mut i: usize = 0;
    while i < v.len()
        invariant
            i <= v.len(),
            r@ == v@.subrange(0, i as int),
        decreases v.len() - i,
    {
        r.push(v[i].clone());
        assert(v@.subrange(0, i as int).push(v@[i as int]) =~= v@.subrange(0, i + 1));
        i = i + 1;
    }
    assert(v@.subrange(0, v.len() as int) =~= v@);
    r
}

/// A copy of a statement.
pub fn clone_stmt(s: &Stmt) -> (r: Stmt)
    ensures
        r@ == s@,
    decreases s,
{
    match s {
        Stmt::TailReturn(e) => Stmt::TailReturn(Box::new(clone_expr(e))),
        Stmt::Return(e) => Stmt::Return(Box::new(clone_expr(e))),
        Stmt::Expr(e) => Stmt::Expr(Box::new(clone_expr(e))),
        Stmt::NotPopValueExpr(e) => Stmt::NotPopValueExpr(Box::new(clone_expr(e))),
        Stmt::Let(a, n) => Stmt::Let(Box::new(clone_expr(a)), Box::new(clone_node(n))),
    }
}

/// A copy of a statement with its position.
pub fn clone_node(n: &Node) -> (r: Node)
    ensures
        r@ == n@,
    decreases n,
{
    Node { stmt: clone_stmt(&n.stmt), l: n.l, c: n.c }
}

/// A copy of a sequence of statements.
pub fn clone_nodes(v: &Vec<Node>) -> (r: Vec<Node>)
    ensures
        nodes_view(r@) == nodes_view(v@),
    decreases v,
{
    let mut r: Vec<Node> = Vec::new();
    let mut i: usize = 0;
    while i < v.len()
        invariant
            i <= v.len(),
            nodes_view(r@) == nodes_view(v@.subrange(0, i as int)),
        decreases v.len() - i,
    {
        let x = clone_node(&v[i]);
        proof {
            lemma_nodes_view_push(r@, x);
            lemma_nodes_view_push(v@.subrange(0, i as int), v@[i as int]);
            assert(v@.subrange(0, i as int).push(v@[i as int]) =~= v@.subrange(0, i + 1));
        }
        r.push(x);
        i = i + 1;
    }
    assert(v@.subrange(0, v.len() as int) =~= v@);
    r
}

impl Clone for Expr {
    fn clone(&self) -> (r: Self)
        ensures
            r@ == self@,
    {
        clone_expr(self)
    }
}

impl Clone for Stmt {
    fn clone(&self) -> (r: Self)
        ensures
            r@ == self@,
    {
        clone_stmt(self)
    }
}

impl Clone for Node {
    fn clone(&self) -> (r: Self)
        ensures
            r@ == self@,
    {
        clone_node(self)
    }
}

impl Clone for Program {
    fn clone(&self) -> (r: Self)
        ensures
            r@ == self@,
    {
        Program { body: clone_nodes(&self.body) }
    }
}

} // verus!
