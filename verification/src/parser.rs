//! The program tree, its mathematical model, and the search for comments.

use vstd::prelude::*;

verus! {

/// A whole program: its top-level block.
#[derive(Debug, PartialEq, Eq)]
pub struct Program {
    pub block: Block,
}

/// A sequence of expressions, evaluated in order.
#[derive(Debug, PartialEq, Eq)]
pub struct Block(pub Vec<Expr>);

#[derive(Debug, PartialEq, Eq)]
pub enum Expr {
    Block(Block),
    Ref(Ref),
    Comment(Comment),
    Assignment(Assignment),
    IntLiteral(i128),
    FunctionCall(FunctionCall),
    While(While),
    If(If),
}

/// A comment. With a name it is a string that the program can read and
/// assign; without one it is only a string.
#[derive(Debug, PartialEq, Eq)]
pub struct Comment {
    pub name: Option<String>,
    pub body: String,
}

/// A name, either of a comment (written `#name`) or of a variable.
#[derive(Debug, PartialEq, Eq)]
pub enum Ref {
    CommentRef(String),
    VarRef(String),
}

#[derive(Debug, PartialEq, Eq)]
pub struct Assignment {
    pub target: Ref,
    pub value: Box<Expr>,
}

#[derive(Debug, PartialEq, Eq)]
pub struct FunctionCall {
    pub target: Ref,
    pub args: Vec<Expr>,
}

#[derive(Debug, PartialEq, Eq)]
pub struct While {
    pub cond: Box<Expr>,
    pub body: Block,
}

#[derive(Debug, PartialEq, Eq)]
pub struct If {
    pub cond: Box<Expr>,
    pub body: Block,
}

/// What a [`Ref`] stands for.
pub ghost enum SpecRef {
    CommentRef(Seq<char>),
    VarRef(Seq<char>),
}

/// What a [`Comment`] stands for.
pub ghost struct SpecComment {
    pub name: Option<Seq<char>>,
    pub body: Seq<char>,
}

/// What an [`Expr`] stands for. A block is the sequence of its expressions.
pub ghost enum SpecExpr {
    Block(Seq<SpecExpr>),
    Ref(SpecRef),
    Comment(SpecComment),
    Assignment { target: SpecRef, value: Box<SpecExpr> },
    IntLiteral(int),
    FunctionCall { target: SpecRef, args: Seq<SpecExpr> },
    While { cond: Box<SpecExpr>, body: Seq<SpecExpr> },
    If { cond: Box<SpecExpr>, body: Seq<SpecExpr> },
}

impl View for Ref {
    type V = SpecRef;

    open spec fn view(&self) -> SpecRef {
        match self {
            Ref::CommentRef(name) => SpecRef::CommentRef(name@),
            Ref::VarRef(name) => SpecRef::VarRef(name@),
        }
    }
}

impl View for Comment {
    type V = SpecComment;

    open spec fn view(&self) -> SpecComment {
        SpecComment {
            name: match self.name {
                Some(name) => Some(name@),
                None => None,
            },
            body: self.body@,
        }
    }
}

/// The models of a sequence of expressions, in order.
pub open spec fn exprs_view(exprs: Seq<Expr>) -> Seq<SpecExpr>
    decreases exprs,
{
    if exprs.len() == 0 {
        Seq::empty()
    } else {
        exprs_view(exprs.drop_last()).push(expr_view(exprs.last()))
    }
}

/// The model of one expression.
pub open spec fn expr_view(expr: Expr) -> SpecExpr
    decreases expr,
{
    match expr {
        Expr::Block(block) => SpecExpr::Block(exprs_view(block.0@)),
        Expr::Ref(r) => SpecExpr::Ref(r@),
        Expr::Comment(comment) => SpecExpr::Comment(comment@),
        Expr::Assignment(a) => SpecExpr::Assignment {
            target: a.target@,
            value: Box::new(expr_view(*a.value)),
        },
        Expr::IntLiteral(n) => SpecExpr::IntLiteral(n as int),
        Expr::FunctionCall(call) => SpecExpr::FunctionCall {
            target: call.target@,
            args: exprs_view(call.args@),
        },
        Expr::While(w) => SpecExpr::While {
            cond: Box::new(expr_view(*w.cond)),
            body: exprs_view(w.body.0@),
        },
        Expr::If(i) => SpecExpr::If {
            cond: Box::new(expr_view(*i.cond)),
            body: exprs_view(i.body.0@),
        },
    }
}

/// [`exprs_view`] takes the model of each expression, in place.
pub proof fn lemma_exprs_view(exprs: Seq<Expr>)
    ensures
        exprs_view(exprs).len() == exprs.len(),
        forall|i: int| 0 <= i < exprs.len() ==> #[trigger] exprs_view(exprs)[i] == exprs[i]@,
    decreases exprs.len(),
{
    if exprs.len() > 0 {
        lemma_exprs_view(exprs.drop_last());
    }
}

impl View for Expr {
    type V = SpecExpr;

    open spec fn view(&self) -> SpecExpr {
        expr_view(*self)
    }
}

impl View for Block {
    type V = Seq<SpecExpr>;

    open spec fn view(&self) -> Seq<SpecExpr> {
        exprs_view(self.0@)
    }
}

impl View for Program {
    type V = Seq<SpecExpr>;

    open spec fn view(&self) -> Seq<SpecExpr> {
        self.block@
    }
}

/// A copy of `r`.
pub fn clone_ref(r: &Ref) -> (copy: Ref)
    ensures
        copy@ == r@,
{
    match r {
        Ref::CommentRef(name) => Ref::CommentRef(name.clone()),
        Ref::VarRef(name) => Ref::VarRef(name.clone()),
    }
}

/// A copy of `comment`.
pub fn clone_comment(comment: &Comment) -> (copy: Comment)
    ensures
        copy@ == comment@,
{
    Comment {
        name: match &comment.name {
            Some(name) => Some(name.clone()),
            None => None,
        },
        body: comment.body.clone(),
    }
}

/// Copies of `items`, in order.
pub fn clone_exprs(items: &Vec<Expr>) -> (copies: Vec<Expr>)
    ensures
        exprs_view(copies@) == exprs_view(items@),
    decreases items, 0int,
{
    let mut copies: Vec<Expr> = Vec::new();
    let mut i: usize = 0;
    while i < items.len()
        invariant
            i <= items.len(),
            copies.len() == i,
            forall|j: int| 0 <= j < i ==> (#[trigger] copies@[j])@ == items@[j]@,
        decreases items.len() - i,
    {
        copies.push(clone_expr(&items[i]));
        i += 1;
    }
    proof {
        lemma_exprs_view(items@);
        lemma_exprs_view(copies@);
        assert(exprs_view(copies@) =~= exprs_view(items@));
    }
    copies
}

/// A copy of `expr`.
pub fn clone_expr(expr: &Expr) -> (copy: Expr)
    ensures
        copy@ == expr@,
    decreases expr, 1int,
{
    match expr {
        Expr::Block(block) => Expr::Block(Block(clone_exprs(&block.0))),
        Expr::Ref(r) => Expr::Ref(clone_ref(r)),
        Expr::Comment(comment) => Expr::Comment(clone_comment(comment)),
        Expr::Assignment(a) => Expr::Assignment(
            Assignment { target: clone_ref(&a.target), value: Box::new(clone_expr(&a.value)) },
        ),
        Expr::IntLiteral(n) => Expr::IntLiteral(*n),
        Expr::FunctionCall(call) => Expr::FunctionCall(
            FunctionCall { target: clone_ref(&call.target), args: clone_exprs(&call.args) },
        ),
        Expr::While(w) => Expr::While(
            While { cond: Box::new(clone_expr(&w.cond)), body: Block(clone_exprs(&w.body.0)) },
        ),
        Expr::If(i) => Expr::If(
            If { cond: Box::new(clone_expr(&i.cond)), body: Block(clone_exprs(&i.body.0)) },
        ),
    }
}

impl Clone for Ref {
    fn clone(&self) -> (copy: Self)
        ensures
            copy@ == self@,
    {
        clone_ref(self)
    }
}

impl Clone for Comment {
    fn clone(&self) -> (copy: Self)
        ensures
            copy@ == self@,
    {
        clone_comment(self)
    }
}

impl Clone for Expr {
    fn clone(&self) -> (copy: Self)
        ensures
            copy@ == self@,
    {
        clone_expr(self)
    }
}

impl Clone for Block {
    fn clone(&self) -> (copy: Self)
        ensures
            copy@ == self@,
    {
        Block(clone_exprs(&self.0))
    }
}

impl Clone for Assignment {
    fn clone(&self) -> (copy: Self)
        ensures
            copy.target@ == self.target@,
            copy.value@ == self.value@,
    {
        Assignment { target: clone_ref(&self.target), value: Box::new(clone_expr(&self.value)) }
    }
}

impl Clone for FunctionCall {
    fn clone(&self) -> (copy: Self)
        ensures
            copy.target@ == self.target@,
            exprs_view(copy.args@) == exprs_view(self.args@),
    {
        FunctionCall { target: clone_ref(&self.target), args: clone_exprs(&self.args) }
    }
}

impl Clone for While {
    fn clone(&self) -> (copy: Self)
        ensures
            copy.cond@ == self.cond@,
            copy.body@ == self.body@,
    {
        While { cond: Box::new(clone_expr(&self.cond)), body: Block(clone_exprs(&self.body.0)) }
    }
}

impl Clone for If {
    fn clone(&self) -> (copy: Self)
        ensures
            copy.cond@ == self.cond@,
            copy.body@ == self.body@,
    {
        If { cond: Box::new(clone_expr(&self.cond)), body: Block(clone_exprs(&self.body.0)) }
    }
}

impl Clone for Program {
    fn clone(&self) -> (copy: Self)
        ensures
            copy@ == self@,
    {
        Program { block: Block(clone_exprs(&self.block.0)) }
    }
}

/// The comments of an expression, in the order in which they stand in the
/// program: those of a loop's or a conditional's condition before those of
/// its body.
pub open spec fn expr_comments(expr: SpecExpr) -> Seq<SpecComment>
    decreases expr,
{
    match expr {
        SpecExpr::Block(items) => seq_comments(items),
        SpecExpr::Ref(_) => Seq::empty(),
        SpecExpr::Comment(comment) => seq![comment],
        SpecExpr::Assignment { target, value } => expr_comments(*value),
        SpecExpr::IntLiteral(_) => Seq::empty(),
        SpecExpr::FunctionCall { target, args } => seq_comments(args),
        SpecExpr::While { cond, body } => expr_comments(*cond) + seq_comments(body),
        SpecExpr::If { cond, body } => expr_comments(*cond) + seq_comments(body),
    }
}

/// The comments of a sequence of expressions, in order.
pub open spec fn seq_comments(items: Seq<SpecExpr>) -> Seq<SpecComment>
    decreases items,
{
    if items.len() == 0 {
        Seq::empty()
    } else {
        seq_comments(items.drop_last()) + expr_comments(items.last())
    }
}

/// The models of the comments found.
pub open spec fn comment_views(found: Seq<&Comment>) -> Seq<SpecComment> {
    Seq::new(found.len(), |i: int| found[i]@)
}

/// All comments of a program, named or not, in the order in which they
/// stand in it.
pub fn find_comments(program: &Program) -> (comments: Vec<&Comment>)
    ensures
        comment_views(comments@) == seq_comments(program@),
{
    find_block_comments(&program.block.0)
}

fn find_block_comments(items: &Vec<Expr>) -> (comments: Vec<&Comment>)
    ensures
        comment_views(comments@) == seq_comments(exprs_view(items@)),
    decreases items, 0int,
{
    let mut comments: Vec<&Comment> = Vec::new();
    let mut i: usize = 0;
    proof {
        lemma_exprs_view(items@);
        assert(comment_views(comments@) =~= seq_comments(exprs_view(items@).take(0)));
    }
    while i < items.len()
        invariant
            i <= items.len(),
            exprs_view(items@).len() == items.len(),
            forall|j: int| 0 <= j < items.len() ==> #[trigger] exprs_view(items@)[j] == items@[j]@,
            comment_views(comments@) == seq_comments(exprs_view(items@).take(i as int)),
        decreases items.len() - i,
    {
        let ghost before = comments@;
        let mut found = find_expr_comments(&items[i]);
        let ghost added = found@;
        comments.append(&mut found);
        i += 1;
        proof {
            let models = exprs_view(items@);
            assert(models.take(i as int).drop_last() =~= models.take(i - 1));
            assert(models.take(i as int).last() == items@[i - 1]@);
            assert(comment_views(before + added) =~= comment_views(before) + comment_views(
                added,
            ));
        }
    }
    assert(exprs_view(items@).take(i as int) =~= exprs_view(items@));
    comments
}

fn find_expr_comments(expr: &Expr) -> (comments: Vec<&Comment>)
    ensures
        comment_views(comments@) == expr_comments(expr@),
    decreases expr, 1int,
{
    let mut comments: Vec<&Comment> = Vec::new();
    match expr {
        Expr::Block(block) => {
            comments = find_block_comments(&block.0);
        },
        Expr::Comment(c) => {
            comments.push(c);
            assert(comment_views(comments@) =~= seq![c@]);
        },
        Expr::Assignment(assignment) => {
            comments = find_expr_comments(&assignment.value);
        },
        Expr::FunctionCall(call) => {
            comments = find_block_comments(&call.args);
        },
        Expr::While(w) => {
            comments = find_expr_comments(&w.cond);
            let ghost first = comments@;
            let mut inner = find_block_comments(&w.body.0);
            let ghost second = inner@;
            comments.append(&mut inner);
            assert(comment_views(first + second) =~= comment_views(first) + comment_views(
                second,
            ));
        },
        Expr::If(i) => {
            comments = find_expr_comments(&i.cond);
            let ghost first = comments@;
            let mut inner = find_block_comments(&i.body.0);
            let ghost second = inner@;
            comments.append(&mut inner);
            assert(comment_views(first + second) =~= comment_views(first) + comment_views(
                second,
            ));
        },
        Expr::Ref(_) | Expr::IntLiteral(_) => {
            assert(comment_views(comments@) =~= Seq::<SpecComment>::empty());
        },
    }
    comments
}

} // verus!
