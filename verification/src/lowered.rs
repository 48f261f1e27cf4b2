//! Lowered body IR: the typed statements that planning produces and the
//! renderer turns into Go text.

use vstd::prelude::*;
use crate::values::{GoExpression, ValuePlan};

verus! {

broadcast use vstd::std_specs::vec::axiom_vec_decreases_to_view;

/// Destination for a lowered block's tail.
pub enum PlacePlan {
    Statement,
    Return,
    /// Assignment to a local.
    Assign { local: String },
}

impl PlacePlan {
    pub fn is_return(&self) -> (r: bool)
        ensures
            r == (*self is Return),
    {
        matches!(self, PlacePlan::Return)
    }
}

pub struct LoweredBlock {
    pub statements: Vec<LoweredStatement>,
}

#[derive(Clone, Copy, PartialEq, Eq, Structural)]
pub struct LoopId(pub u32);

pub enum LoopTransfer {
    Unlabeled,
    Source(LoopId),
    Labeled(String),
}

pub enum LoweredStatement {
    If(IfPlan),
    Loop(LoopPlan),
    Block(LoweredBlock),
    /// A nested block rendered without adding braces.
    Body(LoweredBlock),
    Break(LoopTransfer),
    Continue(LoopTransfer),
    Const(ConstPlan),
    Return(ReturnForm),
    BreakValue(BreakValuePlan),
    Let(LetPlan),
    Assign(AssignForm),
    Expression(ExpressionStatementForm),
    Select(SelectStatementPlan),
    Switch(SwitchStatementPlan),
    WhileLet(LoweredBlock),
    /// Eval-order temp capture: `name := value`.
    TempBind { name: String, value: String },
    /// `var name go_type` (with `= value` when `value` is set).
    VarDecl { name: String, go_type: String, value: Option<String> },
    /// `name := <closure_open><body><closure_close>`.
    ClosureBind { name: String, closure_open: String, body: LoweredBlock, closure_close: String },
    /// A statement preceded by a sourcemap `//line` directive.
    Directed { directive: String, inner: Box<LoweredStatement> },
    RawGo(String),
    /// Raw Go whose tail diverges (a never-typed call such as `panic(...)`).
    DivergingRawGo(String),
    /// `panic("unreachable")` tail after a non-exhaustive branch in return position.
    UnreachablePanic,
}

/// A source `const` (or `var` when the value is not Go-const-eligible).
pub struct ConstPlan {
    pub is_const: bool,
    pub name: String,
    pub ty_str: String,
    pub value: ValuePlan,
}

/// A source `return expr` statement.
pub enum ReturnForm {
    Plain { value: ValuePlan },
    /// Bare `return` for a unit-typed function, after an optional side effect.
    Unit { side_effect: Option<LoweredBlock> },
    /// `return v0, v1, ...`.
    Multi { values: Vec<String> },
    /// An already-lowered return sequence.
    Body { body: LoweredBlock },
}

/// A `break value` statement.
pub enum BreakValuePlan {
    Diverged { value: ValuePlan },
    Transfer { value: ValuePlan, action: BreakValueAction, target: LoopTransfer },
}

/// What to do with a non-diverging `break value` after its setup has run.
pub enum BreakValueAction {
    UnitCallIntoResult { result_var: String },
    AssignToResult { result_var: String },
    Discard,
}

/// A lowered `let` binding.
pub struct LetPlan {
    pub declaration: Option<Box<LoweredStatement>>,
    pub body: LoweredBlock,
}

/// An assignment statement.
pub enum AssignForm {
    /// `target++`, `target--`, or `target op= rhs`.
    Compound { target_capture: Vec<LoweredStatement>, target_str: String, kind: CompoundKind },
    /// `target = value`.
    Simple { target_capture: Vec<LoweredStatement>, target_str: String, value: ValuePlan },
}

pub enum CompoundKind {
    Increment,
    Decrement,
    /// `target op= rhs`, or `target = pinned_left op rhs`.
    OpAssign { op_text: String, rhs: ValuePlan, pinned_left: Option<String> },
}

/// A bare expression statement.
pub enum ExpressionStatementForm {
    /// `go <value>` / `defer <value>` at statement position.
    Async { value: ValuePlan },
    /// `<keyword> func() { <body> }()`.
    AsyncBlock { keyword: String, body: LoweredBlock },
}

/// A `switch` statement.
pub struct SwitchStatementPlan {
    pub kind: SwitchKind,
    pub cases: Vec<SwitchCasePlan>,
    pub default: Option<LoweredBlock>,
    /// Statements after the switch, such as an unreachable panic.
    pub postlude: Vec<LoweredStatement>,
}

pub enum SwitchKind {
    Conditional,
    /// `switch <subject> {`
    Value { subject: String },
    /// `switch <binding> := <subject>.(type) {`, or without a binding.
    Type { subject: String, binding: Option<String> },
}

/// A single `case <labels>:` plus its body.
pub struct SwitchCasePlan {
    pub labels: String,
    pub body: LoweredBlock,
}

/// A `select` statement.
pub struct SelectStatementPlan {
    pub setup: Vec<LoweredStatement>,
    /// When set, the `select` is wrapped in `for { ... break }` for retry.
    pub retry_loop: bool,
    pub arms: Vec<SelectArmPlan>,
    pub postlude: Vec<LoweredStatement>,
}

/// A single `select` arm.
pub enum SelectArmPlan {
    Receive { receive_vars: Option<String>, channel: String, body: LoweredBlock },
    Send { operation: GoExpression, body: LoweredBlock },
    Default { body: LoweredBlock },
}

/// A statement-position loop.
pub struct LoopPlan {
    pub prologue: Vec<LoweredStatement>,
    pub kind: LoopKind,
    pub header: String,
    pub body: LoweredBlock,
}

pub enum LoopKind {
    Source { label: Option<String> },
    Generated { label: Option<String> },
}

pub struct IfPlan {
    pub condition_setup: Vec<LoweredStatement>,
    pub condition: String,
    pub then_body: LoweredBlock,
    pub else_arm: ElseArm,
}

pub enum ElseArm {
    /// No `else` arm.
    NoElse,
    ElseIf(Box<IfPlan>),
    /// `inline`: the preceding branch diverges, so the body follows `}` unwrapped.
    Else { body: LoweredBlock, inline: bool },
}

/// Wraps `stmt` in a sourcemap directive unless the directive is empty.
pub fn directed(directive: String, stmt: LoweredStatement) -> (r: LoweredStatement)
    ensures
        directive@.len() == 0 ==> r == stmt,
        directive@.len() > 0 ==> r == (LoweredStatement::Directed {
            directive,
            inner: Box::new(stmt),
        }),
{
    if directive.as_str().is_empty() {
        stmt
    } else {
        LoweredStatement::Directed { directive, inner: Box::new(stmt) }
    }
}

impl LoopKind {
    pub fn label(&self) -> (r: Option<&str>)
        ensures
            match self {
                LoopKind::Source { label } | LoopKind::Generated { label } => match label {
                    Some(l) => r matches Some(x) && x@ == l@,
                    None => r is None,
                },
            },
    {
        match self {
            LoopKind::Source { label } | LoopKind::Generated { label } => match label {
                Some(l) => Some(l.as_str()),
                None => None,
            },
        }
    }
}

impl SelectArmPlan {
    pub open spec fn spec_body(self) -> LoweredBlock {
        match self {
            SelectArmPlan::Receive { body, .. } => body,
            SelectArmPlan::Send { body, .. } => body,
            SelectArmPlan::Default { body } => body,
        }
    }

    pub fn body(&self) -> (r: &LoweredBlock)
        ensures
            *r == self.spec_body(),
    {
        match self {
            SelectArmPlan::Receive { body, .. }
            | SelectArmPlan::Send { body, .. }
            | SelectArmPlan::Default { body } => body,
        }
    }

    /// This arm with its body replaced by `b`.
    pub open spec fn with_body(self, b: LoweredBlock) -> SelectArmPlan {
        match self {
            SelectArmPlan::Receive { receive_vars, channel, .. } => SelectArmPlan::Receive {
                receive_vars,
                channel,
                body: b,
            },
            SelectArmPlan::Send { operation, .. } => SelectArmPlan::Send { operation, body: b },
            SelectArmPlan::Default { .. } => SelectArmPlan::Default { body: b },
        }
    }

    pub fn body_mut(&mut self) -> (r: &mut LoweredBlock)
        ensures
            *r == old(self).spec_body(),
            *final(self) == old(self).with_body(*final(r)),
    {
        match self {
            SelectArmPlan::Receive { body, .. } => body,
            SelectArmPlan::Send { body, .. } => body,
            SelectArmPlan::Default { body } => body,
        }
    }
}


/// Whether the statement's last rendered line is `break`, `continue`,
/// `return`, or `panic(...)`.
pub open spec fn stmt_diverges(s: LoweredStatement) -> bool
    decreases s,
{
    match s {
        LoweredStatement::If(p) => if_diverges(p),
        LoweredStatement::Loop(_) | LoweredStatement::Block(_) | LoweredStatement::Const(_) => false,
        LoweredStatement::Body(b) => block_diverges(b),
        LoweredStatement::Break(_) | LoweredStatement::Continue(_) => true,
        LoweredStatement::Return(_) => true,
        LoweredStatement::BreakValue(_) => true,
        LoweredStatement::Let(p) => block_diverges(p.body),
        LoweredStatement::Assign(_) => false,
        LoweredStatement::Expression(_) => false,
        LoweredStatement::Select(p) => (p.postlude@.len() > 0 && stmt_diverges(
            p.postlude@[p.postlude@.len() - 1],
        )) || arms_all_diverge(p.arms@),
        LoweredStatement::Switch(p) => p.postlude@.len() > 0 && stmt_diverges(
            p.postlude@[p.postlude@.len() - 1],
        ),
        LoweredStatement::WhileLet(b) => block_diverges(b),
        LoweredStatement::TempBind { .. } | LoweredStatement::VarDecl { .. }
        | LoweredStatement::ClosureBind { .. } => false,
        LoweredStatement::Directed { inner, .. } => stmt_diverges(*inner),
        LoweredStatement::RawGo(_) => false,
        LoweredStatement::DivergingRawGo(_) | LoweredStatement::UnreachablePanic => true,
    }
}

/// Whether the block's last statement diverges.
pub open spec fn block_diverges(b: LoweredBlock) -> bool
    decreases b,
{
    b.statements@.len() > 0 && stmt_diverges(b.statements@[b.statements@.len() - 1])
}

/// Whether every branch of an `if` diverges.
pub open spec fn if_diverges(p: IfPlan) -> bool
    decreases p,
{
    block_diverges(p.then_body) && match p.else_arm {
        ElseArm::NoElse => false,
        ElseArm::ElseIf(inner) => inner.condition_setup@.len() == 0 && if_diverges(*inner),
        ElseArm::Else { body, .. } => block_diverges(body),
    }
}

/// Whether there are arms and every arm's body diverges.
pub open spec fn arms_all_diverge(arms: Seq<SelectArmPlan>) -> bool
    decreases arms,
{
    arms.len() > 0 && forall|i: int|
        0 <= i < arms.len() ==> {
            proof {
                assert(decreases_to!(arms => arms[i]));
            }
            block_diverges(#[trigger] arms[i].spec_body())
        }
}

/// Whether the statement renders any text.
pub open spec fn stmt_emits(s: LoweredStatement) -> bool
    decreases s,
{
    match s {
        LoweredStatement::If(_) | LoweredStatement::Loop(_) | LoweredStatement::Block(_)
        | LoweredStatement::Break(_) | LoweredStatement::Continue(_) | LoweredStatement::Const(_)
        | LoweredStatement::Select(_) | LoweredStatement::Switch(_)
        | LoweredStatement::TempBind { .. } | LoweredStatement::VarDecl { .. }
        | LoweredStatement::ClosureBind { .. } | LoweredStatement::UnreachablePanic => true,
        LoweredStatement::Body(b) => !renders_empty(b),
        LoweredStatement::Return(plan) => match plan {
            ReturnForm::Body { body } => !renders_empty(body),
            _ => true,
        },
        LoweredStatement::BreakValue(plan) => match plan {
            BreakValuePlan::Diverged { value } => any_emits(value.setup@),
            BreakValuePlan::Transfer { .. } => true,
        },
        LoweredStatement::Let(plan) => plan.declaration is Some || !renders_empty(plan.body),
        LoweredStatement::Assign(_) => true,
        LoweredStatement::Expression(plan) => match plan {
            ExpressionStatementForm::Async { value } => value.expression.rendered@.len() > 0
                || any_emits(value.setup@),
            ExpressionStatementForm::AsyncBlock { .. } => true,
        },
        LoweredStatement::WhileLet(b) => !renders_empty(b),
        LoweredStatement::Directed { directive, inner } => directive@.len() > 0 || stmt_emits(*inner),
        LoweredStatement::RawGo(code) | LoweredStatement::DivergingRawGo(code) => code@.len() > 0,
    }
}

/// Whether some statement renders text.
pub open spec fn any_emits(stmts: Seq<LoweredStatement>) -> bool
    decreases stmts,
{
    exists|i: int|
        0 <= i < stmts.len() && {
            proof {
                assert(decreases_to!(stmts => stmts[i]));
            }
            stmt_emits(#[trigger] stmts[i])
        }
}

/// Whether the block renders no text.
pub open spec fn renders_empty(b: LoweredBlock) -> bool
    decreases b,
{
    !any_emits(b.statements@)
}

/// The Go name a statement binds, seeing through a sourcemap directive.
pub open spec fn bound_name(s: LoweredStatement) -> Option<Seq<char>>
    decreases s,
{
    match s {
        LoweredStatement::Directed { inner, .. } => bound_name(*inner),
        LoweredStatement::TempBind { name, .. } => Some(name@),
        LoweredStatement::ClosureBind { name, .. } => Some(name@),
        LoweredStatement::VarDecl { name, value: Some(_), .. } => Some(name@),
        _ => None,
    }
}

/// `after` is `before` with its bound name replaced by `name`.
pub open spec fn renamed(before: LoweredStatement, after: LoweredStatement, name: Seq<char>) -> bool
    decreases before,
{
    match (before, after) {
        (
            LoweredStatement::Directed { directive: d1, inner: i1 },
            LoweredStatement::Directed { directive: d2, inner: i2 },
        ) => d1 == d2 && renamed(*i1, *i2, name),
        (
            LoweredStatement::TempBind { value: v1, .. },
            LoweredStatement::TempBind { name: n2, value: v2 },
        ) => v1 == v2 && n2@ == name,
        (
            LoweredStatement::ClosureBind { closure_open: o1, body: b1, closure_close: c1, .. },
            LoweredStatement::ClosureBind { name: n2, closure_open: o2, body: b2, closure_close: c2 },
        ) => o1 == o2 && b1 == b2 && c1 == c2 && n2@ == name,
        (
            LoweredStatement::VarDecl { go_type: t1, value: v1, .. },
            LoweredStatement::VarDecl { name: n2, go_type: t2, value: v2 },
        ) => t1 == t2 && v1 == v2 && v1 is Some && n2@ == name,
        _ => false,
    }
}

/// Whether the statement ends its block's fallthrough (a `while let` loop
/// never does).
pub open spec fn blocks_fallthrough(s: LoweredStatement) -> bool
    decreases s,
{
    match s {
        LoweredStatement::Directed { inner, .. } => blocks_fallthrough(*inner),
        LoweredStatement::WhileLet(_) => false,
        _ => stmt_diverges(s),
    }
}

impl LoweredBlock {
    /// Whether the block's last rendered line is `break`, `continue`,
    /// `return`, or `panic(...)`.
    pub fn ends_with_diverge(&self) -> (r: bool)
        ensures
            r == block_diverges(*self),
        decreases *self, 0int,
    {
        let n = self.statements.len();
        if n == 0 {
            return false;
        }
        proof {
            assert(decreases_to!(self.statements => self.statements@));
            assert(decreases_to!(self.statements@ => self.statements@[n - 1]));
        }
        self.statements[n - 1].ends_with_diverge()
    }

    /// Whether the block has no statements.
    pub fn is_empty(&self) -> (r: bool)
        ensures
            r == (self.statements@.len() == 0),
    {
        self.statements.len() == 0
    }

    /// Whether the block renders no text.
    pub fn renders_empty(&self) -> (r: bool)
        ensures
            r == renders_empty(*self),
        decreases *self, 0int,
    {
        let mut i: usize = 0;
        while i < self.statements.len()
            invariant
                i <= self.statements@.len(),
                forall|j: int| 0 <= j < i ==> !stmt_emits(#[trigger] self.statements@[j]),
            decreases self.statements.len() - i,
        {
            proof {
                assert(decreases_to!(self.statements => self.statements@));
                assert(decreases_to!(self.statements@ => self.statements@[i as int]));
            }
            if self.statements[i].emits_output() {
                return false;
            }
            i = i + 1;
        }
        true
    }
}

/// Whether some statement of `stmts` renders text.
fn any_emits_output(stmts: &Vec<LoweredStatement>) -> (r: bool)
    ensures
        r == any_emits(stmts@),
    decreases stmts@, 1int,
{
    let mut i: usize = 0;
    while i < stmts.len()
        invariant
            i <= stmts@.len(),
            forall|j: int| 0 <= j < i ==> !stmt_emits(#[trigger] stmts@[j]),
        decreases stmts.len() - i,
    {
        proof {
            assert(decreases_to!(stmts@ => stmts@[i as int]));
        }
        if stmts[i].emits_output() {
            return true;
        }
        i = i + 1;
    }
    false
}

impl LoweredStatement {
    /// The Go name this statement binds, seeing through a sourcemap directive.
    pub fn bound_name(&self) -> (r: Option<&str>)
        ensures
            match r {
                Some(n) => bound_name(*self) == Some(n@),
                None => bound_name(*self) is None,
            },
        decreases self,
    {
        match self {
            LoweredStatement::Directed { inner, .. } => inner.bound_name(),
            LoweredStatement::TempBind { name, .. }
            | LoweredStatement::ClosureBind { name, .. }
            | LoweredStatement::VarDecl { name, value: Some(_), .. } => Some(name.as_str()),
            _ => None,
        }
    }

    pub fn binds_name(&self, go_name: &str) -> (r: bool)
        ensures
            r == (bound_name(*self) == Some(go_name@)),
    {
        match self.bound_name() {
            Some(n) => crate::text::str_eq(n, go_name),
            None => false,
        }
    }

    /// Renames the Go name this statement binds; `false` when it binds nothing.
    pub fn rename_bound_name(&mut self, go_name: &str) -> (r: bool)
        ensures
            r == (bound_name(*old(self)) is Some),
            r ==> renamed(*old(self), *final(self), go_name@),
            r ==> bound_name(*final(self)) == Some(go_name@),
            !r ==> *final(self) == *old(self),
        decreases *old(self),
    {
        match self {
            LoweredStatement::Directed { inner, .. } => {
                let r = inner.rename_bound_name(go_name);
                r
            },
            LoweredStatement::TempBind { name, .. } => {
                *name = crate::text::owned(go_name);
                true
            },
            LoweredStatement::ClosureBind { name, .. } => {
                *name = crate::text::owned(go_name);
                true
            },
            LoweredStatement::VarDecl { name, value: Some(_), .. } => {
                *name = crate::text::owned(go_name);
                true
            },
            _ => false,
        }
    }

    /// Whether the statement renders any text.
    pub fn emits_output(&self) -> (r: bool)
        ensures
            r == stmt_emits(*self),
        decreases *self, 1int,
    {
        match self {
            LoweredStatement::If(_)
            | LoweredStatement::Loop(_)
            | LoweredStatement::Block(_)
            | LoweredStatement::Break(_)
            | LoweredStatement::Continue(_)
            | LoweredStatement::Const(_)
            | LoweredStatement::Select(_)
            | LoweredStatement::Switch(_)
            | LoweredStatement::TempBind { .. }
            | LoweredStatement::VarDecl { .. }
            | LoweredStatement::ClosureBind { .. }
            | LoweredStatement::UnreachablePanic => true,
            LoweredStatement::Body(body) => !body.renders_empty(),
            LoweredStatement::Return(plan) => match plan {
                ReturnForm::Body { body } => !body.renders_empty(),
                ReturnForm::Plain { .. } | ReturnForm::Unit { .. } | ReturnForm::Multi { .. } => true,
            },
            LoweredStatement::BreakValue(plan) => match plan {
                BreakValuePlan::Diverged { value } => any_emits_output(&value.setup),
                BreakValuePlan::Transfer { .. } => true,
            },
            LoweredStatement::Let(plan) => plan.declaration.is_some() || !plan.body.renders_empty(),
            LoweredStatement::Assign(_) => true,
            LoweredStatement::Expression(plan) => match plan {
                ExpressionStatementForm::Async { value } => !value.expression.rendered.as_str().is_empty()
                    || any_emits_output(&value.setup),
                ExpressionStatementForm::AsyncBlock { .. } => true,
            },
            LoweredStatement::WhileLet(body) => !body.renders_empty(),
            LoweredStatement::Directed { directive, inner } => !directive.as_str().is_empty()
                || inner.emits_output(),
            LoweredStatement::RawGo(code) | LoweredStatement::DivergingRawGo(code) => !code.as_str().is_empty(),
        }
    }

    /// Whether the statement's last rendered line is `break`, `continue`,
    /// `return`, or `panic(...)`.
    pub fn ends_with_diverge(&self) -> (r: bool)
        ensures
            r == stmt_diverges(*self),
        decreases *self, 1int,
    {
        match self {
            LoweredStatement::If(plan) => plan.ends_with_diverge(),
            LoweredStatement::Loop(_) | LoweredStatement::Block(_) | LoweredStatement::Const(_) => false,
            LoweredStatement::Body(body) => body.ends_with_diverge(),
            LoweredStatement::Break(_) | LoweredStatement::Continue(_) => true,
            LoweredStatement::Return(_) => true,
            LoweredStatement::BreakValue(_) => true,
            LoweredStatement::Let(plan) => plan.body.ends_with_diverge(),
            LoweredStatement::Assign(_) => false,
            LoweredStatement::Expression(_) => false,
            LoweredStatement::Select(plan) => plan.ends_with_diverge(),
            LoweredStatement::Switch(plan) => plan.ends_with_diverge(),
            LoweredStatement::WhileLet(body) => body.ends_with_diverge(),
            LoweredStatement::TempBind { .. }
            | LoweredStatement::VarDecl { .. }
            | LoweredStatement::ClosureBind { .. } => false,
            LoweredStatement::Directed { inner, .. } => inner.ends_with_diverge(),
            LoweredStatement::RawGo(_) => false,
            LoweredStatement::DivergingRawGo(_) | LoweredStatement::UnreachablePanic => true,
        }
    }

    /// Whether the statement ends its block's fallthrough.
    pub fn blocks_fallthrough(&self) -> (r: bool)
        ensures
            r == blocks_fallthrough(*self),
        decreases self,
    {
        if let LoweredStatement::Directed { inner, .. } = self {
            return inner.blocks_fallthrough();
        }
        !matches!(self, LoweredStatement::WhileLet(_)) && self.ends_with_diverge()
    }
}

impl SwitchStatementPlan {
    pub fn ends_with_diverge(&self) -> (r: bool)
        ensures
            r == (self.postlude@.len() > 0 && stmt_diverges(
                self.postlude@[self.postlude@.len() - 1],
            )),
        decreases *self, 0int,
    {
        let n = self.postlude.len();
        if n == 0 {
            return false;
        }
        proof {
            assert(decreases_to!(self.postlude => self.postlude@));
            assert(decreases_to!(self.postlude@ => self.postlude@[n - 1]));
        }
        self.postlude[n - 1].ends_with_diverge()
    }
}

impl SelectStatementPlan {
    pub fn ends_with_diverge(&self) -> (r: bool)
        ensures
            r == ((self.postlude@.len() > 0 && stmt_diverges(
                self.postlude@[self.postlude@.len() - 1],
            )) || arms_all_diverge(self.arms@)),
        decreases *self, 1int,
    {
        let n = self.postlude.len();
        if n > 0 {
            proof {
                assert(decreases_to!(self.postlude => self.postlude@));
                assert(decreases_to!(self.postlude@ => self.postlude@[n - 1]));
            }
            if self.postlude[n - 1].ends_with_diverge() {
                return true;
            }
        }
        self.all_arms_diverge()
    }

    /// Whether there are arms and every arm's body diverges.
    pub fn all_arms_diverge(&self) -> (r: bool)
        ensures
            r == arms_all_diverge(self.arms@),
        decreases *self, 0int,
    {
        if self.arms.len() == 0 {
            return false;
        }
        let mut i: usize = 0;
        while i < self.arms.len()
            invariant
                i <= self.arms@.len(),
                forall|j: int| 0 <= j < i ==> block_diverges(#[trigger] self.arms@[j].spec_body()),
            decreases self.arms.len() - i,
        {
            proof {
                assert(decreases_to!(self.arms => self.arms@));
                assert(decreases_to!(self.arms@ => self.arms@[i as int]));
            }
            if !self.arms[i].body().ends_with_diverge() {
                return false;
            }
            i = i + 1;
        }
        true
    }
}

impl IfPlan {
    pub fn ends_with_diverge(&self) -> (r: bool)
        ensures
            r == if_diverges(*self),
        decreases *self, 0int,
    {
        if !self.then_body.ends_with_diverge() {
            return false;
        }
        match &self.else_arm {
            ElseArm::NoElse => false,
            ElseArm::ElseIf(inner) => {
                if inner.condition_setup.len() == 0 {
                    inner.ends_with_diverge()
                } else {
                    false
                }
            },
            ElseArm::Else { body, .. } => body.ends_with_diverge(),
        }
    }
}

impl ElseArm {
    /// An `else` arm with this body, or none when the body renders nothing.
    pub fn from_body(body: LoweredBlock, inline: bool) -> (r: ElseArm)
        ensures
            renders_empty(body) ==> r is NoElse,
            !renders_empty(body) ==> r == (ElseArm::Else { body, inline }),
    {
        if body.renders_empty() {
            return ElseArm::NoElse;
        }
        ElseArm::Else { body, inline }
    }
}

} // verus!
