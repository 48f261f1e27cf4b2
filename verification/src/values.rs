//! Planned Go values: rendered expressions with the evaluation facts that
//! decide where they may be read.

use vstd::prelude::*;
use crate::lowered::{LoweredStatement, bound_name};
use crate::names::{is_plain_identifier, plain_identifier};
use crate::text::{push_char, str_eq, seq_join, owned};
use crate::go_type::{render_conversion, conversion_text};

verus! {

/// The syntactic form of a rendered operand.
#[derive(Clone, Copy, PartialEq, Eq, Structural)]
pub enum OperandForm {
    Literal,
    Name,
    Call,
    Other,
}

/// The kind of an untyped Go constant, in increasing rank.
#[derive(Clone, Copy, PartialEq, Eq, Structural)]
pub enum ConstantKind {
    Int,
    Rune,
    Float,
    Complex,
    Bool,
    String,
}

/// The position of a constant kind in the order `Int < Rune < Float <
/// Complex < Bool < String`.
pub open spec fn kind_rank(k: ConstantKind) -> nat {
    match k {
        ConstantKind::Int => 0,
        ConstantKind::Rune => 1,
        ConstantKind::Float => 2,
        ConstantKind::Complex => 3,
        ConstantKind::Bool => 4,
        ConstantKind::String => 5,
    }
}

pub open spec fn numeric_kind(k: ConstantKind) -> bool {
    k is Int || k is Rune || k is Float || k is Complex
}

/// The kind two numeric constants combine to: the higher-ranked one.
pub open spec fn joined_kind(a: ConstantKind, b: ConstantKind) -> Option<ConstantKind> {
    if numeric_kind(a) && numeric_kind(b) {
        Some(if kind_rank(a) >= kind_rank(b) { a } else { b })
    } else {
        None
    }
}

fn rank(k: ConstantKind) -> (r: u8)
    ensures
        r as nat == kind_rank(k),
{
    match k {
        ConstantKind::Int => 0,
        ConstantKind::Rune => 1,
        ConstantKind::Float => 2,
        ConstantKind::Complex => 3,
        ConstantKind::Bool => 4,
        ConstantKind::String => 5,
    }
}

impl ConstantKind {
    pub fn is_numeric(self) -> (r: bool)
        ensures
            r == numeric_kind(self),
    {
        matches!(self, ConstantKind::Int | ConstantKind::Rune | ConstantKind::Float | ConstantKind::Complex)
    }

    /// The kind of an arithmetic result on two numeric constants.
    pub fn join(self, other: Self) -> (r: Option<Self>)
        ensures
            r == joined_kind(self, other),
    {
        if self.is_numeric() && other.is_numeric() {
            Some(if rank(self) >= rank(other) { self } else { other })
        } else {
            None
        }
    }
}

/// Whether `op` is one of Go's comparison or logical operators.
pub open spec fn is_boolean_operator(op: Seq<char>) -> bool {
    op == "=="@ || op == "!="@ || op == "<"@ || op == "<="@ || op == ">"@ || op == ">="@ || op
        == "&&"@ || op == "||"@
}

/// Whether `op` is one of Go's arithmetic or bitwise operators.
pub open spec fn is_arithmetic_operator(op: Seq<char>) -> bool {
    op == "+"@ || op == "-"@ || op == "*"@ || op == "/"@ || op == "%"@ || op == "&"@ || op == "|"@
        || op == "^"@ || op == "&^"@
}

/// The constant kind of `left op right`, when both sides are constants.
pub open spec fn binary_constant_kind(
    left: Option<ConstantKind>,
    op: Seq<char>,
    right: Option<ConstantKind>,
) -> Option<ConstantKind> {
    match (left, right) {
        (Some(l), Some(r)) => if is_boolean_operator(op) {
            Some(ConstantKind::Bool)
        } else if op == "<<"@ || op == ">>"@ {
            if numeric_kind(l) { Some(l) } else { None }
        } else if op == "+"@ && l == ConstantKind::String && r == ConstantKind::String {
            Some(ConstantKind::String)
        } else if is_arithmetic_operator(op) {
            joined_kind(l, r)
        } else {
            None
        },
        _ => None,
    }
}

/// The constant kind of `op value`, when the operand is a constant.
pub open spec fn unary_constant_kind(op: Seq<char>, value: Option<ConstantKind>) -> Option<ConstantKind> {
    match value {
        Some(v) => if op == "-"@ || op == "+"@ || op == "^"@ {
            if numeric_kind(v) { Some(v) } else { None }
        } else if op == "!"@ {
            if v == ConstantKind::Bool { Some(v) } else { None }
        } else {
            None
        },
        None => None,
    }
}

fn boolean_operator(op: &str) -> (r: bool)
    ensures
        r == is_boolean_operator(op@),
{
    str_eq(op, "==") || str_eq(op, "!=") || str_eq(op, "<") || str_eq(op, "<=") || str_eq(op, ">")
        || str_eq(op, ">=") || str_eq(op, "&&") || str_eq(op, "||")
}

fn arithmetic_operator(op: &str) -> (r: bool)
    ensures
        r == is_arithmetic_operator(op@),
{
    str_eq(op, "+") || str_eq(op, "-") || str_eq(op, "*") || str_eq(op, "/") || str_eq(op, "%")
        || str_eq(op, "&") || str_eq(op, "|") || str_eq(op, "^") || str_eq(op, "&^")
}

pub fn binary_constant(left: Option<ConstantKind>, operator: &str, right: Option<ConstantKind>) -> (r:
    Option<ConstantKind>)
    ensures
        r == binary_constant_kind(left, operator@, right),
{
    let (left, right) = match (left, right) {
        (Some(l), Some(r)) => (l, r),
        _ => {
            return None;
        },
    };
    if boolean_operator(operator) {
        Some(ConstantKind::Bool)
    } else if str_eq(operator, "<<") || str_eq(operator, ">>") {
        if left.is_numeric() {
            Some(left)
        } else {
            None
        }
    } else if str_eq(operator, "+") && matches!(left, ConstantKind::String) && matches!(
        right,
        ConstantKind::String
    ) {
        Some(ConstantKind::String)
    } else if arithmetic_operator(operator) {
        left.join(right)
    } else {
        None
    }
}

pub fn unary_constant(operator: &str, value: Option<ConstantKind>) -> (r: Option<ConstantKind>)
    ensures
        r == unary_constant_kind(operator@, value),
{
    let value = match value {
        Some(v) => v,
        None => {
            return None;
        },
    };
    if str_eq(operator, "-") || str_eq(operator, "+") || str_eq(operator, "^") {
        if value.is_numeric() {
            Some(value)
        } else {
            None
        }
    } else if str_eq(operator, "!") {
        if matches!(value, ConstantKind::Bool) {
            Some(value)
        } else {
            None
        }
    } else {
        None
    }
}

/// The text of a unary operation; a negation of a negative operand is
/// parenthesized so it does not read as a decrement.
pub open spec fn unary_text(op: Seq<char>, value: Seq<char>) -> Seq<char> {
    if op == "-"@ && value.len() > 0 && value[0] == '-' {
        "-("@ + value + seq![')']
    } else {
        op + value
    }
}

pub fn render_unary(op: &str, value: &str) -> (r: String)
    ensures
        r@ == unary_text(op@, value@),
{
    let mut r = String::new();
    let negated_negative = str_eq(op, "-") && crate::text::starts_with(value, "-");
    proof {
        reveal_strlit("-");
        if value@.len() > 0 {
            assert(value@.take(1)[0] == value@[0]);
            if value@[0] == '-' {
                assert(value@.take(1) =~= "-"@);
            }
        }
        assert(negated_negative == (op@ == "-"@ && value@.len() > 0 && value@[0] == '-'));
    }
    if negated_negative {
        r.append("-(");
        r.append(value);
        push_char(&mut r, ')');
    } else {
        r.append(op);
        r.append(value);
    }
    r
}

/// A rendered Go expression and what is known of its evaluation.
pub struct GoExpression {
    pub rendered: String,
    pub contains_deferred_evaluation: bool,
    pub composite_literal: bool,
    pub syntax_form: OperandForm,
    pub constant: Option<ConstantKind>,
}

pub open spec fn renderings(s: Seq<GoExpression>) -> Seq<Seq<char>> {
    s.map_values(|e: GoExpression| e.rendered@)
}

impl GoExpression {
    pub fn new(
        rendered: String,
        contains_deferred_evaluation: bool,
        composite_literal: bool,
        syntax_form: OperandForm,
    ) -> (r: Self)
        ensures
            r == (GoExpression {
                rendered,
                contains_deferred_evaluation,
                composite_literal,
                syntax_form,
                constant: None,
            }),
    {
        GoExpression {
            rendered,
            contains_deferred_evaluation,
            composite_literal,
            syntax_form,
            constant: None,
        }
    }

    /// A constant literal of the given kind.
    pub fn constant(rendered: String, kind: ConstantKind) -> (r: Self)
        ensures
            r == (GoExpression {
                rendered,
                contains_deferred_evaluation: false,
                composite_literal: false,
                syntax_form: OperandForm::Literal,
                constant: Some(kind),
            }),
    {
        Self::literal(rendered).with_constant(Some(kind))
    }

    pub fn with_constant(self, constant: Option<ConstantKind>) -> (r: Self)
        ensures
            r == (GoExpression { constant, ..self }),
    {
        let mut s = self;
        s.constant = constant;
        s
    }

    pub fn constant_kind(&self) -> (r: Option<ConstantKind>)
        ensures
            r == self.constant,
    {
        self.constant
    }

    pub fn name(value: String) -> (r: Self)
        ensures
            r == (GoExpression {
                rendered: value,
                contains_deferred_evaluation: false,
                composite_literal: false,
                syntax_form: OperandForm::Name,
                constant: None,
            }),
    {
        Self::new(value, false, false, OperandForm::Name)
    }

    pub fn opaque(rendered: String) -> (r: Self)
        ensures
            r == (GoExpression {
                rendered,
                contains_deferred_evaluation: false,
                composite_literal: false,
                syntax_form: OperandForm::Other,
                constant: None,
            }),
    {
        Self::opaque_with_deferred_evaluation(rendered, false)
    }

    pub fn opaque_with_deferred_evaluation(rendered: String, contains_deferred_evaluation: bool) -> (r:
        Self)
        ensures
            r == (GoExpression {
                rendered,
                contains_deferred_evaluation,
                composite_literal: false,
                syntax_form: OperandForm::Other,
                constant: None,
            }),
    {
        Self::new(rendered, contains_deferred_evaluation, false, OperandForm::Other)
    }

    pub fn literal(rendered: String) -> (r: Self)
        ensures
            r == (GoExpression {
                rendered,
                contains_deferred_evaluation: false,
                composite_literal: false,
                syntax_form: OperandForm::Literal,
                constant: None,
            }),
    {
        Self::new(rendered, false, false, OperandForm::Literal)
    }

    /// `callee(arguments...)`.
    pub fn call(callee: GoExpression, arguments: Vec<GoExpression>) -> (r: Self)
        ensures
            r.rendered@ == callee.rendered@ + seq!['('] + seq_join(renderings(arguments@), ", "@)
                + seq![')'],
            r.contains_deferred_evaluation,
            !r.composite_literal,
            r.syntax_form == OperandForm::Call,
            r.constant is None,
    {
        let mut rendered = callee.rendered;
        push_char(&mut rendered, '(');
        let ghost start = rendered@;
        let mut index: usize = 0;
        while index < arguments.len()
            invariant
                index <= arguments@.len(),
                rendered@ == start + seq_join(renderings(arguments@).take(index as int), ", "@),
            decreases arguments.len() - index,
        {
            assert(renderings(arguments@).take(index + 1).drop_last() =~= renderings(arguments@).take(
                index as int,
            ));
            if index > 0 {
                rendered.append(", ");
            } else {
                assert(renderings(arguments@).take(0) =~= Seq::<Seq<char>>::empty());
            }
            rendered.append(arguments[index].rendered.as_str());
            assert(renderings(arguments@).take(index + 1).last() == arguments@[index as int].rendered@);
            index = index + 1;
        }
        assert(renderings(arguments@).take(index as int) =~= renderings(arguments@));
        push_char(&mut rendered, ')');
        Self::new(rendered, true, false, OperandForm::Call)
    }

    /// `<-channel`.
    pub fn receive(channel: GoExpression) -> (r: Self)
        ensures
            r.rendered@ == "<-"@ + channel.rendered@,
            r.contains_deferred_evaluation,
            !r.composite_literal,
            r.syntax_form == OperandForm::Other,
            r.constant is None,
    {
        let mut rendered = owned("<-");
        rendered.append(channel.rendered.as_str());
        Self::opaque_with_deferred_evaluation(rendered, true)
    }

    /// `left operator right`, spaced.
    pub fn binary(left: GoExpression, operator: &str, right: GoExpression) -> (r: Self)
        ensures
            r.rendered@ == left.rendered@ + seq![' '] + operator@ + seq![' '] + right.rendered@,
            r.contains_deferred_evaluation == (left.contains_deferred_evaluation
                || right.contains_deferred_evaluation),
            !r.composite_literal,
            r.syntax_form == OperandForm::Other,
            r.constant == binary_constant_kind(left.constant, operator@, right.constant),
    {
        proof {
            reveal_strlit(" ");
        }
        Self::render_binary(left, owned(operator), right, " ")
    }

    /// `left operator right`, unspaced.
    pub fn compact_binary(left: GoExpression, operator: &str, right: GoExpression) -> (r: Self)
        ensures
            r.rendered@ == left.rendered@ + operator@ + right.rendered@,
            r.contains_deferred_evaluation == (left.contains_deferred_evaluation
                || right.contains_deferred_evaluation),
            !r.composite_literal,
            r.syntax_form == OperandForm::Other,
            r.constant == binary_constant_kind(left.constant, operator@, right.constant),
    {
        proof {
            reveal_strlit("");
        }
        let r = Self::render_binary(left, owned(operator), right, "");
        assert(r.rendered@ =~= left.rendered@ + operator@ + right.rendered@);
        r
    }

    fn render_binary(left: Self, operator: String, right: Self, separator: &str) -> (r: Self)
        ensures
            r.rendered@ == left.rendered@ + separator@ + operator@ + separator@ + right.rendered@,
            r.contains_deferred_evaluation == (left.contains_deferred_evaluation
                || right.contains_deferred_evaluation),
            !r.composite_literal,
            r.syntax_form == OperandForm::Other,
            r.constant == binary_constant_kind(left.constant, operator@, right.constant),
    {
        let deferred = left.contains_deferred_evaluation() || right.contains_deferred_evaluation();
        let constant = binary_constant(left.constant, operator.as_str(), right.constant);
        let mut rendered = left.rendered;
        rendered.append(separator);
        rendered.append(operator.as_str());
        rendered.append(separator);
        rendered.append(right.rendered.as_str());
        Self::opaque_with_deferred_evaluation(rendered, deferred).with_constant(constant)
    }

    /// `base.field`.
    pub fn selector(base: GoExpression, field: String) -> (r: Self)
        ensures
            r.rendered@ == base.rendered@ + seq!['.'] + field@,
            r.contains_deferred_evaluation == base.contains_deferred_evaluation,
            !r.composite_literal,
            r.syntax_form == OperandForm::Other,
            r.constant is None,
    {
        let deferred = base.contains_deferred_evaluation();
        let mut rendered = base.rendered;
        push_char(&mut rendered, '.');
        rendered.append(field.as_str());
        Self::opaque_with_deferred_evaluation(rendered, deferred)
    }

    /// `base[index]`.
    pub fn index(base: GoExpression, index: GoExpression) -> (r: Self)
        ensures
            r.rendered@ == base.rendered@ + seq!['['] + index.rendered@ + seq![']'],
            r.contains_deferred_evaluation == (base.contains_deferred_evaluation
                || index.contains_deferred_evaluation),
            !r.composite_literal,
            r.syntax_form == OperandForm::Other,
            r.constant is None,
    {
        let deferred = base.contains_deferred_evaluation() || index.contains_deferred_evaluation();
        let mut rendered = base.rendered;
        push_char(&mut rendered, '[');
        rendered.append(index.rendered.as_str());
        push_char(&mut rendered, ']');
        Self::opaque_with_deferred_evaluation(rendered, deferred)
    }

    /// `go_type(value)`.
    pub fn conversion(go_type: String, value: GoExpression) -> (r: Self)
        ensures
            r.rendered@ == conversion_text(go_type@, value.rendered@),
            r.contains_deferred_evaluation,
            !r.composite_literal,
            r.syntax_form == OperandForm::Other,
            r.constant is None,
    {
        Self::opaque_with_deferred_evaluation(
            render_conversion(go_type.as_str(), value.as_str()),
            true,
        )
    }

    /// `(value)`, keeping the value's constant kind.
    pub fn parenthesized(value: GoExpression) -> (r: Self)
        ensures
            r.rendered@ == seq!['('] + value.rendered@ + seq![')'],
            r.contains_deferred_evaluation,
            !r.composite_literal,
            r.syntax_form == OperandForm::Other,
            r.constant == value.constant,
    {
        let constant = value.constant;
        let mut rendered = String::new();
        push_char(&mut rendered, '(');
        rendered.append(value.rendered.as_str());
        push_char(&mut rendered, ')');
        Self::opaque_with_deferred_evaluation(rendered, true).with_constant(constant)
    }

    /// `operator value`.
    pub fn unary(operator: &str, value: GoExpression) -> (r: Self)
        ensures
            r.rendered@ == unary_text(operator@, value.rendered@),
            r.contains_deferred_evaluation == value.contains_deferred_evaluation,
            !r.composite_literal,
            r.syntax_form == OperandForm::Other,
            r.constant == unary_constant_kind(operator@, value.constant),
    {
        let deferred = value.contains_deferred_evaluation();
        let constant = unary_constant(operator, value.constant);
        Self::opaque_with_deferred_evaluation(render_unary(operator, value.as_str()), deferred)
            .with_constant(constant)
    }

    /// `base[start:end]` or `base[start:end:capacity]`.
    pub fn slice(
        base: GoExpression,
        start: Option<&GoExpression>,
        end: Option<&GoExpression>,
        capacity: Option<&GoExpression>,
    ) -> (r: Self)
        ensures
            r.rendered@ == base.rendered@ + seq!['['] + bound_text(start) + seq![':'] + bound_text(end)
                + match capacity {
                Some(c) => seq![':'] + c.rendered@,
                None => Seq::empty(),
            } + seq![']'],
            r.contains_deferred_evaluation == (base.contains_deferred_evaluation || (start matches Some(
                s,
            ) && s.contains_deferred_evaluation) || (end matches Some(e)
                && e.contains_deferred_evaluation) || (capacity matches Some(c)
                && c.contains_deferred_evaluation)),
            !r.composite_literal,
            r.syntax_form == OperandForm::Other,
            r.constant is None,
    {
        let mut range = String::new();
        if let Some(s) = start {
            range.append(s.rendered.as_str());
        }
        push_char(&mut range, ':');
        if let Some(e) = end {
            range.append(e.rendered.as_str());
        }
        if let Some(c) = capacity {
            push_char(&mut range, ':');
            range.append(c.rendered.as_str());
        }
        let deferred = (match start {
            Some(s) => s.contains_deferred_evaluation,
            None => false,
        }) || (match end {
            Some(e) => e.contains_deferred_evaluation,
            None => false,
        }) || (match capacity {
            Some(c) => c.contains_deferred_evaluation,
            None => false,
        });
        let ghost range_text = range@;
        let r = Self::index(base, Self::opaque_with_deferred_evaluation(range, deferred));
        assert(r.rendered@ =~= base.rendered@ + seq!['['] + bound_text(start) + seq![':'] + bound_text(
            end,
        ) + match capacity {
            Some(c) => seq![':'] + c.rendered@,
            None => Seq::empty(),
        } + seq![']']);
        r
    }

    pub fn composite_literal(rendered: String, contains_deferred_evaluation: bool) -> (r: Self)
        ensures
            r == (GoExpression {
                rendered,
                contains_deferred_evaluation,
                composite_literal: true,
                syntax_form: OperandForm::Literal,
                constant: None,
            }),
    {
        Self::new(rendered, contains_deferred_evaluation, true, OperandForm::Literal)
    }

    pub fn rendered(&self) -> (r: String)
        ensures
            r@ == self.rendered@,
    {
        self.rendered.clone()
    }

    pub fn as_str(&self) -> (r: &str)
        ensures
            r@ == self.rendered@,
    {
        self.rendered.as_str()
    }

    pub fn is_composite_literal(&self) -> (r: bool)
        ensures
            r == self.composite_literal,
    {
        self.composite_literal
    }

    pub fn is_literal(&self) -> (r: bool)
        ensures
            r == (self.syntax_form == OperandForm::Literal),
    {
        matches!(self.syntax_form, OperandForm::Literal)
    }

    pub fn syntax_form(&self) -> (r: OperandForm)
        ensures
            r == self.syntax_form,
    {
        self.syntax_form
    }

    pub fn is_empty(&self) -> (r: bool)
        ensures
            r == (self.rendered@.len() == 0),
    {
        self.rendered.as_str().is_empty()
    }

    pub fn contains_deferred_evaluation(&self) -> (r: bool)
        ensures
            r == self.contains_deferred_evaluation,
    {
        self.contains_deferred_evaluation
    }
}

impl GoExpression {
    /// A literal with no constant kind.
    pub open spec fn literal_spec(rendered: String) -> GoExpression {
        GoExpression {
            rendered,
            contains_deferred_evaluation: false,
            composite_literal: false,
            syntax_form: OperandForm::Literal,
            constant: None,
        }
    }

    /// A bare name.
    pub open spec fn name_spec(rendered: String) -> GoExpression {
        GoExpression {
            rendered,
            contains_deferred_evaluation: false,
            composite_literal: false,
            syntax_form: OperandForm::Name,
            constant: None,
        }
    }

    /// Text read as an opaque computed value.
    pub open spec fn opaque_spec(rendered: String) -> GoExpression {
        GoExpression {
            rendered,
            contains_deferred_evaluation: false,
            composite_literal: false,
            syntax_form: OperandForm::Other,
            constant: None,
        }
    }
}

/// The text of an optional slice bound.
pub open spec fn bound_text(b: Option<&GoExpression>) -> Seq<char> {
    match b {
        Some(e) => e.rendered@,
        None => Seq::empty(),
    }
}


/// How long a planned value stays what it was when planned.
#[derive(Clone, Copy, PartialEq, Eq, Structural)]
pub enum Stability {
    Literal,
    /// A name nothing can rebind before its readers run.
    Fixed,
    Observable,
    StableAcrossCalls,
}

pub open spec fn stability_fixed(s: Stability) -> bool {
    s is Literal || s is Fixed
}

impl Stability {
    pub fn is_fixed(self) -> (r: bool)
        ensures
            r == stability_fixed(self),
    {
        matches!(self, Stability::Literal | Stability::Fixed)
    }

    pub fn is_observable(self) -> (r: bool)
        ensures
            r == !stability_fixed(self),
    {
        !self.is_fixed()
    }

    pub fn is_stable_across_calls(self) -> (r: bool)
        ensures
            r == (self is StableAcrossCalls),
    {
        matches!(self, Stability::StableAcrossCalls)
    }
}

/// What evaluating a value may do, in increasing strength.
#[derive(Clone, Copy, PartialEq, Eq, Structural)]
pub enum EvaluationEffect {
    Pure,
    PureCall,
    EffectfulCall,
}

pub open spec fn effect_rank(e: EvaluationEffect) -> nat {
    match e {
        EvaluationEffect::Pure => 0,
        EvaluationEffect::PureCall => 1,
        EvaluationEffect::EffectfulCall => 2,
    }
}

/// The stronger of two effects.
pub open spec fn combined_effect(a: EvaluationEffect, b: EvaluationEffect) -> EvaluationEffect {
    if effect_rank(a) >= effect_rank(b) { a } else { b }
}

impl EvaluationEffect {
    pub fn combine(self, other: Self) -> (r: Self)
        ensures
            r == combined_effect(self, other),
    {
        match (self, other) {
            (EvaluationEffect::EffectfulCall, _) => self,
            (_, EvaluationEffect::EffectfulCall) => other,
            (EvaluationEffect::PureCall, _) => self,
            (_, EvaluationEffect::PureCall) => other,
            _ => self,
        }
    }

    pub fn has_call(self) -> (r: bool)
        ensures
            r == !(self is Pure),
    {
        !matches!(self, EvaluationEffect::Pure)
    }

    pub fn has_effectful_call(self) -> (r: bool)
        ensures
            r == (self is EffectfulCall),
    {
        matches!(self, EvaluationEffect::EffectfulCall)
    }
}

/// Joining numeric constant kinds keeps the wider kind: it is commutative
/// and associative, and a non-numeric kind joins with nothing.
pub proof fn law_constant_join(a: ConstantKind, b: ConstantKind, c: ConstantKind)
    ensures
        joined_kind(a, b) == joined_kind(b, a),
        (joined_kind(a, b) matches Some(ab) ==> joined_kind(ab, c) == match joined_kind(b, c) {
            Some(bc) => joined_kind(a, bc),
            None => None::<ConstantKind>,
        }),
        !numeric_kind(a) ==> joined_kind(a, b) is None,
        numeric_kind(a) ==> joined_kind(a, a) == Some(a),
{
}

/// Combining effects keeps the stronger one: it is commutative, associative
/// and idempotent, and `Pure` is its identity.
pub proof fn law_effect_combine(a: EvaluationEffect, b: EvaluationEffect, c: EvaluationEffect)
    ensures
        combined_effect(a, b) == combined_effect(b, a),
        combined_effect(combined_effect(a, b), c) == combined_effect(a, combined_effect(b, c)),
        combined_effect(a, a) == a,
        combined_effect(EvaluationEffect::Pure, a) == a,
        effect_rank(a) <= effect_rank(combined_effect(a, b)),
{
}

/// Where a value is read relative to where it was planned.
#[derive(Clone, Copy, PartialEq, Eq, Structural)]
pub enum CaptureBoundary {
    SiblingSequence,
    DirectDelayedCall,
    DeferSite,
    TaskSite,
    LoopLifetime,
    AssignmentRightHandSide,
}

impl Default for CaptureBoundary {
    fn default() -> (r: Self)
        ensures
            r == CaptureBoundary::SiblingSequence,
    {
        CaptureBoundary::SiblingSequence
    }
}

/// Whether a value read across `b` must first be copied.
pub open spec fn needs_value_capture(b: CaptureBoundary, s: Stability) -> bool {
    !(b is SiblingSequence || b is DirectDelayedCall) && !stability_fixed(s)
}

impl CaptureBoundary {
    pub fn requires_value_capture(self, stability: Stability) -> (r: bool)
        ensures
            r == needs_value_capture(self, stability),
    {
        !matches!(self, CaptureBoundary::SiblingSequence | CaptureBoundary::DirectDelayedCall)
            && stability.is_observable()
    }
}

/// What is known of evaluating a planned value.
#[derive(Clone, Copy, PartialEq, Eq, Structural)]
pub struct EvaluationFacts {
    pub form: OperandForm,
    pub stability: Stability,
    pub effect: EvaluationEffect,
}

impl EvaluationFacts {
    pub fn new(form: OperandForm, stability: Stability, effect: EvaluationEffect) -> (r: Self)
        ensures
            r == (EvaluationFacts { form, stability, effect }),
    {
        EvaluationFacts { form, stability, effect }
    }

    pub fn literal() -> (r: Self)
        ensures
            r == (EvaluationFacts {
                form: OperandForm::Literal,
                stability: Stability::Literal,
                effect: EvaluationEffect::Pure,
            }),
    {
        Self::new(OperandForm::Literal, Stability::Literal, EvaluationEffect::Pure)
    }

    pub fn value(effect: EvaluationEffect) -> (r: Self)
        ensures
            r == (EvaluationFacts { form: OperandForm::Other, stability: Stability::Observable, effect }),
    {
        Self::new(OperandForm::Other, Stability::Observable, effect)
    }

    pub fn call(effect: EvaluationEffect) -> (r: Self)
        ensures
            r == (EvaluationFacts { form: OperandForm::Call, stability: Stability::StableAcrossCalls, effect }),
    {
        Self::new(OperandForm::Call, Stability::StableAcrossCalls, effect)
    }

    pub fn with_stability(self, stability: Stability) -> (r: Self)
        ensures
            r == (EvaluationFacts { stability, ..self }),
    {
        EvaluationFacts { stability, ..self }
    }
}

/// A value ready to be read: the statements that must run first, the
/// expression that reads it, and what is known of its evaluation.
pub struct ValuePlan {
    pub setup: Vec<LoweredStatement>,
    pub expression: GoExpression,
    pub evaluation: EvaluationFacts,
}

/// Several values planned left to right, with the statements they need.
pub struct SequencedValues {
    pub setup: Vec<LoweredStatement>,
    pub values: Vec<GoExpression>,
    pub effect: EvaluationEffect,
}

impl SequencedValues {
    pub fn into_rendered(self) -> (r: (Vec<LoweredStatement>, Vec<String>))
        ensures
            r.0@ == self.setup@,
            r.1@.len() == self.values@.len(),
            forall|i: int| 0 <= i < r.1@.len() ==> #[trigger] r.1@[i]@ == self.values@[i].rendered@,
    {
        let mut out: Vec<String> = Vec::new();
        let mut i: usize = 0;
        while i < self.values.len()
            invariant
                i <= self.values@.len(),
                out@.len() == i,
                forall|j: int| 0 <= j < i ==> #[trigger] out@[j]@ == self.values@[j].rendered@,
            decreases self.values.len() - i,
        {
            out.push(self.values[i].rendered());
            i = i + 1;
        }
        (self.setup, out)
    }

    pub fn contains_deferred_evaluation(&self) -> (r: bool)
        ensures
            r == exists|i: int|
                0 <= i < self.values@.len() && #[trigger] self.values@[i].contains_deferred_evaluation,
    {
        let mut i: usize = 0;
        while i < self.values.len()
            invariant
                i <= self.values@.len(),
                forall|j: int| 0 <= j < i ==> !#[trigger] self.values@[j].contains_deferred_evaluation,
            decreases self.values.len() - i,
        {
            if self.values[i].contains_deferred_evaluation {
                return true;
            }
            i = i + 1;
        }
        false
    }
}

/// The facts of a value read through an identifier expression: a bare name
/// keeps the binding's stability, a composite form re-reads what it is built
/// from.
pub open spec fn identifier_facts(form: OperandForm, stability: Stability) -> EvaluationFacts {
    match form {
        OperandForm::Literal => EvaluationFacts {
            form: OperandForm::Literal,
            stability: Stability::Literal,
            effect: EvaluationEffect::Pure,
        },
        OperandForm::Call => EvaluationFacts {
            form: OperandForm::Call,
            stability: Stability::StableAcrossCalls,
            effect: EvaluationEffect::PureCall,
        },
        OperandForm::Name => EvaluationFacts {
            form: OperandForm::Name,
            stability,
            effect: EvaluationEffect::Pure,
        },
        OperandForm::Other => EvaluationFacts {
            form: OperandForm::Other,
            stability: if stability_fixed(stability) {
                Stability::StableAcrossCalls
            } else {
                Stability::Observable
            },
            effect: EvaluationEffect::Pure,
        },
    }
}

/// The stability a parenthesized value keeps.
pub open spec fn parenthesized_stability(f: EvaluationFacts) -> Stability {
    if f.form is Call || (f.stability is StableAcrossCalls && !(f.form is Name)) {
        Stability::Observable
    } else {
        f.stability
    }
}

impl ValuePlan {
    pub fn from_facts(setup: Vec<LoweredStatement>, expression: GoExpression, evaluation: EvaluationFacts) -> (r:
        Self)
        ensures
            r == (ValuePlan { setup, expression, evaluation }),
    {
        ValuePlan { setup, expression, evaluation }
    }

    pub fn constant(rendered: String, kind: ConstantKind) -> (r: Self)
        ensures
            r.setup@.len() == 0,
            r.expression.rendered@ == rendered@,
            r.expression.syntax_form == OperandForm::Literal,
            r.expression.constant == Some(kind),
            !r.expression.contains_deferred_evaluation,
            !r.expression.composite_literal,
            r.evaluation == (EvaluationFacts {
                form: OperandForm::Literal,
                stability: Stability::Literal,
                effect: EvaluationEffect::Pure,
            }),
    {
        Self::from_facts(Vec::new(), GoExpression::constant(rendered, kind), EvaluationFacts::literal())
    }

    pub fn evaluated_literal(setup: Vec<LoweredStatement>, rendered: String, effect: EvaluationEffect) -> (r:
        Self)
        ensures
            r.setup == setup,
            r.expression == GoExpression::literal_spec(rendered),
            r.evaluation == (EvaluationFacts {
                form: OperandForm::Literal,
                stability: Stability::Observable,
                effect,
            }),
    {
        Self::from_facts(
            setup,
            GoExpression::literal(rendered),
            EvaluationFacts::new(OperandForm::Literal, Stability::Observable, effect),
        )
    }

    /// A name the setup just bound, or which nothing can rebind.
    pub fn captured(setup: Vec<LoweredStatement>, name: String) -> (r: Self)
        ensures
            r.setup == setup,
            r.expression == GoExpression::name_spec(name),
            r.evaluation == (EvaluationFacts {
                form: OperandForm::Name,
                stability: Stability::Fixed,
                effect: EvaluationEffect::Pure,
            }),
    {
        Self::from_facts(
            setup,
            GoExpression::name(name),
            EvaluationFacts::new(OperandForm::Name, Stability::Fixed, EvaluationEffect::Pure),
        )
    }

    pub fn computed(setup: Vec<LoweredStatement>, expression: GoExpression, effect: EvaluationEffect) -> (r:
        Self)
        ensures
            r == (ValuePlan {
                setup,
                expression,
                evaluation: EvaluationFacts {
                    form: OperandForm::Other,
                    stability: Stability::Observable,
                    effect,
                },
            }),
    {
        Self::from_facts(setup, expression, EvaluationFacts::value(effect))
    }

    /// `stability` describes the binding, so only a bare name inherits it
    /// whole: a composite form re-reads whatever it is built from.
    pub fn from_identifier_expression(expression: GoExpression, stability: Stability) -> (r: Self)
        ensures
            r.setup@.len() == 0,
            r.evaluation == identifier_facts(expression.syntax_form, stability),
            r.expression == expression,
    {
        let evaluation = match expression.syntax_form() {
            OperandForm::Literal => EvaluationFacts::literal(),
            OperandForm::Call => EvaluationFacts::call(EvaluationEffect::PureCall),
            OperandForm::Name => EvaluationFacts::new(OperandForm::Name, stability, EvaluationEffect::Pure),
            OperandForm::Other => EvaluationFacts::value(EvaluationEffect::Pure).with_stability(
                if stability.is_observable() {
                    Stability::Observable
                } else {
                    Stability::StableAcrossCalls
                },
            ),
        };
        Self::from_facts(Vec::new(), expression, evaluation)
    }

    pub fn plain_call(setup: Vec<LoweredStatement>, expression: GoExpression, effect: EvaluationEffect) -> (r:
        Self)
        ensures
            r == (ValuePlan {
                setup,
                expression,
                evaluation: EvaluationFacts {
                    form: OperandForm::Call,
                    stability: Stability::StableAcrossCalls,
                    effect,
                },
            }),
    {
        Self::from_facts(setup, expression, EvaluationFacts::call(effect))
    }

    pub fn observable_call(setup: Vec<LoweredStatement>, expression: GoExpression, effect: EvaluationEffect) -> (r:
        Self)
        ensures
            r == (ValuePlan {
                setup,
                expression,
                evaluation: EvaluationFacts {
                    form: OperandForm::Call,
                    stability: Stability::Observable,
                    effect,
                },
            }),
    {
        Self::from_facts(setup, expression, EvaluationFacts::call(effect).with_stability(Stability::Observable))
    }

    pub fn opaque(value: String) -> (r: Self)
        ensures
            r.setup@.len() == 0,
            r.expression == GoExpression::opaque_spec(value),
            r.evaluation == (EvaluationFacts {
                form: OperandForm::Other,
                stability: Stability::Observable,
                effect: EvaluationEffect::Pure,
            }),
    {
        Self::computed(Vec::new(), GoExpression::opaque(value), EvaluationEffect::Pure)
    }

    /// Rebuilds the expression from its rendering: `transform` receives the
    /// setup, the rendered text and whether it defers evaluation, and returns
    /// the new setup and expression. The evaluation facts are kept.
    pub fn map_rendered<F>(self, transform: F) -> (r: Self) where
        F: FnOnce(Vec<LoweredStatement>, String, bool) -> (Vec<LoweredStatement>, GoExpression),

        requires
            forall|s: String|
                s@ == self.expression.rendered@ ==> #[trigger] transform.requires(
                    (self.setup, s, self.expression.contains_deferred_evaluation),
                ),
        ensures
            r.evaluation == self.evaluation,
            exists|s: String|
                s@ == self.expression.rendered@ && #[trigger] transform.ensures(
                    (self.setup, s, self.expression.contains_deferred_evaluation),
                    (r.setup, r.expression),
                ),
    {
        let contains_deferred_evaluation = self.expression.contains_deferred_evaluation();
        let ValuePlan { setup, expression, evaluation } = self;
        let rendered = expression.rendered();
        let (setup, expression) = transform(setup, rendered, contains_deferred_evaluation);
        Self::from_facts(setup, expression, evaluation)
    }

    /// `map_rendered`, the result then read as a computed value.
    pub fn map_rendered_as_computed<F>(self, transform: F) -> (r: Self) where
        F: FnOnce(Vec<LoweredStatement>, String, bool) -> (Vec<LoweredStatement>, GoExpression),

        requires
            forall|s: String|
                s@ == self.expression.rendered@ ==> #[trigger] transform.requires(
                    (self.setup, s, self.expression.contains_deferred_evaluation),
                ),
        ensures
            r.evaluation == (EvaluationFacts { form: OperandForm::Other, ..self.evaluation }),
            exists|s: String|
                s@ == self.expression.rendered@ && #[trigger] transform.ensures(
                    (self.setup, s, self.expression.contains_deferred_evaluation),
                    (r.setup, r.expression),
                ),
    {
        let mut plan = self.map_rendered(transform);
        plan.evaluation.form = OperandForm::Other;
        plan
    }

    /// `map_rendered`, the result then read as a name.
    pub fn map_rendered_as_name<F>(self, transform: F) -> (r: Self) where
        F: FnOnce(Vec<LoweredStatement>, String, bool) -> (Vec<LoweredStatement>, GoExpression),

        requires
            forall|s: String|
                s@ == self.expression.rendered@ ==> #[trigger] transform.requires(
                    (self.setup, s, self.expression.contains_deferred_evaluation),
                ),
        ensures
            r.evaluation == (EvaluationFacts { form: OperandForm::Name, ..self.evaluation }),
            exists|s: String|
                s@ == self.expression.rendered@ && #[trigger] transform.ensures(
                    (self.setup, s, self.expression.contains_deferred_evaluation),
                    (r.setup, r.expression),
                ),
    {
        let mut plan = self.map_rendered(transform);
        plan.evaluation.form = OperandForm::Name;
        plan
    }

    /// `map_rendered`, the result then read as an observable computed value.
    pub fn map_rendered_as_observable_computed<F>(self, transform: F) -> (r: Self) where
        F: FnOnce(Vec<LoweredStatement>, String, bool) -> (Vec<LoweredStatement>, GoExpression),

        requires
            forall|s: String|
                s@ == self.expression.rendered@ ==> #[trigger] transform.requires(
                    (self.setup, s, self.expression.contains_deferred_evaluation),
                ),
        ensures
            r.evaluation == (EvaluationFacts {
                form: OperandForm::Other,
                stability: Stability::Observable,
                ..self.evaluation
            }),
            exists|s: String|
                s@ == self.expression.rendered@ && #[trigger] transform.ensures(
                    (self.setup, s, self.expression.contains_deferred_evaluation),
                    (r.setup, r.expression),
                ),
    {
        let mut plan = self.map_rendered_as_computed(transform);
        plan.make_observable();
        plan
    }

    pub fn make_observable(&mut self)
        ensures
            final(self).setup == old(self).setup,
            final(self).expression == old(self).expression,
            final(self).evaluation == (EvaluationFacts {
                stability: Stability::Observable,
                ..old(self).evaluation
            }),
    {
        self.evaluation.stability = Stability::Observable;
    }

    pub fn stable_across_calls_if(self, stable_across_calls: bool) -> (r: Self)
        ensures
            r.setup == self.setup,
            r.expression == self.expression,
            r.evaluation == if stable_across_calls {
                EvaluationFacts { stability: Stability::StableAcrossCalls, ..self.evaluation }
            } else {
                self.evaluation
            },
    {
        let mut s = self;
        if stable_across_calls {
            s.evaluation.stability = Stability::StableAcrossCalls;
        }
        s
    }

    pub fn make_observable_computed(&mut self)
        ensures
            final(self).setup == old(self).setup,
            final(self).expression == old(self).expression,
            final(self).evaluation == (EvaluationFacts {
                form: OperandForm::Other,
                stability: Stability::Observable,
                ..old(self).evaluation
            }),
    {
        self.evaluation.form = OperandForm::Other;
        self.make_observable();
    }

    pub fn into_addressed_location(self) -> (r: Self)
        ensures
            r.setup == self.setup,
            r.expression == self.expression,
            r.evaluation == (EvaluationFacts {
                form: OperandForm::Other,
                stability: Stability::StableAcrossCalls,
                ..self.evaluation
            }),
    {
        let mut s = self;
        s.evaluation.form = OperandForm::Other;
        s.evaluation.stability = Stability::StableAcrossCalls;
        s
    }

    pub fn replace_with_pinned_name(&mut self, name: String)
        ensures
            final(self).setup == old(self).setup,
            final(self).expression == GoExpression::name_spec(name),
            final(self).evaluation == (EvaluationFacts {
                form: OperandForm::Name,
                effect: EvaluationEffect::Pure,
                ..old(self).evaluation
            }),
    {
        self.expression = GoExpression::name(name);
        self.evaluation.form = OperandForm::Name;
        self.evaluation.effect = EvaluationEffect::Pure;
    }

    pub fn with_pure_constructor_evaluation(self) -> (r: Self)
        ensures
            r.setup == self.setup,
            r.expression == self.expression,
            r.evaluation == (EvaluationFacts {
                effect: combined_effect(EvaluationEffect::PureCall, self.evaluation.effect),
                stability: if self.evaluation.form is Call {
                    Stability::StableAcrossCalls
                } else {
                    Stability::Observable
                },
                ..self.evaluation
            }),
    {
        let mut s = self;
        s.evaluation.effect = EvaluationEffect::PureCall.combine(s.evaluation.effect);
        s.evaluation.stability = if matches!(s.evaluation.form, OperandForm::Call) {
            Stability::StableAcrossCalls
        } else {
            Stability::Observable
        };
        s
    }

    pub fn rendered(&self) -> (r: String)
        ensures
            r@ == self.expression.rendered@,
    {
        self.expression.rendered()
    }

    /// `rendered` is a name this plan's own setup bound. Callers must also
    /// check that no source binding answers to it.
    pub fn rests_in_own_temp(&self, rendered: &str) -> (r: bool)
        ensures
            r == (plain_identifier(rendered@) && self.setup@.len() > 0 && bound_name(
                self.setup@.last(),
            ) == Some(rendered@)),
    {
        if !is_plain_identifier(rendered) {
            return false;
        }
        let n = self.setup.len();
        if n == 0 {
            return false;
        }
        self.setup[n - 1].binds_name(rendered)
    }

    pub fn rests_in_fixed_name(&self) -> (r: bool)
        ensures
            r == (self.expression.syntax_form is Name && stability_fixed(self.evaluation.stability)),
    {
        matches!(self.expression.syntax_form(), OperandForm::Name) && self.evaluation.stability.is_fixed()
    }

    pub fn is_empty(&self) -> (r: bool)
        ensures
            r == (self.expression.rendered@.len() == 0),
    {
        self.expression.is_empty()
    }

    pub fn into_parts(self) -> (r: (Vec<LoweredStatement>, String))
        ensures
            r.0 == self.setup,
            r.1@ == self.expression.rendered@,
    {
        let ValuePlan { setup, expression, evaluation } = self;
        (setup, expression.rendered)
    }

    pub fn parenthesized(self) -> (r: Self)
        ensures
            r.setup == self.setup,
            r.expression.rendered@ == seq!['('] + self.expression.rendered@ + seq![')'],
            r.expression.contains_deferred_evaluation,
            r.expression.syntax_form == OperandForm::Other,
            r.expression.constant == self.expression.constant,
            r.evaluation == (EvaluationFacts {
                form: OperandForm::Other,
                stability: parenthesized_stability(self.evaluation),
                effect: self.evaluation.effect,
            }),
    {
        let ValuePlan { setup, expression, mut evaluation } = self;
        if matches!(evaluation.form, OperandForm::Call) || (evaluation.stability.is_stable_across_calls()
            && !matches!(evaluation.form, OperandForm::Name)) {
            evaluation.stability = Stability::Observable;
        }
        evaluation.form = OperandForm::Other;
        Self::from_facts(setup, GoExpression::parenthesized(expression), evaluation)
    }

    pub fn conversion(self, go_type: String) -> (r: Self)
        ensures
            r.setup == self.setup,
            r.expression.rendered@ == conversion_text(go_type@, self.expression.rendered@),
            r.expression.contains_deferred_evaluation,
            r.expression.syntax_form == OperandForm::Other,
            r.expression.constant is None,
            r.evaluation == (EvaluationFacts {
                form: OperandForm::Other,
                stability: if self.evaluation.stability is StableAcrossCalls {
                    Stability::StableAcrossCalls
                } else {
                    Stability::Observable
                },
                effect: self.evaluation.effect,
            }),
    {
        let ValuePlan { setup, expression, mut evaluation } = self;
        evaluation.form = OperandForm::Other;
        if !evaluation.stability.is_stable_across_calls() {
            evaluation.stability = Stability::Observable;
        }
        Self::from_facts(setup, GoExpression::conversion(go_type, expression), evaluation)
    }

    pub fn unary(self, operator: &str) -> (r: Self)
        ensures
            r.setup == self.setup,
            r.expression.rendered@ == unary_text(operator@, self.expression.rendered@),
            r.expression.contains_deferred_evaluation == self.expression.contains_deferred_evaluation,
            r.expression.syntax_form == OperandForm::Other,
            r.expression.constant == unary_constant_kind(operator@, self.expression.constant),
            r.evaluation == (EvaluationFacts {
                form: OperandForm::Other,
                stability: Stability::Observable,
                effect: self.evaluation.effect,
            }),
    {
        let ValuePlan { setup, expression, mut evaluation } = self;
        evaluation.form = OperandForm::Other;
        evaluation.stability = Stability::Observable;
        Self::from_facts(setup, GoExpression::unary(operator, expression), evaluation)
    }
}


/// What the stages after a value do, as sequencing walks stages from the
/// last to the first.
#[derive(Clone, Copy, PartialEq, Eq, Structural)]
pub struct LaterStages {
    pub has_setup: bool,
    pub has_effectful_call: bool,
    pub has_pin: bool,
}

impl Default for LaterStages {
    fn default() -> (r: Self)
        ensures
            r == (LaterStages { has_setup: false, has_effectful_call: false, has_pin: false }),
    {
        LaterStages { has_setup: false, has_effectful_call: false, has_pin: false }
    }
}

/// Whether `stage` must be pinned into a temporary before the stages after
/// it run: its value could change under their setup or effectful calls, or
/// a call left inline would run out of order with setup or pins after it.
pub open spec fn must_pin(later: LaterStages, stage: ValuePlan) -> bool {
    let stage_has_setup = stage.setup@.len() > 0;
    let later_can_change_value = later.has_setup || (later.has_effectful_call
        && !(stage.evaluation.stability is StableAcrossCalls));
    let value_pin = !stage_has_setup && !stability_fixed(stage.evaluation.stability)
        && later_can_change_value;
    let ordering_pin = !(stage.evaluation.effect is Pure) && stage.expression.contains_deferred_evaluation
        && (later.has_setup || later.has_pin);
    value_pin || ordering_pin
}

/// The later-stage facts once `stage` is among them.
pub open spec fn with_stage(later: LaterStages, stage: ValuePlan) -> LaterStages {
    LaterStages {
        has_setup: later.has_setup || stage.setup@.len() > 0,
        has_effectful_call: later.has_effectful_call || stage.evaluation.effect is EffectfulCall,
        has_pin: later.has_pin || must_pin(later, stage),
    }
}

impl LaterStages {
    /// Accounts for `stage`, which runs before every stage seen so far, and
    /// returns whether it must be pinned.
    pub fn prepend(&mut self, stage: &ValuePlan) -> (pinned: bool)
        ensures
            pinned == must_pin(*old(self), *stage),
            *final(self) == with_stage(*old(self), *stage),
    {
        let stage_has_setup = stage.setup.len() > 0;
        let later_can_change_value = self.has_setup || (self.has_effectful_call
            && !stage.evaluation.stability.is_stable_across_calls());
        let value_pin = !stage_has_setup && stage.evaluation.stability.is_observable()
            && later_can_change_value;
        let ordering_pin = stage.evaluation.effect.has_call()
            && stage.expression.contains_deferred_evaluation() && (self.has_setup || self.has_pin);
        let pinned = value_pin || ordering_pin;
        self.has_setup = self.has_setup || stage_has_setup;
        self.has_effectful_call = self.has_effectful_call
            || stage.evaluation.effect.has_effectful_call();
        self.has_pin = self.has_pin || pinned;
        pinned
    }
}

/// The pins of `stages` and the later-stage facts before the first of them,
/// walking from the last stage to the first.
pub open spec fn stage_pins_spec(stages: Seq<ValuePlan>) -> (Seq<bool>, LaterStages)
    decreases stages.len(),
{
    if stages.len() == 0 {
        (Seq::empty(), LaterStages { has_setup: false, has_effectful_call: false, has_pin: false })
    } else {
        let (pins, later) = stage_pins_spec(stages.drop_first());
        (seq![must_pin(later, stages[0])] + pins, with_stage(later, stages[0]))
    }
}

proof fn lemma_later_facts(stages: Seq<ValuePlan>)
    ensures
        stage_pins_spec(stages).0.len() == stages.len(),
        stage_pins_spec(stages).1.has_setup == exists|j: int| 0 <= j < stages.len() && #[trigger] stages[j].setup@.len() > 0,
        stage_pins_spec(stages).1.has_effectful_call == exists|j: int|
            0 <= j < stages.len() && #[trigger] stages[j].evaluation.effect is EffectfulCall,
    decreases stages.len(),
{
    if stages.len() > 0 {
        let rest = stages.drop_first();
        lemma_later_facts(rest);
        assert forall|j: int| 0 <= j < rest.len() implies rest[j] == stages[j + 1] by {}
        if exists|j: int| 0 <= j < stages.len() && #[trigger] stages[j].setup@.len() > 0 {
            let j = choose|j: int| 0 <= j < stages.len() && #[trigger] stages[j].setup@.len() > 0;
            if j > 0 {
                assert(rest[j - 1].setup@.len() > 0);
            }
        }
        if exists|j: int| 0 <= j < stages.len() && #[trigger] stages[j].evaluation.effect is EffectfulCall {
            let j = choose|j: int| 0 <= j < stages.len() && #[trigger] stages[j].evaluation.effect is EffectfulCall;
            if j > 0 {
                assert(rest[j - 1].evaluation.effect is EffectfulCall);
            }
        }
    }
}

/// There is one pin decision per stage.
pub proof fn lemma_pins_len(stages: Seq<ValuePlan>)
    ensures
        stage_pins_spec(stages).0.len() == stages.len(),
{
    lemma_later_facts(stages);
}

proof fn lemma_pin_at(stages: Seq<ValuePlan>, i: int)
    requires
        0 <= i < stages.len(),
    ensures
        stage_pins_spec(stages).0[i] == must_pin(stage_pins_spec(stages.skip(i + 1)).1, stages[i]),
    decreases stages.len(),
{
    let rest = stages.drop_first();
    lemma_later_facts(rest);
    if i == 0 {
        assert(stages.skip(1) =~= rest);
    } else {
        lemma_pin_at(rest, i - 1);
        assert(rest.skip(i) =~= stages.skip(i + 1));
        assert(rest[i - 1] == stages[i]);
    }
}

/// Sequencing keeps left-to-right evaluation order: a later sibling with
/// setup, or with an effectful call that could change a value not stable
/// across calls, forces an earlier observable value without setup of its
/// own into a temporary.
pub proof fn law_later_effects_pin_earlier_values(stages: Seq<ValuePlan>, i: int, j: int)
    requires
        0 <= i < j < stages.len(),
        stages[i].setup@.len() == 0,
        !stability_fixed(stages[i].evaluation.stability),
        stages[j].setup@.len() > 0 || (stages[j].evaluation.effect is EffectfulCall
            && !(stages[i].evaluation.stability is StableAcrossCalls)),
    ensures
        stage_pins_spec(stages).0[i],
{
    lemma_pin_at(stages, i);
    let later = stages.skip(i + 1);
    lemma_later_facts(later);
    assert(later[j - i - 1] == stages[j]);
}

/// Which of `stages`, sequenced left to right, must be pinned into a
/// temporary.
pub fn stage_pins(stages: &Vec<ValuePlan>) -> (r: Vec<bool>)
    ensures
        r@ == stage_pins_spec(stages@).0,
{
    let n = stages.len();
    let mut reversed: Vec<bool> = Vec::new();
    let mut later = LaterStages::default();
    let mut i: usize = n;
    assert(stages@.subrange(n as int, n as int) =~= Seq::<ValuePlan>::empty());
    while i > 0
        invariant
            i <= n,
            n == stages@.len(),
            reversed@.len() == n - i,
            reversed@.reverse() == stage_pins_spec(stages@.subrange(i as int, n as int)).0,
            later == stage_pins_spec(stages@.subrange(i as int, n as int)).1,
        decreases i,
    {
        let ghost suffix = stages@.subrange(i - 1, n as int);
        assert(suffix.drop_first() =~= stages@.subrange(i as int, n as int));
        assert(suffix[0] == stages@[i - 1]);
        let ghost before = reversed@;
        let pinned = later.prepend(&stages[i - 1]);
        reversed.push(pinned);
        assert(reversed@.reverse() =~= seq![pinned] + before.reverse());
        i = i - 1;
    }
    assert(stages@.subrange(0, n as int) =~= stages@);
    let mut r: Vec<bool> = Vec::new();
    let mut j: usize = n;
    while j > 0
        invariant
            j <= n,
            reversed@.len() == n,
            r@ == reversed@.reverse().take(n - j),
        decreases j,
    {
        r.push(reversed[j - 1]);
        assert(reversed@.reverse().take(n - j + 1) =~= reversed@.reverse().take(n - j).push(
            reversed@[j - 1],
        ));
        j = j - 1;
    }
    assert(reversed@.reverse().take(n as int) =~= reversed@.reverse());
    r
}

/// Whether an assignment's right-hand side runs setup first.
pub fn assignment_has_setup(right_hand_side: Option<&ValuePlan>) -> (r: bool)
    ensures
        r == (right_hand_side matches Some(v) && v.setup@.len() > 0),
{
    match right_hand_side {
        Some(value) => value.setup.len() > 0,
        None => false,
    }
}

/// Whether an assignment's right-hand side makes an effectful call.
pub fn assignment_has_effectful_call(right_hand_side: Option<&ValuePlan>) -> (r: bool)
    ensures
        r == (right_hand_side matches Some(v) && v.evaluation.effect is EffectfulCall),
{
    match right_hand_side {
        Some(value) => value.evaluation.effect.has_effectful_call(),
        None => false,
    }
}

/// Whether the target of an assignment must be captured before its
/// right-hand side runs.
pub fn assignment_requires_target_capture(right_hand_side: Option<&ValuePlan>) -> (r: bool)
    ensures
        r == (right_hand_side matches Some(v) && (v.setup@.len() > 0
            || v.evaluation.effect is EffectfulCall)),
{
    assignment_has_setup(right_hand_side) || assignment_has_effectful_call(right_hand_side)
}

} // verus!
