//! Pieces of turning a decision tree into Go statements that decide on the
//! tree alone: how chains and switches split, which conditions group, and how
//! chain branches nest into an `if`/`else if` plan.

use vstd::prelude::*;
use crate::checks::SubjectRoot;
use crate::lowered::{
    ElseArm, IfPlan, LoopTransfer, LoweredBlock, LoweredStatement, PlacePlan, block_diverges,
};
use crate::placement::unreachable_panic_if_needed;
use crate::text::{owned, str_eq, views_of};
use crate::tree::{
    BindingV, ChainTest, Decision, DecisionV, PatternBinding, SwitchBranch, SwitchKind, SwitchShape,
    bindings_view,
};
use crate::utils::{wrap_if_struct_literal, wrapped_condition};

verus! {

broadcast use vstd::std_specs::vec::axiom_vec_decreases_to_view;

/// The arm a leaf of the tree lowers from.
pub fn decision_arm_index(decision: &Decision) -> (r: usize)
    requires
        *decision is Success || *decision is Guard,
    ensures
        match *decision {
            Decision::Success { arm_index, .. } => r == arm_index,
            Decision::Guard { arm_index, .. } => r == arm_index,
            _ => false,
        },
{
    match decision {
        Decision::Success { arm_index, .. } => *arm_index,
        Decision::Guard { arm_index, .. } => *arm_index,
        _ => 0,
    }
}

/// Where in the emitted structure a walk of the tree stands.
#[derive(Clone, Copy, PartialEq, Eq, Structural)]
pub enum WalkRole {
    SwitchCase,
    ChainBody,
    RetryLoopTop,
    RetryLoopNested,
}

/// The place arm bodies go to, the walk's role, and, on retry-loop walks,
/// the label that non-diverging leaves break to.
pub struct WalkCtx<'a> {
    pub arm_place: &'a PlacePlan,
    pub role: WalkRole,
    pub break_label: Option<&'a str>,
}

impl<'a> WalkCtx<'a> {
    pub fn switch_case(arm_place: &'a PlacePlan) -> (r: Self)
        ensures
            r.arm_place == arm_place,
            r.role == WalkRole::SwitchCase,
            r.break_label is None,
    {
        WalkCtx { arm_place, role: WalkRole::SwitchCase, break_label: None }
    }

    pub fn chain_test(arm_place: &'a PlacePlan) -> (r: Self)
        ensures
            r.arm_place == arm_place,
            r.role == WalkRole::ChainBody,
            r.break_label is None,
    {
        WalkCtx { arm_place, role: WalkRole::ChainBody, break_label: None }
    }

    pub fn retry_loop(arm_place: &'a PlacePlan, break_label: Option<&'a str>) -> (r: Self)
        ensures
            r.arm_place == arm_place,
            r.role == WalkRole::RetryLoopTop,
            r.break_label == break_label,
    {
        WalkCtx { arm_place, role: WalkRole::RetryLoopTop, break_label }
    }

    /// The context one level down: switch cases and chain bodies nest as
    /// chain bodies, retry-loop walks as nested retry-loop walks.
    pub fn nested(&self) -> (r: Self)
        ensures
            r.arm_place == self.arm_place,
            r.break_label == self.break_label,
            r.role == match self.role {
                WalkRole::SwitchCase | WalkRole::ChainBody => WalkRole::ChainBody,
                WalkRole::RetryLoopTop | WalkRole::RetryLoopNested => WalkRole::RetryLoopNested,
            },
    {
        let role = match self.role {
            WalkRole::SwitchCase | WalkRole::ChainBody => WalkRole::ChainBody,
            WalkRole::RetryLoopTop | WalkRole::RetryLoopNested => WalkRole::RetryLoopNested,
        };
        WalkCtx { arm_place: self.arm_place, role, break_label: self.break_label }
    }

    pub fn is_grouped_retry(&self) -> (r: bool)
        ensures
            r == (self.role is RetryLoopTop || self.role is RetryLoopNested),
    {
        matches!(self.role, WalkRole::RetryLoopTop | WalkRole::RetryLoopNested)
    }

    pub fn leaf_scope_explicit(&self) -> (r: bool)
        ensures
            r == (self.role is RetryLoopTop),
    {
        matches!(self.role, WalkRole::RetryLoopTop)
    }
}

/// What a `match` tests: one variable, or one variable per tuple element.
pub enum MatchSubject {
    Var(String),
    Elements(Vec<String>),
}

impl MatchSubject {
    /// The one name a binding resolves against.
    pub fn var(&self) -> (r: &str)
        requires
            *self is Var,
        ensures
            match *self {
                MatchSubject::Var(v) => r@ == v@,
                _ => false,
            },
    {
        match self {
            MatchSubject::Var(var) => var.as_str(),
            MatchSubject::Elements(_) => "",
        }
    }

    /// The root that access paths start from; `fields` names the tuple
    /// fields that select elements.
    pub fn root<'a>(&'a self, fields: &'a [String]) -> (r: SubjectRoot<'a>)
        ensures
            match *self {
                MatchSubject::Var(v) => r matches SubjectRoot::Var(x) && x@ == v@,
                MatchSubject::Elements(names) => r matches SubjectRoot::Elements { names: n, fields: f }
                    && n@ == names@ && f@ == fields@,
            },
    {
        match self {
            MatchSubject::Var(var) => SubjectRoot::Var(var.as_str()),
            MatchSubject::Elements(names) => SubjectRoot::Elements { names: names.as_slice(), fields },
        }
    }

    /// The variable names the subject reads.
    pub fn names(&self) -> (r: Vec<String>)
        ensures
            views_of(r@) == match *self {
                MatchSubject::Var(v) => seq![v@],
                MatchSubject::Elements(names) => views_of(names@),
            },
    {
        let empty: Vec<String> = Vec::new();
        self.root(empty.as_slice()).names()
    }
}

/// A chain whose fallback is unreachable ends in a catchall test.
pub open spec fn last_is_catchall(test_count: nat, fallback: DecisionV) -> bool {
    fallback is Unreachable && test_count > 1
}

pub fn chain_last_is_catchall(tests: &[ChainTest], fallback: &Decision) -> (r: bool)
    ensures
        r == last_is_catchall(tests@.len(), fallback@),
{
    matches!(fallback, Decision::Unreachable) && tests.len() > 1
}

/// The tests a chain cases on, and the catchall lifted out of them: the last
/// test is lifted when the chain ends in a catchall that is not guarded.
pub fn split_chain_with_catchall_lift<'t>(tests: &'t [ChainTest], fallback: &Decision) -> (r: (
    &'t [ChainTest],
    Option<&'t Decision>,
))
    ensures
        (last_is_catchall(tests@.len(), fallback@) && !(tests@.last().decision is Guard)) ==> (r.0@
            == tests@.drop_last() && r.1 == Some(&tests@.last().decision)),
        !(last_is_catchall(tests@.len(), fallback@) && !(tests@.last().decision is Guard)) ==> (r.0@
            == tests@ && r.1 is None),
{
    if !chain_last_is_catchall(tests, fallback) {
        return (tests, None);
    }
    let n = tests.len();
    let last = &tests[n - 1];
    if matches!(last.decision, Decision::Guard { .. }) {
        return (tests, None);
    }
    let rest = vstd::slice::slice_subrange(tests, 0, n - 1);
    assert(rest@ =~= tests@.drop_last());
    (rest, Some(&last.decision))
}

/// The branches a switch cases on, and its default: without a fallback the
/// last branch becomes the default.
pub fn split_with_default_lift<'t>(branches: &'t [SwitchBranch], fallback: Option<&'t Decision>) -> (r: (
    &'t [SwitchBranch],
    Option<&'t Decision>,
))
    ensures
        (fallback is None && branches@.len() > 0) ==> (r.0@ == branches@.drop_last() && r.1 == Some(
            &branches@.last().decision,
        )),
        !(fallback is None && branches@.len() > 0) ==> (r.0@ == branches@ && r.1 == fallback),
{
    let n = branches.len();
    if fallback.is_none() && n > 0 {
        let rest = vstd::slice::slice_subrange(branches, 0, n - 1);
        assert(rest@ =~= branches@.drop_last());
        (rest, Some(&branches[n - 1].decision))
    } else {
        (branches, fallback)
    }
}

/// The value a switch of this kind compares: the tag of an enum, or the
/// value itself.
pub open spec fn switch_expression_text(rendered_path: Seq<char>, kind: SwitchKind) -> Seq<char> {
    match kind {
        SwitchKind::EnumTag => wrapped_condition(rendered_path + ".Tag"@),
        _ => wrapped_condition(rendered_path),
    }
}

pub fn render_switch_expression(rendered_path: &str, kind: &SwitchKind) -> (r: String)
    requires
        !(*kind is TypeSwitch),
    ensures
        r@ == switch_expression_text(rendered_path@, *kind),
{
    match kind {
        SwitchKind::EnumTag => {
            let mut tagged = owned(rendered_path);
            tagged.append(".Tag");
            wrap_if_struct_literal(tagged)
        },
        _ => wrap_if_struct_literal(owned(rendered_path)),
    }
}

/// The condition under which a switch branch is taken.
pub open spec fn branch_condition_text(
    rendered_path: Seq<char>,
    kind: SwitchKind,
    shape: SwitchShape,
    case_label: Seq<char>,
) -> Seq<char> {
    if shape is Bool && case_label == "true"@ {
        wrapped_condition(rendered_path)
    } else {
        switch_expression_text(rendered_path, kind) + " == "@ + case_label
    }
}

pub fn switch_branch_condition(
    rendered_path: &str,
    kind: &SwitchKind,
    shape: &SwitchShape,
    case_label: &str,
) -> (r: String)
    requires
        !(*kind is TypeSwitch) || (*shape is Bool && case_label@ == "true"@),
    ensures
        r@ == branch_condition_text(rendered_path@, *kind, *shape, case_label@),
{
    if matches!(shape, SwitchShape::Bool) && str_eq(case_label, "true") {
        return wrap_if_struct_literal(owned(rendered_path));
    }
    let mut r = render_switch_expression(rendered_path, kind);
    r.append(" == ");
    r.append(case_label);
    r
}

/// The bindings a leaf installs before its body.
pub open spec fn top_bindings(d: DecisionV) -> Seq<BindingV> {
    match d {
        DecisionV::Guard { bindings, .. } => bindings,
        DecisionV::Success { bindings, .. } => bindings,
        _ => Seq::empty(),
    }
}

pub fn decision_top_bindings(decision: &Decision) -> (r: &[PatternBinding])
    ensures
        bindings_view(r@) == top_bindings(decision@),
{
    match decision {
        Decision::Guard { bindings, .. } => bindings.as_slice(),
        Decision::Success { bindings, .. } => bindings.as_slice(),
        _ => {
            let r: &[PatternBinding] = &[];
            assert(bindings_view(r@) =~= Seq::empty());
            r
        },
    }
}

/// A group of chain tests can share one set of bindings: it has more than
/// one test, some test binds, and every test that binds binds the same.
pub open spec fn hoistable(tests: Seq<ChainTest>, indices: Seq<usize>) -> bool {
    &&& indices.len() > 1
    &&& exists|k: int| 0 <= k < indices.len() && top_bindings(tests[indices[k] as int].decision@).len() > 0
    &&& forall|i: int, j: int|
        0 <= i < indices.len() && 0 <= j < indices.len() && top_bindings(
            tests[indices[i] as int].decision@,
        ).len() > 0 && top_bindings(tests[indices[j] as int].decision@).len() > 0 ==> top_bindings(
            tests[indices[i] as int].decision@,
        ) == top_bindings(tests[indices[j] as int].decision@)
}

fn same_bindings(a: &[PatternBinding], b: &[PatternBinding]) -> (r: bool)
    ensures
        r == (bindings_view(a@) == bindings_view(b@)),
{
    if a.len() != b.len() {
        assert(bindings_view(a@).len() != bindings_view(b@).len());
        return false;
    }
    let mut i: usize = 0;
    while i < a.len()
        invariant
            i <= a@.len(),
            a@.len() == b@.len(),
            forall|j: int| 0 <= j < i ==> bindings_view(a@)[j] == bindings_view(b@)[j],
        decreases a.len() - i,
    {
        let x = &a[i];
        let y = &b[i];
        let same_go_name = match (&x.go_name, &y.go_name) {
            (Some(p), Some(q)) => str_eq(p.as_str(), q.as_str()),
            (None, None) => true,
            _ => false,
        };
        if !(str_eq(x.lisette_name.as_str(), y.lisette_name.as_str()) && same_go_name
            && x.path.same_as(&y.path)) {
            assert(bindings_view(a@)[i as int] != bindings_view(b@)[i as int]);
            return false;
        }
        i = i + 1;
    }
    assert(bindings_view(a@) =~= bindings_view(b@));
    true
}

/// Whether the tests at `indices` can share one hoisted set of bindings.
pub fn bindings_are_hoistable(tests: &[ChainTest], indices: &[usize]) -> (r: bool)
    requires
        forall|i: int| 0 <= i < indices@.len() ==> indices@[i] < tests@.len(),
    ensures
        r == hoistable(tests@, indices@),
{
    if indices.len() <= 1 {
        return false;
    }
    let mut k: usize = 0;
    while k < indices.len()
        invariant
            k <= indices@.len(),
            forall|i: int| 0 <= i < indices@.len() ==> indices@[i] < tests@.len(),
            forall|j: int|
                0 <= j < k ==> top_bindings(tests@[indices@[j] as int].decision@).len() == 0,
        ensures
            k <= indices@.len(),
            k < indices@.len() ==> top_bindings(tests@[indices@[k as int] as int].decision@).len() > 0,
            forall|j: int|
                0 <= j < k ==> top_bindings(tests@[indices@[j] as int].decision@).len() == 0,
        decreases indices.len() - k,
    {
        if decision_top_bindings(&tests[indices[k]].decision).len() > 0 {
            break;
        }
        k = k + 1;
    }
    if k == indices.len() {
        return false;
    }
    let reference = decision_top_bindings(&tests[indices[k]].decision);
    let mut j: usize = 0;
    while j < indices.len()
        invariant
            j <= indices@.len(),
            k < indices@.len(),
            forall|i: int| 0 <= i < indices@.len() ==> indices@[i] < tests@.len(),
            bindings_view(reference@) == top_bindings(tests@[indices@[k as int] as int].decision@),
            bindings_view(reference@).len() > 0,
            forall|i: int|
                0 <= i < j ==> top_bindings(tests@[indices@[i] as int].decision@).len() == 0
                    || top_bindings(tests@[indices@[i] as int].decision@) == bindings_view(reference@),
        decreases indices.len() - j,
    {
        let bindings = decision_top_bindings(&tests[indices[j]].decision);
        if !(bindings.len() == 0 || same_bindings(bindings, reference)) {
            return false;
        }
        j = j + 1;
    }
    true
}

/// The grouping key of a chain condition: the condition, or empty when the
/// test always holds.
pub open spec fn condition_key(c: Option<String>) -> Seq<char> {
    match c {
        Some(s) => s@,
        None => Seq::empty(),
    }
}

/// Runs of consecutive tests with the same condition key, each with the
/// indices of its tests.
pub open spec fn condition_groups(conditions: Seq<Option<String>>) -> Seq<(Seq<char>, Seq<usize>)>
    decreases conditions.len(),
{
    if conditions.len() == 0 {
        Seq::empty()
    } else {
        let prev = condition_groups(conditions.drop_last());
        let key = condition_key(conditions.last());
        let i = (conditions.len() - 1) as usize;
        if prev.len() > 0 && prev.last().0 == key {
            prev.update(prev.len() - 1, (key, prev.last().1.push(i)))
        } else {
            prev.push((key, seq![i]))
        }
    }
}

pub open spec fn groups_view(groups: Seq<(&str, Vec<usize>)>) -> Seq<(Seq<char>, Seq<usize>)> {
    groups.map_values(|g: (&str, Vec<usize>)| (g.0@, g.1@))
}

/// Groups consecutive chain tests that share a condition.
pub fn group_chain_tests_by_condition(conditions: &[Option<String>]) -> (r: Vec<(&str, Vec<usize>)>)
    ensures
        groups_view(r@) == condition_groups(conditions@),
{
    let mut groups: Vec<(&str, Vec<usize>)> = Vec::new();
    let mut i: usize = 0;
    while i < conditions.len()
        invariant
            i <= conditions@.len(),
            groups_view(groups@) == condition_groups(conditions@.subrange(0, i as int)),
        decreases conditions.len() - i,
    {
        let key: &str = match &conditions[i] {
            Some(c) => c.as_str(),
            None => "",
        };
        proof {
            reveal_strlit("");
            assert(key@ == condition_key(conditions@[i as int]));
            assert(conditions@.subrange(0, i + 1).drop_last() =~= conditions@.subrange(0, i as int));
            assert(conditions@.subrange(0, i + 1).last() == conditions@[i as int]);
        }
        let n = groups.len();
        let ghost before = groups@;
        if n > 0 && str_eq(groups[n - 1].0, key) {
            let (last_key, mut indices) = groups.pop().unwrap();
            indices.push(i);
            groups.push((last_key, indices));
            proof {
                assert(groups_view(groups@) =~= groups_view(before).update(
                    n - 1,
                    (key@, groups_view(before)[n - 1].1.push(i)),
                ));
            }
        } else {
            let mut indices: Vec<usize> = Vec::new();
            indices.push(i);
            groups.push((key, indices));
            proof {
                assert(groups_view(groups@) =~= groups_view(before).push((key@, seq![i])));
            }
        }
        i = i + 1;
    }
    assert(conditions@.subrange(0, i as int) =~= conditions@);
    groups
}

/// One non-catchall branch of a pattern chain: its condition and body.
pub struct ChainBranch {
    pub condition: String,
    pub body: LoweredBlock,
}

/// `arm` nests the branches of `rest`, in order, as `else if` arms without
/// setup, around `trailing`.
pub open spec fn chain_else(arm: ElseArm, rest: Seq<ChainBranch>, trailing: ElseArm) -> bool
    decreases rest.len(),
{
    if rest.len() == 0 {
        arm == trailing
    } else {
        match arm {
            ElseArm::ElseIf(p) => {
                &&& p.condition_setup@.len() == 0
                &&& p.condition == rest[0].condition
                &&& p.then_body == rest[0].body
                &&& chain_else(p.else_arm, rest.drop_first(), trailing)
            },
            _ => false,
        }
    }
}

/// Assembles chain branches into a nested `if`/`else if` plan, with
/// `trailing` as the innermost `else` arm.
pub fn build_chain_plan(branches: Vec<ChainBranch>, trailing: ElseArm) -> (r: IfPlan)
    requires
        branches@.len() > 0,
    ensures
        r.condition_setup@.len() == 0,
        r.condition == branches@[0].condition,
        r.then_body == branches@[0].body,
        chain_else(r.else_arm, branches@.drop_first(), trailing),
{
    let ghost all = branches@;
    let mut branches = branches;
    let mut else_arm = trailing;
    proof {
        assert(all.subrange(all.len() as int, all.len() as int) =~= Seq::<ChainBranch>::empty());
        assert(all.subrange(0, all.len() as int) =~= all);
    }
    while branches.len() > 1
        invariant
            1 <= branches@.len() <= all.len(),
            branches@ == all.subrange(0, branches@.len() as int),
            chain_else(else_arm, all.subrange(branches@.len() as int, all.len() as int), trailing),
        decreases branches.len(),
    {
        let ghost k = branches@.len() as int;
        let branch = branches.pop().unwrap();
        proof {
            let rest = all.subrange(k - 1, all.len() as int);
            assert(rest[0] == branch);
            assert(rest.drop_first() =~= all.subrange(k, all.len() as int));
        }
        let condition_setup: Vec<LoweredStatement> = Vec::new();
        else_arm = ElseArm::ElseIf(
            Box::new(
                IfPlan { condition_setup, condition: branch.condition, then_body: branch.body, else_arm },
            ),
        );
    }
    assert(all.subrange(1, all.len() as int) =~= all.drop_first());
    let head = branches.pop().unwrap();
    IfPlan { condition_setup: Vec::new(), condition: head.condition, then_body: head.body, else_arm }
}

/// The statements after a switch: `panic("unreachable")` when the switch
/// stands in return position without a default.
pub fn switch_postlude(place: &PlacePlan, has_default: bool) -> (r: Vec<LoweredStatement>)
    ensures
        (*place is Return && !has_default) ==> r@ == seq![LoweredStatement::UnreachablePanic],
        !(*place is Return && !has_default) ==> r@.len() == 0,
{
    let mut r: Vec<LoweredStatement> = Vec::new();
    if let Some(panic) = unreachable_panic_if_needed(place, has_default) {
        r.push(panic);
    }
    r
}

/// Moves `body_statements` onto `statements`; returns whether they end in a
/// diverging statement.
pub fn capture_diverge(body_statements: Vec<LoweredStatement>, statements: &mut Vec<LoweredStatement>) -> (r:
    bool)
    ensures
        r == block_diverges(LoweredBlock { statements: body_statements }),
        final(statements)@ == old(statements)@ + body_statements@,
{
    let mut block = LoweredBlock { statements: body_statements };
    let diverges = block.ends_with_diverge();
    statements.append(&mut block.statements);
    diverges
}

/// On a retry-loop walk, a leaf whose body falls through breaks out of the
/// loop.
pub fn apply_leaf_terminator(statements: &mut Vec<LoweredStatement>, ctx: &WalkCtx, body_diverges: bool)
    ensures
        match ctx.break_label {
            Some(label) if !body_diverges => final(statements)@.len() == old(statements)@.len() + 1
                && final(statements)@.drop_last() == old(statements)@ && (final(statements)@.last() matches LoweredStatement::Break(
                LoopTransfer::Labeled(l),
            ) && l@ == label@),
            _ => *final(statements) == *old(statements),
        },
{
    if let Some(label) = ctx.break_label {
        if !body_diverges {
            statements.push(LoweredStatement::Break(LoopTransfer::Labeled(owned(label))));
            assert(statements@.drop_last() =~= old(statements)@);
        }
    }
}

/// The test indices of the groups, in order.
pub open spec fn grouped_indices(groups: Seq<(Seq<char>, Seq<usize>)>) -> Seq<usize>
    decreases groups.len(),
{
    if groups.len() == 0 {
        Seq::empty()
    } else {
        grouped_indices(groups.drop_last()) + groups.last().1
    }
}

/// Each group's tests have the group's condition, and every index names a
/// test.
pub open spec fn groups_keyed(conditions: Seq<Option<String>>, groups: Seq<(Seq<char>, Seq<usize>)>) -> bool {
    forall|k: int, j: int|
        0 <= k < groups.len() && 0 <= j < groups[k].1.len() ==> #[trigger] groups[k].1[j] < conditions.len()
            && condition_key(conditions[groups[k].1[j] as int]) == groups[k].0
}

/// No two neighbouring groups have the same condition.
pub open spec fn neighbours_differ(groups: Seq<(Seq<char>, Seq<usize>)>) -> bool {
    forall|k: int| 0 <= k < groups.len() - 1 ==> #[trigger] groups[k].0 != groups[k + 1].0
}

/// Grouping chain tests keeps every test once and in order, gives each group
/// the condition of its tests, and never puts two groups with the same
/// condition next to each other. (A test index is a `usize`, so there are
/// at most `usize::MAX` tests.)
pub proof fn law_condition_groups(conditions: Seq<Option<String>>)
    requires
        conditions.len() <= usize::MAX,
    ensures
        grouped_indices(condition_groups(conditions)) == Seq::new(conditions.len(), |i: int| i as usize),
        groups_keyed(conditions, condition_groups(conditions)),
        neighbours_differ(condition_groups(conditions)),
    decreases conditions.len(),
{
    let n = conditions.len();
    if n == 0 {
        assert(grouped_indices(condition_groups(conditions)) =~= Seq::new(0, |i: int| i as usize));
    } else {
        let before = conditions.drop_last();
        law_condition_groups(before);
        let prev = condition_groups(before);
        let key = condition_key(conditions.last());
        let i = (n - 1) as usize;
        let g = condition_groups(conditions);
        assert forall|x: int| 0 <= x < before.len() implies before[x] == conditions[x] by {}
        if prev.len() > 0 && prev.last().0 == key {
            let last = (key, prev.last().1.push(i));
            assert(g == prev.update(prev.len() - 1, last));
            assert(g.drop_last() =~= prev.drop_last());
            assert(prev.drop_last().push(prev.last()) =~= prev);
            assert(grouped_indices(prev) == grouped_indices(prev.drop_last()) + prev.last().1);
            assert(grouped_indices(g) == grouped_indices(g.drop_last()) + g.last().1);
            assert(grouped_indices(g) =~= grouped_indices(prev).push(i));
            assert(Seq::new((n - 1) as nat, |x: int| x as usize).push(i) =~= Seq::new(n, |x: int| x as usize));
            assert forall|k: int, j: int| 0 <= k < g.len() && 0 <= j < g[k].1.len() implies #[trigger] g[k].1[j]
                < conditions.len() && condition_key(conditions[g[k].1[j] as int]) == g[k].0 by {
                if k < g.len() - 1 || j < prev.last().1.len() {
                    assert(g[k].1[j] == prev[k].1[j]);
                    let idx = prev[k].1[j] as int;
                    assert(idx < before.len());
                    assert(before[idx] == conditions[idx]);
                } else {
                    assert(g[k].1[j] == i);
                    assert(conditions[i as int] == conditions.last());
                }
            }
            assert forall|k: int| 0 <= k < g.len() - 1 implies #[trigger] g[k].0 != g[k + 1].0 by {
                assert(g[k].0 == prev[k].0);
                assert(g[k + 1].0 == prev[k + 1].0);
            }
        } else {
            assert(g == prev.push((key, seq![i])));
            assert(g.drop_last() =~= prev);
            assert(grouped_indices(g) =~= grouped_indices(prev).push(i));
            assert(Seq::new((n - 1) as nat, |x: int| x as usize).push(i) =~= Seq::new(n, |x: int| x as usize));
            assert forall|k: int, j: int| 0 <= k < g.len() && 0 <= j < g[k].1.len() implies #[trigger] g[k].1[j]
                < conditions.len() && condition_key(conditions[g[k].1[j] as int]) == g[k].0 by {
                if k < g.len() - 1 {
                    assert(g[k] == prev[k]);
                    let idx = prev[k].1[j] as int;
                    assert(idx < before.len());
                    assert(before[idx] == conditions[idx]);
                } else {
                    assert(g[k].1[j] == i);
                    assert(conditions[i as int] == conditions.last());
                }
            }
            assert forall|k: int| 0 <= k < g.len() - 1 implies #[trigger] g[k].0 != g[k + 1].0 by {
                if k < g.len() - 2 {
                    assert(g[k] == prev[k]);
                    assert(g[k + 1] == prev[k + 1]);
                }
            }
        }
    }
}

} // verus!
