//! Decision trees for `match`: arms compiled to Go `switch` and `if` chains.

use vstd::prelude::*;
use crate::text::{str_eq, seq_join, views_of, join};
use crate::checks::{
    AccessPath, Check, CheckV, SegmentV, checks_view, duplicate_checks, lemma_checks_push, lemma_checks_view_index, lemma_or_view_lens,
    alternatives_view,
};

verus! {

/// A name a pattern binds, and where its value lives.
pub struct PatternBinding {
    pub lisette_name: String,
    /// `None` when the binding is unused.
    pub go_name: Option<String>,
    pub path: AccessPath,
}

/// The mathematical form of a [`PatternBinding`].
pub struct BindingV {
    pub lisette_name: Seq<char>,
    pub go_name: Option<Seq<char>>,
    pub path: Seq<SegmentV>,
}

pub open spec fn opt_view(o: Option<String>) -> Option<Seq<char>> {
    match o {
        Some(s) => Some(s@),
        None => None,
    }
}

impl View for PatternBinding {
    type V = BindingV;

    open spec fn view(&self) -> BindingV {
        BindingV {
            lisette_name: self.lisette_name@,
            go_name: opt_view(self.go_name),
            path: self.path@,
        }
    }
}

pub open spec fn bindings_view(s: Seq<PatternBinding>) -> Seq<BindingV> {
    s.map_values(|b: PatternBinding| b@)
}

pub proof fn lemma_bindings_push(s: Seq<PatternBinding>, x: PatternBinding)
    ensures
        bindings_view(s.push(x)) == bindings_view(s).push(x@),
{
    assert(bindings_view(s.push(x)) =~= bindings_view(s).push(x@)) by {
        assert forall|j: int| 0 <= j < s.len() + 1 implies #[trigger] bindings_view(s.push(x))[j]
            == bindings_view(s).push(x@)[j] by {
            if j < s.len() {
                assert(s.push(x)[j] == s[j]);
            }
        }
    }
}

impl PatternBinding {
    pub fn duplicate(&self) -> (r: PatternBinding)
        ensures
            r@ == self@,
    {
        PatternBinding {
            lisette_name: self.lisette_name.clone(),
            go_name: match &self.go_name {
                Some(n) => Some(n.clone()),
                None => None,
            },
            path: self.path.duplicate(),
        }
    }
}

/// A copy of `bindings`.
pub fn duplicate_bindings(bindings: &Vec<PatternBinding>) -> (r: Vec<PatternBinding>)
    ensures
        bindings_view(r@) == bindings_view(bindings@),
{
    let mut r: Vec<PatternBinding> = Vec::new();
    let mut i: usize = 0;
    while i < bindings.len()
        invariant
            i <= bindings@.len(),
            bindings_view(r@) == bindings_view(bindings@).take(i as int),
        decreases bindings.len() - i,
    {
        let b = bindings[i].duplicate();
        proof { lemma_bindings_push(r@, b); }
        r.push(b);
        assert(bindings_view(r@) =~= bindings_view(bindings@).take(i + 1));
        i = i + 1;
    }
    assert(bindings_view(bindings@).take(i as int) =~= bindings_view(bindings@));
    r
}

/// A root-path Go-interface type assertion lifted out of an arm's checks.
pub struct TypeAssertion {
    pub path: AccessPath,
    pub go_types: Vec<String>,
}

/// The mathematical form of a [`TypeAssertion`].
pub struct AssertionV {
    pub path: Seq<SegmentV>,
    pub go_types: Seq<Seq<char>>,
}

impl View for TypeAssertion {
    type V = AssertionV;

    open spec fn view(&self) -> AssertionV {
        AssertionV { path: self.path@, go_types: views_of(self.go_types@) }
    }
}

pub fn duplicate_strings(v: &Vec<String>) -> (r: Vec<String>)
    ensures
        views_of(r@) == views_of(v@),
{
    let mut r: Vec<String> = Vec::new();
    let mut i: usize = 0;
    while i < v.len()
        invariant
            i <= v@.len(),
            views_of(r@) == views_of(v@).take(i as int),
        decreases v.len() - i,
    {
        let s = v[i].clone();
        proof { crate::text::lemma_views_push(r@, s); }
        r.push(s);
        assert(views_of(r@) =~= views_of(v@).take(i + 1));
        i = i + 1;
    }
    assert(views_of(v@).take(i as int) =~= views_of(v@));
    r
}

impl TypeAssertion {
    pub fn duplicate(&self) -> (r: TypeAssertion)
        ensures
            r@ == self@,
    {
        TypeAssertion { path: self.path.duplicate(), go_types: duplicate_strings(&self.go_types) }
    }
}

pub open spec fn assertion_view(a: Option<TypeAssertion>) -> Option<AssertionV> {
    match a {
        Some(a) => Some(a@),
        None => None,
    }
}

/// What one match arm asks of the subject.
pub struct ArmInfo {
    pub arm_index: usize,
    pub root_assertion: Option<TypeAssertion>,
    pub checks: Vec<Check>,
    pub bindings: Vec<PatternBinding>,
    pub has_guard: bool,
}

/// The mathematical form of an [`ArmInfo`].
pub struct ArmV {
    pub arm_index: usize,
    pub root_assertion: Option<AssertionV>,
    pub checks: Seq<CheckV>,
    pub bindings: Seq<BindingV>,
    pub has_guard: bool,
}

impl View for ArmInfo {
    type V = ArmV;

    open spec fn view(&self) -> ArmV {
        ArmV {
            arm_index: self.arm_index,
            root_assertion: assertion_view(self.root_assertion),
            checks: checks_view(self.checks@),
            bindings: bindings_view(self.bindings@),
            has_guard: self.has_guard,
        }
    }
}

pub open spec fn arms_view(s: Seq<ArmInfo>) -> Seq<ArmV> {
    s.map_values(|a: ArmInfo| a@)
}

pub proof fn lemma_arms_push(s: Seq<ArmInfo>, x: ArmInfo)
    ensures
        arms_view(s.push(x)) == arms_view(s).push(x@),
{
    assert(arms_view(s.push(x)) =~= arms_view(s).push(x@)) by {
        assert forall|j: int| 0 <= j < s.len() + 1 implies #[trigger] arms_view(s.push(x))[j]
            == arms_view(s).push(x@)[j] by {
            if j < s.len() {
                assert(s.push(x)[j] == s[j]);
            }
        }
    }
}

/// An arm with no checks and no type assertion matches every subject.
pub open spec fn is_catchall(arm: ArmV) -> bool {
    arm.checks.len() == 0 && arm.root_assertion is None
}

impl ArmInfo {
    pub fn is_catchall(&self) -> (r: bool)
        ensures
            r == is_catchall(self@),
    {
        self.checks.len() == 0 && self.root_assertion.is_none()
    }

    pub fn duplicate(&self) -> (r: ArmInfo)
        ensures
            r@ == self@,
    {
        ArmInfo {
            arm_index: self.arm_index,
            root_assertion: match &self.root_assertion {
                Some(a) => Some(a.duplicate()),
                None => None,
            },
            checks: duplicate_checks(&self.checks),
            bindings: duplicate_bindings(&self.bindings),
            has_guard: self.has_guard,
        }
    }
}

/// Copies of `arms[from..]`.
pub fn arms_from(arms: &Vec<ArmInfo>, from: usize) -> (r: Vec<ArmInfo>)
    requires
        from <= arms@.len(),
    ensures
        arms_view(r@) == arms_view(arms@).skip(from as int),
{
    let mut r: Vec<ArmInfo> = Vec::new();
    let mut i: usize = from;
    while i < arms.len()
        invariant
            from <= i <= arms@.len(),
            arms_view(r@) == arms_view(arms@).subrange(from as int, i as int),
        decreases arms.len() - i,
    {
        let a = arms[i].duplicate();
        proof { lemma_arms_push(r@, a); }
        r.push(a);
        assert(arms_view(r@) =~= arms_view(arms@).subrange(from as int, i + 1));
        i = i + 1;
    }
    assert(arms_view(arms@).subrange(from as int, i as int) =~= arms_view(arms@).skip(from as int));
    r
}


/// How a switch site tests its subject.
#[derive(Clone, Copy, PartialEq, Eq, Structural)]
pub enum SwitchKind {
    EnumTag,
    Value,
    TypeSwitch,
}

/// Structural shape of a switch site, chosen at build time.
#[derive(Clone, Copy, PartialEq, Eq, Structural)]
pub enum SwitchShape {
    TypeSwitch,
    /// Two branches with `"true"`/`"false"` labels, no fallback.
    Bool,
    /// Two branches, no fallback, not `Bool`.
    Binary,
    SingleArm,
    Multi,
}

/// A pre-computed decision tree for pattern matching.
pub enum Decision {
    Success { arm_index: usize, bindings: Vec<PatternBinding> },
    /// Guarded success: emit the body iff the guard holds, else continue with
    /// `failure`.
    Guard {
        arm_index: usize,
        bindings: Vec<PatternBinding>,
        success: Box<Decision>,
        failure: Box<Decision>,
    },
    /// Emits as Go `switch` when eligible.
    Switch {
        path: AccessPath,
        kind: SwitchKind,
        shape: SwitchShape,
        branches: Vec<SwitchBranch>,
        fallback: Option<Box<Decision>>,
    },
    /// Emits as `if`/`else if`/`else`.
    Chain { tests: Vec<ChainTest>, fallback: Box<Decision> },
    /// Emits `panic("unreachable")` in tail position.
    Unreachable,
}

pub struct SwitchBranch {
    pub case_label: String,
    pub decision: Decision,
}

pub struct ChainTest {
    pub checks: Vec<Check>,
    pub decision: Decision,
}

/// The mathematical form of a [`Decision`].
pub enum DecisionV {
    Success { arm_index: usize, bindings: Seq<BindingV> },
    Guard {
        arm_index: usize,
        bindings: Seq<BindingV>,
        success: Box<DecisionV>,
        failure: Box<DecisionV>,
    },
    Switch {
        path: Seq<SegmentV>,
        kind: SwitchKind,
        shape: SwitchShape,
        branches: Seq<BranchV>,
        fallback: Option<Box<DecisionV>>,
    },
    Chain { tests: Seq<TestV>, fallback: Box<DecisionV> },
    Unreachable,
}

pub struct BranchV {
    pub case_label: Seq<char>,
    pub decision: DecisionV,
}

pub struct TestV {
    pub checks: Seq<CheckV>,
    pub decision: DecisionV,
}

pub open spec fn decision_view(d: Decision) -> DecisionV
    decreases d,
{
    match d {
        Decision::Success { arm_index, bindings } => DecisionV::Success {
            arm_index,
            bindings: bindings_view(bindings@),
        },
        Decision::Guard { arm_index, bindings, success, failure } => DecisionV::Guard {
            arm_index,
            bindings: bindings_view(bindings@),
            success: Box::new(decision_view(*success)),
            failure: Box::new(decision_view(*failure)),
        },
        Decision::Switch { path, kind, shape, branches, fallback } => DecisionV::Switch {
            path: path@,
            kind,
            shape,
            branches: Seq::new(
                branches@.len(),
                |i: int|
                    {
                        if 0 <= i < branches@.len() {
                            proof {
                                broadcast use vstd::std_specs::vec::axiom_vec_decreases_to_view;

                                assert(decreases_to!(branches => branches@));
                                assert(decreases_to!(branches@ => branches@[i]));
                                assert(decreases_to!(branches@[i] => branches@[i].decision));
                            }
                            BranchV {
                                case_label: branches@[i].case_label@,
                                decision: decision_view(branches@[i].decision),
                            }
                        } else {
                            BranchV { case_label: Seq::empty(), decision: DecisionV::Unreachable }
                        }
                    },
            ),
            fallback: match fallback {
                Some(f) => Some(Box::new(decision_view(*f))),
                None => None,
            },
        },
        Decision::Chain { tests, fallback } => DecisionV::Chain {
            tests: Seq::new(
                tests@.len(),
                |i: int|
                    {
                        if 0 <= i < tests@.len() {
                            proof {
                                broadcast use vstd::std_specs::vec::axiom_vec_decreases_to_view;

                                assert(decreases_to!(tests => tests@));
                                assert(decreases_to!(tests@ => tests@[i]));
                                assert(decreases_to!(tests@[i] => tests@[i].decision));
                            }
                            TestV {
                                checks: checks_view(tests@[i].checks@),
                                decision: decision_view(tests@[i].decision),
                            }
                        } else {
                            TestV { checks: Seq::empty(), decision: DecisionV::Unreachable }
                        }
                    },
            ),
            fallback: Box::new(decision_view(*fallback)),
        },
        Decision::Unreachable => DecisionV::Unreachable,
    }
}

impl View for Decision {
    type V = DecisionV;

    open spec fn view(&self) -> DecisionV {
        decision_view(*self)
    }
}

impl View for SwitchBranch {
    type V = BranchV;

    open spec fn view(&self) -> BranchV {
        BranchV { case_label: self.case_label@, decision: self.decision@ }
    }
}

impl View for ChainTest {
    type V = TestV;

    open spec fn view(&self) -> TestV {
        TestV { checks: checks_view(self.checks@), decision: self.decision@ }
    }
}

pub open spec fn branches_view(s: Seq<SwitchBranch>) -> Seq<BranchV> {
    s.map_values(|b: SwitchBranch| b@)
}

pub open spec fn tests_view(s: Seq<ChainTest>) -> Seq<TestV> {
    s.map_values(|t: ChainTest| t@)
}

pub proof fn lemma_switch_view(d: Decision)
    requires
        d is Switch,
    ensures
        d@ matches DecisionV::Switch { branches, fallback, .. } && branches == branches_view(
            d->Switch_branches@,
        ) && fallback == match d->Switch_fallback {
            Some(f) => Some(Box::new(f@)),
            None => None::<Box<DecisionV>>,
        },
{
    let bs = d->Switch_branches;
    let v = d@->Switch_branches;
    assert(v.len() == bs@.len());
    assert(v =~= branches_view(bs@));
}

pub proof fn lemma_chain_view(d: Decision)
    requires
        d is Chain,
    ensures
        d@ matches DecisionV::Chain { tests, fallback } && tests == tests_view(d->Chain_tests@)
            && *fallback == d->Chain_fallback@,
{
    let ts = d->Chain_tests;
    let v = d@->Chain_tests;
    assert(v.len() == ts@.len());
    assert(v =~= tests_view(ts@));
}


/// How much an arm still asks: its checks plus its root type assertion.
pub open spec fn arm_weight(arm: ArmV) -> nat {
    arm.checks.len() + if arm.root_assertion is Some { 1nat } else { 0nat }
}

pub open spec fn total_weight(arms: Seq<ArmV>) -> nat
    decreases arms.len(),
{
    if arms.len() == 0 {
        0
    } else {
        total_weight(arms.drop_last()) + arm_weight(arms.last())
    }
}

pub proof fn lemma_weight_concat(a: Seq<ArmV>, b: Seq<ArmV>)
    ensures
        total_weight(a + b) == total_weight(a) + total_weight(b),
    decreases b.len(),
{
    if b.len() > 0 {
        lemma_weight_concat(a, b.drop_last());
        assert((a + b).drop_last() =~= a + b.drop_last());
    } else {
        assert(a + b =~= a);
    }
}

pub proof fn lemma_weight_skip(a: Seq<ArmV>, i: int)
    requires
        0 <= i <= a.len(),
    ensures
        total_weight(a.skip(i)) <= total_weight(a),
{
    lemma_weight_concat(a.take(i), a.skip(i));
    assert(a.take(i) + a.skip(i) =~= a);
}

pub proof fn lemma_weight_member(a: Seq<ArmV>, i: int)
    requires
        0 <= i < a.len(),
    ensures
        arm_weight(a[i]) <= total_weight(a),
    decreases a.len(),
{
    if i < a.len() - 1 {
        lemma_weight_member(a.drop_last(), i);
    }
}

pub proof fn lemma_weight_catchalls(a: Seq<ArmV>)
    requires
        forall|i: int| 0 <= i < a.len() ==> is_catchall(#[trigger] a[i]),
    ensures
        total_weight(a) == 0,
    decreases a.len(),
{
    if a.len() > 0 {
        lemma_weight_catchalls(a.drop_last());
    }
}

/// The index of the first arm that is not a catchall, or -1.
pub open spec fn first_relevant(arms: Seq<ArmV>) -> int
    decreases arms.len(),
{
    if arms.len() == 0 {
        -1
    } else if !is_catchall(arms[0]) {
        0
    } else {
        let p = first_relevant(arms.drop_first());
        if p < 0 { -1 } else { p + 1 }
    }
}

pub proof fn lemma_first_relevant(arms: Seq<ArmV>, i: int)
    requires
        0 <= i <= arms.len(),
        forall|j: int| 0 <= j < i ==> is_catchall(#[trigger] arms[j]),
    ensures
        i < arms.len() && !is_catchall(arms[i]) ==> first_relevant(arms) == i,
        i == arms.len() ==> first_relevant(arms) == -1,
    decreases arms.len(),
{
    if arms.len() > 0 && i > 0 {
        assert(is_catchall(arms[0]));
        lemma_first_relevant(arms.drop_first(), i - 1);
    }
}

pub proof fn lemma_first_relevant_range(arms: Seq<ArmV>)
    ensures
        -1 <= first_relevant(arms) < arms.len(),
        first_relevant(arms) >= 0 ==> !is_catchall(arms[first_relevant(arms)]),
    decreases arms.len(),
{
    if arms.len() > 0 {
        lemma_first_relevant_range(arms.drop_first());
    }
}

/// The switch an arm asks for, decided by its root assertion or first check.
pub open spec fn pick_kind(arm: ArmV) -> Option<(SwitchKind, Seq<SegmentV>)> {
    match arm.root_assertion {
        Some(a) => Some((SwitchKind::TypeSwitch, a.path)),
        None => if arm.checks.len() == 0 {
            None
        } else {
            match arm.checks[0] {
                CheckV::EnumTag { path, .. } => Some((SwitchKind::EnumTag, path)),
                CheckV::Literal { path, .. } => Some((SwitchKind::Value, path)),
                _ => None,
            }
        },
    }
}

/// Whether a non-catchall arm can be one case of a `kind` switch on `path`.
pub open spec fn arm_fits(arm: ArmV, kind: SwitchKind, path: Seq<SegmentV>) -> bool {
    if arm.has_guard && kind != SwitchKind::TypeSwitch {
        false
    } else {
        match kind {
            SwitchKind::EnumTag => arm.root_assertion is None && arm.checks.len() > 0
                && arm.checks[0] is EnumTag && arm.checks[0]->EnumTag_path == path,
            SwitchKind::Value => arm.root_assertion is None && arm.checks.len() == 1
                && arm.checks[0] is Literal && arm.checks[0]->Literal_path == path,
            SwitchKind::TypeSwitch => arm.root_assertion matches Some(a) && a.path == path,
        }
    }
}

/// Whether every non-catchall arm fits one `kind` switch on `path`.
pub open spec fn switch_valid(arms: Seq<ArmV>, kind: SwitchKind, path: Seq<SegmentV>) -> bool {
    forall|i: int| 0 <= i < arms.len() && !is_catchall(#[trigger] arms[i]) ==> arm_fits(arms[i], kind, path)
}

/// Whether a non-catchall arm carries what a `kind` switch reads from it: the
/// leading check of that kind, or the root type assertion.
pub open spec fn arm_groupable(arm: ArmV, kind: SwitchKind) -> bool {
    match kind {
        SwitchKind::EnumTag => arm.checks.len() > 0 && arm.checks[0] is EnumTag,
        SwitchKind::Value => arm.checks.len() > 0 && arm.checks[0] is Literal,
        SwitchKind::TypeSwitch => arm.root_assertion is Some,
    }
}

/// Whether every non-catchall arm can be grouped under a `kind` switch.
pub open spec fn groupable(arms: Seq<ArmV>, kind: SwitchKind) -> bool {
    forall|i: int| 0 <= i < arms.len() && !is_catchall(#[trigger] arms[i]) ==> arm_groupable(arms[i], kind)
}

/// The case label of a fitting arm and the arm left once the switch has tested it.
pub open spec fn case_split(arm: ArmV, kind: SwitchKind) -> (Seq<char>, ArmV) {
    match kind {
        SwitchKind::EnumTag => (
            arm.checks[0]->EnumTag_tag_constant,
            ArmV { root_assertion: None, checks: arm.checks.drop_first(), ..arm },
        ),
        SwitchKind::Value => (
            arm.checks[0]->Literal_go_literal,
            ArmV { root_assertion: None, checks: arm.checks.drop_first(), ..arm },
        ),
        SwitchKind::TypeSwitch => (
            seq_join(arm.root_assertion.unwrap().go_types, ", "@),
            ArmV { root_assertion: None, ..arm },
        ),
    }
}

pub open spec fn group_labels(groups: Seq<(Seq<char>, Seq<ArmV>)>) -> Seq<Seq<char>> {
    groups.map_values(|g: (Seq<char>, Seq<ArmV>)| g.0)
}

/// Arms grouped by case label in first-seen order, plus the catchall arms.
pub open spec fn group_arms(arms: Seq<ArmV>, kind: SwitchKind) -> (
    Seq<(Seq<char>, Seq<ArmV>)>,
    Seq<ArmV>,
)
    decreases arms.len(),
{
    if arms.len() == 0 {
        (Seq::empty(), Seq::empty())
    } else {
        let (groups, fallback) = group_arms(arms.drop_last(), kind);
        let arm = arms.last();
        if is_catchall(arm) {
            (groups, fallback.push(arm))
        } else {
            let (label, inner) = case_split(arm, kind);
            let p = crate::checks::position(group_labels(groups), label);
            if p >= 0 {
                (groups.update(p, (groups[p].0, groups[p].1.push(inner))), fallback)
            } else {
                (groups.push((label, seq![inner])), fallback)
            }
        }
    }
}

/// The catchall arms, in order.
pub open spec fn catchall_arms(arms: Seq<ArmV>) -> Seq<ArmV>
    decreases arms.len(),
{
    if arms.len() == 0 {
        Seq::empty()
    } else {
        let before = catchall_arms(arms.drop_last());
        if is_catchall(arms.last()) {
            before.push(arms.last())
        } else {
            before
        }
    }
}

/// The non-catchall arms whose case label is `label`, in order, each as the
/// switch leaves it.
pub open spec fn arms_labelled(arms: Seq<ArmV>, kind: SwitchKind, label: Seq<char>) -> Seq<ArmV>
    decreases arms.len(),
{
    if arms.len() == 0 {
        Seq::empty()
    } else {
        let before = arms_labelled(arms.drop_last(), kind, label);
        let arm = arms.last();
        if !is_catchall(arm) && case_split(arm, kind).0 == label {
            before.push(case_split(arm, kind).1)
        } else {
            before
        }
    }
}

/// The case labels of the non-catchall arms, each once, in the order they
/// first appear.
pub open spec fn first_seen_labels(arms: Seq<ArmV>, kind: SwitchKind) -> Seq<Seq<char>>
    decreases arms.len(),
{
    if arms.len() == 0 {
        Seq::empty()
    } else {
        let before = first_seen_labels(arms.drop_last(), kind);
        let arm = arms.last();
        if !is_catchall(arm) && !before.contains(case_split(arm, kind).0) {
            before.push(case_split(arm, kind).0)
        } else {
            before
        }
    }
}

/// The number of arms in the groups.
pub open spec fn grouped_count(groups: Seq<(Seq<char>, Seq<ArmV>)>) -> nat
    decreases groups.len(),
{
    if groups.len() == 0 {
        0
    } else {
        grouped_count(groups.drop_last()) + groups.last().1.len()
    }
}

proof fn lemma_grouped_count_update(groups: Seq<(Seq<char>, Seq<ArmV>)>, p: int, g: (Seq<char>, Seq<ArmV>))
    requires
        0 <= p < groups.len(),
    ensures
        grouped_count(groups.update(p, g)) == grouped_count(groups) - groups[p].1.len() + g.1.len(),
    decreases groups.len(),
{
    let u = groups.update(p, g);
    if p == groups.len() - 1 {
        assert(u.drop_last() =~= groups.drop_last());
    } else {
        assert(u.drop_last() =~= groups.drop_last().update(p, g));
        lemma_grouped_count_update(groups.drop_last(), p, g);
    }
}

proof fn lemma_labelled_seen(arms: Seq<ArmV>, kind: SwitchKind, label: Seq<char>)
    requires
        !first_seen_labels(arms, kind).contains(label),
    ensures
        arms_labelled(arms, kind, label).len() == 0,
    decreases arms.len(),
{
    if arms.len() > 0 {
        let before = first_seen_labels(arms.drop_last(), kind);
        if before.contains(label) {
            let j = choose|j: int| 0 <= j < before.len() && before[j] == label;
            assert(first_seen_labels(arms, kind)[j] == label);
        }
        lemma_labelled_seen(arms.drop_last(), kind, label);
        if !is_catchall(arms.last()) && case_split(arms.last(), kind).0 == label {
            assert(first_seen_labels(arms, kind).last() == label);
        }
    }
}

proof fn lemma_position_found(s: Seq<Seq<char>>, x: Seq<char>)
    requires
        s.contains(x),
    ensures
        crate::checks::position(s, x) >= 0,
    decreases s.len(),
{
    if s[0] != x {
        let j = choose|j: int| 0 <= j < s.len() && s[j] == x;
        assert(s.drop_first()[j - 1] == x);
        lemma_position_found(s.drop_first(), x);
    }
}

/// Grouping the arms of a switch: the fallback is the catchall arms in
/// order; the groups carry the labels of the other arms, each once, in the
/// order they first appear; each group holds, in order, the arms with its
/// label as the switch leaves them; and every arm lands in exactly one
/// place, so the counts add up.
pub proof fn law_switch_grouping(arms: Seq<ArmV>, kind: SwitchKind)
    ensures
        group_arms(arms, kind).1 == catchall_arms(arms),
        group_labels(group_arms(arms, kind).0) == first_seen_labels(arms, kind),
        first_seen_labels(arms, kind).no_duplicates(),
        forall|k: int|
            0 <= k < group_arms(arms, kind).0.len() ==> (#[trigger] group_arms(arms, kind).0[k]).1
                == arms_labelled(arms, kind, group_arms(arms, kind).0[k].0),
        grouped_count(group_arms(arms, kind).0) + catchall_arms(arms).len() == arms.len(),
    decreases arms.len(),
{
    if arms.len() > 0 {
        let rest = arms.drop_last();
        law_switch_grouping(rest, kind);
        let (groups, fallback) = group_arms(rest, kind);
        let labels = group_labels(groups);
        let seen = first_seen_labels(rest, kind);
        let arm = arms.last();
        if !is_catchall(arm) {
            let (label, inner) = case_split(arm, kind);
            let p = crate::checks::position(labels, label);
            crate::checks::lemma_position_range(labels, label);
            if p >= 0 {
                let g2 = groups.update(p, (groups[p].0, groups[p].1.push(inner)));
                assert(labels[p] == groups[p].0);
                assert(group_labels(g2) =~= labels);
                assert(seen.contains(label));
                assert forall|k: int| 0 <= k < g2.len() implies (#[trigger] g2[k]).1 == arms_labelled(arms, kind, g2[k].0) by {
                    if k != p {
                        assert(labels[k] != labels[p]);
                        assert(g2[k] == groups[k]);
                    }
                }
                lemma_grouped_count_update(groups, p, (groups[p].0, groups[p].1.push(inner)));
            } else {
                if seen.contains(label) {
                    lemma_position_found(labels, label);
                }
                lemma_labelled_seen(rest, kind, label);
                let g2 = groups.push((label, seq![inner]));
                assert(group_labels(g2) =~= labels.push(label));
                assert(arms_labelled(arms, kind, label) =~= seq![inner]);
                assert forall|k: int| 0 <= k < g2.len() implies (#[trigger] g2[k]).1 == arms_labelled(arms, kind, g2[k].0) by {
                    if k < groups.len() {
                        assert(g2[k] == groups[k]);
                        assert(labels[k] != label);
                    }
                }
                assert(g2.drop_last() =~= groups);
            }
        } else {
            assert forall|k: int| 0 <= k < groups.len() implies (#[trigger] groups[k]).1 == arms_labelled(arms, kind, groups[k].0) by {}
        }
    }
}

/// Whether some arm can still fail after the switch tested it.
pub open spec fn can_fail(inner: Seq<ArmV>) -> bool {
    exists|i: int| 0 <= i < inner.len() && arm_can_fail(#[trigger] inner[i])
}

/// Whether an arm can fail once its subject reached it: it has a guard or checks.
pub open spec fn arm_can_fail(arm: ArmV) -> bool {
    arm.has_guard || arm.checks.len() > 0
}

/// The arms a case body decides between: a fail-prone case also gets the
/// catchalls, since Go switch cases do not fall through to `default`.
pub open spec fn branch_arms(inner: Seq<ArmV>, fallback: Seq<ArmV>) -> Seq<ArmV> {
    if can_fail(inner) {
        inner + fallback
    } else {
        inner
    }
}

pub open spec fn group_mass(groups: Seq<(Seq<char>, Seq<ArmV>)>) -> nat
    decreases groups.len(),
{
    if groups.len() == 0 {
        0
    } else {
        group_mass(groups.drop_last()) + total_weight(groups.last().1) + groups.last().1.len()
    }
}

pub proof fn lemma_mass_update(
    groups: Seq<(Seq<char>, Seq<ArmV>)>,
    p: int,
    g: (Seq<char>, Seq<ArmV>),
)
    requires
        0 <= p < groups.len(),
    ensures
        group_mass(groups.update(p, g)) + total_weight(groups[p].1) + groups[p].1.len()
            == group_mass(groups) + total_weight(g.1) + g.1.len(),
    decreases groups.len(),
{
    if p < groups.len() - 1 {
        lemma_mass_update(groups.drop_last(), p, g);
        assert(groups.update(p, g).drop_last() =~= groups.drop_last().update(p, g));
    } else {
        assert(groups.update(p, g).drop_last() =~= groups.drop_last());
    }
}

pub proof fn lemma_mass_member(groups: Seq<(Seq<char>, Seq<ArmV>)>, k: int)
    requires
        0 <= k < groups.len(),
    ensures
        total_weight(groups[k].1) + groups[k].1.len() <= group_mass(groups),
    decreases groups.len(),
{
    if k < groups.len() - 1 {
        lemma_mass_member(groups.drop_last(), k);
    }
}

/// Grouping a valid switch keeps all the weight: every case arm lost exactly
/// the test the switch performs, and the fallback holds only catchalls.
pub proof fn lemma_group_mass(arms: Seq<ArmV>, kind: SwitchKind, path: Seq<SegmentV>)
    requires
        switch_valid(arms, kind, path),
    ensures
        group_mass(group_arms(arms, kind).0) == total_weight(arms),
        forall|k: int|
            0 <= k < group_arms(arms, kind).0.len() ==> #[trigger] group_arms(arms, kind).0[k].1.len()
                > 0,
        forall|i: int|
            0 <= i < group_arms(arms, kind).1.len() ==> is_catchall(
                #[trigger] group_arms(arms, kind).1[i],
            ),
        group_labels(group_arms(arms, kind).0).len() == group_arms(arms, kind).0.len(),
    decreases arms.len(),
{
    if arms.len() > 0 {
        let prefix = arms.drop_last();
        assert(switch_valid(prefix, kind, path)) by {
            assert forall|i: int| 0 <= i < prefix.len() && !is_catchall(#[trigger] prefix[i]) implies arm_fits(
                prefix[i],
                kind,
                path,
            ) by {
                assert(prefix[i] == arms[i]);
            }
        }
        lemma_group_mass(prefix, kind, path);
        let (groups, fallback) = group_arms(prefix, kind);
        let arm = arms.last();
        if !is_catchall(arm) {
            assert(arm_fits(arms[arms.len() - 1], kind, path));
            let (label, inner) = case_split(arm, kind);
            let one = seq![inner];
            assert(one.drop_last() =~= Seq::<ArmV>::empty());
            assert(total_weight(one.drop_last()) == 0);
            assert(one.last() == inner);
            assert(total_weight(one) == arm_weight(inner));
            assert(arm_weight(inner) + 1 == arm_weight(arm));
            let p = crate::checks::position(group_labels(groups), label);
            crate::checks::lemma_position_range(group_labels(groups), label);
            if p >= 0 {
                let g = (groups[p].0, groups[p].1.push(inner));
                lemma_mass_update(groups, p, g);
                assert(g.1.drop_last() =~= groups[p].1);
                assert(group_labels(groups.update(p, g)) =~= group_labels(groups));
            } else {
                let g2 = groups.push((label, seq![inner]));
                assert(g2.drop_last() =~= groups);
                assert(group_labels(g2) =~= group_labels(groups).push(label));
            }
        }
    }
}

pub proof fn lemma_branch_measure(arms: Seq<ArmV>, kind: SwitchKind, path: Seq<SegmentV>, k: int)
    requires
        switch_valid(arms, kind, path),
        0 <= k < group_arms(arms, kind).0.len(),
    ensures
        total_weight(branch_arms(group_arms(arms, kind).0[k].1, group_arms(arms, kind).1))
            < total_weight(arms),
{
    let (groups, fallback) = group_arms(arms, kind);
    lemma_group_mass(arms, kind, path);
    lemma_mass_member(groups, k);
    lemma_weight_catchalls(fallback);
    lemma_weight_concat(groups[k].1, fallback);
}

pub proof fn lemma_fallback_measure(arms: Seq<ArmV>, kind: SwitchKind, path: Seq<SegmentV>)
    requires
        switch_valid(arms, kind, path),
        first_relevant(arms) >= 0,
    ensures
        total_weight(group_arms(arms, kind).1) < total_weight(arms),
{
    lemma_group_mass(arms, kind, path);
    lemma_weight_catchalls(group_arms(arms, kind).1);
    lemma_first_relevant_range(arms);
    lemma_weight_member(arms, first_relevant(arms));
}


/// The shape a switch takes given its kind, branches and fallback.
pub open spec fn shape_of(kind: SwitchKind, branches: Seq<BranchV>, has_fallback: bool) -> SwitchShape {
    if kind == SwitchKind::TypeSwitch {
        SwitchShape::TypeSwitch
    } else if kind == SwitchKind::Value && branches.len() == 2 && !has_fallback && (
    (branches[0].case_label == "true"@ && branches[1].case_label == "false"@) || (
    branches[0].case_label == "false"@ && branches[1].case_label == "true"@)) {
        SwitchShape::Bool
    } else if branches.len() == 2 && !has_fallback {
        SwitchShape::Binary
    } else if branches.len() == 1 {
        SwitchShape::SingleArm
    } else {
        SwitchShape::Multi
    }
}

/// A lifted type assertion as a check: one type assertion, or an or-check
/// over one assertion per type.
pub open spec fn assertion_check(a: AssertionV) -> CheckV {
    if a.go_types.len() == 1 {
        CheckV::TypeAssert { path: a.path, go_type: a.go_types[0] }
    } else {
        CheckV::Or {
            alternatives: Seq::new(
                a.go_types.len(),
                |i: int| seq![CheckV::TypeAssert { path: a.path, go_type: a.go_types[i] }],
            ),
        }
    }
}

/// The checks an arm's chain test performs.
pub open spec fn chain_checks(arm: ArmV) -> Seq<CheckV> {
    match arm.root_assertion {
        Some(a) => seq![assertion_check(a)] + arm.checks,
        None => arm.checks,
    }
}

/// The index of the first arm that is an unguarded catchall, or -1.
pub open spec fn first_unguarded_catchall(arms: Seq<ArmV>) -> int
    decreases arms.len(),
{
    if arms.len() == 0 {
        -1
    } else if is_catchall(arms[0]) && !arms[0].has_guard {
        0
    } else {
        let p = first_unguarded_catchall(arms.drop_first());
        if p < 0 { -1 } else { p + 1 }
    }
}

pub proof fn lemma_first_unguarded(arms: Seq<ArmV>, i: int)
    requires
        0 <= i <= arms.len(),
        forall|j: int| 0 <= j < i ==> !(is_catchall(#[trigger] arms[j]) && !arms[j].has_guard),
    ensures
        i < arms.len() && is_catchall(arms[i]) && !arms[i].has_guard ==> first_unguarded_catchall(
            arms,
        ) == i,
        i == arms.len() ==> first_unguarded_catchall(arms) == -1,
    decreases arms.len(),
{
    if arms.len() > 0 && i > 0 {
        assert(!(is_catchall(arms[0]) && !arms[0].has_guard));
        lemma_first_unguarded(arms.drop_first(), i - 1);
    }
}

pub open spec fn success_of(arm: ArmV) -> DecisionV {
    DecisionV::Success { arm_index: arm.arm_index, bindings: arm.bindings }
}

/// The decision tree for `arms`, tried in order.
pub open spec fn spec_build_tree(arms: Seq<ArmV>) -> DecisionV
    decreases total_weight(arms), arms.len(), 2int,
{
    if arms.len() == 0 {
        DecisionV::Unreachable
    } else if is_catchall(arms[0]) && !arms[0].has_guard {
        success_of(arms[0])
    } else if is_catchall(arms[0]) {
        proof {
            lemma_weight_skip(arms, 1);
        }
        DecisionV::Guard {
            arm_index: arms[0].arm_index,
            bindings: arms[0].bindings,
            success: Box::new(DecisionV::Success { arm_index: arms[0].arm_index, bindings: Seq::empty() }),
            failure: Box::new(spec_build_tree(arms.skip(1))),
        }
    } else {
        match spec_build_switch(arms) {
            Some(d) => d,
            None => spec_build_chain(arms),
        }
    }
}

/// The switch for `arms`, when every non-catchall arm agrees on one.
pub open spec fn spec_build_switch(arms: Seq<ArmV>) -> Option<DecisionV>
    decreases total_weight(arms), arms.len(), 1int,
{
    let f = first_relevant(arms);
    if f < 0 {
        None
    } else {
        proof {
            lemma_first_relevant_range(arms);
        }
        match pick_kind(arms[f]) {
            None => None,
            Some(picked) => {
                let kind = picked.0;
                let path = picked.1;
                if !switch_valid(arms, kind, path) {
                    None
                } else {
                    let groups = group_arms(arms, kind).0;
                    let fallback_arms = group_arms(arms, kind).1;
                    let branches = Seq::new(
                        groups.len(),
                        |k: int|
                            {
                                if 0 <= k < groups.len() {
                                    proof {
                                        lemma_branch_measure(arms, kind, path, k);
                                    }
                                    BranchV {
                                        case_label: groups[k].0,
                                        decision: spec_build_tree(
                                            branch_arms(groups[k].1, fallback_arms),
                                        ),
                                    }
                                } else {
                                    BranchV { case_label: Seq::empty(), decision: DecisionV::Unreachable }
                                }
                            },
                    );
                    let fallback = if fallback_arms.len() == 0 {
                        None
                    } else {
                        proof {
                            lemma_fallback_measure(arms, kind, path);
                        }
                        Some(Box::new(spec_build_tree(fallback_arms)))
                    };
                    Some(
                        DecisionV::Switch {
                            path,
                            kind,
                            shape: shape_of(kind, branches, fallback_arms.len() > 0),
                            branches,
                            fallback,
                        },
                    )
                }
            },
        }
    }
}

/// The decision for one chain test: the arm's success, guarded if needed.
pub open spec fn spec_chain_decision(arms: Seq<ArmV>, i: int) -> DecisionV
    decreases total_weight(arms), arms.len(), 0int,
{
    if 0 <= i < arms.len() && arms[i].has_guard {
        proof {
            lemma_weight_skip(arms, i + 1);
        }
        DecisionV::Guard {
            arm_index: arms[i].arm_index,
            bindings: arms[i].bindings,
            success: Box::new(DecisionV::Success { arm_index: arms[i].arm_index, bindings: Seq::empty() }),
            failure: Box::new(spec_build_tree(arms.skip(i + 1))),
        }
    } else if 0 <= i < arms.len() {
        success_of(arms[i])
    } else {
        DecisionV::Unreachable
    }
}

/// The `if`/`else if` chain for `arms`, ending at the first unguarded catchall.
pub open spec fn spec_build_chain(arms: Seq<ArmV>) -> DecisionV
    decreases total_weight(arms), arms.len(), 1int,
{
    let k = first_unguarded_catchall(arms);
    let n = if k < 0 { arms.len() as int } else { k };
    let tests = Seq::new(
        n as nat,
        |i: int| TestV { checks: chain_checks(arms[i]), decision: spec_chain_decision(arms, i) },
    );
    if k >= 0 {
        if n == 0 {
            success_of(arms[k])
        } else {
            DecisionV::Chain { tests, fallback: Box::new(success_of(arms[k])) }
        }
    } else {
        DecisionV::Chain { tests, fallback: Box::new(DecisionV::Unreachable) }
    }
}


/// Whether chain test `t` is the one built for arm `i`: it tests the arm's
/// root type assertion first and then its checks, and reaches the arm's
/// success, behind the arm's guard when it has one (the guard failing
/// falls through to a tree of the arms after it).
pub open spec fn chain_test_for(arms: Seq<ArmV>, i: int, t: TestV) -> bool {
    &&& t.checks == chain_checks(arms[i])
    &&& if arms[i].has_guard {
        t.decision == DecisionV::Guard {
            arm_index: arms[i].arm_index,
            bindings: arms[i].bindings,
            success: Box::new(DecisionV::Success { arm_index: arms[i].arm_index, bindings: Seq::empty() }),
            failure: Box::new(spec_build_tree(arms.skip(i + 1))),
        }
    } else {
        t.decision == success_of(arms[i])
    }
}

/// Whether arm `j` is a catchall without a guard.
pub open spec fn unguarded_catchall(arm: ArmV) -> bool {
    is_catchall(arm) && !arm.has_guard
}

/// The shape of a chain: one test per arm in order up to the first
/// unguarded catchall, which is the chain's fallback (the whole decision
/// when it comes first) and after which no arm is tested; without such a
/// catchall every arm is tested and the chain ends unreachable.
pub proof fn law_chain_shape(arms: Seq<ArmV>)
    ensures
        (forall|j: int| 0 <= j < arms.len() ==> !unguarded_catchall(#[trigger] arms[j])) ==> (spec_build_chain(
            arms,
        ) matches DecisionV::Chain { tests, fallback } && *fallback is Unreachable && tests.len() == arms.len()
            && forall|i: int| 0 <= i < tests.len() ==> chain_test_for(arms, i, #[trigger] tests[i])),
        forall|k: int|
            0 <= k < arms.len() && unguarded_catchall(#[trigger] arms[k]) && (forall|j: int|
                0 <= j < k ==> !unguarded_catchall(#[trigger] arms[j])) ==> {
                &&& k == 0 ==> spec_build_chain(arms) == success_of(arms[0])
                &&& k > 0 ==> (spec_build_chain(arms) matches DecisionV::Chain { tests, fallback } && *fallback
                    == success_of(arms[k]) && tests.len() == k && forall|i: int|
                    0 <= i < tests.len() ==> chain_test_for(arms, i, #[trigger] tests[i]))
            },
{
    if forall|j: int| 0 <= j < arms.len() ==> !unguarded_catchall(#[trigger] arms[j]) {
        lemma_first_unguarded(arms, arms.len() as int);
    }
    assert forall|k: int|
        0 <= k < arms.len() && unguarded_catchall(#[trigger] arms[k]) && (forall|j: int|
            0 <= j < k ==> !unguarded_catchall(#[trigger] arms[j])) implies {
            &&& k == 0 ==> spec_build_chain(arms) == success_of(arms[0])
            &&& k > 0 ==> (spec_build_chain(arms) matches DecisionV::Chain { tests, fallback } && *fallback
                == success_of(arms[k]) && tests.len() == k && forall|i: int|
                0 <= i < tests.len() ==> chain_test_for(arms, i, #[trigger] tests[i]))
        } by {
        lemma_first_unguarded(arms, k);
    }
}

/// The arm indices that `arms` carry.
pub open spec fn arm_ids(arms: Seq<ArmV>) -> Set<usize> {
    Set::new(|id: usize| exists|j: int| 0 <= j < arms.len() && arms[j].arm_index == id)
}

/// Every arm that a leaf or guard of `d` lowers from is in `ids`.
pub open spec fn leaves_within(d: DecisionV, ids: Set<usize>) -> bool
    decreases d,
{
    match d {
        DecisionV::Success { arm_index, .. } => ids.contains(arm_index),
        DecisionV::Guard { arm_index, success, failure, .. } => ids.contains(arm_index) && leaves_within(
            *success,
            ids,
        ) && leaves_within(*failure, ids),
        DecisionV::Switch { branches, fallback, .. } => (forall|k: int|
            0 <= k < branches.len() ==> {
                proof {
                    assert(decreases_to!(branches => branches[k]));
                }
                leaves_within(#[trigger] branches[k].decision, ids)
            }) && match fallback {
            Some(f) => leaves_within(*f, ids),
            None => true,
        },
        DecisionV::Chain { tests, fallback } => (forall|k: int|
            0 <= k < tests.len() ==> {
                proof {
                    assert(decreases_to!(tests => tests[k]));
                }
                leaves_within(#[trigger] tests[k].decision, ids)
            }) && leaves_within(*fallback, ids),
        DecisionV::Unreachable => true,
    }
}

proof fn lemma_leaves_subset(d: DecisionV, a: Set<usize>, b: Set<usize>)
    requires
        leaves_within(d, a),
        a.subset_of(b),
    ensures
        leaves_within(d, b),
    decreases d,
{
    match d {
        DecisionV::Guard { success, failure, .. } => {
            lemma_leaves_subset(*success, a, b);
            lemma_leaves_subset(*failure, a, b);
        },
        DecisionV::Switch { branches, fallback, .. } => {
            assert forall|k: int| 0 <= k < branches.len() implies leaves_within(
                #[trigger] branches[k].decision,
                b,
            ) by {
                assert(decreases_to!(branches => branches[k]));
                lemma_leaves_subset(branches[k].decision, a, b);
            }
            match fallback {
                Some(f) => lemma_leaves_subset(*f, a, b),
                None => {},
            }
        },
        DecisionV::Chain { tests, fallback } => {
            assert forall|k: int| 0 <= k < tests.len() implies leaves_within(#[trigger] tests[k].decision, b) by {
                assert(decreases_to!(tests => tests[k]));
                lemma_leaves_subset(tests[k].decision, a, b);
            }
            lemma_leaves_subset(*fallback, a, b);
        },
        _ => {},
    }
}

/// Grouping keeps arm indices: every grouped or fallback arm carries the
/// index of an input arm.
proof fn lemma_group_ids(arms: Seq<ArmV>, kind: SwitchKind)
    ensures
        forall|k: int, j: int|
            0 <= k < group_arms(arms, kind).0.len() && 0 <= j < group_arms(arms, kind).0[k].1.len()
                ==> arm_ids(arms).contains(#[trigger] group_arms(arms, kind).0[k].1[j].arm_index),
        forall|j: int|
            0 <= j < group_arms(arms, kind).1.len() ==> arm_ids(arms).contains(
                #[trigger] group_arms(arms, kind).1[j].arm_index,
            ),
    decreases arms.len(),
{
    if arms.len() > 0 {
        let prefix = arms.drop_last();
        lemma_group_ids(prefix, kind);
        assert(arm_ids(prefix).subset_of(arm_ids(arms))) by {
            assert forall|id: usize| arm_ids(prefix).contains(id) implies arm_ids(arms).contains(id) by {
                let j = choose|j: int| 0 <= j < prefix.len() && prefix[j].arm_index == id;
                assert(arms[j] == prefix[j]);
            }
        }
        let arm = arms.last();
        assert(arm_ids(arms).contains(arm.arm_index)) by {
            assert(arms[arms.len() - 1] == arm);
        }
        let (groups, fallback) = group_arms(prefix, kind);
        let (g2, f2) = group_arms(arms, kind);
        if is_catchall(arm) {
            assert forall|j: int| 0 <= j < f2.len() implies arm_ids(arms).contains(#[trigger] f2[j].arm_index) by {
                if j < fallback.len() {
                    assert(f2[j] == fallback[j]);
                }
            }
        } else {
            let (label, inner) = case_split(arm, kind);
            assert(inner.arm_index == arm.arm_index);
            let p = crate::checks::position(group_labels(groups), label);
            crate::checks::lemma_position_range(group_labels(groups), label);
            assert forall|k: int, j: int| 0 <= k < g2.len() && 0 <= j < g2[k].1.len() implies arm_ids(
                arms,
            ).contains(#[trigger] g2[k].1[j].arm_index) by {
                if p >= 0 && k == p {
                    if j < groups[p].1.len() {
                        assert(g2[k].1[j] == groups[p].1[j]);
                    } else {
                        assert(g2[k].1[j] == inner);
                    }
                } else if k < groups.len() {
                    assert(g2[k] == groups[k]);
                } else {
                    assert(g2[k].1 == seq![inner]);
                }
            }
        }
    }
}

/// The arm indices of a sequence whose arms all carry indices in `ids`.
proof fn lemma_ids_within(sub: Seq<ArmV>, ids: Set<usize>)
    requires
        forall|j: int| 0 <= j < sub.len() ==> ids.contains(#[trigger] sub[j].arm_index),
    ensures
        arm_ids(sub).subset_of(ids),
{
    assert forall|id: usize| arm_ids(sub).contains(id) implies ids.contains(id) by {
        let j = choose|j: int| 0 <= j < sub.len() && sub[j].arm_index == id;
        assert(ids.contains(sub[j].arm_index));
    }
}

/// Every leaf and guard of the tree built for `arms` lowers from one of
/// `arms`: the tree never invents an arm.
pub proof fn law_tree_leaves_from_arms(arms: Seq<ArmV>)
    ensures
        leaves_within(spec_build_tree(arms), arm_ids(arms)),
    decreases total_weight(arms), arms.len(), 2int,
{
    if arms.len() == 0 {
    } else if is_catchall(arms[0]) && !arms[0].has_guard {
        assert(arm_ids(arms).contains(arms[0].arm_index));
    } else if is_catchall(arms[0]) {
        lemma_weight_skip(arms, 1);
        let rest = arms.skip(1);
        law_tree_leaves_from_arms(rest);
        assert forall|j: int| 0 <= j < rest.len() implies arm_ids(arms).contains(#[trigger] rest[j].arm_index) by {
            assert(rest[j] == arms[j + 1]);
        }
        lemma_ids_within(rest, arm_ids(arms));
        lemma_leaves_subset(spec_build_tree(rest), arm_ids(rest), arm_ids(arms));
        assert(arm_ids(arms).contains(arms[0].arm_index));
        assert(leaves_within(
            DecisionV::Success { arm_index: arms[0].arm_index, bindings: Seq::empty() },
            arm_ids(arms),
        ));
    } else {
        match spec_build_switch(arms) {
            Some(d) => law_switch_leaves_from_arms(arms),
            None => law_chain_leaves_from_arms(arms),
        }
    }
}

proof fn law_switch_leaves_from_arms(arms: Seq<ArmV>)
    requires
        spec_build_switch(arms) is Some,
    ensures
        leaves_within(spec_build_switch(arms).unwrap(), arm_ids(arms)),
    decreases total_weight(arms), arms.len(), 1int,
{
    let f = first_relevant(arms);
    lemma_first_relevant_range(arms);
    let picked = pick_kind(arms[f]).unwrap();
    let kind = picked.0;
    let path = picked.1;
    let groups = group_arms(arms, kind).0;
    let fallback_arms = group_arms(arms, kind).1;
    lemma_group_ids(arms, kind);
    let d = spec_build_switch(arms).unwrap();
    let branches = d->Switch_branches;
    assert forall|k: int| 0 <= k < branches.len() implies leaves_within(#[trigger] branches[k].decision, arm_ids(arms)) by {
        lemma_branch_measure(arms, kind, path, k);
        let sub = branch_arms(groups[k].1, fallback_arms);
        law_tree_leaves_from_arms(sub);
        assert forall|j: int| 0 <= j < sub.len() implies arm_ids(arms).contains(#[trigger] sub[j].arm_index) by {
            if j < groups[k].1.len() {
                assert(sub[j] == groups[k].1[j]);
            } else {
                assert(sub[j] == fallback_arms[j - groups[k].1.len()]);
            }
        }
        lemma_ids_within(sub, arm_ids(arms));
        lemma_leaves_subset(spec_build_tree(sub), arm_ids(sub), arm_ids(arms));
    }
    if fallback_arms.len() > 0 {
        lemma_fallback_measure(arms, kind, path);
        law_tree_leaves_from_arms(fallback_arms);
        lemma_ids_within(fallback_arms, arm_ids(arms));
        lemma_leaves_subset(spec_build_tree(fallback_arms), arm_ids(fallback_arms), arm_ids(arms));
    }
}

proof fn law_chain_decision_leaves(arms: Seq<ArmV>, i: int)
    requires
        0 <= i < arms.len(),
    ensures
        leaves_within(spec_chain_decision(arms, i), arm_ids(arms)),
    decreases total_weight(arms), arms.len(), 0int,
{
    assert(arm_ids(arms).contains(arms[i].arm_index));
    if arms[i].has_guard {
        lemma_weight_skip(arms, i + 1);
        let rest = arms.skip(i + 1);
        law_tree_leaves_from_arms(rest);
        assert forall|j: int| 0 <= j < rest.len() implies arm_ids(arms).contains(#[trigger] rest[j].arm_index) by {
            assert(rest[j] == arms[j + i + 1]);
        }
        lemma_ids_within(rest, arm_ids(arms));
        lemma_leaves_subset(spec_build_tree(rest), arm_ids(rest), arm_ids(arms));
        assert(leaves_within(
            DecisionV::Success { arm_index: arms[i].arm_index, bindings: Seq::empty() },
            arm_ids(arms),
        ));
    }
}

proof fn law_chain_leaves_from_arms(arms: Seq<ArmV>)
    ensures
        leaves_within(spec_build_chain(arms), arm_ids(arms)),
    decreases total_weight(arms), arms.len(), 1int,
{
    let k = first_unguarded_catchall(arms);
    let n = if k < 0 { arms.len() as int } else { k };
    lemma_first_unguarded_range(arms);
    let d = spec_build_chain(arms);
    if k >= 0 {
        assert(arm_ids(arms).contains(arms[k].arm_index));
        assert(leaves_within(success_of(arms[k]), arm_ids(arms)));
    }
    assert(leaves_within(DecisionV::Unreachable, arm_ids(arms)));
    if d is Chain {
        let tests = d->Chain_tests;
        assert forall|t: int| 0 <= t < tests.len() implies leaves_within(#[trigger] tests[t].decision, arm_ids(arms)) by {
            assert(tests[t].decision == spec_chain_decision(arms, t));
            law_chain_decision_leaves(arms, t);
        }
    }
}

proof fn lemma_first_unguarded_range(arms: Seq<ArmV>)
    ensures
        -1 <= first_unguarded_catchall(arms) < arms.len(),
    decreases arms.len(),
{
    if arms.len() > 0 {
        lemma_first_unguarded_range(arms.drop_first());
    }
}

/// Whether every path through `d` ends at an arm: no `Unreachable`, and
/// every switch has a fallback for values no case names.
pub open spec fn always_reaches_arm(d: DecisionV) -> bool
    decreases d,
{
    match d {
        DecisionV::Success { .. } => true,
        DecisionV::Guard { success, failure, .. } => always_reaches_arm(*success) && always_reaches_arm(
            *failure,
        ),
        DecisionV::Switch { branches, fallback, .. } => (forall|k: int|
            0 <= k < branches.len() ==> {
                proof {
                    assert(decreases_to!(branches => branches[k]));
                }
                always_reaches_arm(#[trigger] branches[k].decision)
            }) && match fallback {
            Some(f) => always_reaches_arm(*f),
            None => false,
        },
        DecisionV::Chain { tests, fallback } => (forall|k: int|
            0 <= k < tests.len() ==> {
                proof {
                    assert(decreases_to!(tests => tests[k]));
                }
                always_reaches_arm(#[trigger] tests[k].decision)
            }) && always_reaches_arm(*fallback),
        DecisionV::Unreachable => false,
    }
}

/// Whether some arm matches every subject without a guard.
pub open spec fn has_unguarded_catchall(arms: Seq<ArmV>) -> bool {
    exists|j: int| 0 <= j < arms.len() && unguarded_catchall(#[trigger] arms[j])
}

proof fn lemma_first_unguarded_found(arms: Seq<ArmV>)
    requires
        has_unguarded_catchall(arms),
    ensures
        0 <= first_unguarded_catchall(arms) < arms.len(),
        unguarded_catchall(arms[first_unguarded_catchall(arms)]),
    decreases arms.len(),
{
    if !unguarded_catchall(arms[0]) {
        let j = choose|j: int| 0 <= j < arms.len() && unguarded_catchall(#[trigger] arms[j]);
        assert(arms.drop_first()[j - 1] == arms[j]);
        lemma_first_unguarded_found(arms.drop_first());
        assert(arms.drop_first()[first_unguarded_catchall(arms.drop_first())] == arms[first_unguarded_catchall(
            arms.drop_first(),
        ) + 1]);
    }
}

proof fn lemma_catchalls_kept(arms: Seq<ArmV>, j: int)
    requires
        0 <= j < arms.len(),
        is_catchall(arms[j]),
    ensures
        catchall_arms(arms).contains(arms[j]),
    decreases arms.len(),
{
    if j < arms.len() - 1 {
        lemma_catchalls_kept(arms.drop_last(), j);
        assert(arms.drop_last()[j] == arms[j]);
        let c = catchall_arms(arms.drop_last());
        let w = choose|w: int| 0 <= w < c.len() && c[w] == arms[j];
        if is_catchall(arms.last()) {
            assert(catchall_arms(arms)[w] == arms[j]);
        }
    } else {
        assert(catchall_arms(arms).last() == arms[j]);
    }
}

/// Every group of a switch holds at least one arm, and none of its arms
/// still carries a root type assertion.
proof fn lemma_groups_filled(arms: Seq<ArmV>, kind: SwitchKind)
    ensures
        forall|k: int|
            0 <= k < group_arms(arms, kind).0.len() ==> (#[trigger] group_arms(arms, kind).0[k]).1.len() > 0,
        forall|k: int, m: int|
            0 <= k < group_arms(arms, kind).0.len() && 0 <= m < group_arms(arms, kind).0[k].1.len()
                ==> (#[trigger] group_arms(arms, kind).0[k].1[m]).root_assertion is None,
    decreases arms.len(),
{
    if arms.len() > 0 {
        lemma_groups_filled(arms.drop_last(), kind);
        let (groups, _) = group_arms(arms.drop_last(), kind);
        let arm = arms.last();
        if !is_catchall(arm) {
            let (label, inner) = case_split(arm, kind);
            let p = crate::checks::position(group_labels(groups), label);
            crate::checks::lemma_position_range(group_labels(groups), label);
            let g2 = group_arms(arms, kind).0;
            assert forall|k: int, m: int| 0 <= k < g2.len() && 0 <= m < g2[k].1.len() implies (#[trigger] g2[k].1[m]).root_assertion is None by {
                if p >= 0 && k == p && m == groups[p].1.len() {
                    assert(g2[k].1[m] == inner);
                } else if p < 0 && k == groups.len() {
                    assert(g2[k].1[m] == inner);
                } else if p >= 0 && k == p {
                    assert(g2[k].1[m] == groups[k].1[m]);
                } else {
                    assert(g2[k] == groups[k]);
                }
            }
        }
    }
}

/// A match with an arm that takes every subject without a guard compiles to
/// a tree in which every subject reaches an arm: no branch ends in
/// `Unreachable`. In particular a switch case whose arms can still fail after
/// the case label falls back to the catchall arms, since Go switch cases do
/// not fall through to `default`.
pub proof fn law_catchall_never_unreachable(arms: Seq<ArmV>)
    requires
        has_unguarded_catchall(arms),
    ensures
        always_reaches_arm(spec_build_tree(arms)),
    decreases total_weight(arms), arms.len(), 2int,
{
    if is_catchall(arms[0]) && !arms[0].has_guard {
    } else if is_catchall(arms[0]) {
        lemma_weight_skip(arms, 1);
        let rest = arms.skip(1);
        let j = choose|j: int| 0 <= j < arms.len() && unguarded_catchall(#[trigger] arms[j]);
        assert(j != 0);
        assert(rest[j - 1] == arms[j]);
        assert(unguarded_catchall(rest[j - 1]));
        law_catchall_never_unreachable(rest);
        let success = DecisionV::Success { arm_index: arms[0].arm_index, bindings: Seq::<BindingV>::empty() };
        assert(always_reaches_arm(success));
        assert(spec_build_tree(arms) == DecisionV::Guard {
            arm_index: arms[0].arm_index,
            bindings: arms[0].bindings,
            success: Box::new(success),
            failure: Box::new(spec_build_tree(rest)),
        });
    } else {
        match spec_build_switch(arms) {
            Some(d) => law_switch_reaches_arm(arms),
            None => law_chain_reaches_arm(arms),
        }
    }
}

proof fn law_switch_reaches_arm(arms: Seq<ArmV>)
    requires
        has_unguarded_catchall(arms),
        spec_build_switch(arms) is Some,
    ensures
        always_reaches_arm(spec_build_switch(arms).unwrap()),
    decreases total_weight(arms), arms.len(), 1int,
{
    let f = first_relevant(arms);
    lemma_first_relevant_range(arms);
    let picked = pick_kind(arms[f]).unwrap();
    let kind = picked.0;
    let path = picked.1;
    let groups = group_arms(arms, kind).0;
    let fallback_arms = group_arms(arms, kind).1;
    law_switch_grouping(arms, kind);
    lemma_groups_filled(arms, kind);
    let j = choose|j: int| 0 <= j < arms.len() && unguarded_catchall(#[trigger] arms[j]);
    lemma_catchalls_kept(arms, j);
    let w = choose|w: int| 0 <= w < fallback_arms.len() && fallback_arms[w] == arms[j];
    assert(unguarded_catchall(fallback_arms[w]));
    let d = spec_build_switch(arms).unwrap();
    let branches = d->Switch_branches;
    assert forall|k: int| 0 <= k < branches.len() implies always_reaches_arm(#[trigger] branches[k].decision) by {
        lemma_branch_measure(arms, kind, path, k);
        let inner = groups[k].1;
        let sub = branch_arms(inner, fallback_arms);
        if can_fail(inner) {
            assert(sub[inner.len() + w] == fallback_arms[w]);
        } else {
            assert(!arm_can_fail(inner[0]));
            assert(inner[0].root_assertion is None);
            assert(sub[0] == inner[0]);
            assert(unguarded_catchall(sub[0]));
        }
        law_catchall_never_unreachable(sub);
    }
    lemma_fallback_measure(arms, kind, path);
    law_catchall_never_unreachable(fallback_arms);
}

proof fn law_chain_decision_reaches_arm(arms: Seq<ArmV>, i: int)
    requires
        0 <= i < first_unguarded_catchall(arms),
        unguarded_catchall(arms[first_unguarded_catchall(arms)]),
    ensures
        always_reaches_arm(spec_chain_decision(arms, i)),
    decreases total_weight(arms), arms.len(), 0int,
{
    lemma_first_unguarded_range(arms);
    if arms[i].has_guard {
        lemma_weight_skip(arms, i + 1);
        let rest = arms.skip(i + 1);
        let k = first_unguarded_catchall(arms);
        assert(rest[k - i - 1] == arms[k]);
        assert(unguarded_catchall(rest[k - i - 1]));
        law_catchall_never_unreachable(rest);
        let success = DecisionV::Success { arm_index: arms[i].arm_index, bindings: Seq::<BindingV>::empty() };
        assert(always_reaches_arm(success));
    } else {
        assert(always_reaches_arm(success_of(arms[i])));
    }
}

proof fn law_chain_reaches_arm(arms: Seq<ArmV>)
    requires
        has_unguarded_catchall(arms),
    ensures
        always_reaches_arm(spec_build_chain(arms)),
    decreases total_weight(arms), arms.len(), 1int,
{
    lemma_first_unguarded_found(arms);
    let k = first_unguarded_catchall(arms);
    let d = spec_build_chain(arms);
    assert(always_reaches_arm(success_of(arms[k])));
    if d is Chain {
        assert(*d->Chain_fallback == success_of(arms[k]));
        let tests = d->Chain_tests;
        assert forall|t: int| 0 <= t < tests.len() implies always_reaches_arm(#[trigger] tests[t].decision) by {
            assert(tests[t].decision == spec_chain_decision(arms, t));
            law_chain_decision_reaches_arm(arms, t);
        }
    }
}

/// A match whose first arm is an unguarded catchall always takes that arm.
pub proof fn law_leading_catchall_wins(arms: Seq<ArmV>)
    requires
        arms.len() > 0,
        is_catchall(arms[0]),
        !arms[0].has_guard,
    ensures
        spec_build_tree(arms) == success_of(arms[0]),
{
}

/// The switch `arm` asks for and the path it switches on.
pub fn pick_switch_kind(arm: &ArmInfo) -> (r: Option<(SwitchKind, AccessPath)>)
    ensures
        match r {
            Some((kind, path)) => pick_kind(arm@) == Some((kind, path@)),
            None => pick_kind(arm@) is None,
        },
{
    if let Some(assertion) = &arm.root_assertion {
        return Some((SwitchKind::TypeSwitch, assertion.path.duplicate()));
    }
    if arm.checks.len() == 0 {
        return None;
    }
    proof { lemma_checks_view_index(arm.checks@, 0); }
    let first_check = &arm.checks[0];
    let path = match first_check.path() {
        Some(p) => p.duplicate(),
        None => {
            return None;
        },
    };
    if first_check.as_enum_tag().is_some() {
        Some((SwitchKind::EnumTag, path))
    } else if first_check.as_literal().is_some() {
        Some((SwitchKind::Value, path))
    } else {
        None
    }
}

/// `Some(())` when every non-catchall arm fits one `kind` switch on `switch_path`.
pub fn validate_switch_arms(arms: &Vec<ArmInfo>, kind: SwitchKind, switch_path: &AccessPath) -> (r:
    Option<()>)
    ensures
        r is Some <==> switch_valid(arms_view(arms@), kind, switch_path@),
{
    let ghost av = arms_view(arms@);
    let mut i: usize = 0;
    while i < arms.len()
        invariant
            i <= arms@.len(),
            av == arms_view(arms@),
            forall|j: int|
                0 <= j < i && !is_catchall(#[trigger] av[j]) ==> arm_fits(av[j], kind, switch_path@),
        decreases arms.len() - i,
    {
        let arm = &arms[i];
        assert(av[i as int] == arm@);
        if arm.is_catchall() {
            i = i + 1;
            continue;
        }
        if arm.has_guard && !matches!(kind, SwitchKind::TypeSwitch) {
            return None;
        }
        let fits = match kind {
            SwitchKind::EnumTag => {
                if arm.root_assertion.is_some() || arm.checks.len() == 0 {
                    false
                } else {
                    proof { lemma_checks_view_index(arm.checks@, 0); }
                    let first = &arm.checks[0];
                    match first {
                        Check::EnumTag { path, .. } => path.same_as(switch_path),
                        _ => false,
                    }
                }
            },
            SwitchKind::Value => {
                if arm.root_assertion.is_some() || arm.checks.len() != 1 {
                    false
                } else {
                    proof { lemma_checks_view_index(arm.checks@, 0); }
                    let first = &arm.checks[0];
                    match first {
                        Check::Literal { path, .. } => path.same_as(switch_path),
                        _ => false,
                    }
                }
            },
            SwitchKind::TypeSwitch => match &arm.root_assertion {
                Some(a) => a.path.same_as(switch_path),
                None => false,
            },
        };
        if !fits {
            return None;
        }
        i = i + 1;
    }
    Some(())
}

/// Re-encodes a lifted type assertion as a check for chain emission.
pub fn type_assertion_to_check(assertion: TypeAssertion) -> (r: Check)
    ensures
        r@ == assertion_check(assertion@),
{
    let ghost a = assertion@;
    let TypeAssertion { path, mut go_types } = assertion;
    if go_types.len() == 1 {
        let go_type = go_types.pop().unwrap();
        assert(go_type@ == a.go_types[0]);
        return Check::TypeAssert { path, go_type };
    }
    let mut alternatives: Vec<Vec<Check>> = Vec::new();
    let mut i: usize = 0;
    while i < go_types.len()
        invariant
            i <= go_types@.len(),
            alternatives@.len() == i,
            a.go_types == views_of(go_types@),
            a.path == path@,
            alternatives_view(alternatives@) == Seq::new(
                a.go_types.len(),
                |k: int| seq![CheckV::TypeAssert { path: a.path, go_type: a.go_types[k] }],
            ).take(i as int),
        decreases go_types.len() - i,
    {
        let mut alt: Vec<Check> = Vec::new();
        let c = Check::TypeAssert { path: path.duplicate(), go_type: go_types[i].clone() };
        proof { lemma_checks_push(alt@, c); }
        alt.push(c);
        assert(checks_view(alt@) =~= seq![CheckV::TypeAssert { path: a.path, go_type: a.go_types[i as int] }]);
        let ghost before = alternatives@;
        alternatives.push(alt);
        assert(alternatives_view(alternatives@) =~= Seq::new(
            a.go_types.len(),
            |k: int| seq![CheckV::TypeAssert { path: a.path, go_type: a.go_types[k] }],
        ).take(i + 1)) by {
            assert(alternatives@ == before.push(alt));
            assert forall|k: int| 0 <= k < i + 1 implies #[trigger] alternatives_view(alternatives@)[k]
                == Seq::new(
                a.go_types.len(),
                |k: int| seq![CheckV::TypeAssert { path: a.path, go_type: a.go_types[k] }],
            ).take(i + 1)[k] by {
                if k < i {
                    assert(alternatives@[k] == before[k]);
                }
            }
        }
        i = i + 1;
    }
    let r = Check::Or { alternatives };
    proof {
        lemma_or_view_lens(r);
        assert(r@->Or_alternatives =~= assertion_check(a)->Or_alternatives);
    }
    r
}

fn label_is(label: &String, expected: &str) -> (r: bool)
    ensures
        r == (label@ == expected@),
{
    str_eq(label.as_str(), expected)
}

/// The shape of a switch site with these branches.
pub fn classify_switch_shape(
    kind: SwitchKind,
    branches: &Vec<SwitchBranch>,
    fallback: &Option<Box<Decision>>,
) -> (r: SwitchShape)
    ensures
        r == shape_of(kind, branches_view(branches@), fallback is Some),
{
    let has_fallback = fallback.is_some();
    let ghost bv = branches_view(branches@);
    if matches!(kind, SwitchKind::TypeSwitch) {
        return SwitchShape::TypeSwitch;
    }
    if branches.len() == 2 && !has_fallback {
        assert(bv[0] == branches@[0]@ && bv[1] == branches@[1]@);
        if matches!(kind, SwitchKind::Value) {
            let left = &branches[0].case_label;
            let right = &branches[1].case_label;
            if (label_is(left, "true") && label_is(right, "false")) || (label_is(left, "false")
                && label_is(right, "true")) {
                return SwitchShape::Bool;
            }
        }
        return SwitchShape::Binary;
    }
    if branches.len() == 1 {
        SwitchShape::SingleArm
    } else {
        SwitchShape::Multi
    }
}

/// Arms grouped by case label, plus the catchall arms.
pub struct GroupedBranches {
    pub branches: Vec<(String, Vec<ArmInfo>)>,
    pub fallback: Vec<ArmInfo>,
}

pub open spec fn groups_view(s: Seq<(String, Vec<ArmInfo>)>) -> Seq<(Seq<char>, Seq<ArmV>)> {
    s.map_values(|g: (String, Vec<ArmInfo>)| (g.0@, arms_view(g.1@)))
}

/// The arm left once a `kind` switch tested a fitting arm, and its label.
fn split_case(arm: &ArmInfo, kind: SwitchKind) -> (r: (String, ArmInfo))
    requires
        !is_catchall(arm@),
        arm_groupable(arm@, kind),
    ensures
        (r.0@, r.1@) == case_split(arm@, kind),
{
    match kind {
        SwitchKind::EnumTag => {
            proof { lemma_checks_view_index(arm.checks@, 0); }
            let tag = match &arm.checks[0] {
                Check::EnumTag { tag_constant, .. } => tag_constant.clone(),
                _ => {
                    assert(false);
                    String::new()
                },
            };
            let mut rest: Vec<Check> = Vec::new();
            let mut i: usize = 1;
            while i < arm.checks.len()
                invariant
                    1 <= i <= arm.checks@.len(),
                    checks_view(rest@) == checks_view(arm.checks@).subrange(1, i as int),
                decreases arm.checks.len() - i,
            {
                let c = arm.checks[i].duplicate();
                proof {
                    lemma_checks_push(rest@, c);
                    lemma_checks_view_index(arm.checks@, i as int);
                }
                rest.push(c);
                assert(checks_view(rest@) =~= checks_view(arm.checks@).subrange(1, i + 1));
                i = i + 1;
            }
            assert(checks_view(arm.checks@).subrange(1, i as int) =~= checks_view(arm.checks@).drop_first());
            let inner = ArmInfo {
                arm_index: arm.arm_index,
                root_assertion: None,
                checks: rest,
                bindings: duplicate_bindings(&arm.bindings),
                has_guard: arm.has_guard,
            };
            (tag, inner)
        },
        SwitchKind::Value => {
            proof { lemma_checks_view_index(arm.checks@, 0); }
            let lit = match &arm.checks[0] {
                Check::Literal { go_literal, .. } => go_literal.clone(),
                _ => {
                    assert(false);
                    String::new()
                },
            };
            let mut rest: Vec<Check> = Vec::new();
            let mut i: usize = 1;
            while i < arm.checks.len()
                invariant
                    1 <= i <= arm.checks@.len(),
                    checks_view(rest@) == checks_view(arm.checks@).subrange(1, i as int),
                decreases arm.checks.len() - i,
            {
                let c = arm.checks[i].duplicate();
                proof {
                    lemma_checks_push(rest@, c);
                    lemma_checks_view_index(arm.checks@, i as int);
                }
                rest.push(c);
                assert(checks_view(rest@) =~= checks_view(arm.checks@).subrange(1, i + 1));
                i = i + 1;
            }
            assert(checks_view(arm.checks@).subrange(1, i as int) =~= checks_view(arm.checks@).drop_first());
            let inner = ArmInfo {
                arm_index: arm.arm_index,
                root_assertion: None,
                checks: rest,
                bindings: duplicate_bindings(&arm.bindings),
                has_guard: arm.has_guard,
            };
            (lit, inner)
        },
        SwitchKind::TypeSwitch => {
            let label = match &arm.root_assertion {
                Some(a) => join(&a.go_types, ", "),
                None => {
                    assert(false);
                    String::new()
                },
            };
            let inner = ArmInfo {
                arm_index: arm.arm_index,
                root_assertion: None,
                checks: duplicate_checks(&arm.checks),
                bindings: duplicate_bindings(&arm.bindings),
                has_guard: arm.has_guard,
            };
            (label, inner)
        },
    }
}


pub proof fn lemma_groups_push(s: Seq<(String, Vec<ArmInfo>)>, x: (String, Vec<ArmInfo>))
    ensures
        groups_view(s.push(x)) == groups_view(s).push((x.0@, arms_view(x.1@))),
{
    assert(groups_view(s.push(x)) =~= groups_view(s).push((x.0@, arms_view(x.1@)))) by {
        assert forall|j: int| 0 <= j < s.len() + 1 implies #[trigger] groups_view(s.push(x))[j]
            == groups_view(s).push((x.0@, arms_view(x.1@)))[j] by {
            if j < s.len() {
                assert(s.push(x)[j] == s[j]);
            }
        }
    }
}

pub proof fn lemma_groups_update(s: Seq<(String, Vec<ArmInfo>)>, p: int, x: (String, Vec<ArmInfo>))
    requires
        0 <= p < s.len(),
    ensures
        groups_view(s.update(p, x)) == groups_view(s).update(p, (x.0@, arms_view(x.1@))),
{
    assert(groups_view(s.update(p, x)) =~= groups_view(s).update(p, (x.0@, arms_view(x.1@))));
}

/// Groups the arms of a switch by case label (first-seen order) and
/// collects the catchall arms.
pub fn group_switch_branches(arms: &Vec<ArmInfo>, kind: SwitchKind) -> (r: GroupedBranches)
    requires
        groupable(arms_view(arms@), kind),
    ensures
        groups_view(r.branches@) == group_arms(arms_view(arms@), kind).0,
        arms_view(r.fallback@) == group_arms(arms_view(arms@), kind).1,
{
    let ghost av = arms_view(arms@);
    let mut branches: Vec<(String, Vec<ArmInfo>)> = Vec::new();
    let mut fallback: Vec<ArmInfo> = Vec::new();
    let mut i: usize = 0;
    while i < arms.len()
        invariant
            i <= arms@.len(),
            av == arms_view(arms@),
            groupable(av, kind),
            (groups_view(branches@), arms_view(fallback@)) == group_arms(av.take(i as int), kind),
        decreases arms.len() - i,
    {
        let ghost prefix = av.take(i + 1);
        assert(prefix.drop_last() =~= av.take(i as int));
        assert(prefix.last() == av[i as int]);
        let arm = &arms[i];
        assert(av[i as int] == arm@);
        if arm.is_catchall() {
            let a = arm.duplicate();
            proof { lemma_arms_push(fallback@, a); }
            fallback.push(a);
        } else {
            assert(arm_groupable(av[i as int], kind));
            let (case_label, inner_arm) = split_case(arm, kind);
            let ghost gv = groups_view(branches@);
            let mut p: usize = 0;
            let mut found = false;
            while p < branches.len()
                invariant_except_break
                    !found,
                invariant
                    p <= branches@.len(),
                    gv == groups_view(branches@),
                    forall|j: int| 0 <= j < p ==> group_labels(gv)[j] != case_label@,
                ensures
                    p <= branches@.len(),
                    found ==> p < branches@.len() && group_labels(gv)[p as int] == case_label@,
                    !found ==> p == branches@.len(),
                    forall|j: int| 0 <= j < p ==> group_labels(gv)[j] != case_label@,
                decreases branches.len() - p,
            {
                assert(group_labels(gv)[p as int] == branches@[p as int].0@);
                if label_is(&branches[p].0, case_label.as_str()) {
                    found = true;
                    break;
                }
                p = p + 1;
            }
            assert(group_labels(gv).len() == gv.len());
            proof { crate::checks::lemma_position(group_labels(gv), case_label@, p as int); }
            if found {
                let mut list = Vec::new();
                let mut j: usize = 0;
                while j < branches[p].1.len()
                    invariant
                        p < branches@.len(),
                        j <= branches@[p as int].1@.len(),
                        arms_view(list@) == arms_view(branches@[p as int].1@).take(j as int),
                    decreases branches@[p as int].1@.len() - j,
                {
                    let a = branches[p].1[j].duplicate();
                    proof { lemma_arms_push(list@, a); }
                    list.push(a);
                    assert(arms_view(list@) =~= arms_view(branches@[p as int].1@).take(j + 1));
                    j = j + 1;
                }
                assert(arms_view(branches@[p as int].1@).take(j as int) =~= arms_view(
                    branches@[p as int].1@,
                ));
                proof { lemma_arms_push(list@, inner_arm); }
                list.push(inner_arm);
                let label = branches[p].0.clone();
                proof { lemma_groups_update(branches@, p as int, (label, list)); }
                branches.set(p, (label, list));
            } else {
                let mut list = Vec::new();
                proof { lemma_arms_push(list@, inner_arm); }
                list.push(inner_arm);
                assert(arms_view(list@) =~= seq![inner_arm@]);
                proof { lemma_groups_push(branches@, (case_label, list)); }
                branches.push((case_label, list));
            }
        }
        i = i + 1;
    }
    assert(av.take(i as int) =~= av);
    GroupedBranches { branches, fallback }
}


fn empty_success(arm_index: usize) -> (r: Decision)
    ensures
        r@ == (DecisionV::Success { arm_index, bindings: Seq::empty() }),
{
    let bindings: Vec<PatternBinding> = Vec::new();
    assert(bindings_view(bindings@) =~= Seq::<BindingV>::empty());
    Decision::Success { arm_index, bindings }
}

fn any_inner_can_fail(inner: &Vec<ArmInfo>) -> (r: bool)
    ensures
        r == can_fail(arms_view(inner@)),
{
    let ghost av = arms_view(inner@);
    let mut i: usize = 0;
    while i < inner.len()
        invariant
            i <= inner@.len(),
            av == arms_view(inner@),
            forall|j: int| 0 <= j < i ==> !arm_can_fail(#[trigger] av[j]),
        decreases inner.len() - i,
    {
        assert(av[i as int] == inner@[i as int]@);
        if inner[i].has_guard || inner[i].checks.len() > 0 {
            assert(arm_can_fail(av[i as int]));
            return true;
        }
        i = i + 1;
    }
    false
}

/// Copies of `a` followed by copies of `b`.
fn concat_arms(a: &Vec<ArmInfo>, b: &Vec<ArmInfo>) -> (r: Vec<ArmInfo>)
    ensures
        arms_view(r@) == arms_view(a@) + arms_view(b@),
{
    let mut r = arms_from(a, 0);
    assert(arms_view(a@).skip(0) =~= arms_view(a@));
    let mut i: usize = 0;
    while i < b.len()
        invariant
            i <= b@.len(),
            arms_view(r@) == arms_view(a@) + arms_view(b@).take(i as int),
        decreases b.len() - i,
    {
        let x = b[i].duplicate();
        proof { lemma_arms_push(r@, x); }
        r.push(x);
        assert(arms_view(r@) =~= arms_view(a@) + arms_view(b@).take(i + 1));
        i = i + 1;
    }
    assert(arms_view(b@).take(i as int) =~= arms_view(b@));
    r
}

/// One switch branch per group; a fail-prone case body also decides the
/// catchalls, since Go `switch` cases do not fall through to `default`.
fn build_switch_branches(
    branches: Vec<(String, Vec<ArmInfo>)>,
    fallback_arms: &Vec<ArmInfo>,
    Ghost(arms): Ghost<Seq<ArmV>>,
    Ghost(kind): Ghost<SwitchKind>,
    Ghost(path): Ghost<Seq<SegmentV>>,
) -> (r: Vec<SwitchBranch>)
    requires
        switch_valid(arms, kind, path),
        groups_view(branches@) == group_arms(arms, kind).0,
        arms_view(fallback_arms@) == group_arms(arms, kind).1,
    ensures
        r@.len() == branches@.len(),
        forall|k: int|
            0 <= k < r@.len() ==> (#[trigger] r@[k])@ == (BranchV {
                case_label: group_arms(arms, kind).0[k].0,
                decision: spec_build_tree(
                    branch_arms(group_arms(arms, kind).0[k].1, group_arms(arms, kind).1),
                ),
            }),
    decreases total_weight(arms), arms.len(), 0int,
{
    let ghost groups = group_arms(arms, kind).0;
    let ghost fb = group_arms(arms, kind).1;
    let mut result: Vec<SwitchBranch> = Vec::new();
    let mut k: usize = 0;
    while k < branches.len()
        invariant
            k <= branches@.len(),
            switch_valid(arms, kind, path),
            groups == group_arms(arms, kind).0,
            fb == group_arms(arms, kind).1,
            groups_view(branches@) == groups,
            arms_view(fallback_arms@) == fb,
            result@.len() == k,
            forall|q: int|
                0 <= q < k ==> (#[trigger] result@[q])@ == (BranchV {
                    case_label: groups[q].0,
                    decision: spec_build_tree(branch_arms(groups[q].1, fb)),
                }),
        decreases branches.len() - k,
    {
        assert(groups[k as int] == (branches@[k as int].0@, arms_view(branches@[k as int].1@)));
        let inner = &branches[k].1;
        proof { lemma_branch_measure(arms, kind, path, k as int); }
        let decision = if any_inner_can_fail(inner) {
            let with_fallback = concat_arms(inner, fallback_arms);
            build_tree(with_fallback)
        } else {
            let only = arms_from(inner, 0);
            assert(arms_view(inner@).skip(0) =~= arms_view(inner@));
            build_tree(only)
        };
        let branch = SwitchBranch { case_label: branches[k].0.clone(), decision };
        let ghost before = result@;
        result.push(branch);
        assert forall|q: int| 0 <= q < k + 1 implies (#[trigger] result@[q])@ == (BranchV {
            case_label: groups[q].0,
            decision: spec_build_tree(branch_arms(groups[q].1, fb)),
        }) by {
            if q < k {
                assert(result@[q] == before[q]);
            }
        }
        k = k + 1;
    }
    result
}

/// The switch for `arms`, when every non-catchall arm agrees on one.
pub fn try_build_switch(arms: &Vec<ArmInfo>) -> (r: Option<Decision>)
    ensures
        match r {
            Some(d) => spec_build_switch(arms_view(arms@)) == Some(d@),
            None => spec_build_switch(arms_view(arms@)) is None,
        },
    decreases total_weight(arms_view(arms@)), arms@.len(), 1int,
{
    let ghost av = arms_view(arms@);
    let mut f: usize = 0;
    while f < arms.len()
        invariant
            f <= arms@.len(),
            av == arms_view(arms@),
            forall|j: int| 0 <= j < f ==> is_catchall(#[trigger] av[j]),
        ensures
            f <= arms@.len(),
            forall|j: int| 0 <= j < f ==> is_catchall(#[trigger] av[j]),
            f < arms@.len() ==> !is_catchall(av[f as int]),
        decreases arms.len() - f,
    {
        assert(av[f as int] == arms@[f as int]@);
        if !arms[f].is_catchall() {
            break;
        }
        f = f + 1;
    }
    proof {
        lemma_first_relevant(av, f as int);
        lemma_first_relevant_range(av);
    }
    if f == arms.len() {
        return None;
    }
    assert(av[f as int] == arms@[f as int]@);
    let (kind, switch_path) = match pick_switch_kind(&arms[f]) {
        Some(picked) => picked,
        None => {
            return None;
        },
    };
    if validate_switch_arms(arms, kind, &switch_path).is_none() {
        return None;
    }
    let ghost path = switch_path@;
    assert forall|i: int| 0 <= i < av.len() && !is_catchall(#[trigger] av[i]) implies arm_groupable(
        av[i],
        kind,
    ) by {
        assert(arm_fits(av[i], kind, path));
    }
    let grouped = group_switch_branches(arms, kind);
    let GroupedBranches { branches: groups_exec, fallback: fallback_exec } = grouped;
    let branches = build_switch_branches(
        groups_exec,
        &fallback_exec,
        Ghost(av),
        Ghost(kind),
        Ghost(path),
    );
    let fallback = if fallback_exec.len() == 0 {
        None
    } else {
        proof { lemma_fallback_measure(av, kind, path); }
        Some(Box::new(build_tree(fallback_exec)))
    };
    let shape = classify_switch_shape(kind, &branches, &fallback);
    let d = Decision::Switch { path: switch_path, kind, shape, branches, fallback };
    proof {
        lemma_switch_view(d);
        let groups = group_arms(av, kind).0;
        let fb = group_arms(av, kind).1;
        let spec_d = spec_build_switch(av).unwrap();
        let spec_branches = spec_d->Switch_branches;
        assert(d@->Switch_branches =~= spec_branches);
        assert(d@->Switch_path == spec_d->Switch_path);
        assert(d@->Switch_kind == spec_d->Switch_kind);
        assert(d@->Switch_fallback == spec_d->Switch_fallback);
        assert(d@->Switch_shape == spec_d->Switch_shape);
    }
    Some(d)
}

/// The `if`/`else if` chain for `arms`.
pub fn build_chain(arms: Vec<ArmInfo>) -> (r: Decision)
    ensures
        r@ == spec_build_chain(arms_view(arms@)),
    decreases total_weight(arms_view(arms@)), arms@.len(), 1int,
{
    let ghost av = arms_view(arms@);
    let mut tests: Vec<ChainTest> = Vec::new();
    let mut i: usize = 0;
    while i < arms.len()
        invariant
            i <= arms@.len(),
            av == arms_view(arms@),
            forall|j: int| 0 <= j < i ==> !(is_catchall(#[trigger] av[j]) && !av[j].has_guard),
            tests@.len() == i,
            forall|j: int|
                0 <= j < i ==> (#[trigger] tests@[j])@ == (TestV {
                    checks: chain_checks(av[j]),
                    decision: spec_chain_decision(av, j),
                }),
        decreases arms.len() - i,
    {
        let arm = &arms[i];
        assert(av[i as int] == arm@);
        if arm.is_catchall() && !arm.has_guard {
            proof { lemma_first_unguarded(av, i as int); }
            let fallback = Decision::Success {
                arm_index: arm.arm_index,
                bindings: duplicate_bindings(&arm.bindings),
            };
            if tests.len() == 0 {
                return fallback;
            }
            let d = Decision::Chain { tests, fallback: Box::new(fallback) };
            proof {
                lemma_chain_view(d);
                assert(d@->Chain_tests =~= spec_build_chain(av)->Chain_tests);
            }
            return d;
        }
        let decision = if arm.has_guard {
            proof { lemma_weight_skip(av, i + 1); }
            let remaining = arms_from(&arms, i + 1);
            Decision::Guard {
                arm_index: arm.arm_index,
                bindings: duplicate_bindings(&arm.bindings),
                success: Box::new(empty_success(arm.arm_index)),
                failure: Box::new(build_tree(remaining)),
            }
        } else {
            Decision::Success {
                arm_index: arm.arm_index,
                bindings: duplicate_bindings(&arm.bindings),
            }
        };
        let checks = match &arm.root_assertion {
            Some(assertion) => {
                let mut checks: Vec<Check> = Vec::new();
                let first = type_assertion_to_check(assertion.duplicate());
                proof { lemma_checks_push(checks@, first); }
                checks.push(first);
                let mut j: usize = 0;
                while j < arm.checks.len()
                    invariant
                        j <= arm.checks@.len(),
                        checks_view(checks@) == seq![first@] + checks_view(arm.checks@).take(j as int),
                    decreases arm.checks.len() - j,
                {
                    let c = arm.checks[j].duplicate();
                    proof {
                        lemma_checks_push(checks@, c);
                        lemma_checks_view_index(arm.checks@, j as int);
                    }
                    checks.push(c);
                    assert(checks_view(checks@) =~= seq![first@] + checks_view(arm.checks@).take(j + 1));
                    j = j + 1;
                }
                assert(checks_view(arm.checks@).take(j as int) =~= checks_view(arm.checks@));
                checks
            },
            None => duplicate_checks(&arm.checks),
        };
        let test = ChainTest { checks, decision };
        let ghost before = tests@;
        tests.push(test);
        assert forall|j: int| 0 <= j < i + 1 implies (#[trigger] tests@[j])@ == (TestV {
            checks: chain_checks(av[j]),
            decision: spec_chain_decision(av, j),
        }) by {
            if j < i {
                assert(tests@[j] == before[j]);
            }
        }
        i = i + 1;
    }
    proof { lemma_first_unguarded(av, i as int); }
    let d = Decision::Chain { tests, fallback: Box::new(Decision::Unreachable) };
    proof {
        lemma_chain_view(d);
        assert(d@->Chain_tests =~= spec_build_chain(av)->Chain_tests);
    }
    d
}

/// Builds the decision tree that tries `arms` in order.
pub fn build_tree(arms: Vec<ArmInfo>) -> (r: Decision)
    ensures
        r@ == spec_build_tree(arms_view(arms@)),
    decreases total_weight(arms_view(arms@)), arms@.len(), 2int,
{
    let ghost av = arms_view(arms@);
    if arms.len() == 0 {
        return Decision::Unreachable;
    }
    assert(av[0] == arms@[0]@);
    let first_is_catchall = arms[0].is_catchall();
    if first_is_catchall && !arms[0].has_guard {
        return Decision::Success {
            arm_index: arms[0].arm_index,
            bindings: duplicate_bindings(&arms[0].bindings),
        };
    }
    if first_is_catchall && arms[0].has_guard {
        proof { lemma_weight_skip(av, 1); }
        let rest = arms_from(&arms, 1);
        return Decision::Guard {
            arm_index: arms[0].arm_index,
            bindings: duplicate_bindings(&arms[0].bindings),
            success: Box::new(empty_success(arms[0].arm_index)),
            failure: Box::new(build_tree(rest)),
        };
    }
    if let Some(switch) = try_build_switch(&arms) {
        return switch;
    }
    build_chain(arms)
}


/// Whether the tree has an unconditional success path.
pub open spec fn exhaustive(d: DecisionV) -> bool
    decreases d,
{
    match d {
        DecisionV::Success { .. } => true,
        DecisionV::Chain { tests, fallback } => (*fallback is Unreachable && tests.len() > 1)
            || exhaustive(*fallback),
        DecisionV::Switch { fallback, branches, .. } => fallback is Some || branches.len() > 0,
        _ => false,
    }
}

/// Whether a success is reachable without passing a guard.
pub open spec fn unguarded_terminal(d: DecisionV) -> bool
    decreases d,
{
    match d {
        DecisionV::Success { .. } => true,
        DecisionV::Guard { failure, .. } => unguarded_terminal(*failure),
        DecisionV::Chain { tests, fallback } => unguarded_terminal(*fallback) || (
        *fallback is Unreachable && tests.len() > 0 && unguarded_terminal(tests.last().decision)),
        DecisionV::Switch { fallback, branches, .. } => match fallback {
            Some(fb) => unguarded_terminal(*fb),
            None => branches.len() > 0,
        },
        DecisionV::Unreachable => false,
    }
}

/// True when the tree has an unconditional success path.
pub fn decision_is_exhaustive(tree: &Decision) -> (r: bool)
    ensures
        r == exhaustive(tree@),
    decreases tree,
{
    match tree {
        Decision::Success { .. } => true,
        Decision::Chain { tests, fallback } => {
            proof { lemma_chain_view(*tree); }
            (matches!(**fallback, Decision::Unreachable) && tests.len() > 1)
                || decision_is_exhaustive(fallback)
        },
        Decision::Switch { fallback, branches, .. } => {
            proof { lemma_switch_view(*tree); }
            fallback.is_some() || branches.len() > 0
        },
        _ => false,
    }
}

/// True when the tree has a terminal success reachable without passing a guard.
pub fn tree_has_unguarded_terminal(tree: &Decision) -> (r: bool)
    ensures
        r == unguarded_terminal(tree@),
    decreases tree,
{
    match tree {
        Decision::Success { .. } => true,
        Decision::Guard { failure, .. } => tree_has_unguarded_terminal(failure),
        Decision::Chain { tests, fallback } => {
            proof { lemma_chain_view(*tree); }
            if tree_has_unguarded_terminal(fallback) {
                return true;
            }
            if !matches!(**fallback, Decision::Unreachable) || tests.len() == 0 {
                return false;
            }
            let n = tests.len();
            proof {
                broadcast use vstd::std_specs::vec::axiom_vec_decreases_to_view;
                assert(decreases_to!(tree => *tests));
                assert(decreases_to!(*tests => tests@));
                assert(decreases_to!(tests@ => tests@[n - 1]));
                assert(decreases_to!(tests@[n - 1] => tests@[n - 1].decision));
                assert(tests_view(tests@).last() == tests@[n - 1]@);
            }
            tree_has_unguarded_terminal(&tests[n - 1].decision)
        },
        Decision::Switch { fallback, branches, .. } => {
            proof { lemma_switch_view(*tree); }
            match fallback {
                Some(fb) => tree_has_unguarded_terminal(fb),
                None => branches.len() > 0,
            }
        },
        Decision::Unreachable => false,
    }
}


/// Whether a check is a Go-interface type assertion on the subject itself: a
/// single one, or an or-check whose alternatives are each one such assertion.
pub open spec fn is_root_assertion_check(c: CheckV) -> bool {
    match c {
        CheckV::TypeAssert { path, .. } => path.len() == 0,
        CheckV::Or { alternatives } => forall|i: int|
            0 <= i < alternatives.len() ==> ((#[trigger] alternatives[i]).len() == 1
                && (alternatives[i][0] matches CheckV::TypeAssert { path, .. } && path.len() == 0)),
        _ => false,
    }
}

/// The index of the first root type assertion among `checks`, or -1.
pub open spec fn root_assertion_index(checks: Seq<CheckV>) -> int
    decreases checks.len(),
{
    if checks.len() == 0 {
        -1
    } else if is_root_assertion_check(checks[0]) {
        0
    } else {
        let p = root_assertion_index(checks.drop_first());
        if p < 0 { -1 } else { p + 1 }
    }
}

pub proof fn lemma_root_assertion_index(checks: Seq<CheckV>, i: int)
    requires
        0 <= i <= checks.len(),
        forall|j: int| 0 <= j < i ==> !is_root_assertion_check(#[trigger] checks[j]),
    ensures
        i < checks.len() && is_root_assertion_check(checks[i]) ==> root_assertion_index(checks) == i,
        i == checks.len() ==> root_assertion_index(checks) == -1,
    decreases checks.len(),
{
    if checks.len() > 0 && i > 0 {
        assert(!is_root_assertion_check(checks[0]));
        lemma_root_assertion_index(checks.drop_first(), i - 1);
    }
}

/// Whether lifting the root assertion out of `checks` is defined: the lifted
/// check is not an or-check without alternatives.
pub open spec fn extract_ok(checks: Seq<CheckV>) -> bool {
    let p = root_assertion_index(checks);
    p < 0 || !(checks[p] matches CheckV::Or { alternatives } && alternatives.len() == 0)
}

/// The assertion a root-assertion check lifts to.
pub open spec fn lifted_assertion(c: CheckV) -> AssertionV {
    match c {
        CheckV::TypeAssert { path, go_type } => AssertionV { path, go_types: seq![go_type] },
        CheckV::Or { alternatives } => AssertionV {
            path: alternatives[0][0]->TypeAssert_path,
            go_types: Seq::new(alternatives.len(), |i: int| alternatives[i][0]->TypeAssert_go_type),
        },
        _ => AssertionV { path: Seq::empty(), go_types: Seq::empty() },
    }
}

/// The lifted root assertion, and the checks left behind.
pub open spec fn extracted(checks: Seq<CheckV>) -> (Option<AssertionV>, Seq<CheckV>) {
    let p = root_assertion_index(checks);
    if p < 0 {
        (None, checks)
    } else {
        (Some(lifted_assertion(checks[p])), checks.remove(p))
    }
}

fn is_root_assertion(c: &Check) -> (r: bool)
    ensures
        r == is_root_assertion_check(c@),
{
    match c {
        Check::TypeAssert { path, .. } => path.is_root(),
        Check::Or { alternatives } => {
            proof { lemma_or_view_lens(*c); }
            let ghost alts = c@->Or_alternatives;
            let mut i: usize = 0;
            while i < alternatives.len()
                invariant
                    i <= alternatives@.len(),
                    alts == alternatives_view(alternatives@),
                    c@ is Or,
                    alts == c@->Or_alternatives,
                    forall|j: int|
                        0 <= j < i ==> ((#[trigger] alts[j]).len() == 1 && (alts[j][0] matches CheckV::TypeAssert {
                            path,
                            ..
                        } && path.len() == 0)),
                decreases alternatives.len() - i,
            {
                let alt = &alternatives[i];
                assert(alts[i as int] == checks_view(alt@));
                if alt.len() != 1 {
                    assert(!((alts[i as int]).len() == 1));
                    return false;
                }
                proof { lemma_checks_view_index(alt@, 0); }
                let ok = match &alt[0] {
                    Check::TypeAssert { path, .. } => path.is_root(),
                    _ => false,
                };
                if !ok {
                    assert(!(alts[i as int][0] matches CheckV::TypeAssert { path, .. } && path.len() == 0));
                    return false;
                }
                i = i + 1;
            }
            true
        },
        _ => false,
    }
}

pub proof fn lemma_checks_remove(s: Seq<Check>, i: int)
    requires
        0 <= i < s.len(),
    ensures
        checks_view(s.remove(i)) == checks_view(s).remove(i),
{
    assert(checks_view(s.remove(i)) =~= checks_view(s).remove(i));
}

/// Moves the first root-path type assertion out of `checks`.
pub fn extract_root_assertion(checks: &mut Vec<Check>) -> (r: Option<TypeAssertion>)
    requires
        extract_ok(checks_view(old(checks)@)),
    ensures
        (assertion_view(r), checks_view(final(checks)@)) == extracted(checks_view(old(checks)@)),
{
    let ghost cv = checks_view(checks@);
    let mut position: usize = 0;
    while position < checks.len()
        invariant
            position <= checks@.len(),
            cv == checks_view(checks@),
            forall|j: int| 0 <= j < position ==> !is_root_assertion_check(#[trigger] cv[j]),
        ensures
            position <= checks@.len(),
            forall|j: int| 0 <= j < position ==> !is_root_assertion_check(#[trigger] cv[j]),
            position < checks@.len() ==> is_root_assertion_check(cv[position as int]),
        decreases checks.len() - position,
    {
        proof { lemma_checks_view_index(checks@, position as int); }
        if is_root_assertion(&checks[position]) {
            break;
        }
        position = position + 1;
    }
    proof { lemma_root_assertion_index(cv, position as int); }
    if position == checks.len() {
        return None;
    }
    proof {
        lemma_checks_remove(checks@, position as int);
        lemma_checks_view_index(checks@, position as int);
    }
    let removed = checks.remove(position);
    match removed {
        Check::TypeAssert { path, go_type } => {
            let mut go_types: Vec<String> = Vec::new();
            proof { crate::text::lemma_views_push(go_types@, go_type); }
            go_types.push(go_type);
            assert(views_of(go_types@) =~= seq![go_type@]);
            Some(TypeAssertion { path, go_types })
        },
        Check::Or { alternatives } => {
            proof { lemma_or_view_lens(Check::Or { alternatives }); }
            let ghost alts = cv[position as int]->Or_alternatives;
            assert(alts == alternatives_view(alternatives@));
            let mut go_types: Vec<String> = Vec::new();
            let mut shared: Option<AccessPath> = None;
            let mut i: usize = 0;
            while i < alternatives.len()
                invariant
                    i <= alternatives@.len(),
                    alts == alternatives_view(alternatives@),
                    alts.len() > 0,
                    is_root_assertion_check(CheckV::Or { alternatives: alts }),
                    views_of(go_types@) == Seq::new(
                        alts.len(),
                        |k: int| alts[k][0]->TypeAssert_go_type,
                    ).take(i as int),
                    i > 0 ==> (shared matches Some(p) && p@ == alts[0][0]->TypeAssert_path),
                    i == 0 ==> shared is None,
                decreases alternatives.len() - i,
            {
                let alt = &alternatives[i];
                assert(alts[i as int] == checks_view(alt@));
                assert(alts[i as int].len() == 1);
                proof { lemma_checks_view_index(alt@, 0); }
                match &alt[0] {
                    Check::TypeAssert { path, go_type } => {
                        assert(alts[i as int][0] == alt@[0]@);
                        if shared.is_none() {
                            shared = Some(path.duplicate());
                        }
                        let t = go_type.clone();
                        proof { crate::text::lemma_views_push(go_types@, t); }
                        go_types.push(t);
                        assert(views_of(go_types@) =~= Seq::new(
                            alts.len(),
                            |k: int| alts[k][0]->TypeAssert_go_type,
                        ).take(i + 1));
                    },
                    _ => {
                        assert(false);
                    },
                }
                i = i + 1;
            }
            assert(Seq::new(alts.len(), |k: int| alts[k][0]->TypeAssert_go_type).take(i as int)
                =~= Seq::new(alts.len(), |k: int| alts[k][0]->TypeAssert_go_type));
            match shared {
                Some(path) => Some(TypeAssertion { path, go_types }),
                None => {
                    assert(false);
                    None
                },
            }
        },
        _ => {
            assert(false);
            None
        },
    }
}


/// Whether an arm is one or-check over interface type assertions where some
/// alternative checks more than its type.
pub open spec fn interface_or_with_extras(arm: ArmV) -> bool {
    arm.checks.len() == 1 && (arm.checks[0] matches CheckV::Or { alternatives } && (forall|i: int|
        0 <= i < alternatives.len() ==> (#[trigger] alternatives[i]).len() > 0
            && alternatives[i][0] is TypeAssert) && (exists|i: int|
        0 <= i < alternatives.len() && (#[trigger] alternatives[i]).len() > 1))
}

/// The arms one arm expands to: one per alternative for an interface
/// or-check with extras, itself otherwise.
pub open spec fn expand_arm(arm: ArmV) -> Seq<ArmV> {
    if interface_or_with_extras(arm) {
        let alts = arm.checks[0]->Or_alternatives;
        Seq::new(
            alts.len(),
            |i: int|
                ArmV {
                    root_assertion: extracted(alts[i]).0,
                    checks: extracted(alts[i]).1,
                    ..arm
                },
        )
    } else {
        seq![arm]
    }
}

pub open spec fn expand_all(arms: Seq<ArmV>) -> Seq<ArmV>
    decreases arms.len(),
{
    if arms.len() == 0 {
        Seq::empty()
    } else {
        expand_all(arms.drop_last()) + expand_arm(arms.last())
    }
}

/// Whether expanding the arms is defined: each alternative that will be
/// split out can have its root assertion lifted.
pub open spec fn expand_ok(arms: Seq<ArmV>) -> bool {
    forall|i: int|
        0 <= i < arms.len() && interface_or_with_extras(#[trigger] arms[i]) ==> forall|k: int|
            0 <= k < arms[i].checks[0]->Or_alternatives.len() ==> extract_ok(
                #[trigger] arms[i].checks[0]->Or_alternatives[k],
            )
}

pub fn arm_is_interface_or_with_extras(arm: &ArmInfo) -> (r: bool)
    ensures
        r == interface_or_with_extras(arm@),
{
    if arm.checks.len() != 1 {
        return false;
    }
    proof { lemma_checks_view_index(arm.checks@, 0); }
    match &arm.checks[0] {
        Check::Or { alternatives } => {
            proof { lemma_or_view_lens(arm.checks@[0]); }
            let ghost alts = arm@.checks[0]->Or_alternatives;
            let mut all_first_assert = true;
            let mut any_extra = false;
            let mut i: usize = 0;
            while i < alternatives.len()
                invariant
                    i <= alternatives@.len(),
                    alts == alternatives_view(alternatives@),
                    all_first_assert == forall|j: int|
                        0 <= j < i ==> (#[trigger] alts[j]).len() > 0 && alts[j][0] is TypeAssert,
                    any_extra == exists|j: int| 0 <= j < i && (#[trigger] alts[j]).len() > 1,
                decreases alternatives.len() - i,
            {
                let alt = &alternatives[i];
                assert(alts[i as int] == checks_view(alt@));
                let first_assert = if alt.len() > 0 {
                    proof { lemma_checks_view_index(alt@, 0); }
                    matches!(alt[0], Check::TypeAssert { .. })
                } else {
                    false
                };
                assert(first_assert == (alts[i as int].len() > 0 && alts[i as int][0] is TypeAssert));
                all_first_assert = all_first_assert && first_assert;
                any_extra = any_extra || alt.len() > 1;
                i = i + 1;
            }
            all_first_assert && any_extra
        },
        _ => false,
    }
}

pub proof fn lemma_expand_identity(arms: Seq<ArmV>)
    requires
        forall|i: int| 0 <= i < arms.len() ==> !interface_or_with_extras(#[trigger] arms[i]),
    ensures
        expand_all(arms) == arms,
    decreases arms.len(),
{
    if arms.len() > 0 {
        lemma_expand_identity(arms.drop_last());
        assert(expand_all(arms) =~= arms);
    }
}

/// Splits each interface or-check with extras into one arm per alternative.
pub fn expand_interface_or_checks(arm_infos: Vec<ArmInfo>) -> (r: Vec<ArmInfo>)
    requires
        expand_ok(arms_view(arm_infos@)),
    ensures
        arms_view(r@) == expand_all(arms_view(arm_infos@)),
{
    let ghost av = arms_view(arm_infos@);
    let mut any = false;
    let mut i: usize = 0;
    while i < arm_infos.len()
        invariant
            i <= arm_infos@.len(),
            av == arms_view(arm_infos@),
            any == exists|j: int| 0 <= j < i && interface_or_with_extras(#[trigger] av[j]),
        decreases arm_infos.len() - i,
    {
        assert(av[i as int] == arm_infos@[i as int]@);
        if arm_is_interface_or_with_extras(&arm_infos[i]) {
            any = true;
        }
        i = i + 1;
    }
    if !any {
        proof { lemma_expand_identity(av); }
        return arm_infos;
    }
    let mut result: Vec<ArmInfo> = Vec::new();
    let mut i: usize = 0;
    while i < arm_infos.len()
        invariant
            i <= arm_infos@.len(),
            av == arms_view(arm_infos@),
            expand_ok(av),
            arms_view(result@) == expand_all(av.take(i as int)),
        decreases arm_infos.len() - i,
    {
        let arm = &arm_infos[i];
        assert(av[i as int] == arm@);
        assert(av.take(i + 1).drop_last() =~= av.take(i as int));
        assert(av.take(i + 1).last() == av[i as int]);
        if arm_is_interface_or_with_extras(arm) {
            proof {
                lemma_checks_view_index(arm.checks@, 0);
                lemma_or_view_lens(arm.checks@[0]);
            }
            let ghost alts = arm@.checks[0]->Or_alternatives;
            let ghost base = arms_view(result@);
            match &arm.checks[0] {
                Check::Or { alternatives } => {
                    let mut k: usize = 0;
                    while k < alternatives.len()
                        invariant
                            k <= alternatives@.len(),
                            alts == alternatives_view(alternatives@),
                            interface_or_with_extras(arm@),
                            alts == arm@.checks[0]->Or_alternatives,
                            forall|q: int| 0 <= q < alts.len() ==> extract_ok(#[trigger] alts[q]),
                            arms_view(result@) == base + expand_arm(arm@).take(k as int),
                        decreases alternatives.len() - k,
                    {
                        let mut checks = duplicate_checks(&alternatives[k]);
                        assert(alts[k as int] == checks_view(alternatives@[k as int]@));
                        let root_assertion = extract_root_assertion(&mut checks);
                        let new_arm = ArmInfo {
                            arm_index: arm.arm_index,
                            root_assertion,
                            checks,
                            bindings: duplicate_bindings(&arm.bindings),
                            has_guard: arm.has_guard,
                        };
                        proof { lemma_arms_push(result@, new_arm); }
                        result.push(new_arm);
                        assert(arms_view(result@) =~= base + expand_arm(arm@).take(k + 1));
                        k = k + 1;
                    }
                    assert(expand_arm(arm@).take(k as int) =~= expand_arm(arm@));
                },
                _ => {
                    assert(false);
                },
            }
        } else {
            let a = arm.duplicate();
            proof { lemma_arms_push(result@, a); }
            result.push(a);
            assert(arms_view(result@) =~= expand_all(av.take(i + 1)));
        }
        i = i + 1;
    }
    assert(av.take(i as int) =~= av);
    result
}


/// Whether some alternative of arm `arm_index` left the binding `name` unused.
pub open spec fn unused_in_arm(arms: Seq<ArmV>, arm_index: usize, name: Seq<char>) -> bool {
    exists|i: int, j: int|
        0 <= i < arms.len() && 0 <= j < arms[i].bindings.len() && arms[i].arm_index == arm_index
            && (#[trigger] arms[i].bindings[j]).lisette_name == name
            && arms[i].bindings[j].go_name is None
}

/// A binding, marked unused when another alternative of its arm left it unused.
pub open spec fn propagated_binding(arms: Seq<ArmV>, arm_index: usize, b: BindingV) -> BindingV {
    if unused_in_arm(arms, arm_index, b.lisette_name) {
        BindingV { go_name: None, ..b }
    } else {
        b
    }
}

/// The arms with unused status shared across alternatives of one arm.
pub open spec fn propagate_unused(arms: Seq<ArmV>) -> Seq<ArmV> {
    Seq::new(
        arms.len(),
        |i: int|
            ArmV {
                bindings: Seq::new(
                    arms[i].bindings.len(),
                    |j: int| propagated_binding(arms, arms[i].arm_index, arms[i].bindings[j]),
                ),
                ..arms[i]
            },
    )
}

/// Whether two neighbouring arms are alternatives of one or-pattern arm.
pub open spec fn has_or_alternatives(arms: Seq<ArmV>) -> bool {
    exists|i: int| 0 <= i < arms.len() - 1 && #[trigger] arms[i].arm_index == arms[i + 1].arm_index
}

/// The tree compiled from the arms' checks and bindings.
pub open spec fn compiled_tree(arms: Seq<ArmV>) -> DecisionV {
    let expanded = expand_all(arms);
    spec_build_tree(
        if has_or_alternatives(arms) {
            propagate_unused(expanded)
        } else {
            expanded
        },
    )
}

fn is_unused_in_arm(arms: &Vec<ArmInfo>, arm_index: usize, name: &str) -> (r: bool)
    ensures
        r == unused_in_arm(arms_view(arms@), arm_index, name@),
{
    let ghost av = arms_view(arms@);
    let mut i: usize = 0;
    while i < arms.len()
        invariant
            i <= arms@.len(),
            av == arms_view(arms@),
            forall|p: int, q: int|
                0 <= p < i && 0 <= q < av[p].bindings.len() && av[p].arm_index == arm_index
                    ==> !((#[trigger] av[p].bindings[q]).lisette_name == name@
                    && av[p].bindings[q].go_name is None),
        decreases arms.len() - i,
    {
        let arm = &arms[i];
        assert(av[i as int] == arm@);
        if arm.arm_index == arm_index {
            let mut j: usize = 0;
            while j < arm.bindings.len()
                invariant
                    j <= arm.bindings@.len(),
                    i < arms@.len(),
                    arm == &arms@[i as int],
                    av == arms_view(arms@),
                    av[i as int] == arm@,
                    av[i as int].arm_index == arm_index,
                    forall|q: int|
                        0 <= q < j ==> !((#[trigger] av[i as int].bindings[q]).lisette_name == name@
                            && av[i as int].bindings[q].go_name is None),
                decreases arm.bindings.len() - j,
            {
                let b = &arm.bindings[j];
                assert(av[i as int].bindings[j as int] == b@);
                if b.go_name.is_none() && str_eq(b.lisette_name.as_str(), name) {
                    assert(av[i as int].bindings[j as int].lisette_name == name@);
                    return true;
                }
                j = j + 1;
            }
        }
        i = i + 1;
    }
    false
}

/// Compiles arms, already collected from their patterns, into a decision tree:
/// interface or-checks with extras split into one arm per alternative, and
/// when or-pattern alternatives share an arm, a binding one alternative left
/// unused is unused in all of them.
pub fn compile_arm_infos(arm_infos: Vec<ArmInfo>) -> (r: Decision)
    requires
        expand_ok(arms_view(arm_infos@)),
    ensures
        r@ == compiled_tree(arms_view(arm_infos@)),
{
    let ghost given = arms_view(arm_infos@);
    let mut has_or_patterns = false;
    let n = arm_infos.len();
    if n >= 2 {
        let mut w: usize = 0;
        while w < n - 1
            invariant
                n == arm_infos@.len(),
                n >= 2,
                w <= n - 1,
                given == arms_view(arm_infos@),
                has_or_patterns == exists|i: int|
                    0 <= i < w && #[trigger] given[i].arm_index == given[i + 1].arm_index,
            decreases n - 1 - w,
        {
            assert(given[w as int] == arm_infos@[w as int]@);
            assert(given[w + 1] == arm_infos@[w + 1]@);
            if arm_infos[w].arm_index == arm_infos[w + 1].arm_index {
                has_or_patterns = true;
                assert(given[w as int].arm_index == given[w + 1].arm_index);
            } else {
                assert(!(given[w as int].arm_index == given[w + 1].arm_index));
            }
            w = w + 1;
        }
    }
    assert(has_or_patterns == has_or_alternatives(given));
    let arm_infos = expand_interface_or_checks(arm_infos);
    if !has_or_patterns {
        return build_tree(arm_infos);
    }
    let ghost ev = arms_view(arm_infos@);
    let mut propagated: Vec<ArmInfo> = Vec::new();
    let mut i: usize = 0;
    while i < arm_infos.len()
        invariant
            i <= arm_infos@.len(),
            ev == arms_view(arm_infos@),
            arms_view(propagated@) == propagate_unused(ev).take(i as int),
        decreases arm_infos.len() - i,
    {
        let arm = &arm_infos[i];
        assert(ev[i as int] == arm@);
        let mut bindings: Vec<PatternBinding> = Vec::new();
        let mut j: usize = 0;
        while j < arm.bindings.len()
            invariant
                j <= arm.bindings@.len(),
                i < arm_infos@.len(),
                arm == &arm_infos@[i as int],
                ev == arms_view(arm_infos@),
                ev[i as int] == arm@,
                bindings_view(bindings@) == Seq::new(
                    ev[i as int].bindings.len(),
                    |q: int| propagated_binding(ev, ev[i as int].arm_index, ev[i as int].bindings[q]),
                ).take(j as int),
            decreases arm.bindings.len() - j,
        {
            let b = &arm.bindings[j];
            assert(ev[i as int].bindings[j as int] == b@);
            let mut nb = b.duplicate();
            if is_unused_in_arm(&arm_infos, arm.arm_index, b.lisette_name.as_str()) {
                nb.go_name = None;
            }
            proof { lemma_bindings_push(bindings@, nb); }
            bindings.push(nb);
            assert(bindings_view(bindings@) =~= Seq::new(
                ev[i as int].bindings.len(),
                |q: int| propagated_binding(ev, ev[i as int].arm_index, ev[i as int].bindings[q]),
            ).take(j + 1));
            j = j + 1;
        }
        let new_arm = ArmInfo {
            arm_index: arm.arm_index,
            root_assertion: match &arm.root_assertion {
                Some(a) => Some(a.duplicate()),
                None => None,
            },
            checks: duplicate_checks(&arm.checks),
            bindings,
            has_guard: arm.has_guard,
        };
        assert(Seq::new(
            ev[i as int].bindings.len(),
            |q: int| propagated_binding(ev, ev[i as int].arm_index, ev[i as int].bindings[q]),
        ).take(j as int) =~= propagate_unused(ev)[i as int].bindings);
        proof { lemma_arms_push(propagated@, new_arm); }
        propagated.push(new_arm);
        assert(arms_view(propagated@) =~= propagate_unused(ev).take(i + 1));
        i = i + 1;
    }
    assert(propagate_unused(ev).take(i as int) =~= propagate_unused(ev));
    build_tree(propagated)
}

} // verus!
