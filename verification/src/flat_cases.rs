//! Flattening a guarded decision tree into the cases of a conditional
//! `switch { case cond: ... }`: every leaf becomes one case whose label is the
//! conjunction of the conditions on its way down.

use vstd::prelude::*;
use crate::checks::{
    Check, CheckV, SubjectRoot, SubjectV, checks_resolvable, checks_view, condition_text, path_text,
    render_condition, resolvable,
};
use crate::text::{lemma_views_push, views_of};
use crate::tree::{
    BindingV, BranchV, ChainTest, Decision, DecisionV, PatternBinding, SwitchBranch, SwitchKind,
    SwitchShape, TestV,
    bindings_view, branches_view, duplicate_strings, lemma_chain_view, lemma_switch_view, opt_view,
    tests_view,
};
use crate::tree_emit::{
    branch_condition_text, chain_last_is_catchall, last_is_catchall, switch_branch_condition,
};

verus! {

broadcast use vstd::std_specs::vec::axiom_vec_decreases_to_view;

/// One case of a flattened tree: the conditions that lead to a leaf, the
/// bindings the leaf installs, and the leaf itself.
pub struct FlatCase<'d> {
    pub conditions: Vec<String>,
    pub bindings: &'d [PatternBinding],
    pub decision: &'d Decision,
}

/// The mathematical form of a [`FlatCase`].
pub struct FlatCaseV {
    pub conditions: Seq<Seq<char>>,
    pub bindings: Seq<BindingV>,
    pub decision: DecisionV,
}

impl<'d> View for FlatCase<'d> {
    type V = FlatCaseV;

    open spec fn view(&self) -> FlatCaseV {
        FlatCaseV {
            conditions: views_of(self.conditions@),
            bindings: bindings_view(self.bindings@),
            decision: self.decision@,
        }
    }
}

pub open spec fn flat_view<'d>(s: Seq<FlatCase<'d>>) -> Seq<FlatCaseV> {
    s.map_values(|c: FlatCase<'d>| c@)
}

pub open spec fn guards_view(guards: Seq<Option<String>>) -> Seq<Option<Seq<char>>> {
    guards.map_values(|g: Option<String>| opt_view(g))
}

/// The inline condition of an arm's guard; `None` when the arm has none that
/// renders inline.
pub open spec fn guard_text(guards: Seq<Option<Seq<char>>>, arm: usize) -> Option<Seq<char>> {
    if arm < guards.len() {
        guards[arm as int]
    } else {
        None
    }
}

/// Whether a chain lifts its last test out as the catchall.
pub open spec fn chain_lifts(tests: Seq<TestV>, fallback: DecisionV) -> bool {
    last_is_catchall(tests.len(), fallback) && !(tests.last().decision is Guard)
}

/// How many tests of a chain become cases.
pub open spec fn chain_cased(tests: Seq<TestV>, fallback: DecisionV) -> int {
    if chain_lifts(tests, fallback) {
        tests.len() - 1
    } else {
        tests.len() as int
    }
}

/// How many branches of a switch become cases: without a fallback the last
/// branch is the default.
pub open spec fn switch_cased(branches: Seq<BranchV>, has_fallback: bool) -> int {
    if !has_fallback && branches.len() > 0 {
        branches.len() - 1
    } else {
        branches.len() as int
    }
}

/// The cases of a tree, in order, under the conditions `conds` already
/// collected above it; `None` when some guard cannot render inline. Outside
/// the tail only the leading success of a guard is taken.
pub open spec fn spec_flat_cases(
    subject: SubjectV,
    guards: Seq<Option<Seq<char>>>,
    d: DecisionV,
    conds: Seq<Seq<char>>,
    tail: bool,
) -> Option<Seq<FlatCaseV>>
    decreases d, 0int,
{
    match d {
        DecisionV::Unreachable => Some(Seq::empty()),
        DecisionV::Success { .. } => Some(
            seq![FlatCaseV { conditions: conds, bindings: Seq::empty(), decision: d }],
        ),
        DecisionV::Guard { arm_index, bindings, success, failure } => match guard_text(
            guards,
            arm_index,
        ) {
            None => None,
            Some(c) => {
                let first = FlatCaseV { conditions: conds.push(c), bindings, decision: *success };
                if !tail {
                    Some(seq![first])
                } else {
                    match spec_flat_cases(subject, guards, *failure, conds, tail) {
                        Some(rest) => Some(seq![first] + rest),
                        None => None,
                    }
                }
            },
        },
        DecisionV::Chain { tests, fallback } => {
            let n = chain_cased(tests, *fallback);
            match flat_tests(subject, guards, tests, n, conds) {
                None => None,
                Some(cased) => {
                    let rest = if chain_lifts(tests, *fallback) {
                        proof {
                            assert(decreases_to!(tests => tests[tests.len() - 1]));
                        }
                        spec_flat_cases(subject, guards, tests[tests.len() - 1].decision, conds, tail)
                    } else {
                        spec_flat_cases(subject, guards, *fallback, conds, tail)
                    };
                    match rest {
                        Some(r) => Some(cased + r),
                        None => None,
                    }
                },
            }
        },
        DecisionV::Switch { path, kind, shape, branches, fallback } => {
            let n = switch_cased(branches, fallback is Some);
            let rendered = path_text(subject, path);
            match flat_branches(subject, guards, rendered, kind, shape, branches, n, conds) {
                None => None,
                Some(cased) => {
                    let rest = match fallback {
                        Some(f) => spec_flat_cases(subject, guards, *f, conds, tail),
                        None => if branches.len() > 0 {
                            proof {
                                assert(decreases_to!(branches => branches[branches.len() - 1]));
                            }
                            spec_flat_cases(
                                subject,
                                guards,
                                branches[branches.len() - 1].decision,
                                conds,
                                tail,
                            )
                        } else {
                            Some(Seq::empty())
                        },
                    };
                    match rest {
                        Some(r) => Some(cased + r),
                        None => None,
                    }
                },
            }
        },
    }
}

/// The cases of the first `n` chain tests, each under its own condition.
pub open spec fn flat_tests(
    subject: SubjectV,
    guards: Seq<Option<Seq<char>>>,
    tests: Seq<TestV>,
    n: int,
    conds: Seq<Seq<char>>,
) -> Option<Seq<FlatCaseV>>
    decreases tests, n,
{
    if n <= 0 || n > tests.len() {
        Some(Seq::empty())
    } else {
        match flat_tests(subject, guards, tests, n - 1, conds) {
            None => None,
            Some(prev) => {
                let t = tests[n - 1];
                proof {
                    assert(decreases_to!(tests => tests[n - 1]));
                }
                let sub = if t.checks.len() == 0 {
                    spec_flat_cases(subject, guards, t.decision, conds, false)
                } else {
                    spec_flat_cases(
                        subject,
                        guards,
                        t.decision,
                        conds.push(condition_text(subject, t.checks)),
                        false,
                    )
                };
                match sub {
                    Some(x) => Some(prev + x),
                    None => None,
                }
            },
        }
    }
}

/// The cases of the first `n` switch branches, each under its label's condition.
pub open spec fn flat_branches(
    subject: SubjectV,
    guards: Seq<Option<Seq<char>>>,
    rendered: Seq<char>,
    kind: SwitchKind,
    shape: SwitchShape,
    branches: Seq<BranchV>,
    n: int,
    conds: Seq<Seq<char>>,
) -> Option<Seq<FlatCaseV>>
    decreases branches, n,
{
    if n <= 0 || n > branches.len() {
        Some(Seq::empty())
    } else {
        match flat_branches(subject, guards, rendered, kind, shape, branches, n - 1, conds) {
            None => None,
            Some(prev) => {
                let b = branches[n - 1];
                proof {
                    assert(decreases_to!(branches => branches[n - 1]));
                }
                match spec_flat_cases(
                    subject,
                    guards,
                    b.decision,
                    conds.push(branch_condition_text(rendered, kind, shape, b.case_label)),
                    false,
                ) {
                    Some(x) => Some(prev + x),
                    None => None,
                }
            },
        }
    }
}

/// Whether flattening reaches only what it can render: every switch path
/// resolves, no switch cases on a type except a `true` boolean label, and
/// every tested chain condition resolves.
pub open spec fn flat_ok(subject: SubjectV, d: DecisionV, tail: bool) -> bool
    decreases d, 0int,
{
    match d {
        DecisionV::Unreachable => true,
        DecisionV::Success { .. } => true,
        DecisionV::Guard { failure, .. } => tail ==> flat_ok(subject, *failure, tail),
        DecisionV::Chain { tests, fallback } => {
            &&& tests_ok(subject, tests, chain_cased(tests, *fallback))
            &&& if chain_lifts(tests, *fallback) {
                proof {
                    assert(decreases_to!(tests => tests[tests.len() - 1]));
                }
                flat_ok(subject, tests[tests.len() - 1].decision, tail)
            } else {
                flat_ok(subject, *fallback, tail)
            }
        },
        DecisionV::Switch { path, kind, shape, branches, fallback } => {
            &&& resolvable(subject, path)
            &&& branches_ok(subject, kind, shape, branches, switch_cased(branches, fallback is Some))
            &&& match fallback {
                Some(f) => flat_ok(subject, *f, tail),
                None => branches.len() > 0 ==> {
                    proof {
                        assert(decreases_to!(branches => branches[branches.len() - 1]));
                    }
                    flat_ok(subject, branches[branches.len() - 1].decision, tail)
                },
            }
        },
    }
}

pub open spec fn tests_ok(subject: SubjectV, tests: Seq<TestV>, n: int) -> bool
    decreases tests, n,
{
    if n <= 0 || n > tests.len() {
        true
    } else {
        proof {
            assert(decreases_to!(tests => tests[n - 1]));
        }
        &&& tests_ok(subject, tests, n - 1)
        &&& (tests[n - 1].checks.len() > 0 ==> checks_resolvable(subject, tests[n - 1].checks))
        &&& flat_ok(subject, tests[n - 1].decision, false)
    }
}

pub open spec fn branches_ok(
    subject: SubjectV,
    kind: SwitchKind,
    shape: SwitchShape,
    branches: Seq<BranchV>,
    n: int,
) -> bool
    decreases branches, n,
{
    if n <= 0 || n > branches.len() {
        true
    } else {
        proof {
            assert(decreases_to!(branches => branches[n - 1]));
        }
        &&& branches_ok(subject, kind, shape, branches, n - 1)
        &&& (kind is TypeSwitch ==> shape is Bool && branches[n - 1].case_label == "true"@)
        &&& flat_ok(subject, branches[n - 1].decision, false)
    }
}

pub proof fn lemma_flat_push<'d>(s: Seq<FlatCase<'d>>, x: FlatCase<'d>)
    ensures
        flat_view(s.push(x)) == flat_view(s).push(x@),
{
    assert(flat_view(s.push(x)) =~= flat_view(s).push(x@));
}

/// Adds a condition at the end of the collected ones.
fn push_condition(conditions: &mut Vec<String>, c: String)
    ensures
        views_of(final(conditions)@) == views_of(old(conditions)@).push(c@),
{
    proof { lemma_views_push(conditions@, c); }
    conditions.push(c);
}

/// Drops the last collected condition.
fn pop_condition(conditions: &mut Vec<String>)
    requires
        views_of(old(conditions)@).len() > 0,
    ensures
        views_of(final(conditions)@) == views_of(old(conditions)@).drop_last(),
{
    assert(views_of(conditions@).len() == conditions@.len());
    let ghost before = conditions@;
    conditions.pop();
    assert(conditions@ =~= before.drop_last());
    assert(views_of(conditions@) =~= views_of(before).drop_last());
}

/// The case a guarded success becomes: its guard's inline condition added to
/// the collected ones; `None` when the guard has no inline condition.
fn guard_case<'d>(
    arm_index: usize,
    bindings: &'d Vec<PatternBinding>,
    success: &'d Decision,
    guards: &Vec<Option<String>>,
    conditions: &Vec<String>,
) -> (r: Option<FlatCase<'d>>)
    ensures
        match guard_text(guards_view(guards@), arm_index) {
            None => r is None,
            Some(c) => r matches Some(case) && case@ == (FlatCaseV {
                conditions: views_of(conditions@).push(c),
                bindings: bindings_view(bindings@),
                decision: success@,
            }),
        },
{
    let ghost g = guards_view(guards@);
    if arm_index >= guards.len() {
        return None;
    }
    assert(g[arm_index as int] == opt_view(guards@[arm_index as int]));
    match &guards[arm_index] {
        Some(c) => {
            let mut cs = duplicate_strings(conditions);
            push_condition(&mut cs, c.clone());
            Some(FlatCase { conditions: cs, bindings: bindings.as_slice(), decision: success })
        },
        None => None,
    }
}

/// Appends the cases of `decision` under `conditions` to `out`; false when a
/// guard on the way cannot render inline. `conditions` is left as it was.
#[verifier::rlimit(40)]
fn collect_into<'d>(
    decision: &'d Decision,
    subject: &SubjectRoot,
    guards: &Vec<Option<String>>,
    conditions: &mut Vec<String>,
    out: &mut Vec<FlatCase<'d>>,
    tail: bool,
) -> (r: bool)
    requires
        flat_ok(subject@, decision@, tail),
    ensures
        views_of(final(conditions)@) == views_of(old(conditions)@),
        r == spec_flat_cases(
            subject@,
            guards_view(guards@),
            decision@,
            views_of(old(conditions)@),
            tail,
        ) is Some,
        r ==> flat_view(final(out)@) == flat_view(old(out)@) + spec_flat_cases(
            subject@,
            guards_view(guards@),
            decision@,
            views_of(old(conditions)@),
            tail,
        ).unwrap(),
    decreases decision, 1int,
{
    let ghost g = guards_view(guards@);
    let ghost conds = views_of(conditions@);
    let ghost out0 = out@;
    match decision {
        Decision::Unreachable => {
            assert(flat_view(out@) =~= flat_view(out0) + Seq::<FlatCaseV>::empty());
            true
        },
        Decision::Success { bindings, .. } => {
            let cs = duplicate_strings(conditions);
            let none = vstd::slice::slice_subrange(bindings.as_slice(), 0, 0);
            assert(bindings_view(none@) =~= Seq::<BindingV>::empty());
            let case = FlatCase { conditions: cs, bindings: none, decision };
            proof { lemma_flat_push(out@, case); }
            out.push(case);
            assert(flat_view(out@) =~= flat_view(out0) + seq![case@]);
            true
        },
        Decision::Guard { arm_index, bindings, success, failure } => {
            let case = match guard_case(*arm_index, bindings, success, guards, conditions) {
                Some(case) => case,
                None => {
                    return false;
                },
            };
            proof { lemma_flat_push(out@, case); }
            out.push(case);
            if !tail {
                assert(flat_view(out@) =~= flat_view(out0) + seq![case@]);
                return true;
            }
            let ok = collect_into(failure, subject, guards, conditions, out, tail);
            if ok {
                assert(flat_view(out@) =~= flat_view(out0) + (seq![case@] + spec_flat_cases(
                    subject@, g, failure@, conds, tail).unwrap()));
            }
            ok
        },
        Decision::Chain { .. } => collect_chain(decision, subject, guards, conditions, out, tail),
        Decision::Switch { .. } => collect_switch(decision, subject, guards, conditions, out, tail),
    }
}

/// Appends the cases of a chain and of what follows it.
#[verifier::rlimit(40)]
fn collect_chain<'d>(
    decision: &'d Decision,
    subject: &SubjectRoot,
    guards: &Vec<Option<String>>,
    conditions: &mut Vec<String>,
    out: &mut Vec<FlatCase<'d>>,
    tail: bool,
) -> (r: bool)
    requires
        *decision is Chain,
        flat_ok(subject@, decision@, tail),
    ensures
        views_of(final(conditions)@) == views_of(old(conditions)@),
        r == spec_flat_cases(
            subject@,
            guards_view(guards@),
            decision@,
            views_of(old(conditions)@),
            tail,
        ) is Some,
        r ==> flat_view(final(out)@) == flat_view(old(out)@) + spec_flat_cases(
            subject@,
            guards_view(guards@),
            decision@,
            views_of(old(conditions)@),
            tail,
        ).unwrap(),
    decreases decision, 0int,
{
    let ghost g = guards_view(guards@);
    let ghost conds = views_of(conditions@);
    let ghost out0 = out@;
    match decision {
        Decision::Chain { tests, fallback } => {
            proof { lemma_chain_view(*decision); }
            let ghost tv = tests_view(tests@);
            let lifts = chain_last_is_catchall(tests.as_slice(), fallback) && !matches!(
                tests[tests.len() - 1].decision,
                Decision::Guard { .. }
            );
            assert(lifts == chain_lifts(tv, fallback@));
            let n = if lifts { tests.len() - 1 } else { tests.len() };
            proof {
                assert(decreases_to!(decision => *tests));
            }
            if !collect_tests(tests, n, subject, guards, conditions, out) {
                return false;
            }
            let ok = if lifts {
                let last = tests.len() - 1;
                proof {
                    assert(decreases_to!(decision => *tests));
                    assert(decreases_to!(*tests => tests@));
                    assert(decreases_to!(tests@ => tests@[last as int]));
                    assert(decreases_to!(tests@[last as int] => tests@[last as int].decision));
                    assert(tv[last as int] == tests@[last as int]@);
                }
                collect_into(&tests[last].decision, subject, guards, conditions, out, tail)
            } else {
                collect_into(fallback, subject, guards, conditions, out, tail)
            };
            if ok {
                assert(flat_view(out@) =~= flat_view(out0) + spec_flat_cases(subject@, g, decision@, conds, tail).unwrap());
            }
            ok
        },
        _ => {
            assert(false);
            false
        },
    }
}

/// Appends the cases of a switch and of what follows it.
#[verifier::rlimit(40)]
fn collect_switch<'d>(
    decision: &'d Decision,
    subject: &SubjectRoot,
    guards: &Vec<Option<String>>,
    conditions: &mut Vec<String>,
    out: &mut Vec<FlatCase<'d>>,
    tail: bool,
) -> (r: bool)
    requires
        *decision is Switch,
        flat_ok(subject@, decision@, tail),
    ensures
        views_of(final(conditions)@) == views_of(old(conditions)@),
        r == spec_flat_cases(
            subject@,
            guards_view(guards@),
            decision@,
            views_of(old(conditions)@),
            tail,
        ) is Some,
        r ==> flat_view(final(out)@) == flat_view(old(out)@) + spec_flat_cases(
            subject@,
            guards_view(guards@),
            decision@,
            views_of(old(conditions)@),
            tail,
        ).unwrap(),
    decreases decision, 0int,
{
    let ghost g = guards_view(guards@);
    let ghost conds = views_of(conditions@);
    let ghost out0 = out@;
    match decision {
        Decision::Switch { path, kind, shape, branches, fallback } => {
            proof { lemma_switch_view(*decision); }
            let ghost bv = branches_view(branches@);
            let rendered = path.render(subject);
            let n = if fallback.is_none() && branches.len() > 0 { branches.len() - 1 } else { branches.len() };
            proof {
                assert(decreases_to!(decision => *branches));
            }
            if !collect_branches(branches, n, rendered.as_str(), kind, shape, subject, guards, conditions, out) {
                return false;
            }
            let ok = match fallback {
                Some(f) => collect_into(f, subject, guards, conditions, out, tail),
                None => {
                    if branches.len() > 0 {
                        let last = branches.len() - 1;
                        proof {
                            assert(decreases_to!(decision => *branches));
                            assert(decreases_to!(*branches => branches@));
                            assert(decreases_to!(branches@ => branches@[last as int]));
                            assert(decreases_to!(branches@[last as int] => branches@[last as int].decision));
                            assert(bv[last as int] == branches@[last as int]@);
                        }
                        collect_into(&branches[last].decision, subject, guards, conditions, out, tail)
                    } else {
                        assert(flat_view(out@) =~= flat_view(out@) + Seq::<FlatCaseV>::empty());
                        true
                    }
                },
            };
            if ok {
                assert(flat_view(out@) =~= flat_view(out0) + spec_flat_cases(subject@, g, decision@, conds, tail).unwrap());
            }
            ok
        },
        _ => {
            assert(false);
            false
        },
    }
}

/// Appends the cases of the first `n` chain tests.
fn collect_tests<'d>(
    tests: &'d Vec<ChainTest>,
    n: usize,
    subject: &SubjectRoot,
    guards: &Vec<Option<String>>,
    conditions: &mut Vec<String>,
    out: &mut Vec<FlatCase<'d>>,
) -> (r: bool)
    requires
        n <= tests@.len(),
        tests_ok(subject@, tests_view(tests@), n as int),
    ensures
        views_of(final(conditions)@) == views_of(old(conditions)@),
        r == flat_tests(subject@, guards_view(guards@), tests_view(tests@), n as int, views_of(old(conditions)@)) is Some,
        r ==> flat_view(final(out)@) == flat_view(old(out)@) + flat_tests(
            subject@,
            guards_view(guards@),
            tests_view(tests@),
            n as int,
            views_of(old(conditions)@),
        ).unwrap(),
    decreases tests, 0int,
{
    let ghost g = guards_view(guards@);
    let ghost conds = views_of(conditions@);
    let ghost out0 = out@;
    let ghost tv = tests_view(tests@);
    assert(flat_view(out@) =~= flat_view(out0) + Seq::<FlatCaseV>::empty());
    let mut i: usize = 0;
    while i < n
        invariant
            n <= tests@.len(),
            i <= n,
            tv == tests_view(tests@),
            g == guards_view(guards@),
            views_of(conditions@) == conds,
            tests_ok(subject@, tv, n as int),
            conds == views_of(old(conditions)@),
            out0 == old(out)@,
            flat_tests(subject@, g, tv, i as int, conds) is Some,
            flat_view(out@) == flat_view(out0) + flat_tests(subject@, g, tv, i as int, conds).unwrap(),
        decreases n - i,
    {
        proof { lemma_tests_ok_prefix(subject@, tv, n as int, i + 1); }
        assert(tv[i as int] == tests@[i as int]@);
        let test = &tests[i];
        proof {
            assert(decreases_to!(*tests => tests@));
            assert(decreases_to!(tests@ => tests@[i as int]));
            assert(decreases_to!(tests@[i as int] => tests@[i as int].decision));
        }
        let ok = if test.checks.len() == 0 {
            collect_into(&test.decision, subject, guards, conditions, out, false)
        } else {
            let c = render_condition(&test.checks, subject);
            push_condition(conditions, c);
            let ok = collect_into(&test.decision, subject, guards, conditions, out, false);
            pop_condition(conditions);
            assert(views_of(conditions@) =~= conds);
            ok
        };
        if !ok {
            proof { lemma_flat_tests_none(subject@, g, tv, i + 1, n as int, conds); }
            return false;
        }
        assert(flat_view(out@) =~= flat_view(out0) + flat_tests(subject@, g, tv, i + 1, conds).unwrap());
        i = i + 1;
    }
    true
}

/// Appends the cases of the first `n` switch branches.
fn collect_branches<'d>(
    branches: &'d Vec<SwitchBranch>,
    n: usize,
    rendered: &str,
    kind: &SwitchKind,
    shape: &SwitchShape,
    subject: &SubjectRoot,
    guards: &Vec<Option<String>>,
    conditions: &mut Vec<String>,
    out: &mut Vec<FlatCase<'d>>,
) -> (r: bool)
    requires
        n <= branches@.len(),
        branches_ok(subject@, *kind, *shape, branches_view(branches@), n as int),
    ensures
        views_of(final(conditions)@) == views_of(old(conditions)@),
        r == flat_branches(subject@, guards_view(guards@), rendered@, *kind, *shape, branches_view(branches@), n as int, views_of(old(conditions)@)) is Some,
        r ==> flat_view(final(out)@) == flat_view(old(out)@) + flat_branches(
            subject@,
            guards_view(guards@),
            rendered@,
            *kind,
            *shape,
            branches_view(branches@),
            n as int,
            views_of(old(conditions)@),
        ).unwrap(),
    decreases branches, 0int,
{
    let ghost g = guards_view(guards@);
    let ghost conds = views_of(conditions@);
    let ghost out0 = out@;
    let ghost bv = branches_view(branches@);
    assert(flat_view(out@) =~= flat_view(out0) + Seq::<FlatCaseV>::empty());
    let mut i: usize = 0;
    while i < n
        invariant
            n <= branches@.len(),
            i <= n,
            bv == branches_view(branches@),
            g == guards_view(guards@),
            views_of(conditions@) == conds,
            branches_ok(subject@, *kind, *shape, bv, n as int),
            conds == views_of(old(conditions)@),
            out0 == old(out)@,
            flat_branches(subject@, g, rendered@, *kind, *shape, bv, i as int, conds) is Some,
            flat_view(out@) == flat_view(out0) + flat_branches(subject@, g, rendered@, *kind, *shape, bv, i as int, conds).unwrap(),
        decreases n - i,
    {
        proof { lemma_branches_ok_prefix(subject@, *kind, *shape, bv, n as int, i + 1); }
        assert(bv[i as int] == branches@[i as int]@);
        let branch = &branches[i];
        proof {
            assert(decreases_to!(*branches => branches@));
            assert(decreases_to!(branches@ => branches@[i as int]));
            assert(decreases_to!(branches@[i as int] => branches@[i as int].decision));
        }
        let c = switch_branch_condition(rendered, kind, shape, branch.case_label.as_str());
        push_condition(conditions, c);
        let ok = collect_into(&branch.decision, subject, guards, conditions, out, false);
        pop_condition(conditions);
        assert(views_of(conditions@) =~= conds);
        if !ok {
            proof { lemma_flat_branches_none(subject@, g, rendered@, *kind, *shape, bv, i + 1, n as int, conds); }
            return false;
        }
        assert(flat_view(out@) =~= flat_view(out0) + flat_branches(subject@, g, rendered@, *kind, *shape, bv, i + 1, conds).unwrap());
        i = i + 1;
    }
    true
}

pub proof fn lemma_flat_tests_none(
    subject: SubjectV,
    guards: Seq<Option<Seq<char>>>,
    tests: Seq<TestV>,
    k: int,
    n: int,
    conds: Seq<Seq<char>>,
)
    requires
        0 < k <= n <= tests.len(),
        flat_tests(subject, guards, tests, k, conds) is None,
    ensures
        flat_tests(subject, guards, tests, n, conds) is None,
    decreases n - k,
{
    if k < n {
        lemma_flat_tests_none(subject, guards, tests, k, n - 1, conds);
    }
}

pub proof fn lemma_flat_branches_none(
    subject: SubjectV,
    guards: Seq<Option<Seq<char>>>,
    rendered: Seq<char>,
    kind: SwitchKind,
    shape: SwitchShape,
    branches: Seq<BranchV>,
    k: int,
    n: int,
    conds: Seq<Seq<char>>,
)
    requires
        0 < k <= n <= branches.len(),
        flat_branches(subject, guards, rendered, kind, shape, branches, k, conds) is None,
    ensures
        flat_branches(subject, guards, rendered, kind, shape, branches, n, conds) is None,
    decreases n - k,
{
    if k < n {
        lemma_flat_branches_none(subject, guards, rendered, kind, shape, branches, k, n - 1, conds);
    }
}

pub proof fn lemma_tests_ok_prefix(subject: SubjectV, tests: Seq<TestV>, n: int, k: int)
    requires
        tests_ok(subject, tests, n),
        0 < k <= n <= tests.len(),
    ensures
        tests_ok(subject, tests, k),
        tests[k - 1].checks.len() > 0 ==> checks_resolvable(subject, tests[k - 1].checks),
        flat_ok(subject, tests[k - 1].decision, false),
    decreases n - k,
{
    if k < n {
        lemma_tests_ok_prefix(subject, tests, n - 1, k);
    }
}

pub proof fn lemma_branches_ok_prefix(
    subject: SubjectV,
    kind: SwitchKind,
    shape: SwitchShape,
    branches: Seq<BranchV>,
    n: int,
    k: int,
)
    requires
        branches_ok(subject, kind, shape, branches, n),
        0 < k <= n <= branches.len(),
    ensures
        branches_ok(subject, kind, shape, branches, k),
        kind is TypeSwitch ==> shape is Bool && branches[k - 1].case_label == "true"@,
        flat_ok(subject, branches[k - 1].decision, false),
    decreases n - k,
{
    if k < n {
        lemma_branches_ok_prefix(subject, kind, shape, branches, n - 1, k);
    }
}

/// The cases of a guarded tree for a conditional switch, under the
/// conditions already collected above it: `None` when a guard on the way has
/// no inline condition. `guard_conditions` holds, by arm, the inline text of
/// each arm's guard.
pub fn collect_flat_cases<'d>(
    decision: &'d Decision,
    subject: &SubjectRoot,
    guard_conditions: &Vec<Option<String>>,
    conditions: Vec<String>,
    tail: bool,
) -> (r: Option<Vec<FlatCase<'d>>>)
    requires
        flat_ok(subject@, decision@, tail),
    ensures
        match r {
            Some(cases) => spec_flat_cases(
                subject@,
                guards_view(guard_conditions@),
                decision@,
                views_of(conditions@),
                tail,
            ) == Some(flat_view(cases@)),
            None => spec_flat_cases(
                subject@,
                guards_view(guard_conditions@),
                decision@,
                views_of(conditions@),
                tail,
            ) is None,
        },
{
    let mut conditions = conditions;
    let mut out: Vec<FlatCase<'d>> = Vec::new();
    if collect_into(decision, subject, guard_conditions, &mut conditions, &mut out, tail) {
        assert(flat_view(out@) =~= flat_view(Seq::<FlatCase<'d>>::empty()) + flat_view(out@));
        Some(out)
    } else {
        None
    }
}

} // verus!
