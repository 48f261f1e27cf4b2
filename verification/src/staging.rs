//! Sequencing sibling value plans so that Go evaluates them left to right:
//! a value that later siblings could change, or a call that would run out of
//! order, is captured into a temporary first.

use vstd::prelude::*;
use crate::lowered::LoweredStatement;
use crate::values::{
    CaptureBoundary, EvaluationEffect, GoExpression, OperandForm, SequencedValues, Stability,
    ValuePlan, combined_effect, needs_value_capture, stability_fixed, stage_pins, stage_pins_spec,
};

verus! {

/// The effect of evaluating all stages: the strongest of their effects.
pub open spec fn effect_of(stages: Seq<ValuePlan>) -> EvaluationEffect
    decreases stages.len(),
{
    if stages.len() == 0 {
        EvaluationEffect::Pure
    } else {
        combined_effect(effect_of(stages.drop_last()), stages.last().evaluation.effect)
    }
}

/// Whether a stage has neither setup nor an effectful call.
pub open spec fn quiet_stage(stage: ValuePlan) -> bool {
    stage.setup@.len() == 0 && !(stage.evaluation.effect is EffectfulCall)
}

/// Whether the stages can stay inline as they are: nothing forces a capture
/// at this boundary, and no stage has setup or an effectful call.
pub open spec fn stays_inline(stages: Seq<ValuePlan>, boundary: CaptureBoundary) -> bool {
    &&& !needs_value_capture(boundary, Stability::Observable)
    &&& forall|i: int| 0 <= i < stages.len() ==> #[trigger] quiet_stage(stages[i])
}

/// Which stages are captured into a temporary: those that must be pinned, and
/// at an eager boundary every stage whose value is not fixed.
pub open spec fn capture_flags(stages: Seq<ValuePlan>, boundary: CaptureBoundary) -> Seq<bool> {
    Seq::new(
        stages.len(),
        |i: int|
            stage_pins_spec(stages).0[i] || (needs_value_capture(boundary, Stability::Observable)
                && !stability_fixed(stages[i].evaluation.stability)),
    )
}

/// How many of the first `n` flags are set.
pub open spec fn count_set(flags: Seq<bool>, n: int) -> nat
    decreases n,
{
    if n <= 0 {
        0
    } else {
        count_set(flags, n - 1) + if flags[n - 1] {
            1nat
        } else {
            0nat
        }
    }
}

/// The setup of the first `n` stages in order: each stage's own setup, then
/// the binding of its temporary when it is captured. The k-th capture takes
/// the k-th temporary name.
pub open spec fn sequenced_setup(
    stages: Seq<ValuePlan>,
    flags: Seq<bool>,
    temps: Seq<String>,
    n: int,
) -> Seq<LoweredStatement>
    decreases n,
{
    if n <= 0 {
        Seq::empty()
    } else {
        let before = sequenced_setup(stages, flags, temps, n - 1) + stages[n - 1].setup@;
        if flags[n - 1] {
            before.push(
                LoweredStatement::TempBind {
                    name: temps[count_set(flags, n - 1) as int],
                    value: stages[n - 1].expression.rendered,
                },
            )
        } else {
            before
        }
    }
}

/// The value that stands for stage `i`: its temporary when captured,
/// otherwise its own expression.
pub open spec fn sequenced_value(
    stages: Seq<ValuePlan>,
    flags: Seq<bool>,
    temps: Seq<String>,
    i: int,
) -> GoExpression {
    if flags[i] {
        GoExpression::name_spec(temps[count_set(flags, i) as int])
    } else {
        stages[i].expression
    }
}

/// The values that stand for the stages once sequenced.
pub open spec fn staged_values(stages: Seq<ValuePlan>, boundary: CaptureBoundary, temps: Seq<String>) -> Seq<
    GoExpression,
> {
    if stays_inline(stages, boundary) {
        stages.map_values(|s: ValuePlan| s.expression)
    } else {
        Seq::new(
            stages.len(),
            |i: int| sequenced_value(stages, capture_flags(stages, boundary), temps, i),
        )
    }
}

/// The setup that runs before the sequenced values are read.
pub open spec fn staged_setup(stages: Seq<ValuePlan>, boundary: CaptureBoundary, temps: Seq<String>) -> Seq<
    LoweredStatement,
> {
    if stays_inline(stages, boundary) {
        Seq::empty()
    } else {
        sequenced_setup(stages, capture_flags(stages, boundary), temps, stages.len() as int)
    }
}

proof fn lemma_count_step(flags: Seq<bool>, n: int)
    requires
        0 <= n,
    ensures
        count_set(flags, n) <= count_set(flags, n + 1),
        count_set(flags, n) <= n,
    decreases n,
{
    if n > 0 {
        lemma_count_step(flags, n - 1);
    }
}

proof fn lemma_count_mono(flags: Seq<bool>, k: int, n: int)
    requires
        0 <= k <= n,
    ensures
        count_set(flags, k) <= count_set(flags, n),
    decreases n - k,
{
    if k < n {
        lemma_count_mono(flags, k, n - 1);
        lemma_count_step(flags, n - 1);
    }
}

/// Sequences sibling value plans left to right. When nothing forces a
/// capture the expressions stay as they are with no setup; otherwise every
/// stage's setup runs in order and each captured stage is bound to the next
/// of `temp_names` (fresh names the caller reserved) and read through it.
pub fn sequence_values(stages: Vec<ValuePlan>, boundary: CaptureBoundary, temp_names: &Vec<String>) -> (r:
    SequencedValues)
    requires
        count_set(capture_flags(stages@, boundary), stages@.len() as int) <= temp_names@.len(),
    ensures
        r.effect == effect_of(stages@),
        r.values@ == staged_values(stages@, boundary, temp_names@),
        r.setup@ == staged_setup(stages@, boundary, temp_names@),
        r.values@.len() == stages@.len(),
        stays_inline(stages@, boundary) ==> r.setup@.len() == 0 && forall|i: int|
            0 <= i < stages@.len() ==> #[trigger] r.values@[i] == stages@[i].expression,
        !stays_inline(stages@, boundary) ==> r.setup@ == sequenced_setup(
            stages@,
            capture_flags(stages@, boundary),
            temp_names@,
            stages@.len() as int,
        ) && forall|i: int|
            0 <= i < stages@.len() ==> #[trigger] r.values@[i] == sequenced_value(
                stages@,
                capture_flags(stages@, boundary),
                temp_names@,
                i,
            ),
{
    let ghost all = stages@;
    let n = stages.len();
    let mut effect = EvaluationEffect::Pure;
    let mut inline_ok = true;
    let mut i: usize = 0;
    while i < n
        invariant
            n == all.len(),
            stages@ == all,
            i <= n,
            effect == effect_of(all.take(i as int)),
            inline_ok == forall|j: int| 0 <= j < i ==> #[trigger] quiet_stage(all[j]),
        decreases n - i,
    {
        assert(all.take(i + 1).drop_last() =~= all.take(i as int));
        effect = effect.combine(stages[i].evaluation.effect);
        let ghost prev = inline_ok;
        inline_ok = inline_ok && stages[i].setup.len() == 0
            && !stages[i].evaluation.effect.has_effectful_call();
        assert(inline_ok == (prev && quiet_stage(all[i as int])));
        assert(inline_ok == forall|j: int| 0 <= j < i + 1 ==> #[trigger] quiet_stage(all[j])) by {
            if !prev {
                let w = choose|j: int| 0 <= j < i && !#[trigger] quiet_stage(all[j]);
                assert(!quiet_stage(all[w]));
            }
        }
        i = i + 1;
    }
    assert(all.take(n as int) =~= all);
    let eager = boundary.requires_value_capture(Stability::Observable);
    if !eager && inline_ok {
        let mut stages = stages;
        let mut values: Vec<GoExpression> = Vec::new();
        let mut k: usize = 0;
        while k < n
            invariant
                n == all.len(),
                k <= n,
                stages@ == all.skip(k as int),
                values@.len() == k,
                forall|j: int| 0 <= j < k ==> #[trigger] values@[j] == all[j].expression,
            decreases n - k,
        {
            let stage = stages.remove(0);
            assert(stage == all[k as int]);
            assert(stages@ =~= all.skip(k + 1));
            values.push(stage.expression);
            k = k + 1;
        }
        assert(values@ =~= staged_values(all, boundary, temp_names@));
        return SequencedValues { setup: Vec::new(), values, effect };
    }
    let pins = stage_pins(&stages);
    let ghost flags = capture_flags(all, boundary);
    let mut stages = stages;
    let mut setup: Vec<LoweredStatement> = Vec::new();
    let mut values: Vec<GoExpression> = Vec::new();
    let mut used: usize = 0;
    let mut k: usize = 0;
    while k < n
        invariant
            n == all.len(),
            k <= n,
            pins@ == stage_pins_spec(all).0,
            flags == capture_flags(all, boundary),
            eager == needs_value_capture(boundary, Stability::Observable),
            count_set(flags, n as int) <= temp_names@.len(),
            stages@ == all.skip(k as int),
            used as nat == count_set(flags, k as int),
            setup@ == sequenced_setup(all, flags, temp_names@, k as int),
            values@.len() == k,
            forall|j: int| 0 <= j < k ==> #[trigger] values@[j] == sequenced_value(all, flags, temp_names@, j),
        decreases n - k,
    {
        proof {
            crate::values::lemma_pins_len(all);
            lemma_count_mono(flags, k + 1, n as int);
            lemma_count_step(flags, k as int);
        }
        let stage = stages.remove(0);
        assert(stage == all[k as int]);
        assert(stages@ =~= all.skip(k + 1));
        let ValuePlan { setup: mut own_setup, expression, evaluation } = stage;
        let captured = pins[k] || (eager && !evaluation.stability.is_fixed());
        assert(captured == flags[k as int]);
        setup.append(&mut own_setup);
        if captured {
            let name = temp_names[used].clone();
            setup.push(LoweredStatement::TempBind { name: name.clone(), value: expression.rendered });
            values.push(GoExpression::name(name));
            used = used + 1;
        } else {
            values.push(expression);
        }
        k = k + 1;
    }
    assert(values@ =~= staged_values(all, boundary, temp_names@));
    SequencedValues { setup, values, effect }
}

proof fn lemma_setup_prefix(stages: Seq<ValuePlan>, flags: Seq<bool>, temps: Seq<String>, k: int, m: int)
    requires
        0 <= k <= m,
    ensures
        sequenced_setup(stages, flags, temps, m).len() >= sequenced_setup(stages, flags, temps, k).len(),
        sequenced_setup(stages, flags, temps, m).take(sequenced_setup(stages, flags, temps, k).len() as int)
            == sequenced_setup(stages, flags, temps, k),
    decreases m - k,
{
    if k < m {
        lemma_setup_prefix(stages, flags, temps, k, m - 1);
        let a = sequenced_setup(stages, flags, temps, k);
        let b = sequenced_setup(stages, flags, temps, m - 1);
        let c = sequenced_setup(stages, flags, temps, m);
        assert(c.take(b.len() as int) =~= b);
        assert(c.take(a.len() as int) =~= b.take(a.len() as int));
    } else {
        let a = sequenced_setup(stages, flags, temps, k);
        assert(a.take(a.len() as int) =~= a);
    }
}

/// Sequencing keeps evaluation order across setup: when a later sibling
/// has setup, an earlier observable value without setup of its own is read
/// into its temporary before any of that setup runs, and is used through
/// the temporary.
pub proof fn law_pin_precedes_later_setup(
    stages: Seq<ValuePlan>,
    boundary: CaptureBoundary,
    temps: Seq<String>,
    i: int,
    j: int,
)
    requires
        0 <= i < j < stages.len(),
        stages[i].setup@.len() == 0,
        !stability_fixed(stages[i].evaluation.stability),
        stages[j].setup@.len() > 0,
    ensures
        !stays_inline(stages, boundary),
        ({
            let flags = capture_flags(stages, boundary);
            let name = temps[count_set(flags, i) as int];
            let full = staged_setup(stages, boundary, temps);
            let before_j = sequenced_setup(stages, flags, temps, j).len();
            &&& staged_values(stages, boundary, temps)[i] == GoExpression::name_spec(name)
            &&& exists|p: int|
                0 <= p < before_j && full[p] == (LoweredStatement::TempBind {
                    name,
                    value: stages[i].expression.rendered,
                })
            &&& full.subrange(before_j as int, (before_j + stages[j].setup@.len()) as int) == stages[j].setup@
        }),
{
    let flags = capture_flags(stages, boundary);
    assert(!quiet_stage(stages[j]));
    crate::values::law_later_effects_pin_earlier_values(stages, i, j);
    crate::values::lemma_pins_len(stages);
    assert(flags[i]);
    let name = temps[count_set(flags, i) as int];
    let full = staged_setup(stages, boundary, temps);
    let n = stages.len() as int;
    assert(full == sequenced_setup(stages, flags, temps, n));
    let upto_i = sequenced_setup(stages, flags, temps, i + 1);
    let bind = LoweredStatement::TempBind { name, value: stages[i].expression.rendered };
    assert(upto_i.last() == bind);
    lemma_setup_prefix(stages, flags, temps, i + 1, j);
    lemma_setup_prefix(stages, flags, temps, j, n);
    lemma_setup_prefix(stages, flags, temps, j + 1, n);
    let pre = sequenced_setup(stages, flags, temps, j);
    let p = upto_i.len() - 1;
    assert(pre[p] == upto_i[p]);
    assert(full[p] == pre[p]);
    let after = sequenced_setup(stages, flags, temps, j + 1);
    assert(after.take((pre.len() + stages[j].setup@.len()) as int) =~= pre + stages[j].setup@);
    assert(full.subrange(pre.len() as int, (pre.len() + stages[j].setup@.len()) as int) =~= stages[j].setup@) by {
        assert forall|t: int| 0 <= t < stages[j].setup@.len() implies full[pre.len() + t] == stages[j].setup@[t] by {
            assert(full[pre.len() + t] == after[pre.len() + t]);
        }
    }
}

} // verus!
