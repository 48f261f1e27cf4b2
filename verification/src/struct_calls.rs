//! Constructing a struct or enum variant from its planned fields: a struct
//! literal (with the variant tag first), zero values for omitted fields, a
//! diverging spread base, or an update of a copied base.

use vstd::prelude::*;
use crate::access::{StructCallField, emit_struct_literal, fields_view, struct_literal_text};
use crate::lowered::LoweredStatement;
use crate::text::{owned, push_char};
use crate::values::{
    combined_effect, EvaluationEffect, EvaluationFacts, GoExpression, OperandForm, Stability,
    ValuePlan,
};

verus! {

/// What follows the assigned fields of a construction.
pub enum StructSpread {
    /// Only the assigned fields.
    Plain,
    /// Omitted fields take zero values; an imported Go newtype has a zero
    /// value of its own instead.
    Autofill { newtype_zero: Option<String>, zero_fields: Vec<(String, String)> },
    /// A spread base that never returns: it runs as a statement, and a zero
    /// literal stands for the value that is never used.
    Diverging { statement: LoweredStatement, is_call: bool },
    /// A struct update: copy the base, then assign the fields; observable
    /// field values are pinned before the base is read.
    Update { base: ValuePlan },
    /// An enum variant built from a base variant: a fresh literal of the
    /// assigned fields and the `carried` slots read from the base (pinned
    /// first when reading it is order-sensitive); with nothing carried the
    /// base is still evaluated, into `_`.
    Variant { base: ValuePlan, carried: Vec<String>, base_order_sensitive: bool },
}

/// The mathematical form of a setup statement this module emits.
pub enum StmtV {
    Temp(Seq<char>, Seq<char>),
    Raw(Seq<char>),
    Same(LoweredStatement),
}

pub open spec fn stmt_matches(s: LoweredStatement, v: StmtV) -> bool {
    match v {
        StmtV::Temp(n, val) => s matches LoweredStatement::TempBind { name, value } && name@ == n
            && value@ == val,
        StmtV::Raw(t) => s matches LoweredStatement::RawGo(text) && text@ == t,
        StmtV::Same(x) => s == x,
    }
}

pub open spec fn stmts_match(s: Seq<LoweredStatement>, v: Seq<StmtV>) -> bool {
    &&& s.len() == v.len()
    &&& forall|i: int| 0 <= i < s.len() ==> stmt_matches(#[trigger] s[i], v[i])
}

pub open spec fn same_stmts(s: Seq<LoweredStatement>) -> Seq<StmtV> {
    s.map_values(|x: LoweredStatement| StmtV::Same(x))
}

/// The variant tag as the first pair, when there is one.
pub open spec fn tag_head(tag: Option<String>) -> Seq<(Seq<char>, Seq<char>)> {
    match tag {
        Some(t) => seq![("Tag"@, t@)],
        None => Seq::empty(),
    }
}

/// The fields as name/value pairs, the variant tag first when there is one.
pub open spec fn field_pairs(tag: Option<String>, fields: Seq<StructCallField>) -> Seq<(Seq<char>, Seq<char>)> {
    let assigned = fields.map_values(|f: StructCallField| (f.name@, f.value@));
    match tag {
        Some(t) => seq![("Tag"@, t@)] + assigned,
        None => assigned,
    }
}

/// How many of the first `n` fields are observable.
pub open spec fn observable_before(fields: Seq<StructCallField>, n: int) -> nat
    decreases n,
{
    if n <= 0 {
        0
    } else {
        observable_before(fields, n - 1) + if fields[n - 1].has_observable_evaluation {
            1nat
        } else {
            0nat
        }
    }
}

/// The pins of observable fields (the k-th takes the k-th temporary) and the
/// pairs an update assigns, reading pinned fields through their temporaries.
pub open spec fn pinned_fields(fields: Seq<StructCallField>, temps: Seq<String>, n: int) -> (Seq<StmtV>, Seq<(Seq<char>, Seq<char>)>)
    decreases n,
{
    if n <= 0 {
        (Seq::empty(), Seq::empty())
    } else {
        let (pins, pairs) = pinned_fields(fields, temps, n - 1);
        let f = fields[n - 1];
        if f.has_observable_evaluation {
            let t = temps[observable_before(fields, n - 1) as int]@;
            (pins.push(StmtV::Temp(t, f.value@)), pairs.push((f.name@, t)))
        } else {
            (pins, pairs.push((f.name@, f.value@)))
        }
    }
}

/// `copy.name = value` for each assigned pair.
pub open spec fn update_assignments(copy: Seq<char>, pairs: Seq<(Seq<char>, Seq<char>)>) -> Seq<StmtV> {
    pairs.map_values(|p: (Seq<char>, Seq<char>)| StmtV::Raw(copy + seq!['.'] + p.0 + " = "@ + p.1 + seq!['\n']))
}

/// The carried slots, each read from `source`.
pub open spec fn carried_pairs(source: Seq<char>, carried: Seq<String>) -> Seq<(Seq<char>, Seq<char>)> {
    carried.map_values(|slot: String| (slot@, source + seq!['.'] + slot@))
}

/// The setup after the fields' own, and the text of the value, for each
/// kind of spread.
pub open spec fn spread_result(
    go_type: Seq<char>,
    tag: Option<String>,
    fields: Seq<StructCallField>,
    spread: StructSpread,
    in_condition: bool,
    temps: Seq<String>,
    copy: Seq<char>,
) -> (Seq<StmtV>, Seq<char>) {
    let pairs = field_pairs(tag, fields);
    match spread {
        StructSpread::Plain => (Seq::empty(), struct_literal_text(go_type, pairs, in_condition)),
        StructSpread::Autofill { newtype_zero, zero_fields } => match newtype_zero {
            Some(z) => (Seq::empty(), z@),
            None => (
                Seq::empty(),
                struct_literal_text(go_type, pairs + fields_view(zero_fields@), in_condition),
            ),
        },
        StructSpread::Diverging { statement, .. } => (seq![StmtV::Same(statement)], go_type + "{}"@),
        StructSpread::Update { base } => {
            let (pins, updates) = pinned_fields(fields, temps, fields.len() as int);
            let all = match tag {
                Some(t) => seq![("Tag"@, t@)] + updates,
                None => updates,
            };
            if all.len() == 0 {
                (pins + same_stmts(base.setup@), base.expression.rendered@)
            } else {
                (
                    pins + same_stmts(base.setup@) + seq![StmtV::Temp(copy, base.expression.rendered@)]
                        + update_assignments(copy, all),
                    copy,
                )
            }
        },
        StructSpread::Variant { base, carried, base_order_sensitive } => {
            let (pins, updates) = pinned_fields(fields, temps, fields.len() as int);
            let assigned = tag_head(tag) + updates;
            let base_text = base.expression.rendered@;
            if carried@.len() == 0 {
                (
                    pins + same_stmts(base.setup@) + seq![StmtV::Raw("_ = "@ + base_text + seq!['\n'])],
                    struct_literal_text(go_type, assigned, in_condition),
                )
            } else if base_order_sensitive {
                (
                    pins + same_stmts(base.setup@) + seq![StmtV::Temp(copy, base_text)],
                    struct_literal_text(go_type, assigned + carried_pairs(copy, carried@), in_condition),
                )
            } else {
                (
                    pins + same_stmts(base.setup@),
                    struct_literal_text(go_type, assigned + carried_pairs(base_text, carried@), in_condition),
                )
            }
        },
    }
}

/// The expression's attributes apart from its text: a literal for a plain,
/// autofilled, diverging or variant construction; the newtype's zero value;
/// for an update the copy's name, or the base itself when nothing is
/// assigned.
pub open spec fn spread_expression(
    rendered: String,
    tag: Option<String>,
    fields: Seq<StructCallField>,
    spread: StructSpread,
    fields_deferred: bool,
    copy: String,
) -> GoExpression {
    match spread {
        StructSpread::Autofill { newtype_zero: Some(z), .. } => GoExpression::opaque_spec(z),
        StructSpread::Update { base } => if tag is None && fields.len() == 0 {
            base.expression
        } else {
            GoExpression::name_spec(copy)
        },
        _ => GoExpression {
            rendered,
            contains_deferred_evaluation: fields_deferred,
            composite_literal: true,
            syntax_form: OperandForm::Literal,
            constant: None,
        },
    }
}

/// The effect of the construction: the fields', with a diverging call or
/// the update base's on top.
pub open spec fn spread_effect(effect: EvaluationEffect, spread: StructSpread) -> EvaluationEffect {
    match spread {
        StructSpread::Diverging { is_call, .. } => if is_call {
            combined_effect(effect, EvaluationEffect::EffectfulCall)
        } else {
            effect
        },
        StructSpread::Update { base } => combined_effect(effect, base.evaluation.effect),
        StructSpread::Variant { base, .. } => combined_effect(effect, base.evaluation.effect),
        _ => effect,
    }
}

proof fn lemma_observable_step(fields: Seq<StructCallField>, n: int)
    requires
        0 <= n,
    ensures
        observable_before(fields, n) <= n,
    decreases n,
{
    if n > 0 {
        lemma_observable_step(fields, n - 1);
    }
}

proof fn lemma_observable_mono(fields: Seq<StructCallField>, k: int, n: int)
    requires
        0 <= k <= n,
    ensures
        observable_before(fields, k) <= observable_before(fields, n),
    decreases n - k,
{
    if k < n {
        lemma_observable_mono(fields, k, n - 1);
    }
}

proof fn lemma_stmts_push(s: Seq<LoweredStatement>, v: Seq<StmtV>, x: LoweredStatement, xv: StmtV)
    requires
        stmts_match(s, v),
        stmt_matches(x, xv),
    ensures
        stmts_match(s.push(x), v.push(xv)),
{
    assert forall|i: int| 0 <= i < s.len() + 1 implies stmt_matches(#[trigger] s.push(x)[i], v.push(xv)[i]) by {
        if i < s.len() {
            assert(s.push(x)[i] == s[i]);
        }
    }
}

proof fn lemma_stmts_append(s: Seq<LoweredStatement>, v: Seq<StmtV>, t: Seq<LoweredStatement>)
    requires
        stmts_match(s, v),
    ensures
        stmts_match(s + t, v + same_stmts(t)),
{
    assert forall|i: int| 0 <= i < s.len() + t.len() implies stmt_matches(#[trigger] (s + t)[i], (v + same_stmts(t))[i]) by {
        if i < s.len() {
            assert((s + t)[i] == s[i]);
        } else {
            assert((s + t)[i] == t[i - s.len()]);
        }
    }
}

/// Builds `pairs` from the fields (tag first), and pins observable values
/// into `temps` when `pin` is set.
fn assemble_fields(
    tag: Option<String>,
    fields: Vec<StructCallField>,
    pin: bool,
    temps: &Vec<String>,
    setup: &mut Vec<LoweredStatement>,
) -> (pairs: Vec<(String, String)>)
    requires
        pin ==> observable_before(fields@, fields@.len() as int) <= temps@.len(),
        stmts_match(old(setup)@, same_stmts(old(setup)@)),
    ensures
        !pin ==> final(setup)@ == old(setup)@ && fields_view(pairs@) == field_pairs(tag, fields@),
        pin ==> {
            let (pins, updates) = pinned_fields(fields@, temps@, fields@.len() as int);
            &&& stmts_match(final(setup)@, same_stmts(old(setup)@) + pins)
            &&& fields_view(pairs@) == match tag {
                Some(t) => seq![("Tag"@, t@)] + updates,
                None => updates,
            }
        },
{
    let ghost fs = fields@;
    let ghost s0 = setup@;
    let mut pairs: Vec<(String, String)> = Vec::new();
    let ghost head = tag_head(tag);
    match tag {
        Some(t) => {
            pairs.push((owned("Tag"), t));
            proof { reveal_strlit("Tag"); }
        },
        None => {},
    }
    assert(fields_view(pairs@) =~= head);
    let mut fields = fields;
    let mut k: usize = 0;
    let mut used: usize = 0;
    let n = fields.len();
    while k < n
        invariant
            n == fs.len(),
            k <= n,
            fields@ == fs.skip(k as int),
            pin ==> observable_before(fs, n as int) <= temps@.len(),
            used as nat == observable_before(fs, k as int),
            !pin ==> setup@ == s0 && fields_view(pairs@) == head + fs.take(k as int).map_values(
                |f: StructCallField| (f.name@, f.value@),
            ),
            pin ==> stmts_match(setup@, same_stmts(s0) + pinned_fields(fs, temps@, k as int).0)
                && fields_view(pairs@) == head + pinned_fields(fs, temps@, k as int).1,
            stmts_match(s0, same_stmts(s0)),
        decreases n - k,
    {
        proof {
            lemma_observable_mono(fs, k + 1, n as int);
            lemma_observable_step(fs, k as int);
        }
        let f = fields.remove(0);
        assert(f == fs[k as int]);
        assert(fields@ =~= fs.skip(k + 1));
        let StructCallField { name, value, has_observable_evaluation } = f;
        let ghost before = pairs@;
        if pin && has_observable_evaluation {
            let temp = temps[used].clone();
            let ghost setup_before = setup@;
            setup.push(LoweredStatement::TempBind { name: temp.clone(), value });
            proof {
                lemma_stmts_push(setup_before, same_stmts(s0) + pinned_fields(fs, temps@, k as int).0,
                    setup@.last(), StmtV::Temp(temp@, fs[k as int].value@));
                assert(setup@ =~= setup_before.push(setup@.last()));
                assert(same_stmts(s0) + pinned_fields(fs, temps@, k + 1).0 =~= (same_stmts(s0)
                    + pinned_fields(fs, temps@, k as int).0).push(StmtV::Temp(temp@, fs[k as int].value@)));
            }
            pairs.push((name, temp));
        } else {
            pairs.push((name, value));
        }
        if has_observable_evaluation {
            used = used + 1;
        }
        assert(fields_view(pairs@) =~= fields_view(before).push((fs[k as int].name@, pairs@.last().1@)));
        if !pin {
            assert(fs.take(k + 1).map_values(|f: StructCallField| (f.name@, f.value@)) =~= fs.take(
                k as int,
            ).map_values(|f: StructCallField| (f.name@, f.value@)).push((fs[k as int].name@, fs[k as int].value@)));
        }
        k = k + 1;
    }
    if !pin {
        assert(fs.take(n as int) =~= fs);
    }
    pairs
}

/// A struct or enum-variant construction from its fields, which were
/// sequenced as siblings (`setup`, `effect`, and whether any field value
/// defers evaluation) and then named and coerced. `temps` name the pins of
/// observable fields before an update base is read, `copy` the base's copy.
pub fn struct_call_plan(
    go_type: &str,
    tag: Option<String>,
    fields: Vec<StructCallField>,
    setup: Vec<LoweredStatement>,
    effect: EvaluationEffect,
    fields_deferred: bool,
    spread: StructSpread,
    in_condition: bool,
    temps: &Vec<String>,
    copy: &String,
) -> (r: ValuePlan)
    requires
        (spread is Update || spread is Variant) ==> observable_before(fields@, fields@.len() as int)
            <= temps@.len(),
        spread is Update ==> tag is None,
    ensures
        ({
            let (extra, text) = spread_result(go_type@, tag, fields@, spread, in_condition, temps@, copy@);
            &&& stmts_match(r.setup@, same_stmts(setup@) + extra)
            &&& r.expression.rendered@ == text
        }),
        r.evaluation == (EvaluationFacts {
            form: OperandForm::Other,
            stability: Stability::Observable,
            effect: spread_effect(effect, spread),
        }),
        r.expression == spread_expression(r.expression.rendered, tag, fields@, spread, fields_deferred, *copy),
{
    let ghost s0 = setup@;
    let ghost fs = fields@;
    let mut setup = setup;
    assert(stmts_match(setup@, same_stmts(setup@)));
    proof { reveal_strlit("{}"); }
    match spread {
        StructSpread::Plain => {
            let pairs = assemble_fields(tag, fields, false, temps, &mut setup);
            let text = emit_struct_literal(go_type, &pairs, in_condition);
            assert(same_stmts(s0) + Seq::<StmtV>::empty() =~= same_stmts(s0));
            ValuePlan::computed(setup, GoExpression::composite_literal(text, fields_deferred), effect)
        },
        StructSpread::Autofill { newtype_zero, zero_fields } => {
            assert(same_stmts(s0) + Seq::<StmtV>::empty() =~= same_stmts(s0));
            match newtype_zero {
                Some(z) => ValuePlan::computed(setup, GoExpression::opaque(z), effect),
                None => {
                    let mut pairs = assemble_fields(tag, fields, false, temps, &mut setup);
                    let ghost before = pairs@;
                    let mut zeros = zero_fields;
                    let ghost zv = zeros@;
                    pairs.append(&mut zeros);
                    assert(fields_view(pairs@) =~= fields_view(before) + fields_view(zv));
                    let text = emit_struct_literal(go_type, &pairs, in_condition);
                    ValuePlan::computed(setup, GoExpression::composite_literal(text, fields_deferred), effect)
                },
            }
        },
        StructSpread::Diverging { statement, is_call } => {
            let ghost st = statement;
            setup.push(statement);
            proof {
                lemma_stmts_push(s0, same_stmts(s0), st, StmtV::Same(st));
                assert(same_stmts(s0).push(StmtV::Same(st)) =~= same_stmts(s0) + seq![StmtV::Same(st)]);
            }
            let effect = if is_call {
                effect.combine(EvaluationEffect::EffectfulCall)
            } else {
                effect
            };
            let mut text = owned(go_type);
            text.append("{}");
            ValuePlan::computed(setup, GoExpression::composite_literal(text, fields_deferred), effect)
        },
        StructSpread::Update { base } => {
            let ghost b = base;
            let pairs = assemble_fields(tag, fields, true, temps, &mut setup);
            let ghost pins = pinned_fields(fs, temps@, fs.len() as int).0;
            let effect = effect.combine(base.evaluation.effect);
            let ValuePlan { setup: base_setup, expression: base_expression, evaluation: _ } = base;
            let ghost mid = setup@;
            let mut base_setup = base_setup;
            setup.append(&mut base_setup);
            proof {
                lemma_stmts_append(mid, same_stmts(s0) + pins, b.setup@);
                assert(same_stmts(s0) + pins + same_stmts(b.setup@) =~= same_stmts(s0) + (pins
                    + same_stmts(b.setup@)));
            }
            if pairs.len() == 0 {
                return ValuePlan::computed(setup, base_expression, effect);
            }
            let ghost with_base = setup@;
            let ghost prefix = same_stmts(s0) + pins + same_stmts(b.setup@);
            setup.push(LoweredStatement::TempBind { name: copy.clone(), value: base_expression.rendered });
            proof {
                lemma_stmts_push(with_base, prefix, setup@.last(), StmtV::Temp(copy@, b.expression.rendered@));
                assert(setup@ =~= with_base.push(setup@.last()));
            }
            let ghost pv = fields_view(pairs@);
            let mut i: usize = 0;
            while i < pairs.len()
                invariant
                    i <= pairs@.len(),
                    pv == fields_view(pairs@),
                    stmts_match(setup@, prefix.push(StmtV::Temp(copy@, b.expression.rendered@))
                        + update_assignments(copy@, pv.take(i as int))),
                decreases pairs.len() - i,
            {
                let mut line = copy.clone();
                push_char(&mut line, '.');
                line.append(pairs[i].0.as_str());
                line.append(" = ");
                line.append(pairs[i].1.as_str());
                push_char(&mut line, '\n');
                let ghost before = setup@;
                let ghost lv = line@;
                setup.push(LoweredStatement::RawGo(line));
                proof {
                    reveal_strlit(" = ");
                    assert(pv[i as int] == (pairs@[i as int].0@, pairs@[i as int].1@));
                    assert(lv =~= copy@ + seq!['.'] + pv[i as int].0 + " = "@ + pv[i as int].1 + seq!['\n']);
                    let pre = prefix.push(StmtV::Temp(copy@, b.expression.rendered@));
                    lemma_stmts_push(before, pre + update_assignments(copy@, pv.take(i as int)),
                        setup@.last(), StmtV::Raw(lv));
                    assert(setup@ =~= before.push(setup@.last()));
                    assert(update_assignments(copy@, pv.take(i + 1)) =~= update_assignments(copy@,
                        pv.take(i as int)).push(StmtV::Raw(lv)));
                    assert(pre + update_assignments(copy@, pv.take(i + 1)) =~= (pre
                        + update_assignments(copy@, pv.take(i as int))).push(StmtV::Raw(lv)));
                }
                i = i + 1;
            }
            proof {
                assert(pv.take(i as int) =~= pv);
                let spec_extra = spread_result(go_type@, tag, fs, StructSpread::Update { base: b }, in_condition, temps@, copy@).0;
                assert(same_stmts(s0) + spec_extra =~= prefix.push(StmtV::Temp(copy@, b.expression.rendered@))
                    + update_assignments(copy@, pv));
            }
            ValuePlan::computed(setup, GoExpression::name(copy.clone()), effect)
        },
        StructSpread::Variant { base, carried, base_order_sensitive } => {
            let ghost b = base;
            let ghost cv = carried@;
            let mut pairs = assemble_fields(tag, fields, true, temps, &mut setup);
            let ghost pins = pinned_fields(fs, temps@, fs.len() as int).0;
            let ghost assigned = fields_view(pairs@);
            let effect = effect.combine(base.evaluation.effect);
            let ValuePlan { setup: base_setup, expression: base_expression, evaluation: _ } = base;
            let ghost mid = setup@;
            let mut base_setup = base_setup;
            setup.append(&mut base_setup);
            let ghost prefix = same_stmts(s0) + pins + same_stmts(b.setup@);
            proof {
                lemma_stmts_append(mid, same_stmts(s0) + pins, b.setup@);
            }
            let base_text = base_expression.rendered;
            if carried.len() == 0 {
                let mut line = owned("_ = ");
                line.append(base_text.as_str());
                push_char(&mut line, '\n');
                let ghost before = setup@;
                let ghost lv = line@;
                setup.push(LoweredStatement::RawGo(line));
                proof {
                    reveal_strlit("_ = ");
                    assert(lv =~= "_ = "@ + b.expression.rendered@ + seq!['\n']);
                    lemma_stmts_push(before, prefix, setup@.last(), StmtV::Raw(lv));
                    assert(setup@ =~= before.push(setup@.last()));
                    assert(same_stmts(s0) + (pins + same_stmts(b.setup@) + seq![StmtV::Raw(lv)])
                        =~= prefix.push(StmtV::Raw(lv)));
                }
                let text = emit_struct_literal(go_type, &pairs, in_condition);
                return ValuePlan::computed(setup, GoExpression::composite_literal(text, fields_deferred), effect);
            }
            let source = if base_order_sensitive {
                let ghost before = setup@;
                setup.push(LoweredStatement::TempBind { name: copy.clone(), value: base_text });
                proof {
                    lemma_stmts_push(before, prefix, setup@.last(), StmtV::Temp(copy@, b.expression.rendered@));
                    assert(setup@ =~= before.push(setup@.last()));
                    assert(same_stmts(s0) + (pins + same_stmts(b.setup@) + seq![StmtV::Temp(copy@, b.expression.rendered@)])
                        =~= prefix.push(StmtV::Temp(copy@, b.expression.rendered@)));
                }
                copy.clone()
            } else {
                assert(same_stmts(s0) + (pins + same_stmts(b.setup@)) =~= prefix);
                base_text
            };
            let mut i: usize = 0;
            assert(carried_pairs(source@, cv.take(0)) =~= Seq::<(Seq<char>, Seq<char>)>::empty());
            assert(assigned + Seq::<(Seq<char>, Seq<char>)>::empty() =~= assigned);
            while i < carried.len()
                invariant
                    i <= cv.len(),
                    cv == carried@,
                    fields_view(pairs@) == assigned + carried_pairs(source@, cv.take(i as int)),
                decreases carried.len() - i,
            {
                let mut read = source.clone();
                push_char(&mut read, '.');
                read.append(carried[i].as_str());
                assert(read@ =~= source@ + seq!['.'] + cv[i as int]@);
                let ghost before_pairs = pairs@;
                let ghost before = fields_view(pairs@);
                let slot = carried[i].clone();
                pairs.push((slot, read));
                assert(pairs@ =~= before_pairs.push((slot, read)));
                assert(fields_view(pairs@) =~= before.push((cv[i as int]@, source@ + seq!['.'] + cv[i as int]@)));
                assert(carried_pairs(source@, cv.take(i + 1)) =~= carried_pairs(source@, cv.take(i as int)).push(
                    (cv[i as int]@, source@ + seq!['.'] + cv[i as int]@),
                ));
                i = i + 1;
            }
            assert(cv.take(i as int) =~= cv);
            let text = emit_struct_literal(go_type, &pairs, in_condition);
            ValuePlan::computed(setup, GoExpression::composite_literal(text, fields_deferred), effect)
        },
    }
}

} // verus!
