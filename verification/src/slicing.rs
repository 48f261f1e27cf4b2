//! Slicing with a range literal: `base[start:end]`, with the end one past an
//! inclusive bound, and for a Go slice a capacity bound so the result cannot
//! grow into the base's spare capacity.

use vstd::prelude::*;
use crate::lowered::LoweredStatement;
use crate::text::{owned, push_char};
use crate::values::{
    EvaluationFacts, GoExpression, OperandForm, SequencedValues, Stability, ValuePlan,
};

verus! {

/// Fresh names for the temporaries a capacity-bounded slice may hoist.
pub struct SliceTemps {
    pub base: String,
    pub length: String,
    pub start: String,
    pub end: String,
}

pub open spec fn opt_bound(o: Option<Seq<char>>) -> Seq<char> {
    match o {
        Some(t) => t,
        None => Seq::empty(),
    }
}

/// `base[start:end]`, or `base[start:end:cap]` with a capacity.
pub open spec fn slice_text(
    base: Seq<char>,
    start: Option<Seq<char>>,
    end: Option<Seq<char>>,
    cap: Option<Seq<char>>,
) -> Seq<char> {
    base + seq!['['] + opt_bound(start) + seq![':'] + opt_bound(end) + match cap {
        Some(c) => seq![':'] + c,
        None => Seq::empty(),
    } + seq![']']
}

/// The end bound: one past it when the range is inclusive.
pub open spec fn end_bound(end: Seq<char>, inclusive: bool) -> Seq<char> {
    if inclusive {
        end + "+1"@
    } else {
        end
    }
}

/// The temporaries a slice plan binds (name and value, in order) and the
/// slice expression. Without a capacity the bounds stay as they are. With
/// one, a missing end reads the length once (after pinning an
/// order-sensitive base); an end that defers evaluation is bound once (after
/// pinning an order-sensitive base and start) and used as end and capacity;
/// any other end is repeated as the capacity.
pub open spec fn slice_plan_spec(
    base: Seq<char>,
    start: Option<Seq<char>>,
    end: Option<Seq<char>>,
    end_deferred: bool,
    needs_cap: bool,
    base_order_sensitive: bool,
    start_order_sensitive: bool,
    temps: (Seq<char>, Seq<char>, Seq<char>, Seq<char>),
) -> (Seq<(Seq<char>, Seq<char>)>, Seq<char>) {
    if !needs_cap {
        (Seq::empty(), slice_text(base, start, end, None))
    } else if end is None || end_deferred {
        let base_binds = if base_order_sensitive {
            seq![(temps.0, base)]
        } else {
            Seq::empty()
        };
        let b = if base_order_sensitive {
            temps.0
        } else {
            base
        };
        match end {
            None => (
                base_binds.push((temps.1, "len("@ + b + seq![')'])),
                slice_text(b, start, Some(temps.1), Some(temps.1)),
            ),
            Some(e) => {
                let pin_start = start is Some && start_order_sensitive;
                let start_binds = if pin_start {
                    seq![(temps.2, start.unwrap())]
                } else {
                    Seq::empty()
                };
                let s = if pin_start {
                    Some(temps.2)
                } else {
                    start
                };
                (
                    base_binds + start_binds + seq![(temps.3, e)],
                    slice_text(b, s, Some(temps.3), Some(temps.3)),
                )
            },
        }
    } else {
        (Seq::empty(), slice_text(base, start, end, end))
    }
}

/// Whether `stmts` bind, in order, exactly the given temporaries.
pub open spec fn temp_binds(stmts: Seq<LoweredStatement>, binds: Seq<(Seq<char>, Seq<char>)>) -> bool {
    &&& stmts.len() == binds.len()
    &&& forall|i: int|
        0 <= i < stmts.len() ==> (#[trigger] stmts[i] matches LoweredStatement::TempBind { name, value }
            && name@ == binds[i].0 && value@ == binds[i].1)
}

/// Binds `value` to the temporary `name` at the end of `setup` and reads it.
fn hoist(setup: &mut Vec<LoweredStatement>, name: &String, value: String) -> (r: GoExpression)
    ensures
        final(setup)@.len() == old(setup)@.len() + 1,
        final(setup)@.drop_last() == old(setup)@,
        final(setup)@.last() matches LoweredStatement::TempBind { name: n, value: v } && n@ == name@
            && v@ == value@,
        r == GoExpression::name_spec(*name),
{
    setup.push(LoweredStatement::TempBind { name: name.clone(), value });
    assert(final(setup)@.drop_last() =~= old(setup)@);
    GoExpression::name(name.clone())
}

proof fn lemma_binds_push(stmts: Seq<LoweredStatement>, binds: Seq<(Seq<char>, Seq<char>)>, s: LoweredStatement, b: (Seq<char>, Seq<char>))
    requires
        temp_binds(stmts, binds),
        s matches LoweredStatement::TempBind { name, value } && name@ == b.0 && value@ == b.1,
    ensures
        temp_binds(stmts.push(s), binds.push(b)),
{
    assert forall|i: int| 0 <= i < stmts.len() + 1 implies (#[trigger] stmts.push(s)[i] matches LoweredStatement::TempBind { name, value }
        && name@ == binds.push(b)[i].0 && value@ == binds.push(b)[i].1) by {
        if i < stmts.len() {
            assert(stmts.push(s)[i] == stmts[i]);
        }
    }
}

/// A slice of a base by a range literal, over the sequenced base, start
/// (when present) and end (when present). `needs_cap` asks for a capacity
/// bound (the base is a Go slice); the order-sensitivity flags say whether
/// the base or the start must be pinned before an end is bound; `temps` are
/// fresh names for what is hoisted.
pub fn range_slice_plan(
    sequenced: SequencedValues,
    has_start: bool,
    has_end: bool,
    inclusive: bool,
    needs_cap: bool,
    base_order_sensitive: bool,
    start_order_sensitive: bool,
    temps: &SliceTemps,
) -> (r: ValuePlan)
    requires
        sequenced.values@.len() == 1 + (if has_start {
            1int
        } else {
            0int
        }) + (if has_end {
            1int
        } else {
            0int
        }),
    ensures
        ({
            let v = sequenced.values@;
            let start = if has_start {
                Some(v[1].rendered@)
            } else {
                None
            };
            let e = v[v.len() - 1];
            let end = if has_end {
                Some(end_bound(e.rendered@, inclusive))
            } else {
                None
            };
            let plan = slice_plan_spec(
                v[0].rendered@,
                start,
                end,
                has_end && e.contains_deferred_evaluation,
                needs_cap,
                base_order_sensitive,
                start_order_sensitive,
                (temps.base@, temps.length@, temps.start@, temps.end@),
            );
            &&& r.setup@.take(sequenced.setup@.len() as int) == sequenced.setup@
            &&& temp_binds(r.setup@.skip(sequenced.setup@.len() as int), plan.0)
            &&& r.expression.rendered@ == plan.1
        }),
        r.evaluation == (EvaluationFacts {
            form: OperandForm::Other,
            stability: Stability::Observable,
            effect: sequenced.effect,
        }),
        !r.expression.composite_literal,
        r.expression.syntax_form == OperandForm::Other,
{
    let SequencedValues { setup, values, effect } = sequenced;
    let ghost v = values@;
    let ghost n0 = setup@.len();
    let mut setup = setup;
    let mut values = values;
    let end_value = if has_end {
        let e = values.pop().unwrap();
        if inclusive {
            proof { reveal_strlit("+"); reveal_strlit("1"); reveal_strlit("+1"); }
            let adjusted = GoExpression::compact_binary(e, "+", GoExpression::literal(owned("1")));
            assert(adjusted.rendered@ =~= end_bound(v[v.len() - 1].rendered@, inclusive));
            Some(adjusted)
        } else {
            Some(e)
        }
    } else {
        None
    };
    let start_value = if has_start {
        values.pop()
    } else {
        None
    };
    let base = values.pop().unwrap();
    assert(base == v[0]);
    let ghost start_text = if has_start { Some(v[1].rendered@) } else { None::<Seq<char>> };
    let ghost end_text = if has_end { Some(end_bound(v[v.len() - 1].rendered@, inclusive)) } else { None::<Seq<char>> };
    assert(has_start ==> start_value == Some(v[1]));
    assert(start_value matches Some(s) ==> start_text == Some(s.rendered@));
    assert(start_value is None ==> start_text is None);
    assert(end_value matches Some(e) ==> end_text == Some(e.rendered@) && e.contains_deferred_evaluation
        == v[v.len() - 1].contains_deferred_evaluation);
    assert(end_value is None <==> end_text is None);
    let ghost temps_view = (temps.base@, temps.length@, temps.start@, temps.end@);
    let ghost plan = slice_plan_spec(
        v[0].rendered@,
        start_text,
        end_text,
        has_end && v[v.len() - 1].contains_deferred_evaluation,
        needs_cap,
        base_order_sensitive,
        start_order_sensitive,
        temps_view,
    );
    assert(setup@.skip(n0 as int) =~= Seq::<LoweredStatement>::empty());
    assert(setup@.take(n0 as int) =~= setup@);
    if !needs_cap {
        let expression = GoExpression::slice(base, start_value.as_ref(), end_value.as_ref(), None);
        return ValuePlan::computed(setup, expression, effect);
    }
    let end_defers = match &end_value {
        Some(e) => e.contains_deferred_evaluation,
        None => true,
    };
    if !end_defers {
        let expression = GoExpression::slice(
            base,
            start_value.as_ref(),
            end_value.as_ref(),
            end_value.as_ref(),
        );
        return ValuePlan::computed(setup, expression, effect);
    }
    let ghost binds0 = Seq::<(Seq<char>, Seq<char>)>::empty();
    let base = if base_order_sensitive {
        let ghost before = setup@;
        let b = hoist(&mut setup, &temps.base, base.rendered);
        proof {
            lemma_binds_push(before.skip(n0 as int), binds0, setup@.last(), (temps.base@, v[0].rendered@));
            assert(setup@.skip(n0 as int) =~= before.skip(n0 as int).push(setup@.last()));
            assert(setup@.take(n0 as int) =~= before.take(n0 as int));
        }
        b
    } else {
        base
    };
    let ghost base_binds = if base_order_sensitive { seq![(temps.base@, v[0].rendered@)] } else { binds0 };
    assert(base_binds =~= binds0.push((temps.base@, v[0].rendered@)) || !base_order_sensitive);
    assert(temp_binds(setup@.skip(n0 as int), base_binds));
    match end_value {
        None => {
            let mut length_text = owned("len(");
            length_text.append(base.rendered.as_str());
            push_char(&mut length_text, ')');
            proof { reveal_strlit("len("); }
            assert(length_text@ =~= "len("@ + base.rendered@ + seq![')']);
            assert(base.rendered@ == if base_order_sensitive { temps.base@ } else { v[0].rendered@ });
            assert(plan.0 =~= base_binds.push((temps.length@, length_text@)));
            let ghost before = setup@;
            let length = hoist(&mut setup, &temps.length, length_text);
            proof {
                lemma_binds_push(before.skip(n0 as int), base_binds, setup@.last(), (temps.length@, length_text@));
                assert(setup@.skip(n0 as int) =~= before.skip(n0 as int).push(setup@.last()));
                assert(setup@.take(n0 as int) =~= before.take(n0 as int));
            }
            let expression = GoExpression::slice(base, start_value.as_ref(), Some(&length), Some(&length));
            ValuePlan::computed(setup, expression, effect)
        },
        Some(end_expression) => {
            let pin_start = start_value.is_some() && start_order_sensitive;
            let start_value = if pin_start {
                let s = start_value.unwrap();
                let ghost before = setup@;
                let pinned = hoist(&mut setup, &temps.start, s.rendered);
                proof {
                    lemma_binds_push(before.skip(n0 as int), base_binds, setup@.last(), (temps.start@, v[1].rendered@));
                    assert(setup@.skip(n0 as int) =~= before.skip(n0 as int).push(setup@.last()));
                    assert(setup@.take(n0 as int) =~= before.take(n0 as int));
                }
                Some(pinned)
            } else {
                start_value
            };
            let ghost start_binds = if pin_start { base_binds.push((temps.start@, v[1].rendered@)) } else { base_binds };
            let ghost before = setup@;
            let end_variable = hoist(&mut setup, &temps.end, end_expression.rendered);
            proof {
                lemma_binds_push(before.skip(n0 as int), start_binds, setup@.last(), (temps.end@, end_text.unwrap()));
                assert(setup@.skip(n0 as int) =~= before.skip(n0 as int).push(setup@.last()));
                assert(setup@.take(n0 as int) =~= before.take(n0 as int));
                assert(plan.0 =~= start_binds.push((temps.end@, end_text.unwrap())));
            }
            let expression = GoExpression::slice(
                base,
                start_value.as_ref(),
                Some(&end_variable),
                Some(&end_variable),
            );
            ValuePlan::computed(setup, expression, effect)
        },
    }
}

} // verus!
