//! Interpolated strings: a concatenation of string pieces when every value
//! is a string, otherwise an `fmt.Sprint`/`fmt.Sprintf` call.

use vstd::prelude::*;
use crate::literals::{convert_escape_sequences, escaped};
use crate::text::{owned, push_char, seq_join, str_eq};
use crate::names::{GeneratedPackage, package_path, package_qualifier};
use crate::packages::PackageRequirements;
use crate::staging::{
    capture_flags, count_set, effect_of, sequence_values, staged_setup, staged_values,
};
use crate::values::{
    binary_constant_kind, CaptureBoundary, ConstantKind, EvaluationFacts, GoExpression, OperandForm, SequencedValues,
    Stability, ValuePlan, renderings,
};

verus! {

/// The kind of an interpolated value, as far as its `fmt` verb depends on it.
#[derive(Clone, Copy, PartialEq, Eq, Structural)]
pub enum ValueKind {
    Rune,
    String,
    Bool,
    Integer,
    Float,
    Other,
}

/// The `fmt` verb that interpolates a value of this kind.
pub open spec fn verb_text(kind: ValueKind) -> Seq<char> {
    match kind {
        ValueKind::Rune => "%c"@,
        ValueKind::String => "%s"@,
        ValueKind::Bool => "%t"@,
        ValueKind::Integer => "%d"@,
        ValueKind::Float => "%g"@,
        ValueKind::Other => "%v"@,
    }
}

pub fn format_verb_for(kind: ValueKind) -> (r: &'static str)
    ensures
        r@ == verb_text(kind),
{
    match kind {
        ValueKind::Rune => "%c",
        ValueKind::String => "%s",
        ValueKind::Bool => "%t",
        ValueKind::Integer => "%d",
        ValueKind::Float => "%g",
        ValueKind::Other => "%v",
    }
}

/// One part of an interpolated string: literal text, or a value
/// interpolated with a verb.
pub enum FormatPart {
    Text(String),
    Value { kind: ValueKind },
}

/// `s` with each doubled `c` read as one `c`, left to right.
pub open spec fn collapse_pairs(s: Seq<char>, c: char) -> Seq<char>
    decreases s.len(),
{
    if s.len() == 0 {
        Seq::empty()
    } else if s.len() >= 2 && s[0] == c && s[1] == c {
        seq![c] + collapse_pairs(s.skip(2), c)
    } else {
        seq![s[0]] + collapse_pairs(s.skip(1), c)
    }
}

/// The Go text of a literal piece: doubled braces read as one, then escapes
/// rewritten for a Go string.
pub open spec fn text_piece(text: Seq<char>) -> Seq<char> {
    escaped(collapse_pairs(collapse_pairs(text, '{'), '}'))
}

/// `s` with each `%` doubled, so `fmt` prints it.
pub open spec fn percent_escaped(s: Seq<char>) -> Seq<char>
    decreases s.len(),
{
    if s.len() == 0 {
        Seq::empty()
    } else {
        percent_escaped(s.drop_last()) + if s.last() == '%' {
            "%%"@
        } else {
            seq![s.last()]
        }
    }
}

fn collapse_doubled(s: &str, c: char) -> (r: String)
    ensures
        r@ == collapse_pairs(s@, c),
{
    let n = s.unicode_len();
    let mut out = String::new();
    let mut i: usize = 0;
    assert(s@.skip(0) =~= s@);
    while i < n
        invariant
            n == s@.len(),
            i <= n,
            out@ + collapse_pairs(s@.skip(i as int), c) == collapse_pairs(s@, c),
        decreases n - i,
    {
        let ghost rest = s@.skip(i as int);
        let ghost before = out@;
        let x = s.get_char(i);
        assert(rest[0] == x);
        if n - i >= 2 && x == c && s.get_char(i + 1) == c {
            assert(rest[1] == s@[i + 1]);
            push_char(&mut out, c);
            assert(rest.skip(2) =~= s@.skip(i + 2));
            assert(out@ + collapse_pairs(s@.skip(i + 2), c) =~= before + collapse_pairs(rest, c));
            i = i + 2;
        } else {
            proof {
                if n - i >= 2 {
                    assert(rest[1] == s@[i + 1]);
                }
            }
            push_char(&mut out, x);
            assert(rest.skip(1) =~= s@.skip(i + 1));
            assert(out@ + collapse_pairs(s@.skip(i + 1), c) =~= before + collapse_pairs(rest, c));
            i = i + 1;
        }
    }
    assert(s@.skip(n as int) =~= Seq::<char>::empty());
    out
}

/// The Go text of a literal piece of an interpolated string.
pub fn format_text_piece(text: &str) -> (r: String)
    ensures
        r@ == text_piece(text@),
{
    let once = collapse_doubled(text, '{');
    let twice = collapse_doubled(once.as_str(), '}');
    convert_escape_sequences(twice.as_str())
}

fn escape_percents(s: &str) -> (r: String)
    ensures
        r@ == percent_escaped(s@),
{
    let n = s.unicode_len();
    let mut out = String::new();
    let mut i: usize = 0;
    while i < n
        invariant
            n == s@.len(),
            i <= n,
            out@ == percent_escaped(s@.take(i as int)),
        decreases n - i,
    {
        let x = s.get_char(i);
        if x == '%' {
            out.append("%%");
        } else {
            push_char(&mut out, x);
        }
        assert(s@.take(i + 1).drop_last() =~= s@.take(i as int));
        assert(s@.take(i + 1).last() == x);
        i = i + 1;
    }
    assert(s@.take(n as int) =~= s@);
    out
}

/// How many values the parts interpolate.
pub open spec fn value_count(parts: Seq<FormatPart>) -> nat
    decreases parts.len(),
{
    if parts.len() == 0 {
        0
    } else {
        value_count(parts.drop_last()) + if parts.last() is Value {
            1nat
        } else {
            0nat
        }
    }
}

/// The pieces of a concatenation: each non-empty literal piece as a string
/// constant, each value as its planned expression, in order.
pub open spec fn concat_pieces(parts: Seq<FormatPart>, values: Seq<GoExpression>) -> Seq<Seq<char>>
    decreases parts.len(),
{
    if parts.len() == 0 {
        Seq::empty()
    } else {
        let before = concat_pieces(parts.drop_last(), values);
        match parts.last() {
            FormatPart::Text(t) => if text_piece(t@).len() > 0 {
                before.push(seq!['"'] + text_piece(t@) + seq!['"'])
            } else {
                before
            },
            FormatPart::Value { .. } => before.push(values[value_count(parts.drop_last()) as int].rendered@),
        }
    }
}

/// The format text of a `Sprintf` call: literal pieces (with `%` doubled
/// when values are interpolated) and one verb per value.
pub open spec fn format_text(parts: Seq<FormatPart>, interpolates: bool) -> Seq<char>
    decreases parts.len(),
{
    if parts.len() == 0 {
        Seq::empty()
    } else {
        format_text(parts.drop_last(), interpolates) + match parts.last() {
            FormatPart::Text(t) => if interpolates {
                percent_escaped(text_piece(t@))
            } else {
                text_piece(t@)
            },
            FormatPart::Value { kind } => verb_text(kind),
        }
    }
}

proof fn lemma_value_count_bound(parts: Seq<FormatPart>)
    ensures
        value_count(parts) <= parts.len(),
    decreases parts.len(),
{
    if parts.len() > 0 {
        lemma_value_count_bound(parts.drop_last());
    }
}

/// The string concatenation an interpolated string lowers to when every
/// value is a string: its pieces joined with `+`.
pub fn format_concatenation(parts: &Vec<FormatPart>, sequenced: SequencedValues) -> (r: ValuePlan)
    requires
        sequenced.values@.len() == value_count(parts@),
        value_count(parts@) > 0,
    ensures
        r.setup == sequenced.setup,
        r.expression.rendered@ == seq_join(concat_pieces(parts@, sequenced.values@), " + "@),
        (r.expression.contains_deferred_evaluation, r.expression.syntax_form, r.expression.constant)
            == joined_attrs(concat_attrs(parts@, sequenced.values@)),
        !r.expression.composite_literal,
        r.evaluation == (EvaluationFacts {
            form: OperandForm::Other,
            stability: Stability::Observable,
            effect: sequenced.effect,
        }),
{
    let SequencedValues { setup, values, effect } = sequenced;
    let ghost vals = values@;
    let mut acc: Option<GoExpression> = None;
    let mut next: usize = 0;
    let mut i: usize = 0;
    proof {
        reveal_strlit(" + ");
    }
    while i < parts.len()
        invariant
            i <= parts@.len(),
            vals == values@,
            vals.len() == value_count(parts@),
            next as nat == value_count(parts@.take(i as int)),
            value_count(parts@.take(i as int)) <= value_count(parts@),
            concat_attrs(parts@.take(i as int), vals).len() == concat_pieces(parts@.take(i as int), vals).len(),
            match acc {
                Some(e) => concat_pieces(parts@.take(i as int), vals).len() > 0 && e.rendered@ == seq_join(
                    concat_pieces(parts@.take(i as int), vals),
                    " + "@,
                ) && !e.composite_literal && (e.contains_deferred_evaluation, e.syntax_form, e.constant)
                    == joined_attrs(concat_attrs(parts@.take(i as int), vals)),
                None => concat_pieces(parts@.take(i as int), vals).len() == 0,
            },
        decreases parts.len() - i,
    {
        proof {
            assert(parts@.take(i + 1).drop_last() =~= parts@.take(i as int));
            assert(parts@.take(i + 1).last() == parts@[i as int]);
            lemma_count_prefix(parts@, i as int);
        }
        let ghost old_pieces = concat_pieces(parts@.take(i as int), vals);
        let ghost old_attrs = concat_attrs(parts@.take(i as int), vals);
        let piece: Option<GoExpression> = match &parts[i] {
            FormatPart::Text(text) => {
                let unescaped = format_text_piece(text.as_str());
                if unescaped.as_str().unicode_len() > 0 {
                    let mut quoted = String::new();
                    push_char(&mut quoted, '"');
                    quoted.append(unescaped.as_str());
                    push_char(&mut quoted, '"');
                    assert(quoted@ =~= seq!['"'] + text_piece(text@) + seq!['"']);
                    assert(concat_pieces(parts@.take(i + 1), vals) == old_pieces.push(quoted@));
                    assert(concat_attrs(parts@.take(i + 1), vals) == old_attrs.push(
                        (false, OperandForm::Literal, Some(ConstantKind::String)),
                    ));
                    Some(GoExpression::constant(quoted, ConstantKind::String))
                } else {
                    assert(concat_pieces(parts@.take(i + 1), vals) == old_pieces);
                    assert(concat_attrs(parts@.take(i + 1), vals) == old_attrs);
                    None
                }
            },
            FormatPart::Value { .. } => {
                assert(parts@[i as int] is Value);
                assert(next < values.len());
                let v = values[next].rendered();
                let e = values[next].contains_deferred_evaluation();
                let form = values[next].syntax_form();
                let k = values[next].constant_kind();
                assert(concat_pieces(parts@.take(i + 1), vals) == old_pieces.push(v@));
                assert(concat_attrs(parts@.take(i + 1), vals) == old_attrs.push((e, form, k)));
                next = next + 1;
                Some(GoExpression::new(v, e, false, form).with_constant(k))
            },
        };
        match piece {
            Some(p) => {
                acc = match acc {
                    Some(left) => {
                        proof {
                            reveal_strlit(" + ");
                            reveal_strlit("+");
                            assert(old_pieces.push(p.rendered@).drop_last() =~= old_pieces);
                            assert(old_pieces.push(p.rendered@).last() == p.rendered@);
                            assert(old_attrs.push((p.contains_deferred_evaluation, p.syntax_form, p.constant)).drop_last() =~= old_attrs);
                        }
                        Some(GoExpression::binary(left, "+", p))
                    },
                    None => {
                        proof {
                            assert(old_pieces.push(p.rendered@) =~= seq![p.rendered@]);
                            assert(old_attrs.len() == 0);
                        }
                        Some(p)
                    },
                };
            },
            None => {},
        }
        i = i + 1;
    }
    assert(parts@.take(i as int) =~= parts@);
    let expression = match acc {
        Some(e) => e,
        None => {
            proof {
                lemma_count_has_piece(parts@, vals);
            }
            GoExpression::opaque(String::new())
        },
    };
    ValuePlan::computed(setup, expression, effect)
}

/// What a piece of a concatenation is, apart from its text: whether it
/// defers evaluation, its syntax form, and its constant kind.
pub open spec fn concat_attrs(parts: Seq<FormatPart>, values: Seq<GoExpression>) -> Seq<
    (bool, OperandForm, Option<ConstantKind>),
>
    decreases parts.len(),
{
    if parts.len() == 0 {
        Seq::empty()
    } else {
        let before = concat_attrs(parts.drop_last(), values);
        match parts.last() {
            FormatPart::Text(t) => if text_piece(t@).len() > 0 {
                before.push((false, OperandForm::Literal, Some(ConstantKind::String)))
            } else {
                before
            },
            FormatPart::Value { .. } => {
                let v = values[value_count(parts.drop_last()) as int];
                before.push((v.contains_deferred_evaluation, v.syntax_form, v.constant))
            },
        }
    }
}

/// The attributes of pieces joined left to right with `+`: one piece keeps
/// its own; a sum defers when a piece does, is an `Other` form, and folds
/// the constant kinds.
pub open spec fn joined_attrs(s: Seq<(bool, OperandForm, Option<ConstantKind>)>) -> (
    bool,
    OperandForm,
    Option<ConstantKind>,
)
    decreases s.len(),
{
    if s.len() == 0 {
        (false, OperandForm::Other, None)
    } else if s.len() == 1 {
        s[0]
    } else {
        let left = joined_attrs(s.drop_last());
        (left.0 || s.last().0, OperandForm::Other, binary_constant_kind(left.2, "+"@, s.last().2))
    }
}

proof fn lemma_attrs_len(parts: Seq<FormatPart>, values: Seq<GoExpression>)
    ensures
        concat_attrs(parts, values).len() == concat_pieces(parts, values).len(),
    decreases parts.len(),
{
    if parts.len() > 0 {
        lemma_attrs_len(parts.drop_last(), values);
    }
}

proof fn lemma_count_prefix(parts: Seq<FormatPart>, i: int)
    requires
        0 <= i < parts.len(),
    ensures
        value_count(parts.take(i + 1)) <= value_count(parts),
        parts[i] is Value ==> value_count(parts.take(i)) < value_count(parts),
    decreases parts.len() - i,
{
    if i + 1 < parts.len() {
        lemma_count_prefix(parts, i + 1);
        assert(parts.take(i + 2).drop_last() =~= parts.take(i + 1));
    } else {
        assert(parts.take(i + 1) =~= parts);
    }
    assert(parts.take(i + 1).drop_last() =~= parts.take(i));
}

proof fn lemma_count_has_piece(parts: Seq<FormatPart>, values: Seq<GoExpression>)
    requires
        value_count(parts) > 0,
    ensures
        concat_pieces(parts, values).len() > 0,
    decreases parts.len(),
{
    if parts.len() > 0 && !(parts.last() is Value) {
        lemma_count_has_piece(parts.drop_last(), values);
        lemma_pieces_grow(parts.drop_last(), parts.last(), values);
    }
}

proof fn lemma_pieces_grow(parts: Seq<FormatPart>, last: FormatPart, values: Seq<GoExpression>)
    ensures
        concat_pieces(parts.push(last), values).len() >= concat_pieces(parts, values).len(),
{
    assert(parts.push(last).drop_last() =~= parts);
}

/// The text of the `fmt` call (or plain literal) for the parts and their
/// planned values.
pub open spec fn call_text(parts: Seq<FormatPart>, values: Seq<GoExpression>) -> Seq<char> {
    if value_count(parts) == 0 {
        seq!['"'] + format_text(parts, false) + seq!['"']
    } else if parts.len() == 1 && format_text(parts, true) != "%c"@ {
        "fmt.Sprint("@ + values[0].rendered@ + seq![')']
    } else {
        "fmt.Sprintf("@ + seq_join(
            seq![seq!['"'] + format_text(parts, true) + seq!['"']] + renderings(values),
            ", "@,
        ) + seq![')']
    }
}

/// The `fmt` call an interpolated string lowers to when some value is not a
/// string: `fmt.Sprint(v)` for a lone value (unless it is a rune, which
/// `Sprint` would print as a number), otherwise `fmt.Sprintf` with the
/// format text; a string with no values is a plain literal.
pub fn format_call(parts: &Vec<FormatPart>, sequenced: SequencedValues) -> (r: ValuePlan)
    requires
        sequenced.values@.len() == value_count(parts@),
    ensures
        r.setup == sequenced.setup,
        r.expression.rendered@ == call_text(parts@, sequenced.values@),
        !r.expression.composite_literal,
        r.expression.constant is None,
        value_count(parts@) == 0 ==> r.evaluation == (EvaluationFacts {
            form: OperandForm::Literal,
            stability: Stability::Observable,
            effect: sequenced.effect,
        }) && !r.expression.contains_deferred_evaluation && r.expression.syntax_form
            == OperandForm::Literal,
        value_count(parts@) > 0 ==> r.evaluation == (EvaluationFacts {
            form: OperandForm::Call,
            stability: Stability::Observable,
            effect: sequenced.effect,
        }) && r.expression.contains_deferred_evaluation && r.expression.syntax_form
            == OperandForm::Call,
{
    let SequencedValues { setup, values, effect } = sequenced;
    let interpolates = has_value(parts);
    let mut text = String::new();
    let mut i: usize = 0;
    while i < parts.len()
        invariant
            i <= parts@.len(),
            interpolates == (value_count(parts@) > 0),
            text@ == format_text(parts@.take(i as int), interpolates),
        decreases parts.len() - i,
    {
        match &parts[i] {
            FormatPart::Text(t) => {
                let unescaped = format_text_piece(t.as_str());
                if interpolates {
                    text.append(escape_percents(unescaped.as_str()).as_str());
                } else {
                    text.append(unescaped.as_str());
                }
            },
            FormatPart::Value { kind } => {
                text.append(format_verb_for(*kind));
            },
        }
        assert(parts@.take(i + 1).drop_last() =~= parts@.take(i as int));
        assert(parts@.take(i + 1).last() == parts@[i as int]);
        i = i + 1;
    }
    assert(parts@.take(i as int) =~= parts@);
    let mut quoted = String::new();
    push_char(&mut quoted, '"');
    quoted.append(text.as_str());
    push_char(&mut quoted, '"');
    if values.len() == 0 {
        return ValuePlan::evaluated_literal(setup, quoted, effect);
    }
    if parts.len() == 1 && !str_eq(text.as_str(), "%c") {
        let arg = GoExpression::opaque(values[0].rendered());
        let mut args: Vec<GoExpression> = Vec::new();
        args.push(arg);
        let call = GoExpression::call(GoExpression::opaque(owned("fmt.Sprint")), args);
        proof {
            reveal_strlit("fmt.Sprint");
            reveal_strlit(", ");
            assert(renderings(seq![GoExpression::opaque_spec(values@[0].rendered)]) =~= seq![
                values@[0].rendered@,
            ]);
        }
        assert(call.rendered@ =~= "fmt.Sprint("@ + values@[0].rendered@ + seq![')']) by {
            reveal_strlit("fmt.Sprint(");
            reveal_strlit("fmt.Sprint");
        }
        return ValuePlan::observable_call(setup, call, effect);
    }
    assert(quoted@ =~= seq!['"'] + text@ + seq!['"']);
    let ghost quoted_text = quoted@;
    let mut arguments: Vec<GoExpression> = Vec::new();
    arguments.push(GoExpression::literal(quoted));
    assert(renderings(arguments@) =~= seq![quoted_text]);
    assert(renderings(values@.take(0)) =~= Seq::<Seq<char>>::empty());
    assert(seq![quoted_text] + Seq::<Seq<char>>::empty() =~= seq![quoted_text]);
    let mut j: usize = 0;
    while j < values.len()
        invariant
            j <= values@.len(),
            arguments@.len() == j + 1,
            renderings(arguments@) == seq![seq!['"'] + text@ + seq!['"']] + renderings(values@.take(j as int)),
        decreases values.len() - j,
    {
        let ghost before = arguments@;
        arguments.push(GoExpression::opaque(values[j].rendered()));
        assert(renderings(arguments@) =~= renderings(before).push(values@[j as int].rendered@));
        assert(renderings(values@.take(j + 1)) =~= renderings(values@.take(j as int)).push(
            values@[j as int].rendered@,
        ));
        j = j + 1;
    }
    assert(values@.take(j as int) =~= values@);
    let call = GoExpression::call(GoExpression::opaque(owned("fmt.Sprintf")), arguments);
    assert(call.rendered@ =~= "fmt.Sprintf("@ + seq_join(
        seq![seq!['"'] + format_text(parts@, true) + seq!['"']] + renderings(values@),
        ", "@,
    ) + seq![')']) by {
        reveal_strlit("fmt.Sprintf(");
        reveal_strlit("fmt.Sprintf");
    }
    ValuePlan::observable_call(setup, call, effect)
}

/// Whether some part interpolates a value.
fn has_value(parts: &Vec<FormatPart>) -> (r: bool)
    ensures
        r == (value_count(parts@) > 0),
{
    let mut i: usize = 0;
    while i < parts.len()
        invariant
            i <= parts@.len(),
            value_count(parts@.take(i as int)) == 0,
        decreases parts.len() - i,
    {
        assert(parts@.take(i + 1).drop_last() =~= parts@.take(i as int));
        if matches!(parts[i], FormatPart::Value { .. }) {
            proof {
                lemma_count_prefix(parts@, i as int);
                assert(parts@.take(i + 1).last() == parts@[i as int]);
                assert(value_count(parts@.take(i + 1)) == 1);
            }
            return true;
        }
        i = i + 1;
    }
    assert(parts@.take(i as int) =~= parts@);
    false
}

/// Whether an interpolated string lowers to a concatenation: it
/// interpolates at least one value and every value is a string.
pub open spec fn concatenates(parts: Seq<FormatPart>) -> bool {
    &&& value_count(parts) > 0
    &&& forall|i: int|
        0 <= i < parts.len() ==> (#[trigger] parts[i] matches FormatPart::Value { kind } ==> kind
            == ValueKind::String)
}

pub fn format_string_concatenates(parts: &Vec<FormatPart>) -> (r: bool)
    ensures
        r == concatenates(parts@),
{
    let mut all_strings = true;
    let mut i: usize = 0;
    while i < parts.len()
        invariant
            i <= parts@.len(),
            all_strings == forall|j: int|
                0 <= j < i ==> (#[trigger] parts@[j] matches FormatPart::Value { kind } ==> kind
                    == ValueKind::String),
        decreases parts.len() - i,
    {
        let ghost prev = all_strings;
        match &parts[i] {
            FormatPart::Value { kind } => {
                if !matches!(kind, ValueKind::String) {
                    all_strings = false;
                }
            },
            FormatPart::Text(_) => {},
        }
        assert(all_strings == forall|j: int|
            0 <= j < i + 1 ==> (#[trigger] parts@[j] matches FormatPart::Value { kind } ==> kind
                == ValueKind::String)) by {
            if !prev {
                let w = choose|j: int|
                    0 <= j < i && !(#[trigger] parts@[j] matches FormatPart::Value { kind } ==> kind
                        == ValueKind::String);
                assert(!(parts@[w] matches FormatPart::Value { kind } ==> kind == ValueKind::String));
            }
        }
        i = i + 1;
    }
    has_value(parts) && all_strings
}

/// Whether the interpolated string is one string value and nothing else,
/// which is that value unchanged.
pub open spec fn lone_string_value(parts: Seq<FormatPart>) -> bool {
    concatenates(parts) && parts.len() == 1
}

/// Lowers an interpolated string whose values were planned into `stages`
/// (one per value part, in order): a lone string value is its stage
/// unchanged; otherwise the stages are sequenced as siblings (captures take
/// `temp_names` in order) and the parts become a concatenation when every
/// value is a string, else an `fmt` call, which requires the `fmt` package.
pub fn emit_format_string(
    parts: &Vec<FormatPart>,
    stages: Vec<ValuePlan>,
    temp_names: &Vec<String>,
    requirements: &mut PackageRequirements,
) -> (r: ValuePlan)
    requires
        stages@.len() == value_count(parts@),
        old(requirements).wf(),
        count_set(capture_flags(stages@, CaptureBoundary::SiblingSequence), stages@.len() as int)
            <= temp_names@.len(),
    ensures
        final(requirements).wf(),
        lone_string_value(parts@) ==> r == stages@[0] && final(requirements)@ == old(requirements)@,
        !lone_string_value(parts@) ==> r.setup@ == staged_setup(
            stages@,
            CaptureBoundary::SiblingSequence,
            temp_names@,
        ),
        !lone_string_value(parts@) && concatenates(parts@) ==> {
            let values = staged_values(stages@, CaptureBoundary::SiblingSequence, temp_names@);
            &&& r.expression.rendered@ == seq_join(concat_pieces(parts@, values), " + "@)
            &&& (r.expression.contains_deferred_evaluation, r.expression.syntax_form, r.expression.constant)
                == joined_attrs(concat_attrs(parts@, values))
            &&& !r.expression.composite_literal
            &&& r.evaluation == (EvaluationFacts {
                form: OperandForm::Other,
                stability: Stability::Observable,
                effect: effect_of(stages@),
            })
            &&& final(requirements)@ == old(requirements)@
        },
        !concatenates(parts@) ==> {
            let values = staged_values(stages@, CaptureBoundary::SiblingSequence, temp_names@);
            &&& r.expression.rendered@ == call_text(parts@, values)
            &&& !r.expression.composite_literal
            &&& r.expression.constant is None
            &&& r.expression.contains_deferred_evaluation == (value_count(parts@) > 0)
            &&& r.expression.syntax_form == if value_count(parts@) > 0 {
                OperandForm::Call
            } else {
                OperandForm::Literal
            }
            &&& r.evaluation == (EvaluationFacts {
                form: if value_count(parts@) > 0 {
                    OperandForm::Call
                } else {
                    OperandForm::Literal
                },
                stability: Stability::Observable,
                effect: effect_of(stages@),
            })
            &&& final(requirements)@ == if value_count(parts@) > 0 {
                old(requirements)@.insert(
                    (package_path(GeneratedPackage::Fmt), package_qualifier(GeneratedPackage::Fmt)),
                )
            } else {
                old(requirements)@
            }
        },
{
    let concatenated = format_string_concatenates(parts);
    if concatenated && stages.len() == 1 && parts.len() == 1 {
        let mut stages = stages;
        return stages.remove(0);
    }
    let sequenced = sequence_values(stages, CaptureBoundary::SiblingSequence, temp_names);
    if concatenated {
        return format_concatenation(parts, sequenced);
    }
    if sequenced.values.len() > 0 {
        requirements.require_generated(GeneratedPackage::Fmt);
    }
    format_call(parts, sequenced)
}

/// Each value kind is interpolated with the `fmt` verb that formats values
/// of that kind: `%c` for a rune, `%s` for a string, `%t` for a bool, `%d`
/// for an integer, `%g` for a float, `%v` otherwise; and appending a value
/// to the parts of a `Sprintf` appends exactly its verb to the format text.
/// No two kinds share a verb.
pub proof fn law_format_verbs(parts: Seq<FormatPart>, kind: ValueKind, other: ValueKind)
    ensures
        verb_text(ValueKind::Rune) == "%c"@,
        verb_text(ValueKind::String) == "%s"@,
        verb_text(ValueKind::Bool) == "%t"@,
        verb_text(ValueKind::Integer) == "%d"@,
        verb_text(ValueKind::Float) == "%g"@,
        verb_text(ValueKind::Other) == "%v"@,
        format_text(parts.push(FormatPart::Value { kind }), true) == format_text(parts, true) + verb_text(kind),
        kind != other ==> verb_text(kind) != verb_text(other),
{
    reveal_strlit("%c");
    reveal_strlit("%s");
    reveal_strlit("%t");
    reveal_strlit("%d");
    reveal_strlit("%g");
    reveal_strlit("%v");
    assert(parts.push(FormatPart::Value { kind }).drop_last() =~= parts);
    if kind != other {
        assert(verb_text(kind)[1] != verb_text(other)[1]);
    }
}

} // verus!
