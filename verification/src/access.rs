//! Go text for slicing by a range variable and for struct literals.

use vstd::prelude::*;
use crate::text::{contains_char, owned, push_char, seq_join, str_eq, views_of, join};

verus! {

/// The range kinds a range variable can have.
pub open spec fn range_kind_known(kind: Seq<char>) -> bool {
    kind == "Range"@ || kind == "RangeInclusive"@ || kind == "RangeFrom"@ || kind == "RangeTo"@
        || kind == "RangeToInclusive"@
}

/// The slice bounds a range variable of `kind` gives: its start, and its
/// end (one past it when inclusive), where the kind has them.
pub open spec fn range_bounds(var: Seq<char>, kind: Seq<char>) -> (Option<Seq<char>>, Option<Seq<char>>) {
    let start = var + ".Start"@;
    let end = var + ".End"@;
    let end_inclusive = var + ".End+1"@;
    if kind == "Range"@ {
        (Some(start), Some(end))
    } else if kind == "RangeInclusive"@ {
        (Some(start), Some(end_inclusive))
    } else if kind == "RangeFrom"@ {
        (Some(start), None)
    } else if kind == "RangeTo"@ {
        (None, Some(end))
    } else {
        (None, Some(end_inclusive))
    }
}

pub open spec fn opt_text(o: Option<Seq<char>>) -> Seq<char> {
    match o {
        Some(t) => t,
        None => Seq::empty(),
    }
}

pub open spec fn opt_string_view(o: Option<String>) -> Option<Seq<char>> {
    match o {
        Some(s) => Some(s@),
        None => None,
    }
}

fn suffixed(var: &str, suffix: &str) -> (r: String)
    ensures
        r@ == var@ + suffix@,
{
    let mut r = owned(var);
    r.append(suffix);
    r
}

pub fn range_var_bounds(range_var: &str, range_kind: &str) -> (r: (Option<String>, Option<String>))
    requires
        range_kind_known(range_kind@),
    ensures
        (opt_string_view(r.0), opt_string_view(r.1)) == range_bounds(range_var@, range_kind@),
{
    if str_eq(range_kind, "Range") {
        (Some(suffixed(range_var, ".Start")), Some(suffixed(range_var, ".End")))
    } else if str_eq(range_kind, "RangeInclusive") {
        (Some(suffixed(range_var, ".Start")), Some(suffixed(range_var, ".End+1")))
    } else if str_eq(range_kind, "RangeFrom") {
        (Some(suffixed(range_var, ".Start")), None)
    } else if str_eq(range_kind, "RangeTo") {
        (None, Some(suffixed(range_var, ".End")))
    } else {
        (None, Some(suffixed(range_var, ".End+1")))
    }
}

/// `base[start:end]` from a range variable; with `needs_cap`, a third index
/// caps the capacity at the length so appends through the slice cannot
/// write into the rest of `base`.
pub open spec fn range_slice_text(base: Seq<char>, range: Seq<char>, kind: Seq<char>, needs_cap: bool) -> Seq<
    char,
> {
    let (start, end) = range_bounds(range, kind);
    let start_text = opt_text(start);
    let end_text = opt_text(end);
    if !needs_cap {
        base + seq!['['] + start_text + seq![':'] + end_text + seq![']']
    } else {
        let bound = if end_text.len() == 0 {
            "len("@ + base + seq![')']
        } else {
            end_text
        };
        base + seq!['['] + start_text + seq![':'] + bound + seq![':'] + bound + seq![']']
    }
}

pub fn emit_range_var_slice(base: &str, range: &str, range_kind: &str, needs_cap: bool) -> (r: String)
    requires
        range_kind_known(range_kind@),
    ensures
        r@ == range_slice_text(base@, range@, range_kind@, needs_cap),
{
    let (start, end) = range_var_bounds(range, range_kind);
    let start_str = match start {
        Some(s) => s,
        None => String::new(),
    };
    let end_str = match end {
        Some(e) => e,
        None => String::new(),
    };
    let mut r = owned(base);
    push_char(&mut r, '[');
    r.append(start_str.as_str());
    push_char(&mut r, ':');
    if !needs_cap {
        r.append(end_str.as_str());
        push_char(&mut r, ']');
        return r;
    }
    let bound = if end_str.as_str().unicode_len() == 0 {
        let mut b = owned("len(");
        b.append(base);
        push_char(&mut b, ')');
        b
    } else {
        end_str
    };
    r.append(bound.as_str());
    push_char(&mut r, ':');
    r.append(bound.as_str());
    push_char(&mut r, ']');
    r
}

/// A planned struct field: its name, its value, and whether reading the
/// value is observable.
pub struct StructCallField {
    pub name: String,
    pub value: String,
    pub has_observable_evaluation: bool,
}

impl StructCallField {
    pub fn into_pair(self) -> (r: (String, String))
        ensures
            r.0 == self.name,
            r.1 == self.value,
    {
        (self.name, self.value)
    }
}

pub open spec fn field_entry(f: (Seq<char>, Seq<char>)) -> Seq<char> {
    f.0 + ": "@ + f.1 + seq![',']
}

pub open spec fn fields_view(fields: Seq<(String, String)>) -> Seq<(Seq<char>, Seq<char>)> {
    fields.map_values(|f: (String, String)| (f.0@, f.1@))
}

/// A Go struct literal: `T{}`, `T{ name: value }` on one line, or one field
/// per line; parenthesized in a condition when the type is generic, since
/// gofmt would otherwise strip the parentheses that keep it valid there.
pub open spec fn struct_literal_text(ty: Seq<char>, fields: Seq<(Seq<char>, Seq<char>)>, in_condition: bool) -> Seq<
    char,
> {
    let raw = if fields.len() == 0 {
        ty + "{}"@
    } else if fields.len() == 1 {
        ty + "{ "@ + fields[0].0 + ": "@ + fields[0].1 + " }"@
    } else {
        ty + "{\n"@ + seq_join(fields.map_values(|f: (Seq<char>, Seq<char>)| field_entry(f)), "\n"@)
            + "\n}"@
    };
    if in_condition && ty.contains('[') {
        seq!['('] + raw + seq![')']
    } else {
        raw
    }
}

pub fn emit_struct_literal(ty: &str, fields: &Vec<(String, String)>, in_condition: bool) -> (r: String)
    ensures
        r@ == struct_literal_text(ty@, fields_view(fields@), in_condition),
{
    let ghost fv = fields_view(fields@);
    let mut raw = owned(ty);
    if fields.len() == 0 {
        raw.append("{}");
    } else if fields.len() == 1 {
        raw.append("{ ");
        raw.append(fields[0].0.as_str());
        raw.append(": ");
        raw.append(fields[0].1.as_str());
        raw.append(" }");
    } else {
        let mut entries: Vec<String> = Vec::new();
        let mut i: usize = 0;
        while i < fields.len()
            invariant
                i <= fields@.len(),
                fv == fields_view(fields@),
                views_of(entries@) == fv.take(i as int).map_values(
                    |f: (Seq<char>, Seq<char>)| field_entry(f),
                ),
            decreases fields.len() - i,
        {
            let mut entry = owned(fields[i].0.as_str());
            entry.append(": ");
            entry.append(fields[i].1.as_str());
            push_char(&mut entry, ',');
            assert(fv[i as int] == (fields@[i as int].0@, fields@[i as int].1@));
            assert(entry@ =~= field_entry(fv[i as int]));
            let ghost before = entries@;
            entries.push(entry);
            proof {
                crate::text::lemma_views_push(before, entry);
                assert(fv.take(i + 1).map_values(|f: (Seq<char>, Seq<char>)| field_entry(f))
                    =~= fv.take(i as int).map_values(|f: (Seq<char>, Seq<char>)| field_entry(f)).push(
                    field_entry(fv[i as int]),
                ));
            }
            i = i + 1;
        }
        assert(fv.take(fields.len() as int) =~= fv);
        raw.append("{\n");
        raw.append(join(&entries, "\n").as_str());
        raw.append("\n}");
    }
    if in_condition && contains_char(ty, '[') {
        let mut r = String::new();
        push_char(&mut r, '(');
        r.append(raw.as_str());
        push_char(&mut r, ')');
        r
    } else {
        raw
    }
}

} // verus!
