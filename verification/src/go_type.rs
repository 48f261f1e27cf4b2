//! Go types as rendered text with the packages they need, and Go type
//! conversions.

use vstd::prelude::*;
use crate::names::{GeneratedPackage, package_path, package_qualifier};
use crate::packages::{PackageRequirements, PackageUse};
use crate::text::{is_ascii_alpha, is_ascii_digit, push_char, seq_join};

verus! {

/// What std's `char::is_alphanumeric` answers for `c` (Unicode `Alphabetic`
/// or `Numeric`).
pub uninterp spec fn unicode_alphanumeric(c: char) -> bool;

/// std's `char::is_alphanumeric`; the contract names its answer, and says of
/// it only that on ASCII it is true for exactly the letters and digits.
#[verifier::external_body]
fn is_alphanumeric(c: char) -> (r: bool)
    ensures
        r == unicode_alphanumeric(c),
        (c as u32) < 128 ==> r == (is_ascii_alpha(c) || is_ascii_digit(c)),
{
    c.is_alphanumeric()
}

/// Whether a Go type text can be applied as a conversion without parentheses:
/// every character is alphanumeric, `_` or `.`.
pub open spec fn is_plain_type_name(go_type: Seq<char>) -> bool {
    forall|i: int| 0 <= i < go_type.len() ==> {
        let c = #[trigger] go_type[i];
        unicode_alphanumeric(c) || c == '_' || c == '.'
    }
}

/// The text of the conversion `go_type(value)`.
pub open spec fn conversion_text(go_type: Seq<char>, value: Seq<char>) -> Seq<char> {
    if is_plain_type_name(go_type) {
        go_type + seq!['('] + value + seq![')']
    } else {
        seq!['('] + go_type + seq![')', '('] + value + seq![')']
    }
}

fn plain_type_name(go_type: &str) -> (r: bool)
    ensures
        r == is_plain_type_name(go_type@),
{
    let n = go_type.unicode_len();
    let mut i: usize = 0;
    while i < n
        invariant
            n == go_type@.len(),
            i <= n,
            forall|j: int| 0 <= j < i ==> {
                let c = #[trigger] go_type@[j];
                unicode_alphanumeric(c) || c == '_' || c == '.'
            },
        decreases n - i,
    {
        let c = go_type.get_char(i);
        if !(is_alphanumeric(c) || c == '_' || c == '.') {
            return false;
        }
        i = i + 1;
    }
    true
}

/// Renders `go_type(value)`, parenthesizing a composite type.
pub fn render_conversion(go_type: &str, value: &str) -> (r: String)
    ensures
        r@ == conversion_text(go_type@, value@),
{
    let mut r = String::new();
    if plain_type_name(go_type) {
        r.append(go_type);
        push_char(&mut r, '(');
    } else {
        push_char(&mut r, '(');
        r.append(go_type);
        push_char(&mut r, ')');
        push_char(&mut r, '(');
    }
    r.append(value);
    push_char(&mut r, ')');
    assert(r@ =~= conversion_text(go_type@, value@));
    r
}

/// A Go type's text and the packages that text refers to.
pub struct GoType {
    pub code: String,
    pub requirements: PackageRequirements,
}

impl GoType {
    pub fn new(code: String) -> (r: Self)
        ensures
            r.code == code,
            r.requirements@ == Set::<(Seq<char>, Seq<char>)>::empty(),
            r.requirements.wf(),
    {
        GoType { code, requirements: PackageRequirements::default() }
    }

    /// A type of the prelude package.
    pub fn stdlib(code: String) -> (r: Self)
        ensures
            r.code == code,
            r.requirements@ == set![
                (package_path(GeneratedPackage::Prelude), package_qualifier(GeneratedPackage::Prelude)),
            ],
            r.requirements.wf(),
    {
        let mut result = Self::new(code);
        result.requirements.require_generated(GeneratedPackage::Prelude);
        assert(result.requirements@ =~= set![
            (package_path(GeneratedPackage::Prelude), package_qualifier(GeneratedPackage::Prelude)),
        ]);
        result
    }

    /// A type of one imported package.
    pub fn with_package(code: String, package: PackageUse) -> (r: Self)
        ensures
            r.code == code,
            r.requirements@ == set![package@],
            r.requirements.wf(),
    {
        let ghost used = package@;
        let mut result = Self::new(code);
        result.requirements.require(package);
        assert(result.requirements@ =~= set![used]);
        result
    }

    /// Adds the packages `other` needs.
    pub fn merge(&mut self, other: &GoType)
        requires
            old(self).requirements.wf(),
        ensures
            final(self).code == old(self).code,
            final(self).requirements@ == old(self).requirements@.union(other.requirements@),
            final(self).requirements.wf(),
    {
        self.requirements.extend(&other.requirements);
    }

    /// Adds the packages every one of `others` needs.
    pub fn merge_all(&mut self, others: &[GoType])
        requires
            old(self).requirements.wf(),
        ensures
            final(self).code == old(self).code,
            final(self).requirements@ == old(self).requirements@.union(needed_by(others@)),
            final(self).requirements.wf(),
    {
        let mut i: usize = 0;
        while i < others.len()
            invariant
                i <= others@.len(),
                self.code == old(self).code,
                self.requirements.wf(),
                self.requirements@ == old(self).requirements@.union(needed_by(others@.take(i as int))),
            decreases others.len() - i,
        {
            self.merge(&others[i]);
            assert(others@.take(i + 1).drop_last() =~= others@.take(i as int));
            assert(self.requirements@ =~= old(self).requirements@.union(needed_by(others@.take(i + 1))));
            i = i + 1;
        }
        assert(others@.take(i as int) =~= others@);
    }

    /// A type whose text refers to the given types.
    pub fn with_dependencies(code: String, dependencies: &[GoType]) -> (r: Self)
        ensures
            r.code == code,
            r.requirements@ == needed_by(dependencies@),
            r.requirements.wf(),
    {
        let mut result = Self::new(code);
        result.merge_all(dependencies);
        assert(result.requirements@ =~= needed_by(dependencies@));
        result
    }

    pub fn requirements(&self) -> (r: &PackageRequirements)
        ensures
            r == &self.requirements,
    {
        &self.requirements
    }
}

/// The packages a list of types needs together.
pub open spec fn needed_by(types: Seq<GoType>) -> Set<(Seq<char>, Seq<char>)>
    decreases types.len(),
{
    if types.len() == 0 {
        Set::empty()
    } else {
        needed_by(types.drop_last()).union(types.last().requirements@)
    }
}

/// A type applied to type parameters.
pub fn build_param_typed(code: String, param_types: &[GoType]) -> (r: GoType)
    ensures
        r.code == code,
        r.requirements@ == needed_by(param_types@),
        r.requirements.wf(),
{
    GoType::with_dependencies(code, param_types)
}

/// A type of an imported Go package applied to type parameters.
pub fn build_go_import_typed(code: String, package: PackageUse, param_types: &[GoType]) -> (r: GoType)
    ensures
        r.code == code,
        r.requirements@ == set![package@].union(needed_by(param_types@)),
        r.requirements.wf(),
{
    let mut result = GoType::with_package(code, package);
    result.merge_all(param_types);
    result
}

/// The state of a scan for top-level commas: the entries found, the entry
/// being read, and the angle-bracket depth.
pub open spec fn comma_scan(s: Seq<char>) -> (Seq<Seq<char>>, Seq<char>, int)
    decreases s.len(),
{
    if s.len() == 0 {
        (Seq::empty(), Seq::empty(), 0)
    } else {
        let (entries, current, depth) = comma_scan(s.drop_last());
        let c = s.last();
        if c == '<' {
            (entries, current.push(c), depth + 1)
        } else if c == '>' {
            (entries, current.push(c), depth - 1)
        } else if c == ',' && depth == 0 {
            (entries.push(current), Seq::empty(), depth)
        } else {
            (entries, current.push(c), depth)
        }
    }
}

/// The entries of a recipe split on commas outside angle brackets.
pub open spec fn top_level_entries(s: Seq<char>) -> Seq<Seq<char>> {
    comma_scan(s).0.push(comma_scan(s).1)
}

proof fn lemma_comma_depth(s: Seq<char>)
    ensures
        -(s.len() as int) <= comma_scan(s).2 <= s.len(),
    decreases s.len(),
{
    if s.len() > 0 {
        lemma_comma_depth(s.drop_last());
    }
}

/// Splits a recipe like `Map<K, V>, K, V` on commas outside angle brackets,
/// so a nested `Map<K, V>` stays one entry.
pub fn split_top_level_commas(recipe: &str) -> (r: Vec<&str>)
    requires
        recipe@.len() <= i32::MAX,
    ensures
        r@.map_values(|e: &str| e@) == top_level_entries(recipe@),
{
    let n = recipe.unicode_len();
    let mut entries: Vec<&str> = Vec::new();
    let mut depth: i32 = 0;
    let mut start: usize = 0;
    let mut i: usize = 0;
    while i < n
        invariant
            n == recipe@.len(),
            n <= i32::MAX,
            start <= i <= n,
            entries@.map_values(|e: &str| e@) == comma_scan(recipe@.take(i as int)).0,
            recipe@.subrange(start as int, i as int) == comma_scan(recipe@.take(i as int)).1,
            depth as int == comma_scan(recipe@.take(i as int)).2,
        decreases n - i,
    {
        proof {
            lemma_comma_depth(recipe@.take(i as int));
            assert(recipe@.take(i + 1).drop_last() =~= recipe@.take(i as int));
            assert(recipe@.take(i + 1).last() == recipe@[i as int]);
        }
        let c = recipe.get_char(i);
        if c == '<' {
            depth = depth + 1;
            assert(recipe@.subrange(start as int, i + 1) =~= recipe@.subrange(start as int, i as int).push(c));
        } else if c == '>' {
            depth = depth - 1;
            assert(recipe@.subrange(start as int, i + 1) =~= recipe@.subrange(start as int, i as int).push(c));
        } else if c == ',' && depth == 0 {
            let ghost before = entries@;
            let entry = recipe.substring_char(start, i);
            entries.push(entry);
            assert(entries@.map_values(|e: &str| e@) =~= before.map_values(|e: &str| e@).push(entry@));
            start = i + 1;
            assert(recipe@.subrange(start as int, i + 1) =~= Seq::<char>::empty());
        } else {
            assert(recipe@.subrange(start as int, i + 1) =~= recipe@.subrange(start as int, i as int).push(c));
        }
        i = i + 1;
    }
    assert(recipe@.take(n as int) =~= recipe@);
    let ghost before = entries@;
    let last = recipe.substring_char(start, n);
    entries.push(last);
    assert(entries@.map_values(|e: &str| e@) =~= before.map_values(|e: &str| e@).push(last@));
    entries
}

/// Splitting a recipe loses nothing: its entries joined with commas give
/// the recipe back.
pub proof fn law_split_rejoins(s: Seq<char>)
    ensures
        seq_join(top_level_entries(s), ","@) == s,
    decreases s.len(),
{
    reveal_strlit(",");
    if s.len() == 0 {
        assert(top_level_entries(s) =~= seq![Seq::<char>::empty()]);
    } else {
        let prev = s.drop_last();
        law_split_rejoins(prev);
        let (entries, current, depth) = comma_scan(prev);
        let c = s.last();
        let all = entries.push(current);
        if c == ',' && depth == 0 {
            let next = entries.push(current).push(Seq::empty());
            assert(top_level_entries(s) == next);
            assert(next.drop_last() =~= all);
            assert(seq_join(next, ","@) =~= s);
        } else {
            let next = entries.push(current.push(c));
            assert(top_level_entries(s) == next);
            if entries.len() == 0 {
                assert(all =~= seq![current]);
                assert(next =~= seq![current.push(c)]);
                assert(seq_join(next, ","@) =~= s);
            } else {
                assert(next.drop_last() =~= entries);
                assert(all.drop_last() =~= entries);
                assert(seq_join(all, ","@) == seq_join(entries, ","@) + ","@ + current);
                assert(seq_join(next, ","@) == seq_join(entries, ","@) + ","@ + current.push(c));
                assert(s =~= prev.push(c));
                assert(seq_join(next, ","@) =~= s);
            }
        }
    }
}

} // verus!
