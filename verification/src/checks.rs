//! Access paths into a match subject, the checks a pattern imposes on it,
//! and their rendering as Go conditions.

use vstd::prelude::*;
use crate::text::{push_char, push_decimal, decimal, seq_join, views_of, join, str_eq};
use crate::go_type::{render_conversion, conversion_text};

verus! {

/// One step from a value to a part of it.
pub enum PathSegment {
    /// `.FieldName` (Go name, already resolved).
    Field(String),
    Index(usize),
    /// `[offset:]`.
    SliceFrom(usize),
    /// `GoType(expression[offset:])`.
    ArraySliceFrom { offset: usize, go_type: String },
    /// `(*expression)`: auto-pointer deref for recursive enum fields.
    Deref,
    /// `GoType(expression)`: newtype cast to the underlying Go type.
    NewtypeCast(String),
    /// `expression.(GoType)`: Go interface type assertion.
    AssertedAs(String),
}

/// The mathematical form of a [`PathSegment`].
pub enum SegmentV {
    Field(Seq<char>),
    Index(usize),
    SliceFrom(usize),
    ArraySliceFrom { offset: usize, go_type: Seq<char> },
    Deref,
    NewtypeCast(Seq<char>),
    AssertedAs(Seq<char>),
}

impl View for PathSegment {
    type V = SegmentV;

    open spec fn view(&self) -> SegmentV {
        match self {
            PathSegment::Field(name) => SegmentV::Field(name@),
            PathSegment::Index(i) => SegmentV::Index(*i),
            PathSegment::SliceFrom(i) => SegmentV::SliceFrom(*i),
            PathSegment::ArraySliceFrom { offset, go_type } => SegmentV::ArraySliceFrom {
                offset: *offset,
                go_type: go_type@,
            },
            PathSegment::Deref => SegmentV::Deref,
            PathSegment::NewtypeCast(t) => SegmentV::NewtypeCast(t@),
            PathSegment::AssertedAs(t) => SegmentV::AssertedAs(t@),
        }
    }
}

impl PathSegment {
    pub fn duplicate(&self) -> (r: PathSegment)
        ensures
            r@ == self@,
    {
        match self {
            PathSegment::Field(name) => PathSegment::Field(name.clone()),
            PathSegment::Index(i) => PathSegment::Index(*i),
            PathSegment::SliceFrom(i) => PathSegment::SliceFrom(*i),
            PathSegment::ArraySliceFrom { offset, go_type } => PathSegment::ArraySliceFrom {
                offset: *offset,
                go_type: go_type.clone(),
            },
            PathSegment::Deref => PathSegment::Deref,
            PathSegment::NewtypeCast(t) => PathSegment::NewtypeCast(t.clone()),
            PathSegment::AssertedAs(t) => PathSegment::AssertedAs(t.clone()),
        }
    }
}

/// A path from the match subject to the value a check or binding reads.
pub struct AccessPath {
    pub segments: Vec<PathSegment>,
}

pub open spec fn segments_view(s: Seq<PathSegment>) -> Seq<SegmentV> {
    s.map_values(|seg: PathSegment| seg@)
}

pub proof fn lemma_segments_push(s: Seq<PathSegment>, x: PathSegment)
    ensures
        segments_view(s.push(x)) == segments_view(s).push(x@),
{
    assert(segments_view(s.push(x)) =~= segments_view(s).push(x@)) by {
        assert forall|j: int| 0 <= j < s.len() + 1 implies #[trigger] segments_view(s.push(x))[j]
            == segments_view(s).push(x@)[j] by {
            if j < s.len() {
                assert(s.push(x)[j] == s[j]);
            }
        }
    }
}

impl View for AccessPath {
    type V = Seq<SegmentV>;

    open spec fn view(&self) -> Seq<SegmentV> {
        segments_view(self.segments@)
    }
}

/// The match subject that paths start from: one variable, or one variable per
/// tuple element when the match never builds its tuple. `fields` are the
/// tuple field names, in element order, that paths use for those elements.
pub enum SubjectRoot<'a> {
    Var(&'a str),
    Elements { names: &'a [String], fields: &'a [String] },
}

/// The mathematical form of a [`SubjectRoot`].
pub enum SubjectV {
    Var(Seq<char>),
    Elements { names: Seq<Seq<char>>, fields: Seq<Seq<char>> },
}

impl<'a> View for SubjectRoot<'a> {
    type V = SubjectV;

    open spec fn view(&self) -> SubjectV {
        match self {
            SubjectRoot::Var(v) => SubjectV::Var(v@),
            SubjectRoot::Elements { names, fields } => SubjectV::Elements {
                names: views_of(names@),
                fields: views_of(fields@),
            },
        }
    }
}

/// The index of the first occurrence of `x` in `s`, or -1.
pub open spec fn position(s: Seq<Seq<char>>, x: Seq<char>) -> int
    decreases s.len(),
{
    if s.len() == 0 {
        -1
    } else if s[0] == x {
        0
    } else {
        let p = position(s.drop_first(), x);
        if p < 0 { -1 } else { p + 1 }
    }
}

pub proof fn lemma_position(s: Seq<Seq<char>>, x: Seq<char>, i: int)
    requires
        0 <= i <= s.len(),
        forall|j: int| 0 <= j < i ==> s[j] != x,
    ensures
        i < s.len() && s[i] == x ==> position(s, x) == i,
        i == s.len() ==> position(s, x) == -1,
    decreases s.len(),
{
    if s.len() > 0 && i > 0 {
        lemma_position(s.drop_first(), x, i - 1);
    }
}

pub proof fn lemma_position_range(s: Seq<Seq<char>>, x: Seq<char>)
    ensures
        -1 <= position(s, x) < s.len(),
        position(s, x) >= 0 ==> s[position(s, x)] == x,
    decreases s.len(),
{
    if s.len() > 0 {
        lemma_position_range(s.drop_first(), x);
    }
}

/// The first index of `x` in `s`.
pub fn find_string(s: &[String], x: &str) -> (r: Option<usize>)
    ensures
        match r {
            Some(i) => i as int == position(views_of(s@), x@) && i < s@.len(),
            None => position(views_of(s@), x@) == -1,
        },
{
    let mut i: usize = 0;
    while i < s.len()
        invariant
            i <= s@.len(),
            forall|j: int| 0 <= j < i ==> views_of(s@)[j] != x@,
        decreases s.len() - i,
    {
        if str_eq(s[i].as_str(), x) {
            proof { lemma_position(views_of(s@), x@, i as int); }
            return Some(i);
        }
        i = i + 1;
    }
    proof { lemma_position(views_of(s@), x@, i as int); }
    None
}

/// Whether `subject` can resolve a path: a per-element subject needs the
/// path to start at one of its tuple fields.
pub open spec fn resolvable(subject: SubjectV, path: Seq<SegmentV>) -> bool {
    match subject {
        SubjectV::Var(_) => true,
        SubjectV::Elements { names, fields } => {
            &&& path.len() > 0
            &&& path[0] matches SegmentV::Field(f)
            &&& 0 <= position(fields, f) < names.len()
        },
    }
}

/// The variable a path starts from.
pub open spec fn subject_base(subject: SubjectV, path: Seq<SegmentV>) -> Seq<char> {
    match subject {
        SubjectV::Var(v) => v,
        SubjectV::Elements { names, fields } => match path[0] {
            SegmentV::Field(f) => names[position(fields, f)],
            _ => Seq::empty(),
        },
    }
}

/// How many leading segments the subject itself consumes.
pub open spec fn subject_skip(subject: SubjectV) -> int {
    match subject {
        SubjectV::Var(_) => 0,
        SubjectV::Elements { .. } => 1,
    }
}

/// `acc` extended by one segment; `is_last` tells a trailing dereference.
pub open spec fn apply_segment(acc: Seq<char>, seg: SegmentV, is_last: bool) -> Seq<char> {
    match seg {
        SegmentV::Field(name) => acc + seq!['.'] + name,
        SegmentV::Index(i) => acc + seq!['['] + decimal(i as nat) + seq![']'],
        SegmentV::SliceFrom(i) => acc + seq!['['] + decimal(i as nat) + seq![':', ']'],
        SegmentV::ArraySliceFrom { offset, go_type } => conversion_text(
            go_type,
            acc + seq!['['] + decimal(offset as nat) + seq![':', ']'],
        ),
        SegmentV::Deref => if is_last {
            seq!['*'] + acc
        } else {
            seq!['(', '*'] + acc + seq![')']
        },
        SegmentV::NewtypeCast(t) => conversion_text(t, acc),
        SegmentV::AssertedAs(t) => acc + seq!['.', '('] + t + seq![')'],
    }
}

/// `base` followed by the first `k` segments of `segs`.
pub open spec fn render_segments(base: Seq<char>, segs: Seq<SegmentV>, k: int) -> Seq<char>
    decreases k,
{
    if k <= 0 {
        base
    } else {
        apply_segment(render_segments(base, segs, k - 1), segs[k - 1], k - 1 == segs.len() - 1)
    }
}

/// The Go expression that reads `path` from `subject`.
pub open spec fn path_text(subject: SubjectV, path: Seq<SegmentV>) -> Seq<char> {
    let rest = path.skip(subject_skip(subject));
    render_segments(subject_base(subject, path), rest, rest.len() as int)
}

/// `path_text`, parenthesized when it ends in a dereference.
pub open spec fn composable_path_text(subject: SubjectV, path: Seq<SegmentV>) -> Seq<char> {
    if path.len() > 0 && path.last() is Deref {
        seq!['('] + path_text(subject, path) + seq![')']
    } else {
        path_text(subject, path)
    }
}

/// Whether reading the path evaluates more than plain selections.
pub open spec fn defers_evaluation(seg: SegmentV) -> bool {
    seg is ArraySliceFrom || seg is Deref || seg is NewtypeCast || seg is AssertedAs
}

impl<'a> SubjectRoot<'a> {
    /// The variable the path starts from and how many segments that consumed.
    pub fn resolve(&self, segments: &Vec<PathSegment>) -> (r: (String, usize))
        requires
            resolvable(self@, segments_view(segments@)),
        ensures
            r.0@ == subject_base(self@, segments_view(segments@)),
            r.1 as int == subject_skip(self@),
    {
        match self {
            SubjectRoot::Var(var) => (crate::text::owned(var), 0),
            SubjectRoot::Elements { names, fields } => {
                let ghost path = segments_view(segments@);
                assert(path[0] == segments@[0]@);
                match &segments[0] {
                    PathSegment::Field(field) => {
                        let k = find_string(fields, field.as_str());
                        match k {
                            Some(k) => {
                                assert(views_of(names@)[k as int] == names@[k as int]@);
                                (names[k].clone(), 1)
                            },
                            None => {
                                assert(false);
                                (String::new(), 1)
                            },
                        }
                    },
                    _ => {
                        assert(false);
                        (String::new(), 1)
                    },
                }
            },
        }
    }

    /// The variable names this subject binds.
    pub fn names(&self) -> (r: Vec<String>)
        ensures
            views_of(r@) == match self@ {
                SubjectV::Var(v) => seq![v],
                SubjectV::Elements { names, .. } => names,
            },
    {
        match self {
            SubjectRoot::Var(var) => {
                let mut r = Vec::new();
                r.push(crate::text::owned(var));
                assert(views_of(r@) =~= seq![var@]);
                r
            },
            SubjectRoot::Elements { names, .. } => {
                let mut r: Vec<String> = Vec::new();
                let mut i: usize = 0;
                while i < names.len()
                    invariant
                        i <= names@.len(),
                        views_of(r@) == views_of(names@).take(i as int),
                    decreases names.len() - i,
                {
                    let c = names[i].clone();
                    assert(c@ == names@[i as int]@);
                    proof { crate::text::lemma_views_push(r@, c); }
                    r.push(c);
                    assert(views_of(r@) =~= views_of(names@).take(i + 1));
                    i = i + 1;
                }
                assert(views_of(names@).take(i as int) =~= views_of(names@));
                r
            },
        }
    }
}

impl AccessPath {
    /// The path to the subject itself.
    pub fn root() -> (r: AccessPath)
        ensures
            r@ == Seq::<SegmentV>::empty(),
    {
        let r = AccessPath { segments: Vec::new() };
        assert(r@ =~= Seq::<SegmentV>::empty());
        r
    }

    pub fn is_root(&self) -> (r: bool)
        ensures
            r == (self@.len() == 0),
    {
        self.segments.len() == 0
    }

    pub fn duplicate(&self) -> (r: AccessPath)
        ensures
            r@ == self@,
    {
        let mut segments: Vec<PathSegment> = Vec::new();
        let mut i: usize = 0;
        while i < self.segments.len()
            invariant
                i <= self.segments@.len(),
                segments_view(segments@) == self@.take(i as int),
            decreases self.segments.len() - i,
        {
            let seg = self.segments[i].duplicate();
            proof { lemma_segments_push(segments@, seg); }
            segments.push(seg);
            assert(segments_view(segments@) =~= self@.take(i + 1));
            i = i + 1;
        }
        assert(self@.take(i as int) =~= self@);
        AccessPath { segments }
    }

    /// This path extended by one segment.
    pub fn push(&self, seg: PathSegment) -> (r: AccessPath)
        ensures
            r@ == self@.push(seg@),
    {
        let mut new = self.duplicate();
        new.segments.push(seg);
        assert(new@ =~= self@.push(seg@));
        new
    }

    /// Renders the Go expression reading this path from `subject`.
    pub fn render(&self, subject: &SubjectRoot) -> (r: String)
        requires
            resolvable(subject@, self@),
        ensures
            r@ == path_text(subject@, self@),
    {
        let (mut result, start) = subject.resolve(&self.segments);
        let ghost rest = self@.skip(start as int);
        let n = self.segments.len();
        assert(start <= n);
        let last: usize = if n - start >= 1 { n - start - 1 } else { 0 };
        let mut i: usize = start;
        while i < n
            invariant
                start <= i <= n,
                n == self.segments@.len(),
                rest == self@.skip(start as int),
                last == (if n - start >= 1 { n - start - 1 } else { 0 }),
                result@ == render_segments(subject_base(subject@, self@), rest, i - start),
            decreases n - i,
        {
            let ghost acc = result@;
            assert(rest[i - start] == self.segments@[i as int]@);
            match &self.segments[i] {
                PathSegment::Field(name) => {
                    push_char(&mut result, '.');
                    result.append(name.as_str());
                },
                PathSegment::Index(index) => {
                    push_char(&mut result, '[');
                    push_decimal(&mut result, *index);
                    push_char(&mut result, ']');
                },
                PathSegment::SliceFrom(offset) => {
                    push_char(&mut result, '[');
                    push_decimal(&mut result, *offset);
                    push_char(&mut result, ':');
                    push_char(&mut result, ']');
                },
                PathSegment::ArraySliceFrom { offset, go_type } => {
                    push_char(&mut result, '[');
                    push_decimal(&mut result, *offset);
                    push_char(&mut result, ':');
                    push_char(&mut result, ']');
                    result = render_conversion(go_type.as_str(), result.as_str());
                },
                PathSegment::Deref => {
                    let mut wrapped = String::new();
                    if i - start == last {
                        push_char(&mut wrapped, '*');
                        wrapped.append(result.as_str());
                    } else {
                        push_char(&mut wrapped, '(');
                        push_char(&mut wrapped, '*');
                        wrapped.append(result.as_str());
                        push_char(&mut wrapped, ')');
                    }
                    result = wrapped;
                },
                PathSegment::NewtypeCast(go_type) => {
                    result = render_conversion(go_type.as_str(), result.as_str());
                },
                PathSegment::AssertedAs(ty) => {
                    push_char(&mut result, '.');
                    push_char(&mut result, '(');
                    result.append(ty.as_str());
                    push_char(&mut result, ')');
                },
            }
            assert(result@ =~= apply_segment(acc, rest[i - start], i - start == rest.len() - 1));
            i = i + 1;
        }
        result
    }

    /// Like `render`, but a trailing dereference is parenthesized so the result
    /// is safe as a selector receiver, index target, or call callee.
    pub fn render_composable(&self, subject: &SubjectRoot) -> (r: String)
        requires
            resolvable(subject@, self@),
        ensures
            r@ == composable_path_text(subject@, self@),
    {
        let rendered = self.render(subject);
        let n = self.segments.len();
        if n > 0 && matches!(self.segments[n - 1], PathSegment::Deref) {
            let mut r = String::new();
            push_char(&mut r, '(');
            r.append(rendered.as_str());
            push_char(&mut r, ')');
            assert(r@ =~= composable_path_text(subject@, self@));
            r
        } else {
            rendered
        }
    }

    /// Whether reading this path does more than select fields and indexes.
    pub fn contains_deferred_evaluation(&self) -> (r: bool)
        ensures
            r == exists|i: int| 0 <= i < self@.len() && defers_evaluation(#[trigger] self@[i]),
    {
        let mut i: usize = 0;
        while i < self.segments.len()
            invariant
                i <= self.segments@.len(),
                forall|j: int| 0 <= j < i ==> !defers_evaluation(#[trigger] self@[j]),
            decreases self.segments.len() - i,
        {
            assert(self@[i as int] == self.segments@[i as int]@);
            match &self.segments[i] {
                PathSegment::ArraySliceFrom { .. }
                | PathSegment::Deref
                | PathSegment::NewtypeCast(_)
                | PathSegment::AssertedAs(_) => {
                    return true;
                },
                _ => {},
            }
            i = i + 1;
        }
        false
    }
}


/// A test a pattern imposes on the value at a path.
pub enum Check {
    EnumTag { path: AccessPath, tag_constant: String },
    Literal { path: AccessPath, go_literal: String },
    SliceLenEq { path: AccessPath, length: usize },
    SliceLenGe { path: AccessPath, min_length: usize },
    /// At least one alternative's inner checks must all pass.
    Or { alternatives: Vec<Vec<Check>> },
    /// Go interface type assertion.
    TypeAssert { path: AccessPath, go_type: String },
}

/// The mathematical form of a [`Check`].
pub enum CheckV {
    EnumTag { path: Seq<SegmentV>, tag_constant: Seq<char> },
    Literal { path: Seq<SegmentV>, go_literal: Seq<char> },
    SliceLenEq { path: Seq<SegmentV>, length: usize },
    SliceLenGe { path: Seq<SegmentV>, min_length: usize },
    Or { alternatives: Seq<Seq<CheckV>> },
    TypeAssert { path: Seq<SegmentV>, go_type: Seq<char> },
}

/// The mathematical form of a check.
pub open spec fn check_view(c: Check) -> CheckV
    decreases c,
{
    match c {
        Check::EnumTag { path, tag_constant } => CheckV::EnumTag {
            path: path@,
            tag_constant: tag_constant@,
        },
        Check::Literal { path, go_literal } => CheckV::Literal {
            path: path@,
            go_literal: go_literal@,
        },
        Check::SliceLenEq { path, length } => CheckV::SliceLenEq { path: path@, length },
        Check::SliceLenGe { path, min_length } => CheckV::SliceLenGe { path: path@, min_length },
        Check::Or { alternatives } => CheckV::Or {
            alternatives: Seq::new(
                alternatives@.len(),
                |i: int|
                    {
                        let alt = alternatives@[i];
                        Seq::new(
                            alt@.len(),
                            |j: int|
                                {
                                    if 0 <= i < alternatives@.len() && 0 <= j < alt@.len() {
                                        proof {
                                            broadcast use vstd::std_specs::vec::axiom_vec_decreases_to_view;

                                            assert(decreases_to!(alternatives => alternatives@));
                                            assert(decreases_to!(alternatives@ => alternatives@[i]));
                                            assert(decreases_to!(alt => alt@));
                                            assert(decreases_to!(alt@ => alt@[j]));
                                        }
                                        check_view(alt@[j])
                                    } else {
                                        CheckV::placeholder()
                                    }
                                },
                        )
                    },
            ),
        },
        Check::TypeAssert { path, go_type } => CheckV::TypeAssert { path: path@, go_type: go_type@ },
    }
}

impl View for Check {
    type V = CheckV;

    open spec fn view(&self) -> CheckV {
        check_view(*self)
    }
}

impl CheckV {
    /// A value standing where no element exists.
    pub open spec fn placeholder() -> CheckV {
        CheckV::Or { alternatives: Seq::empty() }
    }
}

/// The views of a vector of checks.
pub open spec fn checks_view(v: Seq<Check>) -> Seq<CheckV> {
    v.map_values(|c: Check| c@)
}

pub proof fn lemma_checks_push(s: Seq<Check>, x: Check)
    ensures
        checks_view(s.push(x)) == checks_view(s).push(x@),
{
    assert(checks_view(s.push(x)) =~= checks_view(s).push(x@)) by {
        assert forall|j: int| 0 <= j < s.len() + 1 implies #[trigger] checks_view(s.push(x))[j]
            == checks_view(s).push(x@)[j] by {
            if j < s.len() {
                assert(s.push(x)[j] == s[j]);
            }
        }
    }
}

/// The alternatives of an or-check, viewed.
pub open spec fn alternatives_view(alternatives: Seq<Vec<Check>>) -> Seq<Seq<CheckV>> {
    alternatives.map_values(|alt: Vec<Check>| checks_view(alt@))
}

pub proof fn lemma_or_view_lens(c: Check)
    requires
        c is Or,
    ensures
        c@ matches CheckV::Or { alternatives: alts } && alts == alternatives_view(
            c->Or_alternatives@,
        ),
{
    let alternatives = c->Or_alternatives;
    let alts = c@->Or_alternatives;
    assert(alts.len() == alternatives@.len());
    assert forall|i: int| 0 <= i < alts.len() implies #[trigger] alts[i]
        == alternatives_view(alternatives@)[i] by {
        let alt = alternatives@[i];
        assert(alts[i].len() == alt@.len());
        assert(alts[i] =~= checks_view(alternatives@[i]@));
    }
    assert(alts =~= alternatives_view(alternatives@));
}

/// The path a check reads, if it reads a single one.
pub open spec fn check_path(c: CheckV) -> Option<Seq<SegmentV>> {
    match c {
        CheckV::EnumTag { path, .. } => Some(path),
        CheckV::Literal { path, .. } => Some(path),
        CheckV::SliceLenEq { path, .. } => Some(path),
        CheckV::SliceLenGe { path, .. } => Some(path),
        CheckV::TypeAssert { path, .. } => Some(path),
        CheckV::Or { .. } => None,
    }
}

/// Whether every path inside `c` can be resolved from `subject`.
pub open spec fn check_resolvable(subject: SubjectV, c: CheckV) -> bool
    decreases c,
{
    match c {
        CheckV::Or { alternatives } => forall|i: int, j: int|
            0 <= i < alternatives.len() && 0 <= j < alternatives[i].len() ==> {
                proof {
                    assert(decreases_to!(alternatives => alternatives[i]));
                    assert(decreases_to!(alternatives[i] => alternatives[i][j]));
                }
                check_resolvable(subject, #[trigger] alternatives[i][j])
            },
        _ => resolvable(subject, check_path(c).unwrap()),
    }
}

pub open spec fn checks_resolvable(subject: SubjectV, checks: Seq<CheckV>) -> bool {
    forall|i: int| 0 <= i < checks.len() ==> check_resolvable(subject, #[trigger] checks[i])
}

pub proof fn lemma_or_member(subject: SubjectV, c: CheckV, i: int, j: int)
    requires
        c matches CheckV::Or { alternatives } && 0 <= i < alternatives.len() && 0 <= j
            < alternatives[i].len(),
    ensures
        check_resolvable(subject, c) ==> check_resolvable(subject, c->Or_alternatives[i][j]),
        decreases_to!(c => c->Or_alternatives[i][j]),
{
    let alternatives = c->Or_alternatives;
    assert(decreases_to!(c => alternatives));
    assert(decreases_to!(alternatives => alternatives[i]));
    assert(decreases_to!(alternatives[i] => alternatives[i][j]));
    if check_resolvable(subject, c) {
        assert(check_resolvable(subject, alternatives[i][j]));
    }
}

/// The Go condition `c` renders to (`negative`: its negation).
pub open spec fn check_text(subject: SubjectV, c: CheckV, negative: bool) -> Seq<char>
    decreases c, if negative { 1int } else { 0int },
{
    match c {
        CheckV::EnumTag { path, tag_constant } => path_text(subject, path) + if negative {
            ".Tag != "@
        } else {
            ".Tag == "@
        } + tag_constant,
        CheckV::Literal { path, go_literal } => {
            let p = path_text(subject, path);
            if (go_literal == "true"@ && !negative) || (go_literal == "false"@ && negative) {
                p
            } else if go_literal == "true"@ || go_literal == "false"@ {
                seq!['!'] + p
            } else if !negative {
                p + " == "@ + go_literal
            } else {
                p + " != "@ + go_literal
            }
        },
        CheckV::SliceLenEq { path, length } => "len("@ + path_text(subject, path) + if negative {
            ") != "@
        } else {
            ") == "@
        } + decimal(length as nat),
        CheckV::SliceLenGe { path, min_length } => "len("@ + path_text(subject, path)
            + if negative {
            ") < "@
        } else {
            ") >= "@
        } + decimal(min_length as nat),
        CheckV::Or { alternatives } => if negative {
            "!("@ + check_text(subject, c, false) + seq![')']
        } else {
            let alts = alternatives_text(subject, alternatives);
            let joined = seq_join(alts, " || "@);
            if alts.len() > 1 {
                seq!['('] + joined + seq![')']
            } else {
                joined
            }
        },
        CheckV::TypeAssert { path, go_type } => if negative {
            "!("@ + check_text(subject, c, false) + seq![')']
        } else {
            "func() bool { _, ok := "@ + path_text(subject, path) + seq!['.', '('] + go_type
                + "); return ok }()"@
        },
    }
}

/// The text of each alternative of an or-check.
pub open spec fn alternatives_text(subject: SubjectV, alternatives: Seq<Seq<CheckV>>) -> Seq<
    Seq<char>,
>
    decreases alternatives, 1int,
{
    Seq::new(
        alternatives.len(),
        |i: int|
            {
                if 0 <= i < alternatives.len() {
                    proof {
                        assert(decreases_to!(alternatives => alternatives[i]));
                    }
                    alternative_text(subject, alternatives[i])
                } else {
                    Seq::empty()
                }
            },
    )
}

/// One alternative of an or-check: its checks joined with `&&`.
pub open spec fn alternative_text(subject: SubjectV, checks: Seq<CheckV>) -> Seq<char>
    decreases checks, 1int,
{
    if checks.len() == 1 {
        check_text(subject, checks[0], false)
    } else {
        seq!['('] + seq_join(check_texts(subject, checks), " && "@) + seq![')']
    }
}

/// The positive text of each check.
pub open spec fn check_texts(subject: SubjectV, checks: Seq<CheckV>) -> Seq<Seq<char>>
    decreases checks, 0int,
{
    Seq::new(
        checks.len(),
        |j: int|
            {
                if 0 <= j < checks.len() {
                    proof {
                        assert(decreases_to!(checks => checks[j]));
                    }
                    check_text(subject, checks[j], false)
                } else {
                    Seq::empty()
                }
            },
    )
}

/// Checks joined with `&&`, or `true` when there are none.
pub open spec fn condition_text(subject: SubjectV, checks: Seq<CheckV>) -> Seq<char> {
    if checks.len() == 0 {
        "true"@
    } else {
        seq_join(check_texts(subject, checks), " && "@)
    }
}


/// Which way a check renders.
#[derive(Clone, Copy, PartialEq, Eq)]
pub enum CheckPolarity {
    Positive,
    Negative,
}

fn literal_path_text(rendered_path: String, go_literal: &str, negative: bool) -> (r: String)
    ensures
        r@ == (if (go_literal@ == "true"@ && !negative) || (go_literal@ == "false"@ && negative) {
            rendered_path@
        } else if go_literal@ == "true"@ || go_literal@ == "false"@ {
            seq!['!'] + rendered_path@
        } else if !negative {
            rendered_path@ + " == "@ + go_literal@
        } else {
            rendered_path@ + " != "@ + go_literal@
        }),
{
    let is_true = str_eq(go_literal, "true");
    let is_false = str_eq(go_literal, "false");
    if (is_true && !negative) || (is_false && negative) {
        rendered_path
    } else if is_true || is_false {
        let mut r = String::new();
        push_char(&mut r, '!');
        r.append(rendered_path.as_str());
        assert(r@ =~= seq!['!'] + rendered_path@);
        r
    } else {
        let mut r = rendered_path;
        if !negative {
            r.append(" == ");
        } else {
            r.append(" != ");
        }
        r.append(go_literal);
        r
    }
}

impl Check {
    pub fn render(&self, subject: &SubjectRoot) -> (r: String)
        requires
            check_resolvable(subject@, self@),
        ensures
            r@ == check_text(subject@, self@, false),
    {
        self.render_with_polarity(subject, CheckPolarity::Positive)
    }

    pub fn render_negated(&self, subject: &SubjectRoot) -> (r: String)
        requires
            check_resolvable(subject@, self@),
        ensures
            r@ == check_text(subject@, self@, true),
    {
        self.render_with_polarity(subject, CheckPolarity::Negative)
    }

    /// Renders the check as a Go condition, or its negation.
    pub fn render_with_polarity(&self, subject: &SubjectRoot, polarity: CheckPolarity) -> (r: String)
        requires
            check_resolvable(subject@, self@),
        ensures
            r@ == check_text(subject@, self@, polarity == CheckPolarity::Negative),
        decreases self@, if polarity == CheckPolarity::Negative { 1int } else { 0int },
    {
        let negative = match polarity {
            CheckPolarity::Negative => true,
            CheckPolarity::Positive => false,
        };
        match self {
            Check::EnumTag { path, tag_constant } => {
                let mut r = path.render(subject);
                if negative {
                    r.append(".Tag != ");
                } else {
                    r.append(".Tag == ");
                }
                r.append(tag_constant.as_str());
                r
            },
            Check::Literal { path, go_literal } => {
                let rendered_path = path.render(subject);
                literal_path_text(rendered_path, go_literal.as_str(), negative)
            },
            Check::SliceLenEq { path, length } => {
                let mut r = String::new();
                r.append("len(");
                let p = path.render(subject);
                r.append(p.as_str());
                if negative {
                    r.append(") != ");
                } else {
                    r.append(") == ");
                }
                push_decimal(&mut r, *length);
                r
            },
            Check::SliceLenGe { path, min_length } => {
                let mut r = String::new();
                r.append("len(");
                let p = path.render(subject);
                r.append(p.as_str());
                if negative {
                    r.append(") < ");
                } else {
                    r.append(") >= ");
                }
                push_decimal(&mut r, *min_length);
                r
            },
            Check::Or { alternatives } => {
                if negative {
                    let inner = self.render_with_polarity(subject, CheckPolarity::Positive);
                    let mut r = String::new();
                    r.append("!(");
                    r.append(inner.as_str());
                    push_char(&mut r, ')');
                    return r;
                }
                proof { lemma_or_view_lens(*self); }
                let ghost alts = self@->Or_alternatives;
                let ghost texts = alternatives_text(subject@, alts);
                let mut alt_strs: Vec<String> = Vec::new();
                let mut i: usize = 0;
                while i < alternatives.len()
                    invariant
                        i <= alternatives@.len(),
                        alts == alternatives_view(alternatives@),
                        self@ == (CheckV::Or { alternatives: alts }),
                        check_resolvable(subject@, self@),
                        texts == alternatives_text(subject@, alts),
                        views_of(alt_strs@) == texts.take(i as int),
                    decreases alternatives.len() - i,
                {
                    let checks = &alternatives[i];
                    assert(alts[i as int] == checks_view(checks@));
                    let text = if checks.len() == 1 {
                        assert(checks_view(checks@)[0] == checks@[0]@);
                        proof { lemma_or_member(subject@, self@, i as int, 0); }
                        checks[0].render_with_polarity(subject, CheckPolarity::Positive)
                    } else {
                        let mut parts: Vec<String> = Vec::new();
                        let ghost inner = check_texts(subject@, alts[i as int]);
                        let mut j: usize = 0;
                        while j < checks.len()
                            invariant
                                j <= checks@.len(),
                                i < alternatives@.len(),
                                checks == &alternatives[i as int],
                                alts == alternatives_view(alternatives@),
                                alts[i as int] == checks_view(checks@),
                                self@ == (CheckV::Or { alternatives: alts }),
                                check_resolvable(subject@, self@),
                                inner == check_texts(subject@, alts[i as int]),
                                views_of(parts@) == inner.take(j as int),
                            decreases checks.len() - j,
                        {
                            assert(alts[i as int][j as int] == checks@[j as int]@);
                            proof { lemma_or_member(subject@, self@, i as int, j as int); }
                            let part = checks[j].render_with_polarity(subject, CheckPolarity::Positive);
                            proof { crate::text::lemma_views_push(parts@, part); }
                            parts.push(part);
                            assert(views_of(parts@) =~= inner.take(j + 1));
                            j = j + 1;
                        }
                        assert(inner.take(j as int) =~= inner);
                        let joined = join(&parts, " && ");
                        let mut t = String::new();
                        push_char(&mut t, '(');
                        t.append(joined.as_str());
                        push_char(&mut t, ')');
                        assert(t@ =~= alternative_text(subject@, alts[i as int]));
                        t
                    };
                    proof { crate::text::lemma_views_push(alt_strs@, text); }
                    alt_strs.push(text);
                    assert(views_of(alt_strs@) =~= texts.take(i + 1));
                    i = i + 1;
                }
                assert(texts.take(i as int) =~= texts);
                let joined = join(&alt_strs, " || ");
                if alt_strs.len() > 1 {
                    let mut r = String::new();
                    push_char(&mut r, '(');
                    r.append(joined.as_str());
                    push_char(&mut r, ')');
                    r
                } else {
                    joined
                }
            },
            Check::TypeAssert { path, go_type } => {
                if negative {
                    let inner = self.render_with_polarity(subject, CheckPolarity::Positive);
                    let mut r = String::new();
                    r.append("!(");
                    r.append(inner.as_str());
                    push_char(&mut r, ')');
                    return r;
                }
                let mut r = String::new();
                r.append("func() bool { _, ok := ");
                let p = path.render(subject);
                r.append(p.as_str());
                push_char(&mut r, '.');
                push_char(&mut r, '(');
                r.append(go_type.as_str());
                r.append("); return ok }()");
                r
            },
        }
    }
}


pub proof fn lemma_checks_view_index(s: Seq<Check>, i: int)
    requires
        0 <= i < s.len(),
    ensures
        #[trigger] checks_view(s)[i] == s[i]@,
{
}

/// A copy of `checks`.
pub fn duplicate_checks(checks: &Vec<Check>) -> (r: Vec<Check>)
    ensures
        checks_view(r@) == checks_view(checks@),
    decreases checks@, 1int,
{
    let mut r: Vec<Check> = Vec::new();
    let mut i: usize = 0;
    while i < checks.len()
        invariant
            i <= checks@.len(),
            checks_view(r@) == checks_view(checks@).take(i as int),
        decreases checks.len() - i,
    {
        proof {
            assert(decreases_to!(checks@ => checks@[i as int]));
        }
        let c = checks[i].duplicate();
        proof { lemma_checks_push(r@, c); }
        r.push(c);
        assert(checks_view(r@) =~= checks_view(checks@).take(i + 1));
        i = i + 1;
    }
    assert(checks_view(checks@).take(i as int) =~= checks_view(checks@));
    r
}

impl Check {
    /// A copy of this check.
    pub fn duplicate(&self) -> (r: Check)
        ensures
            r@ == self@,
        decreases self, 0int,
    {
        match self {
            Check::EnumTag { path, tag_constant } => Check::EnumTag {
                path: path.duplicate(),
                tag_constant: tag_constant.clone(),
            },
            Check::Literal { path, go_literal } => Check::Literal {
                path: path.duplicate(),
                go_literal: go_literal.clone(),
            },
            Check::SliceLenEq { path, length } => Check::SliceLenEq {
                path: path.duplicate(),
                length: *length,
            },
            Check::SliceLenGe { path, min_length } => Check::SliceLenGe {
                path: path.duplicate(),
                min_length: *min_length,
            },
            Check::Or { alternatives } => {
                let mut alts: Vec<Vec<Check>> = Vec::new();
                let mut i: usize = 0;
                while i < alternatives.len()
                    invariant
                        i <= alternatives@.len(),
                        alts@.len() == i,
                        *self == (Check::Or { alternatives: *alternatives }),
                        alternatives_view(alts@) == alternatives_view(alternatives@).take(i as int),
                    decreases alternatives.len() - i,
                {
                    proof {
                        broadcast use vstd::std_specs::vec::axiom_vec_decreases_to_view;
                        assert(decreases_to!(alternatives => alternatives@));
                        assert(decreases_to!(alternatives@ => alternatives@[i as int]));
                        assert(decreases_to!(alternatives@[i as int] => alternatives@[i as int]@));
                        assert(self->Or_alternatives == *alternatives);
                        assert(decreases_to!(*self => self->Or_alternatives));
                        assert(decreases_to!(*self => alternatives@[i as int]@));
                    }
                    let alt = duplicate_checks(&alternatives[i]);
                    let ghost before = alts@;
                    alts.push(alt);
                    assert(alternatives_view(alts@) =~= alternatives_view(alternatives@).take(i + 1)) by {
                        assert(alts@ == before.push(alt));
                        assert forall|k: int| 0 <= k < i + 1 implies #[trigger] alternatives_view(alts@)[k]
                            == alternatives_view(alternatives@).take(i + 1)[k] by {
                            if k < i {
                                assert(alts@[k] == before[k]);
                            }
                        }
                    }
                    i = i + 1;
                }
                assert(alternatives_view(alternatives@).take(i as int) =~= alternatives_view(alternatives@));
                let r = Check::Or { alternatives: alts };
                proof {
                    lemma_or_view_lens(r);
                    lemma_or_view_lens(*self);
                }
                r
            },
            Check::TypeAssert { path, go_type } => Check::TypeAssert {
                path: path.duplicate(),
                go_type: go_type.clone(),
            },
        }
    }

    /// The path this check reads, if it reads a single one.
    pub fn path(&self) -> (r: Option<&AccessPath>)
        ensures
            match r {
                Some(p) => check_path(self@) == Some(p@),
                None => check_path(self@) is None,
            },
    {
        match self {
            Check::EnumTag { path, .. }
            | Check::Literal { path, .. }
            | Check::SliceLenEq { path, .. }
            | Check::SliceLenGe { path, .. }
            | Check::TypeAssert { path, .. } => Some(path),
            Check::Or { .. } => None,
        }
    }

    pub fn as_enum_tag(&self) -> (r: Option<&str>)
        ensures
            match r {
                Some(t) => self@ matches CheckV::EnumTag { tag_constant, .. } && t@ == tag_constant,
                None => !(self@ is EnumTag),
            },
    {
        match self {
            Check::EnumTag { tag_constant, .. } => Some(tag_constant.as_str()),
            _ => None,
        }
    }

    pub fn as_literal(&self) -> (r: Option<&str>)
        ensures
            match r {
                Some(t) => self@ matches CheckV::Literal { go_literal, .. } && t@ == go_literal,
                None => !(self@ is Literal),
            },
    {
        match self {
            Check::Literal { go_literal, .. } => Some(go_literal.as_str()),
            _ => None,
        }
    }
}

/// The checks joined with ` && `, or `true` when there are none.
pub fn render_condition(checks: &Vec<Check>, subject: &SubjectRoot) -> (r: String)
    requires
        checks_resolvable(subject@, checks_view(checks@)),
    ensures
        r@ == condition_text(subject@, checks_view(checks@)),
{
    if checks.len() == 0 {
        return crate::text::owned("true");
    }
    let ghost texts = check_texts(subject@, checks_view(checks@));
    let mut conditions: Vec<String> = Vec::new();
    let mut i: usize = 0;
    while i < checks.len()
        invariant
            i <= checks@.len(),
            checks_resolvable(subject@, checks_view(checks@)),
            texts == check_texts(subject@, checks_view(checks@)),
            views_of(conditions@) == texts.take(i as int),
        decreases checks.len() - i,
    {
        proof { lemma_checks_view_index(checks@, i as int); }
        let c = checks[i].render(subject);
        proof { crate::text::lemma_views_push(conditions@, c); }
        conditions.push(c);
        assert(views_of(conditions@) =~= texts.take(i + 1));
        i = i + 1;
    }
    assert(texts.take(i as int) =~= texts);
    join(&conditions, " && ")
}


/// The tuple element a path starts in, among the first `arity` tuple fields.
pub open spec fn tuple_element(path: Seq<SegmentV>, arity: nat, fields: Seq<Seq<char>>) -> Option<
    nat,
> {
    if path.len() > 0 && path[0] is Field {
        let p = position(
            fields.take(if arity <= fields.len() { arity as int } else { fields.len() as int }),
            path[0]->Field_0,
        );
        if p >= 0 {
            Some(p as nat)
        } else {
            None
        }
    } else {
        None
    }
}

/// Element-wise `||` of two flag sequences.
pub open spec fn or_flags(a: Seq<bool>, b: Seq<bool>) -> Seq<bool> {
    Seq::new(a.len(), |i: int| a[i] || (i < b.len() && b[i]))
}

/// Which tuple elements the first `n` checks test, or `None` when they test
/// something else or alternatives disagree on the elements they test.
pub open spec fn tested_prefix(checks: Seq<CheckV>, n: int, arity: nat, fields: Seq<Seq<char>>) -> Option<
    Seq<bool>,
>
    decreases checks, if n >= 0 { n + 1 } else { 0 },
{
    if n <= 0 || n > checks.len() {
        Some(Seq::new(arity, |i: int| false))
    } else {
        match tested_prefix(checks, n - 1, arity, fields) {
            None => None,
            Some(t) => {
                let c = checks[n - 1];
                match c {
                    CheckV::Or { alternatives } => {
                        proof {
                            assert(decreases_to!(checks => checks[n - 1]));
                        }
                        proof {
                            assert(decreases_to!(checks => checks[n - 1]));
                            assert(decreases_to!(checks[n - 1] => alternatives));
                        }
                        let results = alternatives_tested(alternatives, arity, fields);
                        if alternatives.len() == 0 || results[0] is None {
                            None
                        } else if exists|i: int| 0 <= i < results.len() && #[trigger] results[i] != results[0] {
                            None
                        } else {
                            Some(or_flags(t, results[0].unwrap()))
                        }
                    },
                    _ => match tuple_element(check_path(c).unwrap(), arity, fields) {
                        Some(k) => Some(t.update(k as int, true)),
                        None => None,
                    },
                }
            },
        }
    }
}

/// What each alternative of an or-check tests.
pub open spec fn alternatives_tested(
    alternatives: Seq<Seq<CheckV>>,
    arity: nat,
    fields: Seq<Seq<char>>,
) -> Seq<Option<Seq<bool>>>
    decreases alternatives, 0int,
{
    Seq::new(
        alternatives.len(),
        |i: int|
            {
                if 0 <= i < alternatives.len() {
                    proof {
                        assert(decreases_to!(alternatives => alternatives[i]));
                    }
                    tested_prefix(alternatives[i], alternatives[i].len() as int, arity, fields)
                } else {
                    None
                }
            },
    )
}

/// `tested_prefix` over all the checks.
pub open spec fn tested_elements(checks: Seq<CheckV>, arity: nat, fields: Seq<Seq<char>>) -> Option<
    Seq<bool>,
> {
    tested_prefix(checks, checks.len() as int, arity, fields)
}

pub proof fn lemma_tested_len(checks: Seq<CheckV>, n: int, arity: nat, fields: Seq<Seq<char>>)
    ensures
        tested_prefix(checks, n, arity, fields) matches Some(t) ==> t.len() == arity,
    decreases checks, n,
{
    if 0 < n <= checks.len() {
        lemma_tested_len(checks, n - 1, arity, fields);
        let c = checks[n - 1];
        if !(c is Or) {
            let p = check_path(c).unwrap();
            if p.len() > 0 && p[0] is Field {
                lemma_position_range(
                    fields.take(if arity <= fields.len() { arity as int } else { fields.len() as int }),
                    p[0]->Field_0,
                );
            }
        }
    }
}

pub proof fn lemma_tested_none(checks: Seq<CheckV>, n: int, m: int, arity: nat, fields: Seq<Seq<char>>)
    requires
        0 <= n <= m <= checks.len(),
        tested_prefix(checks, n, arity, fields) is None,
    ensures
        tested_prefix(checks, m, arity, fields) is None,
    decreases m - n,
{
    if n < m {
        lemma_tested_none(checks, n, m - 1, arity, fields);
    }
}

/// The tuple element `path` starts in, among the first `arity` fields.
pub fn checked_tuple_element(path: &AccessPath, arity: usize, fields: &[String]) -> (r: Option<usize>)
    ensures
        match r {
            Some(k) => tuple_element(path@, arity as nat, views_of(fields@)) == Some(k as nat),
            None => tuple_element(path@, arity as nat, views_of(fields@)) is None,
        },
{
    if path.segments.len() == 0 {
        return None;
    }
    assert(path@.len() == path.segments@.len());
    assert(path@[0] == path.segments@[0]@);
    assert(views_of(fields@).len() == fields@.len());
    match &path.segments[0] {
        PathSegment::Field(field) => {
            assert(path@[0]->Field_0 == field@);
            let limit = if arity <= fields.len() { arity } else { fields.len() };
            let ghost taken = views_of(fields@).take(limit as int);
            let mut i: usize = 0;
            while i < limit
                invariant
                    i <= limit,
                    limit <= fields@.len(),
                    limit == (if arity <= fields@.len() { arity } else { fields@.len() as usize }),
                    path@.len() > 0,
                    path@[0] == SegmentV::Field(field@),
                    views_of(fields@).len() == fields@.len(),
                    taken == views_of(fields@).take(limit as int),
                    forall|j: int| 0 <= j < i ==> taken[j] != field@,
                decreases limit - i,
            {
                assert(taken[i as int] == fields@[i as int]@);
                if str_eq(fields[i].as_str(), field.as_str()) {
                    proof { lemma_position(taken, field@, i as int); }
                    assert(position(taken, field@) == i);
                    assert(tuple_element(path@, arity as nat, views_of(fields@)) == Some(i as nat));
                    return Some(i);
                }
                i = i + 1;
            }
            proof { lemma_position(taken, field@, i as int); }
            None
        },
        _ => None,
    }
}

fn flags_eq(a: &Vec<bool>, b: &Vec<bool>) -> (r: bool)
    ensures
        r == (a@ == b@),
{
    if a.len() != b.len() {
        return false;
    }
    let mut i: usize = 0;
    while i < a.len()
        invariant
            i <= a@.len(),
            a@.len() == b@.len(),
            forall|j: int| 0 <= j < i ==> a@[j] == b@[j],
        decreases a.len() - i,
    {
        if a[i] != b[i] {
            return false;
        }
        i = i + 1;
    }
    assert(a@ =~= b@);
    true
}

/// Which tuple elements `checks` test, or `None` when some check tests
/// something other than an element's own value, or alternatives disagree.
pub fn tested_tuple_elements(checks: &Vec<Check>, arity: usize, fields: &[String]) -> (r: Option<Vec<bool>>)
    ensures
        match r {
            Some(v) => tested_elements(checks_view(checks@), arity as nat, views_of(fields@))
                == Some(v@),
            None => tested_elements(checks_view(checks@), arity as nat, views_of(fields@)) is None,
        },
    decreases checks_view(checks@),
{
    let ghost cv = checks_view(checks@);
    let ghost fv = views_of(fields@);
    let mut tested: Vec<bool> = Vec::new();
    let mut k: usize = 0;
    while k < arity
        invariant
            k <= arity,
            tested@ == Seq::new(k as nat, |i: int| false),
        decreases arity - k,
    {
        tested.push(false);
        assert(tested@ =~= Seq::new((k + 1) as nat, |i: int| false));
        k = k + 1;
    }
    let mut n: usize = 0;
    while n < checks.len()
        invariant
            n <= checks@.len(),
            cv == checks_view(checks@),
            fv == views_of(fields@),
            tested_prefix(cv, n as int, arity as nat, fv) == Some(tested@),
        decreases checks.len() - n,
    {
        proof { lemma_checks_view_index(checks@, n as int); }
        let check = &checks[n];
        match check.path() {
            Some(path) => {
                match checked_tuple_element(path, arity, fields) {
                    Some(e) => {
                        proof {
                            lemma_tested_len(cv, n as int, arity as nat, fv);
                            let p = path@;
                            lemma_position_range(
                                fv.take(if arity <= fv.len() { arity as int } else { fv.len() as int }),
                                p[0]->Field_0,
                            );
                        }
                        tested.set(e, true);
                    },
                    None => {
                        proof { lemma_tested_none(cv, n + 1, cv.len() as int, arity as nat, fv); }
                        return None;
                    },
                }
            },
            None => {
                match check {
                    Check::Or { alternatives } => {
                        proof { lemma_or_view_lens(*check); }
                        let ghost alts = cv[n as int]->Or_alternatives;
                        if alternatives.len() == 0 {
                            proof { lemma_tested_none(cv, n + 1, cv.len() as int, arity as nat, fv); }
                            return None;
                        }
                        proof {
                            assert(decreases_to!(cv => cv[n as int]));
                            assert(decreases_to!(cv[n as int] => alts));
                            assert(decreases_to!(alts => alts[0]));
                            assert(alts[0] == checks_view(alternatives@[0]@));
                            assert(alternatives_tested(alts, arity as nat, fv)[0]
                                == tested_elements(alts[0], arity as nat, fv));
                        }
                        let first = tested_tuple_elements(&alternatives[0], arity, fields);
                        let first = match first {
                            Some(f) => f,
                            None => {
                                proof { lemma_tested_none(cv, n + 1, cv.len() as int, arity as nat, fv); }
                                return None;
                            },
                        };
                        let mut i: usize = 1;
                        while i < alternatives.len()
                            invariant
                                1 <= i <= alternatives@.len(),
                                n < checks@.len(),
                                cv == checks_view(checks@),
                                fv == views_of(fields@),
                                alts == cv[n as int]->Or_alternatives,
                                cv[n as int] is Or,
                                tested_prefix(cv, n as int, arity as nat, fv) == Some(tested@),
                                alts == alternatives_view(alternatives@),
                                decreases_to!(cv => alts),
                                alternatives_tested(alts, arity as nat, fv)[0] == Some(first@),
                                forall|j: int|
                                    0 <= j < i ==> #[trigger] alternatives_tested(alts, arity as nat, fv)[j]
                                        == Some(first@),
                            decreases alternatives.len() - i,
                        {
                            proof {
                                assert(decreases_to!(alts => alts[i as int]));
                                assert(alts[i as int] == checks_view(alternatives@[i as int]@));
                            }
                            let other = tested_tuple_elements(&alternatives[i], arity, fields);
                            let same = match &other {
                                Some(o) => flags_eq(o, &first),
                                None => false,
                            };
                            if !same {
                                assert(alternatives_tested(alts, arity as nat, fv)[i as int] != Some(first@));
                                assert(tested_prefix(cv, n + 1, arity as nat, fv) is None);
                                proof { lemma_tested_none(cv, n + 1, cv.len() as int, arity as nat, fv); }
                                return None;
                            }
                            i = i + 1;
                        }
                        proof {
                            lemma_tested_len(cv, n as int, arity as nat, fv);
                            lemma_tested_len(alts[0], alts[0].len() as int, arity as nat, fv);
                        }
                        let ghost old_tested = tested@;
                        let mut merged: Vec<bool> = Vec::new();
                        let mut j: usize = 0;
                        while j < tested.len()
                            invariant
                                j <= tested@.len(),
                                tested@ == old_tested,
                                first@.len() == old_tested.len(),
                                merged@ == or_flags(old_tested, first@).take(j as int),
                            decreases tested.len() - j,
                        {
                            let v = tested[j] || first[j];
                            merged.push(v);
                            assert(merged@ =~= or_flags(old_tested, first@).take(j + 1));
                            j = j + 1;
                        }
                        tested = merged;
                        assert(tested@ =~= or_flags(old_tested, first@));

                    },
                    _ => {
                        assert(false);
                    },
                }
            },
        }
        n = n + 1;
    }
    Some(tested)
}


impl PathSegment {
    /// Whether two segments are the same step.
    pub fn same_as(&self, other: &PathSegment) -> (r: bool)
        ensures
            r == (self@ == other@),
    {
        match (self, other) {
            (PathSegment::Field(a), PathSegment::Field(b)) => str_eq(a.as_str(), b.as_str()),
            (PathSegment::Index(a), PathSegment::Index(b)) => *a == *b,
            (PathSegment::SliceFrom(a), PathSegment::SliceFrom(b)) => *a == *b,
            (
                PathSegment::ArraySliceFrom { offset: a, go_type: ta },
                PathSegment::ArraySliceFrom { offset: b, go_type: tb },
            ) => *a == *b && str_eq(ta.as_str(), tb.as_str()),
            (PathSegment::Deref, PathSegment::Deref) => true,
            (PathSegment::NewtypeCast(a), PathSegment::NewtypeCast(b)) => str_eq(a.as_str(), b.as_str()),
            (PathSegment::AssertedAs(a), PathSegment::AssertedAs(b)) => str_eq(a.as_str(), b.as_str()),
            _ => false,
        }
    }
}

impl AccessPath {
    /// Whether two paths take the same steps.
    pub fn same_as(&self, other: &AccessPath) -> (r: bool)
        ensures
            r == (self@ == other@),
    {
        if self.segments.len() != other.segments.len() {
            assert(self@.len() != other@.len());
            return false;
        }
        let mut i: usize = 0;
        while i < self.segments.len()
            invariant
                i <= self.segments@.len(),
                self.segments@.len() == other.segments@.len(),
                forall|j: int| 0 <= j < i ==> self@[j] == other@[j],
            decreases self.segments.len() - i,
        {
            if !self.segments[i].same_as(&other.segments[i]) {
                assert(self@[i as int] != other@[i as int]);
                return false;
            }
            i = i + 1;
        }
        assert(self@ =~= other@);
        true
    }
}

/// A slice-length check is Go's comparison of `len(path)` with the length:
/// an exact length tests `==` (its negation `!=`), a minimum length tests
/// `>=` (its negation `<`). So an exact-length pattern never accepts a
/// longer slice, and the two kinds of check never render alike.
pub proof fn law_slice_length_conditions(subject: SubjectV, path: Seq<SegmentV>, n: usize)
    ensures
        check_text(subject, CheckV::SliceLenEq { path, length: n }, false) == "len("@ + path_text(
            subject,
            path,
        ) + ") == "@ + decimal(n as nat),
        check_text(subject, CheckV::SliceLenEq { path, length: n }, true) == "len("@ + path_text(
            subject,
            path,
        ) + ") != "@ + decimal(n as nat),
        check_text(subject, CheckV::SliceLenGe { path, min_length: n }, false) == "len("@ + path_text(
            subject,
            path,
        ) + ") >= "@ + decimal(n as nat),
        check_text(subject, CheckV::SliceLenGe { path, min_length: n }, true) == "len("@ + path_text(
            subject,
            path,
        ) + ") < "@ + decimal(n as nat),
        check_text(subject, CheckV::SliceLenEq { path, length: n }, false) != check_text(
            subject,
            CheckV::SliceLenGe { path, min_length: n },
            false,
        ),
{
    let p = "len("@ + path_text(subject, path);
    let d = decimal(n as nat);
    reveal_strlit(") == ");
    reveal_strlit(") >= ");
    let eq = check_text(subject, CheckV::SliceLenEq { path, length: n }, false);
    let ge = check_text(subject, CheckV::SliceLenGe { path, min_length: n }, false);
    assert(eq[p.len() + 2int] == '=');
    assert(ge[p.len() + 2int] == '>');
}

/// A tag or literal check is Go's equality with the tag or literal, and its
/// negation the inequality; a boolean literal tests the path itself (`true`)
/// or its negation (`false`), and negating the check flips that.
pub proof fn law_equality_conditions(subject: SubjectV, path: Seq<SegmentV>, constant: Seq<char>)
    ensures
        check_text(subject, CheckV::EnumTag { path, tag_constant: constant }, false) == path_text(subject, path)
            + ".Tag == "@ + constant,
        check_text(subject, CheckV::EnumTag { path, tag_constant: constant }, true) == path_text(subject, path)
            + ".Tag != "@ + constant,
        constant != "true"@ && constant != "false"@ ==> check_text(
            subject,
            CheckV::Literal { path, go_literal: constant },
            false,
        ) == path_text(subject, path) + " == "@ + constant && check_text(
            subject,
            CheckV::Literal { path, go_literal: constant },
            true,
        ) == path_text(subject, path) + " != "@ + constant,
        check_text(subject, CheckV::Literal { path, go_literal: "true"@ }, false) == path_text(subject, path),
        check_text(subject, CheckV::Literal { path, go_literal: "true"@ }, true) == seq!['!'] + path_text(subject, path),
        check_text(subject, CheckV::Literal { path, go_literal: "false"@ }, false) == seq!['!'] + path_text(subject, path),
        check_text(subject, CheckV::Literal { path, go_literal: "false"@ }, true) == path_text(subject, path),
{
    reveal_strlit("true");
    reveal_strlit("false");
    assert("true"@.len() != "false"@.len());
}

} // verus!
