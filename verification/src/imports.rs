//! Building the import block of an emitted file: which packages are
//! imported under which qualifier, deduplicated and in sorted order, and
//! which qualifiers collide.

use vstd::prelude::*;
use crate::names::{package_name_of, sanitize_package_name, sanitized_package_name, go_package_name};
use crate::output::OutputImport;
use crate::packages::{PackageRequirements, PackageUse, uses_view};
use crate::text::{owned, str_eq, views_of};

verus! {

/// `a` sorts before `b`, comparing characters by code point.
pub open spec fn chars_lt(a: Seq<char>, b: Seq<char>) -> bool
    decreases a.len(),
{
    if a.len() == 0 {
        b.len() > 0
    } else if b.len() == 0 {
        false
    } else if a[0] != b[0] {
        (a[0] as int) < (b[0] as int)
    } else {
        chars_lt(a.drop_first(), b.drop_first())
    }
}

/// Pairs sort by their first text, then their second.
pub open spec fn pair_lt(a: (Seq<char>, Seq<char>), b: (Seq<char>, Seq<char>)) -> bool {
    chars_lt(a.0, b.0) || (a.0 == b.0 && chars_lt(a.1, b.1))
}

pub open spec fn strictly_sorted(s: Seq<(Seq<char>, Seq<char>)>) -> bool {
    forall|i: int, j: int| 0 <= i < j < s.len() ==> pair_lt(#[trigger] s[i], #[trigger] s[j])
}

pub proof fn lemma_chars_lt_trans(a: Seq<char>, b: Seq<char>, c: Seq<char>)
    requires
        chars_lt(a, b),
        chars_lt(b, c),
    ensures
        chars_lt(a, c),
    decreases a.len(),
{
    if a.len() > 0 && b.len() > 0 && c.len() > 0 && a[0] == b[0] && b[0] == c[0] {
        lemma_chars_lt_trans(a.drop_first(), b.drop_first(), c.drop_first());
    }
}

pub proof fn lemma_chars_trichotomy(a: Seq<char>, b: Seq<char>)
    ensures
        a == b || chars_lt(a, b) || chars_lt(b, a),
    decreases a.len(),
{
    if a.len() > 0 && b.len() > 0 && a[0] == b[0] {
        lemma_chars_trichotomy(a.drop_first(), b.drop_first());
        if a.drop_first() == b.drop_first() {
            assert(a =~= seq![a[0]] + a.drop_first());
            assert(b =~= seq![b[0]] + b.drop_first());
        }
    } else if a.len() > 0 && b.len() > 0 {
        assert((a[0] as int) != (b[0] as int));
    } else if a.len() == 0 && b.len() == 0 {
        assert(a =~= b);
    }
}

pub proof fn lemma_pair_lt_trans(a: (Seq<char>, Seq<char>), b: (Seq<char>, Seq<char>), c: (Seq<char>, Seq<char>))
    requires
        pair_lt(a, b),
        pair_lt(b, c),
    ensures
        pair_lt(a, c),
{
    if chars_lt(a.0, b.0) && chars_lt(b.0, c.0) {
        lemma_chars_lt_trans(a.0, b.0, c.0);
    } else if chars_lt(a.1, b.1) && chars_lt(b.1, c.1) {
        lemma_chars_lt_trans(a.1, b.1, c.1);
    }
}

pub proof fn lemma_pair_trichotomy(a: (Seq<char>, Seq<char>), b: (Seq<char>, Seq<char>))
    ensures
        a == b || pair_lt(a, b) || pair_lt(b, a),
{
    lemma_chars_trichotomy(a.0, b.0);
    lemma_chars_trichotomy(a.1, b.1);
}

proof fn lemma_chars_lt_skip(a: Seq<char>, b: Seq<char>, i: int)
    requires
        0 <= i <= a.len(),
        i <= b.len(),
        a.take(i) == b.take(i),
    ensures
        chars_lt(a, b) == chars_lt(a.skip(i), b.skip(i)),
    decreases i,
{
    if i > 0 {
        assert(a[0] == a.take(i)[0]);
        assert(b[0] == b.take(i)[0]);
        assert(a.drop_first().take(i - 1) =~= a.take(i).drop_first());
        assert(b.drop_first().take(i - 1) =~= b.take(i).drop_first());
        lemma_chars_lt_skip(a.drop_first(), b.drop_first(), i - 1);
        assert(a.drop_first().skip(i - 1) =~= a.skip(i));
        assert(b.drop_first().skip(i - 1) =~= b.skip(i));
    } else {
        assert(a.skip(0) =~= a);
        assert(b.skip(0) =~= b);
    }
}

/// Whether `a` sorts before `b`.
pub fn chars_less(a: &str, b: &str) -> (r: bool)
    ensures
        r == chars_lt(a@, b@),
{
    let n = a.unicode_len();
    let m = b.unicode_len();
    let mut i: usize = 0;
    while i < n && i < m
        invariant
            n == a@.len(),
            m == b@.len(),
            i <= n,
            i <= m,
            a@.take(i as int) == b@.take(i as int),
        decreases n - i,
    {
        let ca = a.get_char(i);
        let cb = b.get_char(i);
        let xa = ca as u32;
        let xb = cb as u32;
        assert(xa as int == ca as int && xb as int == cb as int);
        if xa != xb {
            proof {
                lemma_chars_lt_skip(a@, b@, i as int);
                assert(a@.skip(i as int)[0] == ca);
                assert(b@.skip(i as int)[0] == cb);
            }
            return xa < xb;
        }
        assert(a@.take(i + 1) =~= a@.take(i as int).push(ca));
        assert(b@.take(i + 1) =~= b@.take(i as int).push(cb));
        i = i + 1;
    }
    proof {
        lemma_chars_lt_skip(a@, b@, i as int);
    }
    i == n && i < m
}

fn pair_less(a: &(String, String), b: &(String, String)) -> (r: bool)
    ensures
        r == pair_lt((a.0@, a.1@), (b.0@, b.1@)),
{
    chars_less(a.0.as_str(), b.0.as_str()) || (str_eq(a.0.as_str(), b.0.as_str()) && chars_less(
        a.1.as_str(),
        b.1.as_str(),
    ))
}

/// The imports as path/alias pairs.
pub open spec fn output_view(s: Seq<OutputImport>) -> Seq<(Seq<char>, Seq<char>)> {
    s.map_values(|e: OutputImport| (e.path@, e.alias@))
}

pub open spec fn pairs_view(s: Seq<(String, String)>) -> Seq<(Seq<char>, Seq<char>)> {
    s.map_values(|p: (String, String)| (p.0@, p.1@))
}

/// Adds `x` to a strictly sorted vector, keeping it strictly sorted; an
/// equal pair already there is kept once.
fn insert_sorted(v: &mut Vec<(String, String)>, x: (String, String))
    requires
        strictly_sorted(pairs_view(old(v)@)),
    ensures
        strictly_sorted(pairs_view(final(v)@)),
        pairs_view(final(v)@).to_set() == pairs_view(old(v)@).to_set().insert((x.0@, x.1@)),
{
    let ghost s = pairs_view(v@);
    let ghost xv = (x.0@, x.1@);
    let mut p: usize = 0;
    while p < v.len()
        invariant
            s == pairs_view(v@),
            xv == (x.0@, x.1@),
            p <= v@.len(),
            forall|j: int| 0 <= j < p ==> pair_lt(#[trigger] s[j], xv),
        ensures
            p <= v@.len(),
            forall|j: int| 0 <= j < p ==> pair_lt(#[trigger] s[j], xv),
            p < v@.len() ==> !pair_lt(s[p as int], xv),
        decreases v.len() - p,
    {
        assert(s[p as int] == (v@[p as int].0@, v@[p as int].1@));
        if !pair_less(&v[p], &x) {
            break;
        }
        p = p + 1;
    }
    if p < v.len() {
        proof { lemma_pair_trichotomy(s[p as int], xv); }
        assert(s[p as int] == (v@[p as int].0@, v@[p as int].1@));
        if !pair_less(&x, &v[p]) {
            assert(s[p as int] == xv);
            assert(s.to_set().insert(xv) =~= s.to_set()) by {
                assert(s.contains(xv));
            }
            return;
        }
    }
    let ghost before = v@;
    v.insert(p, x);
    let ghost t = pairs_view(v@);
    assert(t =~= s.insert(p as int, xv));
    assert forall|i: int, j: int| 0 <= i < j < t.len() implies pair_lt(#[trigger] t[i], #[trigger] t[j]) by {
        if j < p {
            assert(t[i] == s[i] && t[j] == s[j]);
        } else if j == p {
            assert(t[i] == s[i]);
        } else if i == p {
            assert(t[j] == s[j - 1]);
            if j - 1 > p {
                assert(pair_lt(s[p as int], s[j - 1]));
                lemma_pair_lt_trans(xv, s[p as int], s[j - 1]);
            }
        } else if i < p {
            assert(t[i] == s[i] && t[j] == s[j - 1]);
        } else {
            assert(t[i] == s[i - 1] && t[j] == s[j - 1]);
        }
    }
    assert(t.to_set() =~= s.to_set().insert(xv)) by {
        assert forall|e| t.to_set().contains(e) <==> s.to_set().insert(xv).contains(e) by {
            if t.contains(e) {
                let k = choose|k: int| 0 <= k < t.len() && t[k] == e;
                if k < p {
                    assert(s[k] == e);
                } else if k > p {
                    assert(s[k - 1] == e);
                }
            }
            if s.contains(e) {
                let k = choose|k: int| 0 <= k < s.len() && s[k] == e;
                if k < p {
                    assert(t[k] == e);
                } else {
                    assert(t[k + 1] == e);
                }
            }
            if e == xv {
                assert(t[p as int] == e);
            }
        }
    }
}

/// The text stored under key `k`, scanning from the front.
pub open spec fn lookup(s: Seq<(Seq<char>, Seq<char>)>, k: Seq<char>) -> Option<Seq<char>>
    decreases s.len(),
{
    if s.len() == 0 {
        None
    } else if s[0].0 == k {
        Some(s[0].1)
    } else {
        lookup(s.drop_first(), k)
    }
}

/// Whether no key occurs twice.
pub open spec fn distinct_keys(s: Seq<(Seq<char>, Seq<char>)>) -> bool {
    forall|i: int, j: int| 0 <= i < j < s.len() ==> (#[trigger] s[i]).0 != (#[trigger] s[j]).0
}

proof fn lemma_lookup_none(s: Seq<(Seq<char>, Seq<char>)>, k: Seq<char>)
    requires
        forall|j: int| 0 <= j < s.len() ==> (#[trigger] s[j]).0 != k,
    ensures
        lookup(s, k) is None,
    decreases s.len(),
{
    if s.len() > 0 {
        assert forall|j: int| 0 <= j < s.drop_first().len() implies (#[trigger] s.drop_first()[j]).0 != k by {
            assert(s.drop_first()[j] == s[j + 1]);
        }
        lemma_lookup_none(s.drop_first(), k);
    }
}

proof fn lemma_lookup_absent(s: Seq<(Seq<char>, Seq<char>)>, k: Seq<char>)
    requires
        lookup(s, k) is None,
    ensures
        forall|j: int| 0 <= j < s.len() ==> (#[trigger] s[j]).0 != k,
    decreases s.len(),
{
    if s.len() > 0 {
        lemma_lookup_absent(s.drop_first(), k);
        assert forall|j: int| 0 <= j < s.len() implies (#[trigger] s[j]).0 != k by {
            if j > 0 {
                assert(s[j] == s.drop_first()[j - 1]);
            }
        }
    }
}

proof fn lemma_lookup_at(s: Seq<(Seq<char>, Seq<char>)>, k: Seq<char>, i: int)
    requires
        0 <= i < s.len(),
        s[i].0 == k,
        forall|j: int| 0 <= j < i ==> (#[trigger] s[j]).0 != k,
    ensures
        lookup(s, k) == Some(s[i].1),
    decreases i,
{
    if i > 0 {
        assert forall|j: int| 0 <= j < i - 1 implies (#[trigger] s.drop_first()[j]).0 != k by {
            assert(s.drop_first()[j] == s[j + 1]);
        }
        lemma_lookup_at(s.drop_first(), k, i - 1);
    }
}

/// The text stored under `key`.
fn find<'a>(v: &'a Vec<(String, String)>, key: &str) -> (r: Option<&'a String>)
    ensures
        match r {
            Some(t) => lookup(pairs_view(v@), key@) == Some(t@),
            None => lookup(pairs_view(v@), key@) is None,
        },
{
    let ghost s = pairs_view(v@);
    let mut i: usize = 0;
    while i < v.len()
        invariant
            s == pairs_view(v@),
            i <= v@.len(),
            forall|j: int| 0 <= j < i ==> (#[trigger] s[j]).0 != key@,
        decreases v.len() - i,
    {
        assert(s[i as int] == (v@[i as int].0@, v@[i as int].1@));
        if str_eq(v[i].0.as_str(), key) {
            proof { lemma_lookup_at(s, key@, i as int); }
            return Some(&v[i].1);
        }
        i = i + 1;
    }
    proof { lemma_lookup_none(s, key@); }
    None
}

/// The qualifier an import goes by: its alias, or else the package's
/// default name (a Go package's own, or the last path segment), made a
/// valid package name.
pub open spec fn effective_qualifier(
    path: Seq<char>,
    alias: Seq<char>,
    defaults: Seq<(Seq<char>, Seq<char>)>,
) -> Seq<char> {
    let name = if alias.len() > 0 {
        alias
    } else {
        match lookup(defaults, "go:"@ + path) {
            Some(n) => n,
            None => package_name_of(path),
        }
    };
    sanitized_package_name(name)
}

fn go_key(path: &str) -> (r: String)
    ensures
        r@ == "go:"@ + path@,
{
    let mut k = owned("go:");
    k.append(path);
    k
}

fn qualifier_of(path: &str, alias: &str, defaults: &Vec<(String, String)>) -> (r: String)
    ensures
        r@ == effective_qualifier(path@, alias@, pairs_view(defaults@)),
{
    if alias.unicode_len() > 0 {
        return sanitize_package_name(alias);
    }
    let key = go_key(path);
    match find(defaults, key.as_str()) {
        Some(n) => sanitize_package_name(n.as_str()),
        None => sanitize_package_name(go_package_name(path)),
    }
}

proof fn lemma_push_to_set<T>(s: Seq<T>, x: T)
    ensures
        s.push(x).to_set() == s.to_set().insert(x),
{
    assert forall|e: T| s.push(x).to_set().contains(e) <==> s.to_set().insert(x).contains(e) by {
        if s.push(x).contains(e) {
            let k = choose|k: int| 0 <= k < s.push(x).len() && s.push(x)[k] == e;
            if k < s.len() {
                assert(s[k] == e);
            }
        }
        if s.contains(e) {
            let k = choose|k: int| 0 <= k < s.len() && s[k] == e;
            assert(s.push(x)[k] == e);
        }
        if e == x {
            assert(s.push(x)[s.len() as int] == e);
        }
    }
    assert(s.push(x).to_set() =~= s.to_set().insert(x));
}

pub open spec fn seq_set(s: Seq<String>) -> Set<Seq<char>> {
    views_of(s).to_set()
}

/// The state of an import builder: imports by path in the order they were
/// added, the extra imports, and the used paths.
pub struct ImportsV {
    pub imports: Seq<(Seq<char>, Seq<char>)>,
    pub duplicates: Set<(Seq<char>, Seq<char>)>,
    pub used: Set<Seq<char>>,
}

/// The state after `path` is used under `qualifier`.
pub open spec fn required(
    v: ImportsV,
    dropped: Seq<(Seq<char>, Seq<char>)>,
    defaults: Seq<(Seq<char>, Seq<char>)>,
    path: Seq<char>,
    qualifier: Seq<char>,
) -> ImportsV {
    match lookup(v.imports, path) {
        Some(alias) => ImportsV {
            imports: v.imports,
            duplicates: if effective_qualifier(path, alias, defaults) == qualifier {
                v.duplicates
            } else {
                v.duplicates.insert((path, qualifier))
            },
            used: v.used.insert(path),
        },
        None => ImportsV {
            imports: v.imports.push(
                (
                    path,
                    match lookup(dropped, path) {
                        Some(a) => if effective_qualifier(path, a, defaults) == qualifier {
                            a
                        } else {
                            qualifier
                        },
                        None => qualifier,
                    },
                ),
            ),
            duplicates: v.duplicates,
            used: v.used.insert(path),
        },
    }
}

/// The state after each (path, qualifier) use in order.
pub open spec fn required_all(
    v: ImportsV,
    dropped: Seq<(Seq<char>, Seq<char>)>,
    defaults: Seq<(Seq<char>, Seq<char>)>,
    uses: Seq<(Seq<char>, Seq<char>)>,
) -> ImportsV
    decreases uses.len(),
{
    if uses.len() == 0 {
        v
    } else {
        let before = required_all(v, dropped, defaults, uses.drop_last());
        required(before, dropped, defaults, uses.last().0, uses.last().1)
    }
}

/// The qualifier a bare package id is used under: an alias its import once
/// had, else the name its Go import goes by, else none.
pub open spec fn id_qualifier(
    dropped: Seq<(Seq<char>, Seq<char>)>,
    names: Seq<(Seq<char>, Seq<char>)>,
    id: Seq<char>,
) -> Seq<char> {
    match lookup(dropped, id) {
        Some(a) => a,
        None => match lookup(names, "go:"@ + id) {
            Some(n) => n,
            None => Seq::empty(),
        },
    }
}

/// The imports a file keeps: an import whose path is used or that is a
/// blank import, and every extra import.
pub open spec fn kept_entries(v: ImportsV) -> Set<(Seq<char>, Seq<char>)> {
    Set::new(
        |e: (Seq<char>, Seq<char>)|
            (lookup(v.imports, e.0) == Some(e.1) && (e.1 == "_"@ || v.used.contains(e.0)))
                || v.duplicates.contains(e),
    )
}

/// The paths of the entries that go by qualifier `q`, in order; blank
/// imports go by none.
pub open spec fn paths_for(
    es: Seq<(Seq<char>, Seq<char>)>,
    q: Seq<char>,
    defaults: Seq<(Seq<char>, Seq<char>)>,
) -> Seq<Seq<char>>
    decreases es.len(),
{
    if es.len() == 0 {
        Seq::empty()
    } else {
        let before = paths_for(es.drop_last(), q, defaults);
        let e = es.last();
        if e.1 != "_"@ && effective_qualifier(e.0, e.1, defaults) == q {
            before.push(e.0)
        } else {
            before
        }
    }
}

/// Whether every qualifier that more than one entry goes by has a group.
pub open spec fn covers_collisions(
    es: Seq<(Seq<char>, Seq<char>)>,
    groups: Seq<(String, Vec<String>)>,
    defaults: Seq<(Seq<char>, Seq<char>)>,
) -> bool {
    forall|q: Seq<char>|
        #![trigger paths_for(es, q, defaults)]
        qualifier_used(es, q, defaults) && paths_for(es, q, defaults).len() >= 2 ==> exists|k: int|
            0 <= k < groups.len() && (#[trigger] groups[k]).0@ == q
}

/// Whether some entry that is not a blank import goes by qualifier `q`.
pub open spec fn qualifier_used(
    es: Seq<(Seq<char>, Seq<char>)>,
    q: Seq<char>,
    defaults: Seq<(Seq<char>, Seq<char>)>,
) -> bool {
    exists|i: int| 0 <= i < es.len() && (#[trigger] es[i]).1 != "_"@ && effective_qualifier(es[i].0, es[i].1, defaults) == q
}

proof fn lemma_lookup_push_absent(s: Seq<(Seq<char>, Seq<char>)>, x: (Seq<char>, Seq<char>))
    requires
        lookup(s, x.0) is None,
    ensures
        lookup(s.push(x), x.0) == Some(x.1),
    decreases s.len(),
{
    if s.len() > 0 {
        assert(s.push(x).drop_first() =~= s.drop_first().push(x));
        lemma_lookup_push_absent(s.drop_first(), x);
    }
}

/// Using a package under a qualifier it already goes by is idempotent: a
/// second use adds no import and no extra import.
pub proof fn law_require_idempotent(
    v: ImportsV,
    dropped: Seq<(Seq<char>, Seq<char>)>,
    defaults: Seq<(Seq<char>, Seq<char>)>,
    path: Seq<char>,
    qualifier: Seq<char>,
)
    requires
        effective_qualifier(path, qualifier, defaults) == qualifier,
    ensures
        required(required(v, dropped, defaults, path, qualifier), dropped, defaults, path, qualifier)
            == required(v, dropped, defaults, path, qualifier),
{
    let once = required(v, dropped, defaults, path, qualifier);
    let twice = required(once, dropped, defaults, path, qualifier);
    match lookup(v.imports, path) {
        Some(alias) => {
            assert(twice.duplicates =~= once.duplicates);
            assert(twice.used =~= once.used);
        },
        None => {
            let alias = once.imports.last().1;
            lemma_lookup_push_absent(v.imports, (path, alias));
            assert(lookup(once.imports, path) == Some(alias));
            assert(effective_qualifier(path, alias, defaults) == qualifier);
            assert(twice.used =~= once.used);
        },
    }
}

/// Collects the imports of one file: each package path once under the
/// alias it was first required with, further qualifiers for the same path
/// as extra imports, and which paths are used.
pub struct ImportBuilder {
    go_package_names: Vec<(String, String)>,
    go_default_names: Vec<(String, String)>,
    imports: Vec<(String, String)>,
    duplicate_imports: Vec<(String, String)>,
    dropped_aliases: Vec<(String, String)>,
    used_packages: Vec<String>,
}

impl ImportBuilder {
    /// Each path is imported once, and each extra import is held once.
    pub closed spec fn wf(&self) -> bool {
        &&& distinct_keys(pairs_view(self.imports@))
        &&& strictly_sorted(pairs_view(self.duplicate_imports@))
    }

    pub closed spec fn state(&self) -> ImportsV {
        ImportsV {
            imports: pairs_view(self.imports@),
            duplicates: pairs_view(self.duplicate_imports@).to_set(),
            used: seq_set(self.used_packages@),
        }
    }

    /// The state is made of the imports, the extra imports and the used
    /// paths.
    pub proof fn lemma_state_views(&self)
        ensures
            self.state().imports == self.imports_view(),
            self.state().duplicates == self.duplicates_view(),
            self.state().used == self.used_view(),
    {
    }

    pub closed spec fn imports_view(&self) -> Seq<(Seq<char>, Seq<char>)> {
        pairs_view(self.imports@)
    }

    pub closed spec fn duplicates_view(&self) -> Set<(Seq<char>, Seq<char>)> {
        pairs_view(self.duplicate_imports@).to_set()
    }

    pub closed spec fn used_view(&self) -> Set<Seq<char>> {
        seq_set(self.used_packages@)
    }

    pub closed spec fn dropped_view(&self) -> Seq<(Seq<char>, Seq<char>)> {
        pairs_view(self.dropped_aliases@)
    }

    pub closed spec fn names_view(&self) -> Seq<(Seq<char>, Seq<char>)> {
        pairs_view(self.go_package_names@)
    }

    pub closed spec fn defaults_view(&self) -> Seq<(Seq<char>, Seq<char>)> {
        pairs_view(self.go_default_names@)
    }

    /// An empty builder. `go_package_names` maps a Go package id to the name
    /// its import goes by; `go_default_names` maps a Go package id to the
    /// name its package declares.
    pub fn new(go_package_names: Vec<(String, String)>, go_default_names: Vec<(String, String)>) -> (r: Self)
        ensures
            r.wf(),
            r.state() == (ImportsV {
                imports: Seq::empty(),
                duplicates: Set::empty(),
                used: Set::empty(),
            }),
            r.imports_view() == Seq::<(Seq<char>, Seq<char>)>::empty(),
            r.duplicates_view() == Set::<(Seq<char>, Seq<char>)>::empty(),
            r.used_view() == Set::<Seq<char>>::empty(),
            r.dropped_view() == Seq::<(Seq<char>, Seq<char>)>::empty(),
            r.names_view() == pairs_view(go_package_names@),
            r.defaults_view() == pairs_view(go_default_names@),
    {
        let r = ImportBuilder {
            go_package_names,
            go_default_names,
            imports: Vec::new(),
            duplicate_imports: Vec::new(),
            dropped_aliases: Vec::new(),
            used_packages: Vec::new(),
        };
        assert(r.imports_view() =~= Seq::<(Seq<char>, Seq<char>)>::empty());
        assert(r.duplicates_view() =~= Set::<(Seq<char>, Seq<char>)>::empty());
        assert(r.used_view() =~= Set::<Seq<char>>::empty());
        assert(r.dropped_view() =~= Seq::<(Seq<char>, Seq<char>)>::empty());
        assert(r.state().imports =~= Seq::<(Seq<char>, Seq<char>)>::empty());
        r
    }

    /// Records that `path` is used under `qualifier`: a new path is imported
    /// (under an alias it once had, when that gives the same qualifier); a
    /// path already imported under another qualifier gets an extra import.
    pub fn require_package_use(&mut self, path: &str, qualifier: &str)
        requires
            old(self).wf(),
        ensures
            final(self).wf(),
            final(self).used_view() == old(self).used_view().insert(path@),
            final(self).names_view() == old(self).names_view(),
            final(self).defaults_view() == old(self).defaults_view(),
            final(self).dropped_view() == old(self).dropped_view(),
            final(self).state() == required(
                old(self).state(),
                old(self).dropped_view(),
                old(self).defaults_view(),
                path@,
                qualifier@,
            ),
            match lookup(old(self).imports_view(), path@) {
                Some(alias) => final(self).imports_view() == old(self).imports_view()
                    && final(self).duplicates_view() == if effective_qualifier(path@, alias, old(self).defaults_view())
                    == qualifier@ {
                    old(self).duplicates_view()
                } else {
                    old(self).duplicates_view().insert((path@, qualifier@))
                },
                None => final(self).duplicates_view() == old(self).duplicates_view()
                    && final(self).imports_view() == old(self).imports_view().push(
                    (
                        path@,
                        match lookup(old(self).dropped_view(), path@) {
                            Some(a) => if effective_qualifier(path@, a, old(self).defaults_view())
                                == qualifier@ {
                                a
                            } else {
                                qualifier@
                            },
                            None => qualifier@,
                        },
                    ),
                ),
            },
    {
        let ghost used0 = self.used_packages@;
        let owned_path = owned(path);
        self.used_packages.push(owned_path);
        proof {
            let m0 = views_of(used0);
            let m1 = views_of(self.used_packages@);
            assert(m1 =~= m0.push(path@));
            lemma_push_to_set(m0, path@);
        }
        let existing = match find(&self.imports, path) {
            Some(alias) => Some(alias.clone()),
            None => None,
        };
        match existing {
            Some(alias) => {
                let q = qualifier_of(path, alias.as_str(), &self.go_default_names);
                if !str_eq(q.as_str(), qualifier) {
                    insert_sorted(&mut self.duplicate_imports, (owned(path), owned(qualifier)));
                }
            },
            None => {
                let alias = match find(&self.dropped_aliases, path) {
                    Some(a) => {
                        let q = qualifier_of(path, a.as_str(), &self.go_default_names);
                        if str_eq(q.as_str(), qualifier) {
                            a.clone()
                        } else {
                            owned(qualifier)
                        }
                    },
                    None => owned(qualifier),
                };
                let ghost before = self.imports@;
                let entry = (owned(path), alias);
                self.imports.push(entry);
                assert(pairs_view(self.imports@) =~= pairs_view(before).push((entry.0@, entry.1@)));
                proof {
                    lemma_lookup_absent(pairs_view(before), path@);
                }
            },
        }
    }

    /// Uses each package id under the qualifier an earlier alias or its Go
    /// import name gives it.
    pub fn extend_with_packages(&mut self, package_ids: &Vec<String>)
        requires
            old(self).wf(),
        ensures
            final(self).wf(),
            final(self).dropped_view() == old(self).dropped_view(),
            final(self).names_view() == old(self).names_view(),
            final(self).defaults_view() == old(self).defaults_view(),
            final(self).state() == required_all(
                old(self).state(),
                old(self).dropped_view(),
                old(self).defaults_view(),
                package_ids@.map_values(
                    |id: String| (id@, id_qualifier(old(self).dropped_view(), old(self).names_view(), id@)),
                ),
            ),
    {
        let ghost start = self.state();
        let ghost dropped = self.dropped_view();
        let ghost names = self.names_view();
        let ghost defaults = self.defaults_view();
        let ghost uses = package_ids@.map_values(|id: String| (id@, id_qualifier(dropped, names, id@)));
        let mut i: usize = 0;
        while i < package_ids.len()
            invariant
                i <= package_ids@.len(),
                self.wf(),
                self.dropped_view() == dropped,
                self.names_view() == names,
                self.defaults_view() == defaults,
                uses == package_ids@.map_values(|id: String| (id@, id_qualifier(dropped, names, id@))),
                self.state() == required_all(start, dropped, defaults, uses.take(i as int)),
            decreases package_ids.len() - i,
        {
            let id = package_ids[i].as_str();
            let qualifier = match find(&self.dropped_aliases, id) {
                Some(a) => a.clone(),
                None => {
                    let key = go_key(id);
                    match find(&self.go_package_names, key.as_str()) {
                        Some(n) => n.clone(),
                        None => String::new(),
                    }
                },
            };
            assert(qualifier@ == id_qualifier(dropped, names, id@));
            self.require_package_use(id, qualifier.as_str());
            assert(uses.take(i + 1).drop_last() =~= uses.take(i as int));
            assert(uses.take(i + 1).last() == uses[i as int]);
            i = i + 1;
        }
        assert(uses.take(i as int) =~= uses);
    }

    /// Uses every package the requirements hold, in the order they hold them.
    pub fn extend_with_package_uses(&mut self, requirements: &PackageRequirements)
        requires
            old(self).wf(),
            requirements.wf(),
        ensures
            final(self).wf(),
            final(self).dropped_view() == old(self).dropped_view(),
            final(self).names_view() == old(self).names_view(),
            final(self).defaults_view() == old(self).defaults_view(),
            exists|order: Seq<(Seq<char>, Seq<char>)>|
                order.to_set() == requirements@ && final(self).state() == required_all(
                    old(self).state(),
                    old(self).dropped_view(),
                    old(self).defaults_view(),
                    order,
                ),
    {
        let uses = requirements.iter();
        let ghost order = uses_view(uses@);
        let ghost start = self.state();
        let ghost dropped = self.dropped_view();
        let ghost names = self.names_view();
        let ghost defaults = self.defaults_view();
        let mut i: usize = 0;
        while i < uses.len()
            invariant
                i <= uses@.len(),
                order == uses_view(uses@),
                self.wf(),
                self.dropped_view() == dropped,
                self.names_view() == names,
                self.defaults_view() == defaults,
                self.state() == required_all(start, dropped, defaults, order.take(i as int)),
            decreases uses.len() - i,
        {
            let package = &uses[i];
            assert(order[i as int] == package@);
            self.require_package_use(package.package().path(), package.qualifier());
            assert(order.take(i + 1).drop_last() =~= order.take(i as int));
            i = i + 1;
        }
        assert(order.take(i as int) =~= order);
    }

    /// The kept imports, each once, sorted by path and then alias; and each
    /// qualifier that more than one of them goes by, in sorted order, with
    /// the paths that go by it.
    pub fn build(self) -> (r: (Vec<OutputImport>, Vec<(String, Vec<String>)>))
        requires
            self.wf(),
        ensures
            strictly_sorted(output_view(r.0@)),
            output_view(r.0@).to_set() == kept_entries(self.state()),
            forall|k: int|
                0 <= k < r.1@.len() ==> paths_for(output_view(r.0@), (#[trigger] r.1@[k]).0@, self.defaults_view())
                    == views_of(r.1@[k].1@) && r.1@[k].1@.len() >= 2,
            forall|k: int, m: int| 0 <= k < m < r.1@.len() ==> chars_lt((#[trigger] r.1@[k]).0@, (#[trigger] r.1@[m]).0@),
            covers_collisions(output_view(r.0@), r.1@, self.defaults_view()),
    {
        let ghost st = self.state();
        let ghost defaults = self.defaults_view();
        let ImportBuilder { go_package_names: _, go_default_names, imports, duplicate_imports, dropped_aliases: _, used_packages } = self;
        let mut sorted: Vec<(String, String)> = Vec::new();
        assert(pairs_view(sorted@).to_set() =~= Set::<(Seq<char>, Seq<char>)>::empty());
        let ghost iv = pairs_view(imports@);
        let mut i: usize = 0;
        while i < imports.len()
            invariant
                i <= imports@.len(),
                iv == pairs_view(imports@),
                distinct_keys(iv),
                strictly_sorted(pairs_view(sorted@)),
                pairs_view(sorted@).to_set() == Set::new(
                    |e: (Seq<char>, Seq<char>)| exists|j: int| 0 <= j < i && iv[j] == e && (e.1 == "_"@ || seq_set(used_packages@).contains(e.0)),
                ),
            decreases imports.len() - i,
        {
            let ghost before = pairs_view(sorted@).to_set();
            let keep = str_eq(imports[i].1.as_str(), "_") || contains_string(&used_packages, imports[i].0.as_str());
            assert(iv[i as int] == (imports@[i as int].0@, imports@[i as int].1@));
            if keep {
                let entry = (imports[i].0.clone(), imports[i].1.clone());
                insert_sorted(&mut sorted, entry);
            }
            assert(pairs_view(sorted@).to_set() =~= Set::new(
                |e: (Seq<char>, Seq<char>)| exists|j: int| 0 <= j < i + 1 && iv[j] == e && (e.1 == "_"@ || seq_set(used_packages@).contains(e.0)),
            )) by {
                assert forall|e: (Seq<char>, Seq<char>)| pairs_view(sorted@).to_set().contains(e) <==> (exists|j: int| 0 <= j < i + 1 && iv[j] == e && (e.1 == "_"@ || seq_set(used_packages@).contains(e.0))) by {
                    if exists|j: int| 0 <= j < i + 1 && iv[j] == e && (e.1 == "_"@ || seq_set(used_packages@).contains(e.0)) {
                        let j = choose|j: int| 0 <= j < i + 1 && iv[j] == e && (e.1 == "_"@ || seq_set(used_packages@).contains(e.0));
                        if j < i {
                            assert(before.contains(e));
                        }
                    }
                }
            }
            i = i + 1;
        }
        let ghost dv = pairs_view(duplicate_imports@);
        let mut d: usize = 0;
        while d < duplicate_imports.len()
            invariant
                d <= duplicate_imports@.len(),
                dv == pairs_view(duplicate_imports@),
                strictly_sorted(pairs_view(sorted@)),
                pairs_view(sorted@).to_set() == Set::new(
                    |e: (Seq<char>, Seq<char>)| exists|j: int| 0 <= j < imports@.len() && iv[j] == e && (e.1 == "_"@ || seq_set(used_packages@).contains(e.0)),
                ).union(dv.take(d as int).to_set()),
            decreases duplicate_imports.len() - d,
        {
            let entry = (duplicate_imports[d].0.clone(), duplicate_imports[d].1.clone());
            assert(dv[d as int] == (entry.0@, entry.1@));
            insert_sorted(&mut sorted, entry);
            proof {
                lemma_push_to_set(dv.take(d as int), dv[d as int]);
                assert(dv.take(d + 1) =~= dv.take(d as int).push(dv[d as int]));
            }
            d = d + 1;
        }
        assert(dv.take(d as int) =~= dv);
        proof {
            lemma_kept(st, iv, seq_set(used_packages@), dv);
        }
        let mut entries: Vec<OutputImport> = Vec::new();
        let mut k: usize = 0;
        let ghost sv = pairs_view(sorted@);
        while k < sorted.len()
            invariant
                k <= sorted@.len(),
                sv == pairs_view(sorted@),
                output_view(entries@) == sv.take(k as int),
            decreases sorted.len() - k,
        {
            let e = OutputImport { path: sorted[k].0.clone(), alias: sorted[k].1.clone() };
            let ghost before = entries@;
            entries.push(e);
            assert(output_view(entries@) =~= output_view(before).push((e.path@, e.alias@)));
            assert(sv.take(k + 1) =~= sv.take(k as int).push(sv[k as int]));
            k = k + 1;
        }
        assert(sv.take(k as int) =~= sv);
        let collisions = detect_collisions(&sorted, &go_default_names);
        let ghost es = output_view(entries@);
        assert(es == sv);
        assert(defaults == pairs_view(go_default_names@));
        assert(strictly_sorted(es));
        assert(es.to_set() == kept_entries(st));
        assert forall|k: int|
            0 <= k < collisions@.len() implies paths_for(es, (#[trigger] collisions@[k]).0@, defaults)
                == views_of(collisions@[k].1@) && collisions@[k].1@.len() >= 2 by {}
        (entries, collisions)
    }
}

proof fn lemma_kept(
    st: ImportsV,
    iv: Seq<(Seq<char>, Seq<char>)>,
    used: Set<Seq<char>>,
    dv: Seq<(Seq<char>, Seq<char>)>,
)
    requires
        st.imports == iv,
        st.used == used,
        st.duplicates == dv.to_set(),
        distinct_keys(iv),
    ensures
        Set::new(
            |e: (Seq<char>, Seq<char>)| exists|j: int| 0 <= j < iv.len() && iv[j] == e && (e.1 == "_"@ || used.contains(e.0)),
        ).union(dv.to_set()) == kept_entries(st),
{
    assert forall|e: (Seq<char>, Seq<char>)| (exists|j: int| 0 <= j < iv.len() && iv[j] == e) <==> lookup(iv, e.0) == Some(e.1) by {
        if exists|j: int| 0 <= j < iv.len() && iv[j] == e {
            let j = choose|j: int| 0 <= j < iv.len() && iv[j] == e;
            assert forall|m: int| 0 <= m < j implies (#[trigger] iv[m]).0 != e.0 by {}
            lemma_lookup_at(iv, e.0, j);
        }
        if lookup(iv, e.0) == Some(e.1) {
            let j = lemma_lookup_found(iv, e.0);
        }
    }
    assert(Set::new(
        |e: (Seq<char>, Seq<char>)| exists|j: int| 0 <= j < iv.len() && iv[j] == e && (e.1 == "_"@ || used.contains(e.0)),
    ).union(dv.to_set()) =~= kept_entries(st));
}

proof fn lemma_lookup_found(s: Seq<(Seq<char>, Seq<char>)>, k: Seq<char>) -> (j: int)
    requires
        lookup(s, k) is Some,
    ensures
        0 <= j < s.len(),
        s[j].0 == k,
        Some(s[j].1) == lookup(s, k),
    decreases s.len(),
{
    if s[0].0 == k {
        0
    } else {
        let j = lemma_lookup_found(s.drop_first(), k);
        assert(s.drop_first()[j] == s[j + 1]);
        j + 1
    }
}

fn contains_string(v: &Vec<String>, x: &str) -> (r: bool)
    ensures
        r == seq_set(v@).contains(x@),
{
    let mut i: usize = 0;
    while i < v.len()
        invariant
            i <= v@.len(),
            forall|j: int| 0 <= j < i ==> v@[j]@ != x@,
        decreases v.len() - i,
    {
        if str_eq(v[i].as_str(), x) {
            assert(views_of(v@)[i as int] == x@);
            return true;
        }
        i = i + 1;
    }
    assert(!views_of(v@).contains(x@)) by {
        if views_of(v@).contains(x@) {
            let m = views_of(v@);
            let j = choose|j: int| 0 <= j < m.len() && #[trigger] m[j] == x@;
            assert(v@[j]@ == x@);
        }
    }
    false
}

/// The qualifiers that more than one entry goes by, sorted, each with the
/// paths that go by it; blank imports go by none.
fn detect_collisions(entries: &Vec<(String, String)>, defaults: &Vec<(String, String)>) -> (r: Vec<(String, Vec<String>)>)
    ensures
        ({
            let es = pairs_view(entries@);
            &&& forall|k: int|
                0 <= k < r@.len() ==> paths_for(es, (#[trigger] r@[k]).0@, pairs_view(defaults@))
                    == views_of(r@[k].1@) && r@[k].1@.len() >= 2
            &&& forall|k: int, m: int| 0 <= k < m < r@.len() ==> chars_lt((#[trigger] r@[k]).0@, (#[trigger] r@[m]).0@)
            &&& covers_collisions(es, r@, pairs_view(defaults@))
        }),
{
    let ghost es = pairs_view(entries@);
    let ghost dv = pairs_view(defaults@);
    let mut qualifiers: Vec<(String, String)> = Vec::new();
    assert(pairs_view(qualifiers@).to_set() =~= Set::<(Seq<char>, Seq<char>)>::empty());
    let mut i: usize = 0;
    while i < entries.len()
        invariant
            i <= entries@.len(),
            es == pairs_view(entries@),
            dv == pairs_view(defaults@),
            strictly_sorted(pairs_view(qualifiers@)),
            forall|e: (Seq<char>, Seq<char>)| #[trigger] pairs_view(qualifiers@).to_set().contains(e) <==> (e.1
                == Seq::<char>::empty() && exists|j: int| 0 <= j < i && (#[trigger] es[j]).1 != "_"@ && effective_qualifier(es[j].0, es[j].1, dv) == e.0),
        decreases entries.len() - i,
    {
        assert(es[i as int] == (entries@[i as int].0@, entries@[i as int].1@));
        let ghost before = pairs_view(qualifiers@).to_set();
        if !str_eq(entries[i].1.as_str(), "_") {
            let q = qualifier_of(entries[i].0.as_str(), entries[i].1.as_str(), defaults);
            insert_sorted(&mut qualifiers, (q, String::new()));
        }
        assert forall|e: (Seq<char>, Seq<char>)| #[trigger] pairs_view(qualifiers@).to_set().contains(e) <==> (e.1
            == Seq::<char>::empty() && exists|j: int| 0 <= j < i + 1 && (#[trigger] es[j]).1 != "_"@ && effective_qualifier(es[j].0, es[j].1, dv) == e.0) by {
            if e.1 == Seq::<char>::empty() && exists|j: int| 0 <= j < i + 1 && (#[trigger] es[j]).1 != "_"@ && effective_qualifier(es[j].0, es[j].1, dv) == e.0 {
                let j = choose|j: int| 0 <= j < i + 1 && (#[trigger] es[j]).1 != "_"@ && effective_qualifier(es[j].0, es[j].1, dv) == e.0;
                if j < i {
                    assert(before.contains(e));
                }
            }
        }
        i = i + 1;
    }
    let ghost qv = pairs_view(qualifiers@);
    let mut result: Vec<(String, Vec<String>)> = Vec::new();
    let mut k: usize = 0;
    while k < qualifiers.len()
        invariant
            k <= qualifiers@.len(),
            qv == pairs_view(qualifiers@),
            es == pairs_view(entries@),
            dv == pairs_view(defaults@),
            strictly_sorted(qv),
            forall|e: (Seq<char>, Seq<char>)| #[trigger] qv.to_set().contains(e) <==> (e.1
                == Seq::<char>::empty() && exists|j: int| 0 <= j < entries@.len() && (#[trigger] es[j]).1 != "_"@ && effective_qualifier(es[j].0, es[j].1, dv) == e.0),
            forall|m: int|
                0 <= m < result@.len() ==> paths_for(es, (#[trigger] result@[m]).0@, dv)
                    == views_of(result@[m].1@) && result@[m].1@.len() >= 2,
            forall|m: int| 0 <= m < result@.len() ==> exists|j: int| 0 <= j < k && (#[trigger] result@[m]).0@ == qv[j].0,
            forall|a: int, b: int| 0 <= a < b < result@.len() ==> chars_lt((#[trigger] result@[a]).0@, (#[trigger] result@[b]).0@),
            forall|j: int| 0 <= j < k && paths_for(es, #[trigger] qv[j].0, dv).len() >= 2 ==> exists|m: int| 0 <= m < result@.len() && (#[trigger] result@[m]).0@ == qv[j].0,
        decreases qualifiers.len() - k,
    {
        assert(qv[k as int] == (qualifiers@[k as int].0@, qualifiers@[k as int].1@));
        let paths = paths_by(entries, qualifiers[k].0.as_str(), defaults);
        if paths.len() >= 2 {
            let ghost before = result@;
            proof {
                assert forall|m: int| 0 <= m < before.len() implies chars_lt((#[trigger] before[m]).0@, qv[k as int].0) by {
                    let j = choose|j: int| 0 <= j < k && before[m].0@ == qv[j].0;
                    assert(pair_lt(qv[j], qv[k as int]));
                    assert(qv.to_set().contains(qv[j]));
                    assert(qv.to_set().contains(qv[k as int]));
                }
            }
            result.push((qualifiers[k].0.clone(), paths));
            assert forall|m: int| 0 <= m < result@.len() implies exists|j: int| 0 <= j < k + 1 && (#[trigger] result@[m]).0@ == qv[j].0 by {
                if m < before.len() {
                    assert(result@[m] == before[m]);
                    let j = choose|j: int| 0 <= j < k && before[m].0@ == qv[j].0;
                } else {
                    assert(result@[m].0@ == qv[k as int].0);
                }
            }
            assert forall|j: int| 0 <= j < k + 1 && paths_for(es, #[trigger] qv[j].0, dv).len() >= 2 implies exists|m: int| 0 <= m < result@.len() && (#[trigger] result@[m]).0@ == qv[j].0 by {
                if j < k {
                    let m = choose|m: int| 0 <= m < before.len() && (#[trigger] before[m]).0@ == qv[j].0;
                    assert(result@[m] == before[m]);
                } else {
                    assert(result@[before.len() as int].0@ == qv[j].0);
                }
            }
        } else {
            assert forall|m: int| 0 <= m < result@.len() implies exists|j: int| 0 <= j < k + 1 && (#[trigger] result@[m]).0@ == qv[j].0 by {
                let j = choose|j: int| 0 <= j < k && result@[m].0@ == qv[j].0;
            }
        }
        k = k + 1;
    }
    assert forall|q: Seq<char>|
        #![trigger paths_for(es, q, dv)]
        qualifier_used(es, q, dv) && paths_for(es, q, dv).len() >= 2 implies exists|m: int| 0 <= m < result@.len() && (#[trigger] result@[m]).0@ == q by {
        let j = choose|j: int| 0 <= j < es.len() && (#[trigger] es[j]).1 != "_"@ && effective_qualifier(es[j].0, es[j].1, dv) == q;
        assert(qv.to_set().contains((q, Seq::<char>::empty())));
        let t = choose|t: int| 0 <= t < qv.len() && qv[t] == (q, Seq::<char>::empty());
        assert(qv[t].0 == q);
    }
    result
}

/// The paths of the entries that go by qualifier `q`, in order.
fn paths_by(entries: &Vec<(String, String)>, q: &str, defaults: &Vec<(String, String)>) -> (r: Vec<String>)
    ensures
        views_of(r@) == paths_for(pairs_view(entries@), q@, pairs_view(defaults@)),
{
    let ghost es = pairs_view(entries@);
    let mut r: Vec<String> = Vec::new();
    let mut i: usize = 0;
    assert(es.take(0) =~= Seq::<(Seq<char>, Seq<char>)>::empty());
    assert(views_of(r@) =~= Seq::<Seq<char>>::empty());
    while i < entries.len()
        invariant
            i <= entries@.len(),
            es == pairs_view(entries@),
            views_of(r@) == paths_for(es.take(i as int), q@, pairs_view(defaults@)),
        decreases entries.len() - i,
    {
        assert(es.take(i + 1).drop_last() =~= es.take(i as int));
        assert(es.take(i + 1).last() == (entries@[i as int].0@, entries@[i as int].1@));
        let ghost before = r@;
        if !str_eq(entries[i].1.as_str(), "_") {
            let eq = qualifier_of(entries[i].0.as_str(), entries[i].1.as_str(), defaults);
            if str_eq(eq.as_str(), q) {
                r.push(entries[i].0.clone());
                assert(views_of(r@) =~= views_of(before).push(entries@[i as int].0@));
            }
        }
        proof { reveal_strlit("_"); }
        i = i + 1;
    }
    assert(es.take(i as int) =~= es);
    r
}

/// How a source import names its package.
pub enum ImportAliasKind {
    Named(String),
    Blank,
    Absent,
}

/// A source import: the imported package's name, its alias, and the alias
/// it is referred to by in the source (absent for a blank import).
pub struct FileImportInfo {
    pub name: String,
    pub alias: ImportAliasKind,
    pub effective_alias: Option<String>,
}

/// A source import resolved for emission.
pub struct PlannedImport {
    pub package: String,
    pub source_alias: Option<String>,
    pub path: String,
    pub go_alias: String,
    /// The import is unused and is dropped unless something else needs it.
    pub drop_unused: bool,
}

/// The mathematical form of a [`PlannedImport`].
pub struct PlannedV {
    pub package: Seq<char>,
    pub source_alias: Option<Seq<char>>,
    pub path: Seq<char>,
    pub go_alias: Seq<char>,
    pub drop_unused: bool,
}

impl View for PlannedImport {
    type V = PlannedV;

    open spec fn view(&self) -> PlannedV {
        PlannedV {
            package: self.package@,
            source_alias: opt_text_view(self.source_alias),
            path: self.path@,
            go_alias: self.go_alias@,
            drop_unused: self.drop_unused,
        }
    }
}

pub open spec fn planned_view(s: Seq<PlannedImport>) -> Seq<PlannedV> {
    s.map_values(|p: PlannedImport| p@)
}

pub open spec fn opt_text_view(o: Option<String>) -> Option<Seq<char>> {
    match o {
        Some(t) => Some(t@),
        None => None,
    }
}

pub open spec fn has_go_prefix(name: Seq<char>) -> bool {
    3 <= name.len() && name.take(3) == "go:"@
}

/// How a source import is emitted: the Go path (a Go package's own, or the
/// module path joined with the package), the Go alias (the named one, `_`
/// for a blank import, else the Go package's import name or the source
/// alias), and whether it is dropped as unused.
pub open spec fn plan_import(
    i: FileImportInfo,
    go_module: Seq<char>,
    unused: Set<Seq<char>>,
    names: Seq<(Seq<char>, Seq<char>)>,
) -> PlannedV {
    let source_alias = if i.alias is Blank {
        None
    } else {
        opt_text_view(i.effective_alias)
    };
    let path = if has_go_prefix(i.name@) {
        i.name@.skip(3)
    } else {
        go_module + seq!['/'] + i.name@
    };
    let go_alias = match i.alias {
        ImportAliasKind::Named(a) => a@,
        ImportAliasKind::Blank => "_"@,
        ImportAliasKind::Absent => if has_go_prefix(i.name@) {
            match lookup(names, i.name@) {
                Some(n) => n,
                None => Seq::empty(),
            }
        } else {
            match opt_text_view(i.effective_alias) {
                Some(a) => a,
                None => Seq::empty(),
            }
        },
    };
    PlannedV {
        package: i.name@,
        source_alias,
        path,
        go_alias,
        drop_unused: source_alias matches Some(a) && unused.contains(a),
    }
}

/// The source alias of the last import of `package` that has one.
pub open spec fn alias_of(s: Seq<PlannedV>, package: Seq<char>) -> Option<Seq<char>>
    decreases s.len(),
{
    if s.len() == 0 {
        None
    } else if s.last().package == package && s.last().source_alias is Some {
        s.last().source_alias
    } else {
        alias_of(s.drop_last(), package)
    }
}

/// The package of the last import referred to by `alias`.
pub open spec fn package_of(s: Seq<PlannedV>, alias: Seq<char>) -> Option<Seq<char>>
    decreases s.len(),
{
    if s.len() == 0 {
        None
    } else if s.last().source_alias == Some(alias) {
        Some(s.last().package)
    } else {
        package_of(s.drop_last(), alias)
    }
}

/// The Go alias of the last kept (or, with `dropped`, the last dropped and
/// aliased) import of `path`.
pub open spec fn last_alias(s: Seq<PlannedV>, path: Seq<char>, dropped: bool) -> Option<Seq<char>>
    decreases s.len(),
{
    if s.len() == 0 {
        None
    } else if s.last().path == path && s.last().drop_unused == dropped && (!dropped
        || s.last().go_alias.len() > 0) {
        Some(s.last().go_alias)
    } else {
        last_alias(s.drop_last(), path, dropped)
    }
}

/// A file's source imports, resolved once.
pub struct ImportPlan {
    imports: Vec<PlannedImport>,
}

impl ImportPlan {
    pub closed spec fn planned(&self) -> Seq<PlannedV> {
        planned_view(self.imports@)
    }

    /// Resolves each source import in order; `unused` holds the source
    /// aliases nothing refers to.
    pub fn build(
        imports: &Vec<FileImportInfo>,
        go_module: &str,
        unused: &Vec<String>,
        go_package_names: &Vec<(String, String)>,
    ) -> (r: Self)
        ensures
            r.planned().len() == imports@.len(),
            forall|i: int| 0 <= i < imports@.len() ==> #[trigger] r.planned()[i] == plan_import(
                imports@[i],
                go_module@,
                seq_set(unused@),
                pairs_view(go_package_names@),
            ),
    {
        let mut planned: Vec<PlannedImport> = Vec::new();
        let mut i: usize = 0;
        while i < imports.len()
            invariant
                i <= imports@.len(),
                planned@.len() == i,
                forall|j: int| 0 <= j < i ==> #[trigger] planned@[j]@ == plan_import(
                    imports@[j],
                    go_module@,
                    seq_set(unused@),
                    pairs_view(go_package_names@),
                ),
            decreases imports.len() - i,
        {
            let import = &imports[i];
            let source_alias = match import.alias {
                ImportAliasKind::Blank => None,
                _ => import.effective_alias.clone(),
            };
            let drop_unused = match &source_alias {
                Some(a) => contains_string(unused, a.as_str()),
                None => false,
            };
            let go_import = crate::names::is_go_import(import.name.as_str());
            proof {
                reveal_strlit("go:");
            }
            let path = if go_import {
                let n = import.name.as_str().unicode_len();
                owned(import.name.as_str().substring_char(3, n))
            } else {
                let mut p = owned(go_module);
                p.append("/");
                p.append(import.name.as_str());
                p
            };
            proof {
                reveal_strlit("/");
            }
            let go_alias = match &import.alias {
                ImportAliasKind::Named(a) => a.clone(),
                ImportAliasKind::Blank => owned("_"),
                ImportAliasKind::Absent => {
                    if go_import {
                        match find(go_package_names, import.name.as_str()) {
                            Some(n) => n.clone(),
                            None => String::new(),
                        }
                    } else {
                        match &import.effective_alias {
                            Some(a) => a.clone(),
                            None => String::new(),
                        }
                    }
                },
            };
            proof {
                reveal_strlit("_");
            }
            let entry = PlannedImport {
                package: import.name.clone(),
                source_alias,
                path,
                go_alias,
                drop_unused,
            };
            assert(entry.path@ =~= plan_import(imports@[i as int], go_module@, seq_set(unused@), pairs_view(go_package_names@)).path);
            planned.push(entry);
            i = i + 1;
        }
        let r = ImportPlan { imports: planned };
        assert forall|i: int| 0 <= i < imports@.len() implies #[trigger] r.planned()[i] == plan_import(
            imports@[i],
            go_module@,
            seq_set(unused@),
            pairs_view(go_package_names@),
        ) by {
            assert(r.planned()[i] == planned@[i]@);
        }
        r
    }

    /// The alias the source refers to `package` by.
    pub fn package_alias(&self, package: &str) -> (r: Option<&str>)
        ensures
            match r {
                Some(a) => alias_of(self.planned(), package@) == Some(a@),
                None => alias_of(self.planned(), package@) is None,
            },
    {
        let ghost s = self.planned();
        let mut i: usize = self.imports.len();
        assert(s.take(i as int) =~= s);
        while i > 0
            invariant
                i <= self.imports@.len(),
                s == planned_view(self.imports@),
                alias_of(s, package@) == alias_of(s.take(i as int), package@),
            decreases i,
        {
            let p = &self.imports[i - 1];
            assert(s.take(i as int).drop_last() =~= s.take(i - 1));
            assert(s.take(i as int).last() == p@);
            if str_eq(p.package.as_str(), package) {
                match &p.source_alias {
                    Some(a) => {
                        return Some(a.as_str());
                    },
                    None => {},
                }
            }
            i = i - 1;
        }
        None
    }

    /// The package the source refers to by `alias`.
    pub fn package_for_alias(&self, alias: &str) -> (r: Option<&str>)
        ensures
            match r {
                Some(p) => package_of(self.planned(), alias@) == Some(p@),
                None => package_of(self.planned(), alias@) is None,
            },
    {
        let ghost s = self.planned();
        let mut i: usize = self.imports.len();
        assert(s.take(i as int) =~= s);
        while i > 0
            invariant
                i <= self.imports@.len(),
                s == planned_view(self.imports@),
                package_of(s, alias@) == package_of(s.take(i as int), alias@),
            decreases i,
        {
            let p = &self.imports[i - 1];
            assert(s.take(i as int).drop_last() =~= s.take(i - 1));
            assert(s.take(i as int).last() == p@);
            let matches = match &p.source_alias {
                Some(a) => str_eq(a.as_str(), alias),
                None => false,
            };
            if matches {
                return Some(p.package.as_str());
            }
            i = i - 1;
        }
        None
    }
}

/// Sets `key` to `value`, keeping keys distinct.
fn upsert(v: &mut Vec<(String, String)>, key: String, value: String)
    requires
        distinct_keys(pairs_view(old(v)@)),
    ensures
        distinct_keys(pairs_view(final(v)@)),
        forall|k: Seq<char>| #[trigger] lookup(pairs_view(final(v)@), k) == if k == key@ {
            Some(value@)
        } else {
            lookup(pairs_view(old(v)@), k)
        },
{
    let ghost s = pairs_view(v@);
    let mut i: usize = 0;
    while i < v.len()
        invariant
            s == pairs_view(v@),
            v@ == old(v)@,
            distinct_keys(s),
            i <= v@.len(),
            forall|j: int| 0 <= j < i ==> (#[trigger] s[j]).0 != key@,
        decreases v.len() - i,
    {
        assert(s[i as int] == (v@[i as int].0@, v@[i as int].1@));
        if str_eq(v[i].0.as_str(), key.as_str()) {
            let ghost kv = key@;
            v.set(i, (key, value));
            let ghost t = pairs_view(v@);
            assert(s[i as int].0 == kv);
            assert(t =~= s.update(i as int, (kv, value@)));
            assert forall|a: int, b: int| 0 <= a < b < t.len() implies (#[trigger] t[a]).0 != (#[trigger] t[b]).0 by {
                assert(t[a].0 == s[a].0 && t[b].0 == s[b].0);
            }
            assert forall|k: Seq<char>| #[trigger] lookup(t, k) == if k == kv { Some(value@) } else { lookup(s, k) } by {
                lemma_lookup_update(s, i as int, value@, k);
            }
            return;
        }
        i = i + 1;
    }
    proof { lemma_lookup_none(s, key@); }
    let ghost kv = key@;
    v.push((key, value));
    let ghost t = pairs_view(v@);
    assert(t =~= s.push((kv, value@)));
    assert forall|k: Seq<char>| #[trigger] lookup(t, k) == if k == kv { Some(value@) } else { lookup(s, k) } by {
        lemma_lookup_append(s, (kv, value@), k);
    }
}

proof fn lemma_lookup_append(s: Seq<(Seq<char>, Seq<char>)>, x: (Seq<char>, Seq<char>), k: Seq<char>)
    requires
        forall|j: int| 0 <= j < s.len() ==> (#[trigger] s[j]).0 != x.0,
    ensures
        lookup(s.push(x), k) == if k == x.0 { Some(x.1) } else { lookup(s, k) },
    decreases s.len(),
{
    let t = s.push(x);
    if s.len() > 0 {
        assert(t[0] == s[0]);
        assert(s[0].0 != x.0);
        assert(t.drop_first() =~= s.drop_first().push(x));
        assert forall|j: int| 0 <= j < s.drop_first().len() implies (#[trigger] s.drop_first()[j]).0 != x.0 by {
            assert(s.drop_first()[j] == s[j + 1]);
        }
        lemma_lookup_append(s.drop_first(), x, k);
        if s[0].0 == k {
            assert(lookup(t, k) == Some(s[0].1));
            assert(lookup(s, k) == Some(s[0].1));
        } else {
            assert(lookup(t, k) == lookup(t.drop_first(), k));
            assert(lookup(s, k) == lookup(s.drop_first(), k));
        }
    } else {
        assert(t[0] == x);
        assert(t.drop_first() =~= Seq::<(Seq<char>, Seq<char>)>::empty());
        assert(lookup(Seq::<(Seq<char>, Seq<char>)>::empty(), k) is None);
        assert(lookup(s, k) is None);
    }
}

proof fn lemma_lookup_update(s: Seq<(Seq<char>, Seq<char>)>, i: int, value: Seq<char>, k: Seq<char>)
    requires
        0 <= i < s.len(),
        distinct_keys(s),
    ensures
        lookup(s.update(i, (s[i].0, value)), k) == if k == s[i].0 { Some(value) } else { lookup(s, k) },
    decreases s.len(),
{
    let t = s.update(i, (s[i].0, value));
    if i == 0 {
        assert(t.drop_first() =~= s.drop_first());
    } else {
        assert(t.drop_first() =~= s.drop_first().update(i - 1, (s[i].0, value)));
        assert(s.drop_first()[i - 1] == s[i]);
        assert forall|a: int, b: int| 0 <= a < b < s.drop_first().len() implies (#[trigger] s.drop_first()[a]).0 != (#[trigger] s.drop_first()[b]).0 by {
            assert(s.drop_first()[a] == s[a + 1] && s.drop_first()[b] == s[b + 1]);
        }
        lemma_lookup_update(s.drop_first(), i - 1, value, k);
        assert(s[0].0 != s[i].0);
    }
}

impl ImportBuilder {
    /// A builder that starts from a file's source imports: each kept path
    /// under the alias of its last kept import, and the aliases of dropped
    /// imports, remembered in case the path is needed after all.
    pub fn from_plan(
        plan: ImportPlan,
        go_package_names: Vec<(String, String)>,
        go_default_names: Vec<(String, String)>,
    ) -> (r: Self)
        ensures
            r.wf(),
            forall|k: Seq<char>| #[trigger] lookup(r.imports_view(), k) == last_alias(plan.planned(), k, false),
            forall|k: Seq<char>| #[trigger] lookup(r.state().imports, k) == last_alias(plan.planned(), k, false),
            r.state().duplicates == Set::<(Seq<char>, Seq<char>)>::empty(),
            r.state().used == Set::<Seq<char>>::empty(),
            forall|k: Seq<char>| #[trigger] lookup(r.dropped_view(), k) == last_alias(plan.planned(), k, true),
            r.duplicates_view() == Set::<(Seq<char>, Seq<char>)>::empty(),
            r.used_view() == Set::<Seq<char>>::empty(),
            r.names_view() == pairs_view(go_package_names@),
            r.defaults_view() == pairs_view(go_default_names@),
    {
        let ghost s = plan.planned();
        let mut imports: Vec<(String, String)> = Vec::new();
        let mut dropped: Vec<(String, String)> = Vec::new();
        let mut i: usize = 0;
        let ImportPlan { imports: planned } = plan;
        assert(pairs_view(imports@) =~= Seq::<(Seq<char>, Seq<char>)>::empty());
        assert(pairs_view(dropped@) =~= Seq::<(Seq<char>, Seq<char>)>::empty());
        while i < planned.len()
            invariant
                i <= planned@.len(),
                s == planned_view(planned@),
                distinct_keys(pairs_view(imports@)),
                distinct_keys(pairs_view(dropped@)),
                forall|k: Seq<char>| #[trigger] lookup(pairs_view(imports@), k) == last_alias(s.take(i as int), k, false),
                forall|k: Seq<char>| #[trigger] lookup(pairs_view(dropped@), k) == last_alias(s.take(i as int), k, true),
            decreases planned.len() - i,
        {
            let p = &planned[i];
            assert(s.take(i + 1).drop_last() =~= s.take(i as int));
            assert(s.take(i + 1).last() == p@);
            if !p.drop_unused {
                upsert(&mut imports, p.path.clone(), p.go_alias.clone());
            } else if p.go_alias.unicode_len() > 0 {
                upsert(&mut dropped, p.path.clone(), p.go_alias.clone());
            }
            i = i + 1;
        }
        assert(s.take(i as int) =~= s);
        let r = ImportBuilder {
            go_package_names,
            go_default_names,
            imports,
            duplicate_imports: Vec::new(),
            dropped_aliases: dropped,
            used_packages: Vec::new(),
        };
        assert(r.duplicates_view() =~= Set::<(Seq<char>, Seq<char>)>::empty());
        assert(r.used_view() =~= Set::<Seq<char>>::empty());
        r
    }
}

} // verus!
