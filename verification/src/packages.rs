//! The Go packages generated code requires, each with the qualifier it is
//! imported under.

use vstd::prelude::*;
use crate::names::{GeneratedPackage, package_path, package_qualifier};
use crate::text::{owned, str_eq};

verus! {

/// A Go package, by import path.
pub struct PackageId(pub String);

impl PackageId {
    pub fn new(path: String) -> (r: Self)
        ensures
            r.0 == path,
    {
        PackageId(path)
    }

    pub fn path(&self) -> (r: &str)
        ensures
            r@ == self.0@,
    {
        self.0.as_str()
    }
}

/// A package and the qualifier generated code uses for it.
pub struct PackageUse {
    pub package: PackageId,
    pub qualifier: String,
}

impl View for PackageUse {
    type V = (Seq<char>, Seq<char>);

    open spec fn view(&self) -> (Seq<char>, Seq<char>) {
        (self.package.0@, self.qualifier@)
    }
}

impl PackageUse {
    pub fn new(path: String, qualifier: String) -> (r: Self)
        ensures
            r@ == (path@, qualifier@),
    {
        PackageUse { package: PackageId::new(path), qualifier }
    }

    /// The use of a package generated code imports on its own behalf.
    pub fn generated(package: GeneratedPackage) -> (r: Self)
        ensures
            r@ == (package_path(package), package_qualifier(package)),
    {
        Self::new(owned(package.path()), owned(package.qualifier()))
    }

    pub fn package(&self) -> (r: &PackageId)
        ensures
            r.0@ == self@.0,
    {
        &self.package
    }

    pub fn qualifier(&self) -> (r: &str)
        ensures
            r@ == self@.1,
    {
        self.qualifier.as_str()
    }

    pub fn duplicate(&self) -> (r: Self)
        ensures
            r@ == self@,
    {
        Self::new(owned(self.package.path()), owned(self.qualifier.as_str()))
    }

    pub fn same_as(&self, other: &PackageUse) -> (r: bool)
        ensures
            r == (self@ == other@),
    {
        str_eq(self.package.path(), other.package.path()) && str_eq(
            self.qualifier.as_str(),
            other.qualifier.as_str(),
        )
    }
}

pub open spec fn uses_view(s: Seq<PackageUse>) -> Seq<(Seq<char>, Seq<char>)> {
    s.map_values(|u: PackageUse| u@)
}

/// No two entries of `s` are the same use.
pub open spec fn distinct_uses(s: Seq<PackageUse>) -> bool {
    forall|i: int, j: int| 0 <= i < j < s.len() ==> s[i]@ != s[j]@
}

/// A set of package uses.
pub struct PackageRequirements {
    uses: Vec<PackageUse>,
}

impl View for PackageRequirements {
    type V = Set<(Seq<char>, Seq<char>)>;

    closed spec fn view(&self) -> Set<(Seq<char>, Seq<char>)> {
        uses_view(self.uses@).to_set()
    }
}

impl Default for PackageRequirements {
    fn default() -> (r: Self)
        ensures
            r@ == Set::<(Seq<char>, Seq<char>)>::empty(),
            r.wf(),
    {
        let r = PackageRequirements { uses: Vec::new() };
        assert(r@ =~= Set::<(Seq<char>, Seq<char>)>::empty());
        r
    }
}

impl PackageRequirements {
    /// Each use is held once.
    pub closed spec fn wf(&self) -> bool {
        distinct_uses(self.uses@)
    }

    pub fn contains(&self, package: &PackageUse) -> (r: bool)
        ensures
            r == self@.contains(package@),
    {
        let mut i: usize = 0;
        while i < self.uses.len()
            invariant
                i <= self.uses@.len(),
                forall|j: int| 0 <= j < i ==> self.uses@[j]@ != package@,
            decreases self.uses.len() - i,
        {
            if self.uses[i].same_as(package) {
                assert(uses_view(self.uses@)[i as int] == package@);
                return true;
            }
            i = i + 1;
        }
        assert(!uses_view(self.uses@).contains(package@));
        false
    }

    /// Adds a use; a use already held is not added again.
    pub fn require(&mut self, package: PackageUse)
        requires
            old(self).wf(),
        ensures
            final(self).wf(),
            final(self)@ == old(self)@.insert(package@),
    {
        if self.contains(&package) {
            assert(old(self)@.insert(package@) =~= old(self)@);
            return ;
        }
        let ghost before = self.uses@;
        self.uses.push(package);
        proof {
            assert(uses_view(self.uses@) =~= uses_view(before).push(package@));
            uses_view(before).lemma_push_to_set_commute(package@);
            assert forall|i: int, j: int| 0 <= i < j < self.uses@.len() implies self.uses@[i]@
                != self.uses@[j]@ by {
                if j == self.uses@.len() - 1 {
                    assert(uses_view(before)[i] == before[i]@);
                }
            }
        }
    }

    pub fn require_generated(&mut self, package: GeneratedPackage)
        requires
            old(self).wf(),
        ensures
            final(self).wf(),
            final(self)@ == old(self)@.insert((package_path(package), package_qualifier(package))),
    {
        self.require(PackageUse::generated(package));
    }

    /// Adds every use of `other`.
    pub fn extend(&mut self, other: &Self)
        requires
            old(self).wf(),
        ensures
            final(self).wf(),
            final(self)@ == old(self)@.union(other@),
    {
        let mut i: usize = 0;
        while i < other.uses.len()
            invariant
                i <= other.uses@.len(),
                self.wf(),
                self@ == old(self)@.union(uses_view(other.uses@.take(i as int)).to_set()),
            decreases other.uses.len() - i,
        {
            let ghost before = self@;
            self.require(other.uses[i].duplicate());
            proof {
                assert(uses_view(other.uses@.take(i + 1)) =~= uses_view(other.uses@.take(i as int)).push(
                    other.uses@[i as int]@,
                ));
                uses_view(other.uses@.take(i as int)).lemma_push_to_set_commute(other.uses@[i as int]@);
                assert(self@ =~= old(self)@.union(uses_view(other.uses@.take(i + 1)).to_set()));
            }
            i = i + 1;
        }
        assert(other.uses@.take(i as int) =~= other.uses@);
    }

    /// The uses, each once, in the order they were first required.
    pub fn iter(&self) -> (r: &[PackageUse])
        requires
            self.wf(),
        ensures
            uses_view(r@).to_set() == self@,
            distinct_uses(r@),
    {
        self.uses.as_slice()
    }
}

/// Requiring a use makes it held, keeps every use held before, and adds
/// nothing else; requiring it again changes nothing.
pub proof fn law_require(held: Set<(Seq<char>, Seq<char>)>, package: (Seq<char>, Seq<char>))
    ensures
        held.insert(package).contains(package),
        held.subset_of(held.insert(package)),
        forall|u: (Seq<char>, Seq<char>)| #[trigger] held.insert(package).contains(u) ==> u == package
            || held.contains(u),
        held.insert(package).insert(package) == held.insert(package),
{
    assert(held.insert(package).insert(package) =~= held.insert(package));
}

} // verus!
