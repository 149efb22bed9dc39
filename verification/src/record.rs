//! The record types produced by the index parser, together with their
//! mathematical views.

use vstd::prelude::*;

verus! {

/// Upstream source of a package: accepted only when its name is non-empty.
#[derive(Debug, Clone, PartialEq)]
pub struct Source {
    pub name: String,
    pub homepage: String,
}

/// One recorded prior release of a package.
#[derive(Debug, Clone, PartialEq)]
pub struct PackageHistory {
    pub version: String,
    pub release: u32,
    pub date: String,
}

/// One dependency entry: the name is required and non-empty, the version and
/// release constraints are optional.
#[derive(Debug, Clone, PartialEq)]
pub struct Dependency {
    pub name: String,
    pub version: Option<String>,
    pub release: Option<u32>,
}

/// One package's metadata as read from the index document.
#[derive(Debug, Clone, PartialEq)]
pub struct PackageInfo {
    pub name: String,
    pub summary: String,
    pub description: String,
    pub version: String,
    pub release: u32,
    pub license: String,
    pub part_of: String,
    pub package_size: u64,
    pub installed_size: u64,
    pub package_format: String,
    pub distribution: String,
    pub distribution_release: String,
    pub architecture: String,
    pub source: Option<Source>,
    pub history: Vec<PackageHistory>,
    pub dependencies: Vec<Dependency>,
}

#[verifier::ext_equal]
pub ghost struct SourceView {
    pub name: Seq<char>,
    pub homepage: Seq<char>,
}

#[verifier::ext_equal]
pub ghost struct PackageHistoryView {
    pub version: Seq<char>,
    pub release: u32,
    pub date: Seq<char>,
}

#[verifier::ext_equal]
pub ghost struct DependencyView {
    pub name: Seq<char>,
    pub version: Option<Seq<char>>,
    pub release: Option<u32>,
}

#[verifier::ext_equal]
pub ghost struct PackageInfoView {
    pub name: Seq<char>,
    pub summary: Seq<char>,
    pub description: Seq<char>,
    pub version: Seq<char>,
    pub release: u32,
    pub license: Seq<char>,
    pub part_of: Seq<char>,
    pub package_size: u64,
    pub installed_size: u64,
    pub package_format: Seq<char>,
    pub distribution: Seq<char>,
    pub distribution_release: Seq<char>,
    pub architecture: Seq<char>,
    pub source: Option<SourceView>,
    pub history: Seq<PackageHistoryView>,
    pub dependencies: Seq<DependencyView>,
}

impl View for Source {
    type V = SourceView;

    open spec fn view(&self) -> SourceView {
        SourceView { name: self.name@, homepage: self.homepage@ }
    }
}

impl View for PackageHistory {
    type V = PackageHistoryView;

    open spec fn view(&self) -> PackageHistoryView {
        PackageHistoryView { version: self.version@, release: self.release, date: self.date@ }
    }
}

impl View for Dependency {
    type V = DependencyView;

    open spec fn view(&self) -> DependencyView {
        DependencyView {
            name: self.name@,
            version: match self.version {
                Some(v) => Some(v@),
                None => None,
            },
            release: self.release,
        }
    }
}

impl View for PackageInfo {
    type V = PackageInfoView;

    open spec fn view(&self) -> PackageInfoView {
        PackageInfoView {
            name: self.name@,
            summary: self.summary@,
            description: self.description@,
            version: self.version@,
            release: self.release,
            license: self.license@,
            part_of: self.part_of@,
            package_size: self.package_size,
            installed_size: self.installed_size,
            package_format: self.package_format@,
            distribution: self.distribution@,
            distribution_release: self.distribution_release@,
            architecture: self.architecture@,
            source: match self.source {
                Some(s) => Some(s@),
                None => None,
            },
            history: history_views(self.history@),
            dependencies: dep_views(self.dependencies@),
        }
    }
}

/// The view of a whole record set.
pub open spec fn records_view(v: Seq<PackageInfo>) -> Seq<PackageInfoView> {
    v.map_values(|r: PackageInfo| r@)
}

/// The views of a history list.
pub open spec fn history_views(v: Seq<PackageHistory>) -> Seq<PackageHistoryView> {
    v.map_values(|h: PackageHistory| h@)
}

/// The views of a dependency list.
pub open spec fn dep_views(v: Seq<Dependency>) -> Seq<DependencyView> {
    v.map_values(|d: Dependency| d@)
}

/// Every record a full parse may return satisfies this: a non-empty name and
/// a non-empty version.
pub open spec fn record_complete(r: PackageInfoView) -> bool {
    r.name.len() > 0 && r.version.len() > 0
}

impl Source {
    /// An exact copy; the views are equal.
    pub fn duplicate(&self) -> (r: Source)
        ensures
            r@ == self@,
    {
        Source { name: self.name.clone(), homepage: self.homepage.clone() }
    }
}

impl PackageHistory {
    /// An exact copy; the views are equal.
    pub fn duplicate(&self) -> (r: PackageHistory)
        ensures
            r@ == self@,
    {
        PackageHistory {
            version: self.version.clone(),
            release: self.release,
            date: self.date.clone(),
        }
    }
}

impl Dependency {
    /// An exact copy; the views are equal.
    pub fn duplicate(&self) -> (r: Dependency)
        ensures
            r@ == self@,
    {
        Dependency {
            name: self.name.clone(),
            version: match &self.version {
                Some(v) => Some(v.clone()),
                None => None,
            },
            release: self.release,
        }
    }
}

impl PackageInfo {
    /// An exact copy; the views are equal.
    pub fn duplicate(&self) -> (r: PackageInfo)
        ensures
            r@ == self@,
    {
        let mut history: Vec<PackageHistory> = Vec::new();
        let mut i: usize = 0;
        while i < self.history.len()
            invariant
                i <= self.history.len(),
                history@.len() == i as int,
                forall|k: int| 0 <= k < i ==> history@[k]@ == self.history@[k]@,
            decreases self.history.len() - i,
        {
            history.push(self.history[i].duplicate());
            i = i + 1;
        }
        let mut dependencies: Vec<Dependency> = Vec::new();
        let mut j: usize = 0;
        while j < self.dependencies.len()
            invariant
                j <= self.dependencies.len(),
                dependencies@.len() == j as int,
                forall|k: int| 0 <= k < j ==> dependencies@[k]@ == self.dependencies@[k]@,
            decreases self.dependencies.len() - j,
        {
            dependencies.push(self.dependencies[j].duplicate());
            j = j + 1;
        }
        let r = PackageInfo {
            name: self.name.clone(),
            summary: self.summary.clone(),
            description: self.description.clone(),
            version: self.version.clone(),
            release: self.release,
            license: self.license.clone(),
            part_of: self.part_of.clone(),
            package_size: self.package_size,
            installed_size: self.installed_size,
            package_format: self.package_format.clone(),
            distribution: self.distribution.clone(),
            distribution_release: self.distribution_release.clone(),
            architecture: self.architecture.clone(),
            source: match &self.source {
                Some(s) => Some(s.duplicate()),
                None => None,
            },
            history,
            dependencies,
        };
        proof {
            assert(r@.history =~= self@.history);
            assert(r@.dependencies =~= self@.dependencies);
            assert(r@ =~= self@);
        }
        r
    }
}

/// An exact copy of a whole record set; the views are equal.
pub fn duplicate_records(v: &Vec<PackageInfo>) -> (r: Vec<PackageInfo>)
    ensures
        records_view(r@) == records_view(v@),
{
    let mut r: Vec<PackageInfo> = Vec::new();
    let mut i: usize = 0;
    while i < v.len()
        invariant
            i <= v.len(),
            r@.len() == i as int,
            forall|k: int| 0 <= k < i ==> r@[k]@ == v@[k]@,
        decreases v.len() - i,
    {
        r.push(v[i].duplicate());
        i = i + 1;
    }
    proof {
        assert(records_view(r@) =~= records_view(v@));
    }
    r
}

} // verus!
