//! The record parser: turns an index document into the ordered sequence of
//! package records, applying the lenient field defaults, excluding package
//! elements that descend from an obsolete container, and dropping records
//! whose name or version resolves to empty.
//!
//! Package records are `Package` elements found at any depth; an ancestor
//! element tagged `Obsoletes` marks a package as retired.

use vstd::prelude::*;
use crate::record::{
    Dependency, DependencyView, PackageHistory, PackageHistoryView, PackageInfo, PackageInfoView,
    Source, SourceView, dep_views, history_views, record_complete, records_view,
};
use crate::text::{
    parse_u32_str, parse_u64_str, spec_parse_u32, spec_parse_u64, spec_trim, str_eq, trim_str,
};
use crate::xmltree::{
    XmlElemView, XmlTree, parse_xml_text, spec_attr, spec_desc_list, spec_field_elem,
    spec_field_text, spec_under_tag, xml_doc_of,
};

verus! {

/// The errors a load can surface: the source was unreadable, or the document
/// was not well-formed markup. Malformed individual fields are never errors.
#[derive(Clone, Copy, Debug, PartialEq, Eq, Structural)]
pub enum IndexError {
    Unreadable,
    Malformed,
}

/// A named field's text, or the given default when the field is absent.
pub open spec fn spec_field_or(
    t: Seq<XmlElemView>,
    i: int,
    tag: Seq<char>,
    def: Seq<char>,
) -> Seq<char> {
    match spec_field_text(t, i, tag) {
        Some(s) => s,
        None => def,
    }
}

/// A named numeric field; absent or unparseable values become 0.
pub open spec fn spec_field_u64(t: Seq<XmlElemView>, i: int, tag: Seq<char>) -> u64 {
    match spec_field_text(t, i, tag) {
        Some(s) => match spec_parse_u64(s) {
            Some(v) => v,
            None => 0,
        },
        None => 0,
    }
}

/// A named numeric field; absent or unparseable values become the default.
pub open spec fn spec_field_u32_or(t: Seq<XmlElemView>, i: int, tag: Seq<char>, def: u32) -> u32 {
    match spec_field_text(t, i, tag) {
        Some(s) => match spec_parse_u32(s) {
            Some(v) => v,
            None => def,
        },
        None => def,
    }
}

/// An attribute's value, or the given default when absent.
pub open spec fn spec_attr_or(
    t: Seq<XmlElemView>,
    e: int,
    name: Seq<char>,
    def: Seq<char>,
) -> Seq<char> {
    match spec_attr(t, e, name) {
        Some(v) => v,
        None => def,
    }
}

/// A numeric attribute; absent or unparseable values become the default.
pub open spec fn spec_attr_u32_or(t: Seq<XmlElemView>, e: int, name: Seq<char>, def: u32) -> u32 {
    match spec_attr(t, e, name) {
        Some(s) => match spec_parse_u32(s) {
            Some(v) => v,
            None => def,
        },
        None => def,
    }
}

/// An optional numeric attribute; an unparseable value stays absent.
pub open spec fn spec_attr_opt_u32(t: Seq<XmlElemView>, e: int, name: Seq<char>) -> Option<u32> {
    match spec_attr(t, e, name) {
        Some(s) => spec_parse_u32(s),
        None => None,
    }
}

/// The source of a package: present only when a source element exists and its
/// name attribute is non-empty.
pub open spec fn spec_source_of(t: Seq<XmlElemView>, i: int) -> Option<SourceView> {
    match spec_field_elem(t, i, "Source"@) {
        Some(e) => match spec_attr(t, e, "name"@) {
            Some(n) => if n.len() > 0 {
                Some(
                    SourceView {
                        name: n,
                        homepage: spec_attr_or(t, e, "homepage"@, ""@),
                    },
                )
            } else {
                None
            },
            None => None,
        },
        None => None,
    }
}

/// One recorded prior release, read from an update element's attributes.
pub open spec fn spec_history_entry(t: Seq<XmlElemView>, e: int) -> PackageHistoryView {
    PackageHistoryView {
        version: spec_attr_or(t, e, "version"@, ""@),
        release: spec_attr_u32_or(t, e, "release"@, 1),
        date: spec_attr_or(t, e, "date"@, ""@),
    }
}

/// The package's history: the update elements below its history element, in
/// document order.
pub open spec fn spec_history_of(t: Seq<XmlElemView>, i: int) -> Seq<PackageHistoryView> {
    match spec_field_elem(t, i, "History"@) {
        Some(h) => spec_desc_list(t, h, "Update"@, 0).map_values(|e: int| spec_history_entry(t, e)),
        None => Seq::empty(),
    }
}

/// One dependency entry: the trimmed element text names the dependency; the
/// version and release constraints come from attributes.
pub open spec fn spec_dep_entry(t: Seq<XmlElemView>, e: int) -> DependencyView {
    DependencyView {
        name: spec_trim(t[e].text),
        version: spec_attr(t, e, "version"@),
        release: spec_attr_opt_u32(t, e, "release"@),
    }
}

/// The dependency entries for the given element indices, skipping entries
/// whose name is empty.
pub open spec fn spec_deps_from(t: Seq<XmlElemView>, list: Seq<int>) -> Seq<DependencyView>
    decreases list.len(),
{
    if list.len() == 0 {
        Seq::empty()
    } else {
        let d = spec_dep_entry(t, list[0]);
        (if d.name.len() > 0 {
            seq![d]
        } else {
            Seq::empty()
        }) + spec_deps_from(t, list.drop_first())
    }
}

/// The package's dependencies: the package entries below its dependencies
/// element, in document order, entries with empty names skipped.
pub open spec fn spec_deps_of(t: Seq<XmlElemView>, i: int) -> Seq<DependencyView> {
    match spec_field_elem(t, i, "Dependencies"@) {
        Some(d) => spec_deps_from(t, spec_desc_list(t, d, "Package"@, 0)),
        None => Seq::empty(),
    }
}

/// The record extracted for the package element at index `i`, with every
/// absent field at its literal default.
pub open spec fn spec_record_of(t: Seq<XmlElemView>, i: int) -> PackageInfoView {
    PackageInfoView {
        name: spec_field_or(t, i, "Name"@, ""@),
        summary: spec_field_or(t, i, "Summary"@, ""@),
        description: spec_field_or(t, i, "Description"@, ""@),
        version: spec_field_or(t, i, "Version"@, ""@),
        release: spec_field_u32_or(t, i, "Release"@, 1),
        license: spec_field_or(t, i, "License"@, ""@),
        part_of: spec_field_or(t, i, "PartOf"@, "system"@),
        package_size: spec_field_u64(t, i, "PackageSize"@),
        installed_size: spec_field_u64(t, i, "InstalledSize"@),
        package_format: spec_field_or(t, i, "PackageFormat"@, "1.0"@),
        distribution: spec_field_or(t, i, "Distribution"@, "PisiLinux"@),
        distribution_release: spec_field_or(t, i, "DistributionRelease"@, "2.0"@),
        architecture: spec_field_or(t, i, "Architecture"@, "x86_64"@),
        source: spec_source_of(t, i),
        history: spec_history_of(t, i),
        dependencies: spec_deps_of(t, i),
    }
}

/// The element at `i` contributes a record: it is a package element, no
/// ancestor is an obsolete container, and its name and version are non-empty.
pub open spec fn spec_included(t: Seq<XmlElemView>, i: int) -> bool {
    &&& 0 <= i < t.len()
    &&& t[i].tag == "Package"@
    &&& !spec_under_tag(t, i, "Obsoletes"@)
    &&& spec_record_of(t, i).name.len() > 0
    &&& spec_record_of(t, i).version.len() > 0
}

/// The records of the included elements at index `k` and later, in document
/// order.
pub open spec fn spec_parse_from(t: Seq<XmlElemView>, k: int) -> Seq<PackageInfoView>
    decreases t.len() - k when 0 <= k
{
    if !(0 <= k < t.len()) {
        Seq::empty()
    } else {
        (if spec_included(t, k) {
            seq![spec_record_of(t, k)]
        } else {
            Seq::empty()
        }) + spec_parse_from(t, k + 1)
    }
}

/// The full parse of a flattened document.
pub open spec fn spec_parse_tree(t: Seq<XmlElemView>) -> Seq<PackageInfoView> {
    spec_parse_from(t, 0)
}

/// The record sequence an index document denotes, or `None` when the markup
/// is malformed.
pub open spec fn spec_index_of_text(text: Seq<char>) -> Option<Seq<PackageInfoView>> {
    match xml_doc_of(text) {
        Some(t) => Some(spec_parse_tree(t)),
        None => None,
    }
}

/// A package element below an obsolete container, however deep the nesting,
/// is never included in the parse result.
pub proof fn lemma_obsolete_excluded(t: Seq<XmlElemView>, i: int)
    requires
        spec_under_tag(t, i, "Obsoletes"@),
    ensures
        !spec_included(t, i),
{
}

fn field_string_or(t: &XmlTree, i: usize, tag: &str, def: &str) -> (r: String)
    requires
        t.wf(),
        i < t@.len(),
    ensures
        r@ == spec_field_or(t@, i as int, tag@, def@),
{
    match t.field_text(i, tag) {
        Some(s) => s,
        None => String::from_str(def),
    }
}

fn field_u64(t: &XmlTree, i: usize, tag: &str) -> (r: u64)
    requires
        t.wf(),
        i < t@.len(),
    ensures
        r == spec_field_u64(t@, i as int, tag@),
{
    match t.field_text(i, tag) {
        Some(s) => match parse_u64_str(s.as_str()) {
            Some(v) => v,
            None => 0,
        },
        None => 0,
    }
}

fn field_u32_or(t: &XmlTree, i: usize, tag: &str, def: u32) -> (r: u32)
    requires
        t.wf(),
        i < t@.len(),
    ensures
        r == spec_field_u32_or(t@, i as int, tag@, def),
{
    match t.field_text(i, tag) {
        Some(s) => match parse_u32_str(s.as_str()) {
            Some(v) => v,
            None => def,
        },
        None => def,
    }
}

fn attr_string_or(t: &XmlTree, e: usize, name: &str, def: &str) -> (r: String)
    requires
        e < t@.len(),
    ensures
        r@ == spec_attr_or(t@, e as int, name@, def@),
{
    match t.attr(e, name) {
        Some(v) => v.clone(),
        None => String::from_str(def),
    }
}

fn attr_u32_or(t: &XmlTree, e: usize, name: &str, def: u32) -> (r: u32)
    requires
        e < t@.len(),
    ensures
        r == spec_attr_u32_or(t@, e as int, name@, def),
{
    match t.attr(e, name) {
        Some(v) => match parse_u32_str(v.as_str()) {
            Some(x) => x,
            None => def,
        },
        None => def,
    }
}

fn extract_source(t: &XmlTree, i: usize) -> (r: Option<Source>)
    requires
        t.wf(),
        i < t@.len(),
    ensures
        match r {
            Some(s) => spec_source_of(t@, i as int) == Some(s@),
            None => spec_source_of(t@, i as int) is None,
        },
{
    match t.field_elem(i, "Source") {
        Some(e) => match t.attr(e, "name") {
            Some(n) => {
                if !n.as_str().is_empty() {
                    let name = n.clone();
                    let s = Source { name, homepage: attr_string_or(t, e, "homepage", "") };
                    proof {
                        assert(s@ =~= spec_source_of(t@, i as int)->0);
                    }
                    Some(s)
                } else {
                    None
                }
            },
            None => None,
        },
        None => None,
    }
}

fn extract_history(t: &XmlTree, i: usize) -> (r: Vec<PackageHistory>)
    requires
        t.wf(),
        i < t@.len(),
    ensures
        history_views(r@) == spec_history_of(t@, i as int),
{
    let mut out: Vec<PackageHistory> = Vec::new();
    match t.field_elem(i, "History") {
        Some(h) => {
            let list = t.desc_list(h, "Update");
            let ghost ilist = spec_desc_list(t@, h as int, "Update"@, 0);
            let n = list.len();
            let mut j: usize = 0;
            while j < n
                invariant
                    t.wf(),
                    n == list@.len(),
                    j <= n,
                    list@.map_values(|x: usize| x as int) == ilist,
                    forall|k: int| 0 <= k < n ==> list@[k] < t@.len(),
                    out@.len() == j,
                    forall|k: int| 0 <= k < j ==> out@[k]@ == spec_history_entry(t@, ilist[k]),
                decreases n - j,
            {
                let e = list[j];
                let entry = PackageHistory {
                    version: attr_string_or(t, e, "version", ""),
                    release: attr_u32_or(t, e, "release", 1),
                    date: attr_string_or(t, e, "date", ""),
                };
                proof {
                    assert(entry@ =~= spec_history_entry(t@, e as int));
                    assert(ilist[j as int] == e as int);
                }
                out.push(entry);
                j = j + 1;
            }
            proof {
                assert(history_views(out@) =~= ilist.map_values(
                    |e: int| spec_history_entry(t@, e),
                ));
            }
        },
        None => {},
    }
    out
}

fn extract_deps(t: &XmlTree, i: usize) -> (r: Vec<Dependency>)
    requires
        t.wf(),
        i < t@.len(),
    ensures
        dep_views(r@) == spec_deps_of(t@, i as int),
{
    let mut out: Vec<Dependency> = Vec::new();
    match t.field_elem(i, "Dependencies") {
        Some(d) => {
            let list = t.desc_list(d, "Package");
            let ghost ilist = spec_desc_list(t@, d as int, "Package"@, 0);
            proof {
                assert(ilist.skip(0) =~= ilist);
                assert(dep_views(out@) =~= Seq::<DependencyView>::empty());
                assert(Seq::<DependencyView>::empty() + spec_deps_from(t@, ilist) =~= spec_deps_from(
                    t@,
                    ilist,
                ));
            }
            let n = list.len();
            let mut j: usize = 0;
            while j < n
                invariant
                    t.wf(),
                    n == list@.len(),
                    j <= n,
                    list@.map_values(|x: usize| x as int) == ilist,
                    forall|k: int| 0 <= k < n ==> list@[k] < t@.len(),
                    spec_deps_from(t@, ilist) =~= dep_views(out@) + spec_deps_from(
                        t@,
                        ilist.skip(j as int),
                    ),
                decreases n - j,
            {
                let e = list[j];
                let name = trim_str(t.elems[e].text.as_str());
                proof {
                    assert(t@[e as int] == t.elems@[e as int]@);
                    assert(ilist.skip(j as int).drop_first() =~= ilist.skip(j + 1));
                    assert(ilist.skip(j as int)[0] == e as int);
                }
                if !name.as_str().is_empty() {
                    let version: Option<String> = match t.attr(e, "version") {
                        Some(v) => Some(v.clone()),
                        None => None,
                    };
                    let release: Option<u32> = match t.attr(e, "release") {
                        Some(v) => parse_u32_str(v.as_str()),
                        None => None,
                    };
                    let dep = Dependency { name, version, release };
                    proof {
                        assert(dep@ =~= spec_dep_entry(t@, e as int));
                    }
                    let ghost old_out = out@;
                    out.push(dep);
                    proof {
                        assert(dep_views(out@) =~= dep_views(old_out) + seq![
                            spec_dep_entry(t@, e as int),
                        ]);
                        assert(dep_views(old_out) + (seq![spec_dep_entry(t@, e as int)]
                            + spec_deps_from(t@, ilist.skip(j + 1))) =~= (dep_views(old_out)
                            + seq![spec_dep_entry(t@, e as int)]) + spec_deps_from(
                            t@,
                            ilist.skip(j + 1),
                        ));
                    }
                } else {
                    proof {
                        assert(spec_dep_entry(t@, e as int).name.len() == 0);
                    }
                }
                j = j + 1;
            }
            proof {
                assert(ilist.skip(n as int) =~= Seq::<int>::empty());
                assert(spec_deps_from(t@, ilist) =~= dep_views(out@));
            }
        },
        None => {},
    }
    out
}

fn extract_record(t: &XmlTree, i: usize) -> (r: PackageInfo)
    requires
        t.wf(),
        i < t@.len(),
    ensures
        r@ == spec_record_of(t@, i as int),
{
    let r = PackageInfo {
        name: field_string_or(t, i, "Name", ""),
        summary: field_string_or(t, i, "Summary", ""),
        description: field_string_or(t, i, "Description", ""),
        version: field_string_or(t, i, "Version", ""),
        release: field_u32_or(t, i, "Release", 1),
        license: field_string_or(t, i, "License", ""),
        part_of: field_string_or(t, i, "PartOf", "system"),
        package_size: field_u64(t, i, "PackageSize"),
        installed_size: field_u64(t, i, "InstalledSize"),
        package_format: field_string_or(t, i, "PackageFormat", "1.0"),
        distribution: field_string_or(t, i, "Distribution", "PisiLinux"),
        distribution_release: field_string_or(t, i, "DistributionRelease", "2.0"),
        architecture: field_string_or(t, i, "Architecture", "x86_64"),
        source: extract_source(t, i),
        history: extract_history(t, i),
        dependencies: extract_deps(t, i),
    };
    proof {
        assert(r@ =~= spec_record_of(t@, i as int));
    }
    r
}

/// The parser and aggregator entry points.
pub struct XmlParser;

impl XmlParser {
    /// Parse an index document into its package records.
    ///
    /// Fails exactly when the markup is malformed; every soft field defect is
    /// resolved by a default or by dropping the affected record or entry, and
    /// every returned record has a non-empty name and version.
    pub fn parse_pisi_index(xml_content: &str) -> (r: Result<Vec<PackageInfo>, IndexError>)
        ensures
            r is Ok <==> spec_index_of_text(xml_content@) is Some,
            r matches Ok(v) ==> (spec_index_of_text(xml_content@) matches Some(m) && records_view(
                v@,
            ) == m),
            r matches Ok(v) ==> forall|k: int|
                0 <= k < v@.len() ==> record_complete(#[trigger] v@[k]@),
            r is Err ==> r == Err::<Vec<PackageInfo>, IndexError>(IndexError::Malformed),
    {
        let tree = match parse_xml_text(xml_content) {
            Some(t) => t,
            None => {
                return Err(IndexError::Malformed);
            },
        };
        let n = tree.len();
        let mut out: Vec<PackageInfo> = Vec::new();
        let mut i: usize = 0;
        while i < n
            invariant
                tree.wf(),
                n == tree@.len(),
                i <= n,
                spec_parse_from(tree@, 0) =~= records_view(out@) + spec_parse_from(
                    tree@,
                    i as int,
                ),
                forall|k: int| 0 <= k < out@.len() ==> record_complete(#[trigger] out@[k]@),
            decreases n - i,
        {
            proof {
                assert(tree@[i as int] == tree.elems@[i as int]@);
            }
            if str_eq(tree.elems[i].tag.as_str(), "Package") && !tree.under_tag(i, "Obsoletes") {
                let rec = extract_record(&tree, i);
                let keep = !rec.name.as_str().is_empty() && !rec.version.as_str().is_empty();
                let ghost old_out = out@;
                if keep {
                    out.push(rec);
                }
                proof {
                    if keep {
                        assert(spec_included(tree@, i as int));
                        assert(records_view(out@) =~= records_view(old_out) + seq![
                            spec_record_of(tree@, i as int),
                        ]);
                        assert(records_view(old_out) + (seq![spec_record_of(tree@, i as int)]
                            + spec_parse_from(tree@, i + 1)) =~= (records_view(old_out) + seq![
                            spec_record_of(tree@, i as int),
                        ]) + spec_parse_from(tree@, i + 1));
                    } else {
                        assert(!spec_included(tree@, i as int));
                    }
                }
            } else {
                proof {
                    assert(!spec_included(tree@, i as int));
                }
            }
            i = i + 1;
        }
        proof {
            assert(spec_parse_from(tree@, n as int) =~= Seq::<PackageInfoView>::empty());
            assert(records_view(out@) =~= spec_parse_tree(tree@));
        }
        Ok(out)
    }
}

} // verus!
