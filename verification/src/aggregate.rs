//! The component aggregator: groups records by category id, attaches display
//! names (a curated table first, an algorithmic title-case fallback second),
//! adds the synthetic aggregate carrying the reserved id `all` whose count is
//! the total record count, and sorts everything by display name.
//!
//! A record whose own category equals the reserved id is counted only in the
//! synthetic aggregate, so that aggregate ids stay unique.

use vstd::prelude::*;
use crate::record::{PackageInfo, PackageInfoView, records_view};
use crate::text::{
    lemma_lex_total, lemma_lex_trans, lex_leq, spec_title_words, str_eq, str_lex_leq, title_words,
};

verus! {

/// One display-ready aggregate: a category id, its human-readable name, and
/// how many records fall under it.
#[derive(Debug, Clone, PartialEq)]
pub struct Component {
    pub id: String,
    pub display_name: String,
    pub count: usize,
}

#[verifier::ext_equal]
pub ghost struct ComponentView {
    pub id: Seq<char>,
    pub display_name: Seq<char>,
    pub count: usize,
}

impl View for Component {
    type V = ComponentView;

    open spec fn view(&self) -> ComponentView {
        ComponentView { id: self.id@, display_name: self.display_name@, count: self.count }
    }
}

/// The views of a component list.
pub open spec fn comp_views(v: Seq<Component>) -> Seq<ComponentView> {
    v.map_values(|c: Component| c@)
}

/// The category a record is grouped under: its category id, or `system` when
/// that is empty.
pub open spec fn spec_effective_cat(r: PackageInfoView) -> Seq<char> {
    if r.part_of.len() == 0 {
        "system"@
    } else {
        r.part_of
    }
}

/// How many records of the sequence fall under the given category.
pub open spec fn count_cat(rs: Seq<PackageInfoView>, id: Seq<char>) -> int
    decreases rs.len(),
{
    if rs.len() == 0 {
        0
    } else {
        count_cat(rs.drop_last(), id) + (if spec_effective_cat(rs.last()) == id {
            1int
        } else {
            0int
        })
    }
}

/// The display name for a category id: the curated table of well-known ids
/// first, the title-case fallback otherwise.
pub open spec fn spec_display_name(id: Seq<char>) -> Seq<char> {
    if id == "all"@ {
        "All"@
    } else if id == "system.base"@ {
        "System - Base"@
    } else if id == "system.devel"@ {
        "System - Development"@
    } else if id == "desktop.kde.applications"@ {
        "KDE Applications"@
    } else if id == "desktop.gnome.applications"@ {
        "GNOME Applications"@
    } else {
        spec_title_words(id)
    }
}

/// Exec form of [`spec_display_name`].
pub fn display_name_for(id: &str) -> (r: String)
    ensures
        r@ == spec_display_name(id@),
{
    if str_eq(id, "all") {
        String::from_str("All")
    } else if str_eq(id, "system.base") {
        String::from_str("System - Base")
    } else if str_eq(id, "system.devel") {
        String::from_str("System - Development")
    } else if str_eq(id, "desktop.kde.applications") {
        String::from_str("KDE Applications")
    } else if str_eq(id, "desktop.gnome.applications") {
        String::from_str("GNOME Applications")
    } else {
        title_words(id)
    }
}

/// The sum of the counts of every aggregate other than the synthetic one.
pub open spec fn sum_non_all(s: Seq<ComponentView>) -> int
    decreases s.len(),
{
    if s.len() == 0 {
        0
    } else {
        sum_non_all(s.drop_last()) + (if s.last().id == "all"@ {
            0int
        } else {
            s.last().count as int
        })
    }
}

/// Ascending by display name.
pub open spec fn sorted_by_display(s: Seq<ComponentView>) -> bool {
    forall|i: int, j: int|
        0 <= i < j < s.len() ==> lex_leq(#[trigger] s[i].display_name, #[trigger] s[j].display_name)
}

pub proof fn lemma_count_cat_bounds(rs: Seq<PackageInfoView>, id: Seq<char>)
    ensures
        0 <= count_cat(rs, id) <= rs.len(),
    decreases rs.len(),
{
    if rs.len() > 0 {
        lemma_count_cat_bounds(rs.drop_last(), id);
    }
}

/// A category no record falls under has count zero.
pub proof fn lemma_count_cat_zero(rs: Seq<PackageInfoView>, id: Seq<char>)
    requires
        forall|k: int| 0 <= k < rs.len() ==> spec_effective_cat(#[trigger] rs[k]) != id,
    ensures
        count_cat(rs, id) == 0,
    decreases rs.len(),
{
    if rs.len() > 0 {
        assert(forall|k: int|
            0 <= k < rs.len() - 1 ==> rs.drop_last()[k] == rs[k]);
        lemma_count_cat_zero(rs.drop_last(), id);
        assert(rs.last() == rs[rs.len() - 1]);
    }
}

proof fn lemma_sum_insert(s: Seq<ComponentView>, p: int, c: ComponentView)
    requires
        0 <= p <= s.len(),
    ensures
        sum_non_all(s.insert(p, c)) == sum_non_all(s) + (if c.id == "all"@ {
            0int
        } else {
            c.count as int
        }),
    decreases s.len(),
{
    if p == s.len() {
        assert(s.insert(p, c).drop_last() =~= s);
        assert(s.insert(p, c).last() == c);
    } else {
        assert(s.insert(p, c).drop_last() =~= s.drop_last().insert(p, c));
        assert(s.insert(p, c).last() == s.last());
        lemma_sum_insert(s.drop_last(), p, c);
    }
}

proof fn lemma_sum_update(s: Seq<ComponentView>, k: int, c: ComponentView)
    requires
        0 <= k < s.len(),
    ensures
        sum_non_all(s.update(k, c)) == sum_non_all(s) - (if s[k].id == "all"@ {
            0int
        } else {
            s[k].count as int
        }) + (if c.id == "all"@ {
            0int
        } else {
            c.count as int
        }),
    decreases s.len(),
{
    if k == s.len() - 1 {
        assert(s.update(k, c).drop_last() =~= s.drop_last());
        assert(s.update(k, c).last() == c);
        assert(s.last() == s[k]);
    } else {
        assert(s.update(k, c).drop_last() =~= s.drop_last().update(k, c));
        assert(s.update(k, c).last() == s.last());
        assert(s.drop_last()[k] == s[k]);
        lemma_sum_update(s.drop_last(), k, c);
    }
}

/// Removing one record lowers exactly its own category's count by one.
proof fn lemma_count_cat_remove(rs: Seq<PackageInfoView>, j: int, id: Seq<char>)
    requires
        0 <= j < rs.len(),
    ensures
        count_cat(rs, id) == count_cat(rs.remove(j), id) + (if spec_effective_cat(rs[j]) == id {
            1int
        } else {
            0int
        }),
    decreases rs.len(),
{
    if j == rs.len() - 1 {
        assert(rs.remove(j) =~= rs.drop_last());
        assert(rs.last() == rs[j]);
    } else {
        assert(rs.remove(j).drop_last() =~= rs.drop_last().remove(j));
        assert(rs.remove(j).last() == rs.last());
        assert(rs.drop_last()[j] == rs[j]);
        lemma_count_cat_remove(rs.drop_last(), j, id);
    }
}

/// Aggregation is order-independent: record sets that are permutations of one
/// another have the same length and the same count for every category, so
/// they yield the same set of (id, count) aggregates.
pub proof fn lemma_aggregation_order_independent(
    rs1: Seq<PackageInfoView>,
    rs2: Seq<PackageInfoView>,
)
    requires
        rs1.to_multiset() == rs2.to_multiset(),
    ensures
        rs1.len() == rs2.len(),
        forall|id: Seq<char>| count_cat(rs1, id) == count_cat(rs2, id),
    decreases rs1.len(),
{
    broadcast use vstd::seq_lib::group_to_multiset_ensures;

    assert(rs1.to_multiset().len() == rs1.len());
    assert(rs2.to_multiset().len() == rs2.len());
    if rs1.len() == 0 {
        return ;
    }
    let last = rs1.last();
    assert(rs1.contains(last));
    assert(rs1.to_multiset().count(last) > 0);
    assert(rs2.to_multiset().count(last) > 0);
    assert(rs2.contains(last));
    let j = choose|j: int| 0 <= j < rs2.len() && rs2[j] == last;
    assert(rs1.remove(rs1.len() - 1).to_multiset() == rs1.to_multiset().remove(last));
    assert(rs2.remove(j).to_multiset() == rs2.to_multiset().remove(last));
    assert(rs1.remove(rs1.len() - 1) =~= rs1.drop_last());
    lemma_aggregation_order_independent(rs1.drop_last(), rs2.remove(j));
    assert forall|id: Seq<char>| count_cat(rs1, id) == count_cat(rs2, id) by {
        lemma_count_cat_remove(rs2, j, id);
        assert(count_cat(rs1, id) == count_cat(rs1.drop_last(), id) + (
        if spec_effective_cat(last) == id {
            1int
        } else {
            0int
        }));
    }
}

/// Insert a component before the first entry whose display name orders after
/// it, keeping the list sorted.
fn insert_sorted(comps: &mut Vec<Component>, c: Component)
    requires
        sorted_by_display(comp_views(old(comps)@)),
    ensures
        sorted_by_display(comp_views(final(comps)@)),
        exists|p: int|
            0 <= p <= old(comps)@.len() && comp_views(final(comps)@) == comp_views(
                old(comps)@,
            ).insert(p, c@),
{
    let ghost oldv = comp_views(comps@);
    proof {
        assert(oldv.len() == comps@.len());
    }
    let n = comps.len();
    let mut p: usize = 0;
    while p < n && str_lex_leq(comps[p].display_name.as_str(), c.display_name.as_str())
        invariant
            n == comps@.len(),
            comps@ == old(comps)@,
            oldv == comp_views(comps@),
            oldv.len() == n,
            p <= n,
            forall|k: int| 0 <= k < p ==> lex_leq(#[trigger] oldv[k].display_name, c@.display_name),
        decreases n - p,
    {
        proof {
            assert(oldv[p as int] == comps@[p as int]@);
        }
        p = p + 1;
    }
    proof {
        if p < n {
            assert(oldv[p as int] == comps@[p as int]@);
            lemma_lex_total(oldv[p as int].display_name, c@.display_name);
            assert(lex_leq(c@.display_name, oldv[p as int].display_name));
        }
    }
    comps.insert(p, c);
    proof {
        let newv = comp_views(comps@);
        assert(newv =~= oldv.insert(p as int, c@));
        assert forall|i: int, j: int|
            0 <= i < j < newv.len() implies lex_leq(
            #[trigger] newv[i].display_name,
            #[trigger] newv[j].display_name,
        ) by {
            let pi = p as int;
            if i < pi && j == pi {
                assert(newv[i] == oldv[i]);
            } else if i == pi && j > pi {
                assert(newv[j] == oldv[j - 1]);
                if j - 1 == pi {
                    assert(lex_leq(c@.display_name, oldv[pi].display_name));
                } else {
                    assert(lex_leq(oldv[pi].display_name, oldv[j - 1].display_name));
                    lemma_lex_trans(
                        c@.display_name,
                        oldv[pi].display_name,
                        oldv[j - 1].display_name,
                    );
                }
            } else if i < pi && j > pi {
                assert(newv[i] == oldv[i]);
                assert(newv[j] == oldv[j - 1]);
                assert(lex_leq(oldv[i].display_name, oldv[j - 1].display_name));
            } else if i > pi && j > pi {
                assert(newv[i] == oldv[i - 1]);
                assert(newv[j] == oldv[j - 1]);
            }
        }
    }
}

impl crate::parser::XmlParser {
    /// Group records into display-ready aggregates.
    ///
    /// The result is sorted ascending by display name; ids are unique; each
    /// per-category aggregate counts exactly the records under that category;
    /// the synthetic aggregate under the reserved id counts every record; and
    /// the non-synthetic counts sum to the number of records whose own
    /// category is not the reserved id.
    pub fn parse_components(records: &Vec<PackageInfo>) -> (r: Vec<Component>)
        ensures
            sorted_by_display(comp_views(r@)),
            forall|k1: int, k2: int|
                0 <= k1 < k2 < r@.len() ==> #[trigger] comp_views(r@)[k1].id
                    != #[trigger] comp_views(r@)[k2].id,
            forall|k: int|
                0 <= k < r@.len() ==> #[trigger] comp_views(r@)[k].display_name
                    == spec_display_name(comp_views(r@)[k].id),
            exists|k: int| 0 <= k < r@.len() && #[trigger] comp_views(r@)[k].id == "all"@,
            forall|k: int|
                0 <= k < r@.len() && #[trigger] comp_views(r@)[k].id == "all"@ ==> comp_views(
                    r@,
                )[k].count == records_view(records@).len(),
            forall|k: int|
                0 <= k < r@.len() && #[trigger] comp_views(r@)[k].id != "all"@ ==> comp_views(
                    r@,
                )[k].count as int == count_cat(records_view(records@), comp_views(r@)[k].id)
                    && comp_views(r@)[k].count > 0,
            forall|id: Seq<char>|
                #[trigger] count_cat(records_view(records@), id) > 0 && id != "all"@
                    ==> exists|k: int| 0 <= k < r@.len() && #[trigger] comp_views(r@)[k].id == id,
            sum_non_all(comp_views(r@)) == records_view(records@).len() - count_cat(
                records_view(records@),
                "all"@,
            ),
    {
        let ghost rs = records_view(records@);
        let n = records.len();
        let mut comps: Vec<Component> = Vec::new();
        let mut i: usize = 0;
        proof {
            assert(rs.len() == records@.len());
            assert(rs.take(0) =~= Seq::<PackageInfoView>::empty());
            assert(comp_views(comps@) =~= Seq::<ComponentView>::empty());
        }
        while i < n
            invariant
                rs == records_view(records@),
                n == records@.len(),
                rs.len() == n,
                i <= n,
                sorted_by_display(comp_views(comps@)),
                forall|k: int|
                    0 <= k < comps@.len() ==> #[trigger] comp_views(comps@)[k].id != "all"@,
                forall|k: int|
                    0 <= k < comps@.len() ==> #[trigger] comp_views(comps@)[k].display_name
                        == spec_display_name(comp_views(comps@)[k].id),
                forall|k1: int, k2: int|
                    0 <= k1 < k2 < comps@.len() ==> #[trigger] comp_views(comps@)[k1].id
                        != #[trigger] comp_views(comps@)[k2].id,
                forall|k: int|
                    0 <= k < comps@.len() ==> #[trigger] comp_views(comps@)[k].count as int
                        == count_cat(rs.take(i as int), comp_views(comps@)[k].id) && comp_views(
                        comps@,
                    )[k].count > 0,
                forall|id: Seq<char>|
                    #[trigger] count_cat(rs.take(i as int), id) > 0 && id != "all"@ ==> exists|
                        k: int,
                    | 0 <= k < comps@.len() && #[trigger] comp_views(comps@)[k].id == id,
                sum_non_all(comp_views(comps@)) == i - count_cat(rs.take(i as int), "all"@),
            decreases n - i,
        {
            let ghost prefix = rs.take(i as int);
            let ghost prefix1 = rs.take(i + 1);
            proof {
                assert(rs[i as int] == records@[i as int]@);
                assert(prefix1.drop_last() =~= prefix);
                assert(prefix1.last() == rs[i as int]);
            }
            let cat: String = if records[i].part_of.as_str().is_empty() {
                String::from_str("system")
            } else {
                records[i].part_of.clone()
            };
            proof {
                assert(cat@ == spec_effective_cat(rs[i as int]));
                assert forall|id: Seq<char>| #[trigger] count_cat(prefix1, id) == count_cat(
                    prefix,
                    id,
                ) + (if spec_effective_cat(rs[i as int]) == id {
                    1int
                } else {
                    0int
                }) by {}
            }
            if str_eq(cat.as_str(), "all") {
                proof {
                    assert forall|id: Seq<char>|
                        #[trigger] count_cat(prefix1, id) > 0 && id != "all"@ implies exists|k: int|
                        0 <= k < comps@.len() && #[trigger] comp_views(comps@)[k].id == id by {
                        assert(count_cat(prefix, id) > 0);
                    }
                }
            } else {
                let ghost comps0 = comp_views(comps@);
                let nc = comps.len();
                let mut k: usize = 0;
                while k < nc && !str_eq(comps[k].id.as_str(), cat.as_str())
                    invariant
                        nc == comps@.len(),
                        comps0 == comp_views(comps@),
                        comps0.len() == nc,
                        k <= nc,
                        forall|j: int| 0 <= j < k ==> #[trigger] comps0[j].id != cat@,
                    decreases nc - k,
                {
                    proof {
                        assert(comps0[k as int] == comps@[k as int]@);
                    }
                    k = k + 1;
                }
                proof {
                    if k < nc {
                        assert(comps0[k as int] == comps@[k as int]@);
                        assert(comps0[k as int].id == cat@);
                    }
                }
                if k < nc {
                    // an aggregate for this category exists: raise its count
                    proof {
                        lemma_count_cat_bounds(prefix, cat@);
                        assert(prefix.len() == i as int);
                        assert(comps0[k as int] == comps@[k as int]@);
                        assert(comps0[k as int].count as int == count_cat(prefix, cat@));
                        assert(comps@[k as int].count < usize::MAX);
                    }
                    let newc = Component {
                        id: comps[k].id.clone(),
                        display_name: comps[k].display_name.clone(),
                        count: comps[k].count + 1,
                    };
                    let _old = comps.remove(k);
                    comps.insert(k, newc);
                    proof {
                        let cvn = comp_views(comps@);
                        assert(cvn =~= comps0.update(k as int, newc@));
                        lemma_sum_update(comps0, k as int, newc@);
                        assert forall|a: int|
                            0 <= a < cvn.len() implies #[trigger] cvn[a].id == comps0[a].id
                            && cvn[a].display_name == comps0[a].display_name by {
                            if a != k as int {
                                assert(cvn[a] == comps0[a]);
                            }
                        }
                        assert forall|a: int, b: int|
                            0 <= a < b < cvn.len() implies lex_leq(
                            #[trigger] cvn[a].display_name,
                            #[trigger] cvn[b].display_name,
                        ) by {
                            assert(cvn[a].display_name == comps0[a].display_name);
                            assert(cvn[b].display_name == comps0[b].display_name);
                        }
                        assert forall|a: int|
                            0 <= a < cvn.len() implies #[trigger] cvn[a].count as int == count_cat(
                            prefix1,
                            cvn[a].id,
                        ) && cvn[a].count > 0 by {
                            if a == k as int {
                                assert(cvn[a].id == cat@);
                            } else {
                                assert(cvn[a] == comps0[a]);
                                assert(comps0[a].id != cat@);
                            }
                        }
                        assert forall|id: Seq<char>|
                            #[trigger] count_cat(prefix1, id) > 0 && id != "all"@ implies exists|
                            j: int,
                        | 0 <= j < comps@.len() && #[trigger] comp_views(comps@)[j].id == id by {
                            if id == cat@ {
                                assert(cvn[k as int].id == id);
                            } else {
                                assert(count_cat(prefix, id) > 0);
                                let w = choose|w: int|
                                    0 <= w < comps0.len() && comps0[w].id == id;
                                assert(cvn[w].id == id);
                            }
                        }
                    }
                } else {
                    // first record of this category
                    proof {
                        lemma_count_cat_bounds(prefix, cat@);
                        if count_cat(prefix, cat@) > 0 {
                            let w = choose|w: int| 0 <= w < comps0.len() && comps0[w].id == cat@;
                            assert(false);
                        }
                        assert(count_cat(prefix, cat@) == 0);
                        assert(count_cat(prefix1, cat@) == 1);
                    }
                    let display = display_name_for(cat.as_str());
                    let newc = Component { id: cat, display_name: display, count: 1 };
                    let ghost newcv = newc@;
                    insert_sorted(&mut comps, newc);
                    proof {
                        let cvn = comp_views(comps@);
                        let p = choose|p: int|
                            0 <= p <= comps0.len() && cvn == comps0.insert(p, newcv);
                        lemma_sum_insert(comps0, p, newcv);
                        assert forall|a: int|
                            0 <= a < cvn.len() implies #[trigger] cvn[a].id != "all"@
                            && cvn[a].display_name == spec_display_name(cvn[a].id) by {
                            if a < p {
                                assert(cvn[a] == comps0[a]);
                            } else if a == p {
                                assert(cvn[a] == newcv);
                            } else {
                                assert(cvn[a] == comps0[a - 1]);
                            }
                        }
                        assert forall|a: int, b: int|
                            0 <= a < b < cvn.len() implies #[trigger] cvn[a].id
                            != #[trigger] cvn[b].id by {
                            if a < p && b < p {
                            } else if a == p {
                                assert(cvn[a] == newcv);
                                assert(cvn[b] == comps0[b - 1]);
                                assert(comps0[b - 1].id != cat@);
                            } else if b == p {
                                assert(cvn[b] == newcv);
                                assert(cvn[a] == comps0[a]);
                                assert(comps0[a].id != cat@);
                            }
                        }
                        assert forall|a: int|
                            0 <= a < cvn.len() implies #[trigger] cvn[a].count as int == count_cat(
                            prefix1,
                            cvn[a].id,
                        ) && cvn[a].count > 0 by {
                            if a < p {
                                assert(cvn[a] == comps0[a]);
                                assert(comps0[a].id != cat@);
                            } else if a == p {
                                assert(cvn[a] == newcv);
                            } else {
                                assert(cvn[a] == comps0[a - 1]);
                                assert(comps0[a - 1].id != cat@);
                            }
                        }
                        assert forall|id: Seq<char>|
                            #[trigger] count_cat(prefix1, id) > 0 && id != "all"@ implies exists|
                            j: int,
                        | 0 <= j < comps@.len() && #[trigger] comp_views(comps@)[j].id == id by {
                            if id == cat@ {
                                assert(cvn[p].id == id);
                            } else {
                                assert(count_cat(prefix, id) > 0);
                                let w = choose|w: int|
                                    0 <= w < comps0.len() && comps0[w].id == id;
                                if w < p {
                                    assert(cvn[w].id == id);
                                } else {
                                    assert(cvn[w + 1].id == id);
                                }
                            }
                        }
                    }
                }
            }
            i = i + 1;
        }
        proof {
            assert(rs.take(n as int) =~= rs);
        }
        let ghost comps0 = comp_views(comps@);
        let allc = Component {
            id: String::from_str("all"),
            display_name: String::from_str("All"),
            count: records.len(),
        };
        let ghost allcv = allc@;
        insert_sorted(&mut comps, allc);
        proof {
            let cvn = comp_views(comps@);
            let p = choose|p: int| 0 <= p <= comps0.len() && cvn == comps0.insert(p, allcv);
            lemma_sum_insert(comps0, p, allcv);
            assert(cvn[p] == allcv);
            assert forall|a: int|
                0 <= a < cvn.len() implies #[trigger] cvn[a].display_name == spec_display_name(
                cvn[a].id,
            ) && (cvn[a].id == "all"@ ==> cvn[a].count == rs.len()) && (cvn[a].id != "all"@
                ==> cvn[a].count as int == count_cat(rs, cvn[a].id) && cvn[a].count > 0) by {
                if a < p {
                    assert(cvn[a] == comps0[a]);
                } else if a > p {
                    assert(cvn[a] == comps0[a - 1]);
                }
            }
            assert forall|a: int, b: int|
                0 <= a < b < cvn.len() implies #[trigger] cvn[a].id != #[trigger] cvn[b].id by {
                if a == p {
                    assert(cvn[b] == comps0[b - 1]);
                } else if b == p {
                    assert(cvn[a] == comps0[a]);
                } else if a < p && b > p {
                    assert(cvn[a] == comps0[a]);
                    assert(cvn[b] == comps0[b - 1]);
                }
            }
            assert forall|id: Seq<char>|
                #[trigger] count_cat(rs, id) > 0 && id != "all"@ implies exists|j: int|
                0 <= j < comps@.len() && #[trigger] comp_views(comps@)[j].id == id by {
                let w = choose|w: int| 0 <= w < comps0.len() && comps0[w].id == id;
                if w < p {
                    assert(cvn[w].id == id);
                } else {
                    assert(cvn[w + 1].id == id);
                }
            }
        }
        comps
    }
}


/// For a record set in which no record's own category is the reserved id, no
/// records are folded into the synthetic aggregate alone, so the
/// per-category counts of [`XmlParser::parse_components`]'s result sum to
/// the total record count while the synthetic aggregate also counts every
/// record.
pub proof fn lemma_sum_matches_total(rs: Seq<PackageInfoView>, aggs: Seq<ComponentView>)
    requires
        forall|k: int| 0 <= k < rs.len() ==> spec_effective_cat(#[trigger] rs[k]) != "all"@,
        sum_non_all(aggs) == rs.len() - count_cat(rs, "all"@),
    ensures
        sum_non_all(aggs) == rs.len(),
{
    lemma_count_cat_zero(rs, "all"@);
}

/// The façade query for display aggregates; the work and the contract are
/// [`XmlParser::parse_components`]'s.
pub fn get_components(records: &Vec<PackageInfo>) -> (r: Vec<Component>)
    ensures
        sorted_by_display(comp_views(r@)),
        forall|k1: int, k2: int|
            0 <= k1 < k2 < r@.len() ==> #[trigger] comp_views(r@)[k1].id
                != #[trigger] comp_views(r@)[k2].id,
        forall|k: int|
            0 <= k < r@.len() ==> #[trigger] comp_views(r@)[k].display_name == spec_display_name(
                comp_views(r@)[k].id,
            ),
        exists|k: int| 0 <= k < r@.len() && #[trigger] comp_views(r@)[k].id == "all"@,
        forall|k: int|
            0 <= k < r@.len() && #[trigger] comp_views(r@)[k].id == "all"@ ==> comp_views(
                r@,
            )[k].count == records_view(records@).len(),
        forall|k: int|
            0 <= k < r@.len() && #[trigger] comp_views(r@)[k].id != "all"@ ==> comp_views(
                r@,
            )[k].count as int == count_cat(records_view(records@), comp_views(r@)[k].id)
                && comp_views(r@)[k].count > 0,
        forall|id: Seq<char>|
            #[trigger] count_cat(records_view(records@), id) > 0 && id != "all"@ ==> exists|k: int|
                0 <= k < r@.len() && #[trigger] comp_views(r@)[k].id == id,
        sum_non_all(comp_views(r@)) == records_view(records@).len() - count_cat(
            records_view(records@),
            "all"@,
        ),
{
    crate::parser::XmlParser::parse_components(records)
}

} // verus!
