use pisi_index::aggregate::{Component, display_name_for, get_components};
use pisi_index::parser::XmlParser;
use pisi_index::record::PackageInfo;

fn record(name: &str, part_of: &str) -> PackageInfo {
    PackageInfo {
        name: name.to_string(),
        summary: String::new(),
        description: String::new(),
        version: "1.0".to_string(),
        release: 1,
        license: String::new(),
        part_of: part_of.to_string(),
        package_size: 0,
        installed_size: 0,
        package_format: "1.0".to_string(),
        distribution: "PisiLinux".to_string(),
        distribution_release: "2.0".to_string(),
        architecture: "x86_64".to_string(),
        source: None,
        history: Vec::new(),
        dependencies: Vec::new(),
    }
}

fn id_counts(comps: &[Component]) -> Vec<(String, usize)> {
    let mut pairs: Vec<(String, usize)> = comps.iter().map(|c| (c.id.clone(), c.count)).collect();
    pairs.sort();
    pairs
}

#[test]
fn aggregates_for_simple_document() {
    let doc = "<PISI>\
        <Obsoletes>\
            <Package><Name>gone</Name><Version>1</Version>\
                <PartOf>system.base</PartOf></Package>\
        </Obsoletes>\
        <Package><Name>alpha</Name><Version>1.0</Version><PartOf>system.base</PartOf></Package>\
        <Package><Name>beta</Name><Version>2.0</Version><PartOf>system.base</PartOf></Package>\
    </PISI>";
    let records = XmlParser::parse_pisi_index(doc).unwrap();
    assert_eq!(records.len(), 2);
    let comps = XmlParser::parse_components(&records);
    assert_eq!(comps.len(), 2);
    // sorted ascending by display name: "All" before "System - Base"
    assert_eq!(comps[0].id, "all");
    assert_eq!(comps[0].display_name, "All");
    assert_eq!(comps[0].count, 2);
    assert_eq!(comps[1].id, "system.base");
    assert_eq!(comps[1].display_name, "System - Base");
    assert_eq!(comps[1].count, 2);
}

#[test]
fn counts_sum_to_total() {
    let records = vec![
        record("a", "web"),
        record("b", "web"),
        record("c", "office"),
        record("d", ""),
        record("e", "system"),
        record("f", "office"),
    ];
    let comps = get_components(&records);
    let total: usize = records.len();
    let all = comps.iter().find(|c| c.id == "all").unwrap();
    assert_eq!(all.count, total);
    let sum: usize = comps.iter().filter(|c| c.id != "all").map(|c| c.count).sum();
    assert_eq!(sum, total);
    // the empty category is grouped under "system"
    let system = comps.iter().find(|c| c.id == "system").unwrap();
    assert_eq!(system.count, 2);
}

#[test]
fn aggregation_is_order_independent() {
    let forward = vec![
        record("a", "web"),
        record("b", "office"),
        record("c", "web"),
        record("d", "system.base"),
    ];
    let backward: Vec<PackageInfo> = forward.iter().rev().cloned().collect();
    let c1 = get_components(&forward);
    let c2 = get_components(&backward);
    assert_eq!(id_counts(&c1), id_counts(&c2));
}

#[test]
fn aggregates_sorted_by_display_name() {
    let records = vec![
        record("a", "zebra"),
        record("b", "system.base"),
        record("c", "office"),
    ];
    let comps = get_components(&records);
    let displays: Vec<String> = comps.iter().map(|c| c.display_name.clone()).collect();
    let mut sorted = displays.clone();
    sorted.sort();
    assert_eq!(displays, sorted);
}

#[test]
fn curated_and_fallback_display_names() {
    assert_eq!(display_name_for("all"), "All");
    assert_eq!(display_name_for("system.base"), "System - Base");
    assert_eq!(display_name_for("system.devel"), "System - Development");
    assert_eq!(display_name_for("desktop.kde.applications"), "KDE Applications");
    assert_eq!(display_name_for("desktop.gnome.applications"), "GNOME Applications");
    assert_eq!(display_name_for("network.web"), "Network Web");
    assert_eq!(display_name_for("office"), "Office");
    assert_eq!(display_name_for("multi.word.id"), "Multi Word Id");
}

#[test]
fn reserved_category_counts_only_in_synthetic_aggregate() {
    // a record whose own category is the reserved id is counted in the
    // synthetic aggregate alone, keeping ids unique
    let records = vec![record("x", "all"), record("y", "web")];
    let comps = get_components(&records);
    let all_entries: Vec<&Component> = comps.iter().filter(|c| c.id == "all").collect();
    assert_eq!(all_entries.len(), 1);
    assert_eq!(all_entries[0].count, 2);
    let web = comps.iter().find(|c| c.id == "web").unwrap();
    assert_eq!(web.count, 1);
    let sum: usize = comps.iter().filter(|c| c.id != "all").map(|c| c.count).sum();
    assert_eq!(sum, 1);
}
