use pisi_index::parser::{IndexError, XmlParser};
use pisi_index::record::{Dependency, PackageHistory, Source};

#[test]
fn three_packages_one_obsolete() {
    let doc = "<PISI>\
        <Obsoletes>\
            <Package><Name>oldpkg</Name><Version>0.1</Version></Package>\
        </Obsoletes>\
        <Package><Name>alpha</Name><Version>1.0</Version><PartOf>system.base</PartOf></Package>\
        <Package><Name>beta</Name><Version>2.0</Version><PartOf>system.base</PartOf></Package>\
    </PISI>";
    let records = XmlParser::parse_pisi_index(doc).unwrap();
    assert_eq!(records.len(), 2);
    assert_eq!(records[0].name, "alpha");
    assert_eq!(records[1].name, "beta");
    assert_eq!(records[0].part_of, "system.base");
    assert_eq!(records[1].part_of, "system.base");
}

#[test]
fn missing_version_excluded() {
    let doc = "<PISI>\
        <Package><Name>noversion</Name><Summary>has everything else</Summary>\
            <License>MIT</License><PartOf>web</PartOf></Package>\
        <Package><Name>kept</Name><Version>1.0</Version></Package>\
    </PISI>";
    let records = XmlParser::parse_pisi_index(doc).unwrap();
    assert_eq!(records.len(), 1);
    assert_eq!(records[0].name, "kept");
}

#[test]
fn missing_name_excluded() {
    let doc = "<PISI><Package><Version>1.0</Version></Package></PISI>";
    let records = XmlParser::parse_pisi_index(doc).unwrap();
    assert_eq!(records.len(), 0);
}

#[test]
fn every_record_has_name_and_version() {
    let doc = "<PISI>\
        <Package><Name>a</Name><Version>1</Version></Package>\
        <Package><Name></Name><Version>2</Version></Package>\
        <Package><Name>c</Name><Version> </Version></Package>\
        <Package><Name>d</Name><Version>4</Version></Package>\
    </PISI>";
    let records = XmlParser::parse_pisi_index(doc).unwrap();
    assert_eq!(records.len(), 2);
    for r in &records {
        assert!(!r.name.is_empty());
        assert!(!r.version.is_empty());
    }
}

#[test]
fn deeply_nested_obsolete_excluded() {
    let doc = "<PISI>\
        <Obsoletes><Group><Inner>\
            <Package><Name>buried</Name><Version>9.9</Version></Package>\
        </Inner></Group></Obsoletes>\
        <Wrapper><Package><Name>nested-live</Name><Version>1.0</Version></Package></Wrapper>\
    </PISI>";
    let records = XmlParser::parse_pisi_index(doc).unwrap();
    assert_eq!(records.len(), 1);
    assert_eq!(records[0].name, "nested-live");
}

#[test]
fn defaults_applied_when_fields_absent() {
    let doc = "<PISI><Package><Name>bare</Name><Version>0.5</Version></Package></PISI>";
    let records = XmlParser::parse_pisi_index(doc).unwrap();
    assert_eq!(records.len(), 1);
    let r = &records[0];
    assert_eq!(r.name, "bare");
    assert_eq!(r.version, "0.5");
    assert_eq!(r.summary, "");
    assert_eq!(r.description, "");
    assert_eq!(r.license, "");
    assert_eq!(r.part_of, "system");
    assert_eq!(r.release, 1);
    assert_eq!(r.package_size, 0);
    assert_eq!(r.installed_size, 0);
    assert_eq!(r.package_format, "1.0");
    assert_eq!(r.distribution, "PisiLinux");
    assert_eq!(r.distribution_release, "2.0");
    assert_eq!(r.architecture, "x86_64");
    assert_eq!(r.source, None);
    assert_eq!(r.history, Vec::<PackageHistory>::new());
    assert_eq!(r.dependencies, Vec::<Dependency>::new());
}

#[test]
fn full_record_extraction() {
    let doc = "<PISI><Package>\
        <Name>gamma</Name><Version>3.1</Version>\
        <Summary>  padded summary  </Summary>\
        <Description>a desc</Description>\
        <License>GPL-2.0</License>\
        <PartOf>desktop.kde.applications</PartOf>\
        <Release>7</Release>\
        <PackageSize>123456</PackageSize>\
        <InstalledSize>654321</InstalledSize>\
        <PackageFormat>1.2</PackageFormat>\
        <Distribution>Pisi</Distribution>\
        <DistributionRelease>2.3</DistributionRelease>\
        <Architecture>aarch64</Architecture>\
        <Source name=\"gamma-src\" homepage=\"https://example.org\"/>\
        <History>\
            <Update version=\"3.1\" release=\"7\" date=\"2024-01-02\"/>\
            <Update version=\"3.0\" release=\"6\" date=\"2023-11-20\"/>\
        </History>\
        <Dependencies>\
            <Package version=\"1.2\">alpha</Package>\
            <Package>   </Package>\
            <Package release=\"4\">beta</Package>\
        </Dependencies>\
    </Package></PISI>";
    let records = XmlParser::parse_pisi_index(doc).unwrap();
    assert_eq!(records.len(), 1);
    let r = &records[0];
    assert_eq!(r.name, "gamma");
    assert_eq!(r.version, "3.1");
    assert_eq!(r.summary, "padded summary");
    assert_eq!(r.description, "a desc");
    assert_eq!(r.license, "GPL-2.0");
    assert_eq!(r.part_of, "desktop.kde.applications");
    assert_eq!(r.release, 7);
    assert_eq!(r.package_size, 123456);
    assert_eq!(r.installed_size, 654321);
    assert_eq!(r.package_format, "1.2");
    assert_eq!(r.distribution, "Pisi");
    assert_eq!(r.distribution_release, "2.3");
    assert_eq!(r.architecture, "aarch64");
    assert_eq!(
        r.source,
        Some(Source { name: "gamma-src".to_string(), homepage: "https://example.org".to_string() })
    );
    assert_eq!(
        r.history,
        vec![
            PackageHistory {
                version: "3.1".to_string(),
                release: 7,
                date: "2024-01-02".to_string()
            },
            PackageHistory {
                version: "3.0".to_string(),
                release: 6,
                date: "2023-11-20".to_string()
            },
        ]
    );
    assert_eq!(
        r.dependencies,
        vec![
            Dependency {
                name: "alpha".to_string(),
                version: Some("1.2".to_string()),
                release: None
            },
            Dependency { name: "beta".to_string(), version: None, release: Some(4) },
        ]
    );
}

#[test]
fn malformed_numbers_fall_back_to_defaults() {
    let doc = "<PISI><Package>\
        <Name>odd</Name><Version>1.0</Version>\
        <Release>abc</Release>\
        <PackageSize>12x</PackageSize>\
        <InstalledSize>99999999999999999999999999</InstalledSize>\
    </Package></PISI>";
    let records = XmlParser::parse_pisi_index(doc).unwrap();
    let r = &records[0];
    assert_eq!(r.release, 1);
    assert_eq!(r.package_size, 0);
    assert_eq!(r.installed_size, 0);
}

#[test]
fn source_without_name_rejected() {
    let doc = "<PISI><Package>\
        <Name>s1</Name><Version>1</Version>\
        <Source homepage=\"https://example.org\"/>\
    </Package></PISI>";
    let records = XmlParser::parse_pisi_index(doc).unwrap();
    assert_eq!(records[0].source, None);
}

#[test]
fn field_lookup_prefers_direct_children() {
    // the nested wrapper holds a deeper License; the direct child wins
    let doc = "<PISI><Package>\
        <Name>pick</Name><Version>1</Version>\
        <Meta><License>Inner</License></Meta>\
        <License>Outer</License>\
    </Package></PISI>";
    let records = XmlParser::parse_pisi_index(doc).unwrap();
    assert_eq!(records[0].license, "Outer");
}

#[test]
fn field_lookup_falls_back_to_descendants() {
    let doc = "<PISI><Package>\
        <Name>deep</Name>\
        <History><Update><Version>4.2</Version></Update></History>\
    </Package></PISI>";
    let records = XmlParser::parse_pisi_index(doc).unwrap();
    assert_eq!(records[0].version, "4.2");
}

#[test]
fn malformed_document_is_an_error() {
    assert_eq!(XmlParser::parse_pisi_index("<PISI>"), Err(IndexError::Malformed));
    assert_eq!(XmlParser::parse_pisi_index("not xml at all"), Err(IndexError::Malformed));
}
