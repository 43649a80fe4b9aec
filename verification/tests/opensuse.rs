use rebuilderd::opensuse::{PkgsSync, SyncRelease, SyncState};
use rebuilderd::repomd::{PackageFormat, PackageLocation, PackageVersion, PackagesXmlItem};
use rebuilderd::report::PackageReport;
use rebuilderd::sync::SyncRun;
use rebuilderd::url::join_url;

const LEAP_SOURCE: &str = "https://download.opensuse.org/distribution/leap/16.0/repo";

/// The `hello` source package of Leap 16.0: one binary per architecture plus
/// a noarch subpackage.
const HELLO: &[u8] = br#"<?xml version="1.0" encoding="UTF-8"?>
<metadata xmlns="http://linux.duke.edu/metadata/common" xmlns:rpm="http://linux.duke.edu/metadata/rpm" packages="5">
<package type="rpm">
  <name>hello</name>
  <arch>aarch64</arch>
  <version epoch="0" ver="2.12.1" rel="bp160.1.13"/>
  <checksum type="sha512" pkgid="YES">deadbeef</checksum>
  <summary>A Friendly Greeting Program</summary>
  <packager>https://bugs.opensuse.org</packager>
  <location href="aarch64/hello-2.12.1-bp160.1.13.aarch64.rpm"/>
  <format>
    <rpm:vendor>openSUSE</rpm:vendor>
    <rpm:buildhost>reproducible</rpm:buildhost>
    <rpm:sourcerpm>hello-2.12.1-bp160.1.13.src.rpm</rpm:sourcerpm>
  </format>
</package>
<package type="rpm">
  <name>hello</name>
  <arch>ppc64le</arch>
  <version epoch="0" ver="2.12.1" rel="bp160.1.13"/>
  <packager>https://bugs.opensuse.org</packager>
  <location href="ppc64le/hello-2.12.1-bp160.1.13.ppc64le.rpm"/>
  <format>
    <rpm:sourcerpm>hello-2.12.1-bp160.1.13.src.rpm</rpm:sourcerpm>
  </format>
</package>
<package type="rpm">
  <name>hello</name>
  <arch>s390x</arch>
  <version epoch="0" ver="2.12.1" rel="bp160.1.13"/>
  <packager>https://bugs.opensuse.org</packager>
  <location href="s390x/hello-2.12.1-bp160.1.13.s390x.rpm"/>
  <format>
    <rpm:sourcerpm>hello-2.12.1-bp160.1.13.src.rpm</rpm:sourcerpm>
  </format>
</package>
<package type="rpm">
  <name>hello</name>
  <arch>x86_64</arch>
  <version epoch="0" ver="2.12.1" rel="bp160.1.13"/>
  <packager>https://bugs.opensuse.org</packager>
  <location href="x86_64/hello-2.12.1-bp160.1.13.x86_64.rpm"/>
  <format>
    <rpm:sourcerpm>hello-2.12.1-bp160.1.13.src.rpm</rpm:sourcerpm>
  </format>
</package>
<package type="rpm">
  <name>hello-lang</name>
  <arch>noarch</arch>
  <version epoch="0" ver="2.12.1" rel="bp160.1.13"/>
  <packager>https://bugs.opensuse.org</packager>
  <location href="noarch/hello-lang-2.12.1-bp160.1.13.noarch.rpm"/>
  <format>
    <rpm:sourcerpm>hello-2.12.1-bp160.1.13.src.rpm</rpm:sourcerpm>
  </format>
</package>
</metadata>
"#;

/// A source package whose noarch subpackage sorts before its native one.
const NOARCH_FIRST: &[u8] = br#"<?xml version="1.0" encoding="UTF-8"?>
<metadata xmlns="http://linux.duke.edu/metadata/common" xmlns:rpm="http://linux.duke.edu/metadata/rpm" packages="2">
<package type="rpm">
  <name>aaa-doc</name>
  <arch>noarch</arch>
  <version epoch="0" ver="1.0" rel="1.1"/>
  <packager>https://bugs.opensuse.org</packager>
  <location href="noarch/aaa-doc-1.0-1.1.noarch.rpm"/>
  <format>
    <rpm:sourcerpm>aaa-1.0-1.1.src.rpm</rpm:sourcerpm>
  </format>
</package>
<package type="rpm">
  <name>aaa-tools</name>
  <arch>x86_64</arch>
  <version epoch="0" ver="1.0" rel="1.1"/>
  <packager>https://bugs.opensuse.org</packager>
  <location href="x86_64/aaa-tools-1.0-1.1.x86_64.rpm"/>
  <format>
    <rpm:sourcerpm>aaa-1.0-1.1.src.rpm</rpm:sourcerpm>
  </format>
</package>
</metadata>
"#;

fn between(text: &str, start: &str, end: &str) -> String {
    let from = text.find(start).unwrap() + start.len();
    let to = from + text[from..].find(end).unwrap();
    text[from..to].to_string()
}

fn parse_package_index(index: &[u8]) -> Vec<PackagesXmlItem> {
    let text = String::from_utf8(index.to_vec()).unwrap();
    text.split("<package ")
        .skip(1)
        .map(|pkg| PackagesXmlItem {
            name: between(pkg, "<name>", "</name>"),
            arch: between(pkg, "<arch>", "</arch>"),
            version: PackageVersion {
                ver: between(pkg, " ver=\"", "\""),
                rel: between(pkg, " rel=\"", "\""),
            },
            packager: between(pkg, "<packager>", "</packager>"),
            location: PackageLocation {
                href: between(pkg, "<location href=\"", "\""),
            },
            format: PackageFormat {
                sourcerpm: between(pkg, "<rpm:sourcerpm>", "</rpm:sourcerpm>"),
            },
        })
        .collect()
}

fn gen_sync(architectures: &[&str]) -> PkgsSync {
    PkgsSync {
        components: vec!["oss".to_string()],
        releases: vec![SyncRelease {
            name: "leap-16.0".to_string(),
            source: LEAP_SOURCE.to_string(),
        }],
        architectures: architectures.iter().map(|a| a.to_string()).collect(),
    }
}

fn import(index: &[u8], architectures: &[&str]) -> Vec<PackageReport> {
    let sync = gen_sync(architectures);
    let base_url = format!("{LEAP_SOURCE}/oss");
    let packages = parse_package_index(index);

    let mut state = SyncState::default();
    for arch in &sync.architectures {
        state.create_group(&sync.releases[0].name, arch);
    }
    state.import_packages(
        packages,
        &base_url,
        &sync.releases[0],
        "oss",
        &sync,
        &|_: &PackagesXmlItem, _: &str| true,
    );
    state.into_vec()
}

#[test]
fn test_join_url() {
    assert_eq!(
        join_url("https://example.com/repo/oss", "x86_64/hello.rpm"),
        "https://example.com/repo/oss/x86_64/hello.rpm"
    );
    // the per-architecture indexes of Leap point back out of their directory
    assert_eq!(
        join_url("https://example.com/repo/oss/x86_64", "../noarch/hello.rpm"),
        "https://example.com/repo/oss/noarch/hello.rpm"
    );
}

#[test]
fn test_join_url_goes_up_more_than_once() {
    assert_eq!(join_url("a/b/c", "../../d"), "a/d");
    assert_eq!(join_url("a/b/", "../c"), "a/b/c");
    // there is nothing above the first segment
    assert_eq!(join_url("a/b", "../../../c"), "a/c");
    assert_eq!(join_url("", "../c"), "/c");
    // only what leads the location counts
    assert_eq!(join_url("a/b", "c/../d"), "a/b/c/../d");
    assert_eq!(join_url("a/b", "..c"), "a/b/..c");
    assert_eq!(join_url("a/b", "./c"), "a/b/./c");
    assert_eq!(join_url("a/\u{e9}\u{20ac}", "../\u{1f4e6}"), "a/\u{1f4e6}");
    assert_eq!(join_url("a/b", ""), "a/b/");
}

#[test]
fn test_noarch_merged_into_every_architecture() {
    let reports = import(HELLO, &["x86_64", "aarch64"]);
    assert_eq!(reports.len(), 2);

    for (report, arch) in reports.iter().zip(["aarch64", "x86_64"]) {
        assert_eq!(report.distribution, "opensuse");
        assert_eq!(report.release.as_deref(), Some("leap-16.0"));
        assert_eq!(report.architecture, arch);
        assert_eq!(report.packages.len(), 1);

        let group = &report.packages[0];
        assert_eq!(group.name, "hello-2.12.1-bp160.1.13.src.rpm");
        assert_eq!(group.version, "2.12.1-bp160.1.13");

        // the native binary plus the shared noarch subpackage
        let artifacts = group
            .artifacts
            .iter()
            .map(|a| (a.name.as_str(), a.architecture.as_str()))
            .collect::<Vec<_>>();
        assert_eq!(artifacts, &[("hello", arch), ("hello-lang", "noarch")]);
    }
}

#[test]
fn test_foreign_architectures_are_dropped() {
    let reports = import(HELLO, &["x86_64"]);
    assert_eq!(reports.len(), 1);

    let architectures = reports[0].packages[0]
        .artifacts
        .iter()
        .map(|a| a.architecture.as_str())
        .collect::<Vec<_>>();
    assert_eq!(architectures, &["x86_64", "noarch"]);
}

#[test]
fn test_build_input_url_prefers_native_arch() {
    let reports = import(NOARCH_FIRST, &["x86_64"]);
    let group = &reports[0].packages[0];

    assert_eq!(
        group.url,
        format!("{LEAP_SOURCE}/oss/x86_64/aaa-tools-1.0-1.1.x86_64.rpm")
    );
    assert_eq!(group.artifacts.len(), 2);
}

#[test]
fn test_build_input_url_is_the_first_artifact_without_a_native_one() {
    let reports = import(NOARCH_FIRST, &["s390x"]);
    let group = &reports[0].packages[0];

    assert_eq!(
        group.url,
        format!("{LEAP_SOURCE}/oss/noarch/aaa-doc-1.0-1.1.noarch.rpm")
    );
    assert_eq!(group.artifacts.len(), 1);
}

#[test]
fn test_artifact_urls_and_component() {
    let reports = import(HELLO, &["x86_64"]);
    let artifacts = &reports[0].packages[0].artifacts;

    assert_eq!(
        artifacts[0].url,
        format!("{LEAP_SOURCE}/oss/x86_64/hello-2.12.1-bp160.1.13.x86_64.rpm")
    );
    assert_eq!(
        artifacts[1].url,
        format!("{LEAP_SOURCE}/oss/noarch/hello-lang-2.12.1-bp160.1.13.noarch.rpm")
    );
    for artifact in artifacts {
        assert_eq!(artifact.component.as_deref(), Some("oss"));
    }
}

#[test]
fn test_empty_release_group_is_reported() {
    let index = br#"<?xml version="1.0" encoding="UTF-8"?>
<metadata xmlns="http://linux.duke.edu/metadata/common" xmlns:rpm="http://linux.duke.edu/metadata/rpm" packages="0">
</metadata>
"#;
    let reports = import(index, &["x86_64"]);
    assert_eq!(
        reports,
        &[PackageReport {
            distribution: "opensuse".to_string(),
            release: Some("leap-16.0".to_string()),
            architecture: "x86_64".to_string(),
            packages: Vec::new(),
        }]
    );
}

#[test]
fn test_maintainer_filter_skips_sle_packages() {
    // Leap packages inherited from SLE are built on the internal
    // build.suse.de and can only be told apart by their packager
    let index = br#"<?xml version="1.0" encoding="UTF-8"?>
<metadata xmlns="http://linux.duke.edu/metadata/common" xmlns:rpm="http://linux.duke.edu/metadata/rpm" packages="2">
<package type="rpm">
  <name>bash</name>
  <arch>x86_64</arch>
  <version epoch="0" ver="5.2.37" rel="160000.2.2"/>
  <packager>https://www.suse.com/</packager>
  <location href="x86_64/bash-5.2.37-160000.2.2.x86_64.rpm"/>
  <format>
    <rpm:sourcerpm>bash-5.2.37-160000.2.2.src.rpm</rpm:sourcerpm>
  </format>
</package>
<package type="rpm">
  <name>hello</name>
  <arch>x86_64</arch>
  <version epoch="0" ver="2.12.1" rel="bp160.1.13"/>
  <packager>https://bugs.opensuse.org</packager>
  <location href="x86_64/hello-2.12.1-bp160.1.13.x86_64.rpm"/>
  <format>
    <rpm:sourcerpm>hello-2.12.1-bp160.1.13.src.rpm</rpm:sourcerpm>
  </format>
</package>
</metadata>
"#;
    let sync = gen_sync(&["x86_64"]);
    let maintainers = vec!["https://bugs.opensuse.org".to_string()];

    let base_url = format!("{LEAP_SOURCE}/oss");
    let packages = parse_package_index(&index[..]);
    let mut state = SyncState::default();
    state.create_group("leap-16.0", "x86_64");
    state.import_packages(
        packages,
        &base_url,
        &sync.releases[0],
        "oss",
        &sync,
        &|pkg: &PackagesXmlItem, _: &str| maintainers.contains(&pkg.packager),
    );
    let reports = state.into_vec();

    let names = reports[0]
        .packages
        .iter()
        .map(|p| p.name.as_str())
        .collect::<Vec<_>>();
    assert_eq!(names, &["hello-2.12.1-bp160.1.13.src.rpm"]);
}

fn item(name: &str, arch: &str, href: &str, sourcerpm: &str) -> PackagesXmlItem {
    PackagesXmlItem {
        name: name.to_string(),
        arch: arch.to_string(),
        version: PackageVersion {
            ver: "1".to_string(),
            rel: "2".to_string(),
        },
        packager: "someone".to_string(),
        location: PackageLocation {
            href: href.to_string(),
        },
        format: PackageFormat {
            sourcerpm: sourcerpm.to_string(),
        },
    }
}

#[test]
fn push_keeps_the_first_native_artifact_as_build_input() {
    let mut state = SyncState::default();
    for name in ["one", "two"] {
        state.push("r", "x", "u", "c", &item(name, "x", name, "s"));
    }
    let reports = state.into_vec();
    assert_eq!(reports.len(), 1);
    let group = &reports[0].packages[0];
    assert_eq!(group.url, "u/one");
    assert_eq!(group.version, "1-2");
    assert_eq!(group.artifacts[1].url, "u/two");
}

#[test]
fn reports_and_packages_are_sorted() {
    let mut state = SyncState::default();
    for (release, arch) in [("b", "x"), ("a", "y"), ("b", "A"), ("a", "xx"), ("a", "x")] {
        for source in ["zz", "b", "\u{e9}", "a", "aa"] {
            state.push(release, arch, "u", "c", &item("p", arch, "h", source));
        }
    }
    let reports = state.into_vec();
    let scopes = reports
        .iter()
        .map(|r| (r.release.as_deref().unwrap(), r.architecture.as_str()))
        .collect::<Vec<_>>();
    assert_eq!(
        scopes,
        &[("a", "x"), ("a", "xx"), ("a", "y"), ("b", "A"), ("b", "x")]
    );
    for report in &reports {
        let names = report
            .packages
            .iter()
            .map(|p| p.name.as_str())
            .collect::<Vec<_>>();
        assert_eq!(names, &["a", "aa", "b", "zz", "\u{e9}"]);
    }
}

#[test]
fn creating_a_group_keeps_its_packages() {
    let mut state = SyncState::default();
    state.push("r", "x", "u", "c", &item("p", "x", "h", "s"));
    state.create_group("r", "x");
    state.create_group("r", "y");
    let reports = state.into_vec();
    assert_eq!(reports.len(), 2);
    assert_eq!(reports[0].packages.len(), 1);
    assert_eq!(reports[1].packages.len(), 0);
}

#[test]
fn import_package_only_reports_selected_packages() {
    let sync = gen_sync(&["x", "y", "x"]);
    let release = &sync.releases[0];
    let mut state = SyncState::default();
    state.import_package(&item("p", "noarch", "h", "s"), false, "u", release, "c", &sync);
    state.import_package(&item("q", "x", "h", "s"), true, "u", release, "c", &sync);
    let reports = state.into_vec();
    assert_eq!(reports.len(), 1);
    assert_eq!(reports[0].architecture, "x");
    // once for every time the architecture is listed
    assert_eq!(reports[0].packages[0].artifacts.len(), 2);
}

fn two_releases(components: &[&str]) -> PkgsSync {
    PkgsSync {
        components: components.iter().map(|c| c.to_string()).collect(),
        releases: ["tumbleweed", "leap"]
            .iter()
            .map(|r| SyncRelease {
                name: r.to_string(),
                source: format!("https://example.com/{r}/repo"),
            })
            .collect(),
        architectures: vec!["x86_64".to_string()],
    }
}

#[test]
fn sync_fetches_every_component_of_every_release() {
    let sync = two_releases(&["oss", "non-oss"]);
    let mut run = SyncRun::new(&sync);
    let mut urls = Vec::new();
    while let Some(url) = run.base_url() {
        let release = if urls.len() < 2 { "tumbleweed" } else { "leap" };
        assert_eq!(run.release(), Some(&release.to_string()));
        let pkg = item(&format!("p{}", urls.len()), "x86_64", "h", "s");
        urls.push(url);
        run.import(vec![pkg], &|_: &PackagesXmlItem, component: &str| {
            component == "oss"
        });
    }
    assert_eq!(
        urls,
        &[
            "https://example.com/tumbleweed/repo/oss",
            "https://example.com/tumbleweed/repo/non-oss",
            "https://example.com/leap/repo/oss",
            "https://example.com/leap/repo/non-oss",
        ]
    );
    assert_eq!(run.release(), None);
    let reports = run.finish();
    assert_eq!(reports.len(), 2);
    assert_eq!(reports[0].release.as_deref(), Some("leap"));
    assert_eq!(reports[0].packages[0].artifacts.len(), 1);
    assert_eq!(reports[0].packages[0].artifacts[0].name, "p2");
    assert_eq!(
        reports[0].packages[0].artifacts[0].url,
        "https://example.com/leap/repo/oss/h"
    );
    assert_eq!(reports[1].release.as_deref(), Some("tumbleweed"));
    assert_eq!(reports[1].packages[0].artifacts[0].name, "p0");
}

#[test]
fn sync_without_components_reports_empty_scopes() {
    let sync = two_releases(&[]);
    let run = SyncRun::new(&sync);
    assert_eq!(run.base_url(), None);
    let reports = run.finish();
    assert_eq!(reports.len(), 2);
    assert!(reports.iter().all(|r| r.packages.is_empty()));
}

#[test]
fn sync_without_releases_reports_nothing() {
    let mut sync = two_releases(&["oss"]);
    sync.releases.clear();
    let run = SyncRun::new(&sync);
    assert_eq!(run.base_url(), None);
    assert_eq!(run.finish(), &[]);
}

#[test]
fn artifacts_are_listed_in_the_order_of_their_indexes() {
    let mut sync = two_releases(&["oss", "non-oss"]);
    sync.releases.truncate(1);
    let mut run = SyncRun::new(&sync);
    for names in [["z", "a"], ["m", "b"]] {
        let packages = names
            .iter()
            .map(|name| item(name, "x86_64", name, "s"))
            .collect();
        run.import(packages, &|_: &PackagesXmlItem, _: &str| true);
    }
    let reports = run.finish();
    let names = reports[0].packages[0]
        .artifacts
        .iter()
        .map(|a| a.name.as_str())
        .collect::<Vec<_>>();
    assert_eq!(names, &["z", "a", "m", "b"]);
    assert_eq!(
        reports[0].packages[0].url,
        "https://example.com/tumbleweed/repo/oss/z"
    );
}
