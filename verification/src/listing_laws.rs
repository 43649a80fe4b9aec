//! What the list of reports of every sync holds.

use vstd::prelude::*;

verus! {

/// The list of reports of a sync has every selected package that belongs there, as
/// an artifact of its source package.
pub proof fn law_every_selected_package_is_listed(
    sync: crate::sync::PkgsSyncView,
    log: Seq<Seq<crate::sync::Fetch>>,
    list: Seq<crate::report::PackageReportView>,
    r: int,
    c: int,
    i: int,
    a: int,
)
    requires
        crate::sync::all_decided(log),
        crate::opensuse::lists_reports(sync.after_releases(log), list),
        0 <= r < log.len(),
        0 <= c < log[r].len(),
        0 <= i < log[r][c].packages.len(),
        log[r][c].selected[i],
        0 <= a < sync.architectures.len(),
        log[r][c].packages[i].arch == sync.architectures[a] || log[r][c].packages[i].arch
            == "noarch"@,
    ensures
        ({
            let pkg = log[r][c].packages[i];
            exists|x: int, y: int, z: int|
                {
                    let artifact = #[trigger] list[x].packages[y].artifacts[z];
                    &&& 0 <= x < list.len()
                    &&& list[x].release == Some(sync.releases[r].name)
                    &&& list[x].architecture == sync.architectures[a]
                    &&& 0 <= y < list[x].packages.len()
                    &&& list[x].packages[y].name == pkg.sourcerpm
                    &&& 0 <= z < list[x].packages[y].artifacts.len()
                    &&& artifact.name == pkg.name
                    &&& artifact.architecture == pkg.arch
                    &&& artifact.version == pkg.ver + "-"@ + pkg.rel
                    &&& artifact.component == Some(sync.components[c])
                    &&& artifact.url == crate::url::resolved(
                        sync.releases[r].source + "/"@ + sync.components[c],
                        pkg.href,
                    )
                }
        }),
{
    crate::origin_laws::law_every_selected_package_is_reported(sync, log, r, c, i, a);
    let reports = sync.after_releases(log);
    let scope = (sync.releases[r].name, sync.architectures[a]);
    let pkg = log[r][c].packages[i];
    let artifacts = reports[scope][pkg.sourcerpm].artifacts;
    let z = choose|p: int|
        {
            &&& 0 <= p < artifacts.len()
            &&& (#[trigger] artifacts[p]).name == pkg.name
            &&& artifacts[p].architecture == pkg.arch
            &&& artifacts[p].version == pkg.ver + "-"@ + pkg.rel
            &&& artifacts[p].component == Some(sync.components[c])
            &&& artifacts[p].url == crate::url::resolved(
                sync.releases[r].source + "/"@ + sync.components[c],
                pkg.href,
            )
        };
    let x = choose|x: int|
        0 <= x < list.len() && #[trigger] crate::opensuse::scope_of(list[x]) == scope;
    let packages = list[x].packages;
    let y = choose|y: int|
        0 <= y < packages.len() && #[trigger] packages[y].name == pkg.sourcerpm;
    assert(list[x].packages[y].artifacts[z].name == pkg.name);
}

/// The list of reports of a sync has no other artifacts than the selected packages
/// that belong there.
pub proof fn law_every_listed_artifact_was_fetched(
    sync: crate::sync::PkgsSyncView,
    log: Seq<Seq<crate::sync::Fetch>>,
    list: Seq<crate::report::PackageReportView>,
    x: int,
    y: int,
    z: int,
)
    requires
        crate::sync::all_decided(log),
        crate::opensuse::lists_reports(sync.after_releases(log), list),
        0 <= x < list.len(),
        0 <= y < list[x].packages.len(),
        0 <= z < list[x].packages[y].artifacts.len(),
    ensures
        ({
            let artifact = list[x].packages[y].artifacts[z];
            &&& sync.architectures.contains(list[x].architecture)
            &&& exists|r: int, c: int, i: int|
                {
                    let pkg = #[trigger] log[r][c].packages[i];
                    &&& 0 <= r < log.len()
                    &&& 0 <= c < log[r].len()
                    &&& 0 <= i < log[r][c].packages.len()
                    &&& log[r][c].selected[i]
                    &&& list[x].release == Some(sync.releases[r].name)
                    &&& list[x].packages[y].name == pkg.sourcerpm
                    &&& pkg.arch == list[x].architecture || pkg.arch == "noarch"@
                    &&& artifact.name == pkg.name
                    &&& artifact.architecture == pkg.arch
                    &&& artifact.version == pkg.ver + "-"@ + pkg.rel
                    &&& artifact.component == Some(sync.components[c])
                    &&& artifact.url == crate::url::resolved(
                        sync.releases[r].source + "/"@ + sync.components[c],
                        pkg.href,
                    )
                }
        }),
{
    let report = list[x];
    let scope = crate::opensuse::scope_of(report);
    let name = report.packages[y].name;
    assert(sync.after_releases(log)[scope][name] == report.packages[y]);
    crate::origin_laws::law_every_artifact_was_fetched(sync, log, scope, name, z);
}

/// Every source package in the list of reports has an artifact, the version of the
/// first of them, and the url of the first that is built for the architecture of
/// the report, or of the first at all if none is.
pub proof fn law_listed_source_packages_have_a_build_input(
    sync: crate::sync::PkgsSyncView,
    log: Seq<Seq<crate::sync::Fetch>>,
    list: Seq<crate::report::PackageReportView>,
    x: int,
    y: int,
)
    requires
        crate::opensuse::lists_reports(sync.after_releases(log), list),
        0 <= x < list.len(),
        0 <= y < list[x].packages.len(),
    ensures
        ({
            let architecture = list[x].architecture;
            let pkg = list[x].packages[y];
            &&& pkg.artifacts.len() > 0
            &&& pkg.version == pkg.artifacts[0].version
            &&& exists|z: int|
                {
                    &&& 0 <= z < pkg.artifacts.len()
                    &&& pkg.url == (#[trigger] pkg.artifacts[z]).url
                    &&& forall|w: int|
                        0 <= w < z ==> (#[trigger] pkg.artifacts[w]).architecture != architecture
                    &&& pkg.artifacts[z].architecture == architecture || (z == 0 && forall|w: int|
                        0 <= w < pkg.artifacts.len() ==> (#[trigger] pkg.artifacts[w]).architecture
                            != architecture)
                }
        }),
{
    let report = list[x];
    let scope = crate::opensuse::scope_of(report);
    let pkg = report.packages[y];
    let reports = sync.after_releases(log);
    crate::sync_laws::law_sync_groups_are_sound(sync, log);
    assert(reports[scope].contains_key(pkg.name));
    assert(reports[scope][pkg.name] == pkg);
    assert(crate::sync_laws::is_sound_group(scope.1, pkg.name, pkg));
    let z = choose|z: int|
        {
            &&& 0 <= z < pkg.artifacts.len()
            &&& pkg.url == (#[trigger] pkg.artifacts[z]).url
            &&& if crate::opensuse::has_native(pkg.artifacts, scope.1) {
                &&& pkg.artifacts[z].architecture == scope.1
                &&& forall|j: int|
                    0 <= j < z ==> (#[trigger] pkg.artifacts[j]).architecture != scope.1
            } else {
                z == 0
            }
        };
    assert(pkg.url == pkg.artifacts[z].url);
    assert forall|w: int|
        0 <= w < pkg.artifacts.len() && !crate::opensuse::has_native(pkg.artifacts, scope.1) implies (
    #[trigger] pkg.artifacts[w]).architecture != scope.1 by {}
}

/// Every architecture of every release has a report in the list, even where nothing
/// was fetched.
pub proof fn law_every_scope_is_listed(
    sync: crate::sync::PkgsSyncView,
    log: Seq<Seq<crate::sync::Fetch>>,
    list: Seq<crate::report::PackageReportView>,
    r: int,
    a: int,
)
    requires
        crate::opensuse::lists_reports(sync.after_releases(log), list),
        0 <= r < log.len(),
        0 <= a < sync.architectures.len(),
    ensures
        exists|x: int|
            0 <= x < list.len() && (#[trigger] list[x]).release == Some(sync.releases[r].name)
                && list[x].architecture == sync.architectures[a],
{
    let scope = (sync.releases[r].name, sync.architectures[a]);
    crate::sync_laws::law_every_scope_is_reported(sync, log, scope);
    assert(sync.releases[r].name == scope.0);
    assert(sync.architectures.contains(scope.1));
    let x = choose|x: int|
        0 <= x < list.len() && #[trigger] crate::opensuse::scope_of(list[x]) == scope;
    assert(list[x].release is Some);
}

/// Every report in the list is about openSUSE, and about an architecture of a
/// release that was to be synced.
pub proof fn law_every_listed_report_is_about_a_scope(
    sync: crate::sync::PkgsSyncView,
    log: Seq<Seq<crate::sync::Fetch>>,
    list: Seq<crate::report::PackageReportView>,
    x: int,
)
    requires
        crate::opensuse::lists_reports(sync.after_releases(log), list),
        0 <= x < list.len(),
    ensures
        list[x].distribution == "opensuse"@,
        sync.architectures.contains(list[x].architecture),
        exists|r: int|
            0 <= r < log.len() && list[x].release == Some(#[trigger] sync.releases[r].name),
{
    let report = list[x];
    let scope = crate::opensuse::scope_of(report);
    crate::sync_laws::law_every_scope_is_reported(sync, log, scope);
    let r = choose|r: int| 0 <= r < log.len() && #[trigger] sync.releases[r].name == scope.0;
    assert(report.release == Some(sync.releases[r].name));
}

/// The reports of a list stand in the order of the releases' names and, for one
/// release, of the architectures, so there are no two about the same.
pub proof fn law_listed_reports_are_sorted(
    sync: crate::sync::PkgsSyncView,
    log: Seq<Seq<crate::sync::Fetch>>,
    list: Seq<crate::report::PackageReportView>,
    x: int,
    y: int,
)
    requires
        crate::opensuse::lists_reports(sync.after_releases(log), list),
        0 <= x < y < list.len(),
    ensures
        list[x].release is Some,
        list[y].release is Some,
        crate::order::precedes(list[x].release->0, list[y].release->0) || (list[x].release
            == list[y].release && crate::order::precedes(
            list[x].architecture,
            list[y].architecture,
        )),
{
    assert(crate::opensuse::scope_precedes(
        crate::opensuse::scope_of(list[x]),
        crate::opensuse::scope_of(list[y]),
    ));
}

/// In every listed report the source packages stand in the order of their names.
pub proof fn law_listed_source_packages_are_sorted(
    sync: crate::sync::PkgsSyncView,
    log: Seq<Seq<crate::sync::Fetch>>,
    list: Seq<crate::report::PackageReportView>,
    x: int,
    y: int,
    z: int,
)
    requires
        crate::opensuse::lists_reports(sync.after_releases(log), list),
        0 <= x < list.len(),
        0 <= y < z < list[x].packages.len(),
    ensures
        crate::order::precedes(list[x].packages[y].name, list[x].packages[z].name),
{
    let packages = list[x].packages;
    assert(crate::order::precedes(packages[y].name, packages[z].name));
}

/// A list of reports shows all source packages of all reports as they are, and no
/// others.
pub proof fn law_list_shows_the_reports_as_they_are(
    reports: crate::opensuse::ReportsView,
    list: Seq<crate::report::PackageReportView>,
    release: Seq<char>,
    architecture: Seq<char>,
    name: Seq<char>,
)
    requires
        crate::opensuse::lists_reports(reports, list),
    ensures
        reports.contains_key((release, architecture)) <==> exists|x: int|
            0 <= x < list.len() && (#[trigger] list[x]).release == Some(release)
                && list[x].architecture == architecture,
        reports.contains_key((release, architecture)) && reports[(
            release,
            architecture,
        )].contains_key(name) <==> exists|x: int, y: int|
            {
                &&& 0 <= x < list.len()
                &&& list[x].release == Some(release)
                &&& list[x].architecture == architecture
                &&& 0 <= y < list[x].packages.len()
                &&& (#[trigger] list[x].packages[y]).name == name
                &&& list[x].packages[y] == reports[(release, architecture)][name]
            },
{
    let scope = (release, architecture);
    if reports.contains_key(scope) {
        let x = choose|x: int|
            0 <= x < list.len() && #[trigger] crate::opensuse::scope_of(list[x]) == scope;
        assert(list[x].release == Some(release));
        if reports[scope].contains_key(name) {
            let packages = list[x].packages;
            let y = choose|y: int| 0 <= y < packages.len() && #[trigger] packages[y].name == name;
            assert(list[x].packages[y].name == name);
        }
    }
    if exists|x: int|
        0 <= x < list.len() && (#[trigger] list[x]).release == Some(release)
            && list[x].architecture == architecture {
        let x = choose|x: int|
            0 <= x < list.len() && (#[trigger] list[x]).release == Some(release)
                && list[x].architecture == architecture;
        assert(crate::opensuse::scope_of(list[x]) == scope);
    }
    if exists|x: int, y: int|
        {
            &&& 0 <= x < list.len()
            &&& list[x].release == Some(release)
            &&& list[x].architecture == architecture
            &&& 0 <= y < list[x].packages.len()
            &&& (#[trigger] list[x].packages[y]).name == name
            &&& list[x].packages[y] == reports[(release, architecture)][name]
        } {
        let (x, y) = choose|x: int, y: int|
            {
                &&& 0 <= x < list.len()
                &&& list[x].release == Some(release)
                &&& list[x].architecture == architecture
                &&& 0 <= y < list[x].packages.len()
                &&& (#[trigger] list[x].packages[y]).name == name
                &&& list[x].packages[y] == reports[(release, architecture)][name]
            };
        let packages = list[x].packages;
        assert(crate::opensuse::scope_of(list[x]) == scope);
        assert(packages[y].name == name);
    }
}

} // verus!
