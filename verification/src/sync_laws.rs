//! What holds of the reports of every sync.

use vstd::prelude::*;

verus! {

/// Whether a report has this artifact of this source package.
pub open spec fn has_artifact(
    reports: crate::opensuse::ReportsView,
    scope: (Seq<char>, Seq<char>),
    name: Seq<char>,
    artifact: crate::report::BinaryPackageView,
) -> bool {
    &&& reports.contains_key(scope)
    &&& reports[scope].contains_key(name)
    &&& reports[scope][name].artifacts.contains(artifact)
}

/// Whether `artifact` is this package of an index, reported in this scope as an
/// artifact of the source package `name`.
pub open spec fn is_reported_as(
    pkg: crate::repomd::PackageItemView,
    base_url: Seq<char>,
    component: Seq<char>,
    release: Seq<char>,
    architectures: Seq<Seq<char>>,
    scope: (Seq<char>, Seq<char>),
    name: Seq<char>,
    artifact: crate::report::BinaryPackageView,
) -> bool {
    &&& scope.0 == release
    &&& architectures.contains(scope.1)
    &&& pkg.arch == scope.1 || pkg.arch == "noarch"@
    &&& name == pkg.sourcerpm
    &&& artifact.name == pkg.name
    &&& artifact.version == pkg.ver + "-"@ + pkg.rel
    &&& artifact.architecture == pkg.arch
    &&& artifact.url == crate::url::resolved(base_url, pkg.href)
    &&& artifact.component == Some(component)
}

/// Pushing a package adds its artifact and leaves all others.
pub proof fn law_push_is_exact(
    reports: crate::opensuse::ReportsView,
    to: (Seq<char>, Seq<char>),
    base_url: Seq<char>,
    component: Seq<char>,
    pkg: crate::repomd::PackageItemView,
    scope: (Seq<char>, Seq<char>),
    name: Seq<char>,
    artifact: crate::report::BinaryPackageView,
)
    ensures
        has_artifact(
            crate::opensuse::pushed(reports, to, base_url, component, pkg),
            scope,
            name,
            artifact,
        ) <==> has_artifact(reports, scope, name, artifact) || (scope == to && name
            == pkg.sourcerpm && artifact == crate::opensuse::artifact_of(base_url, component, pkg)),
{
    let added = crate::opensuse::artifact_of(base_url, component, pkg);
    let after = crate::opensuse::pushed(reports, to, base_url, component, pkg);
    if scope == to && name == pkg.sourcerpm {
        let groups = crate::opensuse::groups_of(reports, scope);
        let old = if groups.contains_key(name) {
            groups[name]
        } else {
            crate::opensuse::new_group(name, added)
        };
        let artifacts = after[scope][name].artifacts;
        assert(artifacts == old.artifacts.push(added));
        if old.artifacts.contains(artifact) {
            let i = choose|i: int| 0 <= i < old.artifacts.len() && old.artifacts[i] == artifact;
            assert(artifacts[i] == artifact);
        }
        if artifact == added {
            assert(artifacts[artifacts.len() - 1] == artifact);
        }
        if artifacts.contains(artifact) && artifact != added {
            let i = choose|i: int| 0 <= i < artifacts.len() && artifacts[i] == artifact;
            assert(old.artifacts[i] == artifact);
        }
    }
}

proof fn lemma_push_to_all_is_exact(
    reports: crate::opensuse::ReportsView,
    release: Seq<char>,
    architectures: Seq<Seq<char>>,
    base_url: Seq<char>,
    component: Seq<char>,
    pkg: crate::repomd::PackageItemView,
    scope: (Seq<char>, Seq<char>),
    name: Seq<char>,
    artifact: crate::report::BinaryPackageView,
)
    ensures
        has_artifact(
            crate::opensuse::pushed_to_all(
                reports,
                release,
                architectures,
                base_url,
                component,
                pkg,
            ),
            scope,
            name,
            artifact,
        ) <==> has_artifact(reports, scope, name, artifact) || is_reported_as(
            pkg,
            base_url,
            component,
            release,
            architectures,
            scope,
            name,
            artifact,
        ),
    decreases architectures.len(),
{
    if architectures.len() > 0 {
        let rest = architectures.drop_last();
        let last = architectures.last();
        lemma_push_to_all_is_exact(
            reports,
            release,
            rest,
            base_url,
            component,
            pkg,
            scope,
            name,
            artifact,
        );
        lemma_contains(architectures, scope.1);
        if crate::opensuse::belongs_to(pkg, last) {
            law_push_is_exact(
                crate::opensuse::pushed_to_all(
                    reports,
                    release,
                    rest,
                    base_url,
                    component,
                    pkg,
                ),
                (release, last),
                base_url,
                component,
                pkg,
                scope,
                name,
                artifact,
            );
        }
    }
}

/// Importing an index adds, in every architecture of the sync that it belongs
/// to, each selected package as an artifact of its source package, leaves all
/// artifacts that were there and adds nothing else. In particular packages of
/// other architectures are dropped, and noarch packages are part of every
/// architecture.
pub proof fn law_import_is_exact(
    reports: crate::opensuse::ReportsView,
    release: Seq<char>,
    architectures: Seq<Seq<char>>,
    base_url: Seq<char>,
    component: Seq<char>,
    packages: Seq<crate::repomd::PackageItemView>,
    selected: Seq<bool>,
    scope: (Seq<char>, Seq<char>),
    name: Seq<char>,
    artifact: crate::report::BinaryPackageView,
)
    requires
        selected.len() == packages.len(),
    ensures
        has_artifact(
            crate::opensuse::imported(
                reports,
                release,
                architectures,
                base_url,
                component,
                packages,
                selected,
            ),
            scope,
            name,
            artifact,
        ) <==> has_artifact(reports, scope, name, artifact) || exists|i: int|
            0 <= i < packages.len() && selected[i] && is_reported_as(
                #[trigger] packages[i],
                base_url,
                component,
                release,
                architectures,
                scope,
                name,
                artifact,
            ),
    decreases packages.len(),
{
    if packages.len() > 0 {
        let rest = packages.drop_last();
        let rest_selected = selected.drop_last();
        law_import_is_exact(
            reports,
            release,
            architectures,
            base_url,
            component,
            rest,
            rest_selected,
            scope,
            name,
            artifact,
        );
        let before = crate::opensuse::imported(
            reports,
            release,
            architectures,
            base_url,
            component,
            rest,
            rest_selected,
        );
        lemma_push_to_all_is_exact(
            before,
            release,
            architectures,
            base_url,
            component,
            packages.last(),
            scope,
            name,
            artifact,
        );
        let n = packages.len() - 1;
        assert(packages[n] == packages.last() && selected[n] == selected.last());
        assert(forall|i: int| 0 <= i < n ==> #[trigger] packages[i] == rest[i]);
        assert(forall|i: int| 0 <= i < n ==> #[trigger] selected[i] == rest_selected[i]);
        assert forall|i: int|
            0 <= i < rest.len() && rest_selected[i] && is_reported_as(
                #[trigger] rest[i],
                base_url,
                component,
                release,
                architectures,
                scope,
                name,
                artifact,
            ) implies selected[i] && is_reported_as(
            packages[i],
            base_url,
            component,
            release,
            architectures,
            scope,
            name,
            artifact,
        ) by {
            assert(packages[i] == rest[i]);
        }
    }
}

/// Whether `artifact` is one of the packages that were fetched for a release.
pub open spec fn is_fetched(
    sync: crate::sync::PkgsSyncView,
    release: int,
    fetches: Seq<crate::sync::Fetch>,
    scope: (Seq<char>, Seq<char>),
    name: Seq<char>,
    artifact: crate::report::BinaryPackageView,
) -> bool {
    exists|c: int, i: int|
        0 <= c < fetches.len() && 0 <= i < fetches[c].packages.len() && fetches[c].selected[i]
            && is_reported_as(
            #[trigger] fetches[c].packages[i],
            sync.releases[release].source + "/"@ + sync.components[c],
            sync.components[c],
            sync.releases[release].name,
            sync.architectures,
            scope,
            name,
            artifact,
        )
}

/// Creating a report for a scope leaves all artifacts as they are.
proof fn lemma_with_scopes(
    reports: crate::opensuse::ReportsView,
    release: Seq<char>,
    architectures: Seq<Seq<char>>,
    scope: (Seq<char>, Seq<char>),
    name: Seq<char>,
    artifact: crate::report::BinaryPackageView,
)
    ensures
        has_artifact(
            crate::sync::with_scopes(reports, release, architectures),
            scope,
            name,
            artifact,
        ) <==> has_artifact(reports, scope, name, artifact),
        crate::sync::with_scopes(reports, release, architectures).contains_key(scope)
            <==> reports.contains_key(scope) || (scope.0 == release && architectures.contains(
            scope.1,
        )),
    decreases architectures.len(),
{
    if architectures.len() > 0 {
        let rest = architectures.drop_last();
        lemma_with_scopes(reports, release, rest, scope, name, artifact);
        lemma_contains(architectures, scope.1);
    }
}

proof fn lemma_contains(s: Seq<Seq<char>>, x: Seq<char>)
    requires
        s.len() > 0,
    ensures
        s.contains(x) <==> s.drop_last().contains(x) || x == s.last(),
{
    let rest = s.drop_last();
    if rest.contains(x) {
        let i = choose|i: int| 0 <= i < rest.len() && rest[i] == x;
        assert(s[i] == x);
    }
    if x == s.last() {
        assert(s[s.len() - 1] == x);
    }
    if s.contains(x) && x != s.last() {
        let i = choose|i: int| 0 <= i < s.len() && s[i] == x;
        assert(rest[i] == x);
    }
}

proof fn lemma_components_are_exact(
    sync: crate::sync::PkgsSyncView,
    reports: crate::opensuse::ReportsView,
    release: int,
    fetches: Seq<crate::sync::Fetch>,
    scope: (Seq<char>, Seq<char>),
    name: Seq<char>,
    artifact: crate::report::BinaryPackageView,
)
    requires
        forall|c: int|
            0 <= c < fetches.len() ==> (#[trigger] fetches[c]).selected.len()
                == fetches[c].packages.len(),
    ensures
        has_artifact(sync.after_components(reports, release, fetches), scope, name, artifact)
            <==> has_artifact(reports, scope, name, artifact) || is_fetched(
            sync,
            release,
            fetches,
            scope,
            name,
            artifact,
        ),
    decreases fetches.len(),
{
    if fetches.len() > 0 {
        let rest = fetches.drop_last();
        let n = fetches.len() - 1;
        let last = fetches[n];
        lemma_components_are_exact(sync, reports, release, rest, scope, name, artifact);
        law_import_is_exact(
            sync.after_components(reports, release, rest),
            sync.releases[release].name,
            sync.architectures,
            sync.base_url(release, n),
            sync.components[n],
            last.packages,
            last.selected,
            scope,
            name,
            artifact,
        );
        if is_fetched(sync, release, rest, scope, name, artifact) {
            let (c, i) = choose|c: int, i: int|
                0 <= c < rest.len() && 0 <= i < rest[c].packages.len() && rest[c].selected[i]
                    && is_reported_as(
                    #[trigger] rest[c].packages[i],
                    sync.base_url(release, c),
                    sync.components[c],
                    sync.releases[release].name,
                    sync.architectures,
                    scope,
                    name,
                    artifact,
                );
            assert(fetches[c] == rest[c]);
            assert(fetches[c].packages[i] == rest[c].packages[i]);
        }
        if is_fetched(sync, release, fetches, scope, name, artifact) {
            let (c, i) = choose|c: int, i: int|
                0 <= c < fetches.len() && 0 <= i < fetches[c].packages.len()
                    && fetches[c].selected[i] && is_reported_as(
                    #[trigger] fetches[c].packages[i],
                    sync.base_url(release, c),
                    sync.components[c],
                    sync.releases[release].name,
                    sync.architectures,
                    scope,
                    name,
                    artifact,
                );
            if c < n {
                assert(rest[c] == fetches[c]);
                assert(rest[c].packages[i] == fetches[c].packages[i]);
            } else {
                assert(last.packages[i] == fetches[c].packages[i]);
            }
        }
    }
}

/// The reports of a sync have, for each release and architecture, exactly the
/// selected packages of the indexes of that release that belong to that
/// architecture, each as an artifact of its source package.
pub proof fn law_sync_is_exact(
    sync: crate::sync::PkgsSyncView,
    log: Seq<Seq<crate::sync::Fetch>>,
    scope: (Seq<char>, Seq<char>),
    name: Seq<char>,
    artifact: crate::report::BinaryPackageView,
)
    requires
        crate::sync::all_decided(log),
    ensures
        has_artifact(sync.after_releases(log), scope, name, artifact) <==> exists|r: int|
            0 <= r < log.len() && is_fetched(
                sync,
                r,
                #[trigger] log[r],
                scope,
                name,
                artifact,
            ),
    decreases log.len(),
{
    if log.len() > 0 {
        let rest = log.drop_last();
        let n = log.len() - 1;
        assert forall|r: int, c: int|
            0 <= r < rest.len() && 0 <= c < rest[r].len() implies (
        #[trigger] rest[r][c]).selected.len() == rest[r][c].packages.len() by {
            assert(log[r][c] == rest[r][c]);
        }
        law_sync_is_exact(sync, rest, scope, name, artifact);
        let before = sync.after_releases(rest);
        let created = crate::sync::with_scopes(
            before,
            sync.releases[n].name,
            sync.architectures,
        );
        lemma_with_scopes(
            before,
            sync.releases[n].name,
            sync.architectures,
            scope,
            name,
            artifact,
        );
        assert forall|c: int| 0 <= c < log[n].len() implies (#[trigger] log[n][c]).selected.len()
            == log[n][c].packages.len() by {}
        lemma_components_are_exact(sync, created, n, log[n], scope, name, artifact);
        assert(forall|r: int| 0 <= r < n ==> #[trigger] log[r] == rest[r]);
        if has_artifact(before, scope, name, artifact) {
            let r = choose|r: int|
                0 <= r < rest.len() && is_fetched(
                    sync,
                    r,
                    #[trigger] rest[r],
                    scope,
                    name,
                    artifact,
                );
            assert(log[r] == rest[r]);
        }
        if exists|r: int|
            0 <= r < log.len() && is_fetched(sync, r, #[trigger] log[r], scope, name, artifact) {
            let r = choose|r: int|
                0 <= r < log.len() && is_fetched(
                    sync,
                    r,
                    #[trigger] log[r],
                    scope,
                    name,
                    artifact,
                );
            if r < n {
                assert(rest[r] == log[r]);
            }
        }
    }
}

/// A report never has a binary package of another architecture.
pub proof fn law_foreign_architectures_are_dropped(
    sync: crate::sync::PkgsSyncView,
    log: Seq<Seq<crate::sync::Fetch>>,
    scope: (Seq<char>, Seq<char>),
    name: Seq<char>,
    artifact: crate::report::BinaryPackageView,
)
    requires
        crate::sync::all_decided(log),
        has_artifact(sync.after_releases(log), scope, name, artifact),
    ensures
        artifact.architecture == scope.1 || artifact.architecture == "noarch"@,
{
    law_sync_is_exact(sync, log, scope, name, artifact);
}

/// Importing packages creates no report for a scope that does not have one, where
/// the architectures of the release all have one.
proof fn lemma_push_to_all_scopes(
    reports: crate::opensuse::ReportsView,
    release: Seq<char>,
    architectures: Seq<Seq<char>>,
    base_url: Seq<char>,
    component: Seq<char>,
    pkg: crate::repomd::PackageItemView,
    scope: (Seq<char>, Seq<char>),
)
    requires
        scope.0 == release && architectures.contains(scope.1) ==> reports.contains_key(scope),
    ensures
        crate::opensuse::pushed_to_all(
            reports,
            release,
            architectures,
            base_url,
            component,
            pkg,
        ).contains_key(scope) <==> reports.contains_key(scope),
    decreases architectures.len(),
{
    if architectures.len() > 0 {
        lemma_contains(architectures, scope.1);
        lemma_push_to_all_scopes(
            reports,
            release,
            architectures.drop_last(),
            base_url,
            component,
            pkg,
            scope,
        );
    }
}

proof fn lemma_import_scopes(
    reports: crate::opensuse::ReportsView,
    release: Seq<char>,
    architectures: Seq<Seq<char>>,
    base_url: Seq<char>,
    component: Seq<char>,
    packages: Seq<crate::repomd::PackageItemView>,
    selected: Seq<bool>,
    scope: (Seq<char>, Seq<char>),
)
    requires
        scope.0 == release && architectures.contains(scope.1) ==> reports.contains_key(scope),
    ensures
        crate::opensuse::imported(
            reports,
            release,
            architectures,
            base_url,
            component,
            packages,
            selected,
        ).contains_key(scope) <==> reports.contains_key(scope),
    decreases packages.len(),
{
    if packages.len() > 0 {
        let rest = packages.drop_last();
        lemma_import_scopes(
            reports,
            release,
            architectures,
            base_url,
            component,
            rest,
            selected.drop_last(),
            scope,
        );
        lemma_push_to_all_scopes(
            crate::opensuse::imported(
                reports,
                release,
                architectures,
                base_url,
                component,
                rest,
                selected.drop_last(),
            ),
            release,
            architectures,
            base_url,
            component,
            packages.last(),
            scope,
        );
    }
}

proof fn lemma_component_scopes(
    sync: crate::sync::PkgsSyncView,
    reports: crate::opensuse::ReportsView,
    release: int,
    fetches: Seq<crate::sync::Fetch>,
    scope: (Seq<char>, Seq<char>),
)
    requires
        scope.0 == sync.releases[release].name && sync.architectures.contains(scope.1)
            ==> reports.contains_key(scope),
    ensures
        sync.after_components(reports, release, fetches).contains_key(scope)
            <==> reports.contains_key(scope),
    decreases fetches.len(),
{
    if fetches.len() > 0 {
        let rest = fetches.drop_last();
        let n = fetches.len() - 1;
        lemma_component_scopes(sync, reports, release, rest, scope);
        lemma_import_scopes(
            sync.after_components(reports, release, rest),
            sync.releases[release].name,
            sync.architectures,
            sync.base_url(release, n),
            sync.components[n],
            fetches.last().packages,
            fetches.last().selected,
            scope,
        );
    }
}

/// There is a report for every architecture of every release, even when nothing
/// matched, and there is no other.
pub proof fn law_every_scope_is_reported(
    sync: crate::sync::PkgsSyncView,
    log: Seq<Seq<crate::sync::Fetch>>,
    scope: (Seq<char>, Seq<char>),
)
    ensures
        sync.after_releases(log).contains_key(scope) <==> sync.architectures.contains(scope.1)
            && exists|r: int| 0 <= r < log.len() && #[trigger] sync.releases[r].name == scope.0,
    decreases log.len(),
{
    if log.len() > 0 {
        let rest = log.drop_last();
        let n = log.len() - 1;
        law_every_scope_is_reported(sync, rest, scope);
        let before = sync.after_releases(rest);
        let created = crate::sync::with_scopes(
            before,
            sync.releases[n].name,
            sync.architectures,
        );
        lemma_with_scopes(
            before,
            sync.releases[n].name,
            sync.architectures,
            scope,
            Seq::empty(),
            arbitrary(),
        );
        lemma_component_scopes(sync, created, n, log.last(), scope);
    }
}

/// Creating a report for a scope that has one changes nothing, and it never
/// changes another one.
pub proof fn law_creating_a_group_keeps_reports(
    reports: crate::opensuse::ReportsView,
    scope: (Seq<char>, Seq<char>),
    other: (Seq<char>, Seq<char>),
)
    ensures
        reports.contains_key(scope) ==> crate::opensuse::with_scope(reports, scope) == reports,
        reports.contains_key(other) ==> crate::opensuse::with_scope(reports, scope)[other]
            == reports[other],
        crate::opensuse::with_scope(reports, scope).contains_key(other) <==> reports.contains_key(
            other,
        ) || other == scope,
        !reports.contains_key(scope) ==> crate::opensuse::with_scope(reports, scope)[scope]
            == Map::<Seq<char>, crate::report::SourcePackageView>::empty(),
{
    if reports.contains_key(scope) {
        assert(crate::opensuse::with_scope(reports, scope) =~= reports);
    }
}

/// Whether `url` is that of the first artifact that is built for this
/// architecture or, if there is none, of the first artifact.
pub open spec fn is_build_input(
    url: Seq<char>,
    architecture: Seq<char>,
    artifacts: Seq<crate::report::BinaryPackageView>,
) -> bool {
    exists|i: int|
        {
            &&& 0 <= i < artifacts.len()
            &&& url == (#[trigger] artifacts[i]).url
            &&& if crate::opensuse::has_native(artifacts, architecture) {
                &&& artifacts[i].architecture == architecture
                &&& forall|j: int|
                    0 <= j < i ==> (#[trigger] artifacts[j]).architecture != architecture
            } else {
                i == 0
            }
        }
}

/// Whether a source package says of itself what its artifacts say: it is kept
/// under its name, it has the version of its first artifact, and it is built
/// from the artifact that fits its architecture best.
pub open spec fn is_sound_group(
    architecture: Seq<char>,
    name: Seq<char>,
    group: crate::report::SourcePackageView,
) -> bool {
    &&& group.name == name
    &&& group.artifacts.len() > 0
    &&& group.version == group.artifacts[0].version
    &&& is_build_input(group.url, architecture, group.artifacts)
}

/// Whether all source packages are sound.
pub open spec fn is_sound(reports: crate::opensuse::ReportsView) -> bool {
    forall|scope: (Seq<char>, Seq<char>), name: Seq<char>|
        reports.contains_key(scope) && reports[scope].contains_key(name) ==> is_sound_group(
            scope.1,
            name,
            #[trigger] reports[scope][name],
        )
}

/// One more artifact keeps a source package sound.
proof fn lemma_with_artifact_is_sound(
    architecture: Seq<char>,
    name: Seq<char>,
    group: crate::report::SourcePackageView,
    artifact: crate::report::BinaryPackageView,
)
    requires
        is_sound_group(architecture, name, group) || group == crate::opensuse::new_group(
            name,
            artifact,
        ),
    ensures
        is_sound_group(
            architecture,
            name,
            crate::opensuse::with_artifact(group, architecture, artifact),
        ),
{
    let after = crate::opensuse::with_artifact(group, architecture, artifact);
    let old = group.artifacts;
    let new = after.artifacts;
    let n = old.len() as int;
    assert(forall|i: int| 0 <= i < n ==> #[trigger] new[i] == old[i]);
    assert(new[n] == artifact);
    assert(crate::opensuse::has_native(new, architecture) <==> crate::opensuse::has_native(
        old,
        architecture,
    ) || artifact.architecture == architecture) by {
        if crate::opensuse::has_native(old, architecture) {
            let i = choose|i: int| 0 <= i < n && #[trigger] old[i].architecture == architecture;
            assert(new[i].architecture == architecture);
        }
    }
    if n == 0 {
        assert(new[0].url == after.url);
    } else {
        let i = choose|i: int|
            {
                &&& 0 <= i < old.len()
                &&& group.url == (#[trigger] old[i]).url
                &&& if crate::opensuse::has_native(old, architecture) {
                    &&& old[i].architecture == architecture
                    &&& forall|j: int|
                        0 <= j < i ==> (#[trigger] old[j]).architecture != architecture
                } else {
                    i == 0
                }
            };
        if artifact.architecture == architecture && !crate::opensuse::has_native(
            old,
            architecture,
        ) {
            assert(new[n].url == after.url);
            assert forall|j: int| 0 <= j < n implies (#[trigger] new[j]).architecture
                != architecture by {
                assert(old[j].architecture != architecture);
            }
        } else {
            assert(new[i].url == after.url);
        }
    }
}

/// Pushing a package keeps all source packages sound: the build input stays the
/// first native artifact, and becomes the new one only where it is that.
pub proof fn law_push_keeps_groups_sound(
    reports: crate::opensuse::ReportsView,
    scope: (Seq<char>, Seq<char>),
    base_url: Seq<char>,
    component: Seq<char>,
    pkg: crate::repomd::PackageItemView,
)
    requires
        is_sound(reports),
    ensures
        is_sound(crate::opensuse::pushed(reports, scope, base_url, component, pkg)),
{
    let after = crate::opensuse::pushed(reports, scope, base_url, component, pkg);
    let artifact = crate::opensuse::artifact_of(base_url, component, pkg);
    let groups = crate::opensuse::groups_of(reports, scope);
    let group = if groups.contains_key(pkg.sourcerpm) {
        groups[pkg.sourcerpm]
    } else {
        crate::opensuse::new_group(pkg.sourcerpm, artifact)
    };
    assert forall|s: (Seq<char>, Seq<char>), name: Seq<char>|
        after.contains_key(s) && after[s].contains_key(name) implies is_sound_group(
        s.1,
        name,
        #[trigger] after[s][name],
    ) by {
        if s == scope && name == pkg.sourcerpm {
            lemma_with_artifact_is_sound(scope.1, name, group, artifact);
        } else {
            assert(after[s][name] == reports[s][name]);
        }
    }
}

proof fn lemma_push_to_all_is_sound(
    reports: crate::opensuse::ReportsView,
    release: Seq<char>,
    architectures: Seq<Seq<char>>,
    base_url: Seq<char>,
    component: Seq<char>,
    pkg: crate::repomd::PackageItemView,
)
    requires
        is_sound(reports),
    ensures
        is_sound(
            crate::opensuse::pushed_to_all(
                reports,
                release,
                architectures,
                base_url,
                component,
                pkg,
            ),
        ),
    decreases architectures.len(),
{
    if architectures.len() > 0 {
        let rest = architectures.drop_last();
        lemma_push_to_all_is_sound(reports, release, rest, base_url, component, pkg);
        law_push_keeps_groups_sound(
            crate::opensuse::pushed_to_all(
                reports,
                release,
                rest,
                base_url,
                component,
                pkg,
            ),
            (release, architectures.last()),
            base_url,
            component,
            pkg,
        );
    }
}

/// Importing an index keeps all source packages sound.
pub proof fn law_import_keeps_groups_sound(
    reports: crate::opensuse::ReportsView,
    release: Seq<char>,
    architectures: Seq<Seq<char>>,
    base_url: Seq<char>,
    component: Seq<char>,
    packages: Seq<crate::repomd::PackageItemView>,
    selected: Seq<bool>,
)
    requires
        is_sound(reports),
    ensures
        is_sound(
            crate::opensuse::imported(
                reports,
                release,
                architectures,
                base_url,
                component,
                packages,
                selected,
            ),
        ),
    decreases packages.len(),
{
    if packages.len() > 0 {
        let rest = packages.drop_last();
        law_import_keeps_groups_sound(
            reports,
            release,
            architectures,
            base_url,
            component,
            rest,
            selected.drop_last(),
        );
        lemma_push_to_all_is_sound(
            crate::opensuse::imported(
                reports,
                release,
                architectures,
                base_url,
                component,
                rest,
                selected.drop_last(),
            ),
            release,
            architectures,
            base_url,
            component,
            packages.last(),
        );
    }
}

proof fn lemma_with_scopes_is_sound(
    reports: crate::opensuse::ReportsView,
    release: Seq<char>,
    architectures: Seq<Seq<char>>,
)
    requires
        is_sound(reports),
    ensures
        is_sound(crate::sync::with_scopes(reports, release, architectures)),
    decreases architectures.len(),
{
    if architectures.len() > 0 {
        let rest = architectures.drop_last();
        lemma_with_scopes_is_sound(reports, release, rest);
        let before = crate::sync::with_scopes(reports, release, rest);
        let after = crate::sync::with_scopes(reports, release, architectures);
        assert forall|s: (Seq<char>, Seq<char>), name: Seq<char>|
            after.contains_key(s) && after[s].contains_key(name) implies is_sound_group(
            s.1,
            name,
            #[trigger] after[s][name],
        ) by {
            assert(after[s][name] == before[s][name]);
        }
    }
}

proof fn lemma_components_are_sound(
    sync: crate::sync::PkgsSyncView,
    reports: crate::opensuse::ReportsView,
    release: int,
    fetches: Seq<crate::sync::Fetch>,
)
    requires
        is_sound(reports),
    ensures
        is_sound(sync.after_components(reports, release, fetches)),
    decreases fetches.len(),
{
    if fetches.len() > 0 {
        let rest = fetches.drop_last();
        let n = fetches.len() - 1;
        lemma_components_are_sound(sync, reports, release, rest);
        law_import_keeps_groups_sound(
            sync.after_components(reports, release, rest),
            sync.releases[release].name,
            sync.architectures,
            sync.base_url(release, n),
            sync.components[n],
            fetches.last().packages,
            fetches.last().selected,
        );
    }
}

/// In the reports of a sync every source package has an artifact, the version of
/// the first of them, and the url of the first that is built for the architecture
/// of the report; only without such an artifact it is the url of the first one.
pub proof fn law_sync_groups_are_sound(
    sync: crate::sync::PkgsSyncView,
    log: Seq<Seq<crate::sync::Fetch>>,
)
    ensures
        is_sound(sync.after_releases(log)),
    decreases log.len(),
{
    if log.len() > 0 {
        let rest = log.drop_last();
        let n = log.len() - 1;
        law_sync_groups_are_sound(sync, rest);
        let before = sync.after_releases(rest);
        lemma_with_scopes_is_sound(before, sync.releases[n].name, sync.architectures);
        lemma_components_are_sound(
            sync,
            crate::sync::with_scopes(before, sync.releases[n].name, sync.architectures),
            n,
            log.last(),
        );
    }
}

/// A list of source packages is determined by what it lists.
pub proof fn law_group_listing_is_unique(
    groups: crate::opensuse::GroupsView,
    a: Seq<crate::report::SourcePackageView>,
    b: Seq<crate::report::SourcePackageView>,
)
    requires
        crate::opensuse::lists_groups(groups, a),
        crate::opensuse::lists_groups(groups, b),
    ensures
        a == b,
{
    lemma_group_listing_prefix(groups, a, b, a.len() as int);
    lemma_group_listing_prefix(groups, b, a, b.len() as int);
    assert(a =~= b);
}

/// The first `n` source packages of a list are those of every other list.
proof fn lemma_group_listing_prefix(
    groups: crate::opensuse::GroupsView,
    a: Seq<crate::report::SourcePackageView>,
    b: Seq<crate::report::SourcePackageView>,
    n: int,
)
    requires
        crate::opensuse::lists_groups(groups, a),
        crate::opensuse::lists_groups(groups, b),
        0 <= n <= a.len(),
    ensures
        n <= b.len(),
        forall|i: int| 0 <= i < n ==> #[trigger] a[i] == b[i],
    decreases n,
{
    if n > 0 {
        let m = n - 1;
        lemma_group_listing_prefix(groups, a, b, m);
        assert(groups.contains_key(a[m].name));
        let k = choose|k: int| 0 <= k < b.len() && #[trigger] b[k].name == a[m].name;
        if k < m {
            assert(a[k] == b[k]);
            assert(crate::order::precedes(a[k].name, a[m].name));
            crate::order::law_text_order_is_total(a[k].name, a[m].name);
        }
        if k > m {
            assert(groups.contains_key(b[m].name));
            let l = choose|l: int| 0 <= l < a.len() && #[trigger] a[l].name == b[m].name;
            assert(crate::order::precedes(b[m].name, b[k].name));
            crate::order::law_text_order_is_total(b[m].name, b[k].name);
            if l < m {
                assert(a[l] == b[l]);
                assert(crate::order::precedes(b[l].name, b[m].name));
                crate::order::law_text_order_is_total(b[l].name, b[m].name);
            } else if l > m {
                assert(crate::order::precedes(a[m].name, a[l].name));
            }
        }
        assert(k == m);
        assert(a[m] == groups[a[m].name] && b[m] == groups[b[m].name]);
    }
}

/// A list of reports is determined by what it lists.
pub proof fn law_report_listing_is_unique(
    reports: crate::opensuse::ReportsView,
    a: Seq<crate::report::PackageReportView>,
    b: Seq<crate::report::PackageReportView>,
)
    requires
        crate::opensuse::lists_reports(reports, a),
        crate::opensuse::lists_reports(reports, b),
    ensures
        a == b,
{
    lemma_report_listing_prefix(reports, a, b, a.len() as int);
    lemma_report_listing_prefix(reports, b, a, b.len() as int);
    assert(a =~= b);
}

/// The first `n` reports of a list are those of every other list.
proof fn lemma_report_listing_prefix(
    reports: crate::opensuse::ReportsView,
    a: Seq<crate::report::PackageReportView>,
    b: Seq<crate::report::PackageReportView>,
    n: int,
)
    requires
        crate::opensuse::lists_reports(reports, a),
        crate::opensuse::lists_reports(reports, b),
        0 <= n <= a.len(),
    ensures
        n <= b.len(),
        forall|i: int| 0 <= i < n ==> #[trigger] a[i] == b[i],
    decreases n,
{
    if n > 0 {
        let m = n - 1;
        lemma_report_listing_prefix(reports, a, b, m);
        let sa = |i: int| crate::opensuse::scope_of(a[i]);
        let sb = |i: int| crate::opensuse::scope_of(b[i]);
        assert(reports.contains_key(crate::opensuse::scope_of(a[m])));
        let k = choose|k: int|
            0 <= k < b.len() && #[trigger] crate::opensuse::scope_of(b[k]) == sa(m);
        if k < m {
            assert(a[k] == b[k]);
            assert(crate::opensuse::scope_precedes(
                crate::opensuse::scope_of(a[k]),
                crate::opensuse::scope_of(a[m]),
            ));
            crate::opensuse::law_scope_order_is_total(sa(k), sa(m));
        }
        if k > m {
            assert(reports.contains_key(crate::opensuse::scope_of(b[m])));
            let l = choose|l: int|
                0 <= l < a.len() && #[trigger] crate::opensuse::scope_of(a[l]) == sb(m);
            assert(crate::opensuse::scope_precedes(
                crate::opensuse::scope_of(b[m]),
                crate::opensuse::scope_of(b[k]),
            ));
            crate::opensuse::law_scope_order_is_total(sb(m), sb(k));
            if l < m {
                assert(a[l] == b[l]);
                assert(crate::opensuse::scope_precedes(
                    crate::opensuse::scope_of(b[l]),
                    crate::opensuse::scope_of(b[m]),
                ));
                crate::opensuse::law_scope_order_is_total(sb(l), sb(m));
            } else if l > m {
                assert(crate::opensuse::scope_precedes(
                    crate::opensuse::scope_of(a[m]),
                    crate::opensuse::scope_of(a[l]),
                ));
            }
        }
        assert(k == m);
        law_group_listing_is_unique(reports[sa(m)], a[m].packages, b[m].packages);
        assert(a[m] =~= b[m]);
    }
}

/// How many indexes are still to be fetched.
pub open spec fn fetches_left(
    sync: crate::sync::PkgsSyncView,
    log: Seq<Seq<crate::sync::Fetch>>,
) -> int {
    (sync.releases.len() - log.len()) * sync.components.len() + if log.len() == 0 {
        0
    } else {
        sync.components.len() - log.last().len()
    }
}

/// Beginning the releases that have nothing to fetch leaves as much to fetch.
proof fn lemma_settled(
    sync: crate::sync::PkgsSyncView,
    log: Seq<Seq<crate::sync::Fetch>>,
)
    requires
        log.len() <= sync.releases.len(),
        log.len() > 0 ==> log.last().len() <= sync.components.len(),
        forall|i: int|
            0 <= i < log.len() - 1 ==> #[trigger] log[i].len() == sync.components.len(),
    ensures
        sync.is_log(sync.settled(log)),
        fetches_left(sync, sync.settled(log)) == fetches_left(sync, log),
    decreases sync.releases.len() - log.len(),
{
    if log.len() < sync.releases.len() && sync.last_release_done(log) {
        let next = log.push(Seq::empty());
        let c = sync.components.len() as int;
        let left = sync.releases.len() - log.len();
        assert forall|i: int| 0 <= i < next.len() - 1 implies #[trigger] next[i].len() == c by {
            if i == log.len() - 1 {
                assert(next[i] == log.last());
            } else {
                assert(next[i] == log[i]);
            }
        }
        assert(left * c == (left - 1) * c + c) by (nonlinear_arith);
        lemma_settled(sync, next);
    }
}

/// A sync begins with one index to fetch for every component of every release.
pub proof fn law_sync_fetches_every_index(sync: crate::sync::PkgsSyncView)
    ensures
        sync.is_log(sync.settled(Seq::empty())),
        fetches_left(sync, sync.settled(Seq::empty())) == sync.releases.len()
            * sync.components.len(),
{
    lemma_settled(sync, Seq::empty());
}

/// A sync comes to an end: every index that is fetched leaves one less, and the
/// sync is complete if and only if none is left. Then all components of all
/// releases were fetched.
pub proof fn law_every_fetch_counts(
    sync: crate::sync::PkgsSyncView,
    log: Seq<Seq<crate::sync::Fetch>>,
    fetch: crate::sync::Fetch,
)
    requires
        sync.is_log(log),
    ensures
        fetches_left(sync, log) >= 0,
        sync.is_complete(log) <==> fetches_left(sync, log) == 0,
        !sync.is_complete(log) ==> {
            &&& sync.is_log(sync.fetched(log, fetch))
            &&& fetches_left(sync, sync.fetched(log, fetch)) == fetches_left(sync, log) - 1
        },
        sync.is_complete(log) ==> forall|r: int|
            0 <= r < log.len() ==> #[trigger] log[r].len() == sync.components.len(),
{
    let c = sync.components.len() as int;
    let left = sync.releases.len() - log.len();
    assert(left * c >= 0) by (nonlinear_arith)
        requires
            left >= 0,
            c >= 0,
    ;
    if sync.is_complete(log) {
        assert(left * c == 0) by (nonlinear_arith)
            requires
                left == 0,
        ;
    } else {
        let next = log.drop_last().push(log.last().push(fetch));
        assert forall|i: int| 0 <= i < next.len() - 1 implies #[trigger] next[i].len() == c by {
            assert(next[i] == log[i]);
        }
        lemma_settled(sync, next);
    }
}

/// Pushing a package adds it as the last artifact of its source package in one
/// report, with its name, its architecture, its version and release, its component
/// and its location as seen from the base url. A source package that is new has its
/// version and its url. One that is not keeps its version, and it gets the url of
/// the package only if that is the first one built for the architecture of the
/// report. All else stays as it is.
pub proof fn law_push_adds_one_artifact(
    reports: crate::opensuse::ReportsView,
    scope: (Seq<char>, Seq<char>),
    base_url: Seq<char>,
    component: Seq<char>,
    pkg: crate::repomd::PackageItemView,
    other: (Seq<char>, Seq<char>),
    name: Seq<char>,
)
    ensures
        ({
            let after = crate::opensuse::pushed(reports, scope, base_url, component, pkg);
            let known = reports.contains_key(scope) && reports[scope].contains_key(pkg.sourcerpm);
            let old = reports[scope][pkg.sourcerpm];
            let group = after[scope][pkg.sourcerpm];
            let n = if known {
                old.artifacts.len() as int
            } else {
                0
            };
            let added = group.artifacts[n];
            &&& after.contains_key(scope)
            &&& after[scope].contains_key(pkg.sourcerpm)
            &&& group.artifacts.len() == n + 1
            &&& forall|i: int| 0 <= i < n ==> #[trigger] group.artifacts[i] == old.artifacts[i]
            &&& added.name == pkg.name
            &&& added.architecture == pkg.arch
            &&& added.version == pkg.ver + "-"@ + pkg.rel
            &&& added.component == Some(component)
            &&& added.url == crate::url::resolved(base_url, pkg.href)
            &&& !known ==> {
                &&& group.name == pkg.sourcerpm
                &&& group.version == pkg.ver + "-"@ + pkg.rel
                &&& group.url == crate::url::resolved(base_url, pkg.href)
            }
            &&& known ==> {
                &&& group.name == old.name
                &&& group.version == old.version
                &&& group.url == if pkg.arch == scope.1 && (forall|i: int|
                    0 <= i < n ==> (#[trigger] old.artifacts[i]).architecture != scope.1) {
                    crate::url::resolved(base_url, pkg.href)
                } else {
                    old.url
                }
            }
            &&& other != scope ==> {
                &&& after.contains_key(other) <==> reports.contains_key(other)
                &&& reports.contains_key(other) ==> after[other] == reports[other]
            }
            &&& name != pkg.sourcerpm ==> {
                &&& after[scope].contains_key(name) <==> reports.contains_key(scope)
                    && reports[scope].contains_key(name)
                &&& after[scope].contains_key(name) ==> after[scope][name] == reports[scope][name]
            }
        }),
{
}

/// Beginning releases leaves what was fetched and adds only releases of which
/// nothing was fetched yet.
proof fn lemma_settled_adds_nothing(
    sync: crate::sync::PkgsSyncView,
    log: Seq<Seq<crate::sync::Fetch>>,
)
    ensures
        sync.settled(log).len() >= log.len(),
        forall|r: int| 0 <= r < log.len() ==> #[trigger] sync.settled(log)[r] == log[r],
        forall|r: int|
            log.len() <= r < sync.settled(log).len() ==> (#[trigger] sync.settled(log)[r]).len()
                == 0,
    decreases sync.releases.len() - log.len(),
{
    if log.len() < sync.releases.len() && sync.last_release_done(log) {
        let next = log.push(Seq::empty());
        lemma_settled_adds_nothing(sync, next);
        assert(forall|r: int| 0 <= r < log.len() ==> #[trigger] next[r] == log[r]);
        assert(sync.settled(log) == sync.settled(next));
        assert forall|r: int| log.len() <= r < sync.settled(log).len() implies (
        #[trigger] sync.settled(log)[r]).len() == 0 by {
            if r == log.len() {
                assert(sync.settled(next)[r] == next[r]);
            }
        }
    }
}

/// Before anything was fetched, no release has an index.
pub proof fn law_sync_begins_with_nothing(sync: crate::sync::PkgsSyncView, r: int)
    requires
        0 <= r < sync.settled(Seq::empty()).len(),
    ensures
        sync.settled(Seq::empty())[r].len() == 0,
{
    lemma_settled_adds_nothing(sync, Seq::empty());
}

/// The indexes are fetched release by release and component by component. A sync is
/// complete if and only if those of all components of all releases were fetched. As
/// long as it is not, the next one is that of the first component that is left of
/// the first release that has any left, and what is fetched is kept as that one.
pub proof fn law_indexes_are_fetched_in_order(
    sync: crate::sync::PkgsSyncView,
    log: Seq<Seq<crate::sync::Fetch>>,
    fetch: crate::sync::Fetch,
)
    requires
        sync.is_log(log),
    ensures
        sync.is_complete(log) <==> log.len() == sync.releases.len() && forall|r: int|
            0 <= r < log.len() ==> (#[trigger] log[r]).len() == sync.components.len(),
        !sync.is_complete(log) ==> {
            let last = log.len() - 1;
            let next = sync.fetched(log, fetch);
            &&& 0 <= last < sync.releases.len()
            &&& log[last].len() < sync.components.len()
            &&& forall|r: int|
                0 <= r < last ==> (#[trigger] log[r]).len() == sync.components.len()
            &&& sync.is_log(next)
            &&& next.len() > last
            &&& next[last] == log[last].push(fetch)
            &&& forall|r: int| 0 <= r < last ==> #[trigger] next[r] == log[r]
            &&& forall|r: int| last < r < next.len() ==> (#[trigger] next[r]).len() == 0
        },
{
    if sync.is_complete(log) {
        law_every_fetch_counts(sync, log, fetch);
    } else {
        law_every_fetch_counts(sync, log, fetch);
        let last = log.len() - 1;
        let begun = log.drop_last().push(log.last().push(fetch));
        lemma_settled_adds_nothing(sync, begun);
        assert(sync.fetched(log, fetch) == sync.settled(begun));
        assert(forall|r: int| 0 <= r < last ==> #[trigger] begun[r] == log[r]);
        assert(begun[last] == log[last].push(fetch));
        assert(sync.settled(begun)[last] == begun[last]);
        assert forall|r: int| 0 <= r < last implies #[trigger] sync.settled(begun)[r] == log[r] by {
            assert(begun[r] == log[r]);
        }
        assert(log[last].len() < sync.components.len());
    }
}

} // verus!
