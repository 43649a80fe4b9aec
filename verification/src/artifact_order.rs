//! In which order, and how often, the reports of a sync list artifacts.

use vstd::prelude::*;

verus! {

/// The artifacts of a source package in one report, of which there are none to
/// begin with.
pub open spec fn artifacts_in(
    reports: crate::opensuse::ReportsView,
    scope: (Seq<char>, Seq<char>),
    name: Seq<char>,
) -> Seq<crate::report::BinaryPackageView> {
    if reports.contains_key(scope) && reports[scope].contains_key(name) {
        reports[scope][name].artifacts
    } else {
        Seq::empty()
    }
}

/// How often `x` is in the list.
pub open spec fn times(list: Seq<Seq<char>>, x: Seq<char>) -> nat
    decreases list.len(),
{
    if list.len() == 0 {
        0
    } else if list.last() == x {
        times(list.drop_last(), x) + 1
    } else {
        times(list.drop_last(), x)
    }
}

/// What a package of an index adds to the artifacts of the source package `name`
/// in this scope: itself, as often as its architecture is to be synced.
pub open spec fn added_by_package(
    pkg: crate::repomd::PackageItemView,
    base_url: Seq<char>,
    component: Seq<char>,
    release: Seq<char>,
    architectures: Seq<Seq<char>>,
    scope: (Seq<char>, Seq<char>),
    name: Seq<char>,
) -> Seq<crate::report::BinaryPackageView> {
    if scope.0 == release && crate::opensuse::belongs_to(pkg, scope.1) && pkg.sourcerpm == name {
        Seq::new(
            times(architectures, scope.1),
            |i: int| crate::opensuse::artifact_of(base_url, component, pkg),
        )
    } else {
        Seq::empty()
    }
}

/// What an index adds: its selected packages, in the order of the index.
pub open spec fn added_by_index(
    packages: Seq<crate::repomd::PackageItemView>,
    selected: Seq<bool>,
    base_url: Seq<char>,
    component: Seq<char>,
    release: Seq<char>,
    architectures: Seq<Seq<char>>,
    scope: (Seq<char>, Seq<char>),
    name: Seq<char>,
) -> Seq<crate::report::BinaryPackageView>
    decreases packages.len(),
{
    if packages.len() == 0 {
        Seq::empty()
    } else {
        added_by_index(
            packages.drop_last(),
            selected.drop_last(),
            base_url,
            component,
            release,
            architectures,
            scope,
            name,
        ) + if selected.last() {
            added_by_package(
                packages.last(),
                base_url,
                component,
                release,
                architectures,
                scope,
                name,
            )
        } else {
            Seq::empty()
        }
    }
}

/// What the indexes of a release add, component by component.
pub open spec fn added_by_release(
    sync: crate::sync::PkgsSyncView,
    release: int,
    fetches: Seq<crate::sync::Fetch>,
    scope: (Seq<char>, Seq<char>),
    name: Seq<char>,
) -> Seq<crate::report::BinaryPackageView>
    decreases fetches.len(),
{
    if fetches.len() == 0 {
        Seq::empty()
    } else {
        added_by_release(sync, release, fetches.drop_last(), scope, name) + added_by_index(
            fetches.last().packages,
            fetches.last().selected,
            sync.base_url(release, fetches.len() - 1),
            sync.components[fetches.len() - 1],
            sync.releases[release].name,
            sync.architectures,
            scope,
            name,
        )
    }
}

/// What a sync adds, release by release.
pub open spec fn added_by_sync(
    sync: crate::sync::PkgsSyncView,
    log: Seq<Seq<crate::sync::Fetch>>,
    scope: (Seq<char>, Seq<char>),
    name: Seq<char>,
) -> Seq<crate::report::BinaryPackageView>
    decreases log.len(),
{
    if log.len() == 0 {
        Seq::empty()
    } else {
        added_by_sync(sync, log.drop_last(), scope, name) + added_by_release(
            sync,
            log.len() - 1,
            log.last(),
            scope,
            name,
        )
    }
}

proof fn lemma_push_to_all(
    reports: crate::opensuse::ReportsView,
    release: Seq<char>,
    architectures: Seq<Seq<char>>,
    base_url: Seq<char>,
    component: Seq<char>,
    pkg: crate::repomd::PackageItemView,
    scope: (Seq<char>, Seq<char>),
    name: Seq<char>,
)
    ensures
        artifacts_in(
            crate::opensuse::pushed_to_all(
                reports,
                release,
                architectures,
                base_url,
                component,
                pkg,
            ),
            scope,
            name,
        ) == artifacts_in(reports, scope, name) + added_by_package(
            pkg,
            base_url,
            component,
            release,
            architectures,
            scope,
            name,
        ),
    decreases architectures.len(),
{
    let old = artifacts_in(reports, scope, name);
    let added = added_by_package(
        pkg,
        base_url,
        component,
        release,
        architectures,
        scope,
        name,
    );
    if architectures.len() == 0 {
        assert(old + added =~= old);
    } else {
        let rest = architectures.drop_last();
        let before = added_by_package(pkg, base_url, component, release, rest, scope, name);
        lemma_push_to_all(reports, release, rest, base_url, component, pkg, scope, name);
        if crate::opensuse::belongs_to(pkg, architectures.last()) && scope == (
            release,
            architectures.last(),
        ) && name == pkg.sourcerpm {
            let artifact = crate::opensuse::artifact_of(base_url, component, pkg);
            assert(old + added =~= (old + before).push(artifact));
        } else {
            assert(added =~= before);
        }
    }
}

/// An index adds to every source package the selected packages that belong to
/// it, behind the artifacts that were there and in the order of the index.
pub proof fn law_import_keeps_index_order(
    reports: crate::opensuse::ReportsView,
    release: Seq<char>,
    architectures: Seq<Seq<char>>,
    base_url: Seq<char>,
    component: Seq<char>,
    packages: Seq<crate::repomd::PackageItemView>,
    selected: Seq<bool>,
    scope: (Seq<char>, Seq<char>),
    name: Seq<char>,
)
    ensures
        artifacts_in(
            crate::opensuse::imported(
                reports,
                release,
                architectures,
                base_url,
                component,
                packages,
                selected,
            ),
            scope,
            name,
        ) == artifacts_in(reports, scope, name) + added_by_index(
            packages,
            selected,
            base_url,
            component,
            release,
            architectures,
            scope,
            name,
        ),
    decreases packages.len(),
{
    let old = artifacts_in(reports, scope, name);
    let added = added_by_index(
        packages,
        selected,
        base_url,
        component,
        release,
        architectures,
        scope,
        name,
    );
    if packages.len() == 0 {
        assert(old + added =~= old);
    } else {
        let rest = packages.drop_last();
        let rest_selected = selected.drop_last();
        law_import_keeps_index_order(
            reports,
            release,
            architectures,
            base_url,
            component,
            rest,
            rest_selected,
            scope,
            name,
        );
        let before = crate::opensuse::imported(
            reports,
            release,
            architectures,
            base_url,
            component,
            rest,
            rest_selected,
        );
        if selected.last() {
            lemma_push_to_all(
                before,
                release,
                architectures,
                base_url,
                component,
                packages.last(),
                scope,
                name,
            );
            assert(old + added =~= artifacts_in(before, scope, name) + added_by_package(
                packages.last(),
                base_url,
                component,
                release,
                architectures,
                scope,
                name,
            ));
        } else {
            assert(old + added =~= artifacts_in(before, scope, name));
        }
    }
}

proof fn lemma_with_scopes(
    reports: crate::opensuse::ReportsView,
    release: Seq<char>,
    architectures: Seq<Seq<char>>,
    scope: (Seq<char>, Seq<char>),
    name: Seq<char>,
)
    ensures
        artifacts_in(crate::sync::with_scopes(reports, release, architectures), scope, name)
            == artifacts_in(reports, scope, name),
    decreases architectures.len(),
{
    if architectures.len() > 0 {
        lemma_with_scopes(reports, release, architectures.drop_last(), scope, name);
    }
}

proof fn lemma_components(
    sync: crate::sync::PkgsSyncView,
    reports: crate::opensuse::ReportsView,
    release: int,
    fetches: Seq<crate::sync::Fetch>,
    scope: (Seq<char>, Seq<char>),
    name: Seq<char>,
)
    ensures
        artifacts_in(sync.after_components(reports, release, fetches), scope, name)
            == artifacts_in(reports, scope, name) + added_by_release(
            sync,
            release,
            fetches,
            scope,
            name,
        ),
    decreases fetches.len(),
{
    let old = artifacts_in(reports, scope, name);
    let added = added_by_release(sync, release, fetches, scope, name);
    if fetches.len() == 0 {
        assert(old + added =~= old);
    } else {
        let rest = fetches.drop_last();
        let n = fetches.len() - 1;
        lemma_components(sync, reports, release, rest, scope, name);
        let before = sync.after_components(reports, release, rest);
        law_import_keeps_index_order(
            before,
            sync.releases[release].name,
            sync.architectures,
            sync.base_url(release, n),
            sync.components[n],
            fetches.last().packages,
            fetches.last().selected,
            scope,
            name,
        );
        assert(old + added =~= artifacts_in(before, scope, name) + added_by_index(
            fetches.last().packages,
            fetches.last().selected,
            sync.base_url(release, n),
            sync.components[n],
            sync.releases[release].name,
            sync.architectures,
            scope,
            name,
        ));
    }
}

/// A sync lists the artifacts of every source package in the order in which they
/// were fetched: by release, by component and by their place in the index.
pub proof fn law_sync_keeps_index_order(
    sync: crate::sync::PkgsSyncView,
    log: Seq<Seq<crate::sync::Fetch>>,
    scope: (Seq<char>, Seq<char>),
    name: Seq<char>,
)
    ensures
        artifacts_in(sync.after_releases(log), scope, name) == added_by_sync(
            sync,
            log,
            scope,
            name,
        ),
    decreases log.len(),
{
    if log.len() > 0 {
        let rest = log.drop_last();
        let n = log.len() - 1;
        law_sync_keeps_index_order(sync, rest, scope, name);
        let before = sync.after_releases(rest);
        lemma_with_scopes(before, sync.releases[n].name, sync.architectures, scope, name);
        lemma_components(
            sync,
            crate::sync::with_scopes(before, sync.releases[n].name, sync.architectures),
            n,
            log.last(),
            scope,
            name,
        );
    }
}

} // verus!
