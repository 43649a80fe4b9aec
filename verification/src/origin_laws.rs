//! Where the artifacts of a sync come from.
//!
//! The place of a package is the release, the component and the position in the
//! index of that component where it was fetched, and which of the architectures
//! to sync it is reported for. All four are counted from zero.

use vstd::prelude::*;

verus! {

/// Whether one place comes before another.
spec fn comes_first(a: (int, int, int, int), b: (int, int, int, int)) -> bool {
    a.0 < b.0 || (a.0 == b.0 && (a.1 < b.1 || (a.1 == b.1 && (a.2 < b.2 || (a.2 == b.2 && a.3
        < b.3)))))
}

/// Whether the places of a list ascend.
spec fn ascend(from: Seq<(int, int, int, int)>) -> bool {
    forall|p: int, q: int|
        0 <= p < q < from.len() ==> comes_first(#[trigger] from[p], #[trigger] from[q])
}

/// Whether the package at a place of an index belongs to the source package `name`
/// in this scope.
spec fn is_place(
    packages: Seq<crate::repomd::PackageItemView>,
    selected: Seq<bool>,
    release: Seq<char>,
    architectures: Seq<Seq<char>>,
    scope: (Seq<char>, Seq<char>),
    name: Seq<char>,
    at: (int, int, int, int),
) -> bool {
    &&& 0 <= at.2 < packages.len()
    &&& selected[at.2]
    &&& 0 <= at.3 < architectures.len()
    &&& architectures[at.3] == scope.1
    &&& release == scope.0
    &&& packages[at.2].sourcerpm == name
    &&& crate::opensuse::belongs_to(packages[at.2], scope.1)
}

/// Two lists of places, of which one comes before the other, make up one list.
proof fn lemma_join(f: Seq<(int, int, int, int)>, g: Seq<(int, int, int, int)>)
    requires
        ascend(f),
        ascend(g),
        forall|p: int, q: int|
            0 <= p < f.len() && 0 <= q < g.len() ==> comes_first(#[trigger] f[p], #[trigger] g[q]),
    ensures
        ascend(f + g),
        forall|at: (int, int, int, int)| #[trigger]
            (f + g).contains(at) <==> f.contains(at) || g.contains(at),
{
    assert forall|at: (int, int, int, int)| #[trigger]
        (f + g).contains(at) <==> f.contains(at) || g.contains(at) by {
        if f.contains(at) {
            let p = choose|p: int| 0 <= p < f.len() && f[p] == at;
            assert((f + g)[p] == at);
        }
        if g.contains(at) {
            let p = choose|p: int| 0 <= p < g.len() && g[p] == at;
            assert((f + g)[f.len() + p] == at);
        }
        if (f + g).contains(at) {
            let p = choose|p: int| 0 <= p < (f + g).len() && (f + g)[p] == at;
            if p < f.len() {
                assert(f[p] == at);
            } else {
                assert(g[p - f.len()] == at);
            }
        }
    }
    assert forall|p: int, q: int| 0 <= p < q < (f + g).len() implies comes_first(
        #[trigger] (f + g)[p],
        #[trigger] (f + g)[q],
    ) by {
        if q < f.len() {
            assert(comes_first(f[p], f[q]));
        } else if p < f.len() {
            assert(comes_first(f[p], g[q - f.len()]));
        } else {
            assert(comes_first(g[p - f.len()], g[q - f.len()]));
        }
    }
}

/// The places for which a package is reported.
proof fn lemma_package(
    reports: crate::opensuse::ReportsView,
    release: Seq<char>,
    architectures: Seq<Seq<char>>,
    base_url: Seq<char>,
    component: Seq<char>,
    pkg: crate::repomd::PackageItemView,
    scope: (Seq<char>, Seq<char>),
    name: Seq<char>,
    r: int,
    c: int,
    i: int,
) -> (from: Seq<(int, int, int, int)>)
    ensures
        ({
            let old = crate::artifact_order::artifacts_in(reports, scope, name);
            let new = crate::artifact_order::artifacts_in(
                crate::opensuse::pushed_to_all(
                    reports,
                    release,
                    architectures,
                    base_url,
                    component,
                    pkg,
                ),
                scope,
                name,
            );
            &&& new.len() == old.len() + from.len()
            &&& forall|p: int| 0 <= p < old.len() ==> #[trigger] new[p] == old[p]
            &&& forall|p: int|
                old.len() <= p < new.len() ==> #[trigger] new[p] == crate::opensuse::artifact_of(
                    base_url,
                    component,
                    pkg,
                )
        }),
        ascend(from),
        forall|at: (int, int, int, int)| #[trigger]
            from.contains(at) <==> {
                &&& at.0 == r && at.1 == c && at.2 == i
                &&& 0 <= at.3 < architectures.len()
                &&& architectures[at.3] == scope.1
                &&& release == scope.0
                &&& pkg.sourcerpm == name
                &&& crate::opensuse::belongs_to(pkg, scope.1)
            },
    decreases architectures.len(),
{
    if architectures.len() == 0 {
        Seq::empty()
    } else {
        let rest = architectures.drop_last();
        let n = rest.len() as int;
        let before = lemma_package(
            reports,
            release,
            rest,
            base_url,
            component,
            pkg,
            scope,
            name,
            r,
            c,
            i,
        );
        let at = (r, c, i, n);
        assert forall|p: int| 0 <= p < before.len() implies (#[trigger] before[p]).3 < n
            && before[p].0 == r && before[p].1 == c && before[p].2 == i by {
            assert(before.contains(before[p]));
        }
        let last = seq![at];
        assert(last[0] == at);
        assert(forall|x: (int, int, int, int)| #[trigger] last.contains(x) <==> x == at);
        lemma_join(before, last);
        if scope == (release, architectures.last()) && pkg.sourcerpm == name
            && crate::opensuse::belongs_to(pkg, scope.1) {
            let from = before + last;
            assert forall|x: (int, int, int, int)| #[trigger] from.contains(x) <==> {
                &&& x.0 == r && x.1 == c && x.2 == i
                &&& 0 <= x.3 < architectures.len()
                &&& architectures[x.3] == scope.1
                &&& release == scope.0
                &&& pkg.sourcerpm == name
                &&& crate::opensuse::belongs_to(pkg, scope.1)
            } by {
                assert(before.contains(x) || !before.contains(x));
            }
            from
        } else {
            before
        }
    }
}

/// The places of an index from which artifacts are reported.
proof fn lemma_index(
    reports: crate::opensuse::ReportsView,
    release: Seq<char>,
    architectures: Seq<Seq<char>>,
    base_url: Seq<char>,
    component: Seq<char>,
    packages: Seq<crate::repomd::PackageItemView>,
    selected: Seq<bool>,
    scope: (Seq<char>, Seq<char>),
    name: Seq<char>,
    r: int,
    c: int,
) -> (from: Seq<(int, int, int, int)>)
    requires
        selected.len() == packages.len(),
    ensures
        ({
            let old = crate::artifact_order::artifacts_in(reports, scope, name);
            let new = crate::artifact_order::artifacts_in(
                crate::opensuse::imported(
                    reports,
                    release,
                    architectures,
                    base_url,
                    component,
                    packages,
                    selected,
                ),
                scope,
                name,
            );
            &&& new.len() == old.len() + from.len()
            &&& forall|p: int| 0 <= p < old.len() ==> #[trigger] new[p] == old[p]
            &&& forall|p: int|
                old.len() <= p < new.len() ==> #[trigger] new[p] == crate::opensuse::artifact_of(
                    base_url,
                    component,
                    packages[from[p - old.len()].2],
                )
        }),
        ascend(from),
        forall|at: (int, int, int, int)| #[trigger]
            from.contains(at) <==> at.0 == r && at.1 == c && is_place(
                packages,
                selected,
                release,
                architectures,
                scope,
                name,
                at,
            ),
    decreases packages.len(),
{
    if packages.len() == 0 {
        Seq::empty()
    } else {
        let rest = packages.drop_last();
        let rest_selected = selected.drop_last();
        let n = rest.len() as int;
        let f = lemma_index(
            reports,
            release,
            architectures,
            base_url,
            component,
            rest,
            rest_selected,
            scope,
            name,
            r,
            c,
        );
        let before = crate::opensuse::imported(
            reports,
            release,
            architectures,
            base_url,
            component,
            rest,
            rest_selected,
        );
        let g = if selected.last() {
            lemma_package(
                before,
                release,
                architectures,
                base_url,
                component,
                packages.last(),
                scope,
                name,
                r,
                c,
                n,
            )
        } else {
            Seq::empty()
        };
        assert forall|p: int| 0 <= p < f.len() implies (#[trigger] f[p]).0 == r && f[p].1 == c && 0
            <= f[p].2 < n && rest[f[p].2] == packages[f[p].2] by {
            assert(f.contains(f[p]));
        }
        assert forall|p: int| 0 <= p < g.len() implies (#[trigger] g[p]).0 == r && g[p].1 == c
            && g[p].2 == n by {
            assert(g.contains(g[p]));
        }
        lemma_join(f, g);
        let from = f + g;
        assert forall|at: (int, int, int, int)| #[trigger] from.contains(at) <==> at.0 == r && at.1
            == c && is_place(
            packages,
            selected,
            release,
            architectures,
            scope,
            name,
            at,
        ) by {
            assert(f.contains(at) || !f.contains(at));
            assert(g.contains(at) || !g.contains(at));
        }
        from
    }
}

/// The places of the indexes of a release from which artifacts are reported.
proof fn lemma_release(
    sync: crate::sync::PkgsSyncView,
    reports: crate::opensuse::ReportsView,
    r: int,
    fetches: Seq<crate::sync::Fetch>,
    scope: (Seq<char>, Seq<char>),
    name: Seq<char>,
) -> (from: Seq<(int, int, int, int)>)
    requires
        forall|c: int|
            0 <= c < fetches.len() ==> (#[trigger] fetches[c]).selected.len()
                == fetches[c].packages.len(),
    ensures
        ({
            let old = crate::artifact_order::artifacts_in(reports, scope, name);
            let new = crate::artifact_order::artifacts_in(
                sync.after_components(reports, r, fetches),
                scope,
                name,
            );
            &&& new.len() == old.len() + from.len()
            &&& forall|p: int| 0 <= p < old.len() ==> #[trigger] new[p] == old[p]
            &&& forall|p: int|
                old.len() <= p < new.len() ==> #[trigger] new[p] == crate::opensuse::artifact_of(
                    sync.base_url(r, from[p - old.len()].1),
                    sync.components[from[p - old.len()].1],
                    fetches[from[p - old.len()].1].packages[from[p - old.len()].2],
                )
        }),
        ascend(from),
        forall|at: (int, int, int, int)| #[trigger]
            from.contains(at) <==> at.0 == r && 0 <= at.1 < fetches.len() && is_place(
                fetches[at.1].packages,
                fetches[at.1].selected,
                sync.releases[r].name,
                sync.architectures,
                scope,
                name,
                at,
            ),
    decreases fetches.len(),
{
    if fetches.len() == 0 {
        Seq::empty()
    } else {
        let rest = fetches.drop_last();
        let n = rest.len() as int;
        assert(forall|c: int| 0 <= c < n ==> #[trigger] rest[c] == fetches[c]);
        let f = lemma_release(sync, reports, r, rest, scope, name);
        let g = lemma_index(
            sync.after_components(reports, r, rest),
            sync.releases[r].name,
            sync.architectures,
            sync.base_url(r, n),
            sync.components[n],
            fetches.last().packages,
            fetches.last().selected,
            scope,
            name,
            r,
            n,
        );
        assert forall|p: int| 0 <= p < f.len() implies (#[trigger] f[p]).0 == r && 0 <= f[p].1 < n
            by {
            assert(f.contains(f[p]));
        }
        assert forall|p: int| 0 <= p < g.len() implies (#[trigger] g[p]).0 == r && g[p].1 == n by {
            assert(g.contains(g[p]));
        }
        lemma_join(f, g);
        let from = f + g;
        assert forall|at: (int, int, int, int)| #[trigger] from.contains(at) <==> at.0 == r && 0
            <= at.1 < fetches.len() && is_place(
            fetches[at.1].packages,
            fetches[at.1].selected,
            sync.releases[r].name,
            sync.architectures,
            scope,
            name,
            at,
        ) by {
            assert(f.contains(at) || !f.contains(at));
            assert(g.contains(at) || !g.contains(at));
        }
        from
    }
}

/// Creating reports leaves all artifacts as they are.
proof fn lemma_with_scopes(
    reports: crate::opensuse::ReportsView,
    release: Seq<char>,
    architectures: Seq<Seq<char>>,
    scope: (Seq<char>, Seq<char>),
    name: Seq<char>,
)
    ensures
        crate::artifact_order::artifacts_in(
            crate::sync::with_scopes(reports, release, architectures),
            scope,
            name,
        ) == crate::artifact_order::artifacts_in(reports, scope, name),
    decreases architectures.len(),
{
    if architectures.len() > 0 {
        lemma_with_scopes(reports, release, architectures.drop_last(), scope, name);
    }
}

/// The places from which the artifacts of a sync are reported.
proof fn lemma_sync(
    sync: crate::sync::PkgsSyncView,
    log: Seq<Seq<crate::sync::Fetch>>,
    scope: (Seq<char>, Seq<char>),
    name: Seq<char>,
) -> (from: Seq<(int, int, int, int)>)
    requires
        crate::sync::all_decided(log),
    ensures
        ({
            let new = crate::artifact_order::artifacts_in(sync.after_releases(log), scope, name);
            &&& new.len() == from.len()
            &&& forall|p: int|
                0 <= p < new.len() ==> #[trigger] new[p] == crate::opensuse::artifact_of(
                    sync.base_url(from[p].0, from[p].1),
                    sync.components[from[p].1],
                    log[from[p].0][from[p].1].packages[from[p].2],
                )
        }),
        ascend(from),
        forall|at: (int, int, int, int)| #[trigger]
            from.contains(at) <==> 0 <= at.0 < log.len() && 0 <= at.1 < log[at.0].len() && is_place(
                log[at.0][at.1].packages,
                log[at.0][at.1].selected,
                sync.releases[at.0].name,
                sync.architectures,
                scope,
                name,
                at,
            ),
    decreases log.len(),
{
    if log.len() == 0 {
        Seq::empty()
    } else {
        let rest = log.drop_last();
        let n = rest.len() as int;
        assert(forall|r: int| 0 <= r < n ==> #[trigger] rest[r] == log[r]);
        assert forall|r: int, c: int| 0 <= r < rest.len() && 0 <= c < rest[r].len() implies (
        #[trigger] rest[r][c]).selected.len() == rest[r][c].packages.len() by {
            assert(log[r][c] == rest[r][c]);
        }
        let f = lemma_sync(sync, rest, scope, name);
        let before = sync.after_releases(rest);
        lemma_with_scopes(before, sync.releases[n].name, sync.architectures, scope, name);
        assert forall|c: int| 0 <= c < log[n].len() implies (#[trigger] log[n][c]).selected.len()
            == log[n][c].packages.len() by {}
        let g = lemma_release(
            sync,
            crate::sync::with_scopes(before, sync.releases[n].name, sync.architectures),
            n,
            log[n],
            scope,
            name,
        );
        assert forall|p: int| 0 <= p < f.len() implies 0 <= (#[trigger] f[p]).0 < n by {
            assert(f.contains(f[p]));
        }
        assert forall|p: int| 0 <= p < g.len() implies (#[trigger] g[p]).0 == n by {
            assert(g.contains(g[p]));
        }
        lemma_join(f, g);
        let from = f + g;
        assert forall|at: (int, int, int, int)| #[trigger] from.contains(at) <==> 0 <= at.0
            < log.len() && 0 <= at.1 < log[at.0].len() && is_place(
            log[at.0][at.1].packages,
            log[at.0][at.1].selected,
            sync.releases[at.0].name,
            sync.architectures,
            scope,
            name,
            at,
        ) by {
            assert(f.contains(at) || !f.contains(at));
            assert(g.contains(at) || !g.contains(at));
        }
        from
    }
}

/// A selected package whose architecture is one of those to sync, or that is
/// `noarch`, is among the artifacts of its source package in the report of its
/// release for that architecture, with its name, its architecture, its version and
/// release, the component it was fetched from, and its location as seen from the
/// repository it was fetched from.
pub proof fn law_every_selected_package_is_reported(
    sync: crate::sync::PkgsSyncView,
    log: Seq<Seq<crate::sync::Fetch>>,
    r: int,
    c: int,
    i: int,
    a: int,
)
    requires
        crate::sync::all_decided(log),
        0 <= r < log.len(),
        0 <= c < log[r].len(),
        0 <= i < log[r][c].packages.len(),
        log[r][c].selected[i],
        0 <= a < sync.architectures.len(),
        log[r][c].packages[i].arch == sync.architectures[a] || log[r][c].packages[i].arch
            == "noarch"@,
    ensures
        ({
            let reports = sync.after_releases(log);
            let scope = (sync.releases[r].name, sync.architectures[a]);
            let pkg = log[r][c].packages[i];
            let artifacts = reports[scope][pkg.sourcerpm].artifacts;
            &&& reports.contains_key(scope)
            &&& reports[scope].contains_key(pkg.sourcerpm)
            &&& exists|p: int|
                {
                    &&& 0 <= p < artifacts.len()
                    &&& (#[trigger] artifacts[p]).name == pkg.name
                    &&& artifacts[p].architecture == pkg.arch
                    &&& artifacts[p].version == pkg.ver + "-"@ + pkg.rel
                    &&& artifacts[p].component == Some(sync.components[c])
                    &&& artifacts[p].url == crate::url::resolved(
                        sync.releases[r].source + "/"@ + sync.components[c],
                        pkg.href,
                    )
                }
        }),
{
    let scope = (sync.releases[r].name, sync.architectures[a]);
    let pkg = log[r][c].packages[i];
    let from = lemma_sync(sync, log, scope, pkg.sourcerpm);
    let at = (r, c, i, a);
    assert(from.contains(at));
    let p = choose|p: int| 0 <= p < from.len() && from[p] == at;
    let artifacts = crate::artifact_order::artifacts_in(
        sync.after_releases(log),
        scope,
        pkg.sourcerpm,
    );
    assert(artifacts[p].name == pkg.name);
}

/// Every artifact in a report is a selected package that was fetched for the
/// release of the report and that has the architecture of the report or is
/// `noarch`, with its name, its architecture, its version and release, the component
/// it was fetched from, and its location as seen from the repository it was fetched
/// from.
pub proof fn law_every_artifact_was_fetched(
    sync: crate::sync::PkgsSyncView,
    log: Seq<Seq<crate::sync::Fetch>>,
    scope: (Seq<char>, Seq<char>),
    name: Seq<char>,
    p: int,
)
    requires
        crate::sync::all_decided(log),
        sync.after_releases(log).contains_key(scope),
        sync.after_releases(log)[scope].contains_key(name),
        0 <= p < sync.after_releases(log)[scope][name].artifacts.len(),
    ensures
        ({
            let artifact = sync.after_releases(log)[scope][name].artifacts[p];
            &&& sync.architectures.contains(scope.1)
            &&& exists|r: int, c: int, i: int|
                {
                    let pkg = #[trigger] log[r][c].packages[i];
                    &&& 0 <= r < log.len()
                    &&& 0 <= c < log[r].len()
                    &&& 0 <= i < log[r][c].packages.len()
                    &&& log[r][c].selected[i]
                    &&& sync.releases[r].name == scope.0
                    &&& pkg.sourcerpm == name
                    &&& pkg.arch == scope.1 || pkg.arch == "noarch"@
                    &&& artifact.name == pkg.name
                    &&& artifact.architecture == pkg.arch
                    &&& artifact.version == pkg.ver + "-"@ + pkg.rel
                    &&& artifact.component == Some(sync.components[c])
                    &&& artifact.url == crate::url::resolved(
                        sync.releases[r].source + "/"@ + sync.components[c],
                        pkg.href,
                    )
                }
        }),
{
    let from = lemma_sync(sync, log, scope, name);
    let at = from[p];
    assert(from.contains(at));
    let artifact = crate::artifact_order::artifacts_in(sync.after_releases(log), scope, name)[p];
    assert(sync.architectures[at.3] == scope.1);
    let pkg = log[at.0][at.1].packages[at.2];
    assert(artifact.name == pkg.name);
}

/// Whether `from` accounts for these artifacts of the source package `name` in a
/// report: it has one place for every artifact, it ascends by release, component,
/// position in the index and architecture, every artifact is the package at its
/// place, and every place whose package belongs there is in it, and no other.
pub open spec fn accounts_for(
    sync: crate::sync::PkgsSyncView,
    log: Seq<Seq<crate::sync::Fetch>>,
    scope: (Seq<char>, Seq<char>),
    name: Seq<char>,
    artifacts: Seq<crate::report::BinaryPackageView>,
    from: Seq<(int, int, int, int)>,
) -> bool {
    &&& from.len() == artifacts.len()
    &&& forall|p: int, q: int|
        #![trigger from[p], from[q]]
        0 <= p < q < from.len() ==> {
            ||| from[p].0 < from[q].0
            ||| from[p].0 == from[q].0 && from[p].1 < from[q].1
            ||| from[p].0 == from[q].0 && from[p].1 == from[q].1 && from[p].2 < from[q].2
            ||| from[p].0 == from[q].0 && from[p].1 == from[q].1 && from[p].2 == from[q].2
                && from[p].3 < from[q].3
        }
    &&& forall|p: int|
        0 <= p < artifacts.len() ==> {
            let (r, c, i) = (from[p].0, from[p].1, from[p].2);
            let pkg = log[r][c].packages[i];
            &&& (#[trigger] artifacts[p]).name == pkg.name
            &&& artifacts[p].architecture == pkg.arch
            &&& artifacts[p].version == pkg.ver + "-"@ + pkg.rel
            &&& artifacts[p].component == Some(sync.components[c])
            &&& artifacts[p].url == crate::url::resolved(
                sync.releases[r].source + "/"@ + sync.components[c],
                pkg.href,
            )
        }
    &&& forall|at: (int, int, int, int)| #[trigger]
        from.contains(at) <==> {
            let (r, c, i, a) = (at.0, at.1, at.2, at.3);
            let pkg = log[r][c].packages[i];
            &&& 0 <= r < log.len()
            &&& 0 <= c < log[r].len()
            &&& 0 <= i < log[r][c].packages.len()
            &&& 0 <= a < sync.architectures.len()
            &&& log[r][c].selected[i]
            &&& sync.releases[r].name == scope.0
            &&& sync.architectures[a] == scope.1
            &&& pkg.sourcerpm == name
            &&& pkg.arch == scope.1 || pkg.arch == "noarch"@
        }
}

/// The artifacts of a source package in a report are exactly the selected packages
/// that belong there, in the order in which they were fetched and each as often as
/// the architecture is to be synced.
pub proof fn law_artifacts_are_the_fetched_packages_in_order(
    sync: crate::sync::PkgsSyncView,
    log: Seq<Seq<crate::sync::Fetch>>,
    scope: (Seq<char>, Seq<char>),
    name: Seq<char>,
)
    requires
        crate::sync::all_decided(log),
    ensures
        ({
            let artifacts = crate::artifact_order::artifacts_in(
                sync.after_releases(log),
                scope,
                name,
            );
            exists|from: Seq<(int, int, int, int)>| #[trigger]
                accounts_for(sync, log, scope, name, artifacts, from)
        }),
{
    let from = lemma_sync(sync, log, scope, name);
    let artifacts = crate::artifact_order::artifacts_in(sync.after_releases(log), scope, name);
    assert forall|p: int, q: int|
        #![trigger from[p], from[q]]
        0 <= p < q < from.len() implies comes_first(from[p], from[q]) by {}
    assert(accounts_for(sync, log, scope, name, artifacts, from));
}

} // verus!
