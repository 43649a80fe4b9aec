//! Grouping the packages of openSUSE repositories for the daemon.

use vstd::prelude::*;

use crate::order::{compare_texts, same_text, Order};
use crate::repomd::PackagesXmlItem;
use crate::report::{BinaryPackageReport, PackageReport, SourcePackageReport};
use crate::sorted_map::{Key, SortedMap};
use crate::text::concat_with;
use crate::url::join_url;

verus! {

/// The name under which the daemon knows the distribution.
pub const DISTRIBUTION: &'static str = "opensuse";

/// A release that packages are synced from.
#[derive(Clone, Debug, PartialEq, Eq)]
pub struct SyncRelease {
    /// The name under which it is reported.
    pub name: String,
    /// The url that its components are below.
    pub source: String,
}

/// Which packages are synced.
#[derive(Clone, Debug, PartialEq, Eq)]
pub struct PkgsSync {
    pub components: Vec<String>,
    pub releases: Vec<SyncRelease>,
    pub architectures: Vec<String>,
}

/// What one report is about: a release, for one architecture.
#[derive(Clone, Debug, PartialEq, Eq)]
pub struct Scope {
    pub release: String,
    pub architecture: String,
}

impl View for Scope {
    type V = (Seq<char>, Seq<char>);

    open spec fn view(&self) -> (Seq<char>, Seq<char>) {
        (self.release@, self.architecture@)
    }
}

/// Whether one scope comes before another: by release, then by architecture.
pub open spec fn scope_precedes(
    a: (Seq<char>, Seq<char>),
    b: (Seq<char>, Seq<char>),
) -> bool {
    crate::order::precedes(a.0, b.0) || (a.0 == b.0 && crate::order::precedes(a.1, b.1))
}

/// The order of scopes is strict and total.
pub proof fn law_scope_order_is_total(a: (Seq<char>, Seq<char>), b: (Seq<char>, Seq<char>))
    ensures
        scope_precedes(a, b) ==> a != b && !scope_precedes(b, a),
        a != b ==> scope_precedes(a, b) || scope_precedes(b, a),
{
    crate::order::law_text_order_is_total(a.0, b.0);
    crate::order::law_text_order_is_total(b.0, a.0);
    crate::order::law_text_order_is_total(a.1, b.1);
}

/// The order of scopes is transitive.
pub proof fn law_scope_order_is_transitive(
    a: (Seq<char>, Seq<char>),
    b: (Seq<char>, Seq<char>),
    c: (Seq<char>, Seq<char>),
)
    requires
        scope_precedes(a, b),
        scope_precedes(b, c),
    ensures
        scope_precedes(a, c),
{
    if crate::order::precedes(a.0, b.0) && crate::order::precedes(b.0, c.0) {
        crate::order::law_text_order_is_transitive(a.0, b.0, c.0);
    }
    if crate::order::precedes(a.1, b.1) && crate::order::precedes(b.1, c.1) {
        crate::order::law_text_order_is_transitive(a.1, b.1, c.1);
    }
}

/// The release decides which scope comes first, and for the same release the
/// architecture does.
pub proof fn law_release_comes_before_architecture(
    release: Seq<char>,
    other_release: Seq<char>,
    architecture: Seq<char>,
    other_architecture: Seq<char>,
)
    ensures
        crate::order::precedes(release, other_release) ==> scope_precedes(
            (release, architecture),
            (other_release, other_architecture),
        ),
        scope_precedes((release, architecture), (release, other_architecture))
            <==> crate::order::precedes(architecture, other_architecture),
{
    crate::order::law_text_order_is_total(release, release);
}

impl Key for Scope {
    open spec fn before(a: (Seq<char>, Seq<char>), b: (Seq<char>, Seq<char>)) -> bool {
        scope_precedes(a, b)
    }

    proof fn lemma_total(a: (Seq<char>, Seq<char>), b: (Seq<char>, Seq<char>)) {
        law_scope_order_is_total(a, b);
    }

    proof fn lemma_transitive(
        a: (Seq<char>, Seq<char>),
        b: (Seq<char>, Seq<char>),
        c: (Seq<char>, Seq<char>),
    ) {
        law_scope_order_is_transitive(a, b, c);
    }

    fn compare(&self, other: &Scope) -> (order: Order) {
        match compare_texts(self.release.as_str(), other.release.as_str()) {
            Order::Equal => compare_texts(self.architecture.as_str(), other.architecture.as_str()),
            order => order,
        }
    }
}

/// The source packages of one report, by their name.
pub type GroupsView = Map<Seq<char>, crate::report::SourcePackageView>;

/// The source packages of all reports, by release and architecture.
pub type ReportsView = Map<(Seq<char>, Seq<char>), GroupsView>;

/// Collects packages into one report per (release, architecture).
pub struct SyncState {
    reports: SortedMap<Scope, SortedMap<String, SourcePackageReport>>,
}

/// The source packages of one report as a mathematical value.
pub open spec fn groups_view(groups: SortedMap<String, SourcePackageReport>) -> GroupsView {
    groups@.map_values(|group: SourcePackageReport| group.deep_view())
}

impl View for SyncState {
    type V = ReportsView;

    closed spec fn view(&self) -> ReportsView {
        self.reports@.map_values(
            |groups: SortedMap<String, SourcePackageReport>| groups_view(groups),
        )
    }
}

/// Whether every source package of a report is kept under its own name.
pub open spec fn groups_named_by_key(groups: GroupsView) -> bool {
    forall|name: Seq<char>| #[trigger]
        groups.contains_key(name) ==> groups[name].name == name
}

/// Whether every source package is kept under its own name.
pub open spec fn named_by_key(reports: ReportsView) -> bool {
    forall|scope: (Seq<char>, Seq<char>)| #[trigger]
        reports.contains_key(scope) ==> groups_named_by_key(reports[scope])
}

/// The source packages of one report, of which there are none to begin with.
pub open spec fn groups_of(reports: ReportsView, scope: (Seq<char>, Seq<char>)) -> GroupsView {
    if reports.contains_key(scope) {
        reports[scope]
    } else {
        Map::empty()
    }
}

/// The version of a package as it is reported.
pub open spec fn full_version(pkg: crate::repomd::PackageItemView) -> Seq<char> {
    pkg.ver + "-"@ + pkg.rel
}

/// Whether one of the binary packages is built for this architecture.
pub open spec fn has_native(
    artifacts: Seq<crate::report::BinaryPackageView>,
    architecture: Seq<char>,
) -> bool {
    exists|i: int| 0 <= i < artifacts.len() && #[trigger] artifacts[i].architecture == architecture
}

/// A package as it is reported.
pub open spec fn artifact_of(
    base_url: Seq<char>,
    component: Seq<char>,
    pkg: crate::repomd::PackageItemView,
) -> crate::report::BinaryPackageView {
    crate::report::BinaryPackageView {
        name: pkg.name,
        version: full_version(pkg),
        architecture: pkg.arch,
        url: crate::url::resolved(base_url, pkg.href),
        component: Some(component),
    }
}

/// The source package of `artifact`, before it has any artifact.
pub open spec fn new_group(
    name: Seq<char>,
    artifact: crate::report::BinaryPackageView,
) -> crate::report::SourcePackageView {
    crate::report::SourcePackageView {
        name,
        version: artifact.version,
        url: artifact.url,
        artifacts: Seq::empty(),
    }
}

/// A source package with one more artifact. The first artifact that is built for
/// `architecture` becomes the build input.
pub open spec fn with_artifact(
    group: crate::report::SourcePackageView,
    architecture: Seq<char>,
    artifact: crate::report::BinaryPackageView,
) -> crate::report::SourcePackageView {
    crate::report::SourcePackageView {
        url: if artifact.architecture == architecture && !has_native(
            group.artifacts,
            architecture,
        ) {
            artifact.url
        } else {
            group.url
        },
        artifacts: group.artifacts.push(artifact),
        ..group
    }
}

/// The source packages of a report for `architecture` with one more artifact of
/// the source package `name`.
pub open spec fn with_group_artifact(
    groups: GroupsView,
    architecture: Seq<char>,
    name: Seq<char>,
    artifact: crate::report::BinaryPackageView,
) -> GroupsView {
    let group = if groups.contains_key(name) {
        groups[name]
    } else {
        new_group(name, artifact)
    };
    groups.insert(name, with_artifact(group, architecture, artifact))
}

/// The reports with one for this scope, even if it is empty.
pub open spec fn with_scope(reports: ReportsView, scope: (Seq<char>, Seq<char>)) -> ReportsView {
    reports.insert(scope, groups_of(reports, scope))
}

/// The reports with one more package.
pub open spec fn pushed(
    reports: ReportsView,
    scope: (Seq<char>, Seq<char>),
    base_url: Seq<char>,
    component: Seq<char>,
    pkg: crate::repomd::PackageItemView,
) -> ReportsView {
    reports.insert(
        scope,
        with_group_artifact(
            groups_of(reports, scope),
            scope.1,
            pkg.sourcerpm,
            artifact_of(base_url, component, pkg),
        ),
    )
}

/// Whether one of the artifacts is built for this architecture.
fn any_native(artifacts: &Vec<BinaryPackageReport>, architecture: &str) -> (found: bool)
    ensures
        found == has_native(artifacts.deep_view(), architecture@),
{
    let mut i: usize = 0;
    while i < artifacts.len()
        invariant
            i <= artifacts@.len(),
            forall|j: int|
                0 <= j < i ==> #[trigger] artifacts.deep_view()[j].architecture != architecture@,
        decreases artifacts@.len() - i,
    {
        assert(artifacts.deep_view()[i as int].architecture == artifacts@[i as int].architecture@);
        if same_text(artifacts[i].architecture.as_str(), architecture) {
            return true;
        }
        i += 1;
    }
    false
}

/// Adds an artifact to its source package.
fn push_artifact(
    group: &mut SourcePackageReport,
    architecture: &str,
    artifact: BinaryPackageReport,
)
    ensures
        final(group).deep_view() == with_artifact(
            old(group).deep_view(),
            architecture@,
            artifact.deep_view(),
        ),
{
    // the rebuilder reads the build target off this rpm, so prefer one that
    // names an architecture over a noarch subpackage
    if same_text(artifact.architecture.as_str(), architecture) && !any_native(
        &group.artifacts,
        architecture,
    ) {
        group.url = artifact.url.clone();
    }
    group.artifacts.push(artifact);
    assert(group.artifacts.deep_view() =~= old(group).artifacts.deep_view().push(
        artifact.deep_view(),
    ));
}

/// Adds an artifact to its source package in a report.
fn push_group_artifact(
    groups: &mut SortedMap<String, SourcePackageReport>,
    architecture: &str,
    name: String,
    artifact: BinaryPackageReport,
)
    requires
        old(groups).wf(),
    ensures
        final(groups).wf(),
        groups_view(*final(groups)) == with_group_artifact(
            groups_view(*old(groups)),
            architecture@,
            name@,
            artifact.deep_view(),
        ),
{
    let new = SourcePackageReport {
        name: name.clone(),
        version: artifact.version.clone(),
        url: artifact.url.clone(),
        artifacts: Vec::new(),
    };
    assert(new.deep_view() =~= new_group(name@, artifact.deep_view()));
    let group = groups.entry_or_insert(name, new);
    push_artifact(group, architecture, artifact);
    assert(groups_view(*groups) =~= with_group_artifact(
        groups_view(*old(groups)),
        architecture@,
        name@,
        artifact.deep_view(),
    ));
}

/// The source packages of a report, by name.
fn list_groups(groups: SortedMap<String, SourcePackageReport>) -> (packages: Vec<
    SourcePackageReport,
>)
    requires
        groups.wf(),
        groups_named_by_key(groups_view(groups)),
    ensures
        lists_groups(groups_view(groups), packages.deep_view()),
{
    let ghost view = groups_view(groups);
    let entries = groups.into_entries();
    let ghost sorted = entries@;
    let mut packages: Vec<SourcePackageReport> = Vec::new();
    for entry in it: entries
        invariant
            it.seq() == sorted,
            packages@.len() == it.index(),
            forall|i: int| 0 <= i < packages@.len() ==> #[trigger] packages@[i] == sorted[i].1,
    {
        packages.push(entry.1);
    }
    proof {
        let list = packages.deep_view();
        assert forall|i: int| 0 <= i < list.len() implies (#[trigger] list[i]).name == sorted[i].0@
            && view.contains_key(list[i].name) && view[list[i].name] == list[i] by {
            crate::sorted_map::lemma_index(sorted, i);
            assert(view.contains_key(sorted[i].0@));
        }
        assert forall|name: Seq<char>| #[trigger] view.contains_key(name) implies exists|i: int|
            0 <= i < list.len() && #[trigger] list[i].name == name by {
            let i = crate::sorted_map::entry_index(sorted, name);
            assert(list[i].name == name);
        }
    }
    packages
}

impl Default for SyncState {
    /// A state without reports.
    fn default() -> (state: SyncState)
        ensures
            state.wf(),
            state@ == Map::<(Seq<char>, Seq<char>), GroupsView>::empty(),
    {
        let state = SyncState { reports: SortedMap::new() };
        assert(state@ =~= Map::<(Seq<char>, Seq<char>), GroupsView>::empty());
        state
    }
}

impl SyncState {
    /// Whether the reports are kept in order, and every source package under its
    /// own name.
    pub closed spec fn wf(&self) -> bool {
        &&& self.reports.wf()
        &&& forall|scope: (Seq<char>, Seq<char>)|
            self.reports@.contains_key(scope) ==> (#[trigger] self.reports@[scope]).wf()
        &&& named_by_key(self@)
    }

    /// Report a scope even when nothing matched, so the daemon can expire
    /// packages that disappeared from the index.
    pub fn create_group(&mut self, release: &str, architecture: &str)
        requires
            old(self).wf(),
        ensures
            final(self).wf(),
            final(self)@ == with_scope(old(self)@, (release@, architecture@)),
    {
        let scope = Scope { release: release.to_owned(), architecture: architecture.to_owned() };
        let empty: SortedMap<String, SourcePackageReport> = SortedMap::new();
        assert(groups_view(empty) =~= Map::empty());
        self.reports.entry_or_insert(scope, empty);
        assert(self@ =~= with_scope(old(self)@, (release@, architecture@)));
    }

    /// Reports a package in one scope.
    pub fn push(
        &mut self,
        release: &str,
        architecture: &str,
        base_url: &str,
        component: &str,
        pkg: &PackagesXmlItem,
    )
        requires
            old(self).wf(),
        ensures
            final(self).wf(),
            final(self)@ == pushed(
                old(self)@,
                (release@, architecture@),
                base_url@,
                component@,
                pkg.deep_view(),
            ),
    {
        let url = join_url(base_url, pkg.location.href.as_str());
        let version = concat_with(pkg.version.ver.as_str(), "-", pkg.version.rel.as_str());
        let artifact = BinaryPackageReport {
            name: pkg.name.clone(),
            version,
            architecture: pkg.arch.clone(),
            url,
            component: Some(component.to_owned()),
        };
        let scope = Scope { release: release.to_owned(), architecture: architecture.to_owned() };
        let empty: SortedMap<String, SourcePackageReport> = SortedMap::new();
        assert(groups_view(empty) =~= Map::empty());
        let groups = self.reports.entry_or_insert(scope, empty);
        push_group_artifact(groups, architecture, pkg.format.sourcerpm.clone(), artifact);
        assert(self@ =~= pushed(
            old(self)@,
            (release@, architecture@),
            base_url@,
            component@,
            pkg.deep_view(),
        ));
    }

    /// Reports a package for every architecture that it belongs to, if it is one
    /// of those to sync.
    pub fn import_package(
        &mut self,
        pkg: &PackagesXmlItem,
        selected: bool,
        base_url: &str,
        release: &SyncRelease,
        component: &str,
        sync: &PkgsSync,
    )
        requires
            old(self).wf(),
        ensures
            final(self).wf(),
            final(self)@ == if selected {
                pushed_to_all(
                    old(self)@,
                    release.name@,
                    sync.architectures.deep_view(),
                    base_url@,
                    component@,
                    pkg.deep_view(),
                )
            } else {
                old(self)@
            },
    {
        if !selected {
            return;
        }
        // one index covers every architecture, and noarch subpackages belong
        // to all of them because a rebuild verifies every artifact of a
        // source package at once
        let ghost archs = sync.architectures.deep_view();
        let mut i: usize = 0;
        while i < sync.architectures.len()
            invariant
                i <= sync.architectures@.len(),
                archs == sync.architectures.deep_view(),
                self.wf(),
                self@ == pushed_to_all(
                    old(self)@,
                    release.name@,
                    archs.take(i as int),
                    base_url@,
                    component@,
                    pkg.deep_view(),
                ),
            decreases sync.architectures@.len() - i,
        {
            let arch = sync.architectures[i].as_str();
            assert(archs.take(i + 1).drop_last() =~= archs.take(i as int));
            assert(archs.take(i + 1).last() == arch@);
            if same_text(pkg.arch.as_str(), arch) || same_text(pkg.arch.as_str(), "noarch") {
                self.push(release.name.as_str(), arch, base_url, component, pkg);
            }
            i += 1;
        }
        assert(archs.take(i as int) =~= archs);
    }

    /// Reports the packages of an index of `release` that `matches` selects for
    /// `component`.
    pub fn import_packages<F: Fn(&PackagesXmlItem, &str) -> bool>(
        &mut self,
        packages: Vec<PackagesXmlItem>,
        base_url: &str,
        release: &SyncRelease,
        component: &str,
        sync: &PkgsSync,
        matches: &F,
    )
        requires
            old(self).wf(),
            forall|i: int|
                0 <= i < packages@.len() ==> call_requires(
                    *matches,
                    (&(#[trigger] packages@[i]), component),
                ),
        ensures
            final(self).wf(),
            exists|selected: Seq<bool>|
                {
                    &&& #[trigger] selects(*matches, packages@, component, selected)
                    &&& final(self)@ == imported(
                        old(self)@,
                        release.name@,
                        sync.architectures.deep_view(),
                        base_url@,
                        component@,
                        packages.deep_view(),
                        selected,
                    )
                },
    {
        let ghost mut selected: Seq<bool> = Seq::empty();
        let ghost items = packages.deep_view();
        let mut i: usize = 0;
        while i < packages.len()
            invariant
                i <= packages@.len(),
                items == packages.deep_view(),
                forall|j: int|
                    0 <= j < packages@.len() ==> call_requires(
                        *matches,
                        (&(#[trigger] packages@[j]), component),
                    ),
                selects(*matches, packages@.take(i as int), component, selected),
                self.wf(),
                self@ == imported(
                    old(self)@,
                    release.name@,
                    sync.architectures.deep_view(),
                    base_url@,
                    component@,
                    items.take(i as int),
                    selected,
                ),
            decreases packages@.len() - i,
        {
            let pkg = &packages[i];
            let matched = matches(pkg, component);
            self.import_package(pkg, matched, base_url, release, component, sync);
            proof {
                let next = selected.push(matched);
                assert(items.take(i + 1).drop_last() =~= items.take(i as int));
                assert(items.take(i + 1).last() == pkg.deep_view());
                assert(next.drop_last() =~= selected);
                assert(packages@.take(i + 1) =~= packages@.take(i as int).push(*pkg));
                selected = next;
            }
            i += 1;
        }
        assert(items.take(i as int) =~= items);
        assert(packages@.take(i as int) =~= packages@);
    }

    /// The reports, by release and architecture, each with its source packages
    /// by name.
    pub fn into_vec(self) -> (reports: Vec<PackageReport>)
        requires
            self.wf(),
        ensures
            lists_reports(self@, reports.deep_view()),
    {
        let ghost view = self@;
        let entries = self.reports.into_entries();
        let ghost sorted = entries@;
        assert forall|i: int| 0 <= i < sorted.len() implies {
            let (scope, groups) = #[trigger] sorted[i];
            &&& groups.wf()
            &&& view.contains_key(scope@)
            &&& view[scope@] == groups_view(groups)
            &&& groups_named_by_key(groups_view(groups))
        } by {
            let scope = sorted[i].0@;
            crate::sorted_map::lemma_index(sorted, i);
            assert(self.reports@.contains_key(scope));
        }
        let mut reports: Vec<PackageReport> = Vec::new();
        for entry in it: entries
            invariant
                it.seq() == sorted,
                forall|i: int|
                    0 <= i < sorted.len() ==> (#[trigger] sorted[i]).1.wf() && groups_named_by_key(
                        groups_view(sorted[i].1),
                    ),
                reports@.len() == it.index(),
                forall|i: int|
                    0 <= i < reports@.len() ==> {
                        let scope = sorted[i].0@;
                        let report = #[trigger] reports@[i].deep_view();
                        &&& report.distribution == DISTRIBUTION@
                        &&& report.release == Some(scope.0)
                        &&& report.architecture == scope.1
                        &&& lists_groups(groups_view(sorted[i].1), report.packages)
                    },
        {
            let (scope, groups) = entry;
            let packages = list_groups(groups);
            reports.push(
                PackageReport {
                    distribution: DISTRIBUTION.to_owned(),
                    release: Some(scope.release),
                    architecture: scope.architecture,
                    packages,
                },
            );
        }
        proof {
            let list = reports.deep_view();
            assert forall|i: int| 0 <= i < list.len() implies scope_of(#[trigger] list[i])
                == sorted[i].0@ && list[i] == reports@[i].deep_view() by {
                assert(reports@[i].deep_view().release is Some);
            }
            assert forall|scope: (Seq<char>, Seq<char>)| #[trigger]
                view.contains_key(scope) implies exists|i: int|
                0 <= i < list.len() && #[trigger] scope_of(list[i]) == scope by {
                let i = crate::sorted_map::entry_index(sorted, scope);
                assert(scope_of(list[i]) == scope);
            }
        }
        reports
    }
}

/// Whether a package belongs to the reports for this architecture.
pub open spec fn belongs_to(
    pkg: crate::repomd::PackageItemView,
    architecture: Seq<char>,
) -> bool {
    pkg.arch == architecture || pkg.arch == "noarch"@
}

/// The reports with one more package, in those of the architectures that it
/// belongs to.
pub open spec fn pushed_to_all(
    reports: ReportsView,
    release: Seq<char>,
    architectures: Seq<Seq<char>>,
    base_url: Seq<char>,
    component: Seq<char>,
    pkg: crate::repomd::PackageItemView,
) -> ReportsView
    decreases architectures.len(),
{
    if architectures.len() == 0 {
        reports
    } else {
        let before = pushed_to_all(
            reports,
            release,
            architectures.drop_last(),
            base_url,
            component,
            pkg,
        );
        if belongs_to(pkg, architectures.last()) {
            pushed(before, (release, architectures.last()), base_url, component, pkg)
        } else {
            before
        }
    }
}

/// The reports with those of the packages that are selected.
pub open spec fn imported(
    reports: ReportsView,
    release: Seq<char>,
    architectures: Seq<Seq<char>>,
    base_url: Seq<char>,
    component: Seq<char>,
    packages: Seq<crate::repomd::PackageItemView>,
    selected: Seq<bool>,
) -> ReportsView
    decreases packages.len(),
{
    if packages.len() == 0 {
        reports
    } else {
        let before = imported(
            reports,
            release,
            architectures,
            base_url,
            component,
            packages.drop_last(),
            selected.drop_last(),
        );
        if selected.last() {
            pushed_to_all(before, release, architectures, base_url, component, packages.last())
        } else {
            before
        }
    }
}

/// Whether `packages` are the source packages of a report, by name.
pub open spec fn lists_groups(
    groups: GroupsView,
    packages: Seq<crate::report::SourcePackageView>,
) -> bool {
    &&& forall|i: int, j: int|
        0 <= i < j < packages.len() ==> crate::order::precedes(
            #[trigger] packages[i].name,
            #[trigger] packages[j].name,
        )
    &&& forall|i: int|
        0 <= i < packages.len() ==> groups.contains_key(#[trigger] packages[i].name)
            && groups[packages[i].name] == packages[i]
    &&& forall|name: Seq<char>| #[trigger]
        groups.contains_key(name) ==> exists|i: int|
            0 <= i < packages.len() && #[trigger] packages[i].name == name
}

/// The release and the architecture that a report is about.
pub open spec fn scope_of(report: crate::report::PackageReportView) -> (Seq<char>, Seq<char>) {
    (report.release->0, report.architecture)
}

/// Whether `list` are the reports, by release and architecture, each with its
/// source packages by name.
pub open spec fn lists_reports(
    reports: ReportsView,
    list: Seq<crate::report::PackageReportView>,
) -> bool {
    &&& forall|i: int, j: int|
        0 <= i < j < list.len() ==> scope_precedes(
            #[trigger] scope_of(list[i]),
            #[trigger] scope_of(list[j]),
        )
    &&& forall|i: int|
        0 <= i < list.len() ==> {
            &&& (#[trigger] list[i]).distribution == DISTRIBUTION@
            &&& list[i].release is Some
            &&& reports.contains_key(scope_of(list[i]))
            &&& lists_groups(reports[scope_of(list[i])], list[i].packages)
        }
    &&& forall|scope: (Seq<char>, Seq<char>)| #[trigger]
        reports.contains_key(scope) ==> exists|i: int|
            0 <= i < list.len() && #[trigger] scope_of(list[i]) == scope
}

/// Whether `matches` can select the packages for `component` in this way.
pub open spec fn selects<F: Fn(&PackagesXmlItem, &str) -> bool>(
    matches: F,
    packages: Seq<PackagesXmlItem>,
    component: &str,
    selected: Seq<bool>,
) -> bool {
    &&& selected.len() == packages.len()
    &&& forall|i: int|
        0 <= i < packages.len() ==> call_ensures(
            matches,
            (&(#[trigger] packages[i]), component),
            selected[i],
        )
}

/// A selection has one decision for every package, which is one that `matches` can
/// make about that package for that component.
pub proof fn law_every_package_is_decided_on<F: Fn(&PackagesXmlItem, &str) -> bool>(
    matches: F,
    packages: Seq<PackagesXmlItem>,
    component: &str,
    selected: Seq<bool>,
)
    requires
        selects(matches, packages, component, selected),
    ensures
        selected.len() == packages.len(),
        forall|i: int|
            0 <= i < packages.len() ==> call_ensures(
                matches,
                (&(#[trigger] packages[i]), component),
                selected[i],
            ),
{
}

} // verus!
