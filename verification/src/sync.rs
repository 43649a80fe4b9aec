//! Syncing all packages of openSUSE repositories.
//!
//! A [`SyncRun`] decides which index to fetch next and collects the packages.
//! Whoever can fetch an index does so and hands its packages back.

use vstd::prelude::*;

use crate::opensuse::{PkgsSync, SyncState};
use crate::repomd::PackagesXmlItem;
use crate::report::PackageReport;
use crate::text::concat_with;

verus! {

/// A release, as a mathematical value.
#[verifier::ext_equal]
pub ghost struct SyncReleaseView {
    pub name: Seq<char>,
    pub source: Seq<char>,
}

/// Which packages are synced, as a mathematical value.
#[verifier::ext_equal]
pub ghost struct PkgsSyncView {
    pub components: Seq<Seq<char>>,
    pub releases: Seq<SyncReleaseView>,
    pub architectures: Seq<Seq<char>>,
}

impl DeepView for crate::opensuse::SyncRelease {
    type V = SyncReleaseView;

    open spec fn deep_view(&self) -> SyncReleaseView {
        SyncReleaseView { name: self.name@, source: self.source@ }
    }
}

impl DeepView for PkgsSync {
    type V = PkgsSyncView;

    open spec fn deep_view(&self) -> PkgsSyncView {
        PkgsSyncView {
            components: self.components.deep_view(),
            releases: self.releases.deep_view(),
            architectures: self.architectures.deep_view(),
        }
    }
}

/// An index that was fetched: its packages, and which of them are synced.
#[verifier::ext_equal]
pub ghost struct Fetch {
    pub packages: Seq<crate::repomd::PackageItemView>,
    pub selected: Seq<bool>,
}

/// Whether every index says of each of its packages whether it is synced.
pub open spec fn all_decided(log: Seq<Seq<Fetch>>) -> bool {
    forall|r: int, c: int|
        0 <= r < log.len() && 0 <= c < log[r].len() ==> (#[trigger] log[r][c]).selected.len()
            == log[r][c].packages.len()
}

/// The reports with one for every architecture of a release, even if it is empty.
pub open spec fn with_scopes(
    reports: crate::opensuse::ReportsView,
    release: Seq<char>,
    architectures: Seq<Seq<char>>,
) -> crate::opensuse::ReportsView
    decreases architectures.len(),
{
    if architectures.len() == 0 {
        reports
    } else {
        crate::opensuse::with_scope(
            with_scopes(reports, release, architectures.drop_last()),
            (release, architectures.last()),
        )
    }
}

impl PkgsSyncView {
    /// Where the index of a component of a release is.
    pub open spec fn base_url(self, release: int, component: int) -> Seq<char> {
        self.releases[release].source + "/"@ + self.components[component]
    }

    /// The reports after the indexes of the first components of a release were
    /// fetched.
    pub open spec fn after_components(
        self,
        reports: crate::opensuse::ReportsView,
        release: int,
        fetches: Seq<Fetch>,
    ) -> crate::opensuse::ReportsView
        decreases fetches.len(),
    {
        if fetches.len() == 0 {
            reports
        } else {
            crate::opensuse::imported(
                self.after_components(reports, release, fetches.drop_last()),
                self.releases[release].name,
                self.architectures,
                self.base_url(release, fetches.len() - 1),
                self.components[fetches.len() - 1],
                fetches.last().packages,
                fetches.last().selected,
            )
        }
    }

    /// The reports on the first releases, where `log` has the indexes that were
    /// fetched for each of them.
    pub open spec fn after_releases(self, log: Seq<Seq<Fetch>>) -> crate::opensuse::ReportsView
        decreases log.len(),
    {
        if log.len() == 0 {
            Map::empty()
        } else {
            self.after_components(
                with_scopes(
                    self.after_releases(log.drop_last()),
                    self.releases[log.len() - 1].name,
                    self.architectures,
                ),
                log.len() - 1,
                log.last(),
            )
        }
    }

    /// Whether the indexes of all components were fetched for the last release
    /// of the log.
    pub open spec fn last_release_done(self, log: Seq<Seq<Fetch>>) -> bool {
        log.len() == 0 || log.last().len() >= self.components.len()
    }

    /// Whether nothing is left to fetch.
    pub open spec fn is_complete(self, log: Seq<Seq<Fetch>>) -> bool {
        log.len() == self.releases.len() && self.last_release_done(log)
    }

    /// The log, with the next release that has an index to fetch.
    pub open spec fn settled(self, log: Seq<Seq<Fetch>>) -> Seq<Seq<Fetch>>
        decreases self.releases.len() - log.len(),
    {
        if log.len() < self.releases.len() && self.last_release_done(log) {
            self.settled(log.push(Seq::empty()))
        } else {
            log
        }
    }

    /// The log after one more index was fetched.
    pub open spec fn fetched(self, log: Seq<Seq<Fetch>>, fetch: Fetch) -> Seq<Seq<Fetch>> {
        self.settled(log.drop_last().push(log.last().push(fetch)))
    }

    /// Whether `log` can be what was fetched so far.
    pub open spec fn is_log(self, log: Seq<Seq<Fetch>>) -> bool {
        &&& log.len() <= self.releases.len()
        &&& forall|i: int| 0 <= i < log.len() - 1 ==> #[trigger] log[i].len() == self.components.len()
        &&& log.len() > 0 ==> log.last().len() <= self.components.len()
        &&& self.last_release_done(log) ==> log.len() == self.releases.len()
    }
}

/// The packages of all releases, while their indexes are fetched.
pub struct SyncRun<'a> {
    sync: &'a PkgsSync,
    state: SyncState,
    /// How many releases were begun.
    releases: usize,
    /// How many indexes of the last of them were fetched.
    components: usize,
    log: Ghost<Seq<Seq<Fetch>>>,
}

impl<'a> SyncRun<'a> {
    /// What is synced.
    pub closed spec fn sync(&self) -> PkgsSyncView {
        self.sync.deep_view()
    }

    /// What was fetched so far, release by release.
    pub closed spec fn log(&self) -> Seq<Seq<Fetch>> {
        self.log@
    }

    /// The reports so far.
    pub closed spec fn reports(&self) -> crate::opensuse::ReportsView {
        self.state@
    }

    spec fn in_step(&self) -> bool {
        &&& self.state.wf()
        &&& self.state@ == self.sync().after_releases(self.log@)
        &&& self.releases == self.log@.len()
        &&& self.log@.len() <= self.sync().releases.len()
        &&& self.components == if self.log@.len() == 0 {
            0
        } else {
            self.log@.last().len()
        }
        &&& self.components <= self.sync().components.len()
        &&& forall|i: int|
            0 <= i < self.log@.len() - 1 ==> #[trigger] self.log@[i].len()
                == self.sync().components.len()
        &&& all_decided(self.log@)
    }

    /// Whether the reports are those that follow from what was fetched.
    pub closed spec fn wf(&self) -> bool {
        &&& self.in_step()
        &&& self.sync().is_log(self.log@)
    }

    /// What every run has in common.
    pub proof fn lemma_wf(&self)
        requires
            self.wf(),
        ensures
            self.sync().is_log(self.log()),
            all_decided(self.log()),
            self.reports() == self.sync().after_releases(self.log()),
    {
    }

    /// Begins with the first release.
    pub fn new(sync: &'a PkgsSync) -> (run: SyncRun<'a>)
        ensures
            run.wf(),
            run.sync() == sync.deep_view(),
            run.log() == sync.deep_view().settled(Seq::empty()),
    {
        let mut run = SyncRun {
            sync,
            state: SyncState::default(),
            releases: 0,
            components: 0,
            log: Ghost(Seq::empty()),
        };
        run.begin_releases();
        run
    }

    /// Begins the next release if all indexes of the last one were fetched.
    fn begin_releases(&mut self)
        requires
            old(self).in_step(),
        ensures
            final(self).wf(),
            final(self).sync() == old(self).sync(),
            final(self).log() == old(self).sync().settled(old(self).log()),
    {
        let ghost view = self.sync();
        while self.releases < self.sync.releases.len() && (self.releases == 0 || self.components
            >= self.sync.components.len())
            invariant
                self.in_step(),
                self.sync() == view,
                view == old(self).sync(),
                view.components.len() == self.sync.components@.len(),
                view.releases.len() == self.sync.releases@.len(),
                view.settled(self.log@) == view.settled(old(self).log@),
            decreases self.sync.releases@.len() - self.releases,
        {
            let ghost log = self.log@;
            let ghost next = log.push(Seq::<Fetch>::empty());
            let begun: usize = self.releases;
            let release = &self.sync.releases[begun];
            let ghost archs = view.architectures;
            let mut i: usize = 0;
            while i < self.sync.architectures.len()
                invariant
                    i <= self.sync.architectures@.len(),
                    archs == self.sync.architectures.deep_view(),
                    self.state.wf(),
                    self.state@ == with_scopes(
                        view.after_releases(log),
                        release.name@,
                        archs.take(i as int),
                    ),
                    self.sync() == view,
                    self.log@ == log,
                    self.releases == begun,
                decreases self.sync.architectures@.len() - i,
            {
                let arch = self.sync.architectures[i].as_str();
                assert(archs.take(i + 1).drop_last() =~= archs.take(i as int));
                assert(archs.take(i + 1).last() == arch@);
                self.state.create_group(release.name.as_str(), arch);
                i += 1;
            }
            assert(archs.take(i as int) =~= archs);
            assert(next.drop_last() =~= log);
            assert forall|r: int, c: int| 0 <= r < next.len() && 0 <= c < next[r].len() implies (
            #[trigger] next[r][c]).selected.len() == next[r][c].packages.len() by {
                assert(next[r][c] == log[r][c]);
            }
            self.releases = begun + 1;
            self.components = 0;
            self.log = Ghost(next);
        }
    }

    /// The url of the repository whose index has to be fetched next, if any is left.
    pub fn base_url(&self) -> (url: Option<String>)
        requires
            self.wf(),
        ensures
            match url {
                Some(url) => {
                    &&& !self.sync().is_complete(self.log())
                    &&& url@ == self.sync().base_url(
                        self.log().len() - 1,
                        self.log().last().len() as int,
                    )
                    &&& url@ == self.sync().releases[self.log().len() - 1].source + "/"@
                        + self.sync().components[self.log().last().len() as int]
                },
                None => self.sync().is_complete(self.log()),
            },
    {
        if self.releases == 0 || self.components >= self.sync.components.len() {
            return None;
        }
        Some(
            concat_with(
                self.sync.releases[self.releases - 1].source.as_str(),
                "/",
                self.sync.components[self.components].as_str(),
            ),
        )
    }

    /// The name of the release whose index has to be fetched next, if any is left.
    pub fn release(&self) -> (name: Option<&String>)
        requires
            self.wf(),
        ensures
            match name {
                Some(name) => {
                    &&& !self.sync().is_complete(self.log())
                    &&& name@ == self.sync().releases[self.log().len() - 1].name
                },
                None => self.sync().is_complete(self.log()),
            },
    {
        if self.releases == 0 || self.components >= self.sync.components.len() {
            return None;
        }
        Some(&self.sync.releases[self.releases - 1].name)
    }

    /// Goes on with the packages of the index that had to be fetched, of which
    /// those are synced that `matches` selects.
    pub fn import<F: Fn(&PackagesXmlItem, &str) -> bool>(
        &mut self,
        packages: Vec<PackagesXmlItem>,
        matches: &F,
    )
        requires
            old(self).wf(),
            !old(self).sync().is_complete(old(self).log()),
            forall|i: int, component: &str|
                0 <= i < packages@.len() && component@
                    == old(self).sync().components[old(self).log().last().len() as int]
                    ==> call_requires(*matches, (&(#[trigger] packages@[i]), component)),
        ensures
            final(self).wf(),
            final(self).sync() == old(self).sync(),
            exists|component: &str, selected: Seq<bool>|
                {
                    &&& component@ == old(self).sync().components[old(
                        self,
                    ).log().last().len() as int]
                    &&& #[trigger] crate::opensuse::selects(
                        *matches,
                        packages@,
                        component,
                        selected,
                    )
                    &&& final(self).log() == old(self).sync().fetched(
                        old(self).log(),
                        (Fetch { packages: packages.deep_view(), selected }),
                    )
                },
    {
        let ghost view = self.sync();
        let ghost log = self.log@;
        assert(self.components < self.sync.components.len());
        let release = &self.sync.releases[self.releases - 1];
        let component = self.sync.components[self.components].as_str();
        let base_url = concat_with(release.source.as_str(), "/", component);
        let ghost items = packages.deep_view();
        let ghost all = packages@;
        self.state.import_packages(
            packages,
            base_url.as_str(),
            release,
            component,
            self.sync,
            matches,
        );
        let ghost selected = choose|selected: Seq<bool>|
            {
                &&& #[trigger] crate::opensuse::selects(*matches, all, component, selected)
                &&& self.state@ == crate::opensuse::imported(
                    old(self).state@,
                    release.name@,
                    view.architectures,
                    base_url@,
                    component@,
                    items,
                    selected,
                )
            };
        self.components = self.components + 1;
        proof {
            let fetches = log.last().push(Fetch { packages: items, selected });
            let next = log.drop_last().push(fetches);
            assert(fetches.drop_last() =~= log.last());
            assert(next.drop_last() =~= log.drop_last());
            assert forall|r: int, c: int| 0 <= r < next.len() && 0 <= c < next[r].len() implies (
            #[trigger] next[r][c]).selected.len() == next[r][c].packages.len() by {
                if r < log.len() - 1 || c < log.last().len() {
                    assert(next[r][c] == log[r][c]);
                }
            }
            self.log = Ghost(next);
        }
        self.begin_releases();
    }

    /// The reports on all releases.
    pub fn finish(self) -> (reports: Vec<PackageReport>)
        requires
            self.wf(),
            self.sync().is_complete(self.log()),
        ensures
            crate::opensuse::lists_reports(
                self.sync().after_releases(self.log()),
                reports.deep_view(),
            ),
    {
        self.state.into_vec()
    }
}

/// What is synced is seen as it is.
pub proof fn law_sync_is_seen_as_it_is(sync: PkgsSync)
    ensures
        sync.deep_view().components.len() == sync.components@.len(),
        forall|i: int|
            0 <= i < sync.components@.len() ==> #[trigger] sync.deep_view().components[i]
                == sync.components@[i]@,
        sync.deep_view().architectures.len() == sync.architectures@.len(),
        forall|i: int|
            0 <= i < sync.architectures@.len() ==> #[trigger] sync.deep_view().architectures[i]
                == sync.architectures@[i]@,
        sync.deep_view().releases.len() == sync.releases@.len(),
        forall|i: int|
            0 <= i < sync.releases@.len() ==> (#[trigger] sync.deep_view().releases[i]).name
                == sync.releases@[i].name@ && sync.deep_view().releases[i].source
                == sync.releases@[i].source@,
{
}

} // verus!
