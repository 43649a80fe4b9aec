//! The course of a rebuild.
//!
//! A [`Rebuild`] decides what to do next and what the result means for the
//! report. Whoever can download, build and compare files does so and hands the
//! result back.

use vstd::prelude::*;
use vstd::slice::slice_to_vec;

use crate::report::{ArtifactStatus, QueuedJobArtifact, RebuildArtifactReport};

verus! {

/// The command that rebuilds packages.
#[derive(Clone, Debug, PartialEq, Eq)]
pub struct Backend {
    pub path: String,
}

/// How the backend is run.
#[derive(Clone, Debug, PartialEq, Eq)]
pub struct Build {
    /// After how many seconds it is stopped, if not after a day.
    pub timeout: Option<u64>,
    /// Whether its output is kept out of the log of the worker.
    pub silent: bool,
}

/// Whether differences are explained.
#[derive(Clone, Debug, PartialEq, Eq)]
pub struct Diffoscope {
    pub enabled: bool,
}

/// What is rebuilt, and how.
#[derive(Clone, Debug, PartialEq, Eq)]
pub struct Context {
    pub artifacts: Vec<QueuedJobArtifact>,
    pub input_url: Option<String>,
    pub backend: Backend,
    pub build: Build,
    pub diffoscope: Diffoscope,
}

/// Why a rebuild ended without a report.
#[derive(Debug)]
pub enum RebuildError {
    /// An artifact could not be downloaded from this url.
    DownloadArtifact(String),
    /// The build input could not be downloaded from this url.
    DownloadInput(String),
    /// There is no artifact that could serve as build input.
    NoBuildInput,
    /// The differences could not be explained.
    Diffoscope,
    /// A path is not valid unicode.
    InvalidPath,
    /// The path of the build input is not valid unicode.
    InvalidInputPath,
    /// The path of an output artifact is not valid unicode.
    InvalidOutputPath,
    /// A signed link could not be written as json, for this reason.
    SerializeAttestation(serde_json::Error),
}

/// What a rebuild needs next.
#[derive(Clone, Debug, PartialEq, Eq)]
pub enum Action {
    /// Download the artifact at this url.
    DownloadArtifact(String),
    /// Download the build input at this url.
    DownloadInput(String),
    /// Run the backend on this build input.
    Build(String),
    /// Look for the output artifact of this name.
    FindOutput(String),
    /// Compare the downloaded artifact of this name with the output artifact.
    Compare(String),
    /// Sign a link for the output artifact of the first name, which was built
    /// from the build input of the second name.
    Attest(String, String),
    /// Explain how the downloaded artifact of this name and the output artifact differ.
    Diff(String),
    /// Compress these bytes.
    Compress(Vec<u8>),
    /// Nothing: the rebuild is complete.
    Done,
}

/// What came of an action.
#[derive(Clone, Debug, PartialEq, Eq)]
pub enum Event {
    /// The download was stored under this file name.
    Downloaded(String),
    /// The backend has finished.
    Built,
    /// Whether there is an output artifact.
    Found(bool),
    /// Whether both artifacts are identical.
    Compared(bool),
    /// The signed link as json, if one could be signed.
    Attested(Option<String>),
    /// The explanation of the differences.
    Diffed(String),
    /// The compressed bytes.
    Compressed(Vec<u8>),
}

enum Phase {
    Artifacts,
    Input,
    Build,
    Find,
    Compare,
    Attest,
    CompressAttestation(Vec<u8>),
    Diff,
    CompressDiff(Vec<u8>),
    Done,
}

/// A rebuild in progress.
pub struct Rebuild {
    artifacts: Vec<QueuedJobArtifact>,
    input_url: Option<String>,
    diffoscope: bool,
    filenames: Vec<String>,
    input: Option<String>,
    reports: Vec<RebuildArtifactReport>,
    phase: Phase,
}

/// An [`Action`] as a mathematical value.
#[verifier::ext_equal]
pub ghost enum ActionView {
    DownloadArtifact(Seq<char>),
    DownloadInput(Seq<char>),
    Build(Seq<char>),
    FindOutput(Seq<char>),
    Compare(Seq<char>),
    Attest(Seq<char>, Seq<char>),
    Diff(Seq<char>),
    Compress(Seq<u8>),
    Done,
}

/// An [`Event`] as a mathematical value.
#[verifier::ext_equal]
pub ghost enum EventView {
    Downloaded(Seq<char>),
    Built,
    Found(bool),
    Compared(bool),
    Attested(Option<Seq<char>>),
    Diffed(Seq<char>),
    Compressed(Seq<u8>),
}

/// What a rebuild waits for, as a mathematical value.
#[verifier::ext_equal]
pub ghost enum PhaseView {
    /// The download of the next artifact.
    Artifacts,
    /// The download of the build input.
    Input,
    /// The end of the build.
    Build,
    /// Whether the next artifact has an output artifact.
    Find,
    /// Whether it is identical to the output artifact.
    Compare,
    /// A signed link for it.
    Attest,
    /// These bytes, compressed, as its attestation.
    CompressAttestation(Seq<u8>),
    /// An explanation of how it differs from the output artifact.
    Diff,
    /// These bytes, compressed, as the explanation.
    CompressDiff(Seq<u8>),
    /// Nothing any more.
    Done,
}

/// A rebuild, as a mathematical value.
#[verifier::ext_equal]
pub ghost struct RebuildView {
    /// The artifacts that have to be reproduced.
    pub artifacts: Seq<crate::report::QueuedJobArtifactView>,
    /// Where the build input comes from, if it is not the first artifact.
    pub input_url: Option<Seq<char>>,
    /// Whether differences are explained.
    pub diffoscope: bool,
    /// Under which names the artifacts were stored.
    pub filenames: Seq<Seq<char>>,
    /// Under which name the build input was stored.
    pub input: Option<Seq<char>>,
    /// The reports on the artifacts up to the one that is looked at.
    pub reports: Seq<crate::report::RebuildArtifactView>,
    /// What the rebuild waits for.
    pub phase: PhaseView,
}

impl DeepView for Action {
    type V = ActionView;

    open spec fn deep_view(&self) -> ActionView {
        match *self {
            Action::DownloadArtifact(url) => ActionView::DownloadArtifact(url@),
            Action::DownloadInput(url) => ActionView::DownloadInput(url@),
            Action::Build(input) => ActionView::Build(input@),
            Action::FindOutput(filename) => ActionView::FindOutput(filename@),
            Action::Compare(filename) => ActionView::Compare(filename@),
            Action::Attest(filename, input) => ActionView::Attest(filename@, input@),
            Action::Diff(filename) => ActionView::Diff(filename@),
            Action::Compress(bytes) => ActionView::Compress(bytes@),
            Action::Done => ActionView::Done,
        }
    }
}

impl DeepView for Event {
    type V = EventView;

    open spec fn deep_view(&self) -> EventView {
        match *self {
            Event::Downloaded(filename) => EventView::Downloaded(filename@),
            Event::Built => EventView::Built,
            Event::Found(found) => EventView::Found(found),
            Event::Compared(identical) => EventView::Compared(identical),
            Event::Attested(link) => EventView::Attested(link.deep_view()),
            Event::Diffed(text) => EventView::Diffed(text@),
            Event::Compressed(bytes) => EventView::Compressed(bytes@),
        }
    }
}

impl View for Rebuild {
    type V = RebuildView;

    closed spec fn view(&self) -> RebuildView {
        RebuildView {
            artifacts: self.artifacts.deep_view(),
            input_url: self.input_url.deep_view(),
            diffoscope: self.diffoscope,
            filenames: self.filenames.deep_view(),
            input: self.input.deep_view(),
            reports: self.reports.deep_view(),
            phase: match self.phase {
                Phase::Artifacts => PhaseView::Artifacts,
                Phase::Input => PhaseView::Input,
                Phase::Build => PhaseView::Build,
                Phase::Find => PhaseView::Find,
                Phase::Compare => PhaseView::Compare,
                Phase::Attest => PhaseView::Attest,
                Phase::CompressAttestation(bytes) => PhaseView::CompressAttestation(bytes@),
                Phase::Diff => PhaseView::Diff,
                Phase::CompressDiff(bytes) => PhaseView::CompressDiff(bytes@),
                Phase::Done => PhaseView::Done,
            },
        }
    }
}

/// The report on an artifact of this name.
pub open spec fn report(
    name: Seq<char>,
    status: ArtifactStatus,
    attestation: Option<Seq<u8>>,
    diffoscope: Option<Seq<u8>>,
) -> crate::report::RebuildArtifactView {
    crate::report::RebuildArtifactView { name, diffoscope, attestation, status }
}

impl RebuildView {
    /// The rebuild that `ctx` asks for, before anything was done.
    pub open spec fn start(ctx: Context) -> RebuildView {
        RebuildView {
            artifacts: ctx.artifacts.deep_view(),
            input_url: ctx.input_url.deep_view(),
            diffoscope: ctx.diffoscope.enabled,
            filenames: Seq::empty(),
            input: None,
            reports: Seq::empty(),
            phase: if ctx.artifacts.deep_view().len() > 0 {
                PhaseView::Artifacts
            } else {
                PhaseView::Input
            },
        }
    }

    /// Whether the build input is known and every artifact was downloaded.
    pub open spec fn downloaded(self) -> bool {
        &&& self.filenames.len() == self.artifacts.len()
        &&& self.input is Some
        &&& self.input_url is None ==> self.artifacts.len() > 0 && self.input == Some(
            self.filenames[0],
        )
    }

    /// Whether `r` is a report that fits the artifact `i`.
    pub open spec fn report_fits(self, i: int, r: crate::report::RebuildArtifactView) -> bool {
        &&& r.name == self.artifacts[i].name
        &&& r.status is Good ==> r.diffoscope is None
        &&& r.status is Bad ==> r.attestation is None
        &&& r.diffoscope is Some ==> self.diffoscope
    }

    /// What holds of every rebuild, whatever it waits for.
    pub open spec fn wf(self) -> bool {
        &&& forall|i: int|
            0 <= i < self.reports.len() ==> self.report_fits(i, #[trigger] self.reports[i])
        &&& match self.phase {
            PhaseView::Artifacts => {
                &&& self.filenames.len() < self.artifacts.len()
                &&& self.input is None
                &&& self.reports.len() == 0
            },
            PhaseView::Input => {
                &&& self.filenames.len() == self.artifacts.len()
                &&& self.input_url is Some
                &&& self.input is None
                &&& self.reports.len() == 0
            },
            PhaseView::Build => self.downloaded() && self.reports.len() == 0,
            PhaseView::Diff | PhaseView::CompressDiff(_) => self.downloaded() && self.reports.len()
                < self.artifacts.len() && self.diffoscope,
            PhaseView::Done => self.downloaded() && self.reports.len() == self.artifacts.len(),
            _ => self.downloaded() && self.reports.len() < self.artifacts.len(),
        }
    }

    /// The name under which the artifact that is looked at was stored.
    pub open spec fn filename(self) -> Seq<char> {
        self.filenames[self.reports.len() as int]
    }

    /// The name of the artifact that is looked at.
    pub open spec fn name(self) -> Seq<char> {
        self.artifacts[self.reports.len() as int].name
    }

    /// What has to be done next.
    pub open spec fn action(self) -> ActionView {
        match self.phase {
            PhaseView::Artifacts => ActionView::DownloadArtifact(
                self.artifacts[self.filenames.len() as int].url,
            ),
            PhaseView::Input => ActionView::DownloadInput(self.input_url->0),
            PhaseView::Build => ActionView::Build(self.input->0),
            PhaseView::Find => ActionView::FindOutput(self.filename()),
            PhaseView::Compare => ActionView::Compare(self.filename()),
            PhaseView::Attest => ActionView::Attest(self.filename(), self.input->0),
            PhaseView::CompressAttestation(bytes) => ActionView::Compress(bytes),
            PhaseView::Diff => ActionView::Diff(self.filename()),
            PhaseView::CompressDiff(bytes) => ActionView::Compress(bytes),
            PhaseView::Done => ActionView::Done,
        }
    }

    /// Whether `event` can come of the action of this rebuild.
    pub open spec fn accepts(self, event: EventView) -> bool {
        match self.phase {
            PhaseView::Artifacts | PhaseView::Input => event is Downloaded,
            PhaseView::Build => event is Built,
            PhaseView::Find => event is Found,
            PhaseView::Compare => event is Compared,
            PhaseView::Attest => event is Attested,
            PhaseView::Diff => event is Diffed,
            PhaseView::CompressAttestation(_) | PhaseView::CompressDiff(_) => event is Compressed,
            PhaseView::Done => false,
        }
    }

    /// The rebuild, waiting for something else.
    pub open spec fn wait_for(self, phase: PhaseView) -> RebuildView {
        RebuildView { phase, ..self }
    }

    /// The rebuild with its build input, which it can run the backend on.
    pub open spec fn build_with(self, input: Seq<char>) -> RebuildView {
        RebuildView { input: Some(input), phase: PhaseView::Build, ..self }
    }

    /// The rebuild, turned to the next artifact without a report, if any is left.
    pub open spec fn next_artifact(self) -> RebuildView {
        self.wait_for(
            if self.reports.len() < self.artifacts.len() {
                PhaseView::Find
            } else {
                PhaseView::Done
            },
        )
    }

    /// The rebuild after a report on the artifact that is looked at.
    pub open spec fn with_report(
        self,
        status: ArtifactStatus,
        attestation: Option<Seq<u8>>,
        diffoscope: Option<Seq<u8>>,
    ) -> RebuildView {
        RebuildView {
            reports: self.reports.push(report(self.name(), status, attestation, diffoscope)),
            ..self
        }.next_artifact()
    }

    /// The rebuild after `event` came of its action.
    pub open spec fn step(self, event: EventView) -> RebuildView {
        match (self.phase, event) {
            (PhaseView::Artifacts, EventView::Downloaded(filename)) => {
                let next = RebuildView { filenames: self.filenames.push(filename), ..self };
                if next.filenames.len() < next.artifacts.len() {
                    next
                } else if next.input_url is Some {
                    next.wait_for(PhaseView::Input)
                } else {
                    next.build_with(next.filenames[0])
                }
            },
            (PhaseView::Input, EventView::Downloaded(filename)) => self.build_with(filename),
            (PhaseView::Build, EventView::Built) => self.next_artifact(),
            (PhaseView::Find, EventView::Found(found)) => if found {
                self.wait_for(PhaseView::Compare)
            } else {
                self.with_report(ArtifactStatus::Bad, None, None)
            },
            (PhaseView::Compare, EventView::Compared(identical)) => if identical {
                self.wait_for(PhaseView::Attest)
            } else if self.diffoscope {
                self.wait_for(PhaseView::Diff)
            } else {
                self.with_report(ArtifactStatus::Bad, None, None)
            },
            (PhaseView::Attest, EventView::Attested(link)) => match link {
                Some(json) => self.wait_for(
                    PhaseView::CompressAttestation(vstd::utf8::encode_utf8(json)),
                ),
                None => self.with_report(ArtifactStatus::Good, None, None),
            },
            (
                PhaseView::CompressAttestation(_),
                EventView::Compressed(bytes),
            ) => self.with_report(ArtifactStatus::Good, Some(bytes), None),
            (PhaseView::Diff, EventView::Diffed(text)) => self.wait_for(
                PhaseView::CompressDiff(vstd::utf8::encode_utf8(text)),
            ),
            (PhaseView::CompressDiff(_), EventView::Compressed(bytes)) => self.with_report(
                ArtifactStatus::Bad,
                None,
                Some(bytes),
            ),
            _ => self,
        }
    }
}

/// Copies a list of artifacts.
fn copy_artifacts(artifacts: &Vec<QueuedJobArtifact>) -> (copy: Vec<QueuedJobArtifact>)
    ensures
        copy.deep_view() == artifacts.deep_view(),
{
    let mut copy: Vec<QueuedJobArtifact> = Vec::new();
    let mut i: usize = 0;
    while i < artifacts.len()
        invariant
            i <= artifacts@.len(),
            copy@.len() == i,
            forall|j: int| 0 <= j < i ==> #[trigger] copy@[j].deep_view() == artifacts@[j].deep_view(),
        decreases artifacts@.len() - i,
    {
        copy.push(
            QueuedJobArtifact { name: artifacts[i].name.clone(), url: artifacts[i].url.clone() },
        );
        i += 1;
    }
    assert(copy.deep_view() =~= artifacts.deep_view());
    copy
}

/// Copies the bytes of a string.
fn utf8_bytes(s: &String) -> (bytes: Vec<u8>)
    ensures
        bytes@ == vstd::utf8::encode_utf8(s@),
{
    slice_to_vec(s.as_str().as_bytes())
}

impl Rebuild {
    /// Begins the rebuild that `ctx` asks for.
    ///
    /// Without a url of its own, the first artifact is the build input; it fails
    /// if there is none.
    pub fn new(ctx: &Context) -> (rebuild: Result<Rebuild, RebuildError>)
        ensures
            match rebuild {
                Ok(rebuild) => {
                    &&& rebuild@ == RebuildView::start(*ctx)
                    &&& rebuild@.wf()
                    &&& ctx.artifacts@.len() > 0 || ctx.input_url is Some
                },
                Err(err) => {
                    &&& err is NoBuildInput
                    &&& ctx.artifacts@.len() == 0 && ctx.input_url is None
                },
            },
    {
        let phase = if ctx.artifacts.len() > 0 {
            Phase::Artifacts
        } else if ctx.input_url.is_some() {
            Phase::Input
        } else {
            return Err(RebuildError::NoBuildInput);
        };
        let rebuild = Rebuild {
            artifacts: copy_artifacts(&ctx.artifacts),
            input_url: match &ctx.input_url {
                Some(url) => Some(url.clone()),
                None => None,
            },
            diffoscope: ctx.diffoscope.enabled,
            filenames: Vec::new(),
            input: None,
            reports: Vec::new(),
            phase,
        };
        assert(rebuild@ =~= RebuildView::start(*ctx));
        Ok(rebuild)
    }

    /// What has to be done next.
    pub fn action(&self) -> (action: Action)
        requires
            self@.wf(),
        ensures
            action.deep_view() == self@.action(),
    {
        match &self.phase {
            Phase::Artifacts => Action::DownloadArtifact(
                self.artifacts[self.filenames.len()].url.clone(),
            ),
            Phase::Input => match &self.input_url {
                Some(url) => Action::DownloadInput(url.clone()),
                None => Action::Done,
            },
            Phase::Build => match &self.input {
                Some(input) => Action::Build(input.clone()),
                None => Action::Done,
            },
            Phase::Find => Action::FindOutput(self.filenames[self.reports.len()].clone()),
            Phase::Compare => Action::Compare(self.filenames[self.reports.len()].clone()),
            Phase::Attest => match &self.input {
                Some(input) => Action::Attest(
                    self.filenames[self.reports.len()].clone(),
                    input.clone(),
                ),
                None => Action::Done,
            },
            Phase::CompressAttestation(bytes) => Action::Compress(slice_to_vec(bytes.as_slice())),
            Phase::Diff => Action::Diff(self.filenames[self.reports.len()].clone()),
            Phase::CompressDiff(bytes) => Action::Compress(slice_to_vec(bytes.as_slice())),
            Phase::Done => Action::Done,
        }
    }

    /// What it means for the rebuild if its action fails, where the failure does
    /// not speak for itself.
    pub fn failure_context(&self) -> (err: Option<RebuildError>)
        requires
            self@.wf(),
        ensures
            match self@.action() {
                ActionView::DownloadArtifact(url) => err matches Some(
                    RebuildError::DownloadArtifact(u),
                ) && u@ == url,
                ActionView::DownloadInput(url) => err matches Some(RebuildError::DownloadInput(u))
                    && u@ == url,
                ActionView::Diff(_) => err == Some(RebuildError::Diffoscope),
                _ => err is None,
            },
    {
        match self.action() {
            Action::DownloadArtifact(url) => Some(RebuildError::DownloadArtifact(url)),
            Action::DownloadInput(url) => Some(RebuildError::DownloadInput(url)),
            Action::Diff(_) => Some(RebuildError::Diffoscope),
            _ => None,
        }
    }

    /// Adds a report on the artifact that is looked at and turns to the next one.
    fn push_report(
        &mut self,
        status: ArtifactStatus,
        attestation: Option<Vec<u8>>,
        diffoscope: Option<Vec<u8>>,
    )
        requires
            old(self)@.reports.len() < old(self)@.artifacts.len(),
        ensures
            final(self)@ == old(self)@.with_report(
                status,
                crate::report::optional_bytes(attestation),
                crate::report::optional_bytes(diffoscope),
            ),
    {
        let name = self.artifacts[self.reports.len()].name.clone();
        self.reports.push(RebuildArtifactReport { name, diffoscope, attestation, status });
        self.phase = if self.reports.len() < self.artifacts.len() {
            Phase::Find
        } else {
            Phase::Done
        };
        assert(self@ =~= old(self)@.with_report(
            status,
            crate::report::optional_bytes(attestation),
            crate::report::optional_bytes(diffoscope),
        ));
    }

    /// Goes on with what came of the last action.
    pub fn advance(&mut self, event: Event)
        requires
            old(self)@.wf(),
            old(self)@.accepts(event.deep_view()),
        ensures
            final(self)@ == old(self)@.step(event.deep_view()),
            final(self)@.wf(),
    {
        proof {
            lemma_step_keeps_wf(self@, event.deep_view());
        }
        let ghost before = self@;
        let ghost event_view = event.deep_view();
        match event {
            Event::Downloaded(filename) => {
                if self.input.is_none() && self.filenames.len() < self.artifacts.len() {
                    self.filenames.push(filename);
                    assert(self@.filenames =~= before.filenames.push(filename@));
                    if self.filenames.len() == self.artifacts.len() {
                        if self.input_url.is_some() {
                            self.phase = Phase::Input;
                        } else {
                            self.input = Some(self.filenames[0].clone());
                            self.phase = Phase::Build;
                        }
                    }
                } else {
                    self.input = Some(filename);
                    self.phase = Phase::Build;
                }
            },
            Event::Built => {
                self.phase = if self.artifacts.len() > 0 {
                    Phase::Find
                } else {
                    Phase::Done
                };
            },
            Event::Found(found) => {
                if found {
                    self.phase = Phase::Compare;
                } else {
                    self.push_report(ArtifactStatus::Bad, None, None);
                }
            },
            Event::Compared(identical) => {
                if identical {
                    self.phase = Phase::Attest;
                } else if self.diffoscope {
                    // generate diffoscope diff if enabled
                    self.phase = Phase::Diff;
                } else {
                    self.push_report(ArtifactStatus::Bad, None, None);
                }
            },
            Event::Attested(link) => {
                match link {
                    Some(json) => {
                        self.phase = Phase::CompressAttestation(utf8_bytes(&json));
                    },
                    None => {
                        self.push_report(ArtifactStatus::Good, None, None);
                    },
                }
            },
            Event::Diffed(text) => {
                self.phase = Phase::CompressDiff(utf8_bytes(&text));
            },
            Event::Compressed(bytes) => {
                let attested = match self.phase {
                    Phase::CompressAttestation(_) => true,
                    _ => false,
                };
                if attested {
                    self.push_report(ArtifactStatus::Good, Some(bytes), None);
                } else {
                    self.push_report(ArtifactStatus::Bad, None, Some(bytes));
                }
            },
        }
        assert(self@ =~= before.step(event_view));
    }

    /// The reports on all artifacts, in the order in which they were asked for.
    pub fn into_reports(self) -> (reports: Vec<RebuildArtifactReport>)
        requires
            self@.wf(),
            self@.phase is Done,
        ensures
            reports.deep_view() == self@.reports,
            reports@.len() == self@.reports.len(),
            forall|i: int|
                0 <= i < reports@.len() ==> {
                    let report = #[trigger] reports@[i];
                    let found = self@.reports[i];
                    &&& report.name@ == found.name
                    &&& report.status == found.status
                    &&& match report.diffoscope {
                        Some(bytes) => found.diffoscope == Some(bytes@),
                        None => found.diffoscope is None,
                    }
                    &&& match report.attestation {
                        Some(bytes) => found.attestation == Some(bytes@),
                        None => found.attestation is None,
                    }
                },
    {
        assert forall|i: int| 0 <= i < self.reports@.len() implies self@.reports[i]
            == (#[trigger] self.reports@[i]).deep_view() by {}
        self.reports
    }
}

/// Whatever comes of its action, a rebuild stays well formed.
pub(crate) proof fn lemma_step_keeps_wf(r: RebuildView, event: EventView)
    requires
        r.wf(),
        r.accepts(event),
    ensures
        r.step(event).wf(),
{
}

/// Whether `log` can be what came of the actions of `r`, one after the other.
pub open spec fn is_run(r: RebuildView, log: Seq<EventView>) -> bool
    decreases log.len(),
{
    log.len() > 0 ==> r.accepts(log[0]) && is_run(r.step(log[0]), log.drop_first())
}

/// The rebuild `r` after `log` came of its actions, one after the other.
pub open spec fn after_run(r: RebuildView, log: Seq<EventView>) -> RebuildView
    decreases log.len(),
{
    if log.len() == 0 {
        r
    } else {
        after_run(r.step(log[0]), log.drop_first())
    }
}

/// What was found out about an artifact.
pub ghost struct Findings {
    /// Whether the build has an output artifact for it.
    pub found: bool,
    /// Whether the output artifact is identical to it.
    pub identical: bool,
    /// The compressed attestation for it, if one could be signed.
    pub attestation: Option<Seq<u8>>,
    /// The compressed explanation of how it differs, if one was asked for.
    pub explanation: Option<Seq<u8>>,
    /// How many actions it took to find this out.
    pub actions: int,
}

/// What the first events of `log` say about the artifact that is looked at.
pub open spec fn findings(diffoscope: bool, log: Seq<EventView>) -> Findings {
    if !log[0]->Found_0 {
        Findings {
            found: false,
            identical: false,
            attestation: None,
            explanation: None,
            actions: 1,
        }
    } else if log[1]->Compared_0 {
        let signed = log[2]->Attested_0 is Some;
        Findings {
            found: true,
            identical: true,
            attestation: if signed {
                Some(log[3]->Compressed_0)
            } else {
                None
            },
            explanation: None,
            actions: if signed {
                4
            } else {
                3
            },
        }
    } else {
        Findings {
            found: true,
            identical: false,
            attestation: None,
            explanation: if diffoscope {
                Some(log[3]->Compressed_0)
            } else {
                None
            },
            actions: if diffoscope {
                4
            } else {
                2
            },
        }
    }
}

/// The report that follows from what was found out about an artifact: it is
/// good if and only if there is an output artifact that is identical to it.
pub open spec fn report_of(name: Seq<char>, f: Findings) -> crate::report::RebuildArtifactView {
    report(
        name,
        if f.found && f.identical {
            ArtifactStatus::Good
        } else {
            ArtifactStatus::Bad
        },
        f.attestation,
        f.explanation,
    )
}

/// The reports on `artifacts`, in their order, where `log` tells about them one
/// after the other.
pub open spec fn reports_of(
    artifacts: Seq<crate::report::QueuedJobArtifactView>,
    diffoscope: bool,
    log: Seq<EventView>,
) -> Seq<crate::report::RebuildArtifactView>
    decreases artifacts.len(),
{
    if artifacts.len() == 0 {
        Seq::empty()
    } else {
        let f = findings(diffoscope, log);
        seq![report_of(artifacts[0].name, f)] + reports_of(
            artifacts.drop_first(),
            diffoscope,
            log.skip(f.actions),
        )
    }
}

/// How many actions come before the first artifact is looked at: the downloads
/// and the build.
pub open spec fn preparations(r: RebuildView) -> int {
    r.artifacts.len() + if r.input_url is Some {
        2
    } else {
        1int
    }
}

/// An upper bound on the number of actions that `r` still needs.
pub open spec fn actions_left(r: RebuildView) -> int {
    let artifacts = 4 * (r.artifacts.len() - r.reports.len());
    match r.phase {
        PhaseView::Artifacts => artifacts + 2 + r.artifacts.len() - r.filenames.len(),
        PhaseView::Input => artifacts + 2,
        PhaseView::Build => artifacts + 1,
        PhaseView::Find => artifacts,
        PhaseView::Compare => artifacts - 1,
        PhaseView::Attest | PhaseView::Diff => artifacts - 2,
        PhaseView::CompressAttestation(_) | PhaseView::CompressDiff(_) => artifacts - 3,
        PhaseView::Done => 0,
    }
}

/// A run of a rebuild that is not complete begins with an event.
proof fn lemma_unroll(r: RebuildView, log: Seq<EventView>)
    requires
        r.wf(),
        is_run(r, log),
        after_run(r, log).phase is Done,
        !(r.phase is Done),
    ensures
        log.len() > 0,
        r.accepts(log[0]),
        r.step(log[0]).wf(),
        is_run(r.step(log[0]), log.skip(1)),
        after_run(r.step(log[0]), log.skip(1)) == after_run(r, log),
{
    assert(log.skip(1) =~= log.drop_first());
}

/// The events of a complete run tell about one artifact after the other.
proof fn lemma_artifacts(r: RebuildView, log: Seq<EventView>)
    requires
        r.wf(),
        r.phase is Find || r.phase is Done,
        is_run(r, log),
        after_run(r, log).phase is Done,
    ensures
        after_run(r, log).reports == r.reports + reports_of(
            r.artifacts.skip(r.reports.len() as int),
            r.diffoscope,
            log,
        ),
        after_run(r, log).filenames == r.filenames,
        after_run(r, log).input == r.input,
    decreases log.len(),
{
    let left = r.artifacts.skip(r.reports.len() as int);
    if r.phase is Done {
        assert(log.len() == 0);
        assert(r.reports + reports_of(left, r.diffoscope, log) =~= r.reports);
    } else {
        let f = findings(r.diffoscope, log);
        lemma_unroll(r, log);
        let r1 = r.step(log[0]);
        if f.found {
            lemma_unroll(r1, log.skip(1));
            let r2 = r1.step(log[1]);
            assert(log.skip(1).skip(1) =~= log.skip(2));
            if f.actions > 2 {
                lemma_unroll(r2, log.skip(2));
                let r3 = r2.step(log[2]);
                assert(log.skip(2).skip(1) =~= log.skip(3));
                if f.actions > 3 {
                    lemma_unroll(r3, log.skip(3));
                    assert(log.skip(3).skip(1) =~= log.skip(4));
                }
            }
        }
        let rest = log.skip(f.actions);
        let next = RebuildView {
            reports: r.reports.push(report_of(left[0].name, f)),
            ..r
        }.next_artifact();
        assert(is_run(next, rest) && after_run(next, rest) == after_run(r, log) && next.wf());
        lemma_artifacts(next, rest);
        assert(left.drop_first() =~= r.artifacts.skip(next.reports.len() as int));
        assert(r.reports + reports_of(left, r.diffoscope, log) =~= next.reports + reports_of(
            left.drop_first(),
            r.diffoscope,
            rest,
        ));
    }
}

/// The events of a complete run tell about the downloads first.
proof fn lemma_downloads(r: RebuildView, log: Seq<EventView>)
    requires
        r.wf(),
        r.phase is Artifacts,
        is_run(r, log),
        after_run(r, log).phase is Done,
    ensures
        ({
            let n = r.artifacts.len() - r.filenames.len();
            let done = RebuildView {
                filenames: r.filenames + Seq::new(n as nat, |i: int| log[i]->Downloaded_0),
                ..r
            };
            let next = if r.input_url is Some {
                done.wait_for(PhaseView::Input)
            } else {
                done.build_with(done.filenames[0])
            };
            &&& log.len() >= n
            &&& next.wf()
            &&& is_run(next, log.skip(n))
            &&& after_run(next, log.skip(n)) == after_run(r, log)
        }),
    decreases log.len(),
{
    lemma_unroll(r, log);
    let n = r.artifacts.len() - r.filenames.len();
    let names = Seq::new(n as nat, |i: int| log[i]->Downloaded_0);
    let r1 = r.step(log[0]);
    let rest = log.skip(1);
    if n == 1 {
        assert(r.filenames.push(log[0]->Downloaded_0) =~= r.filenames + names);
    } else {
        lemma_downloads(r1, rest);
        let names1 = Seq::new((n - 1) as nat, |i: int| rest[i]->Downloaded_0);
        assert(r1.filenames + names1 =~= r.filenames + names);
        assert(rest.skip(n - 1) =~= log.skip(n));
    }
}

/// A rebuild that runs to its end has downloaded every artifact and the build
/// input, which is the first artifact where no url was given, and its reports
/// say of each artifact, in the order of the artifacts, what was found out.
pub proof fn law_complete_rebuild_reports_findings(ctx: Context, log: Seq<EventView>)
    requires
        ctx.artifacts.deep_view().len() > 0 || ctx.input_url is Some,
        is_run(RebuildView::start(ctx), log),
        after_run(RebuildView::start(ctx), log).phase is Done,
    ensures
        ({
            let start = RebuildView::start(ctx);
            let done = after_run(start, log);
            let n = start.artifacts.len() as int;
            &&& log.len() >= preparations(start)
            &&& done.filenames == Seq::new(n as nat, |i: int| log[i]->Downloaded_0)
            &&& done.input == Some(
                if start.input_url is Some {
                    log[n]->Downloaded_0
                } else {
                    log[0]->Downloaded_0
                },
            )
            &&& done.reports == reports_of(
                start.artifacts,
                start.diffoscope,
                log.skip(preparations(start)),
            )
        }),
{
    let start = RebuildView::start(ctx);
    let n = start.artifacts.len() as int;
    let names = Seq::new(n as nat, |i: int| log[i]->Downloaded_0);
    let done = RebuildView { filenames: names, ..start };
    let next = if start.input_url is Some {
        done.wait_for(PhaseView::Input)
    } else {
        done.build_with(names[0])
    };
    assert(start.wf());
    assert(next.wf() && is_run(next, log.skip(n)) && after_run(next, log.skip(n)) == after_run(
        start,
        log,
    ) && log.len() >= n) by {
        if n > 0 {
            lemma_downloads(start, log);
            assert(Seq::<Seq<char>>::empty() + names =~= names);
        } else {
            assert(names =~= Seq::<Seq<char>>::empty());
            assert(log.skip(0) =~= log);
        }
    }
    lemma_unroll(next, log.skip(n));
    let built = if start.input_url is Some {
        let r1 = next.step(log[n]);
        assert(log.skip(n).skip(1) =~= log.skip(n + 1));
        lemma_unroll(r1, log.skip(n + 1));
        assert(log.skip(n + 1).skip(1) =~= log.skip(n + 2));
        r1.step(log[n + 1])
    } else {
        assert(log.skip(n).skip(1) =~= log.skip(n + 1));
        next.step(log[n])
    };
    lemma_artifacts(built, log.skip(preparations(start)));
    assert(built.artifacts.skip(0) =~= start.artifacts);
    assert(after_run(start, log).reports =~= reports_of(
        start.artifacts,
        start.diffoscope,
        log.skip(preparations(start)),
    ));
}

/// As long as there are artifacts to download, a rebuild keeps the names under
/// which the others were stored.
proof fn lemma_first_downloads(r: RebuildView, log: Seq<EventView>)
    requires
        r.wf(),
        r.phase is Artifacts,
        is_run(r, log),
        log.len() < r.artifacts.len() - r.filenames.len(),
    ensures
        after_run(r, log) == (RebuildView {
            filenames: r.filenames + Seq::new(log.len(), |i: int| log[i]->Downloaded_0),
            ..r
        }),
    decreases log.len(),
{
    let names = Seq::new(log.len(), |i: int| log[i]->Downloaded_0);
    if log.len() == 0 {
        assert(r.filenames + names =~= r.filenames);
    } else {
        let rest = log.drop_first();
        let r1 = r.step(log[0]);
        lemma_first_downloads(r1, rest);
        assert(r1.filenames + Seq::new(rest.len(), |i: int| rest[i]->Downloaded_0)
            =~= r.filenames + names);
    }
}

/// A run can be cut in front of its last event.
pub(crate) proof fn lemma_last(r: RebuildView, log: Seq<EventView>)
    requires
        is_run(r, log),
        log.len() > 0,
    ensures
        is_run(r, log.drop_last()),
        after_run(r, log.drop_last()).accepts(log.last()),
        after_run(r, log) == after_run(r, log.drop_last()).step(log.last()),
    decreases log.len(),
{
    if log.len() > 1 {
        lemma_last(r.step(log[0]), log.drop_first());
        assert(log.drop_first().drop_last() =~= log.drop_last().drop_first());
    } else {
        reveal_with_fuel(is_run, 2);
        reveal_with_fuel(after_run, 2);
    }
}

/// A rebuild first asks for the downloads of all artifacts, in their order, then
/// for that of the build input if it has a url of its own, and then for a build
/// from that input or else from the first artifact.
pub proof fn law_rebuild_prepares_in_order(ctx: Context, log: Seq<EventView>)
    requires
        ctx.artifacts.deep_view().len() > 0 || ctx.input_url is Some,
        is_run(RebuildView::start(ctx), log),
    ensures
        ({
            let start = RebuildView::start(ctx);
            let action = after_run(start, log).action();
            let n = start.artifacts.len();
            &&& log.len() < n ==> action == ActionView::DownloadArtifact(
                start.artifacts[log.len() as int].url,
            )
            &&& start.input_url is Some && log.len() == n ==> action == ActionView::DownloadInput(
                start.input_url->0,
            )
            &&& log.len() == preparations(start) - 1 ==> action == ActionView::Build(
                if start.input_url is Some {
                    log[n as int]->Downloaded_0
                } else {
                    log[0]->Downloaded_0
                },
            )
        }),
{
    let start = RebuildView::start(ctx);
    let n = start.artifacts.len();
    if log.len() < n {
        lemma_first_downloads(start, log);
    } else if log.len() == n {
        if n > 0 {
            lemma_last(start, log);
            lemma_first_downloads(start, log.drop_last());
        }
    } else if log.len() == n + 1 && start.input_url is Some {
        lemma_last(start, log);
        let before = log.drop_last();
        if n > 0 {
            lemma_last(start, before);
            lemma_first_downloads(start, before.drop_last());
        }
    }
}

/// An artifact is looked for, compared, and then attested with the build input or
/// explained, under the name it was stored under. What is compressed is the text
/// of the link or of the explanation.
pub proof fn law_artifact_is_examined_in_order(r: RebuildView, json: Seq<char>, text: Seq<char>)
    requires
        r.wf(),
        r.phase is Find,
    ensures
        ({
            let found = r.step(EventView::Found(true));
            let identical = found.step(EventView::Compared(true));
            let different = found.step(EventView::Compared(false));
            let signed = identical.step(EventView::Attested(Some(json)));
            let explained = different.step(EventView::Diffed(text));
            &&& r.action() == ActionView::FindOutput(r.filename())
            &&& found.action() == ActionView::Compare(r.filename())
            &&& identical.action() == ActionView::Attest(r.filename(), r.input->0)
            &&& signed.action() == ActionView::Compress(vstd::utf8::encode_utf8(json))
            &&& if r.diffoscope {
                &&& different.action() == ActionView::Diff(r.filename())
                &&& explained.action() == ActionView::Compress(vstd::utf8::encode_utf8(text))
            } else {
                different.reports.len() == r.reports.len() + 1
            }
        }),
{
}

proof fn lemma_actions_left(r: RebuildView, log: Seq<EventView>)
    requires
        r.wf(),
        is_run(r, log),
    ensures
        after_run(r, log).wf(),
        log.len() + actions_left(after_run(r, log)) <= actions_left(r),
        actions_left(after_run(r, log)) >= 0,
    decreases log.len(),
{
    if log.len() > 0 {
        lemma_actions_left(r.step(log[0]), log.drop_first());
    }
}

/// A rebuild comes to an end: whatever comes of its actions, it needs at most
/// two of them and five for every artifact, and it is well formed all the way.
pub proof fn law_rebuild_finishes(ctx: Context, log: Seq<EventView>)
    requires
        ctx.artifacts.deep_view().len() > 0 || ctx.input_url is Some,
        is_run(RebuildView::start(ctx), log),
    ensures
        log.len() <= 5 * ctx.artifacts.deep_view().len() + 2,
        after_run(RebuildView::start(ctx), log).wf(),
{
    lemma_actions_left(RebuildView::start(ctx), log);
}

/// A rebuild is never stuck: as long as it is not complete, there is an event
/// that can come of its action.
pub proof fn law_rebuild_goes_on(r: RebuildView)
    requires
        r.wf(),
        !(r.phase is Done),
    ensures
        exists|event: EventView| #[trigger] r.accepts(event) && r.step(event).wf(),
{
    let event = match r.phase {
        PhaseView::Artifacts | PhaseView::Input => EventView::Downloaded(Seq::empty()),
        PhaseView::Build => EventView::Built,
        PhaseView::Find => EventView::Found(false),
        PhaseView::Compare => EventView::Compared(true),
        PhaseView::Attest => EventView::Attested(None),
        PhaseView::Diff => EventView::Diffed(Seq::empty()),
        _ => EventView::Compressed(Seq::empty()),
    };
    assert(r.accepts(event));
    lemma_step_keeps_wf(r, event);
}

} // verus!
