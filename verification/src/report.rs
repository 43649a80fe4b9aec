//! What is exchanged with the daemon.
//!
//! The `..View` types hold the same as mathematical values.

use vstd::prelude::*;

verus! {

/// A binary package that a source package is built into.
#[derive(Clone, Debug, PartialEq, Eq)]
pub struct BinaryPackageReport {
    pub name: String,
    pub version: String,
    pub architecture: String,
    pub url: String,
    pub component: Option<String>,
}

/// A source package, with the binary packages that are built from it.
#[derive(Clone, Debug, PartialEq, Eq)]
pub struct SourcePackageReport {
    pub name: String,
    pub version: String,
    pub url: String,
    pub artifacts: Vec<BinaryPackageReport>,
}

/// The source packages of one release, for one architecture.
#[derive(Clone, Debug, PartialEq, Eq)]
pub struct PackageReport {
    pub distribution: String,
    pub release: Option<String>,
    pub architecture: String,
    pub packages: Vec<SourcePackageReport>,
}

/// An artifact that a rebuild has to reproduce.
#[derive(Clone, Debug, PartialEq, Eq)]
pub struct QueuedJobArtifact {
    pub name: String,
    pub url: String,
}

/// Whether an artifact was reproduced.
#[derive(Clone, Copy, Debug, PartialEq, Eq, Structural)]
pub enum ArtifactStatus {
    Good,
    Bad,
}

/// What a rebuild found out about one artifact.
#[derive(Clone, Debug, PartialEq, Eq)]
pub struct RebuildArtifactReport {
    pub name: String,
    pub diffoscope: Option<Vec<u8>>,
    pub attestation: Option<Vec<u8>>,
    pub status: ArtifactStatus,
}

/// A [`BinaryPackageReport`] as a mathematical value.
#[verifier::ext_equal]
pub ghost struct BinaryPackageView {
    pub name: Seq<char>,
    pub version: Seq<char>,
    pub architecture: Seq<char>,
    pub url: Seq<char>,
    pub component: Option<Seq<char>>,
}

/// A [`SourcePackageReport`] as a mathematical value.
#[verifier::ext_equal]
pub ghost struct SourcePackageView {
    pub name: Seq<char>,
    pub version: Seq<char>,
    pub url: Seq<char>,
    pub artifacts: Seq<BinaryPackageView>,
}

/// A [`PackageReport`] as a mathematical value.
#[verifier::ext_equal]
pub ghost struct PackageReportView {
    pub distribution: Seq<char>,
    pub release: Option<Seq<char>>,
    pub architecture: Seq<char>,
    pub packages: Seq<SourcePackageView>,
}

/// A [`QueuedJobArtifact`] as a mathematical value.
#[verifier::ext_equal]
pub ghost struct QueuedJobArtifactView {
    pub name: Seq<char>,
    pub url: Seq<char>,
}

/// A [`RebuildArtifactReport`] as a mathematical value.
#[verifier::ext_equal]
pub ghost struct RebuildArtifactView {
    pub name: Seq<char>,
    pub diffoscope: Option<Seq<u8>>,
    pub attestation: Option<Seq<u8>>,
    pub status: ArtifactStatus,
}

/// The bytes of an optional buffer.
pub open spec fn optional_bytes(buf: Option<Vec<u8>>) -> Option<Seq<u8>> {
    match buf {
        Some(buf) => Some(buf@),
        None => None,
    }
}

impl DeepView for BinaryPackageReport {
    type V = BinaryPackageView;

    open spec fn deep_view(&self) -> BinaryPackageView {
        BinaryPackageView {
            name: self.name@,
            version: self.version@,
            architecture: self.architecture@,
            url: self.url@,
            component: self.component.deep_view(),
        }
    }
}

impl DeepView for SourcePackageReport {
    type V = SourcePackageView;

    open spec fn deep_view(&self) -> SourcePackageView {
        SourcePackageView {
            name: self.name@,
            version: self.version@,
            url: self.url@,
            artifacts: self.artifacts.deep_view(),
        }
    }
}

impl DeepView for PackageReport {
    type V = PackageReportView;

    open spec fn deep_view(&self) -> PackageReportView {
        PackageReportView {
            distribution: self.distribution@,
            release: self.release.deep_view(),
            architecture: self.architecture@,
            packages: self.packages.deep_view(),
        }
    }
}

impl DeepView for QueuedJobArtifact {
    type V = QueuedJobArtifactView;

    open spec fn deep_view(&self) -> QueuedJobArtifactView {
        QueuedJobArtifactView { name: self.name@, url: self.url@ }
    }
}

impl DeepView for RebuildArtifactReport {
    type V = RebuildArtifactView;

    open spec fn deep_view(&self) -> RebuildArtifactView {
        RebuildArtifactView {
            name: self.name@,
            diffoscope: optional_bytes(self.diffoscope),
            attestation: optional_bytes(self.attestation),
            status: self.status,
        }
    }
}

/// A report on an artifact is seen as it is.
pub proof fn law_rebuild_report_is_seen_as_it_is(report: RebuildArtifactReport)
    ensures
        report.deep_view().name == report.name@,
        report.deep_view().status == report.status,
        report.deep_view().diffoscope is Some <==> report.diffoscope is Some,
        report.diffoscope matches Some(bytes) ==> report.deep_view().diffoscope == Some(bytes@),
        report.deep_view().attestation is Some <==> report.attestation is Some,
        report.attestation matches Some(bytes) ==> report.deep_view().attestation == Some(bytes@),
{
}

/// A queued artifact is seen as it is.
pub proof fn law_queued_artifact_is_seen_as_it_is(artifact: QueuedJobArtifact)
    ensures
        artifact.deep_view().name == artifact.name@,
        artifact.deep_view().url == artifact.url@,
{
}

/// A binary package is seen as it is.
pub proof fn law_binary_package_is_seen_as_it_is(pkg: BinaryPackageReport)
    ensures
        pkg.deep_view().name == pkg.name@,
        pkg.deep_view().version == pkg.version@,
        pkg.deep_view().architecture == pkg.architecture@,
        pkg.deep_view().url == pkg.url@,
        pkg.deep_view().component is Some <==> pkg.component is Some,
        pkg.component matches Some(component) ==> pkg.deep_view().component == Some(component@),
{
}

/// A source package is seen as it is, with every artifact in its place.
pub proof fn law_source_package_is_seen_as_it_is(pkg: SourcePackageReport)
    ensures
        pkg.deep_view().name == pkg.name@,
        pkg.deep_view().version == pkg.version@,
        pkg.deep_view().url == pkg.url@,
        pkg.deep_view().artifacts.len() == pkg.artifacts@.len(),
        forall|i: int|
            0 <= i < pkg.artifacts@.len() ==> #[trigger] pkg.deep_view().artifacts[i]
                == pkg.artifacts@[i].deep_view(),
{
}

/// A report on a release is seen as it is, with every source package in its place.
pub proof fn law_package_report_is_seen_as_it_is(report: PackageReport)
    ensures
        report.deep_view().distribution == report.distribution@,
        report.deep_view().release is Some <==> report.release is Some,
        report.release matches Some(release) ==> report.deep_view().release == Some(release@),
        report.deep_view().architecture == report.architecture@,
        report.deep_view().packages.len() == report.packages@.len(),
        forall|i: int|
            0 <= i < report.packages@.len() ==> #[trigger] report.deep_view().packages[i]
                == report.packages@[i].deep_view(),
{
}

} // verus!
