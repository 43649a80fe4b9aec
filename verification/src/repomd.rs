//! The packages of a repository index.

use vstd::prelude::*;

verus! {

/// The version of a package.
#[derive(Clone, Debug, PartialEq, Eq)]
pub struct PackageVersion {
    pub ver: String,
    pub rel: String,
}

/// Where a package is, seen from its repository.
#[derive(Clone, Debug, PartialEq, Eq)]
pub struct PackageLocation {
    pub href: String,
}

/// What is only said of rpms.
#[derive(Clone, Debug, PartialEq, Eq)]
pub struct PackageFormat {
    pub sourcerpm: String,
}

/// A binary package of a repository.
#[derive(Clone, Debug, PartialEq, Eq)]
pub struct PackagesXmlItem {
    pub name: String,
    pub arch: String,
    pub version: PackageVersion,
    pub packager: String,
    pub location: PackageLocation,
    pub format: PackageFormat,
}

/// A [`PackagesXmlItem`] as a mathematical value.
#[verifier::ext_equal]
pub ghost struct PackageItemView {
    pub name: Seq<char>,
    pub arch: Seq<char>,
    pub ver: Seq<char>,
    pub rel: Seq<char>,
    pub packager: Seq<char>,
    pub href: Seq<char>,
    pub sourcerpm: Seq<char>,
}

impl DeepView for PackagesXmlItem {
    type V = PackageItemView;

    open spec fn deep_view(&self) -> PackageItemView {
        PackageItemView {
            name: self.name@,
            arch: self.arch@,
            ver: self.version.ver@,
            rel: self.version.rel@,
            packager: self.packager@,
            href: self.location.href@,
            sourcerpm: self.format.sourcerpm@,
        }
    }
}

/// A package of an index is seen as it is.
pub proof fn law_package_item_is_seen_as_it_is(pkg: PackagesXmlItem)
    ensures
        pkg.deep_view().name == pkg.name@,
        pkg.deep_view().arch == pkg.arch@,
        pkg.deep_view().ver == pkg.version.ver@,
        pkg.deep_view().rel == pkg.version.rel@,
        pkg.deep_view().packager == pkg.packager@,
        pkg.deep_view().href == pkg.location.href@,
        pkg.deep_view().sourcerpm == pkg.format.sourcerpm@,
{
}

} // verus!
