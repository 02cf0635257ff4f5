//! Semantic versions, parsed and ordered by the `semver` crate.
use vstd::prelude::*;

verus! {

/// `semver::Version`, carried through the library without inspecting it.
#[verifier::external_type_specification]
#[verifier::external_body]
pub struct ExSemverVersion(semver::Version);

/// Whether `text` is a semantic version that `semver::Version::parse` accepts.
pub uninterp spec fn semver_valid(text: Seq<char>) -> bool;

/// Whether the version written `a` is lower than the version written `b` in
/// the order of `semver::Version` (major, minor, patch, pre-release, build).
pub uninterp spec fn semver_less(a: Seq<char>, b: Seq<char>) -> bool;

/// A semantic version together with the text it was parsed from.
pub struct SemanticVersion {
    text: String,
    version: semver::Version,
}

impl View for SemanticVersion {
    type V = Seq<char>;

    /// The text the version was parsed from.
    closed spec fn view(&self) -> Seq<char> {
        self.text@
    }
}

/// Parses a semantic version with `semver::Version::parse`. Trusted: it
/// succeeds exactly when `semver_valid` holds of the text, and the version
/// keeps the text it came from; the grammar of versions is not stated.
#[verifier::external_body]
pub(crate) fn parse_version(text: &str) -> (result: Option<SemanticVersion>)
    ensures
        result is Some == semver_valid(text@),
        result matches Some(v) ==> v@ == text@,
{
    semver::Version::parse(text).ok().map(|version| SemanticVersion { text: text.to_owned(), version })
}

/// Compares two versions with `<` on `semver::Version`. Trusted: the result
/// is `semver_less` of the texts the versions were parsed from; the order
/// itself (major, minor, patch, then pre-release and build rules) is not
/// stated.
#[verifier::external_body]
pub(crate) fn version_less(a: &SemanticVersion, b: &SemanticVersion) -> (result: bool)
    ensures
        result == semver_less(a@, b@),
{
    a.version < b.version
}

/// Builds `semver::Version::new(0, 0, 0)`. Trusted: the version is the
/// one the text `0.0.0` parses to, and it keeps that text.
#[verifier::external_body]
pub(crate) fn zero_version() -> (result: SemanticVersion)
    ensures
        result@ == "0.0.0"@,
{
    SemanticVersion { text: "0.0.0".to_owned(), version: semver::Version::new(0, 0, 0) }
}

impl SemanticVersion {
    /// Parses a semantic version; `None` when the text is not one.
    pub fn parse(text: &str) -> (result: Option<SemanticVersion>)
        ensures
            result is Some == semver_valid(text@),
            result matches Some(v) ==> v@ == text@,
    {
        parse_version(text)
    }

    /// Whether this version is lower than `other`.
    pub fn less_than(&self, other: &SemanticVersion) -> (result: bool)
        ensures
            result == semver_less(self@, other@),
    {
        version_less(self, other)
    }
}

} // verus!
