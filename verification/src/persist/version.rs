//! The versions of the code that wrote a state.

use vstd::prelude::*;

use crate::persist::error::{result_view, TryFromProtoError, TryFromProtoErrorView};
use crate::text::{decimal, is_empty_text};

verus! {

/// A semantic version.
#[derive(Debug, PartialEq, Eq)]
pub struct Version {
    major: u64,
    minor: u64,
    patch: u64,
    pre: String,
    build: String,
}

/// The parts of a [`Version`].
#[verifier::ext_equal]
pub struct VersionView {
    pub major: u64,
    pub minor: u64,
    pub patch: u64,
    /// The pre-release identifier, or nothing.
    pub pre: Seq<char>,
    /// The build metadata, or nothing.
    pub build: Seq<char>,
}

impl View for Version {
    type V = VersionView;

    closed spec fn view(&self) -> VersionView {
        VersionView {
            major: self.major,
            minor: self.minor,
            patch: self.patch,
            pre: self.pre@,
            build: self.build@,
        }
    }
}

/// A version that has three numbers and nothing else.
pub open spec fn plain_version(major: u64, minor: u64, patch: u64) -> VersionView {
    VersionView { major, minor, patch, pre: Seq::empty(), build: Seq::empty() }
}

/// What `semver` reads a text as: the parts of a version, or the error in words.
pub uninterp spec fn semver_parsed(text: Seq<char>) -> Result<VersionView, Seq<char>>;

/// Whether a text was read as the given version.
pub open spec fn is_version(parsed: Result<VersionView, Seq<char>>, version: VersionView) -> bool {
    parsed matches Ok(read) && read == version
}

/// Whether `semver` has such a version: one without pre-release identifier and build metadata, or
/// one that it reads from some text.
pub open spec fn semver_has(version: VersionView) -> bool {
    version == plain_version(version.major, version.minor, version.patch) || exists|text: Seq<char>|
        is_version(#[trigger] semver_parsed(text), version)
}

/// A version as text.
pub open spec fn version_text(version: VersionView) -> Seq<char> {
    decimal(version.major as nat) + "."@ + decimal(version.minor as nat) + "."@ + decimal(
        version.patch as nat,
    ) + (if version.pre.len() == 0 {
        Seq::empty()
    } else {
        "-"@ + version.pre
    }) + (if version.build.len() == 0 {
        Seq::empty()
    } else {
        "+"@ + version.build
    })
}

/// Whether `semver` orders the first version before the second.
pub uninterp spec fn semver_less(a: VersionView, b: VersionView) -> bool;

/// Whether the numbers of the first version come before those of the second.
pub open spec fn numbers_less(a: VersionView, b: VersionView) -> bool {
    a.major < b.major || a.major == b.major && (a.minor < b.minor || a.minor == b.minor && a.patch
        < b.patch)
}

/// Whether an answer agrees with the numbers of two versions: they decide, unless they are the
/// same.
pub open spec fn agrees_with_numbers(less: bool, a: VersionView, b: VersionView) -> bool {
    &&& numbers_less(a, b) ==> less
    &&& numbers_less(b, a) ==> !less
    &&& a == b ==> !less
}

/// The version of the code that wrote a message. A message without one is older than any.
pub open spec fn applier_version_of(proto: Seq<char>) -> Result<
    VersionView,
    TryFromProtoErrorView,
> {
    if proto.len() == 0 {
        Ok(plain_version(0, 0, 0))
    } else {
        match semver_parsed(proto) {
            Ok(version) => Ok(version),
            Err(err) => Err(
                TryFromProtoErrorView::InvalidSemverVersion(
                    "invalid applier_version "@ + proto + ": "@ + err,
                ),
            ),
        }
    }
}

/// Calls `semver::Version::parse`. What it returns depends on the text alone.
#[verifier::external_body]
fn parse_semver(text: &str) -> (r: Result<(u64, u64, u64, String, String), String>)
    ensures
        match r {
            Ok(parts) => is_version(
                semver_parsed(text@),
                (VersionView {
                    major: parts.0,
                    minor: parts.1,
                    patch: parts.2,
                    pre: parts.3@,
                    build: parts.4@,
                }),
            ),
            Err(message) => semver_parsed(text@) matches Err(err) && err == message@,
        },
{
    match semver::Version::parse(text) {
        Ok(v) => Ok((v.major, v.minor, v.patch, v.pre.to_string(), v.build.to_string())),
        Err(err) => Err(err.to_string()),
    }
}

/// Calls the `Display` implementation of `semver::Version`. `semver` reads what it writes as the
/// same version.
#[verifier::external_body]
fn write_semver(version: &Version) -> (text: String)
    requires
        semver_has(version@),
    ensures
        text@ == version_text(version@),
        is_version(semver_parsed(text@), version@),
{
    semver::Version {
        major: version.major,
        minor: version.minor,
        patch: version.patch,
        pre: semver::Prerelease::new(&version.pre).unwrap(),
        build: semver::BuildMetadata::new(&version.build).unwrap(),
    }.to_string()
}

/// Calls the `PartialOrd` implementation of `semver::Version`. What it returns depends on the two
/// versions alone: on their numbers first, in order.
#[verifier::external_body]
fn less_semver(a: &Version, b: &Version) -> (less: bool)
    requires
        semver_has(a@),
        semver_has(b@),
    ensures
        less == semver_less(a@, b@),
        agrees_with_numbers(less, a@, b@),
{
    let a = semver::Version {
        major: a.major,
        minor: a.minor,
        patch: a.patch,
        pre: semver::Prerelease::new(&a.pre).unwrap(),
        build: semver::BuildMetadata::new(&a.build).unwrap(),
    };
    let b = semver::Version {
        major: b.major,
        minor: b.minor,
        patch: b.patch,
        pre: semver::Prerelease::new(&b.pre).unwrap(),
        build: semver::BuildMetadata::new(&b.build).unwrap(),
    };
    a < b
}

impl Version {
    #[verifier::type_invariant]
    spec fn known(self) -> bool {
        semver_has(self@)
    }

    /// The version with three numbers and nothing else.
    pub fn new(major: u64, minor: u64, patch: u64) -> (version: Version)
        ensures
            version@ == plain_version(major, minor, patch),
    {
        let pre: String = String::new();
        let build: String = String::new();
        assert(pre@ =~= Seq::empty() && build@ =~= Seq::empty());
        Version { major, minor, patch, pre, build }
    }

    /// Reads a version from text.
    pub fn parse(text: &str) -> (r: Result<Version, String>)
        ensures
            match r {
                Ok(version) => is_version(semver_parsed(text@), version@),
                Err(message) => semver_parsed(text@) matches Err(err) && err == message@,
            },
    {
        match parse_semver(text) {
            Ok((major, minor, patch, pre, build)) => {
                Ok(Version { major, minor, patch, pre, build })
            },
            Err(message) => Err(message),
        }
    }

    /// The version as text. It is read as the same version.
    pub fn to_string(&self) -> (text: String)
        ensures
            text@ == version_text(self@),
            is_version(semver_parsed(text@), self@),
            text@.len() > 0,
    {
        proof {
            use_type_invariant(self);
            reveal_strlit(".");
        }
        write_semver(self)
    }

    /// Whether this version comes before another.
    pub fn less(&self, other: &Version) -> (less: bool)
        ensures
            less == semver_less(self@, other@),
            agrees_with_numbers(less, self@, other@),
    {
        proof {
            use_type_invariant(self);
            use_type_invariant(other);
        }
        less_semver(self, other)
    }
}

impl Clone for Version {
    fn clone(&self) -> (copy: Version)
        ensures
            copy@ == self@,
    {
        proof {
            use_type_invariant(self);
        }
        Version {
            major: self.major,
            minor: self.minor,
            patch: self.patch,
            pre: self.pre.clone(),
            build: self.build.clone(),
        }
    }
}

/// Reads the version of the code that wrote a message.
pub fn read_applier_version(proto: &String) -> (r: Result<Version, TryFromProtoError>)
    ensures
        result_view(r) == applier_version_of(proto@),
{
    if is_empty_text(proto) {
        return Ok(Version::new(0, 0, 0));
    }
    match Version::parse(proto.as_str()) {
        Ok(version) => Ok(version),
        Err(err) => {
            let mut message: String = "invalid applier_version ".to_owned();
            message.append(proto.as_str());
            message.append(": ");
            message.append(err.as_str());
            Err(TryFromProtoError::InvalidSemverVersion(message))
        },
    }
}

/// What is said of a state that was written by later code.
pub open spec fn from_future(build_version: VersionView, applier_version: VersionView) -> Seq<
    char,
> {
    version_text(build_version) + " received persist state from the future "@ + version_text(
        applier_version,
    )
}

/// Checks that a state was not written by later code, which may have written what this code would
/// lose or misread. Returns what is wrong otherwise.
pub fn check_applier_version(build_version: &Version, applier_version: &Version) -> (r: Result<
    (),
    String,
>)
    ensures
        match r {
            Ok(()) => !semver_less(build_version@, applier_version@),
            Err(message) => semver_less(build_version@, applier_version@) && message@
                == from_future(build_version@, applier_version@),
        },
{
    if build_version.less(applier_version) {
        let mut message: String = build_version.to_string();
        message.append(" received persist state from the future ");
        message.append(applier_version.to_string().as_str());
        Err(message)
    } else {
        Ok(())
    }
}

} // verus!
