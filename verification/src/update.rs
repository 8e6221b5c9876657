//! Versions and release assets: which release is newer than this program,
//! and which asset of a release is the one for a platform.

use crate::text::{chars_of, push_chars, same_text};
use vstd::prelude::*;

verus! {

/// Returns the version of this program.
pub fn version() -> (r: &'static str)
    ensures
        r@ == "0.1.0"@,
{
    "0.1.0"
}

/// The text that `semver::Version` displays for the version that
/// `semver::Version::parse` reads from a text, if it accepts the text.
pub uninterp spec fn semver_text(s: Seq<char>) -> Option<Seq<char>>;

/// Whether `semver::Version::parse` accepts both texts and orders the
/// version of the first after that of the second.
pub uninterp spec fn semver_newer(a: Seq<char>, b: Seq<char>) -> bool;

/// Calls `semver::Version::parse` and `to_string` of the version read:
/// gives the version's text, or `None` where the parser rejects the text.
#[verifier::external_body]
fn parse_version(s: &str) -> (r: Option<String>)
    ensures
        match r {
            Some(t) => semver_text(s@) == Some(t@),
            None => semver_text(s@) is None,
        },
{
    match semver::Version::parse(s) {
        Ok(v) => Some(v.to_string()),
        Err(_) => None,
    }
}

/// Calls `semver::Version::parse` on both texts and compares the versions
/// with `>`; `false` where the parser rejects one of the texts.
#[verifier::external_body]
fn version_newer(a: &str, b: &str) -> (r: bool)
    ensures
        r == semver_newer(a@, b@),
{
    match (semver::Version::parse(a), semver::Version::parse(b)) {
        (Ok(x), Ok(y)) => x > y,
        _ => false,
    }
}

/// The number of `v` characters at the start of a text, from index `i` on.
pub open spec fn leading_vs(s: Seq<char>, i: int) -> int
    decreases s.len() - i,
{
    if i < 0 || i >= s.len() || s[i] != 'v' {
        0
    } else {
        1 + leading_vs(s, i + 1)
    }
}

/// A release tag without the `v` characters at its start.
pub open spec fn tag_version(tag: Seq<char>) -> Seq<char> {
    tag.skip(leading_vs(tag, 0))
}

/// Why a release could not be compared with this program.
#[derive(Debug, Clone, Copy, PartialEq, Eq, Structural)]
pub enum VersionError {
    /// The release's tag is no version.
    InvalidLatest,
    /// This program's version is no version.
    InvalidCurrent,
}

/// What the comparison of a release tag with a current version gives: an
/// error if one of them is no version; else the release's version if it is
/// newer than the current one, and nothing if it is not.
pub open spec fn newer_release(tag: Seq<char>, current: Seq<char>) -> Result<
    Option<Seq<char>>,
    VersionError,
> {
    match semver_text(tag_version(tag)) {
        None => Err(VersionError::InvalidLatest),
        Some(latest) => if semver_text(current) is None {
            Err(VersionError::InvalidCurrent)
        } else if semver_newer(tag_version(tag), current) {
            Ok(Some(latest))
        } else {
            Ok(None)
        },
    }
}

/// Says whether a release is newer than the current version, and gives its
/// version if it is. The tag of a release may start with `v`.
pub fn newer_version(tag_name: &str, current: &str) -> (r: Result<Option<String>, VersionError>)
    ensures
        match r {
            Ok(Some(v)) => newer_release(tag_name@, current@) == Ok::<
                Option<Seq<char>>,
                VersionError,
            >(Some(v@)),
            Ok(None) => newer_release(tag_name@, current@) == Ok::<
                Option<Seq<char>>,
                VersionError,
            >(None),
            Err(e) => newer_release(tag_name@, current@) == Err::<
                Option<Seq<char>>,
                VersionError,
            >(e),
        },
{
    let chars = chars_of(tag_name);
    let mut i: usize = 0;
    while i < chars.len() && chars[i] == 'v'
        invariant
            i <= chars.len(),
            leading_vs(chars@, 0) == i + leading_vs(chars@, i as int),
        decreases chars.len() - i,
    {
        i = i + 1;
    }
    let mut stripped = String::new();
    push_chars(&mut stripped, &chars, i, chars.len());
    assert(stripped@ =~= tag_version(tag_name@));
    let latest = match parse_version(stripped.as_str()) {
        Some(v) => v,
        None => {
            return Err(VersionError::InvalidLatest);
        },
    };
    if parse_version(current).is_none() {
        return Err(VersionError::InvalidCurrent);
    }
    if version_newer(stripped.as_str(), current) {
        Ok(Some(latest))
    } else {
        Ok(None)
    }
}

/// Why no release asset exists for a platform.
#[derive(Debug, Clone, Copy, PartialEq, Eq, Structural)]
pub enum AssetError {
    /// The operating system is none of Linux, macOS and Windows.
    UnsupportedOs,
    /// The processor is neither x86-64 nor AArch64.
    UnsupportedArch,
}

/// The name of the release asset for an operating system and a processor,
/// named as Rust names its targets: `checkai-`, the system (`darwin` for
/// macOS), `-`, the processor, and `.exe` on Windows.
pub open spec fn asset_for(os: Seq<char>, arch: Seq<char>) -> Result<Seq<char>, AssetError> {
    if os != "linux"@ && os != "macos"@ && os != "windows"@ {
        Err(AssetError::UnsupportedOs)
    } else if arch != "x86_64"@ && arch != "aarch64"@ {
        Err(AssetError::UnsupportedArch)
    } else {
        Ok(
            "checkai-"@ + (if os == "macos"@ {
                "darwin"@
            } else {
                os
            }) + "-"@ + arch + (if os == "windows"@ {
                ".exe"@
            } else {
                Seq::empty()
            }),
        )
    }
}

/// Returns the name of the release asset for a platform.
pub fn get_asset_name(os: &str, arch: &str) -> (r: Result<String, AssetError>)
    ensures
        match r {
            Ok(name) => asset_for(os@, arch@) == Ok::<Seq<char>, AssetError>(name@),
            Err(e) => asset_for(os@, arch@) == Err::<Seq<char>, AssetError>(e),
        },
{
    let linux = same_text(os, "linux");
    let macos = same_text(os, "macos");
    let windows = same_text(os, "windows");
    if !linux && !macos && !windows {
        return Err(AssetError::UnsupportedOs);
    }
    if !same_text(arch, "x86_64") && !same_text(arch, "aarch64") {
        return Err(AssetError::UnsupportedArch);
    }
    let mut name = String::new();
    name.append("checkai-");
    if macos {
        name.append("darwin");
    } else {
        name.append(os);
    }
    name.append("-");
    name.append(arch);
    if windows {
        name.append(".exe");
    }
    proof {
        match asset_for(os@, arch@) {
            Ok(want) => {
                assert(name@ =~= want);
            },
            Err(_) => {},
        }
    }
    Ok(name)
}

} // verus!
