//! `semver::Version`, `semver::Prerelease` and `semver::BuildMetadata`.
//!
//! A version has the derived representation of its struct: the major, minor and patch
//! numbers as `u64`s, then the pre-release and build identifiers, each with errors reported
//! within its field. An identifier is represented through a proxy holding its text as a
//! `String`; text that does not parse as an identifier is refused with a `Custom` error,
//! holding the parser's message, in the context of the conversion from the proxy.
use vstd::prelude::*;

use semver::{BuildMetadata, Prerelease, Version};

use crate::derived::{in_unnamed_field, in_via, unnamed_field_error, via_error, FieldName, NamedField};
use crate::error::{ErrorContext, ReadError, ReadErrorKind, WriteError};
use crate::impls::string::write_str;
use crate::protocol::{consumed, Canonical, Protocol};
use crate::stream::Reader;

verus! {

#[verifier::external_type_specification]
#[verifier::external_body]
pub struct ExVersion(Version);

#[verifier::external_type_specification]
#[verifier::external_body]
pub struct ExPrerelease(Prerelease);

#[verifier::external_type_specification]
#[verifier::external_body]
pub struct ExBuildMetadata(BuildMetadata);

/// The text of a pre-release identifier, as `Prerelease::as_str` returns it.
pub uninterp spec fn prerelease_text(pre: Prerelease) -> Seq<char>;

/// Whether `Prerelease::new` parses `text`.
pub uninterp spec fn prerelease_parses(text: Seq<char>) -> bool;

/// The message of the error of `Prerelease::new` for `text`.
pub uninterp spec fn prerelease_error_message(text: Seq<char>) -> String;

/// The text of a build identifier, as `BuildMetadata::as_str` returns it.
pub uninterp spec fn build_text(build: BuildMetadata) -> Seq<char>;

/// Whether `BuildMetadata::new` parses `text`.
pub uninterp spec fn build_parses(text: Seq<char>) -> bool;

/// The message of the error of `BuildMetadata::new` for `text`.
pub uninterp spec fn build_error_message(text: Seq<char>) -> String;

/// The major, minor and patch numbers of a version (its first three fields).
pub uninterp spec fn version_numbers(version: Version) -> (u64, u64, u64);

/// The text of the pre-release identifier of a version (its field `pre`).
pub uninterp spec fn version_pre_text(version: Version) -> Seq<char>;

/// The text of the build identifier of a version (its field `build`).
pub uninterp spec fn version_build_text(version: Version) -> Seq<char>;

/// `Prerelease::new`: the identifier parsed from `text`, which keeps `text` as it is, or
/// the message of the error.
#[verifier::external_body]
fn parse_prerelease(text: &str) -> (r: Result<Prerelease, String>)
    ensures
        r is Ok <==> prerelease_parses(text@),
        r matches Ok(pre) ==> prerelease_text(pre) == text@,
        r matches Err(message) ==> message == prerelease_error_message(text@),
{
    match Prerelease::new(text) {
        Ok(pre) => Ok(pre),
        Err(e) => Err(e.to_string()),
    }
}

/// `Prerelease::as_str`: the text of the identifier, which parses (every identifier is
/// parsed from its text, or is the empty one).
#[verifier::external_body]
fn prerelease_as_str(pre: &Prerelease) -> (text: &str)
    ensures
        text@ == prerelease_text(*pre),
        prerelease_parses(text@),
{
    pre.as_str()
}

/// `BuildMetadata::new`: the identifier parsed from `text`, which keeps `text` as it is,
/// or the message of the error.
#[verifier::external_body]
fn parse_build(text: &str) -> (r: Result<BuildMetadata, String>)
    ensures
        r is Ok <==> build_parses(text@),
        r matches Ok(build) ==> build_text(build) == text@,
        r matches Err(message) ==> message == build_error_message(text@),
{
    match BuildMetadata::new(text) {
        Ok(build) => Ok(build),
        Err(e) => Err(e.to_string()),
    }
}

/// `BuildMetadata::as_str`: the text of the identifier, which parses.
#[verifier::external_body]
fn build_as_str(build: &BuildMetadata) -> (text: &str)
    ensures
        text@ == build_text(*build),
        build_parses(text@),
{
    build.as_str()
}

/// The version with the given fields.
#[verifier::external_body]
fn version_of(major: u64, minor: u64, patch: u64, pre: Prerelease, build: BuildMetadata) -> (version: Version)
    ensures
        version_numbers(version) == (major, minor, patch),
        version_pre_text(version) == prerelease_text(pre),
        version_build_text(version) == build_text(build),
{
    Version { major, minor, patch, pre, build }
}

/// The fields of a version.
#[verifier::external_body]
fn version_fields(version: &Version) -> (fields: (u64, u64, u64, &Prerelease, &BuildMetadata))
    ensures
        (fields.0, fields.1, fields.2) == version_numbers(*version),
        prerelease_text(*fields.3) == version_pre_text(*version),
        build_text(*fields.4) == version_build_text(*version),
{
    (version.major, version.minor, version.patch, &version.pre, &version.build)
}

/// The error of text that is not a pre-release identifier.
pub open spec fn prerelease_error(text: Seq<char>) -> ReadError {
    ReadError { context: ErrorContext::TryInto, kind: ReadErrorKind::Custom(prerelease_error_message(text)) }
}

/// The error of text that is not a build identifier.
pub open spec fn build_error(text: Seq<char>) -> ReadError {
    ReadError { context: ErrorContext::TryInto, kind: ReadErrorKind::Custom(build_error_message(text)) }
}

/// Represented through a proxy holding its text.
impl Protocol for Prerelease {
    type Model = Seq<char>;

    open spec fn model(&self) -> Seq<char> {
        prerelease_text(*self)
    }

    open spec fn wf_model(m: Seq<char>) -> bool {
        <String as Protocol>::wf_model(m) && prerelease_parses(m)
    }

    open spec fn spec_encode(m: Seq<char>) -> Seq<u8> {
        <String as Protocol>::spec_encode(m)
    }

    open spec fn spec_decode(input: Seq<u8>) -> Result<(Seq<char>, nat), ReadError> {
        match <String as Protocol>::spec_decode(input) {
            Err(e) => Err(in_via(in_unnamed_field(e, 0))),
            Ok((text, n)) => if prerelease_parses(text) {
                Ok((text, n))
            } else {
                Err(prerelease_error(text))
            },
        }
    }

    open spec fn spec_error_consumed(input: Seq<u8>) -> nat {
        consumed::<String>(input)
    }

    proof fn lemma_encode_decode(m: Seq<char>, rest: Seq<u8>) {
        <String as Protocol>::lemma_encode_decode(m, rest);
    }

    proof fn lemma_truncated(m: Seq<char>, k: nat) {
        <String as Protocol>::lemma_truncated(m, k);
    }

    proof fn lemma_decode_wf(input: Seq<u8>) {
        <String as Protocol>::lemma_decode_wf(input);
    }

    fn read_sync(stream: &mut Reader) -> (r: Result<Prerelease, ReadError>) {
        let text = match String::read_sync(stream) {
            Ok(text) => text,
            Err(e) => return Err(via_error(unnamed_field_error(e, 0))),
        };
        match parse_prerelease(text.as_str()) {
            Ok(pre) => Ok(pre),
            Err(message) => Err(ReadError { context: ErrorContext::TryInto, kind: ReadErrorKind::Custom(message) }),
        }
    }

    fn write_sync(&self, sink: &mut Vec<u8>) -> (r: Result<(), WriteError>) {
        write_str(prerelease_as_str(self), sink);
        Ok(())
    }
}

impl Canonical for Prerelease {
    proof fn lemma_decode_encode(input: Seq<u8>) {
        <String as Canonical>::lemma_decode_encode(input);
    }
}

/// Represented through a proxy holding its text.
impl Protocol for BuildMetadata {
    type Model = Seq<char>;

    open spec fn model(&self) -> Seq<char> {
        build_text(*self)
    }

    open spec fn wf_model(m: Seq<char>) -> bool {
        <String as Protocol>::wf_model(m) && build_parses(m)
    }

    open spec fn spec_encode(m: Seq<char>) -> Seq<u8> {
        <String as Protocol>::spec_encode(m)
    }

    open spec fn spec_decode(input: Seq<u8>) -> Result<(Seq<char>, nat), ReadError> {
        match <String as Protocol>::spec_decode(input) {
            Err(e) => Err(in_via(in_unnamed_field(e, 0))),
            Ok((text, n)) => if build_parses(text) {
                Ok((text, n))
            } else {
                Err(build_error(text))
            },
        }
    }

    open spec fn spec_error_consumed(input: Seq<u8>) -> nat {
        consumed::<String>(input)
    }

    proof fn lemma_encode_decode(m: Seq<char>, rest: Seq<u8>) {
        <String as Protocol>::lemma_encode_decode(m, rest);
    }

    proof fn lemma_truncated(m: Seq<char>, k: nat) {
        <String as Protocol>::lemma_truncated(m, k);
    }

    proof fn lemma_decode_wf(input: Seq<u8>) {
        <String as Protocol>::lemma_decode_wf(input);
    }

    fn read_sync(stream: &mut Reader) -> (r: Result<BuildMetadata, ReadError>) {
        let text = match String::read_sync(stream) {
            Ok(text) => text,
            Err(e) => return Err(via_error(unnamed_field_error(e, 0))),
        };
        match parse_build(text.as_str()) {
            Ok(build) => Ok(build),
            Err(message) => Err(ReadError { context: ErrorContext::TryInto, kind: ReadErrorKind::Custom(message) }),
        }
    }

    fn write_sync(&self, sink: &mut Vec<u8>) -> (r: Result<(), WriteError>) {
        write_str(build_as_str(self), sink);
        Ok(())
    }
}

impl Canonical for BuildMetadata {
    proof fn lemma_decode_encode(input: Seq<u8>) {
        <String as Canonical>::lemma_decode_encode(input);
    }
}

/// The field `major`.
pub struct Major;

/// The field `minor`.
pub struct Minor;

/// The field `patch`.
pub struct Patch;

/// The field `pre`.
pub struct Pre;

/// The field `build`.
pub struct Build;

impl FieldName for Major {
    open spec fn spec_name() -> &'static str {
        "major"
    }

    fn name() -> (s: &'static str) {
        "major"
    }
}

impl FieldName for Minor {
    open spec fn spec_name() -> &'static str {
        "minor"
    }

    fn name() -> (s: &'static str) {
        "minor"
    }
}

impl FieldName for Patch {
    open spec fn spec_name() -> &'static str {
        "patch"
    }

    fn name() -> (s: &'static str) {
        "patch"
    }
}

impl FieldName for Pre {
    open spec fn spec_name() -> &'static str {
        "pre"
    }

    fn name() -> (s: &'static str) {
        "pre"
    }
}

impl FieldName for Build {
    open spec fn spec_name() -> &'static str {
        "build"
    }

    fn name() -> (s: &'static str) {
        "build"
    }
}

/// The representation of a version: the tuple of its fields, each named.
pub type VersionFields = (
    NamedField<u64, Major>,
    NamedField<u64, Minor>,
    NamedField<u64, Patch>,
    NamedField<Prerelease, Pre>,
    NamedField<BuildMetadata, Build>,
);

/// Represented like the struct of its fields, in order: the major, minor and patch
/// numbers, then the pre-release and build identifiers.
impl Protocol for Version {
    type Model = (u64, u64, u64, Seq<char>, Seq<char>);

    open spec fn model(&self) -> (u64, u64, u64, Seq<char>, Seq<char>) {
        let (major, minor, patch) = version_numbers(*self);
        (major, minor, patch, version_pre_text(*self), version_build_text(*self))
    }

    open spec fn wf_model(m: (u64, u64, u64, Seq<char>, Seq<char>)) -> bool {
        <VersionFields as Protocol>::wf_model(m)
    }

    open spec fn spec_encode(m: (u64, u64, u64, Seq<char>, Seq<char>)) -> Seq<u8> {
        <VersionFields as Protocol>::spec_encode(m)
    }

    open spec fn spec_decode(input: Seq<u8>) -> Result<((u64, u64, u64, Seq<char>, Seq<char>), nat), ReadError> {
        <VersionFields as Protocol>::spec_decode(input)
    }

    open spec fn spec_error_consumed(input: Seq<u8>) -> nat {
        <VersionFields as Protocol>::spec_error_consumed(input)
    }

    proof fn lemma_encode_decode(m: (u64, u64, u64, Seq<char>, Seq<char>), rest: Seq<u8>) {
        <VersionFields as Protocol>::lemma_encode_decode(m, rest);
    }

    proof fn lemma_truncated(m: (u64, u64, u64, Seq<char>, Seq<char>), k: nat) {
        <VersionFields as Protocol>::lemma_truncated(m, k);
    }

    proof fn lemma_decode_wf(input: Seq<u8>) {
        <VersionFields as Protocol>::lemma_decode_wf(input);
    }

    fn read_sync(stream: &mut Reader) -> (r: Result<Version, ReadError>) {
        match <VersionFields as Protocol>::read_sync(stream) {
            Ok((major, minor, patch, pre, build)) => Ok(version_of(major.0, minor.0, patch.0, pre.0, build.0)),
            Err(e) => Err(e),
        }
    }

    fn write_sync(&self, sink: &mut Vec<u8>) -> (r: Result<(), WriteError>) {
        let (major, minor, patch, pre, build) = version_fields(self);
        let _ = major.write_sync(sink);
        let _ = minor.write_sync(sink);
        let _ = patch.write_sync(sink);
        let _ = pre.write_sync(sink);
        let _ = build.write_sync(sink);
        assert(final(sink)@ =~= old(sink)@ + Self::spec_encode(self.model()));
        Ok(())
    }
}

impl Canonical for Version {
    proof fn lemma_decode_encode(input: Seq<u8>) {
        <VersionFields as Canonical>::lemma_decode_encode(input);
    }
}

} // verus!
