//! Reading and setting `package.version` in a package manifest.

use vstd::prelude::*;
use crate::version::{Version, VersionError, Dialect, parse, parse_spec};

verus! {

#[verifier::external_type_specification]
#[verifier::external_body]
pub struct ExTomlError(toml_edit::TomlError);

/// Whether the text is a well-formed TOML document.
pub uninterp spec fn toml_parses(text: Seq<char>) -> bool;

/// The string at `package.version` in the TOML document `text`, if there is one.
pub uninterp spec fn manifest_version_field(text: Seq<char>) -> Option<Seq<char>>;

/// The TOML document `text` rendered again after its `package.version`
/// value was replaced by the string `v`.
pub uninterp spec fn with_package_version(text: Seq<char>, v: Seq<char>) -> Seq<char>;

/// Relies on `toml_edit::DocumentMut`'s `FromStr`, `Item::get` and
/// `Item::as_str`: parses the text and reads the string under `version` in
/// the `package` table.
#[verifier::external_body]
fn read_package_version(text: &str) -> (r: Result<Option<String>, toml_edit::TomlError>)
    ensures
        r is Ok <==> toml_parses(text@),
        r matches Ok(f) ==> (f is None <==> manifest_version_field(text@) is None),
        r matches Ok(f) ==> (f matches Some(s) ==> manifest_version_field(text@) == Some(s@)),
{
    let doc = text.parse::<toml_edit::DocumentMut>()?;
    Ok(doc.as_item().get("package").and_then(|p| p.get("version")).and_then(|v| v.as_str()).map(|s| s.to_string()))
}

/// Relies on `toml_edit::DocumentMut`'s `FromStr`, `IndexMut`, `Value::from`,
/// `Value::decor_mut` and `Display`: replaces the string under `version` in
/// the `package` table, keeping the old value's surrounding whitespace and
/// comment, and renders the document; the result is a TOML document whose
/// `package.version` is the new string.
#[verifier::external_body]
fn write_package_version(text: &str, v: &str) -> (r: Result<String, toml_edit::TomlError>)
    requires
        manifest_version_field(text@) is Some,
    ensures
        r is Ok <==> toml_parses(text@),
        r matches Ok(s) ==> s@ == with_package_version(text@, v@),
        r matches Ok(s) ==> toml_parses(s@) && manifest_version_field(s@) == Some(v@),
{
    let mut doc = text.parse::<toml_edit::DocumentMut>()?;
    let slot = &mut doc["package"]["version"];
    let decor = slot.as_value().map(|old| old.decor().clone()).unwrap_or_default();
    let mut new = toml_edit::Value::from(v);
    *new.decor_mut() = decor;
    *slot = toml_edit::Item::Value(new);
    Ok(doc.to_string())
}

/// Why a manifest could not be read or updated.
#[derive(Clone, Copy, Debug, PartialEq, Eq, Structural)]
pub enum Error {
    /// The manifest is not a well-formed TOML document.
    InvalidManifest,
    /// The manifest has no string at `package.version`.
    NoVersion,
    /// The string at `package.version` is not a version.
    VersionError(VersionError),
}

/// What reading a version from the `package.version` field `field` gives.
pub open spec fn field_outcome(field: Option<Seq<char>>, r: Result<Version, Error>) -> bool {
    match field {
        None => r == Err::<Version, Error>(Error::NoVersion),
        Some(s) => match parse_spec(s, Dialect::Manifest) {
            Some(c) => r matches Ok(v) && v.full() == c,
            None => r == Err::<Version, Error>(Error::VersionError(VersionError::Malformed)),
        },
    }
}

/// The version in the `package.version` field, as the manifest holds it.
pub fn version_from_package_field(field: &Option<String>) -> (r: Result<Version, Error>)
    ensures
        field_outcome(match field { Some(s) => Some(s@), None => None }, r),
{
    match field {
        None => Err(Error::NoVersion),
        Some(s) => match parse(s.as_str(), Dialect::Manifest) {
            Ok(v) => Ok(v),
            Err(_) => Err(Error::VersionError(VersionError::Malformed)),
        },
    }
}

/// The version that the manifest `text` declares at `package.version`.
pub fn find_version(text: &str) -> (r: Result<Version, Error>)
    ensures
        !toml_parses(text@) <==> r == Err::<Version, Error>(Error::InvalidManifest),
        toml_parses(text@) ==> field_outcome(manifest_version_field(text@), r),
{
    match read_package_version(text) {
        Err(_) => Err(Error::InvalidManifest),
        Ok(field) => version_from_package_field(&field),
    }
}

/// The manifest `text` with the string at `package.version` replaced by
/// `new_version`, everything else kept as it was.
pub fn update_version(text: &str, new_version: &str) -> (r: Result<String, Error>)
    ensures
        !toml_parses(text@) <==> r == Err::<String, Error>(Error::InvalidManifest),
        toml_parses(text@) && manifest_version_field(text@) is None ==> r == Err::<String, Error>(Error::NoVersion),
        toml_parses(text@) && manifest_version_field(text@) is Some ==> (r matches Ok(s)
            && s@ == with_package_version(text@, new_version@)
            && toml_parses(s@) && manifest_version_field(s@) == Some(new_version@)),
{
    match read_package_version(text) {
        Err(_) => Err(Error::InvalidManifest),
        Ok(None) => Err(Error::NoVersion),
        Ok(Some(_)) => match write_package_version(text, new_version) {
            Ok(s) => Ok(s),
            Err(_) => Err(Error::InvalidManifest),
        },
    }
}

} // verus!
