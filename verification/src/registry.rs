//! Plugin discovery: the host-side decision that turns what the external
//! library-loading facility found in a directory into either a validated
//! plugin handle or a load error naming the reason. Scanning the directory
//! and binding the dynamic library are the facility's work; accepting or
//! rejecting what it found is decided here, so an incompatible library is
//! rejected without invoking any plugin code.

use vstd::prelude::*;

use crate::version::spec_parse_version;
use crate::version::spec_version_compatible;
use crate::version::parse_version;
use crate::version::version_compatible;
use crate::version::VersionNumber;

verus! {

/// A discovery failure. Distinct from the runtime `Error` taxonomy: these
/// are fatal to obtaining a usable plugin.
#[derive(Debug, Clone, PartialEq, Eq)]
pub enum LoadError {
    /// No compatible library file exists in the directory.
    LibraryNotFound,
    /// A library file was found but exposes no root descriptor symbol.
    SymbolNotFound,
    /// A version string (host-expected or library-declared) does not denote
    /// a version; carries the offending string.
    InvalidVersion(String),
    /// The library's declared version is incompatible with the host's
    /// expected version: expected, then actual.
    IncompatibleVersion(VersionNumber, VersionNumber),
}

/// What the library-loading facility reports about one directory.
pub enum ScanOutcome {
    /// No library file with the expected base name.
    NoLibrary,
    /// A library file without the root descriptor symbol.
    NoRootSymbol,
    /// A root descriptor was read: the plugin's declared logical name and
    /// semantic version string.
    Found { name: String, version: String },
}

/// A plugin whose declared identity passed the compatibility check.
pub struct PluginHandle {
    pub name: String,
    pub version: VersionNumber,
}

/// Decides discovery for one directory: accepts the scanned library exactly
/// when a root descriptor was found, both version strings parse, and the
/// declared version is compatible with `expected_version`; otherwise
/// reports the reason as a `LoadError`. No plugin code is involved in the
/// decision.
pub fn load_root_module_in_directory(expected_version: &str, scan: &ScanOutcome) -> (r: Result<
    PluginHandle,
    LoadError,
>)
    ensures
        match scan {
            ScanOutcome::NoLibrary => r matches Err(e) && e is LibraryNotFound,
            ScanOutcome::NoRootSymbol => r matches Err(e) && e is SymbolNotFound,
            ScanOutcome::Found { name, version } => {
                let expected = spec_parse_version(expected_version@);
                let actual = spec_parse_version(version@);
                match r {
                    Ok(handle) => {
                        &&& expected is Some
                        &&& actual is Some
                        &&& spec_version_compatible(expected->0, actual->0)
                        &&& handle.name@ == name@
                        &&& handle.version == actual->0
                    },
                    Err(e) => {
                        &&& !(expected is Some && actual is Some && spec_version_compatible(
                            expected->0,
                            actual->0,
                        ))
                        &&& (expected is None ==> (e matches LoadError::InvalidVersion(v) && v@
                            == expected_version@))
                        &&& (expected is Some && actual is None ==> (e
                            matches LoadError::InvalidVersion(v) && v@ == version@))
                        &&& (expected is Some && actual is Some ==> e
                            == LoadError::IncompatibleVersion(expected->0, actual->0))
                    },
                }
            },
        },
{
    match scan {
        ScanOutcome::NoLibrary => Err(LoadError::LibraryNotFound),
        ScanOutcome::NoRootSymbol => Err(LoadError::SymbolNotFound),
        ScanOutcome::Found { name, version } => {
            let expected = match parse_version(expected_version) {
                Some(v) => v,
                None => {
                    return Err(LoadError::InvalidVersion(expected_version.to_owned()));
                },
            };
            let actual = match parse_version(version.as_str()) {
                Some(v) => v,
                None => {
                    return Err(LoadError::InvalidVersion(version.clone()));
                },
            };
            if !version_compatible(&expected, &actual) {
                return Err(LoadError::IncompatibleVersion(expected, actual));
            }
            Ok(PluginHandle { name: name.clone(), version: actual })
        },
    }
}

} // verus!
