use viow_plugin_api::error::Error;
use viow_plugin_api::registry::LoadError;
use viow_plugin_api::registry::PluginHandle;
use viow_plugin_api::registry::ScanOutcome;
use viow_plugin_api::registry::load_root_module_in_directory;
use viow_plugin_api::session::SessionOp;
use viow_plugin_api::session::SessionState;
use viow_plugin_api::session::advance;
use viow_plugin_api::session::resolve_signal_indices;
use viow_plugin_api::signal::SignalSpec;
use viow_plugin_api::signal::SignalType;
use viow_plugin_api::signal::WaveSignal;
use viow_plugin_api::version::VersionNumber;
use viow_plugin_api::version::parse_version;
use viow_plugin_api::version::version_compatible;

fn universe() -> Vec<SignalSpec> {
    vec![
        SignalSpec { name: "clk".to_owned(), typespec: SignalType::Bit },
        SignalSpec { name: "addr".to_owned(), typespec: SignalType::Vector(7, 0) },
        SignalSpec { name: "clk".to_owned(), typespec: SignalType::Bit },
        SignalSpec { name: "data".to_owned(), typespec: SignalType::Vector(0, 15) },
    ]
}

#[test]
fn resolve_known_names_in_request_order() {
    let names = vec!["data".to_owned(), "clk".to_owned(), "addr".to_owned()];
    let indices = resolve_signal_indices(&universe(), &names).unwrap();
    assert_eq!(indices, vec![3, 0, 1]);
}

#[test]
fn resolve_picks_first_of_duplicate_names() {
    let names = vec!["clk".to_owned()];
    let indices = resolve_signal_indices(&universe(), &names).unwrap();
    assert_eq!(indices, vec![0]);
}

#[test]
fn unknown_name_yields_not_found() {
    let names = vec!["clk".to_owned(), "nonesuch".to_owned(), "data".to_owned()];
    match resolve_signal_indices(&universe(), &names) {
        Err(Error::NotFound(name)) => assert_eq!(name, "nonesuch"),
        other => panic!("expected NotFound, got {:?}", other),
    }
}

#[test]
fn error_variants_carry_their_detail() {
    let io = Error::IoError("broken pipe".to_owned());
    let plugin = Error::Plugin("bad header".to_owned());
    let missing = Error::NotFound("rst".to_owned());
    assert!(matches!(io, Error::IoError(ref m) if m == "broken pipe"));
    assert!(matches!(plugin, Error::Plugin(ref m) if m == "bad header"));
    assert!(matches!(missing, Error::NotFound(ref m) if m == "rst"));
}

#[test]
fn session_moves_forward_through_its_states() {
    let s = SessionState::Opened;
    let s = advance(s, SessionOp::InitSignals).unwrap();
    assert_eq!(s, SessionState::Described);
    let s = advance(s, SessionOp::CountCycles).unwrap();
    assert_eq!(s, SessionState::Ready);
    let s = advance(s, SessionOp::Load).unwrap();
    assert_eq!(s, SessionState::Ready);
    let s = advance(s, SessionOp::Load).unwrap();
    assert_eq!(s, SessionState::Ready);
}

#[test]
fn init_signals_is_idempotent() {
    assert_eq!(advance(SessionState::Described, SessionOp::InitSignals).unwrap(), SessionState::Described);
    assert_eq!(advance(SessionState::Ready, SessionOp::InitSignals).unwrap(), SessionState::Ready);
}

#[test]
fn out_of_order_session_calls_are_rejected() {
    assert!(matches!(advance(SessionState::Opened, SessionOp::CountCycles), Err(Error::Plugin(_))));
    assert!(matches!(advance(SessionState::Opened, SessionOp::Load), Err(Error::Plugin(_))));
    assert!(matches!(advance(SessionState::Described, SessionOp::Load), Err(Error::Plugin(_))));
}

#[test]
fn version_strings_parse_exactly() {
    assert_eq!(parse_version("1.2.3"), Some(VersionNumber { major: 1, minor: 2, patch: 3 }));
    assert_eq!(parse_version("0.10.0"), Some(VersionNumber { major: 0, minor: 10, patch: 0 }));
    assert_eq!(parse_version("4294967295.0.1"), Some(VersionNumber { major: u32::MAX, minor: 0, patch: 1 }));
    assert_eq!(parse_version(""), None);
    assert_eq!(parse_version("1.2"), None);
    assert_eq!(parse_version("1..3"), None);
    assert_eq!(parse_version("a.b.c"), None);
    assert_eq!(parse_version("1.2.3.4"), None);
    assert_eq!(parse_version("1.2.x"), None);
    assert_eq!(parse_version("4294967296.0.0"), None);
}

#[test]
fn compatibility_follows_the_modified_semver_rule() {
    let v = |major, minor, patch| VersionNumber { major, minor, patch };
    assert!(version_compatible(&v(1, 2, 3), &v(1, 5, 0)));
    assert!(!version_compatible(&v(1, 2, 3), &v(2, 0, 0)));
    assert!(!version_compatible(&v(0, 5, 0), &v(0, 4, 9)));
    assert!(version_compatible(&v(0, 4, 9), &v(0, 5, 0)));
    assert!(version_compatible(&v(0, 4, 9), &v(0, 4, 0)));
    assert!(version_compatible(&v(2, 7, 0), &v(2, 3, 0)));
}

#[test]
fn discovery_reports_missing_library_and_symbol() {
    assert!(matches!(
        load_root_module_in_directory("0.1.0", &ScanOutcome::NoLibrary),
        Err(LoadError::LibraryNotFound)
    ));
    assert!(matches!(
        load_root_module_in_directory("0.1.0", &ScanOutcome::NoRootSymbol),
        Err(LoadError::SymbolNotFound)
    ));
}

#[test]
fn discovery_rejects_unparsable_versions() {
    let found = ScanOutcome::Found { name: "viow_plugin".to_owned(), version: "0.1.0".to_owned() };
    match load_root_module_in_directory("not-a-version", &found) {
        Err(LoadError::InvalidVersion(v)) => assert_eq!(v, "not-a-version"),
        other => panic!("expected InvalidVersion, got {:?}", other.map(|h| h.name)),
    }
    let bad = ScanOutcome::Found { name: "viow_plugin".to_owned(), version: "1.2".to_owned() };
    match load_root_module_in_directory("0.1.0", &bad) {
        Err(LoadError::InvalidVersion(v)) => assert_eq!(v, "1.2"),
        other => panic!("expected InvalidVersion, got {:?}", other.map(|h| h.name)),
    }
}

#[test]
fn incompatible_version_fails_discovery() {
    let found = ScanOutcome::Found { name: "viow_plugin".to_owned(), version: "0.4.0".to_owned() };
    match load_root_module_in_directory("0.5.0", &found) {
        Err(LoadError::IncompatibleVersion(expected, actual)) => {
            assert_eq!(expected, VersionNumber { major: 0, minor: 5, patch: 0 });
            assert_eq!(actual, VersionNumber { major: 0, minor: 4, patch: 0 });
        },
        other => panic!("expected IncompatibleVersion, got {:?}", other.map(|h| h.name)),
    }
}

#[test]
fn compatible_library_yields_a_handle() {
    let found = ScanOutcome::Found { name: "viow_plugin".to_owned(), version: "0.5.2".to_owned() };
    let handle: PluginHandle = load_root_module_in_directory("0.5.0", &found).unwrap_or_else(|_| panic!("expected a handle"));
    assert_eq!(handle.name, "viow_plugin");
    assert_eq!(handle.version, VersionNumber { major: 0, minor: 5, patch: 2 });
}

#[test]
fn wave_signal_holds_name_and_format() {
    let s = WaveSignal { name: "clk".to_owned(), format: "bin".to_owned() };
    assert_eq!(s.name, "clk");
    assert_eq!(s.format, "bin");
}
