use nested_zip::extension::{bytes_eq_ignore_ascii_case, extension_start, has_extension};
use nested_zip::installer::{Architecture, FileAnalysis, InstallerType, NestedInstallerType};
use nested_zip::order::path_less;
use nested_zip::resolve::{contains_name, resolve, Resolution};
use nested_zip::scan::{count_occurrences, identify_files, matches_allowlist, occurrence_counts};
use nested_zip::zip::{is_valid_selection, records_from_paths, SelectionError, Zip};

fn strings(items: &[&str]) -> Vec<String> {
    items.iter().map(|s| s.to_string()).collect()
}

fn allowlist() -> Vec<String> {
    strings(&["exe", "msi"])
}

fn record_paths(zip: &Zip) -> Option<Vec<String>> {
    zip.nested_installer_files
        .as_ref()
        .map(|v| v.iter().map(|r| r.relative_file_path.clone()).collect())
}

#[test]
fn single_exe_is_auto_resolved() {
    let names = strings(&["app.exe", "readme.txt"]);
    let r = resolve(&names, &allowlist(), None);
    match &r {
        Resolution::AutoResolved(n) => assert_eq!(n, "app.exe"),
        _ => panic!("expected an automatic resolution"),
    }
    assert_eq!(r.analysis_target().map(|s| s.as_str()), Some("app.exe"));
    let zip = Zip::new(
        r,
        Some(FileAnalysis { installer_type: InstallerType::Inno, architecture: Some(Architecture::X64) }),
    );
    assert_eq!(record_paths(&zip), Some(strings(&["app.exe"])));
    assert_eq!(zip.nested_installer_type, Some(NestedInstallerType::Inno));
    assert_eq!(zip.architecture, Some(Architecture::X64));
    assert!(zip.identified_files().is_empty());
    let files = zip.nested_installer_files.unwrap();
    assert!(files[0].portable_command_alias.is_none());
}

#[test]
fn two_msi_files_are_pending() {
    let names = strings(&["a.msi", "b.msi"]);
    let r = resolve(&names, &allowlist(), None);
    match &r {
        Resolution::Pending(c) => assert_eq!(c, &strings(&["a.msi", "b.msi"])),
        _ => panic!("expected pending candidates"),
    }
    assert!(r.analysis_target().is_none());
    let zip = Zip::new(r, None);
    assert!(zip.nested_installer_files.is_none());
    assert!(zip.nested_installer_type.is_none());
    assert!(zip.architecture.is_none());
    assert_eq!(zip.identified_files(), &strings(&["a.msi", "b.msi"]));
}

#[test]
fn explicit_path_wins_over_counts() {
    let names = strings(&["sub/install.exe", "other.exe"]);
    let r = resolve(&names, &allowlist(), Some("sub/install.exe"));
    match &r {
        Resolution::ExplicitResolved(n) => assert_eq!(n, "sub/install.exe"),
        _ => panic!("expected an explicit resolution"),
    }
    assert_eq!(r.analysis_target().map(|s| s.as_str()), Some("sub/install.exe"));
}

#[test]
fn explicit_path_wins_over_unique_extension() {
    let names = strings(&["app.exe", "tool.exe", "setup.msi"]);
    let r = resolve(&names, &allowlist(), Some("tool.exe"));
    match &r {
        Resolution::ExplicitResolved(n) => assert_eq!(n, "tool.exe"),
        _ => panic!("expected an explicit resolution"),
    }
}

#[test]
fn missing_explicit_path_is_kept_without_analysis() {
    let names = strings(&["x.exe"]);
    let r = resolve(&names, &allowlist(), Some("missing.exe"));
    match &r {
        Resolution::ExplicitMissing(p) => assert_eq!(p, "missing.exe"),
        _ => panic!("expected a missing explicit path"),
    }
    assert!(r.analysis_target().is_none());
    let zip = Zip::new(
        r,
        Some(FileAnalysis { installer_type: InstallerType::Exe, architecture: Some(Architecture::X86) }),
    );
    assert_eq!(record_paths(&zip), Some(strings(&["missing.exe"])));
    assert!(zip.nested_installer_type.is_none());
    assert!(zip.architecture.is_none());
}

#[test]
fn choosing_one_pending_entry() {
    let names = strings(&["a.msi", "b.msi"]);
    let mut zip = Zip::new(resolve(&names, &allowlist(), None), None);
    assert_eq!(zip.prompt(strings(&["b.msi"])), Ok(()));
    assert_eq!(record_paths(&zip), Some(strings(&["b.msi"])));
    assert!(zip.nested_installer_files.as_ref().unwrap()[0].portable_command_alias.is_none());
    assert!(zip.identified_files().is_empty());
}

#[test]
fn empty_selection_is_refused() {
    let names = strings(&["a.msi", "b.msi"]);
    let mut zip = Zip::new(resolve(&names, &allowlist(), None), None);
    assert!(!is_valid_selection(&Vec::new()));
    assert!(is_valid_selection(&strings(&["a.msi"])));
    assert_eq!(zip.prompt(Vec::new()), Err(SelectionError::EmptySelection));
    assert!(zip.nested_installer_files.is_none());
    assert_eq!(zip.identified_files(), &strings(&["a.msi", "b.msi"]));
}

#[test]
fn unknown_selection_is_refused() {
    let names = strings(&["a.msi", "b.msi"]);
    let mut zip = Zip::new(resolve(&names, &allowlist(), None), None);
    assert_eq!(zip.prompt(strings(&["c.msi"])), Err(SelectionError::NotACandidate));
    assert_eq!(zip.identified_files(), &strings(&["a.msi", "b.msi"]));
}

#[test]
fn selection_is_ordered_and_deduplicated() {
    let names = strings(&["c.exe", "a.exe", "b.msi", "b.exe", "a.msi"]);
    let r = resolve(&names, &allowlist(), None);
    let mut zip = Zip::new(r, None);
    assert_eq!(zip.prompt(strings(&["c.exe", "a.exe", "c.exe", "B.exe", "b.exe"])), Err(SelectionError::NotACandidate));
    assert_eq!(zip.prompt(strings(&["c.exe", "a.exe", "c.exe", "b.exe"])), Ok(()));
    assert_eq!(record_paths(&zip), Some(strings(&["a.exe", "b.exe", "c.exe"])));
}

#[test]
fn prompt_with_nothing_pending_changes_nothing() {
    let names = strings(&["app.exe"]);
    let mut zip = Zip::new(resolve(&names, &allowlist(), None), None);
    assert_eq!(zip.prompt(strings(&["other.exe"])), Ok(()));
    assert_eq!(record_paths(&zip), Some(strings(&["app.exe"])));
}

#[test]
fn extension_match_ignores_case() {
    assert!(has_extension(b"SETUP.EXE", b"exe"));
    assert!(has_extension(b"dir/Setup.Exe", b"EXE"));
    assert!(matches_allowlist(&"SETUP.EXE".to_string(), &allowlist()));
    assert!(bytes_eq_ignore_ascii_case(b"MsI", b"msi"));
    assert!(!bytes_eq_ignore_ascii_case(b"msi", b"msix"));
}

#[test]
fn entries_without_extension_never_match() {
    assert!(!has_extension(b"exe", b"exe"));
    assert!(!has_extension(b".exe", b"exe"));
    assert!(!has_extension(b"dir/.exe", b"exe"));
    assert!(!has_extension(b"setup.exe/", b"exe"));
    assert!(!has_extension(b"dir.exe/readme", b"exe"));
    assert!(!has_extension(b"", b"exe"));
    assert!(has_extension(b"archive.tar.exe", b"exe"));
    assert!(!has_extension(b"archive.exe.tar", b"exe"));
}

#[test]
fn extension_start_positions() {
    assert_eq!(extension_start(b"app.exe"), Some(4));
    assert_eq!(extension_start(b"a/b.c.msi"), Some(6));
    assert_eq!(extension_start(b"a/b"), None);
    assert_eq!(extension_start(b"a/.hidden"), None);
    assert_eq!(extension_start(b"file."), Some(5));
}

#[test]
fn scanning_filters_and_counts() {
    let names = strings(&["a.EXE", "notes.txt", "b.msi", "sub/c.exe", "d"]);
    assert_eq!(identify_files(&names, &allowlist()), strings(&["a.EXE", "b.msi", "sub/c.exe"]));
    assert_eq!(occurrence_counts(&names, &allowlist()), vec![2, 1]);
    assert_eq!(count_occurrences(&names, &"txt".to_string()), 1);
    assert_eq!(count_occurrences(&names, &"zip".to_string()), 0);
}

#[test]
fn unique_extension_picks_its_own_entry() {
    let names = strings(&["a.msi", "b.msi", "tools/app.exe"]);
    let r = resolve(&names, &allowlist(), None);
    match r {
        Resolution::AutoResolved(n) => assert_eq!(n, "tools/app.exe"),
        _ => panic!("expected an automatic resolution"),
    }
}

#[test]
fn two_unique_extensions_are_pending() {
    let names = strings(&["app.exe", "setup.msi"]);
    match resolve(&names, &allowlist(), None) {
        Resolution::Pending(c) => assert_eq!(c, strings(&["app.exe", "setup.msi"])),
        _ => panic!("expected pending candidates"),
    }
}

#[test]
fn empty_archive_is_pending_with_nothing() {
    let names: Vec<String> = Vec::new();
    let r = resolve(&names, &allowlist(), None);
    match &r {
        Resolution::Pending(c) => assert!(c.is_empty()),
        _ => panic!("expected pending candidates"),
    }
    let mut zip = Zip::new(r, None);
    assert_eq!(zip.prompt(Vec::new()), Ok(()));
    assert!(zip.nested_installer_files.is_none());
}

#[test]
fn explicit_path_is_matched_verbatim() {
    let names = strings(&["Setup.exe"]);
    assert!(contains_name(&names, &"Setup.exe".to_string()));
    assert!(!contains_name(&names, &"setup.exe".to_string()));
    match resolve(&names, &allowlist(), Some("setup.exe")) {
        Resolution::ExplicitMissing(p) => assert_eq!(p, "setup.exe"),
        _ => panic!("expected a missing explicit path"),
    }
}

#[test]
fn analysed_archive_type_has_no_nested_form() {
    let names = strings(&["inner.exe"]);
    let zip = Zip::new(
        resolve(&names, &allowlist(), None),
        Some(FileAnalysis { installer_type: InstallerType::Zip, architecture: Some(Architecture::Arm64) }),
    );
    assert!(zip.nested_installer_type.is_none());
    assert_eq!(zip.architecture, Some(Architecture::Arm64));
}

#[test]
fn nested_projection() {
    assert_eq!(InstallerType::Msi.to_nested(), Some(NestedInstallerType::Msi));
    assert_eq!(InstallerType::Portable.to_nested(), Some(NestedInstallerType::Portable));
    assert_eq!(InstallerType::Pwa.to_nested(), None);
    assert_eq!(InstallerType::Zip.to_nested(), None);
}

#[test]
fn path_order_is_byte_order() {
    assert!(path_less(&"a".to_string(), &"b".to_string()));
    assert!(path_less(&"a".to_string(), &"ab".to_string()));
    assert!(path_less(&"B".to_string(), &"a".to_string()));
    assert!(!path_less(&"b".to_string(), &"b".to_string()));
    let recs = records_from_paths(&strings(&["z", "é", "a", "z"]));
    let paths: Vec<&str> = recs.iter().map(|r| r.relative_file_path.as_str()).collect();
    assert_eq!(paths, vec!["a", "z", "é"]);
}
