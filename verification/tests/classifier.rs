use decruft::scanner::{check_crufty, is_common_cruft, is_protected_directory, CruftyReason};

#[test]
fn node_modules_is_classified() {
    assert_eq!(
        check_crufty("/home/me/proj/node_modules", false, false),
        Some(CruftyReason::NodeModules)
    );
}

#[test]
fn tox_dir_is_classified() {
    assert_eq!(check_crufty("/srv/app/.tox", false, false), Some(CruftyReason::ToxDir));
}

#[test]
fn build_dir_is_classified() {
    assert_eq!(check_crufty("/srv/app/build", false, false), Some(CruftyReason::BuildDir));
    assert_eq!(check_crufty("/srv/app/.build", false, false), Some(CruftyReason::BuildDir));
    assert_eq!(check_crufty("/srv/app/build-x64", false, false), Some(CruftyReason::BuildDir));
    assert_eq!(check_crufty("/srv/app/cmake-build", false, false), Some(CruftyReason::BuildDir));
}

#[test]
fn uppercase_names_match_too() {
    assert_eq!(check_crufty("/srv/app/Build", false, false), Some(CruftyReason::BuildDir));
    assert_eq!(check_crufty("/srv/app/TEMP", false, false), Some(CruftyReason::TempDir));
}

#[test]
fn temp_affixes_are_classified() {
    assert_eq!(check_crufty("/x/tmp", false, false), Some(CruftyReason::TempDir));
    assert_eq!(check_crufty("/x/.tmp", false, false), Some(CruftyReason::TempDir));
    assert_eq!(check_crufty("/x/temp-files", false, false), Some(CruftyReason::TempDir));
    assert_eq!(check_crufty("/x/my-project-tmp", false, false), Some(CruftyReason::TempDir));
}

#[test]
fn templates_is_not_temp() {
    assert_eq!(check_crufty("/srv/app/templates", false, false), None);
}

#[test]
fn rebuild_notes_is_not_build() {
    assert_eq!(check_crufty("/srv/app/rebuild-notes", false, false), None);
}

#[test]
fn cache_names_are_classified() {
    assert_eq!(check_crufty("/x/.cache/fontconfig", false, false), Some(CruftyReason::CacheDir));
    assert_eq!(check_crufty("/x/pip-cache", false, false), Some(CruftyReason::CacheDir));
}

#[test]
fn venv_names_are_classified() {
    assert_eq!(check_crufty("/x/venv", false, false), Some(CruftyReason::VenvDir));
    assert_eq!(check_crufty("/x/.venv", false, false), Some(CruftyReason::VenvDir));
    assert_eq!(check_crufty("/x/env", false, false), Some(CruftyReason::VenvDir));
    assert_eq!(check_crufty("/x/virtualenv-py311", false, false), Some(CruftyReason::VenvDir));
}

#[test]
fn dist_names_are_classified() {
    assert_eq!(check_crufty("/x/dist", false, false), Some(CruftyReason::DistDir));
    assert_eq!(check_crufty("/x/out", false, false), Some(CruftyReason::DistDir));
}

#[test]
fn target_with_marker_is_language_target() {
    assert_eq!(check_crufty("/x/target", true, false), Some(CruftyReason::LanguageTargetDir));
}

#[test]
fn bare_target_is_not_classified_by_name() {
    assert_eq!(check_crufty("/x/target", false, false), None);
}

#[test]
fn target_without_marker_but_with_tag_is_cache_tag() {
    assert_eq!(check_crufty("/x/target", false, true), Some(CruftyReason::CacheTagFound));
}

#[test]
fn cachedir_tag_is_the_last_resort() {
    assert_eq!(check_crufty("/x/stuff", false, true), Some(CruftyReason::CacheTagFound));
    assert_eq!(check_crufty("/x/stuff", false, false), None);
}

#[test]
fn first_match_wins_over_later_rules() {
    // `build-cache` holds both a cache and a build hint; the cache rule
    // stands earlier in the table.
    assert_eq!(check_crufty("/x/build-cache", false, false), Some(CruftyReason::CacheDir));
}

#[test]
fn protected_segments_are_never_cruft() {
    assert_eq!(check_crufty("/x/.git", false, false), None);
    assert_eq!(check_crufty("/x/.git/build", false, false), None);
    assert_eq!(check_crufty("/x/.github/tmp", false, false), None);
    assert_eq!(check_crufty("/x/.vscode/dist", false, true), None);
    assert_eq!(check_crufty("/x/.idea/node_modules", false, false), None);
}

#[test]
fn node_modules_bin_is_protected() {
    assert!(is_protected_directory("/x/node_modules/.bin"));
    assert!(is_protected_directory("/x/node_modules/.bin/tmp"));
    assert!(!is_protected_directory("/x/node_modules"));
    assert!(!is_protected_directory("/x/other/.bin"));
}

#[test]
fn protected_directory_checks() {
    assert!(is_protected_directory("/x/.git"));
    assert!(is_protected_directory("/x/.git/objects"));
    assert!(is_protected_directory(".vscode"));
    assert!(!is_protected_directory("/x/gitlab"));
    assert!(!is_protected_directory("/x/src"));
}

#[test]
fn common_cruft_subset() {
    assert!(is_common_cruft(&CruftyReason::NodeModules));
    assert!(is_common_cruft(&CruftyReason::CacheDir));
    assert!(is_common_cruft(&CruftyReason::CacheTagFound));
    assert!(is_common_cruft(&CruftyReason::BuildDir));
    assert!(is_common_cruft(&CruftyReason::VenvDir));
    assert!(is_common_cruft(&CruftyReason::ToxDir));
    assert!(!is_common_cruft(&CruftyReason::TempDir));
    assert!(!is_common_cruft(&CruftyReason::DistDir));
    assert!(!is_common_cruft(&CruftyReason::LanguageTargetDir));
}

#[test]
fn reason_labels() {
    assert_eq!(CruftyReason::NodeModules.as_str(), "node_modules");
    assert_eq!(CruftyReason::CacheTagFound.as_str(), "CACHEDIR.TAG");
    assert_eq!(CruftyReason::LanguageTargetDir.as_str(), "target dir");
}
