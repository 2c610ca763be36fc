use indexmap::IndexSet;
use rua::suffix::common_suffix_length;
use rua::tarcheck::archive_format;
use rua::tarcheck::installed_path;
use rua::tarcheck::ArchiveFormat;
use rua::tarcheck::MenuAction;
use rua::tarcheck::MenuOption;
use rua::tarcheck::TarReview;
use rua::tarcheck::UnsupportedArchive;

fn check(files: &[&str], whitelist: &[&str], expected: usize) {
    let set: IndexSet<&str> = whitelist.iter().copied().collect();
    let result = common_suffix_length(files, &set);
    assert_eq!(result, expected)
}

#[test]
fn test_all() {
    check(&["a-1.pkg.tar", "b-1.pkg.tar"], &["a"], 10);
    check(&["a-1.pkg.tar", "bbbb-1.pkg.tar"], &["a", "dinosaur"], 10);
    check(&["a-x-1.pkg.tar", "b-x-1.pkg.tar"], &["a-x"], 10);
    check(&["a-x-1.pkg.tar", "b-x-1.pkg.tar"], &["a"], 12);
}

#[test]
fn suffix_length_without_match_is_shortest_name() {
    check(&["abc", "de"], &["zzz"], 2);
    check(&[], &["a"], 0);
}

#[test]
fn suffix_length_zero_when_name_whitelisted() {
    check(&["a", "bb"], &["bb"], 0);
}

#[test]
fn suffix_length_second_name_found_first_at_shorter_cut() {
    check(&["aaaa-9", "bb-9"], &["bb-", "aaaa"], 1);
}

#[test]
fn suffix_length_non_ascii_names() {
    // cutting 1 byte from "é-1" would split nothing: "é" is two bytes, the
    // whitelisted "é" is found first by cutting "-1".
    check(&["é-1"], &["é"], 2);
}

#[test]
fn format_from_extension() {
    assert_eq!(archive_format("x.pkg.tar"), Ok(ArchiveFormat::Tar));
    assert_eq!(archive_format("x.pkg.tar.xz"), Ok(ArchiveFormat::Xz));
    assert_eq!(archive_format("x.pkg.tar.lzma"), Ok(ArchiveFormat::Xz));
    assert_eq!(archive_format("x.pkg.tar.gz"), Ok(ArchiveFormat::Gzip));
    assert_eq!(archive_format("x.pkg.tar.gzip"), Ok(ArchiveFormat::Gzip));
    assert_eq!(archive_format("x.pkg.tar.zst"), Ok(ArchiveFormat::Zstd));
    assert_eq!(archive_format("x.pkg.tar.zstd"), Ok(ArchiveFormat::Zstd));
}

#[test]
fn format_unsupported() {
    assert_eq!(archive_format("x.pkg.tar.bz2"), Err(UnsupportedArchive));
    assert_eq!(archive_format("x.zip"), Err(UnsupportedArchive));
    assert_eq!(archive_format(""), Err(UnsupportedArchive));
    assert_eq!(archive_format("tar"), Err(UnsupportedArchive));
}

#[test]
fn review_classifies_entries() {
    let mut review = TarReview::new();
    assert!(!review.observe_entry("usr/", 0o755));
    assert!(!review.observe_entry("usr/bin/tool", 0o755));
    assert!(!review.observe_entry("usr/share/doc", 0o644));
    assert!(!review.observe_entry(".PKGINFO", 0o644));
    assert!(!review.observe_entry("usr/bin/su", 0o4755));
    assert!(review.observe_entry(".INSTALL", 0o644));
    review.record_install("post_install() {\n");
    review.record_install("}\n");
    assert_eq!(review.all_files(), &vec!["usr/bin/tool".to_string(), "usr/share/doc".to_string(), "usr/bin/su".to_string()]);
    assert_eq!(review.executable_files(), &vec!["usr/bin/tool".to_string(), "usr/bin/su".to_string()]);
    assert_eq!(review.suid_files(), &vec!["usr/bin/su".to_string()]);
    assert_eq!(review.install_file(), "post_install() {\n}\n");
    assert!(review.has_install());
    assert!(review.has_suid());
}

#[test]
fn review_special_bits_of_hidden_paths() {
    let mut review = TarReview::new();
    review.observe_entry(".hidden", 0o2755);
    review.observe_entry("dir/", 0o1777);
    assert!(review.all_files().is_empty());
    assert!(review.executable_files().is_empty());
    assert_eq!(review.suid_files(), &vec![".hidden".to_string(), "dir/".to_string()]);
}

#[test]
fn menu_without_suid_and_install() {
    let mut review = TarReview::new();
    review.observe_entry("usr/bin/tool", 0o755);
    let prompt = review.menu_prompt();
    assert!(prompt.no_suid_notice);
    assert_eq!(
        prompt.options,
        vec![MenuOption::ListExecutables, MenuOption::ListAll, MenuOption::ListMissing, MenuOption::Shell, MenuOption::Proceed]
    );
    assert_eq!(review.menu_action("s"), MenuAction::AskAgain);
    assert_eq!(review.menu_action("i"), MenuAction::AskAgain);
    assert_eq!(review.menu_action("e"), MenuAction::ListExecutables);
    assert_eq!(review.menu_action("f"), MenuAction::ListMissing);
    assert_eq!(review.menu_action("l"), MenuAction::ListAll);
    assert_eq!(review.menu_action("t"), MenuAction::Shell);
    assert_eq!(review.menu_action("o"), MenuAction::Proceed);
    assert_eq!(review.menu_action("q"), MenuAction::Quit);
    assert_eq!(review.menu_action(""), MenuAction::AskAgain);
    assert_eq!(review.menu_action("ok"), MenuAction::AskAgain);
}

#[test]
fn menu_with_suid_and_install() {
    let mut review = TarReview::new();
    review.observe_entry("usr/bin/su", 0o4755);
    review.observe_entry(".INSTALL", 0o644);
    review.record_install("echo hi");
    let prompt = review.menu_prompt();
    assert!(!prompt.no_suid_notice);
    assert_eq!(
        prompt.options,
        vec![
            MenuOption::ListExecutables,
            MenuOption::ListAll,
            MenuOption::ListMissing,
            MenuOption::Shell,
            MenuOption::ShowInstall,
            MenuOption::ListSuid,
            MenuOption::Proceed
        ]
    );
    assert_eq!(review.menu_action("s"), MenuAction::ListSuid);
    assert_eq!(review.menu_action("i"), MenuAction::ShowInstall);
}

#[test]
fn empty_install_script_is_not_offered() {
    let mut review = TarReview::new();
    assert!(review.observe_entry(".INSTALL", 0o644));
    review.record_install("");
    assert!(!review.has_install());
    assert_eq!(review.menu_action("i"), MenuAction::AskAgain);
}

#[test]
fn installed_path_is_under_root() {
    assert_eq!(installed_path("usr/bin/tool"), "/usr/bin/tool");
    assert_eq!(installed_path(""), "/");
}

#[test]
fn checked_suffix_length_refuses_cut_inside_character() {
    let empty: IndexSet<&str> = IndexSet::new();
    assert_eq!(rua::suffix::common_suffix_length_checked(&["aé"], &empty), None);
    let set: IndexSet<&str> = ["é"].iter().copied().collect();
    assert_eq!(rua::suffix::common_suffix_length_checked(&["é-1"], &set), Some(2));
    let set: IndexSet<&str> = ["a"].iter().copied().collect();
    assert_eq!(rua::suffix::common_suffix_length_checked(&["a-1.pkg.tar", "b-1.pkg.tar"], &set), Some(10));
}
