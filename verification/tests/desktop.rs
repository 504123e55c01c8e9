use std::sync::Arc;
use wayland_proxy::desktop_apps::{
    exec_binary_name, main_entry_exec, ClientIdentity, DesktopAppIndex, DesktopFile,
};

fn file(file_name: &str, content: &str) -> DesktopFile {
    DesktopFile { file_name: file_name.to_string(), content: Some(content.to_string()) }
}

fn index_of(files: Vec<DesktopFile>) -> DesktopAppIndex {
    DesktopAppIndex::build_from_dirs(&vec![files])
}

#[test]
fn resolves_a_plain_exec_by_binary_name() {
    let index = index_of(vec![file(
        "com.gexperts.Tilix.desktop",
        "[Desktop Entry]\nName=Tilix\nExec=tilix\nType=Application\n",
    )]);
    assert_eq!(index.resolve_by_binary("tilix"), Some("com.gexperts.Tilix"));
    assert!(index.has_id("com.gexperts.Tilix"));
    assert!(
        !index.has_id("tilix"),
        "the app_id string itself was never installed as a desktop file id"
    );
}

#[test]
fn ignores_exec_under_a_desktop_action_group() {
    let index = index_of(vec![file(
        "org.gnome.Nautilus.desktop",
        "[Desktop Entry]\nName=Files\nExec=nautilus --new-window %U\nType=Application\n\n\
         [Desktop Action new-window]\nName=New Window\nExec=nautilus --new-window\n",
    )]);
    assert_eq!(index.resolve_by_binary("nautilus"), Some("org.gnome.Nautilus"));
}

#[test]
fn strips_path_and_arguments_from_exec() {
    let index = index_of(vec![file(
        "org.example.Foo.desktop",
        "[Desktop Entry]\nExec=/usr/bin/foo --flag arg\nType=Application\n",
    )]);
    assert_eq!(index.resolve_by_binary("foo"), Some("org.example.Foo"));
}

#[test]
fn unknown_binary_and_unknown_id_both_resolve_to_nothing() {
    let index = index_of(vec![file("org.example.Foo.desktop", "[Desktop Entry]\nExec=foo\n")]);
    assert_eq!(index.resolve_by_binary("not-installed"), None);
    assert!(!index.has_id("not.installed"));
}

#[test]
fn first_directory_wins_on_a_binary_name_collision() {
    let first = vec![file("first.desktop", "[Desktop Entry]\nExec=shared-binary\n")];
    let second = vec![file("second.desktop", "[Desktop Entry]\nExec=shared-binary\n")];
    let index = DesktopAppIndex::build_from_dirs(&vec![first, second]);
    assert_eq!(index.resolve_by_binary("shared-binary"), Some("first"));
}

#[test]
fn non_desktop_files_are_ignored() {
    let index = index_of(vec![file(
        "not-a-desktop-file.txt",
        "[Desktop Entry]\nExec=should-not-appear\n",
    )]);
    assert_eq!(index.resolve_by_binary("should-not-appear"), None);
}

#[test]
fn a_file_that_cannot_be_read_still_has_an_id() {
    let index = index_of(vec![DesktopFile {
        file_name: "org.example.Gone.desktop".to_string(),
        content: None,
    }]);
    assert!(index.has_id("org.example.Gone"));
}

#[test]
fn only_an_id_that_is_not_installed_is_replaced() {
    let index = Arc::new(index_of(vec![file(
        "com.gexperts.Tilix.desktop",
        "[Desktop Entry]\nExec=tilix\n",
    )]));
    let tilix = ClientIdentity { index: index.clone(), binary_name: Some("tilix".to_string()) };
    assert_eq!(tilix.replacement("tilix"), Some("com.gexperts.Tilix".to_string()));
    assert_eq!(tilix.replacement("com.gexperts.Tilix"), None);
    let other = ClientIdentity { index: index.clone(), binary_name: Some("other".to_string()) };
    assert_eq!(other.replacement("tilix"), None);
    let unknown = ClientIdentity { index, binary_name: None };
    assert_eq!(unknown.replacement("tilix"), None);
}

#[test]
fn the_program_is_the_last_component_of_the_first_word() {
    for (exec, binary) in [
        ("foo", Some("foo")),
        ("  /usr/bin/foo --bar", Some("foo")),
        ("/usr/bin/foo/ %U", Some("foo")),
        ("./foo/.", Some("foo")),
        ("/usr/..", None),
        ("/", None),
        ("", None),
    ] {
        assert_eq!(exec_binary_name(exec).as_deref(), binary);
    }
}

#[test]
fn the_main_groups_first_exec_counts() {
    assert_eq!(main_entry_exec("Exec=outside\n"), None);
    assert_eq!(
        main_entry_exec("[Desktop Entry]\r\n  Exec=a b \r\nExec=c\r\n").as_deref(),
        Some("a b")
    );
    assert_eq!(main_entry_exec("[Other]\nExec=x\n[Desktop Entry]\nExec=y").as_deref(), Some("y"));
}
