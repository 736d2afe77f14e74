use jim::install::{add_succeeded, AddInput, AddStep};
use jim::selection::{get, LinkState};
use jim::store::{list, StoreEntry};
use jim::{derive_name, derive_name_with, extend_path, RegistryError};

fn dir(name: &str) -> StoreEntry {
    StoreEntry { name: name.to_string(), is_dir: true, is_symlink: false }
}

fn link(name: &str) -> StoreEntry {
    StoreEntry { name: name.to_string(), is_dir: false, is_symlink: true }
}

fn file(name: &str) -> StoreEntry {
    StoreEntry { name: name.to_string(), is_dir: false, is_symlink: false }
}

fn input(path: &str, canonical: &str) -> AddInput {
    AddInput { path: path.to_string(), canonical: Some(canonical.to_string()) }
}

#[test]
fn archive_suffix_is_stripped() {
    assert_eq!(
        derive_name("openjdk-19_linux-x64_bin.tar.gz"),
        Ok("openjdk-19_linux-x64_bin".to_string())
    );
    assert_eq!(derive_name("/downloads/jdk-17.zip"), Ok("jdk-17".to_string()));
    assert_eq!(derive_name("jdk.tgz"), Ok("jdk".to_string()));
}

#[test]
fn longest_suffix_wins() {
    assert_eq!(derive_name("runtime.tar.gz"), Ok("runtime".to_string()));
    assert_eq!(derive_name("runtime.gz"), Ok("runtime".to_string()));
    assert_eq!(derive_name_with("a.b.c", &[".c", ".b.c"]), Ok("a".to_string()));
    assert_eq!(derive_name_with("a.b.c", &[".b.c", ".c"]), Ok("a".to_string()));
}

#[test]
fn suffix_must_leave_a_name() {
    assert_eq!(derive_name(".zip"), Ok(".zip".to_string()));
    assert_eq!(derive_name_with("x.zip", &[]), Ok("x.zip".to_string()));
}

#[test]
fn directory_keeps_its_name() {
    assert_eq!(
        derive_name("/home/user/graalvm-ee-java17-22.2.0/"),
        Ok("graalvm-ee-java17-22.2.0".to_string())
    );
    assert_eq!(derive_name("/opt/jdk-19"), Ok("jdk-19".to_string()));
    assert_eq!(derive_name("jdk//"), Ok("jdk".to_string()));
    assert_eq!(derive_name("jdk/."), Ok("jdk".to_string()));
    assert_eq!(derive_name("./jdk"), Ok("jdk".to_string()));
}

#[test]
fn no_final_component_is_invalid() {
    assert_eq!(derive_name("/"), Err(RegistryError::InvalidName));
    assert_eq!(derive_name(""), Err(RegistryError::InvalidName));
    assert_eq!(derive_name("."), Err(RegistryError::InvalidName));
    assert_eq!(derive_name("a/.."), Err(RegistryError::InvalidName));
}

#[test]
fn extend_path_joins_components() {
    assert_eq!(extend_path("/store", &["jdk"]), "/store/jdk");
    assert_eq!(extend_path("/store/", &["a", "b"]), "/store/a/b");
    assert_eq!(extend_path("/", &["a"]), "/a");
    assert_eq!(extend_path("", &["a"]), "a");
    assert_eq!(extend_path("/store", &[]), "/store");
}

#[test]
fn list_skips_links_and_files() {
    let entries = vec![dir("a"), link("current"), dir("b"), file("notes.txt")];
    let mut names = list(&entries);
    names.sort();
    assert_eq!(names, vec!["a".to_string(), "b".to_string()]);
    assert!(!names.contains(&"current".to_string()));
}

#[test]
fn list_of_empty_store() {
    assert!(list(&[]).is_empty());
}

#[test]
fn get_without_link_is_no_selection() {
    assert_eq!(get(&LinkState::Absent), Ok(None));
}

#[test]
fn get_reads_link_target() {
    assert_eq!(
        get(&LinkState::Target("/store/jdk-19".to_string())),
        Ok(Some("jdk-19".to_string()))
    );
}

#[test]
fn get_of_bad_link_is_corrupt() {
    assert_eq!(get(&LinkState::Unreadable), Err(RegistryError::CorruptSelection));
    assert_eq!(get(&LinkState::Target("/".to_string())), Err(RegistryError::CorruptSelection));
}

#[test]
fn set_then_get_returns_name() {
    let entries = vec![dir("a"), dir("b")];
    let plan = jim::selection::set("/store", "b", &entries).unwrap();
    assert_eq!(plan.target, "/store/b");
    assert_eq!(plan.link, "/store/current");
    assert_eq!(plan.staging, "/store/.current.swap");
    assert_eq!(get(&LinkState::Target(plan.target)), Ok(Some("b".to_string())));
}

#[test]
fn set_missing_instance_is_refused() {
    let entries = vec![dir("a"), link("current")];
    assert_eq!(jim::selection::set("/store", "zulu", &entries).err(), Some(RegistryError::InstanceNotFound));
    assert_eq!(jim::selection::set("/store", "current", &entries).err(), Some(RegistryError::InstanceNotFound));
    assert_eq!(jim::selection::set("/store", "a/b", &entries).err(), Some(RegistryError::InstanceNotFound));
    let files = vec![file("notes")];
    assert_eq!(jim::selection::set("/store", "notes", &files).err(), Some(RegistryError::InstanceNotFound));
}

#[test]
fn add_installs_then_refuses_again() {
    let inputs = vec![input("/dl/jdk-19", "/dl/jdk-19")];
    let first = jim::add("/store", &inputs, &[]);
    match &first[0] {
        AddStep::Install { name, source, dest } => {
            assert_eq!(name, "jdk-19");
            assert_eq!(source, "/dl/jdk-19");
            assert_eq!(dest, "/store/jdk-19");
        }
        other => panic!("unexpected step {:?}", other),
    }
    assert!(add_succeeded(&first, &[true]));
    let entries = vec![dir("jdk-19")];
    let second = jim::add("/store", &inputs, &entries);
    assert!(matches!(second[0], AddStep::Refused(RegistryError::AlreadyInstalled)));
    assert!(!add_succeeded(&second, &[false]));
    assert_eq!(list(&entries), vec!["jdk-19".to_string()]);
}

#[test]
fn add_colliding_names_installs_neither() {
    let inputs = vec![input("/a/jdk", "/a/jdk"), input("/b/jdk", "/b/jdk")];
    let steps = jim::add("/store", &inputs, &[]);
    assert!(matches!(steps[0], AddStep::Refused(RegistryError::NameCollision)));
    assert!(matches!(steps[1], AddStep::Refused(RegistryError::NameCollision)));
}

#[test]
fn add_distinct_inputs_all_installed() {
    let inputs = vec![
        input("/dl/a", "/dl/a"),
        input("/dl/b.tar.gz", "/dl/b.tar.gz"),
        input("/dl/c/", "/dl/c"),
    ];
    let steps = jim::add("/store", &inputs, &[dir("z")]);
    let mut dests = Vec::new();
    for s in &steps {
        match s {
            AddStep::Install { dest, .. } => dests.push(dest.clone()),
            other => panic!("unexpected step {:?}", other),
        }
    }
    assert_eq!(dests, vec!["/store/a", "/store/b", "/store/c"]);
    assert!(add_succeeded(&steps, &[true, true, true]));
    assert!(!add_succeeded(&steps, &[true, false, true]));
}

#[test]
fn add_same_source_is_attempted_once() {
    let inputs = vec![input("/dl/jdk", "/real/jdk"), input("/links/jdk", "/real/jdk")];
    let steps = jim::add("/store", &inputs, &[]);
    assert!(matches!(steps[0], AddStep::Install { .. }));
    assert!(matches!(steps[1], AddStep::SameAs(0)));
    assert!(add_succeeded(&steps, &[true, false]));
}

#[test]
fn add_unresolved_input_is_io_error() {
    let inputs = vec![AddInput { path: "/missing".to_string(), canonical: None }];
    let steps = jim::add("/store", &inputs, &[]);
    assert!(matches!(steps[0], AddStep::Refused(RegistryError::IoError)));
}

#[test]
fn add_without_usable_name_is_invalid() {
    let inputs = vec![input("/", "/"), input("/dl/current", "/dl/current")];
    let steps = jim::add("/store", &inputs, &[]);
    assert!(matches!(steps[0], AddStep::Refused(RegistryError::InvalidName)));
    assert!(matches!(steps[1], AddStep::Refused(RegistryError::InvalidName)));
}

#[test]
fn add_refuses_name_of_any_entry() {
    let inputs = vec![input("/dl/notes", "/dl/notes")];
    let steps = jim::add("/store", &inputs, &[file("notes")]);
    assert!(matches!(steps[0], AddStep::Refused(RegistryError::AlreadyInstalled)));
}

#[test]
fn error_messages_are_distinct() {
    let all = [
        RegistryError::InvalidName,
        RegistryError::NameCollision,
        RegistryError::AlreadyInstalled,
        RegistryError::InstanceNotFound,
        RegistryError::CorruptSelection,
        RegistryError::IoError,
    ];
    for (i, a) in all.iter().enumerate() {
        assert!(!a.message().is_empty());
        for b in all.iter().skip(i + 1) {
            assert_ne!(a.message(), b.message());
        }
    }
}
