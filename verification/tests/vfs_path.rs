use ra_core::vfs_path::{VfsPath, VirtualPath};

#[test]
fn vfs_path_is_pointer_sized() {
    assert_eq!(std::mem::size_of::<VfsPath>(), std::mem::size_of::<usize>());
}

#[test]
fn popping_a_clone_does_not_change_the_original() {
    let original = VfsPath::new_virtual_path("/foo/bar".to_owned());
    let mut parent = original.clone();

    assert!(parent.pop());
    assert_eq!(original, VfsPath::new_virtual_path("/foo/bar".to_owned()));
    assert_eq!(parent, VfsPath::new_virtual_path("/foo".to_owned()));
}

#[test]
fn virtual_path_starts_with_is_component_based() {
    let path = |path: &str| VfsPath::new_virtual_path(path.to_owned());

    assert!(!path("/foobar").starts_with(&path("/foo")));
    assert!(path("/foo/bar").starts_with(&path("/foo")));
}

#[test]
fn virtual_path_extensions() {
    assert_eq!(VirtualPath("/".to_owned()).name_and_extension(), None);
    assert_eq!(
        VirtualPath("/directory".to_owned()).name_and_extension(),
        Some(("directory", None))
    );
    assert_eq!(
        VirtualPath("/directory/".to_owned()).name_and_extension(),
        Some(("directory", None))
    );
    assert_eq!(
        VirtualPath("/directory/file".to_owned()).name_and_extension(),
        Some(("file", None))
    );
    assert_eq!(
        VirtualPath("/directory/.file".to_owned()).name_and_extension(),
        Some((".file", None))
    );
    assert_eq!(
        VirtualPath("/directory/.file.rs".to_owned()).name_and_extension(),
        Some((".file", Some("rs")))
    );
    assert_eq!(
        VirtualPath("/directory/file.rs".to_owned()).name_and_extension(),
        Some(("file", Some("rs")))
    );
}

#[test]
fn popping_ends_at_the_root() {
    let mut path = VfsPath::new_virtual_path("/foo".to_owned());
    assert!(path.pop());
    assert!(!path.pop());
    let mut slashes = VfsPath::new_virtual_path("/a//".to_owned());
    assert!(slashes.pop());
    assert_eq!(slashes, VfsPath::new_virtual_path("/a/".to_owned()));
}

#[test]
fn paths_lie_in_themselves_and_in_their_parents() {
    let path = |path: &str| VfsPath::new_virtual_path(path.to_owned());
    let file = path("/src/lib.rs");
    let mut dir = file.clone();
    assert!(dir.pop());
    assert!(file.starts_with(&file));
    assert!(file.starts_with(&dir));
    assert!(file.starts_with(&path("/")));
    assert!(file.starts_with(&path("/src/")));
    assert!(!dir.starts_with(&file));
    assert!(!file.starts_with(&path("/srd")));
}

#[test]
fn names_keep_all_but_the_last_dot() {
    let path = VfsPath::new_virtual_path("/a.b/archive.tar.gz".to_owned());
    assert_eq!(path.name_and_extension(), Some(("archive.tar", Some("gz"))));
    let dot = VfsPath::new_virtual_path("/a.b/name.".to_owned());
    assert_eq!(dot.name_and_extension(), Some(("name", Some(""))));
    let umlaut = VfsPath::new_virtual_path("/\u{e4}/\u{f6}.\u{fc}".to_owned());
    assert_eq!(umlaut.name_and_extension(), Some(("\u{f6}", Some("\u{fc}"))));
}
