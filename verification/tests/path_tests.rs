use maestro::path::{Component, Path};

#[test]
fn path_absolute0() {
    assert!(Path::new(b"/").unwrap().is_absolute());
}

#[test]
fn path_absolute1() {
    assert!(Path::new(b"/.").unwrap().is_absolute());
}

#[test]
fn path_absolute2() {
    assert!(!Path::new(b".").unwrap().is_absolute());
}

#[test]
fn path_absolute3() {
    assert!(!Path::new(b"..").unwrap().is_absolute());
}

#[test]
fn path_absolute4() {
    assert!(!Path::new(b"./").unwrap().is_absolute());
}

#[test]
fn components() {
    // Absolute
    let path = Path::new(b"/etc/passwd").unwrap();
    let mut iter = path.components();
    assert_eq!(iter.next(), Some(Component::RootDir));
    assert_eq!(iter.next(), Some(Component::Normal(b"etc")));
    assert_eq!(iter.next(), Some(Component::Normal(b"passwd")));
    assert_eq!(iter.next(), None);

    // Relative
    let path = Path::new(b"etc/passwd").unwrap();
    let mut iter = path.components();
    assert_eq!(iter.next(), Some(Component::Normal(b"etc")));
    assert_eq!(iter.next(), Some(Component::Normal(b"passwd")));
    assert_eq!(iter.next(), None);

    // Relative with `.` and `..`
    let path = Path::new(b"etc/./../etc/passwd").unwrap();
    let mut iter = path.components();
    assert_eq!(iter.next(), Some(Component::Normal(b"etc")));
    assert_eq!(iter.next(), Some(Component::CurDir));
    assert_eq!(iter.next(), Some(Component::ParentDir));
    assert_eq!(iter.next(), Some(Component::Normal(b"etc")));
    assert_eq!(iter.next(), Some(Component::Normal(b"passwd")));
    assert_eq!(iter.next(), None);
}

#[test]
fn components_back() {
    // Absolute
    let path = Path::new(b"/etc/passwd").unwrap();
    let mut iter = path.components();
    assert_eq!(iter.next_back(), Some(Component::Normal(b"passwd")));
    assert_eq!(iter.next_back(), Some(Component::Normal(b"etc")));
    assert_eq!(iter.next_back(), Some(Component::RootDir));
    assert_eq!(iter.next_back(), None);

    // Relative
    let path = Path::new(b"etc/passwd").unwrap();
    let mut iter = path.components();
    assert_eq!(iter.next_back(), Some(Component::Normal(b"passwd")));
    assert_eq!(iter.next_back(), Some(Component::Normal(b"etc")));
    assert_eq!(iter.next_back(), None);

    // Relative with `.` and `..`
    let path = Path::new(b"etc/./../etc/passwd").unwrap();
    let mut iter = path.components();
    assert_eq!(iter.next_back(), Some(Component::Normal(b"passwd")));
    assert_eq!(iter.next_back(), Some(Component::Normal(b"etc")));
    assert_eq!(iter.next_back(), Some(Component::ParentDir));
    assert_eq!(iter.next_back(), Some(Component::CurDir));
    assert_eq!(iter.next_back(), Some(Component::Normal(b"etc")));
    assert_eq!(iter.next_back(), None);
}

#[test]
fn path_join() {
    let base = Path::new(b"/etc").unwrap();
    let joined = base.join(&Path::new(b"ssh/sshd_config").unwrap());
    assert_eq!(joined.as_path().as_bytes(), b"/etc/ssh/sshd_config");
    let root = Path::new(b"/").unwrap();
    assert_eq!(root.join(&Path::new(b"etc").unwrap()).as_path().as_bytes(), b"/etc");
    let rel = Path::new(b"a/./b").unwrap();
    assert_eq!(rel.join(&Path::new(b"..").unwrap()).as_path().as_bytes(), b"a/./b/..");
    // An absolute path replaces the base
    assert_eq!(base.join(&Path::new(b"/usr").unwrap()).as_path().as_bytes(), b"/usr");
}

#[test]
fn path_starts_with() {
    let p = Path::new(b"/a").unwrap();
    let base = Path::new(b"/a/b").unwrap();
    assert!(!p.starts_with(&base));
    assert!(base.starts_with(&p));
    assert!(Path::new(b"/etc/passwd").unwrap().starts_with(&Path::new(b"/etc").unwrap()));
    assert!(!Path::new(b"/etc/passwd").unwrap().starts_with(&Path::new(b"/et").unwrap()));
}

#[test]
fn path_strip_prefix() {
    let p = Path::new(b"/etc/passwd").unwrap();
    assert!(p.strip_prefix(&Path::new(b"/et").unwrap()).is_none());
    assert_eq!(p.strip_prefix(&Path::new(b"/etc/").unwrap()).unwrap().as_bytes(), b"passwd");
    assert_eq!(p.strip_prefix(&Path::new(b"/etc").unwrap()).unwrap().as_bytes(), b"passwd");
    assert_eq!(p.strip_prefix(&p).unwrap().as_bytes(), b"");
    assert!(p.strip_prefix(&Path::new(b"/etc/passwd/x").unwrap()).is_none());
}

#[test]
fn path_parent_and_name() {
    let p = Path::new(b"/etc/passwd").unwrap();
    assert_eq!(p.parent().unwrap().as_bytes(), b"/etc/");
    assert_eq!(p.file_name(), Some(&b"passwd"[..]));
    let q = Path::new(b"/usr/lib//").unwrap();
    assert_eq!(q.parent().unwrap().as_bytes(), b"/usr/");
    assert_eq!(q.file_name(), Some(&b"lib"[..]));
    assert!(Path::new(b"/").unwrap().parent().is_none());
    assert!(Path::new(b"///").unwrap().file_name().is_none());
}
