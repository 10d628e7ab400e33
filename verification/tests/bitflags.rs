use advanced_rust::bitflags::{FileMode, Permissions};

#[test]
fn permissions_union_and_text() {
    let rw = Permissions::READ() | Permissions::WRITE();
    assert_eq!(rw.display(), "READ | WRITE");
    assert_eq!(rw.debug(), "Permissions(0b00000011)");
    assert!(rw.contains(Permissions::READ()));
    assert!(!rw.contains(Permissions::EXECUTE()));
}

#[test]
fn permissions_insert_remove_toggle() {
    let mut perms = Permissions::READ();
    assert_eq!(perms.display(), "READ");
    perms.insert(Permissions::WRITE() | Permissions::EXECUTE());
    assert_eq!(perms.display(), "READ | WRITE | EXECUTE");
    perms.remove(Permissions::WRITE());
    assert_eq!(perms.display(), "READ | EXECUTE");
    perms.toggle(Permissions::DELETE());
    assert_eq!(perms.display(), "READ | EXECUTE | DELETE");
    perms.toggle(Permissions::DELETE());
    assert_eq!(perms.display(), "READ | EXECUTE");
}

#[test]
fn permissions_all_and_empty() {
    let all = Permissions::all();
    assert_eq!(all.display(), "READ | WRITE | EXECUTE | DELETE");
    assert_eq!(all.bits(), 0b1111);
    let empty = Permissions::empty();
    assert_eq!(empty.display(), "(empty)");
    assert!(empty.is_empty());
    assert!(!all.is_empty());
}

#[test]
fn permissions_and_not() {
    let rwe = Permissions::READ() | Permissions::WRITE() | Permissions::EXECUTE();
    let re = Permissions::READ() | Permissions::EXECUTE();
    assert_eq!((rwe & re).display(), "READ | EXECUTE");
    let inverted = !Permissions::READ();
    assert_eq!(inverted.debug(), "Permissions(0b11111110)");
    assert_eq!(inverted.bits(), 0b1111_1110);
    assert_eq!(inverted.display(), "WRITE | EXECUTE | DELETE");
}

#[test]
fn permissions_unnamed_bits_show_in_binary() {
    assert_eq!(Permissions(0b1_0000).display(), "(0b00010000)");
    assert_eq!(Permissions(0b1_0001).display(), "READ");
}

#[test]
fn permissions_equality_ignores_order() {
    let a = Permissions::READ() | Permissions::WRITE();
    let b = Permissions::WRITE() | Permissions::READ();
    assert!(a == b);
    assert!(a != Permissions::READ());
}

#[test]
fn permissions_laws_on_values() {
    let mut p = Permissions::READ();
    p.insert(Permissions::DELETE());
    assert!(p.contains(Permissions::DELETE()));
    p.remove(Permissions::DELETE());
    assert!(!p.contains(Permissions::DELETE()));
    let before = p;
    p.toggle(Permissions::WRITE());
    p.toggle(Permissions::WRITE());
    assert!(p == before);
}

#[test]
fn file_mode_644_and_755() {
    let mode_644 = FileMode::OWNER_READ()
        | FileMode::OWNER_WRITE()
        | FileMode::GROUP_READ()
        | FileMode::OTHER_READ();
    assert_eq!(mode_644.bits(), 0o644);
    assert_eq!(
        mode_644.display(),
        "OWNER_READ | OWNER_WRITE | GROUP_READ | OTHER_READ"
    );
    assert_eq!(mode_644.debug(), "FileMode(0b0000000110100100)");
    assert!(mode_644.contains(FileMode::OWNER_WRITE()));
    assert!(!mode_644.contains(FileMode::GROUP_WRITE()));

    let mode_755 = FileMode::OWNER_READ()
        | FileMode::OWNER_WRITE()
        | FileMode::OWNER_EXEC()
        | FileMode::GROUP_READ()
        | FileMode::GROUP_EXEC()
        | FileMode::OTHER_READ()
        | FileMode::OTHER_EXEC();
    assert_eq!(mode_755.bits(), 0o755);
    assert_eq!(
        mode_755.display(),
        "OWNER_READ | OWNER_WRITE | OWNER_EXEC | GROUP_READ | GROUP_EXEC | OTHER_READ | OTHER_EXEC"
    );
}

#[test]
fn file_mode_all_empty_and_ops() {
    let all = FileMode::all();
    assert_eq!(all.bits(), 0o777);
    assert_eq!(
        all.display(),
        "OWNER_READ | OWNER_WRITE | OWNER_EXEC | GROUP_READ | GROUP_WRITE | GROUP_EXEC | OTHER_READ | OTHER_WRITE | OTHER_EXEC"
    );
    assert_eq!(FileMode::empty().display(), "(empty)");
    assert!(FileMode::empty().is_empty());
    assert_eq!((!FileMode::empty()).bits(), 0xFFFF);
    assert_eq!(FileMode(0o1000).display(), "(0b0000001000000000)");
    let mut m = FileMode::OTHER_EXEC();
    m.toggle(FileMode::OTHER_EXEC());
    assert!(m.is_empty());
    assert_eq!((all & FileMode::GROUP_WRITE()).bits(), 0o020);
}
