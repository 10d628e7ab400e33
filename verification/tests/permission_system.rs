use advanced_rust::permission_system::{
    file_info, open_file, Auditable, FileHandle, FullAccess, GroupId, NoAccess, Permission,
    PermissionDescExt, ReadExecute, ReadOnly, ReadWrite, UserId,
};

#[test]
fn permission_display_strings() {
    assert_eq!(Permission::<true, false, false>.display(), "r--");
    assert_eq!(Permission::<true, true, false>.display(), "rw-");
    assert_eq!(Permission::<true, false, true>.display(), "r-x");
    assert_eq!(Permission::<true, true, true>.display(), "rwx");
    assert_eq!(Permission::<false, false, false>.display(), "---");
}

#[test]
fn read_write_handle_appends() {
    let mut rw_file: FileHandle<ReadWrite> = open_file("/tmp/data.txt", "Hello");
    assert_eq!(rw_file.path(), "/tmp/data.txt");
    assert_eq!(rw_file.read(), "Hello");
    rw_file.write(", World!");
    assert_eq!(rw_file.read(), "Hello, World!");
    assert_eq!(rw_file.path(), "/tmp/data.txt");
}

#[test]
fn read_execute_handle_exit_code_is_length() {
    let rx_file: FileHandle<ReadExecute> = open_file("/usr/bin/tool", "#!/bin/sh\necho hi");
    assert_eq!(rx_file.read(), "#!/bin/sh\necho hi");
    assert_eq!(rx_file.execute(), 17);
}

#[test]
fn full_access_handle() {
    let mut full_file: FileHandle<FullAccess> = open_file("/home/user/script.sh", "data");
    assert_eq!(full_file.read(), "data");
    full_file.write("_appended");
    assert_eq!(full_file.read(), "data_appended");
    assert_eq!(full_file.execute(), 13);
}

#[test]
fn execute_counts_bytes_modulo_256() {
    let long = "a".repeat(300);
    let h: FileHandle<FullAccess> = open_file("/x", &long);
    assert_eq!(h.execute(), 44);
    let accented: FileHandle<FullAccess> = open_file("/y", "é");
    assert_eq!(accented.execute(), 2);
}

#[test]
fn no_access_handle_keeps_its_path() {
    let no_file: FileHandle<NoAccess> = open_file("/secret/locked", "classified");
    assert_eq!(no_file.path(), "/secret/locked");
}

#[test]
fn ids_and_file_info() {
    assert_eq!(UserId(1000).display(), "uid:1000");
    assert_eq!(GroupId(100).display(), "gid:100");
    assert_eq!(
        file_info("/etc/config", UserId(1000), GroupId(100)),
        "/etc/config owner=uid:1000 group=gid:100"
    );
    assert_eq!(file_info("", UserId(0), GroupId(0)), " owner=uid:0 group=gid:0");
}

#[test]
fn parse_valid_permission_strings() {
    assert_eq!("rwx".parse_permissions(), Ok((true, true, true)));
    assert_eq!("r-x".parse_permissions(), Ok((true, false, true)));
    assert_eq!("rw-".parse_permissions(), Ok((true, true, false)));
    assert_eq!("r--".parse_permissions(), Ok((true, false, false)));
    assert_eq!("---".parse_permissions(), Ok((false, false, false)));
}

#[test]
fn parse_invalid_permission_strings() {
    assert_eq!(
        "rx".parse_permissions(),
        Err("Expected 3 characters, got 2".to_string())
    );
    assert_eq!(
        "abc".parse_permissions(),
        Err("Invalid read char: 'a'".to_string())
    );
    assert_eq!(
        "rrrr".parse_permissions(),
        Err("Expected 3 characters, got 4".to_string())
    );
    assert_eq!(
        "rwr".parse_permissions(),
        Err("Invalid execute char: 'r'".to_string())
    );
    assert_eq!(
        "rxw".parse_permissions(),
        Err("Invalid write char: 'x'".to_string())
    );
    assert_eq!(
        "".parse_permissions(),
        Err("Expected 3 characters, got 0".to_string())
    );
    assert_eq!(
        "réx".parse_permissions(),
        Err("Invalid write char: 'é'".to_string())
    );
}

#[test]
fn audit_log_for_readable_handles() {
    let ro_file: FileHandle<ReadOnly> = open_file("/var/log/app.log", "log data");
    assert_eq!(ro_file.audit_log(), "[AUDIT] Read access on '/var/log/app.log'");
    let rw_file: FileHandle<ReadWrite> = open_file("/tmp/data.txt", "Hello");
    assert_eq!(rw_file.audit_log(), "[AUDIT] Read access on '/tmp/data.txt'");
}

#[test]
fn written_permissions_parse_back() {
    let texts = [
        (Permission::<false, false, false>.display(), (false, false, false)),
        (Permission::<true, false, false>.display(), (true, false, false)),
        (Permission::<false, true, false>.display(), (false, true, false)),
        (Permission::<false, false, true>.display(), (false, false, true)),
        (Permission::<true, true, false>.display(), (true, true, false)),
        (Permission::<true, false, true>.display(), (true, false, true)),
        (Permission::<false, true, true>.display(), (false, true, true)),
        (Permission::<true, true, true>.display(), (true, true, true)),
    ];
    for (text, flags) in texts {
        assert_eq!(text.as_str().parse_permissions(), Ok(flags));
    }
}
