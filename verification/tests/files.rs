use lyys_panel::files::{
    check_download, check_read, check_removal, check_rename_target, check_syntax, check_write_target,
    decode_text, download_name, file_mode_text, is_binary, is_canonical, join_path, make_listing,
    sort_entries, upload_name, upload_step, upload_target, UploadStep, Entry, FileError, FileGuard, MAX_DOWNLOAD_SIZE, MAX_READ_SIZE,
};

fn entry(name: &str, is_dir: bool) -> Entry {
    Entry {
        name: name.to_string(),
        path: format!("/srv/{name}"),
        is_dir,
        is_symlink: false,
        size: 0,
        mode: "644".to_string(),
        mtime: 0,
    }
}

#[test]
fn path_syntax() {
    assert_eq!(check_syntax("/etc/hosts"), Ok(()));
    assert_eq!(check_syntax("/"), Ok(()));
    assert_eq!(check_syntax("etc/hosts"), Err(FileError::NotAbsolute));
    assert_eq!(check_syntax(""), Err(FileError::NotAbsolute));
    assert_eq!(check_syntax("/etc/../root"), Err(FileError::DotDot));
    assert_eq!(check_syntax("/etc/.."), Err(FileError::DotDot));
    // a name that only starts with two dots is fine
    assert_eq!(check_syntax("/etc/..hidden"), Ok(()));
}

#[test]
fn protected_paths() {
    let mut g = FileGuard::new();
    // database files are always off limits, in any case
    assert!(g.is_protected("/home/u/app.db"));
    assert!(g.is_protected("/home/u/APP.DB-WAL"));
    assert!(g.is_protected("/x/y.db-shm"));
    assert!(!g.is_protected("/home/u/app.dbx"));
    assert!(!g.is_protected("/opt/panel/notes.txt"));
    g.set_protected_dir("/opt/panel");
    assert!(g.is_protected("/opt/panel"));
    assert!(g.is_protected("/opt/panel/jwt.key"));
    assert!(g.is_protected("/opt/panel//sub/"));
    // a sibling that shares the prefix is not inside
    assert!(!g.is_protected("/opt/panelx/file"));
    // only the first setting counts
    g.set_protected_dir("/srv");
    assert!(!g.is_protected("/srv/file"));
    assert!(g.is_protected("/opt/panel/x"));
}

#[test]
fn resolving_paths() {
    let mut g = FileGuard::new();
    g.set_protected_dir("/opt/panel");
    assert_eq!(g.resolve("/etc/hosts", None), Ok("/etc/hosts".to_string()));
    assert_eq!(g.resolve("/link", Some("/etc/real")), Ok("/etc/real".to_string()));
    assert_eq!(g.resolve("/link", Some("/opt/panel/panel.db")), Err(FileError::Protected));
    assert_eq!(g.resolve("relative", None), Err(FileError::NotAbsolute));
    assert_eq!(g.resolve("/a/../opt/panel", None), Err(FileError::DotDot));
    assert_eq!(g.resolve("/tmp/new.db", None), Err(FileError::Protected));
}

#[test]
fn removal_of_the_root_is_refused() {
    assert_eq!(check_removal("/"), Err(FileError::RootRemoval));
    assert_eq!(check_removal("//"), Err(FileError::RootRemoval));
    assert_eq!(check_removal("/tmp"), Ok(()));
}

#[test]
fn permission_bits() {
    assert_eq!(file_mode_text(0o100755), "755");
    assert_eq!(file_mode_text(0o644), "644");
    assert_eq!(file_mode_text(0o4755), "4755");
    assert_eq!(file_mode_text(0), "0");
    assert_eq!(file_mode_text(0o7), "7");
}

#[test]
fn listing_order() {
    let sorted = sort_entries(vec![
        entry("zeta", false),
        entry("beta", true),
        entry("alpha", false),
        entry("Gamma", true),
        entry("alpha", false),
    ]);
    let names: Vec<(&str, bool)> = sorted.iter().map(|e| (e.name.as_str(), e.is_dir)).collect();
    assert_eq!(
        names,
        vec![("Gamma", true), ("beta", true), ("alpha", false), ("alpha", false), ("zeta", false)]
    );
    assert!(sort_entries(vec![]).is_empty());
}

#[test]
fn directory_listings() {
    assert!(is_canonical("/"));
    assert!(is_canonical("/srv/www"));
    assert!(!is_canonical("/srv/"));
    assert!(!is_canonical("/srv//www"));
    assert!(!is_canonical("/srv/./www"));
    assert!(!is_canonical("srv"));
    let l = make_listing("/srv/www", vec![entry("b", false), entry("a", true)]);
    assert_eq!(l.path, "/srv/www");
    assert_eq!(l.parent.as_deref(), Some("/srv"));
    assert_eq!(l.entries[0].name, "a");
    let l = make_listing("/srv", vec![]);
    assert_eq!(l.parent.as_deref(), Some("/"));
    let l = make_listing("/", vec![]);
    assert_eq!(l.parent, None);
}

#[test]
fn download_and_upload_names() {
    assert_eq!(download_name("/var/log/syslog"), "syslog");
    assert_eq!(download_name("/"), "download");
    assert_eq!(upload_name("report.pdf"), Ok("report.pdf".to_string()));
    assert_eq!(upload_name("../../etc/passwd"), Ok("passwd".to_string()));
    assert_eq!(upload_name("dir/sub/"), Ok("sub".to_string()));
    assert_eq!(upload_name(""), Err(FileError::BadUploadName));
    assert_eq!(upload_name(".."), Err(FileError::BadUploadName));
    assert_eq!(upload_name("/"), Err(FileError::BadUploadName));
}

#[test]
fn upload_targets() {
    assert_eq!(join_path("/srv", "a.txt"), "/srv/a.txt");
    assert_eq!(join_path("/", "a.txt"), "/a.txt");
    assert_eq!(upload_target("/srv", "a.txt", 0), "/srv/a.txt");
    assert_eq!(upload_target("/srv", "a.txt", 1), "/srv/a(1).txt");
    assert_eq!(upload_target("/srv", "archive.tar.gz", 12), "/srv/archive.tar(12).gz");
    assert_eq!(upload_target("/srv", "README", 3), "/srv/README(3)");
    assert_eq!(upload_target("/srv", ".bashrc", 2), "/srv/.bashrc(2)");
}

#[test]
fn binary_detection() {
    assert!(!is_binary(b"plain text\n"));
    assert!(!is_binary("中文".as_bytes()));
    assert!(!is_binary(b""));
    assert!(is_binary(b"a\0b"));
    assert!(is_binary(&[0xff, 0xfe]));
    assert!(is_binary(&[0xe4, 0xb8]));
}

#[test]
fn size_and_kind_checks() {
    assert_eq!(check_read(true, MAX_READ_SIZE), Ok(()));
    assert_eq!(check_read(true, MAX_READ_SIZE + 1), Err(FileError::TooLarge));
    assert_eq!(check_read(false, 1), Err(FileError::NotAFile));
    assert_eq!(check_download(true, MAX_DOWNLOAD_SIZE), Ok(()));
    assert_eq!(check_download(true, MAX_DOWNLOAD_SIZE + 1), Err(FileError::TooLarge));
    assert_eq!(check_download(false, 0), Err(FileError::NotAFile));
}

#[test]
fn decoding_text() {
    assert_eq!(decode_text("héllo".as_bytes().to_vec()), Ok("héllo".to_string()));
    assert_eq!(decode_text(vec![0x41, 0x00]), Err(FileError::Binary));
    assert_eq!(decode_text(vec![0xc3]), Err(FileError::Binary));
}

#[test]
fn write_and_rename_targets() {
    assert_eq!(check_write_target(false, false, b""), Ok(()));
    assert_eq!(check_write_target(true, true, b"text"), Ok(()));
    assert_eq!(check_write_target(true, false, b""), Err(FileError::NotAFile));
    assert_eq!(check_write_target(true, true, b"\x7fELF\0"), Err(FileError::Binary));
    assert_eq!(check_rename_target(false), Ok(()));
    assert_eq!(check_rename_target(true), Err(FileError::Exists));
}

#[test]
fn upload_steps_never_replace_a_file() {
    assert_eq!(upload_step(0, false), UploadStep::Use(0));
    assert_eq!(upload_step(0, true), UploadStep::Try(1));
    assert_eq!(upload_step(998, true), UploadStep::Try(999));
    assert_eq!(upload_step(999, false), UploadStep::Use(999));
    assert_eq!(upload_step(999, true), UploadStep::Refuse);
    // Names 0..=4 taken: the walk ends at 5.
    let mut i = 0u32;
    let chosen = loop {
        match upload_step(i, i < 5) {
            UploadStep::Use(n) => break Some(n),
            UploadStep::Try(n) => i = n,
            UploadStep::Refuse => break None,
        }
    };
    assert_eq!(chosen, Some(5));
    // Every name taken: refused after 1000 looks.
    let mut i = 0u32;
    let mut looks = 0;
    let chosen = loop {
        looks += 1;
        match upload_step(i, true) {
            UploadStep::Use(n) => break Some(n),
            UploadStep::Try(n) => i = n,
            UploadStep::Refuse => break None,
        }
    };
    assert_eq!(chosen, None);
    assert_eq!(looks, 1000);
}
