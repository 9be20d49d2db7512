use lyys_panel::distro::Family;
use lyys_panel::packages::{
    batch_command, check_name, check_pattern, installed_command, parse_listing, search_command, update_command,
    upgradable_command, upgrade_check_failed, Listing, PackageInfo, PkgError, PkgOp,
};

fn strs(v: &[String]) -> Vec<&str> {
    v.iter().map(|s| s.as_str()).collect()
}

fn row(p: &PackageInfo) -> [&str; 4] {
    [p.name.as_str(), p.version.as_str(), p.arch.as_str(), p.description.as_str()]
}

#[test]
fn package_names() {
    assert_eq!(check_name("libc6"), Ok(()));
    assert_eq!(check_name("g++"), Ok(()));
    assert_eq!(check_name("libfoo:amd64"), Ok(()));
    assert_eq!(check_name("python3.11-venv_x"), Ok(()));
    assert_eq!(check_name(""), Err(PkgError::BadName));
    assert_eq!(check_name("-y"), Err(PkgError::BadName));
    assert_eq!(check_name("a b"), Err(PkgError::BadName));
    assert_eq!(check_name("a;b"), Err(PkgError::BadName));
    assert_eq!(check_name(&"a".repeat(129)), Err(PkgError::BadName));
    assert_eq!(check_pattern("nginx web"), Ok(()));
    assert_eq!(check_pattern(""), Err(PkgError::BadPattern));
    assert_eq!(check_pattern("-x"), Err(PkgError::BadPattern));
    assert_eq!(check_pattern(&"a".repeat(129)), Err(PkgError::BadPattern));
}

#[test]
fn dpkg_listing() {
    let text = "bash\t5.2-2\tamd64\tGNU Bourne Again SHell\n This is the long part\ncurl\t8.5\tamd64\t  command line tool  \nbroken\tline\n";
    let list = parse_listing(Listing::InstalledDeb, None, text, 10).unwrap();
    assert_eq!(list.len(), 2);
    assert_eq!(row(&list[0]), ["bash", "5.2-2", "amd64", "GNU Bourne Again SHell"]);
    assert_eq!(row(&list[1]), ["curl", "8.5", "amd64", "command line tool"]);
    let one = parse_listing(Listing::InstalledDeb, None, text, 1).unwrap();
    assert_eq!(one.len(), 1);
    // a zero limit still keeps a first package
    let zero = parse_listing(Listing::InstalledDeb, None, text, 0).unwrap();
    assert_eq!(zero.len(), 1);
}

#[test]
fn pacman_listing_and_filter() {
    let text = "bash 5.2.026-2\nlinux 6.9.1\nlinux-firmware 2024\nodd\n";
    let all = parse_listing(Listing::InstalledArch, None, text, 100).unwrap();
    assert_eq!(all.len(), 3);
    assert_eq!(row(&all[1]), ["linux", "6.9.1", "", ""]);
    let some = parse_listing(Listing::InstalledArch, Some("linux"), text, 100).unwrap();
    assert_eq!(some.len(), 2);
    assert_eq!(some[1].name, "linux-firmware");
    assert_eq!(parse_listing(Listing::InstalledArch, Some("a b"), text, 100).err(), Some(PkgError::BadName));
    // the filter is only looked at when a line names a package
    assert_eq!(parse_listing(Listing::InstalledArch, Some("a b"), "", 100).unwrap().len(), 0);
}

#[test]
fn upgradable_listings() {
    let text = "Reading package lists...\nInst libc6 [2.36-9] (2.36-9+deb12u4 Debian:12.5/stable [amd64])\nConf libc6 (2.36)\nInst newpkg (1.0 Debian [all])\n";
    let list = parse_listing(Listing::UpgradableDeb, None, text, 1).unwrap();
    assert_eq!(list.len(), 2);
    assert_eq!(row(&list[0]), ["libc6", "2.36-9 -> 2.36-9+deb12u4", "", ""]);
    assert_eq!(row(&list[1]), ["newpkg", "all -> 1.0", "", ""]);
    let text = "linux 6.9.1 -> 6.9.2\nbad -> line\n";
    let list = parse_listing(Listing::UpgradableArch, None, text, 0).unwrap();
    assert_eq!(list.len(), 1);
    assert_eq!(row(&list[0]), ["linux", "6.9.1 -> 6.9.2", "", ""]);
}

#[test]
fn search_listings() {
    let text = "nginx - small, powerful web server\nnginx-extras - more modules\nno separator\n";
    let list = parse_listing(Listing::SearchDeb, None, text, 10).unwrap();
    assert_eq!(list.len(), 2);
    assert_eq!(row(&list[0]), ["nginx", "", "", "small, powerful web server"]);
    assert_eq!(parse_listing(Listing::SearchDeb, None, text, 1).unwrap().len(), 1);
    assert_eq!(parse_listing(Listing::SearchDeb, None, "junk\nnginx - x\n", 0).unwrap().len(), 0);
    let text = "extra/nginx 1.26.1-1 [installed]\n    Lightweight HTTP server\ncore/zlib 1:1.3.1-1 | Compression library\nextra/nginx-mainline 1.27.0-1 | HTTP server\n";
    let list = parse_listing(Listing::SearchArch, None, text, 10).unwrap();
    assert_eq!(list.len(), 2);
    assert_eq!(row(&list[0]), ["zlib", "1:1.3.1-1", "", "Compression library"]);
    assert_eq!(row(&list[1]), ["nginx-mainline", "1.27.0-1", "", "HTTP server"]);
}

#[test]
fn batch_commands() {
    let names = vec!["curl".to_string(), "git".to_string()];
    let c = batch_command(PkgOp::Install, Family::Debian, &names).unwrap();
    assert_eq!(c.program, "apt-get");
    assert_eq!(strs(&c.args), ["install", "-y", "--no-install-recommends", "curl", "git"]);
    assert!(c.noninteractive);
    let c = batch_command(PkgOp::Upgrade, Family::Debian, &names).unwrap();
    assert_eq!(strs(&c.args), ["install", "-y", "--only-upgrade", "curl", "git"]);
    let c = batch_command(PkgOp::Remove, Family::Debian, &names).unwrap();
    assert_eq!(strs(&c.args), ["remove", "-y", "curl", "git"]);
    let c = batch_command(PkgOp::Install, Family::Arch, &names).unwrap();
    assert_eq!(c.program, "pacman");
    assert_eq!(strs(&c.args), ["-S", "--noconfirm", "--needed", "curl", "git"]);
    assert!(!c.noninteractive);
    let c = batch_command(PkgOp::Remove, Family::Arch, &names).unwrap();
    assert_eq!(strs(&c.args), ["-R", "--noconfirm", "curl", "git"]);
    assert!(matches!(batch_command(PkgOp::Install, Family::Debian, &vec![]), Err(PkgError::BadCount)));
    let many: Vec<String> = (0..51).map(|i| format!("p{i}")).collect();
    assert!(matches!(batch_command(PkgOp::Install, Family::Debian, &many), Err(PkgError::BadCount)));
    let bad = vec!["ok".to_string(), "--purge".to_string()];
    assert!(matches!(batch_command(PkgOp::Remove, Family::Arch, &bad), Err(PkgError::BadName)));
}

#[test]
fn listing_commands() {
    let c = update_command(Family::Debian);
    assert_eq!((c.program.as_str(), strs(&c.args), c.noninteractive), ("apt-get", vec!["update"], true));
    let c = update_command(Family::Arch);
    assert_eq!((c.program.as_str(), strs(&c.args)), ("pacman", vec!["-Sy", "--noconfirm"]));
    let c = installed_command(Family::Debian, Some("lib")).unwrap();
    assert_eq!(c.program, "dpkg-query");
    assert_eq!(strs(&c.args), ["-W", "-f=${Package}\t${Version}\t${Architecture}\t${Description}\n", "lib*"]);
    assert!(matches!(installed_command(Family::Debian, Some("a b")), Err(PkgError::BadName)));
    let c = installed_command(Family::Arch, Some("a b")).unwrap();
    assert_eq!(strs(&c.args), ["-Q"]);
    let c = upgradable_command(Family::Debian);
    assert_eq!(strs(&c.args), ["-s", "upgrade"]);
    assert!(c.c_locale && c.noninteractive);
    let c = upgradable_command(Family::Arch);
    assert_eq!((c.program.as_str(), strs(&c.args), c.c_locale), ("pacman", vec!["-Qu"], true));
    let c = search_command(Family::Debian, "nginx").unwrap();
    assert_eq!(strs(&c.args), ["search", "--names-only", "nginx"]);
    let c = search_command(Family::Arch, "nginx").unwrap();
    assert_eq!(strs(&c.args), ["-Ss", "nginx"]);
    assert!(matches!(search_command(Family::Arch, "-x"), Err(PkgError::BadPattern)));
}

#[test]
fn upgrade_check_exit_codes() {
    assert!(!upgrade_check_failed(Family::Debian, true, Some(0)));
    assert!(upgrade_check_failed(Family::Debian, false, Some(1)));
    assert!(!upgrade_check_failed(Family::Arch, false, Some(1)));
    assert!(upgrade_check_failed(Family::Arch, false, Some(2)));
    assert!(upgrade_check_failed(Family::Arch, false, None));
}
