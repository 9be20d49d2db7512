use lyys_panel::distro::{classify, detect, family, field, pretty, Distro, Family};

#[test]
fn debian_family() {
    assert_eq!(classify("debian", ""), Some(Family::Debian));
    // ubuntu usually has ID_LIKE="debian"
    assert_eq!(classify("ubuntu", "debian"), Some(Family::Debian));
    // derivatives: ID not listed, but ID_LIKE holds debian
    assert_eq!(classify("linuxmint", "ubuntu debian"), Some(Family::Debian));
    assert_eq!(classify("pop", "ubuntu debian"), Some(Family::Debian));
}

#[test]
fn arch_family() {
    assert_eq!(classify("arch", ""), Some(Family::Arch));
    // manjaro has ID_LIKE="arch"
    assert_eq!(classify("manjaro", "arch"), Some(Family::Arch));
}

#[test]
fn unsupported() {
    // the RHEL family, openSUSE and Alpine are not supported
    assert_eq!(classify("fedora", "rhel centos fedora"), None);
    assert_eq!(classify("centos", "rhel fedora"), None);
    assert_eq!(classify("opensuse-leap", "suse"), None);
    assert_eq!(classify("alpine", ""), None);
    assert_eq!(classify("", ""), None);
}

#[test]
fn field_parsing() {
    let content = "NAME=\"Debian GNU/Linux\"\nID=debian\nID_LIKE=\"\"\nPRETTY_NAME=\"Debian GNU/Linux 13 (trixie)\"\n";
    assert_eq!(field(content, "ID").as_deref(), Some("debian"));
    assert_eq!(field(content, "PRETTY_NAME").as_deref(), Some("Debian GNU/Linux 13 (trixie)"));
    // an empty value counts as absent
    assert_eq!(field(content, "ID_LIKE"), None);
    // a key that is not there
    assert_eq!(field(content, "HOME_URL"), None);
}

#[test]
fn debian_wins_over_arch() {
    assert_eq!(classify("something", "arch debian"), Some(Family::Debian));
    assert_eq!(classify("ubuntu", "arch"), Some(Family::Debian));
}

#[test]
fn classify_matches_whole_words_only() {
    assert_eq!(classify("debianish", ""), None);
    assert_eq!(classify("archlinux", ""), None);
    assert_eq!(classify("  arch  ", ""), Some(Family::Arch));
}

#[test]
fn field_needs_the_exact_key_and_trims() {
    let content = "IDX=nope\nID =spaced\nID=  \"arch\"  \n";
    assert_eq!(field(content, "ID").as_deref(), Some("arch"));
    assert_eq!(field("VERSION_ID=\"13\"\n", "ID"), None);
    // the first non-empty occurrence wins
    assert_eq!(field("ID=\nID=first\nID=second\n", "ID").as_deref(), Some("first"));
}

#[test]
fn detect_supported_system() {
    let content = "ID=ubuntu\nID_LIKE=debian\nPRETTY_NAME=\"Ubuntu 24.04 LTS\"\n";
    let d = detect(content).unwrap();
    assert_eq!(d.family, Family::Debian);
    assert_eq!(d.pretty, "Ubuntu 24.04 LTS");
}

#[test]
fn detect_falls_back_to_id_for_the_name() {
    let d = detect("ID=arch\n").unwrap();
    assert_eq!(d.family, Family::Arch);
    assert_eq!(d.pretty, "arch");
}

#[test]
fn detect_unsupported_system() {
    let e = match detect("ID=fedora\nPRETTY_NAME=\"Fedora Linux 40\"\n") {
        Ok(_) => panic!("fedora is not supported"),
        Err(e) => e,
    };
    assert_eq!(
        e,
        "当前系统 Fedora Linux 40 暂不支持（目前支持 Debian/Ubuntu 系与 Arch 系），服务停止启动"
    );
    let e = match detect("") {
        Ok(_) => panic!("an empty file names no system"),
        Err(e) => e,
    };
    assert_eq!(e, "当前系统 未知系统 暂不支持（目前支持 Debian/Ubuntu 系与 Arch 系），服务停止启动");
}

#[test]
fn current_family_and_name() {
    let none: Option<Distro> = None;
    assert_eq!(pretty(&none), "未知系统");
    let cur = Some(Distro { family: Family::Arch, pretty: "Arch Linux".to_string() });
    assert_eq!(family(&cur), Family::Arch);
    assert_eq!(pretty(&cur), "Arch Linux");
}
