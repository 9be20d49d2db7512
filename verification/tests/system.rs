use lyys_panel::logs::{chronological, journal_args, sort_names, tail_args, LogError};
use lyys_panel::network::{command_json, parse_connections, parse_nameservers, CommandError};
use lyys_panel::opservice::{action_args, services_from_json, services_from_members, services_from_text, unit_ok, Action, ServiceError};

fn strs(v: &[String]) -> Vec<&str> {
    v.iter().map(|s| s.as_str()).collect()
}

#[test]
fn service_actions() {
    assert_eq!(Action::Start.as_str(), "start");
    assert_eq!(Action::Stop.as_str(), "stop");
    assert_eq!(Action::Restart.as_str(), "restart");
    assert_eq!(Action::Reload.as_str(), "reload");
    assert!(unit_ok("nginx.service"));
    assert!(unit_ok("getty@tty1.service"));
    assert!(!unit_ok(""));
    assert!(!unit_ok("a b"));
    assert!(!unit_ok(&"a".repeat(129)));
    assert_eq!(strs(&action_args("ssh.service", Action::Restart).unwrap()), ["restart", "ssh.service"]);
    assert_eq!(action_args("x;y", Action::Stop), Err(ServiceError::BadName));
}

#[test]
fn services_from_plain_listing() {
    let text = "ssh.service loaded active running OpenBSD Secure Shell server\nbroken line\ncron.service loaded active running\n";
    let list = services_from_text(text);
    assert_eq!(list.len(), 2);
    assert_eq!(list[0].name, "ssh.service");
    assert_eq!(list[0].load, "loaded");
    assert_eq!(list[0].active, "active");
    assert_eq!(list[0].sub, "running");
    assert_eq!(list[0].description, "OpenBSD Secure Shell server");
    assert_eq!(list[1].description, "");
}

#[test]
fn services_from_json_listing() {
    let json = br#"[{"unit":"ssh.service","load":"loaded","active":"active","sub":"running","description":"OpenSSH"},{"load":"x"},{"unit":"cron.service"}]"#;
    let list = services_from_json(json);
    assert_eq!(list.len(), 2);
    assert_eq!(list[0].name, "ssh.service");
    assert_eq!(list[0].sub, "running");
    assert_eq!(list[0].description, "OpenSSH");
    assert_eq!(list[1].name, "cron.service");
    assert_eq!(list[1].load, "");
    assert!(services_from_json(b"not json").is_empty());
    assert!(services_from_json(b"{}").is_empty());
}

#[test]
fn services_from_member_values() {
    let some = |s: &str| Some(s.to_string());
    let list = services_from_members(
        &vec![some("a.service"), None],
        &vec![some("loaded"), some("x")],
        &vec![None, None],
        &vec![some("dead"), None],
        &vec![None, None],
    );
    assert_eq!(list.len(), 1);
    assert_eq!(list[0].name, "a.service");
    assert_eq!(list[0].load, "loaded");
    assert_eq!(list[0].active, "");
    assert_eq!(list[0].sub, "dead");
}

#[test]
fn journal_arguments() {
    assert_eq!(strs(&journal_args(None, 0).unwrap()), ["--no-pager", "--reverse", "--lines", "1"]);
    assert_eq!(strs(&journal_args(None, 200).unwrap()), ["--no-pager", "--reverse", "--lines", "200"]);
    assert_eq!(
        strs(&journal_args(Some("nginx.service"), 5000).unwrap()),
        ["--no-pager", "--reverse", "--lines", "2000", "-u", "nginx.service"]
    );
    assert_eq!(journal_args(Some(""), 10), Err(LogError::BadUnit));
    assert_eq!(journal_args(Some("a b"), 10), Err(LogError::BadUnit));
}

#[test]
fn journal_back_in_order() {
    assert_eq!(chronological("c\nb\na\n"), "a\nb\nc");
    assert_eq!(chronological(""), "");
    assert_eq!(chronological("only"), "only");
}

#[test]
fn tail_arguments() {
    assert_eq!(strs(&tail_args("/var/log/syslog", 50).unwrap()), ["-n", "50", "/var/log/syslog"]);
    assert_eq!(strs(&tail_args("/var/log/nginx/error.log", 0).unwrap()), ["-n", "1", "/var/log/nginx/error.log"]);
    assert_eq!(tail_args("/var/logs/x", 5), Err(LogError::OutsideVarLog));
    assert_eq!(tail_args("/var/log/../../etc/shadow", 5), Err(LogError::OutsideVarLog));
    assert_eq!(tail_args("/etc/passwd", 5), Err(LogError::OutsideVarLog));
    assert_eq!(tail_args("/var/log/a..b", 5), Err(LogError::OutsideVarLog));
}

#[test]
fn log_names_sorted() {
    let sorted = sort_names(vec!["syslog".to_string(), "auth.log".to_string(), "Xorg.0.log".to_string(), "auth.log".to_string()]);
    assert_eq!(strs(&sorted), ["Xorg.0.log", "auth.log", "auth.log", "syslog"]);
    assert!(sort_names(vec![]).is_empty());
}

#[test]
fn tcp_connections() {
    let text = "State  Recv-Q Send-Q Local Address:Port Peer Address:Port Process\n\
                LISTEN 0      128    0.0.0.0:22        0.0.0.0:*     users:((\"sshd\",pid=1,fd=3))\n\
                ESTAB  0      0      10.0.0.2:22       10.0.0.9:5000\n\
                short line\n";
    let list = parse_connections(text);
    assert_eq!(list.len(), 2);
    assert_eq!(list[0].state, "LISTEN");
    assert_eq!(list[0].recv_q, "0");
    assert_eq!(list[0].send_q, "128");
    assert_eq!(list[0].local, "0.0.0.0:22");
    assert_eq!(list[0].peer, "0.0.0.0:*");
    assert_eq!(list[0].process, "users:((\"sshd\",pid=1,fd=3))");
    assert_eq!(list[1].process, "");
    assert!(parse_connections("").is_empty());
}

#[test]
fn dns_servers() {
    let text = "# generated\nnameserver 1.1.1.1\n  nameserver   8.8.8.8  \nsearch lan\nnameserver\n";
    assert_eq!(strs(&parse_nameservers(text)), ["1.1.1.1", "8.8.8.8", ""]);
}

#[test]
fn command_json_output() {
    assert_eq!(command_json(false, b"[]"), Err(CommandError::Failed));
    assert_eq!(command_json(true, b"[1, 2]"), Ok("[1,2]".to_string()));
    assert_eq!(command_json(true, b"[{\"ifname\": \"lo\", \"mtu\": 65536}]"), Ok("[{\"ifname\":\"lo\",\"mtu\":65536}]".to_string()));
    assert_eq!(command_json(true, b"not json"), Err(CommandError::BadOutput));
    assert_eq!(command_json(true, b""), Err(CommandError::BadOutput));
}
