use lyys_panel::auth::LoginThrottle;
use lyys_panel::api::{
    bearer_token, check_upload, content_disposition, cron_index, default_limit, default_lines, default_log_tail,
    default_pkg_limit, history_limit, kill_failed, login_failed, login_gate, login_result, login_wait_error, package_list_limit,
    package_search_limit, parse_docker_action, parse_image_action, parse_pkg_action, search_keyword, ApiError,
    ImageAction, PkgAction,
};
use lyys_panel::docker::Action;

fn err<T>(r: Result<T, ApiError>) -> (u16, String) {
    match r {
        Ok(_) => panic!("expected an error answer"),
        Err(e) => (e.status, e.message),
    }
}

fn ok<T>(r: Result<T, ApiError>) -> T {
    match r {
        Ok(v) => v,
        Err(e) => panic!("unexpected error {} {}", e.status, e.message),
    }
}

#[test]
fn error_answers() {
    let e = ApiError::bad("x".to_string());
    assert_eq!((e.status, e.message.as_str()), (400, "x"));
    let e = ApiError::unauthorized("y".to_string());
    assert_eq!(e.status, 401);
    let e = ApiError::too_many_requests("z".to_string());
    assert_eq!(e.status, 429);
    let e = ApiError::internal("disk full");
    assert_eq!((e.status, e.message.as_str()), (500, "内部错误：disk full"));
    let e = login_failed();
    assert_eq!((e.status, e.message.as_str()), (401, "用户名或密码错误"));
    let e = kill_failed(4242);
    assert_eq!((e.status, e.message.as_str()), (400, "结束进程 4242 失败（可能权限不足）"));
}

#[test]
fn bearer_tokens() {
    assert_eq!(ok(bearer_token("Bearer abc.def")), "abc.def");
    assert_eq!(ok(bearer_token("Bearer ")), "");
    assert_eq!(err(bearer_token("bearer abc")), (401, "认证头格式错误".to_string()));
    assert_eq!(err(bearer_token("Basic xyz")), (401, "认证头格式错误".to_string()));
    assert_eq!(err(bearer_token("")), (401, "认证头格式错误".to_string()));
}

#[test]
fn login_wait_answers() {
    assert!(login_wait_error(0).is_none());
    let e = login_wait_error(1).unwrap();
    assert_eq!((e.status, e.message.as_str()), (429, "登录尝试过于频繁，请 1 秒后再试"));
    let e = login_wait_error(8_500_000_000).unwrap();
    assert_eq!(e.message, "登录尝试过于频繁，请 8 秒后再试");
}

#[test]
fn download_header() {
    assert_eq!(content_disposition("a b.txt"), "attachment; filename*=UTF-8''a%20b.txt");
    assert_eq!(content_disposition("报告.pdf"), "attachment; filename*=UTF-8''%E6%8A%A5%E5%91%8A.pdf");
}

#[test]
fn action_names() {
    assert_eq!(ok(parse_docker_action("start")), Action::Start);
    assert_eq!(ok(parse_docker_action("down")), Action::Down);
    assert_eq!(err(parse_docker_action("Start")), (400, "未知操作：Start".to_string()));
    assert_eq!(ok(parse_pkg_action("update")), PkgAction::Update);
    assert_eq!(ok(parse_pkg_action("remove")), PkgAction::Remove);
    assert_eq!(err(parse_pkg_action("purge")), (400, "未知操作".to_string()));
    assert_eq!(ok(parse_image_action("pull")), ImageAction::Pull);
    assert_eq!(ok(parse_image_action("remove")), ImageAction::Remove);
    assert_eq!(err(parse_image_action("push")), (400, "未知的镜像操作".to_string()));
}

#[test]
fn query_defaults_and_limits() {
    assert_eq!(default_limit(), 120);
    assert_eq!(default_lines(), 200);
    assert_eq!(default_pkg_limit(), 500);
    assert_eq!(default_log_tail(), 200);
    assert_eq!(history_limit(-5), 1);
    assert_eq!(history_limit(120), 120);
    assert_eq!(history_limit(99999), 2000);
    assert_eq!(package_list_limit(0), 1);
    assert_eq!(package_list_limit(6000), 5000);
    assert_eq!(package_search_limit(3000), 2000);
    assert_eq!(package_search_limit(50), 50);
}

#[test]
fn request_fields() {
    assert_eq!(ok(search_keyword(Some("nginx".to_string()))), "nginx");
    assert_eq!(err(search_keyword(Some(String::new()))), (400, "请输入搜索关键字".to_string()));
    assert_eq!(err(search_keyword(None)), (400, "请输入搜索关键字".to_string()));
    assert!(check_upload("/srv", 3).is_ok());
    assert_eq!(err(check_upload("", 3)), (400, "缺少 dir 或 file 字段".to_string()));
    assert_eq!(err(check_upload("/srv", 0)), (400, "缺少 dir 或 file 字段".to_string()));
    assert_eq!(ok(cron_index(Some(2))), 2);
    assert_eq!(err(cron_index(None)), (400, "缺少 index".to_string()));
}

#[test]
fn login_answers_do_not_tell_unknown_users() {
    let mut t = LoginThrottle::new();
    assert!(login_gate(&t, "10.0.0.1", "admin").is_none());
    let unknown = login_result(&mut t, "10.0.0.1", "ghost", None, false).unwrap_err();
    let wrong = login_result(&mut t, "10.0.0.1", "admin", Some(7), false).unwrap_err();
    assert_eq!((unknown.status, unknown.message.clone()), (401, "用户名或密码错误".to_string()));
    assert_eq!((unknown.status, unknown.message), (wrong.status, wrong.message));
    let e = login_gate(&t, "10.0.0.1", "admin").unwrap();
    assert_eq!(e.status, 429);
    assert!(login_gate(&t, "10.0.0.2", "admin").is_none());
    assert_eq!(login_result(&mut t, "10.0.0.3", "admin", Some(7), true).ok(), Some(7));
    assert_eq!(login_result(&mut t, "10.0.0.1", "admin", Some(7), true).ok(), Some(7));
    assert!(login_gate(&t, "10.0.0.1", "admin").is_none());
}
