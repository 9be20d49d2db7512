//! The HTTP interface's own rules: error answers, the bearer token, the
//! login back-off answer, query limits, action names, and the download
//! header.
use vstd::prelude::*;
use vstd::utf8::encode_utf8;
use crate::text::{chars_of, decimal, decimal_of, eq_chars, has_prefix, push_chars, push_str, slice_chars, string_of};
use crate::websearch::{pct, percent_encode};
use crate::auth::{after_failure, source_key, wait_of, LoginThrottle};

verus! {

/// An error answer: HTTP status and message.
pub struct ApiError {
    pub status: u16,
    pub message: String,
}

impl ApiError {
    /// 400 Bad Request.
    pub fn bad(message: String) -> (e: Self)
        ensures
            e.status == 400,
            e.message@ == message@,
    {
        ApiError { status: 400, message }
    }

    /// 401 Unauthorized.
    pub fn unauthorized(message: String) -> (e: Self)
        ensures
            e.status == 401,
            e.message@ == message@,
    {
        ApiError { status: 401, message }
    }

    /// 429 Too Many Requests (login back-off).
    pub fn too_many_requests(message: String) -> (e: Self)
        ensures
            e.status == 429,
            e.message@ == message@,
    {
        ApiError { status: 429, message }
    }

    /// 500 Internal Server Error, `内部错误：` before the cause.
    pub fn internal(cause: &str) -> (e: Self)
        ensures
            e.status == 500,
            e.message@ == "内部错误："@ + cause@,
    {
        let mut v = chars_of("内部错误：");
        push_str(&mut v, cause);
        ApiError { status: 500, message: string_of(&v) }
    }
}

/// The authenticated user of a request.
pub struct AuthUser {
    /// User id (a single administrator for now).
    pub id: i64,
}

/// The token of an `Authorization` header `Bearer <token>`.
pub fn bearer_token(header: &str) -> (r: Result<String, ApiError>)
    ensures
        header@.len() >= 7 && header@.take(7) == "Bearer "@ ==> (r matches Ok(t) && t@ == header@.skip(7)),
        !(header@.len() >= 7 && header@.take(7) == "Bearer "@) ==> (r matches Err(e) && e.status == 401
            && e.message@ == "认证头格式错误"@),
{
    proof {
        reveal_strlit("Bearer ");
    }
    let h = chars_of(header);
    if has_prefix(&h, &chars_of("Bearer ")) {
        let t = slice_chars(&h, 7, h.len());
        assert(t@ =~= header@.skip(7));
        Ok(string_of(&t))
    } else {
        Err(ApiError::unauthorized("认证头格式错误".to_owned()))
    }
}

/// Seconds shown for a login wait of `wait_ns` nanoseconds: whole seconds,
/// at least one.
pub open spec fn wait_secs(wait_ns: nat) -> nat {
    if wait_ns / 1_000_000_000 < 1 {
        1
    } else {
        wait_ns / 1_000_000_000
    }
}

/// The answer to a login attempt made while its source still has to wait
/// `wait_ns` nanoseconds: none when it need not wait, else 429 with the
/// number of seconds.
pub fn login_wait_error(wait_ns: u64) -> (r: Option<ApiError>)
    ensures
        wait_ns == 0 ==> r is None,
        wait_ns > 0 ==> (r matches Some(e) && e.status == 429 && e.message@ == "登录尝试过于频繁，请 "@ + decimal(
            wait_secs(wait_ns as nat),
        ) + " 秒后再试"@),
{
    if wait_ns == 0 {
        return None;
    }
    let s = wait_ns / 1_000_000_000;
    let secs = if s < 1 {
        1
    } else {
        s
    };
    let mut v = chars_of("登录尝试过于频繁，请 ");
    push_chars(&mut v, &decimal_of(secs));
    push_str(&mut v, " 秒后再试");
    Some(ApiError::too_many_requests(string_of(&v)))
}

/// The answer to a failed login (unknown user or wrong password alike).
pub fn login_failed() -> (e: ApiError)
    ensures
        e.status == 401,
        e.message@ == "用户名或密码错误"@,
{
    ApiError::unauthorized("用户名或密码错误".to_owned())
}

/// Whether the throttle lets a login attempt of `ip`/`username` through now:
/// none when the source need not wait, else the 429 answer (see
/// `login_wait_error`).
pub fn login_gate(throttle: &LoginThrottle, ip: &str, username: &str) -> (r: Option<ApiError>)
    ensures
        exists|now: u64|
            {
                let w = #[trigger] wait_of(throttle@, source_key(ip@, username@), now);
                &&& w == 0 ==> r is None
                &&& w > 0 ==> (r matches Some(e) && e.status == 429 && e.message@ == "登录尝试过于频繁，请 "@
                    + decimal(wait_secs(w as nat)) + " 秒后再试"@)
            },
{
    let w = throttle.retry_after(ip, username);
    login_wait_error(w)
}

/// What a login with a throttle that lets it through is answered, given the
/// account found for the user name (its id) and whether the password
/// matched its hash: the user's id, or 401 with the same words whether the
/// name is unknown or the password wrong.
pub open spec fn login_reply(account: Option<i64>, verified: bool) -> Result<i64, (u16, Seq<char>)> {
    match account {
        Some(id) => if verified {
            Ok(id)
        } else {
            Err((401u16, "用户名或密码错误"@))
        },
        None => Err((401u16, "用户名或密码错误"@)),
    }
}

/// The answer to a login attempt that the throttle let through, once the
/// account is looked up and (when found) the password checked; a refusal
/// records a failure for the source, an acceptance forgets its failures.
pub fn login_result(
    throttle: &mut LoginThrottle,
    ip: &str,
    username: &str,
    account: Option<i64>,
    verified: bool,
) -> (r: Result<i64, ApiError>)
    ensures
        match r {
            Ok(id) => login_reply(account, verified) == Ok::<i64, (u16, Seq<char>)>(id) && final(throttle)@
                == old(throttle)@.remove(source_key(ip@, username@)),
            Err(e) => login_reply(account, verified) == Err::<i64, (u16, Seq<char>)>((e.status, e.message@))
                && exists|now: u64|
                final(throttle)@ == after_failure(old(throttle)@, source_key(ip@, username@), now),
        },
{
    match account {
        Some(id) => {
            if verified {
                throttle.record_success(ip, username);
                return Ok(id);
            }
        },
        None => {},
    }
    throttle.record_failure(ip, username);
    Err(login_failed())
}

/// A login cannot tell an unknown user name from a wrong password: both get
/// the same answer, and both record a failure for the source alike.
pub proof fn law_unknown_user_indistinguishable(id: i64, verified: bool)
    ensures
        login_reply(None, verified) == login_reply(Some(id), false),
        login_reply(None, verified) is Err,
{
}

/// `Content-Disposition` of a download: the file name percent-encoded as
/// RFC 5987 asks.
pub fn content_disposition(name: &str) -> (s: String)
    ensures
        s@ == "attachment; filename*=UTF-8''"@ + pct(encode_utf8(name@)),
{
    let mut v = chars_of("attachment; filename*=UTF-8''");
    let enc = percent_encode(name);
    push_str(&mut v, enc.as_str());
    string_of(&v)
}

/// The name of a Docker operation, in lower case, as the front end sends it.
pub open spec fn docker_action_of(s: Seq<char>) -> Option<crate::docker::Action> {
    if s == "start"@ {
        Some(crate::docker::Action::Start)
    } else if s == "stop"@ {
        Some(crate::docker::Action::Stop)
    } else if s == "restart"@ {
        Some(crate::docker::Action::Restart)
    } else if s == "remove"@ {
        Some(crate::docker::Action::Remove)
    } else if s == "up"@ {
        Some(crate::docker::Action::Up)
    } else if s == "down"@ {
        Some(crate::docker::Action::Down)
    } else {
        None
    }
}

fn is_lit(a: &[char], lit: &str) -> (r: bool)
    ensures
        r == (a@ == lit@),
{
    eq_chars(a, &chars_of(lit))
}

/// Reads a Docker operation name; an unknown one is answered with 400
/// `未知操作：<name>`.
pub fn parse_docker_action(s: &str) -> (r: Result<crate::docker::Action, ApiError>)
    ensures
        match docker_action_of(s@) {
            Some(a) => r == Ok::<crate::docker::Action, ApiError>(a),
            None => r matches Err(e) && e.status == 400 && e.message@ == "未知操作："@ + s@,
        },
{
    let c = chars_of(s);
    if is_lit(&c, "start") {
        Ok(crate::docker::Action::Start)
    } else if is_lit(&c, "stop") {
        Ok(crate::docker::Action::Stop)
    } else if is_lit(&c, "restart") {
        Ok(crate::docker::Action::Restart)
    } else if is_lit(&c, "remove") {
        Ok(crate::docker::Action::Remove)
    } else if is_lit(&c, "up") {
        Ok(crate::docker::Action::Up)
    } else if is_lit(&c, "down") {
        Ok(crate::docker::Action::Down)
    } else {
        let mut v = chars_of("未知操作：");
        push_str(&mut v, s);
        Err(ApiError::bad(string_of(&v)))
    }
}

/// Package operations as the front end names them.
#[derive(Clone, Copy, PartialEq, Eq, Debug, Structural)]
pub enum PkgAction {
    Update,
    Install,
    Upgrade,
    Remove,
}

pub open spec fn pkg_action_of(s: Seq<char>) -> Option<PkgAction> {
    if s == "update"@ {
        Some(PkgAction::Update)
    } else if s == "install"@ {
        Some(PkgAction::Install)
    } else if s == "upgrade"@ {
        Some(PkgAction::Upgrade)
    } else if s == "remove"@ {
        Some(PkgAction::Remove)
    } else {
        None
    }
}

/// Reads a package operation name; an unknown one is answered with 400
/// `未知操作`.
pub fn parse_pkg_action(s: &str) -> (r: Result<PkgAction, ApiError>)
    ensures
        match pkg_action_of(s@) {
            Some(a) => r == Ok::<PkgAction, ApiError>(a),
            None => r matches Err(e) && e.status == 400 && e.message@ == "未知操作"@,
        },
{
    let c = chars_of(s);
    if is_lit(&c, "update") {
        Ok(PkgAction::Update)
    } else if is_lit(&c, "install") {
        Ok(PkgAction::Install)
    } else if is_lit(&c, "upgrade") {
        Ok(PkgAction::Upgrade)
    } else if is_lit(&c, "remove") {
        Ok(PkgAction::Remove)
    } else {
        Err(ApiError::bad("未知操作".to_owned()))
    }
}

/// Image operations as the front end names them.
#[derive(Clone, Copy, PartialEq, Eq, Debug, Structural)]
pub enum ImageAction {
    /// Pull by reference.
    Pull,
    /// Remove by id.
    Remove,
}

pub open spec fn image_action_of(s: Seq<char>) -> Option<ImageAction> {
    if s == "pull"@ {
        Some(ImageAction::Pull)
    } else if s == "remove"@ {
        Some(ImageAction::Remove)
    } else {
        None
    }
}

/// Reads an image operation name; an unknown one is answered with 400
/// `未知的镜像操作`.
pub fn parse_image_action(s: &str) -> (r: Result<ImageAction, ApiError>)
    ensures
        match image_action_of(s@) {
            Some(a) => r == Ok::<ImageAction, ApiError>(a),
            None => r matches Err(e) && e.status == 400 && e.message@ == "未知的镜像操作"@,
        },
{
    let c = chars_of(s);
    if is_lit(&c, "pull") {
        Ok(ImageAction::Pull)
    } else if is_lit(&c, "remove") {
        Ok(ImageAction::Remove)
    } else {
        Err(ApiError::bad("未知的镜像操作".to_owned()))
    }
}

/// Default number of history samples returned.
pub fn default_limit() -> (n: i64)
    ensures
        n == 120,
{
    120
}

/// Default number of journal lines returned.
pub fn default_lines() -> (n: u32)
    ensures
        n == 200,
{
    200
}

/// Default number of packages listed.
pub fn default_pkg_limit() -> (n: usize)
    ensures
        n == 500,
{
    500
}

/// Default number of container log lines returned.
pub fn default_log_tail() -> (n: usize)
    ensures
        n == 200,
{
    200
}

/// `v` brought into `lo..=hi`.
pub open spec fn clamp(v: int, lo: int, hi: int) -> int {
    if v < lo {
        lo
    } else if v > hi {
        hi
    } else {
        v
    }
}

/// Number of history samples answered: the asked limit brought into
/// 1..=2000.
pub fn history_limit(limit: i64) -> (r: i64)
    ensures
        r == clamp(limit as int, 1, 2000),
{
    if limit < 1 {
        1
    } else if limit > 2000 {
        2000
    } else {
        limit
    }
}

/// Number of installed packages listed: the asked limit brought into
/// 1..=5000.
pub fn package_list_limit(limit: usize) -> (r: usize)
    ensures
        r == clamp(limit as int, 1, 5000),
{
    if limit < 1 {
        1
    } else if limit > 5000 {
        5000
    } else {
        limit
    }
}

/// Number of search results listed: the asked limit brought into
/// 1..=2000.
pub fn package_search_limit(limit: usize) -> (r: usize)
    ensures
        r == clamp(limit as int, 1, 2000),
{
    if limit < 1 {
        1
    } else if limit > 2000 {
        2000
    } else {
        limit
    }
}

/// The keyword of a package search: refused with 400 when missing or
/// empty.
pub fn search_keyword(filter: Option<String>) -> (r: Result<String, ApiError>)
    ensures
        match filter {
            Some(f) => if f@.len() > 0 {
                r matches Ok(k) && k@ == f@
            } else {
                r matches Err(e) && e.status == 400 && e.message@ == "请输入搜索关键字"@
            },
            None => r matches Err(e) && e.status == 400 && e.message@ == "请输入搜索关键字"@,
        },
{
    match filter {
        Some(f) => {
            if f.as_str().is_empty() {
                Err(ApiError::bad("请输入搜索关键字".to_owned()))
            } else {
                Ok(f)
            }
        },
        None => Err(ApiError::bad("请输入搜索关键字".to_owned())),
    }
}

/// An upload needs its target directory and a non-empty file.
pub fn check_upload(dir: &str, file_len: usize) -> (r: Result<(), ApiError>)
    ensures
        (dir@.len() > 0 && file_len > 0) ==> r is Ok,
        !(dir@.len() > 0 && file_len > 0) ==> (r matches Err(e) && e.status == 400 && e.message@
            == "缺少 dir 或 file 字段"@),
{
    if dir.is_empty() || file_len == 0 {
        Err(ApiError::bad("缺少 dir 或 file 字段".to_owned()))
    } else {
        Ok(())
    }
}

/// The index of a crontab update, refused with 400 when missing.
pub fn cron_index(index: Option<usize>) -> (r: Result<usize, ApiError>)
    ensures
        match index {
            Some(i) => r == Ok::<usize, ApiError>(i),
            None => r matches Err(e) && e.status == 400 && e.message@ == "缺少 index"@,
        },
{
    match index {
        Some(i) => Ok(i),
        None => Err(ApiError::bad("缺少 index".to_owned())),
    }
}

/// The answer when ending process `pid` did not succeed (for instance for
/// lack of permission): 400, so that the front end does not show success.
pub fn kill_failed(pid: u32) -> (e: ApiError)
    ensures
        e.status == 400,
        e.message@ == "结束进程 "@ + decimal(pid as nat) + " 失败（可能权限不足）"@,
{
    let mut v = chars_of("结束进程 ");
    push_chars(&mut v, &decimal_of(pid as u64));
    push_str(&mut v, " 失败（可能权限不足）");
    ApiError::bad(string_of(&v))
}

} // verus!
