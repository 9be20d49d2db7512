//! The assistant's tools, all read-only: their definitions, the one-line
//! summary shown while one runs, and the limits on what they return.
use vstd::prelude::*;
use crate::text::{chars_of, decimal, decimal_of, eq_chars, push_chars, push_str, slice_chars, string_of};

verus! {

/// At most this many items go back to the model.
pub const MAX_ITEMS: usize = 40;

/// At most this many log lines are read.
pub const MAX_LOG_LINES: u32 = 200;

/// At most this many characters of a log go back to the model.
pub const MAX_LOG_CHARS: usize = 8000;

/// The arguments a tool call may carry, read from its JSON arguments.
pub struct ToolArgs {
    pub limit: Option<i64>,
    pub filter: Option<String>,
    pub unit: Option<String>,
    pub file: Option<String>,
    pub container: Option<String>,
    pub action: Option<String>,
    pub query: Option<String>,
    pub url: Option<String>,
}

/// One parameter of a tool: name, JSON type, description.
pub struct ToolParam {
    pub name: String,
    pub kind: String,
    pub description: String,
}

/// One tool as offered to the model (OpenAI function format).
pub struct ToolDef {
    pub name: String,
    pub description: String,
    pub params: Vec<ToolParam>,
    pub required: Vec<String>,
}

/// The names of the tools, in the order they are offered.
pub open spec fn tool_names() -> Seq<Seq<char>> {
    seq![
        "system_overview"@,
        "list_processes"@,
        "list_services"@,
        "read_logs"@,
        "docker"@,
        "list_crontab"@,
        "web_search"@,
        "fetch_url"@,
    ]
}

/// A parameter as offered: name, JSON type, description.
pub type ParamView = (Seq<char>, Seq<char>, Seq<char>);

/// A tool as offered: name, description, parameters, required parameters.
pub type ToolView = (Seq<char>, Seq<char>, Seq<ParamView>, Seq<Seq<char>>);

pub open spec fn param_views(ps: Seq<ToolParam>) -> Seq<ParamView> {
    ps.map_values(|p: ToolParam| (p.name@, p.kind@, p.description@))
}

pub open spec fn tool_view(d: ToolDef) -> ToolView {
    (d.name@, d.description@, param_views(d.params@), d.required@.map_values(|r: String| r@))
}

pub open spec fn tool_views(v: Seq<ToolDef>) -> Seq<ToolView> {
    v.map_values(|d: ToolDef| tool_view(d))
}

/// Every tool offered to the model, with its description and parameters.
pub open spec fn tools_spec() -> Seq<ToolView> {
    seq![
        (
            "system_overview"@,
            "查看这台服务器当前的 CPU 使用率、内存、磁盘、网络速率。问「机器现在怎么样」「负载高不高」「内存还剩多少」这类问题时用它"@,
            Seq::empty(),
            Seq::empty(),
        ),
        (
            "list_processes"@,
            "列出当前占用最高的进程（按 CPU 排序），用于排查「什么在吃 CPU / 内存」"@,
            seq![("limit"@, "integer"@, "返回条数，默认 10，最多 40"@)],
            Seq::empty(),
        ),
        (
            "list_services"@,
            "列出 systemd 服务及其运行状态。不填 filter 时只列正在运行的服务；填 filter 则按名称模糊匹配（含未运行的），用于查询某个服务是否在跑"@,
            seq![("filter"@, "string"@, "服务名关键字，如 nginx、docker"@)],
            Seq::empty(),
        ),
        (
            "read_logs"@,
            "读取日志：给 unit 读该 systemd 服务的 journal 日志，给 file 读某个日志文件的末尾。两者都不给则列出可读的日志文件"@,
            seq![("unit"@, "string"@, "systemd 服务名，如 nginx"@), ("file"@, "string"@, "日志文件的绝对路径"@), ("lines"@, "integer"@, "读取行数，默认 50，最多 200"@)],
            Seq::empty(),
        ),
        (
            "docker"@,
            "查询 Docker：action=containers 列出容器，action=images 列出镜像，action=compose 列出 Compose 项目，action=status 看 Docker 是否安装与运行；给 container 则返回该容器最近的日志"@,
            seq![("action"@, "string"@, "containers / images / compose / status"@), ("container"@, "string"@, "容器名或 ID，填则返回其日志"@)],
            Seq::empty(),
        ),
        (
            "list_crontab"@,
            "列出当前用户的计划任务（crontab）"@,
            Seq::empty(),
            Seq::empty(),
        ),
        (
            "web_search"@,
            "联网搜索。本机之外、你不确定或可能已过时的信息（软件版本、报错含义、 某个服务的用法、新闻）都用它查，不要凭记忆答。返回若干条标题与链接"@,
            seq![("query"@, "string"@, "搜索词"@), ("count"@, "integer"@, "返回条数，默认 5，最多 10"@)],
            seq!["query"@],
        ),
        (
            "fetch_url"@,
            "抓取一个网页的正文并转成纯文本。通常先用 web_search 拿到链接，再用它读具体内容； 对方直接给了链接时也用它"@,
            seq![("url"@, "string"@, "http/https 网址"@)],
            seq!["url"@],
        ),
    ]
}

fn param(name: &str, kind: &str, description: &str) -> (p: ToolParam)
    ensures
        p.name@ == name@,
        p.kind@ == kind@,
        p.description@ == description@,
{
    ToolParam { name: name.to_owned(), kind: kind.to_owned(), description: description.to_owned() }
}

fn tool(name: &str, description: &str, params: Vec<ToolParam>, required: Vec<String>) -> (t: ToolDef)
    ensures
        t.name@ == name@,
        t.description@ == description@,
        t.params@ == params@,
        t.required@ == required@,
{
    ToolDef { name: name.to_owned(), description: description.to_owned(), params, required }
}

/// The tools offered to the model; only `web_search` and `fetch_url` have
/// a required parameter (`query`, `url`).
pub fn definitions() -> (v: Vec<ToolDef>)
    ensures
        v@.len() == 8,
        forall|i: int| 0 <= i < 8 ==> (#[trigger] v@[i]).name@ == tool_names()[i],
        forall|i: int| 0 <= i < 6 ==> (#[trigger] v@[i]).required@.len() == 0,
        v@[6].required@.len() == 1 && v@[6].required@[0]@ == "query"@,
        v@[7].required@.len() == 1 && v@[7].required@[0]@ == "url"@,
        tool_views(v@) == tools_spec(),
{
    let mut v: Vec<ToolDef> = Vec::new();
    let d = tool(
        "system_overview",
        "查看这台服务器当前的 CPU 使用率、内存、磁盘、网络速率。问「机器现在怎么样」「负载高不高」「内存还剩多少」这类问题时用它",
        Vec::new(),
        Vec::new(),
    );
    proof {
        assert(param_views(d.params@) =~= tools_spec()[0].2);
        assert(d.required@.map_values(|r: String| r@) =~= tools_spec()[0].3);
        assert(tool_view(d) == tools_spec()[0]);
    }
    v.push(d);
    let mut p: Vec<ToolParam> = Vec::new();
    p.push(param("limit", "integer", "返回条数，默认 10，最多 40"));
    let d = tool("list_processes", "列出当前占用最高的进程（按 CPU 排序），用于排查「什么在吃 CPU / 内存」", p, Vec::new());
    proof {
        assert(param_views(d.params@) =~= tools_spec()[1].2);
        assert(d.required@.map_values(|r: String| r@) =~= tools_spec()[1].3);
        assert(tool_view(d) == tools_spec()[1]);
    }
    v.push(d);
    let mut p: Vec<ToolParam> = Vec::new();
    p.push(param("filter", "string", "服务名关键字，如 nginx、docker"));
    let d = tool(
        "list_services",
        "列出 systemd 服务及其运行状态。不填 filter 时只列正在运行的服务；填 filter 则按名称模糊匹配（含未运行的），用于查询某个服务是否在跑",
        p,
        Vec::new(),
    );
    proof {
        assert(param_views(d.params@) =~= tools_spec()[2].2);
        assert(d.required@.map_values(|r: String| r@) =~= tools_spec()[2].3);
        assert(tool_view(d) == tools_spec()[2]);
    }
    v.push(d);
    let mut p: Vec<ToolParam> = Vec::new();
    p.push(param("unit", "string", "systemd 服务名，如 nginx"));
    p.push(param("file", "string", "日志文件的绝对路径"));
    p.push(param("lines", "integer", "读取行数，默认 50，最多 200"));
    let d = tool(
        "read_logs",
        "读取日志：给 unit 读该 systemd 服务的 journal 日志，给 file 读某个日志文件的末尾。两者都不给则列出可读的日志文件",
        p,
        Vec::new(),
    );
    proof {
        assert(param_views(d.params@) =~= tools_spec()[3].2);
        assert(d.required@.map_values(|r: String| r@) =~= tools_spec()[3].3);
        assert(tool_view(d) == tools_spec()[3]);
    }
    v.push(d);
    let mut p: Vec<ToolParam> = Vec::new();
    p.push(param("action", "string", "containers / images / compose / status"));
    p.push(param("container", "string", "容器名或 ID，填则返回其日志"));
    let d = tool(
        "docker",
        "查询 Docker：action=containers 列出容器，action=images 列出镜像，action=compose 列出 Compose 项目，action=status 看 Docker 是否安装与运行；给 container 则返回该容器最近的日志",
        p,
        Vec::new(),
    );
    proof {
        assert(param_views(d.params@) =~= tools_spec()[4].2);
        assert(d.required@.map_values(|r: String| r@) =~= tools_spec()[4].3);
        assert(tool_view(d) == tools_spec()[4]);
    }
    v.push(d);
    let d = tool("list_crontab", "列出当前用户的计划任务（crontab）", Vec::new(), Vec::new());
    proof {
        assert(param_views(d.params@) =~= tools_spec()[5].2);
        assert(d.required@.map_values(|r: String| r@) =~= tools_spec()[5].3);
        assert(tool_view(d) == tools_spec()[5]);
    }
    v.push(d);
    let mut p: Vec<ToolParam> = Vec::new();
    p.push(param("query", "string", "搜索词"));
    p.push(param("count", "integer", "返回条数，默认 5，最多 10"));
    let mut r: Vec<String> = Vec::new();
    r.push("query".to_owned());
    let d = tool(
        "web_search",
        "联网搜索。本机之外、你不确定或可能已过时的信息（软件版本、报错含义、 某个服务的用法、新闻）都用它查，不要凭记忆答。返回若干条标题与链接",
        p,
        r,
    );
    proof {
        assert(param_views(d.params@) =~= tools_spec()[6].2);
        assert(d.required@.map_values(|r: String| r@) =~= tools_spec()[6].3);
        assert(tool_view(d) == tools_spec()[6]);
    }
    v.push(d);
    let mut p: Vec<ToolParam> = Vec::new();
    p.push(param("url", "string", "http/https 网址"));
    let mut r: Vec<String> = Vec::new();
    r.push("url".to_owned());
    let d = tool(
        "fetch_url",
        "抓取一个网页的正文并转成纯文本。通常先用 web_search 拿到链接，再用它读具体内容； 对方直接给了链接时也用它",
        p,
        r,
    );
    proof {
        assert(param_views(d.params@) =~= tools_spec()[7].2);
        assert(d.required@.map_values(|r: String| r@) =~= tools_spec()[7].3);
        assert(tool_view(d) == tools_spec()[7]);
    }
    v.push(d);
    assert(tool_views(v@) =~= tools_spec());
    v
}

pub open spec fn opt_str(o: Option<String>) -> Option<Seq<char>> {
    match o {
        Some(s) => Some(s@),
        None => None,
    }
}

/// The one-line summary shown while a tool runs.
pub open spec fn summary_spec(
    name: Seq<char>,
    limit: Option<i64>,
    filter: Option<Seq<char>>,
    unit: Option<Seq<char>>,
    file: Option<Seq<char>>,
    container: Option<Seq<char>>,
    action: Option<Seq<char>>,
    query: Option<Seq<char>>,
    url: Option<Seq<char>>,
) -> Seq<char> {
    if name == "system_overview"@ {
        "查询系统概览"@
    } else if name == "list_processes"@ {
        "查看进程列表（前 "@ + signed_decimal(match limit {
            Some(l) => l as int,
            None => 10,
        }) + " 条）"@
    } else if name == "list_services"@ {
        match filter {
            Some(f) => if f.len() > 0 {
                "查询服务："@ + f
            } else {
                "查看运行中的服务"@
            },
            None => "查看运行中的服务"@,
        }
    } else if name == "read_logs"@ {
        match unit {
            Some(u) => "读取日志："@ + u,
            None => match file {
                Some(f) => "读取日志文件："@ + f,
                None => "列出日志文件"@,
            },
        }
    } else if name == "docker"@ {
        match container {
            Some(c) => "查看容器日志："@ + c,
            None => "查询 Docker："@ + match action {
                Some(a) => a,
                None => "containers"@,
            },
        }
    } else if name == "list_crontab"@ {
        "查看计划任务"@
    } else if name == "web_search"@ {
        "联网搜索："@ + match query {
            Some(q) => q,
            None => Seq::empty(),
        }
    } else if name == "fetch_url"@ {
        "抓取网页："@ + match url {
            Some(u) => u,
            None => Seq::empty(),
        }
    } else {
        "调用 "@ + name
    }
}

/// A signed integer in decimal.
pub open spec fn signed_decimal(v: int) -> Seq<char> {
    if v < 0 {
        seq!['-'] + decimal((-v) as nat)
    } else {
        decimal(v as nat)
    }
}

fn signed_decimal_of(v: i64) -> (r: Vec<char>)
    ensures
        r@ == signed_decimal(v as int),
{
    if v < 0 {
        let m: u64 = if v == i64::MIN {
            9223372036854775808u64
        } else {
            (-v) as u64
        };
        let mut r: Vec<char> = Vec::new();
        r.push('-');
        push_chars(&mut r, &decimal_of(m));
        r
    } else {
        decimal_of(v as u64)
    }
}

fn lit_opt(o: &Option<String>) -> (r: Option<Vec<char>>)
    ensures
        match o {
            Some(s) => r matches Some(v) && v@ == s@,
            None => r is None,
        },
{
    match o {
        Some(s) => Some(chars_of(s.as_str())),
        None => None,
    }
}

/// The summary of a tool call (see `summary_spec`).
pub fn summary(name: &str, args: &ToolArgs) -> (s: String)
    ensures
        s@ == summary_spec(
            name@,
            args.limit,
            opt_str(args.filter),
            opt_str(args.unit),
            opt_str(args.file),
            opt_str(args.container),
            opt_str(args.action),
            opt_str(args.query),
            opt_str(args.url),
        ),
{
    let n = chars_of(name);
    let mut v: Vec<char> = Vec::new();
    if eq_chars(&n, &chars_of("system_overview")) {
        push_str(&mut v, "查询系统概览");
    } else if eq_chars(&n, &chars_of("list_processes")) {
        push_str(&mut v, "查看进程列表（前 ");
        let l: i64 = match args.limit {
            Some(l) => l,
            None => 10,
        };
        push_chars(&mut v, &signed_decimal_of(l));
        push_str(&mut v, " 条）");
    } else if eq_chars(&n, &chars_of("list_services")) {
        match &args.filter {
            Some(f) => {
                if f.as_str().is_empty() {
                    push_str(&mut v, "查看运行中的服务");
                } else {
                    push_str(&mut v, "查询服务：");
                    push_str(&mut v, f.as_str());
                }
            },
            None => push_str(&mut v, "查看运行中的服务"),
        }
    } else if eq_chars(&n, &chars_of("read_logs")) {
        match &args.unit {
            Some(u) => {
                push_str(&mut v, "读取日志：");
                push_str(&mut v, u.as_str());
            },
            None => match &args.file {
                Some(f) => {
                    push_str(&mut v, "读取日志文件：");
                    push_str(&mut v, f.as_str());
                },
                None => push_str(&mut v, "列出日志文件"),
            },
        }
    } else if eq_chars(&n, &chars_of("docker")) {
        match &args.container {
            Some(c) => {
                push_str(&mut v, "查看容器日志：");
                push_str(&mut v, c.as_str());
            },
            None => {
                push_str(&mut v, "查询 Docker：");
                match &args.action {
                    Some(a) => push_str(&mut v, a.as_str()),
                    None => push_str(&mut v, "containers"),
                }
            },
        }
    } else if eq_chars(&n, &chars_of("list_crontab")) {
        push_str(&mut v, "查看计划任务");
    } else if eq_chars(&n, &chars_of("web_search")) {
        push_str(&mut v, "联网搜索：");
        match &args.query {
            Some(q) => push_str(&mut v, q.as_str()),
            None => {},
        }
    } else if eq_chars(&n, &chars_of("fetch_url")) {
        push_str(&mut v, "抓取网页：");
        match &args.url {
            Some(u) => push_str(&mut v, u.as_str()),
            None => {},
        }
    } else {
        push_str(&mut v, "调用 ");
        push_str(&mut v, name);
    }
    string_of(&v)
}

/// The arguments of a tool call as the summary reads them.
pub ghost struct ArgsView {
    pub limit: Option<i64>,
    pub filter: Option<Seq<char>>,
    pub unit: Option<Seq<char>>,
    pub file: Option<Seq<char>>,
    pub container: Option<Seq<char>>,
    pub action: Option<Seq<char>>,
    pub query: Option<Seq<char>>,
    pub url: Option<Seq<char>>,
}

pub open spec fn args_view(a: ToolArgs) -> ArgsView {
    ArgsView {
        limit: a.limit,
        filter: opt_str(a.filter),
        unit: opt_str(a.unit),
        file: opt_str(a.file),
        container: opt_str(a.container),
        action: opt_str(a.action),
        query: opt_str(a.query),
        url: opt_str(a.url),
    }
}

/// What `serde_json` reads from a call's arguments text: the integer
/// member `limit` and the string members of the other names, each absent
/// where the text is no JSON object or the member is missing or of
/// another type.
pub uninterp spec fn tool_arguments(arguments: Seq<char>) -> ArgsView;

/// Reads a call's arguments with `serde_json::from_str` (anything that is
/// not JSON reads as `null`), then `Value::get` with `as_i64` for `limit`
/// and `as_str` for the others. The contract names the result.
#[verifier::external_body]
fn tool_args_of(arguments: &str) -> (r: ToolArgs)
    ensures
        args_view(r) == tool_arguments(arguments@),
{
    let v: serde_json::Value = serde_json::from_str(arguments).unwrap_or_default();
    let s = |k: &str| v.get(k).and_then(|x| x.as_str()).map(String::from);
    ToolArgs {
        limit: v.get("limit").and_then(|x| x.as_i64()),
        filter: s("filter"),
        unit: s("unit"),
        file: s("file"),
        container: s("container"),
        action: s("action"),
        query: s("query"),
        url: s("url"),
    }
}

/// The summary of a tool call read from its arguments.
pub open spec fn note_spec(name: Seq<char>, a: ArgsView) -> Seq<char> {
    summary_spec(name, a.limit, a.filter, a.unit, a.file, a.container, a.action, a.query, a.url)
}

/// The line shown while the tool `name` runs with the JSON `arguments`.
pub fn tool_note(name: &str, arguments: &str) -> (s: String)
    ensures
        s@ == note_spec(name@, tool_arguments(arguments@)),
{
    let a = tool_args_of(arguments);
    summary(name, &a)
}

/// A count asked of a tool brought into `1..=max`, with a default when it
/// is not given (or not a number).
pub open spec fn count_arg(v: Option<u64>, default: nat, max: nat) -> nat {
    let n = match v {
        Some(x) => x as nat,
        None => default,
    };
    if n < 1 {
        1
    } else if n > max {
        max
    } else {
        n
    }
}

/// Number of processes listed: default 10, at most `MAX_ITEMS`.
pub fn process_limit(v: Option<u64>) -> (r: usize)
    ensures
        r == count_arg(v, 10, 40),
{
    let n: u64 = match v {
        Some(x) => x,
        None => 10,
    };
    if n < 1 {
        1
    } else if n > 40 {
        40
    } else {
        n as usize
    }
}

/// Number of log lines read: default 50, at most `MAX_LOG_LINES`.
pub fn log_lines(v: Option<u64>) -> (r: u32)
    ensures
        r == count_arg(v, 50, 200),
{
    let n: u64 = match v {
        Some(x) => x,
        None => 50,
    };
    if n < 1 {
        1
    } else if n > 200 {
        200
    } else {
        n as u32
    }
}

/// A log as handed to the model: its last 8000 characters, after a note,
/// when it is longer.
pub open spec fn log_tail_spec(text: Seq<char>) -> Seq<char> {
    if text.len() > 8000 {
        "（已截断，仅保留末尾部分）\n"@ + text.skip(text.len() - 8000)
    } else {
        text
    }
}

/// Cuts a log for the model (see `log_tail_spec`).
pub fn log_tail(text: &str) -> (r: String)
    ensures
        r@ == log_tail_spec(text@),
{
    let c = chars_of(text);
    if c.len() > MAX_LOG_CHARS {
        let mut v = chars_of("（已截断，仅保留末尾部分）\n");
        let t = slice_chars(&c, c.len() - MAX_LOG_CHARS, c.len());
        assert(t@ =~= text@.skip(text@.len() - 8000));
        push_chars(&mut v, &t);
        string_of(&v)
    } else {
        text.to_owned()
    }
}

} // verus!
