use lyys_panel::websearch::{
    block_result, cap_page_text, entity_of, fetch_start, FETCH_REFUSED, fetch_status_reply, fetch_target, html_unescape, ip_refused, item_from_groups,
    is_not_a_page, page_reply, page_text, percent_encode, search_items, search_reply, search_url, strip_tags,
    FetchTarget, Ip,
};

fn target(url: &str) -> Option<(String, u16)> {
    match fetch_target(url) {
        FetchTarget::Refused => None,
        FetchTarget::Resolve { host, port } => Some((host, port)),
    }
}

#[test]
fn percent_encoding() {
    assert_eq!(percent_encode("abc-XYZ_0.9~"), "abc-XYZ_0.9~");
    assert_eq!(percent_encode("a b&c"), "a%20b%26c");
    assert_eq!(percent_encode("中"), "%E4%B8%AD");
    assert_eq!(percent_encode(""), "");
}

#[test]
fn entities() {
    assert_eq!(entity_of(&['a', 'm', 'p']), Some('&'));
    assert_eq!(entity_of(&['n', 'b', 's', 'p']), Some(' '));
    assert_eq!(entity_of(&['#', 'x', '4', 'e', '2', 'd']), Some('中'));
    assert_eq!(entity_of(&['#', '6', '5']), Some('A'));
    assert_eq!(entity_of(&['#', 'x', 'D', '8', '0', '0']), None);
    assert_eq!(entity_of(&['c', 'o', 'p', 'y']), None);
}

#[test]
fn unescaping() {
    assert_eq!(html_unescape("a &amp; b &lt;c&gt; &quot;d&quot; &apos;e&apos;"), "a & b <c> \"d\" 'e'");
    assert_eq!(html_unescape("&#20013;&#x6587;&#X41;"), "中文A");
    assert_eq!(html_unescape("&#+65;"), "A");
    assert_eq!(html_unescape("AT&T; &copy; & lone"), "AT&T; &copy; & lone");
    assert_eq!(html_unescape("&#xD800; &#99999999999;"), "&#xD800; &#99999999999;");
    assert_eq!(html_unescape("&amp;lt;"), "&lt;");
}

#[test]
fn tags_stripped_before_unescaping() {
    assert_eq!(strip_tags("<b>bold</b> &lt;b&gt;kept&lt;/b&gt;"), "bold <b>kept</b>");
    assert_eq!(strip_tags("a <> b < c"), "a <> b < c");
    assert_eq!(strip_tags("<p class=\"x\">para</p>"), "para");
}

#[test]
fn page_text_capped() {
    let short = "x".repeat(3000);
    assert_eq!(cap_page_text(&short), short);
    let long = "字".repeat(3001);
    let capped = cap_page_text(&long);
    assert_eq!(capped, format!("{}\n（正文过长，已截断）", "字".repeat(3000)));
}

#[test]
fn fetch_targets() {
    assert_eq!(target("https://example.com/a?b"), Some(("example.com".to_string(), 443)));
    assert_eq!(target("http://example.com:8080/x"), Some(("example.com".to_string(), 8080)));
    assert_eq!(target("http://example.com:99999/"), Some(("example.com".to_string(), 80)));
    assert_eq!(target("http://[::1]:8080/"), Some(("[::1]".to_string(), 8080)));
    assert_eq!(target("http://example.com:abc/"), Some(("example.com:abc".to_string(), 80)));
    assert_eq!(target("ftp://example.com/"), None);
    assert_eq!(target("http://user@example.com/"), None);
    assert_eq!(target("http:///path"), None);
    assert_eq!(target("http://LocalHost:80/"), None);
    assert_eq!(target("https://localhost"), None);
}

#[test]
fn refused_addresses() {
    assert!(ip_refused(&vec![Ip::V4([127, 0, 0, 1])]));
    assert!(ip_refused(&vec![Ip::V4([10, 1, 2, 3])]));
    assert!(ip_refused(&vec![Ip::V4([172, 16, 0, 1])]));
    assert!(ip_refused(&vec![Ip::V4([172, 31, 255, 1])]));
    assert!(!ip_refused(&vec![Ip::V4([172, 32, 0, 1])]));
    assert!(ip_refused(&vec![Ip::V4([192, 168, 1, 253])]));
    assert!(ip_refused(&vec![Ip::V4([169, 254, 0, 1])]));
    assert!(ip_refused(&vec![Ip::V4([0, 0, 0, 0])]));
    assert!(ip_refused(&vec![Ip::V4([255, 255, 255, 255])]));
    assert!(!ip_refused(&vec![Ip::V4([93, 184, 216, 34])]));
    assert!(ip_refused(&vec![Ip::V6([0, 0, 0, 0, 0, 0, 0, 1])]));
    assert!(ip_refused(&vec![Ip::V6([0; 8])]));
    assert!(!ip_refused(&vec![Ip::V6([0x2606, 0x2800, 0x220, 1, 0x248, 0x1893, 0x25c8, 0x1946])]));
    // one bad address among good ones refuses the fetch
    assert!(ip_refused(&vec![Ip::V4([8, 8, 8, 8]), Ip::V4([127, 0, 0, 1])]));
    assert!(!ip_refused(&vec![]));
}

#[test]
fn search_urls() {
    assert_eq!(search_url("  rust 语言 ", 5).as_deref(), Some("https://cn.bing.com/search?q=rust%20%E8%AF%AD%E8%A8%80&count=5"));
    assert_eq!(search_url("x", 0).as_deref(), Some("https://cn.bing.com/search?q=x&count=1"));
    assert_eq!(search_url("x", 50).as_deref(), Some("https://cn.bing.com/search?q=x&count=10"));
    assert_eq!(search_url("   ", 5), None);
}

#[test]
fn content_types() {
    assert!(is_not_a_page("application/pdf"));
    assert!(is_not_a_page("image/png"));
    assert!(is_not_a_page("video/mp4; codecs=x"));
    assert!(is_not_a_page("audio/mpeg"));
    assert!(!is_not_a_page("text/html; charset=utf-8"));
    assert!(!is_not_a_page(""));
}

const RESULTS_PAGE: &str = "<ol id=\"b_results\"><li class=\"b_algo\"><div class=\"b_tpcn\"><a href=\"https://site.example/\">site.example › docs</a></div>\
<h2><a href=\"https://site.example/docs\" h=\"ID=1\">Rust &amp; Verus <strong>guide</strong> https://x.y/z</a></h2>\
<div class=\"b_caption\"><p class=\"b_lineclamp2\">A <b>verified</b> tutorial&nbsp;for you.</p></div></li>\
<li class=\"b_algo\"><a href=\"https://b.example/\">· Second ›</a></li>\
<li class=\"b_algo\"><p>no link here</p></li></ol>";

#[test]
fn search_result_blocks() {
    let items = search_items(RESULTS_PAGE, 10);
    assert_eq!(items.len(), 2);
    assert_eq!(items[0].title, "Rust & Verus guide");
    assert_eq!(items[0].url, "https://site.example/docs");
    assert_eq!(items[0].snippet, "A verified tutorial for you.");
    assert_eq!(items[1].title, "Second");
    assert_eq!(items[1].url, "https://b.example/");
    assert_eq!(items[1].snippet, "");
    assert_eq!(search_items(RESULTS_PAGE, 1).len(), 1);
    assert_eq!(search_items(RESULTS_PAGE, 0).len(), 1);
    assert!(search_items("<html>nothing</html>", 10).is_empty());
    assert!(block_result("<li class=\"b_algo\"><p>text</p></li>").is_none());
}

#[test]
fn search_answers() {
    let reply = search_reply("  rust verus ", 5, 200, RESULTS_PAGE);
    let v: serde_json::Value = serde_json::from_str(&reply).expect("a JSON answer");
    assert_eq!(v["query"], "rust verus");
    assert_eq!(v["results"].as_array().unwrap().len(), 2);
    assert_eq!(v["results"][0]["title"], "Rust & Verus guide");
    assert_eq!(v["results"][0]["url"], "https://site.example/docs");
    assert_eq!(v["results"][1]["snippet"], "");
    let one: serde_json::Value = serde_json::from_str(&search_reply("rust", 0, 200, RESULTS_PAGE)).unwrap();
    assert_eq!(one["results"].as_array().unwrap().len(), 1);
    assert_eq!(search_reply("   ", 5, 200, RESULTS_PAGE), "搜索词为空");
    assert_eq!(search_reply("rust", 5, 503, RESULTS_PAGE), "搜索失败：HTTP 503");
    assert_eq!(search_reply("rust", 5, 200, "<html></html>"), "没有搜到结果（可能是搜索页结构变了，或被限流）");
}

#[test]
fn fetched_page_text() {
    let page = "<html><head><title>T</title><style>body{}</style><script>var a='<b>';</script></head>\
<body><h1>Hello</h1>\n<p>World &amp;   more</p><SCRIPT type=\"x\">hidden</SCRIPT><noscript>enable js</noscript></body></html>";
    assert_eq!(page_text(page), "T Hello World & more");
    assert_eq!(page_reply(page), "T Hello World & more");
    assert_eq!(page_reply("<p>  </p>"), "(页面没有正文内容)");
    let long = format!("<p>{}</p>", "字".repeat(3005));
    assert_eq!(page_reply(&long), format!("{}\n（正文过长，已截断）", "字".repeat(3000)));
}

#[test]
fn fetch_status_answers() {
    assert_eq!(fetch_status_reply(404, "text/html").as_deref(), Some("抓取失败：HTTP 404"));
    assert_eq!(fetch_status_reply(200, "image/png").as_deref(), Some("这个地址不是网页（image/png），读不了。"));
    assert_eq!(fetch_status_reply(200, "text/html; charset=utf-8"), None);
}

#[test]
fn items_from_captured_pieces() {
    let i = item_from_groups("https://a.com", "  <b>Rust</b> &amp; Verus › ", Some(" <p>summary &lt;x&gt;</p> ")).unwrap();
    assert_eq!(i.title, "Rust & Verus");
    assert_eq!(i.url, "https://a.com");
    assert_eq!(i.snippet, "summary <x>");
    assert!(item_from_groups("", " <i></i> ", None).is_none());
    let j = item_from_groups("https://b.org", "", None).unwrap();
    assert_eq!((j.title.as_str(), j.url.as_str(), j.snippet.as_str()), ("", "https://b.org", ""));
}

#[test]
fn fetch_starts() {
    assert_eq!(fetch_start(" https://example.com/a "), Ok(("https://example.com/a".to_string(), "example.com".to_string(), 443)));
    assert_eq!(fetch_start("http://h.org:8080/x"), Ok(("http://h.org:8080/x".to_string(), "h.org".to_string(), 8080)));
    assert_eq!(fetch_start("ftp://example.com"), Err("只支持 http/https 网址".to_string()));
    assert_eq!(fetch_start("http://LocalHost:8080/"), Err(FETCH_REFUSED.to_string()));
    assert_eq!(fetch_start("http://user@example.com/"), Err(FETCH_REFUSED.to_string()));
}
