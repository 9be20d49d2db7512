//! The assistant's long-term memory: what is injected into the prompt,
//! which extracted facts are kept, the checks on a new memory, and the
//! keyword tokens that recall falls back on without embedding vectors.
use vstd::prelude::*;
use crate::text::{
    chars_of, lines, lines_of, push_chars, push_str, string_of, string_views, trim, trim_chars, views,
};

verus! {

/// Settings keys.
pub const KEY_EMBED_MODEL: &'static str = "ai.embed_model";
pub const KEY_AUTO_REMEMBER: &'static str = "ai.auto_remember";
pub const KEY_TOOLS_ENABLED: &'static str = "ai.tools_enabled";
pub const KEY_TTS_URL: &'static str = "ai.tts_url";
pub const KEY_TTS_AUTO: &'static str = "ai.tts_auto";

/// At most this many memories are injected into the context.
pub const RECALL_TOP_K: usize = 5;

/// The lines of the memory block, one per memory, trimmed.
pub open spec fn memory_lines(ms: Seq<Seq<char>>) -> Seq<char>
    decreases ms.len(),
{
    if ms.len() == 0 {
        Seq::empty()
    } else {
        memory_lines(ms.drop_last()) + "- "@ + trim(ms.last()) + seq!['\n']
    }
}

/// The block injected into the system prompt for recalled memories:
/// nothing without memories, else a header, one `- ` line per memory and a
/// closing instruction.
pub open spec fn memory_block_spec(ms: Seq<Seq<char>>) -> Seq<char> {
    if ms.len() == 0 {
        Seq::empty()
    } else {
        "[记忆] 以下是此前记下的、与这次对话可能相关的事（不是他刚说的话）：\n"@ + memory_lines(ms)
            + "用得上的话自然地用，不要复述这份列表，也不要说明它从哪来。"@
    }
}

/// Builds the memory block (see `memory_block_spec`).
pub fn memory_block(memories: &Vec<String>) -> (s: String)
    ensures
        s@ == memory_block_spec(string_views(memories@)),
{
    if memories.len() == 0 {
        return String::new();
    }
    let ghost ms = string_views(memories@);
    let mut v = chars_of("[记忆] 以下是此前记下的、与这次对话可能相关的事（不是他刚说的话）：\n");
    let ghost head = v@;
    let mut i: usize = 0;
    assert(ms.take(0) =~= Seq::<Seq<char>>::empty());
    assert(v@ =~= head + memory_lines(ms.take(0)));
    while i < memories.len()
        invariant
            i <= memories@.len(),
            ms == string_views(memories@),
            v@ == head + memory_lines(ms.take(i as int)),
        decreases memories@.len() - i,
    {
        assert(ms.take(i + 1).drop_last() =~= ms.take(i as int));
        assert(ms.take(i + 1).last() == memories@[i as int]@);
        push_str(&mut v, "- ");
        let t = trim_chars(&chars_of(memories[i].as_str()));
        push_chars(&mut v, &t);
        v.push('\n');
        i = i + 1;
        assert(v@ =~= head + memory_lines(ms.take(i as int)));
    }
    assert(ms.take(memories@.len() as int) =~= ms);
    push_str(&mut v, "用得上的话自然地用，不要复述这份列表，也不要说明它从哪来。");
    string_of(&v)
}

/// A character stripped from the start of an extracted fact: list markers
/// and the digits 1 to 5 of numbering.
pub open spec fn marker_char(c: char) -> bool {
    c == '-' || c == '*' || c == '·' || c == '1' || c == '2' || c == '3' || c == '4' || c == '5' || c == '.'
        || c == ' '
}

/// `s` without its leading marker characters.
pub open spec fn strip_markers(s: Seq<char>) -> Seq<char>
    decreases s.len(),
{
    if s.len() > 0 && marker_char(s[0]) {
        strip_markers(s.drop_first())
    } else {
        s
    }
}

/// One line of the model's answer as a fact: trimmed, markers stripped,
/// trimmed again.
pub open spec fn fact_of(line: Seq<char>) -> Seq<char> {
    trim(strip_markers(trim(line)))
}

/// A fact worth keeping: not empty, not `无` ("none"), at most 200 bytes.
pub open spec fn keep_fact(f: Seq<char>) -> bool {
    f.len() > 0 && f != "无"@ && vstd::utf8::encode_utf8(f).len() <= 200
}

/// The facts kept from lines `ls`, in order.
pub open spec fn facts_of(ls: Seq<Seq<char>>) -> Seq<Seq<char>>
    decreases ls.len(),
{
    if ls.len() == 0 {
        Seq::empty()
    } else {
        let r = facts_of(ls.drop_last());
        if keep_fact(fact_of(ls.last())) {
            r.push(fact_of(ls.last()))
        } else {
            r
        }
    }
}

/// The facts extracted from the model's answer: one per line, at most five.
pub open spec fn extracted_facts(text: Seq<char>) -> Seq<Seq<char>> {
    let fs = facts_of(lines(text));
    if fs.len() <= 5 {
        fs
    } else {
        fs.take(5)
    }
}

fn strip_markers_of(v: &[char]) -> (r: Vec<char>)
    ensures
        r@ == strip_markers(v@),
{
    let mut i: usize = 0;
    assert(v@.skip(0) =~= v@);
    while i < v.len() && (v[i] == '-' || v[i] == '*' || v[i] == '·' || v[i] == '1' || v[i] == '2' || v[i] == '3'
        || v[i] == '4' || v[i] == '5' || v[i] == '.' || v[i] == ' ')
        invariant
            i <= v@.len(),
            strip_markers(v@) == strip_markers(v@.skip(i as int)),
        decreases v@.len() - i,
    {
        assert(v@.skip(i as int).drop_first() =~= v@.skip(i + 1));
        i = i + 1;
    }
    let r = crate::text::slice_chars(v, i, v.len());
    assert(r@ =~= v@.skip(i as int));
    r
}

/// The facts of the model's answer (see `extracted_facts`).
pub fn fact_lines(text: &str) -> (r: Vec<String>)
    ensures
        string_views(r@) == extracted_facts(text@),
{
    proof {
        reveal_strlit("无");
    }
    let cv = chars_of(text);
    let ls = lines_of(&cv);
    let ghost all = views(ls@);
    let none = chars_of("无");
    let mut out: Vec<String> = Vec::new();
    let mut i: usize = 0;
    assert(all.take(0) =~= Seq::<Seq<char>>::empty());
    assert(string_views(out@) =~= Seq::<Seq<char>>::empty());
    while i < ls.len()
        invariant
            i <= ls@.len(),
            all == views(ls@),
            all == lines(text@),
            none@ == "无"@,
            string_views(out@) == facts_of(all.take(i as int)),
        decreases ls@.len() - i,
    {
        assert(all.take(i + 1).drop_last() =~= all.take(i as int));
        assert(all.take(i + 1).last() == ls@[i as int]@);
        let f = trim_chars(&strip_markers_of(&trim_chars(&ls[i])));
        let s = string_of(&f);
        if f.len() > 0 && !crate::text::eq_chars(&f, &none) && s.as_str().as_bytes().len() <= 200 {
            let ghost before = string_views(out@);
            out.push(s);
            assert(string_views(out@) =~= before.push(f@));
        }
        i = i + 1;
    }
    assert(all.take(ls@.len() as int) =~= all);
    if out.len() > 5 {
        let ghost full = string_views(out@);
        out.truncate(5);
        assert(string_views(out@) =~= full.take(5));
    }
    out
}

/// Why a memory was refused.
#[derive(Clone, Copy, PartialEq, Eq, Debug, Structural)]
pub enum MemoryError {
    /// The memory is blank.
    Empty,
    /// The memory is longer than 500 characters.
    TooLong,
}

/// The text stored for a new memory: trimmed; refused when blank or longer
/// than 500 characters.
pub fn memory_text(content: &str) -> (r: Result<String, MemoryError>)
    ensures
        trim(content@).len() == 0 ==> r == Err::<String, MemoryError>(MemoryError::Empty),
        trim(content@).len() > 500 ==> r == Err::<String, MemoryError>(MemoryError::TooLong),
        0 < trim(content@).len() <= 500 ==> (r matches Ok(s) && s@ == trim(content@)),
{
    let t = trim_chars(&chars_of(content));
    if t.len() == 0 {
        return Err(MemoryError::Empty);
    }
    if t.len() > 500 {
        return Err(MemoryError::TooLong);
    }
    Ok(string_of(&t))
}

/// Whether a memory with the same trimmed text is already stored.
pub fn memory_exists(stored: &Vec<String>, content: &str) -> (b: bool)
    ensures
        b == exists|i: int| 0 <= i < stored@.len() && trim(#[trigger] stored@[i]@) == trim(content@),
{
    let needle = trim_chars(&chars_of(content));
    let mut i: usize = 0;
    while i < stored.len()
        invariant
            i <= stored@.len(),
            needle@ == trim(content@),
            forall|j: int| 0 <= j < i ==> trim(#[trigger] stored@[j]@) != trim(content@),
        decreases stored@.len() - i,
    {
        let t = trim_chars(&chars_of(stored[i].as_str()));
        if crate::text::eq_chars(&t, &needle) {
            return true;
        }
        i = i + 1;
    }
    false
}

/// A switch setting's value: `1`, or `true` in any letter case, is on;
/// anything else is off; an unset switch keeps its default.
pub open spec fn switch_value(stored: Option<Seq<char>>, default: bool) -> bool {
    match stored {
        Some(v) => v == "1"@ || crate::files::ascii_lower(v) == "true"@,
        None => default,
    }
}

/// Reads a switch setting (see `switch_value`).
pub fn bool_setting(stored: Option<&str>, default: bool) -> (b: bool)
    ensures
        b == switch_value(
            match stored {
                Some(v) => Some(v@),
                None => None,
            },
            default,
        ),
{
    match stored {
        Some(v) => {
            let c = chars_of(v);
            crate::text::eq_chars(&c, &chars_of("1")) || crate::text::eq_chars(
                &crate::files::lower_chars_pub(&c),
                &chars_of("true"),
            )
        },
        None => default,
    }
}

/// How a switch is stored: `1` or `0`.
pub fn bool_text(value: bool) -> (s: &'static str)
    ensures
        s@ == (if value {
            "1"@
        } else {
            "0"@
        }),
{
    if value {
        "1"
    } else {
        "0"
    }
}


/// The text of a chat completion answer body: the string at
/// `/choices/0/message/content` of its JSON; none when the body is no JSON
/// or holds no such string.
pub uninterp spec fn chat_reply_content(body: Seq<char>) -> Option<Seq<char>>;

/// Reads a chat completion answer with `serde_json::from_str::<Value>`, then
/// `Value::pointer("/choices/0/message/content")` and its string case. Only
/// the naming of the result is claimed.
#[verifier::external_body]
pub(crate) fn reply_content(body: &str) -> (r: Option<String>)
    ensures
        match r {
            Some(s) => chat_reply_content(body@) == Some(s@),
            None => chat_reply_content(body@) is None,
        },
{
    match serde_json::from_str::<serde_json::Value>(body) {
        Ok(v) => v.pointer("/choices/0/message/content").and_then(|c| c.as_str()).map(|s| s.to_string()),
        Err(_) => None,
    }
}

/// The start of the request that asks the model which facts of a turn are
/// worth keeping; the user's words follow it.
pub const EXTRACTION_HEAD: &'static str = "从下面这轮对话里挑出「值得长期记住的、关于他的事实」，每行一条，不带序号与标点修饰。\n只记稳定的信息：称呼、偏好、习惯、住处、设备与环境的配置、说过要办的事、对我的要求。\n不要记：一时的状态（今天很累）、普通的问答内容、约定之外的一次性操作。\n没有值得记的就只输出一个「无」。\n\n他说：";

/// Put between the user's words and the reply in the extraction request.
pub const EXTRACTION_REPLY: &'static str = "\n我回：";

/// The extraction request's text for one turn.
pub fn extraction_prompt(user_text: &str, reply: &str) -> (r: String)
    ensures
        r@ == EXTRACTION_HEAD@ + user_text@ + EXTRACTION_REPLY@ + reply@,
{
    let mut v = chars_of(EXTRACTION_HEAD);
    push_str(&mut v, user_text);
    push_str(&mut v, EXTRACTION_REPLY);
    push_str(&mut v, reply);
    string_of(&v)
}

/// The facts worth keeping from one turn, given what the user said and the
/// body of the model's answer to the extraction request: none when the user
/// said nothing or the answer holds no text, else `extracted_facts` of it.
pub fn reply_facts(user_text: &str, body: &str) -> (r: Vec<String>)
    ensures
        trim(user_text@).len() == 0 ==> r@.len() == 0,
        trim(user_text@).len() > 0 ==> string_views(r@) == match chat_reply_content(body@) {
            Some(t) => extracted_facts(t),
            None => Seq::<Seq<char>>::empty(),
        },
{
    if trim_chars(&chars_of(user_text)).len() == 0 {
        return Vec::new();
    }
    match reply_content(body) {
        Some(t) => fact_lines(t.as_str()),
        None => {
            let v: Vec<String> = Vec::new();
            assert(string_views(v@) =~= Seq::<Seq<char>>::empty());
            v
        },
    }
}

/// An ASCII letter or digit.
pub open spec fn ascii_alnum(c: char) -> bool {
    ('a' <= c && c <= 'z') || ('A' <= c && c <= 'Z') || ('0' <= c && c <= '9')
}

fn is_ascii_alnum(c: char) -> (r: bool)
    ensures
        r == ascii_alnum(c),
{
    ('a' <= c && c <= 'z') || ('A' <= c && c <= 'Z') || ('0' <= c && c <= '9')
}

/// Whether `char::is_alphanumeric` holds of `c` (a letter or digit of any
/// script, by the Unicode tables of the standard library).
pub uninterp spec fn unicode_alnum(c: char) -> bool;

/// `char::is_alphanumeric`. Its answer is named: it depends on `c` alone,
/// through Unicode tables that are not restated here.
#[verifier::external_body]
fn is_alphanumeric(c: char) -> (r: bool)
    ensures
        r == unicode_alnum(c),
{
    c.is_alphanumeric()
}

/// The last character of `t` that is not an ASCII letter or digit.
pub open spec fn last_other(t: Seq<char>) -> Option<char>
    decreases t.len(),
{
    if t.len() == 0 {
        None
    } else if ascii_alnum(t.last()) {
        last_other(t.drop_last())
    } else {
        Some(t.last())
    }
}

/// The two-character tokens of `t`. Its characters that are not ASCII letters
/// or digits are taken in order (the ASCII letters and digits between them
/// skipped); each two consecutive ones of which at least one is a letter or
/// digit of any script form a token. This is how text without spaces, such
/// as Chinese, is cut.
pub open spec fn bigram_set(t: Seq<char>) -> Set<Seq<char>>
    decreases t.len(),
{
    if t.len() == 0 {
        Set::empty()
    } else {
        let c = t.last();
        let rest = bigram_set(t.drop_last());
        if ascii_alnum(c) {
            rest
        } else {
            match last_other(t.drop_last()) {
                Some(p) => if unicode_alnum(p) || unicode_alnum(c) {
                    rest.insert(seq![p, c])
                } else {
                    rest
                },
                None => rest,
            }
        }
    }
}

/// The run of ASCII letters and digits at the end of `t`.
pub open spec fn run_tail(t: Seq<char>) -> Seq<char>
    decreases t.len(),
{
    if t.len() == 0 || !ascii_alnum(t.last()) {
        Seq::empty()
    } else {
        run_tail(t.drop_last()).push(t.last())
    }
}

/// A run as a word token: kept, lower-cased, when longer than one character.
pub open spec fn word_token(w: Seq<char>) -> Set<Seq<char>> {
    if w.len() > 1 {
        set![crate::files::ascii_lower(w)]
    } else {
        Set::empty()
    }
}

/// The word tokens of the runs that `t` has closed (by a character that is
/// not an ASCII letter or digit).
pub open spec fn closed_words(t: Seq<char>) -> Set<Seq<char>>
    decreases t.len(),
{
    if t.len() == 0 {
        Set::empty()
    } else if ascii_alnum(t.last()) {
        closed_words(t.drop_last())
    } else {
        closed_words(t.drop_last()).union(word_token(run_tail(t.drop_last())))
    }
}

/// The word tokens of `t`: its maximal runs of ASCII letters and digits that
/// are longer than one character, lower-cased.
pub open spec fn word_set(t: Seq<char>) -> Set<Seq<char>> {
    closed_words(t).union(word_token(run_tail(t)))
}

/// The tokens of `t` for keyword recall: its two-character tokens and its
/// word tokens.
pub open spec fn token_set(t: Seq<char>) -> Set<Seq<char>> {
    bigram_set(t).union(word_set(t))
}

/// Adds `w` to `out` unless it is there already.
fn insert_unique(out: &mut Vec<Vec<char>>, w: Vec<char>)
    requires
        views(old(out)@).no_duplicates(),
    ensures
        views(final(out)@).no_duplicates(),
        views(final(out)@).to_set() == views(old(out)@).to_set().insert(w@),
{
    let mut i: usize = 0;
    while i < out.len()
        invariant
            i <= out@.len(),
            views(out@).no_duplicates(),
            forall|j: int| 0 <= j < i ==> out@[j]@ != w@,
        decreases out@.len() - i,
    {
        if crate::text::eq_chars(out[i].as_slice(), w.as_slice()) {
            assert(views(out@)[i as int] == w@);
            assert(views(out@).to_set().insert(w@) =~= views(out@).to_set());
            return;
        }
        i = i + 1;
    }
    let ghost before = views(out@);
    assert(!before.contains(w@)) by {
        if before.contains(w@) {
            let j = choose|j: int| 0 <= j < before.len() && before[j] == w@;
            assert(out@[j]@ == w@);
        }
    }
    out.push(w);
    assert(views(out@) =~= before.push(w@));
    assert(before.push(w@).to_set() =~= before.to_set().insert(w@)) by {
        assert(before.push(w@) =~= before + seq![w@]);
        Seq::lemma_to_set_insert_commutes(before, w@);
    }
    assert(views(out@).no_duplicates()) by {
        assert forall|a: int, b: int|
            0 <= a < views(out@).len() && 0 <= b < views(out@).len() && a != b
            implies views(out@)[a] != views(out@)[b] by {
            if a == before.len() as int {
                assert(before.contains(before[b]));
            } else if b == before.len() as int {
                assert(before.contains(before[a]));
            }
        }
    }
}

/// The tokens of `text` as character vectors, each once.
fn token_chars(text: &str) -> (r: Vec<Vec<char>>)
    ensures
        views(r@).no_duplicates(),
        views(r@).to_set() == token_set(text@),
{
    let cs = chars_of(text);
    let mut out: Vec<Vec<char>> = Vec::new();
    let mut prev: Option<char> = None;
    let mut run: Vec<char> = Vec::new();
    let mut i: usize = 0;
    assert(cs@.take(0) =~= Seq::<char>::empty());
    assert(views(out@) =~= Seq::<Seq<char>>::empty());
    assert(views(out@).to_set() =~= Set::<Seq<char>>::empty());
    while i < cs.len()
        invariant
            i <= cs@.len(),
            cs@ == text@,
            views(out@).no_duplicates(),
            views(out@).to_set() == bigram_set(cs@.take(i as int)).union(
                closed_words(cs@.take(i as int)),
            ),
            prev == last_other(cs@.take(i as int)),
            run@ == run_tail(cs@.take(i as int)),
        decreases cs@.len() - i,
    {
        let c = cs[i];
        let ghost t = cs@.take(i as int);
        let ghost t1 = cs@.take(i + 1);
        assert(t1.drop_last() =~= t);
        assert(t1.last() == c);
        if is_ascii_alnum(c) {
            run.push(c);
        } else {
            let ghost s0 = views(out@).to_set();
            match prev {
                Some(p) => {
                    if is_alphanumeric(p) || is_alphanumeric(c) {
                        let mut pair: Vec<char> = Vec::new();
                        pair.push(p);
                        pair.push(c);
                        assert(pair@ =~= seq![p, c]);
                        insert_unique(&mut out, pair);
                    }
                },
                None => {},
            }
            let ghost s1 = views(out@).to_set();
            assert(s1 == bigram_set(t1).union(closed_words(t)));
            if run.len() > 1 {
                let low = crate::files::lower_chars_pub(run.as_slice());
                insert_unique(&mut out, low);
                assert(views(out@).to_set() =~= s1.union(word_token(run_tail(t))));
            } else {
                assert(word_token(run_tail(t)) =~= Set::<Seq<char>>::empty());
                assert(s1.union(word_token(run_tail(t))) =~= s1);
            }
            assert(views(out@).to_set() =~= bigram_set(t1).union(closed_words(t1)));
            run = Vec::new();
            assert(run@ =~= run_tail(t1));
            prev = Some(c);
        }
        i = i + 1;
    }
    assert(cs@.take(cs@.len() as int) =~= cs@);
    let ghost s2 = views(out@).to_set();
    if run.len() > 1 {
        let low = crate::files::lower_chars_pub(run.as_slice());
        insert_unique(&mut out, low);
    } else {
        assert(word_token(run@) =~= Set::<Seq<char>>::empty());
    }
    assert(views(out@).to_set() =~= token_set(text@));
    out
}

/// The tokens of `text` for keyword recall (see `token_set`), each once.
pub fn tokens(text: &str) -> (r: Vec<String>)
    ensures
        string_views(r@).no_duplicates(),
        string_views(r@).to_set() == token_set(text@),
{
    let cs = token_chars(text);
    let mut r: Vec<String> = Vec::new();
    let mut i: usize = 0;
    while i < cs.len()
        invariant
            i <= cs@.len(),
            string_views(r@) == views(cs@).take(i as int),
        decreases cs@.len() - i,
    {
        let s = string_of(cs[i].as_slice());
        assert(s@ == views(cs@)[i as int]);
        let ghost r0 = string_views(r@);
        r.push(s);
        assert(string_views(r@) =~= r0.push(s@));
        i = i + 1;
        assert(string_views(r@) =~= views(cs@).take(i as int));
    }
    assert(views(cs@).take(cs@.len() as int) =~= views(cs@));
    r
}

/// Whether `w` is among `d`.
fn contains_chars(d: &Vec<Vec<char>>, w: &Vec<char>) -> (r: bool)
    ensures
        r == views(d@).contains(w@),
{
    let mut i: usize = 0;
    while i < d.len()
        invariant
            i <= d@.len(),
            forall|j: int| 0 <= j < i ==> d@[j]@ != w@,
        decreases d@.len() - i,
    {
        if crate::text::eq_chars(d[i].as_slice(), w.as_slice()) {
            assert(views(d@)[i as int] == w@);
            return true;
        }
        i = i + 1;
    }
    assert(!views(d@).contains(w@)) by {
        if views(d@).contains(w@) {
            let j = choose|j: int| 0 <= j < views(d@).len() && views(d@)[j] == w@;
            assert(d@[j]@ == w@);
        }
    }
    false
}

/// Keyword overlap of a memory with a query: how many of the query's tokens
/// the memory has, and how many tokens the query has. Relevance is their
/// quotient, zero for a query without tokens.
pub fn keyword_hits(query: &str, doc: &str) -> (r: (usize, usize))
    ensures
        r.1 == token_set(query@).len(),
        r.0 == token_set(query@).intersect(token_set(doc@)).len(),
{
    let q = token_chars(query);
    let d = token_chars(doc);
    let ghost qs = views(q@);
    let ghost ds = token_set(doc@);
    let mut hits: usize = 0;
    let mut i: usize = 0;
    assert(qs.take(0).to_set() =~= Set::<Seq<char>>::empty());
    assert(Set::<Seq<char>>::empty().intersect(ds) =~= Set::<Seq<char>>::empty());
    while i < q.len()
        invariant
            i <= q@.len(),
            qs == views(q@),
            qs.no_duplicates(),
            views(d@).to_set() == ds,
            hits <= i,
            hits == qs.take(i as int).to_set().intersect(ds).len(),
        decreases q@.len() - i,
    {
        let ghost before = qs.take(i as int);
        let ghost w = qs[i as int];
        assert(qs.take(i + 1) =~= before + seq![w]);
        proof {
            Seq::lemma_to_set_insert_commutes(before, w);
        }
        assert(!before.to_set().contains(w)) by {
            if before.to_set().contains(w) {
                let j = choose|j: int| 0 <= j < before.len() && before[j] == w;
                assert(qs[j] == qs[i as int]);
            }
        }
        let ghost old_i = before.to_set().intersect(ds);
        assert(old_i.finite()) by {
            vstd::seq_lib::seq_to_set_is_finite(before);
            vstd::set::axiom_set_intersect_finite(before.to_set(), ds);
        }
        if contains_chars(&d, &q[i]) {
            assert(ds.contains(w));
            assert(before.to_set().insert(w).intersect(ds) =~= old_i.insert(w));
            assert(!old_i.contains(w));
            hits = hits + 1;
        } else {
            assert(!ds.contains(w));
            assert(before.to_set().insert(w).intersect(ds) =~= old_i);
        }
        i = i + 1;
    }
    assert(qs.take(q@.len() as int) =~= qs);
    proof {
        qs.unique_seq_to_set();
    }
    (hits, q.len())
}


/// A memory that the keyword path may recall: its hits on the query's
/// tokens and its text.
pub type Ranked = (int, Seq<char>);

/// How many of the query's tokens a memory has.
pub open spec fn hits_spec(query: Seq<char>, doc: Seq<char>) -> int {
    token_set(query).intersect(token_set(doc)).len() as int
}

/// Relevance, hits over the query's tokens, reaches 0.12: a query without
/// tokens recalls nothing.
pub open spec fn relevant(query: Seq<char>, doc: Seq<char>) -> bool {
    token_set(query).len() > 0 && 25 * hits_spec(query, doc) >= 3 * token_set(query).len()
}

/// The relevant memories with their hits, in their order.
pub open spec fn keyword_candidates(query: Seq<char>, docs: Seq<Seq<char>>) -> Seq<Ranked>
    decreases docs.len(),
{
    if docs.len() == 0 {
        Seq::empty()
    } else {
        let rest = keyword_candidates(query, docs.drop_last());
        let d = docs.last();
        if relevant(query, d) {
            rest.push((hits_spec(query, d), d))
        } else {
            rest
        }
    }
}

/// `x` put into a ranking after every entry with as many hits or more.
pub open spec fn insert_ranked(s: Seq<Ranked>, x: Ranked) -> Seq<Ranked>
    decreases s.len(),
{
    if s.len() == 0 || s.last().0 >= x.0 {
        s.push(x)
    } else {
        insert_ranked(s.drop_last(), x).push(s.last())
    }
}

/// Entries ranked by hits, most first; entries with equal hits keep their
/// order (a stable sort).
pub open spec fn ranked(s: Seq<Ranked>) -> Seq<Ranked>
    decreases s.len(),
{
    if s.len() == 0 {
        Seq::empty()
    } else {
        insert_ranked(ranked(s.drop_last()), s.last())
    }
}

/// What the keyword path recalls: the `RECALL_TOP_K` most relevant
/// memories, by hits, ties in their order.
pub open spec fn keyword_recall_spec(query: Seq<char>, docs: Seq<Seq<char>>) -> Seq<Seq<char>> {
    let r = ranked(keyword_candidates(query, docs));
    let n = if r.len() < 5 {
        r.len() as int
    } else {
        5
    };
    r.take(n).map_values(|x: Ranked| x.1)
}

pub open spec fn ranked_desc(s: Seq<Ranked>) -> bool {
    forall|i: int, j: int| 0 <= i < j < s.len() ==> (#[trigger] s[i]).0 >= (#[trigger] s[j]).0
}

proof fn lemma_insert_ranked(s: Seq<Ranked>, x: Ranked, p: int)
    requires
        0 <= p <= s.len(),
        forall|i: int| 0 <= i < p ==> (#[trigger] s[i]).0 >= x.0,
        forall|i: int| p <= i < s.len() ==> (#[trigger] s[i]).0 < x.0,
    ensures
        insert_ranked(s, x) == s.insert(p, x),
    decreases s.len(),
{
    if s.len() == 0 {
        assert(s.insert(p, x) =~= s.push(x));
    } else if p == s.len() {
        assert(s.last() == s[s.len() - 1]);
        assert(s.insert(p, x) =~= s.push(x));
    } else {
        let d = s.drop_last();
        assert(s.last() == s[s.len() - 1]);
        assert forall|i: int| 0 <= i < p implies (#[trigger] d[i]).0 >= x.0 by {
            assert(d[i] == s[i]);
        }
        assert forall|i: int| p <= i < d.len() implies (#[trigger] d[i]).0 < x.0 by {
            assert(d[i] == s[i]);
        }
        lemma_insert_ranked(d, x, p);
        assert(d.insert(p, x).push(s.last()) =~= s.insert(p, x));
    }
}

/// The keyword path of memory recall, for memories that could not be
/// recalled by their meaning (see `keyword_recall_spec`).
pub fn keyword_recall(query: &str, docs: &Vec<String>) -> (r: Vec<String>)
    ensures
        string_views(r@) == keyword_recall_spec(query@, string_views(docs@)),
{
    let ghost dv = string_views(docs@);
    let mut rank: Vec<(usize, String)> = Vec::new();
    let mut i: usize = 0;
    while i < docs.len()
        invariant
            i <= docs@.len(),
            dv == string_views(docs@),
            rank@.map_values(|e: (usize, String)| (e.0 as int, e.1@)) == ranked(
                keyword_candidates(query@, dv.take(i as int)),
            ),
            ranked_desc(rank@.map_values(|e: (usize, String)| (e.0 as int, e.1@))),
        decreases docs@.len() - i,
    {
        let ghost rv = rank@.map_values(|e: (usize, String)| (e.0 as int, e.1@));
        let ghost t = dv.take(i + 1);
        proof {
            assert(t.drop_last() =~= dv.take(i as int));
            assert(t.last() == docs@[i as int]@);
        }
        let (h, q) = keyword_hits(query, docs[i].as_str());
        proof {
            let kc = keyword_candidates(query@, dv.take(i as int));
            let x = (hits_spec(query@, docs@[i as int]@), docs@[i as int]@);
            assert(kc.push(x).drop_last() =~= kc);
            assert(kc.push(x).last() == x);
        }
        if q > 0 && (h as u128) * 25 >= (q as u128) * 3 {
            let mut p: usize = rank.len();
            while p > 0 && rank[p - 1].0 < h
                invariant
                    p <= rank@.len(),
                    rv == rank@.map_values(|e: (usize, String)| (e.0 as int, e.1@)),
                    forall|k: int| p <= k < rv.len() ==> (#[trigger] rv[k]).0 < h,
                decreases p,
            {
                assert(rv[p - 1].0 == rank@[p - 1].0);
                p = p - 1;
            }
            proof {
                assert forall|k: int| 0 <= k < p implies (#[trigger] rv[k]).0 >= h by {
                    assert(rv[p - 1].0 == rank@[p - 1].0);
                    if k < p - 1 {
                        assert(rv[k].0 >= rv[p - 1].0);
                    }
                }
                lemma_insert_ranked(rv, (h as int, docs@[i as int]@), p as int);
            }
            rank.insert(p, (h, docs[i].clone()));
            proof {
                let nv = rank@.map_values(|e: (usize, String)| (e.0 as int, e.1@));
                assert(nv =~= rv.insert(p as int, (h as int, docs@[i as int]@)));
                assert forall|a: int, b: int| 0 <= a < b < nv.len() implies (#[trigger] nv[a]).0 >= (
                #[trigger] nv[b]).0 by {
                    if a < p && b > p {
                        assert(nv[a] == rv[a] && nv[b] == rv[b - 1]);
                    } else if a < p && b == p {
                        assert(nv[a] == rv[a]);
                    } else if a == p {
                        assert(nv[b] == rv[b - 1]);
                    } else if b < p {
                        assert(nv[a] == rv[a] && nv[b] == rv[b]);
                    } else {
                        assert(nv[a] == rv[a - 1] && nv[b] == rv[b - 1]);
                    }
                }
            }
        }
        i = i + 1;
    }
    assert(dv.take(i as int) =~= dv);
    let ghost rv = rank@.map_values(|e: (usize, String)| (e.0 as int, e.1@));
    let n: usize = if rank.len() < RECALL_TOP_K {
        rank.len()
    } else {
        RECALL_TOP_K
    };
    let mut out: Vec<String> = Vec::new();
    let mut k: usize = 0;
    while k < n
        invariant
            k <= n <= rank@.len(),
            out@.len() == k,
            rv == rank@.map_values(|e: (usize, String)| (e.0 as int, e.1@)),
            string_views(out@) == rv.take(k as int).map_values(|x: Ranked| x.1),
        decreases n - k,
    {
        let ghost o = out@;
        out.push(rank[k].1.clone());
        proof {
            assert forall|j: int| 0 <= j < k + 1 implies #[trigger] string_views(out@)[j] == rv.take(
                k + 1,
            ).map_values(|x: Ranked| x.1)[j] by {
                if j < k {
                    assert(out@[j] == o[j]);
                    assert(string_views(o)[j] == rv.take(k as int).map_values(|x: Ranked| x.1)[j]);
                } else {
                    assert(rv[j].1 == rank@[j].1@);
                }
            }
        }
        k = k + 1;
        assert(string_views(out@) =~= rv.take(k as int).map_values(|x: Ranked| x.1));
    }
    out
}

} // verus!
