//! Linux distribution detection from `/etc/os-release`: which package-manager
//! family the panel drives.
use vstd::prelude::*;
use crate::text::{
    chars_of, eq_chars, has_prefix, lines, lines_of, slice_chars, starts_with, string_of, trim, trim_char,
    trim_char_chars, trim_chars, views, words, words_of, is_ws, lemma_words_append,
};

verus! {

/// Distribution family: Debian-like and Arch-like systems are supported.
#[derive(Clone, Copy, PartialEq, Eq, Debug, Structural)]
pub enum Family {
    Debian,
    Arch,
}

/// Detection result kept for the process lifetime.
pub struct Distro {
    pub family: Family,
    /// PRETTY_NAME of os-release, e.g. "Debian GNU/Linux 13 (trixie)".
    pub pretty: String,
}

/// The value of `key` on one os-release line `KEY=VALUE`, whitespace and
/// surrounding double quotes removed; nothing when the line is another key or
/// the value is empty.
pub open spec fn key_value(line: Seq<char>, key: Seq<char>) -> Option<Seq<char>> {
    if starts_with(line, key) && line.len() > key.len() && line[key.len() as int] == '=' {
        let v = trim_char(trim(line.skip(key.len() + 1 as int)), '"');
        if v.len() > 0 {
            Some(v)
        } else {
            None
        }
    } else {
        None
    }
}

/// The first line among `ls` that gives `key` a non-empty value.
pub open spec fn first_value(ls: Seq<Seq<char>>, key: Seq<char>) -> Option<Seq<char>>
    decreases ls.len(),
{
    if ls.len() == 0 {
        None
    } else {
        match key_value(ls[0], key) {
            Some(v) => Some(v),
            None => first_value(ls.drop_first(), key),
        }
    }
}

/// What `field` returns for an os-release text.
pub open spec fn os_release_field(content: Seq<char>, key: Seq<char>) -> Option<Seq<char>> {
    first_value(lines(content), key)
}

pub open spec fn word_debian() -> Seq<char> {
    seq!['d', 'e', 'b', 'i', 'a', 'n']
}

pub open spec fn word_ubuntu() -> Seq<char> {
    seq!['u', 'b', 'u', 'n', 't', 'u']
}

pub open spec fn word_arch() -> Seq<char> {
    seq!['a', 'r', 'c', 'h']
}

/// Family of a system from its ID and ID_LIKE: Debian when either names
/// `debian` or `ubuntu` as a word (checked first), Arch when one names `arch`.
pub open spec fn family_of(id: Seq<char>, like: Seq<char>) -> Option<Family> {
    let t = words(id + seq![' '] + like);
    if t.contains(word_debian()) || t.contains(word_ubuntu()) {
        Some(Family::Debian)
    } else if t.contains(word_arch()) {
        Some(Family::Arch)
    } else {
        None
    }
}

fn key_value_of(line: &[char], key: &[char]) -> (r: Option<Vec<char>>)
    ensures
        r matches Some(v) ==> key_value(line@, key@) == Some(v@),
        r is None ==> key_value(line@, key@) is None,
{
    if !has_prefix(line, key) || line.len() <= key.len() || line[key.len()] != '=' {
        return None;
    }
    let rest = slice_chars(line, key.len() + 1, line.len());
    assert(rest@ =~= line@.skip(key@.len() + 1 as int));
    let t = trim_chars(&rest);
    let v = trim_char_chars(&t, '"');
    if v.len() > 0 {
        Some(v)
    } else {
        None
    }
}

/// Reads field `key` of an os-release text: the first `KEY=VALUE` line with a
/// non-empty value, whitespace and quotes removed.
pub fn field(content: &str, key: &str) -> (r: Option<String>)
    ensures
        r matches Some(v) ==> os_release_field(content@, key@) == Some(v@),
        r is None ==> os_release_field(content@, key@) is None,
{
    let cv = chars_of(content);
    let kv = chars_of(key);
    let ls = lines_of(&cv);
    let ghost all = views(ls@);
    let mut i: usize = 0;
    assert(all.skip(0) =~= all);
    while i < ls.len()
        invariant
            i <= ls@.len(),
            all == views(ls@),
            all == lines(content@),
            kv@ == key@,
            first_value(all, kv@) == first_value(all.skip(i as int), kv@),
        decreases ls@.len() - i,
    {
        let ghost rest = all.skip(i as int);
        assert(rest[0] == ls@[i as int]@);
        assert(rest.drop_first() =~= all.skip(i + 1));
        match key_value_of(&ls[i], &kv) {
            Some(v) => {
                assert(first_value(rest, kv@) == Some(v@));
                return Some(string_of(&v));
            },
            None => {},
        }
        i = i + 1;
    }
    assert(all.skip(i as int).len() == 0);
    None
}

fn contains_word(ws: &Vec<Vec<char>>, w: &[char]) -> (r: bool)
    ensures
        r == views(ws@).contains(w@),
{
    let mut i: usize = 0;
    while i < ws.len()
        invariant
            i <= ws@.len(),
            forall|j: int| 0 <= j < i ==> ws@[j]@ != w@,
        decreases ws@.len() - i,
    {
        if eq_chars(&ws[i], w) {
            assert(views(ws@)[i as int] == w@);
            return true;
        }
        i = i + 1;
    }
    assert forall|j: int| 0 <= j < views(ws@).len() implies views(ws@)[j] != w@ by {
        assert(views(ws@)[j] == ws@[j]@);
    }
    false
}

/// The family is read from the words of ID and ID_LIKE alike: a word
/// `debian` or `ubuntu` in either one makes the system Debian-like (so a
/// derivative whose ID_LIKE says `ubuntu` is supported), else a word `arch`
/// in either one makes it Arch-like, else it is unsupported. Swapping the two
/// fields gives the same family.
pub proof fn law_family_by_words(id: Seq<char>, like: Seq<char>)
    ensures
        family_of(id, like) == (if words(id).contains("debian"@) || words(id).contains("ubuntu"@) || words(
            like,
        ).contains("debian"@) || words(like).contains("ubuntu"@) {
            Some(Family::Debian)
        } else if words(id).contains("arch"@) || words(like).contains("arch"@) {
            Some(Family::Arch)
        } else {
            None
        }),
        family_of(id, like) == family_of(like, id),
{
    reveal_strlit("debian");
    reveal_strlit("ubuntu");
    reveal_strlit("arch");
    assert("debian"@ =~= word_debian());
    assert("ubuntu"@ =~= word_ubuntu());
    assert("arch"@ =~= word_arch());
    lemma_words_joined(id, like);
    lemma_words_joined(like, id);
    let a = words(id);
    let b = words(like);
    assert forall|w: Seq<char>| (a + b).contains(w) <==> a.contains(w) || b.contains(w) by {
        if (a + b).contains(w) {
            let k = choose|k: int| 0 <= k < (a + b).len() && (a + b)[k] == w;
            if k >= a.len() {
                assert(b[k - a.len()] == w);
            }
        }
        if a.contains(w) {
            let k = choose|k: int| 0 <= k < a.len() && a[k] == w;
            assert((a + b)[k] == w);
        }
        if b.contains(w) {
            let k = choose|k: int| 0 <= k < b.len() && b[k] == w;
            assert((a + b)[a.len() + k] == w);
        }
    }
    assert forall|w: Seq<char>| (b + a).contains(w) <==> a.contains(w) || b.contains(w) by {
        if (b + a).contains(w) {
            let k = choose|k: int| 0 <= k < (b + a).len() && (b + a)[k] == w;
            if k >= b.len() {
                assert(a[k - b.len()] == w);
            }
        }
        if b.contains(w) {
            let k = choose|k: int| 0 <= k < b.len() && b[k] == w;
            assert((b + a)[k] == w);
        }
        if a.contains(w) {
            let k = choose|k: int| 0 <= k < a.len() && a[k] == w;
            assert((b + a)[b.len() + k] == w);
        }
    }
}

/// The words of `x`, a space, and `y` are the words of `x` then those of `y`.
proof fn lemma_words_joined(x: Seq<char>, y: Seq<char>)
    ensures
        words(x + seq![' '] + y) == words(x) + words(y),
{
    let xs = x + seq![' '];
    assert(is_ws(xs.last()));
    lemma_words_append(xs, y);
    assert(xs.drop_last() =~= x);
}

/// Classifies a system by ID and ID_LIKE; `None` means unsupported.
pub fn classify(id: &str, like: &str) -> (r: Option<Family>)
    ensures
        r == family_of(id@, like@),
{
    let mut joined = chars_of(id);
    joined.push(' ');
    let lv = chars_of(like);
    let mut i: usize = 0;
    while i < lv.len()
        invariant
            i <= lv@.len(),
            joined@ == id@ + seq![' '] + lv@.take(i as int),
        decreases lv@.len() - i,
    {
        joined.push(lv[i]);
        i = i + 1;
        assert(joined@ =~= id@ + seq![' '] + lv@.take(i as int));
    }
    assert(lv@.take(lv@.len() as int) =~= like@);
    let ws = words_of(&joined);
    let debian = chars_of("debian");
    let ubuntu = chars_of("ubuntu");
    let arch = chars_of("arch");
    proof {
        reveal_strlit("debian");
        reveal_strlit("ubuntu");
        reveal_strlit("arch");
        assert(debian@ =~= word_debian());
        assert(ubuntu@ =~= word_ubuntu());
        assert(arch@ =~= word_arch());
    }
    if contains_word(&ws, &debian) || contains_word(&ws, &ubuntu) {
        Some(Family::Debian)
    } else if contains_word(&ws, &arch) {
        Some(Family::Arch)
    } else {
        None
    }
}


pub open spec fn key_id() -> Seq<char> {
    seq!['I', 'D']
}

pub open spec fn key_id_like() -> Seq<char> {
    seq!['I', 'D', '_', 'L', 'I', 'K', 'E']
}

pub open spec fn key_pretty_name() -> Seq<char> {
    seq!['P', 'R', 'E', 'T', 'T', 'Y', '_', 'N', 'A', 'M', 'E']
}

/// ID of an os-release text, empty when absent.
pub open spec fn release_id(content: Seq<char>) -> Seq<char> {
    match os_release_field(content, key_id()) {
        Some(v) => v,
        None => Seq::empty(),
    }
}

/// ID_LIKE of an os-release text, empty when absent.
pub open spec fn release_like(content: Seq<char>) -> Seq<char> {
    match os_release_field(content, key_id_like()) {
        Some(v) => v,
        None => Seq::empty(),
    }
}

/// Display name: PRETTY_NAME, else ID, else "未知系统".
pub open spec fn release_pretty(content: Seq<char>) -> Seq<char> {
    match os_release_field(content, key_pretty_name()) {
        Some(v) => v,
        None => if release_id(content).len() == 0 {
            "未知系统"@
        } else {
            release_id(content)
        },
    }
}

fn field_or_empty(content: &str, key: &str) -> (r: String)
    ensures
        r@ == match os_release_field(content@, key@) {
            Some(v) => v,
            None => Seq::empty(),
        },
{
    match field(content, key) {
        Some(v) => v,
        None => String::new(),
    }
}

/// The detection step of start-up: classifies the os-release text, or says
/// why the system is not supported.
pub fn detect(content: &str) -> (r: Result<Distro, String>)
    ensures
        r is Ok <==> family_of(release_id(content@), release_like(content@)) is Some,
        r matches Ok(d) ==> Some(d.family) == family_of(release_id(content@), release_like(content@))
            && d.pretty@ == release_pretty(content@),
        r matches Err(m) ==> m@ == "当前系统 "@ + release_pretty(content@)
            + " 暂不支持（目前支持 Debian/Ubuntu 系与 Arch 系），服务停止启动"@,
{
    proof {
        reveal_strlit("ID");
        reveal_strlit("ID_LIKE");
        reveal_strlit("PRETTY_NAME");
        assert("ID"@ =~= key_id());
        assert("ID_LIKE"@ =~= key_id_like());
        assert("PRETTY_NAME"@ =~= key_pretty_name());
    }
    let id = field_or_empty(content, "ID");
    let like = field_or_empty(content, "ID_LIKE");
    let pretty = match field(content, "PRETTY_NAME") {
        Some(p) => p,
        None => if id.as_str().is_empty() {
            String::from_str("未知系统")
        } else {
            id.clone()
        },
    };
    match classify(id.as_str(), like.as_str()) {
        Some(family) => Ok(Distro { family, pretty }),
        None => {
            let mut m = String::from_str("当前系统 ");
            m.append(pretty.as_str());
            m.append(" 暂不支持（目前支持 Debian/Ubuntu 系与 Arch 系），服务停止启动");
            Err(m)
        },
    }
}

/// The detected family; the panel detects the distribution before anything
/// asks for it.
pub fn family(current: &Option<Distro>) -> (f: Family)
    requires
        current is Some,
    ensures
        f == current->0.family,
{
    match current {
        Some(d) => d.family,
        None => Family::Debian,
    }
}

/// The detected PRETTY_NAME, or "未知系统" before detection.
pub fn pretty(current: &Option<Distro>) -> (s: &str)
    ensures
        current matches Some(d) ==> s@ == d.pretty@,
        current is None ==> s@ == "未知系统"@,
{
    match current {
        Some(d) => d.pretty.as_str(),
        None => "未知系统",
    }
}

} // verus!
