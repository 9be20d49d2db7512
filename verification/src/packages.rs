//! Package management through apt/dpkg (Debian family) or pacman (Arch
//! family): reading the package managers' listings, and the command lines
//! of the operations, with every package name checked first.
use vstd::prelude::*;
use crate::distro::Family;
use crate::text::{
    after_last, after_last_chars, after_nth, after_nth_index, lemma_split_len, chars_of, find_chars, find_sub, first_ws,
    first_ws_index, has_prefix, lemma_find_sub, lines, lines_of, occurs_at, push_chars, push_str,
    slice_chars, split_on, split_on_char, starts_with, string_of, string_views, trim, trim_chars, views,
    words, words_of,
};

verus! {

/// A package as the listings show it.
pub struct PackageInfo {
    pub name: String,
    pub version: String,
    pub arch: String,
    pub description: String,
}

/// Batch operations on packages.
#[derive(Clone, Copy, PartialEq, Eq, Debug, Structural)]
pub enum PkgOp {
    Install,
    Upgrade,
    Remove,
}

/// Why a package request was refused.
#[derive(Clone, Copy, PartialEq, Eq, Debug, Structural)]
pub enum PkgError {
    /// A package name (or name filter) was rejected.
    BadName,
    /// A search pattern was rejected.
    BadPattern,
    /// A batch must name 1 to 50 packages.
    BadCount,
}

/// The fields of a package: name, version, architecture, description.
pub type PkgItem = (Seq<char>, Seq<char>, Seq<char>, Seq<char>);

pub open spec fn pkg_view(p: PackageInfo) -> PkgItem {
    (p.name@, p.version@, p.arch@, p.description@)
}

pub open spec fn pkg_views(ps: Seq<PackageInfo>) -> Seq<PkgItem> {
    ps.map_values(|p: PackageInfo| pkg_view(p))
}

/// A character of a package name: the union of the Debian and Arch
/// alphabets.
pub open spec fn pkg_char(c: char) -> bool {
    ('0' <= c <= '9') || ('a' <= c <= 'z') || ('A' <= c <= 'Z') || c == '+' || c == '.' || c == '-'
        || c == '_' || c == ':'
}

/// A package name: 1 to 128 characters from `pkg_char`, not starting with
/// `-` (so that it cannot pass as an option).
pub open spec fn valid_pkg_name(s: Seq<char>) -> bool {
    &&& 0 < s.len() <= 128
    &&& s[0] != '-'
    &&& forall|i: int| 0 <= i < s.len() ==> pkg_char(#[trigger] s[i])
}

/// A search pattern: 1 to 128 bytes, not starting with `-`.
pub open spec fn valid_pattern(s: Seq<char>) -> bool {
    &&& s.len() > 0
    &&& vstd::utf8::encode_utf8(s).len() <= 128
    &&& s[0] != '-'
}

fn is_pkg_char(c: char) -> (b: bool)
    ensures
        b == pkg_char(c),
{
    ('0' <= c && c <= '9') || ('a' <= c && c <= 'z') || ('A' <= c && c <= 'Z') || c == '+' || c == '.'
        || c == '-' || c == '_' || c == ':'
}

/// Checks a package name before it reaches a command line.
pub fn check_name(name: &str) -> (r: Result<(), PkgError>)
    ensures
        r is Ok <==> valid_pkg_name(name@),
        r matches Err(e) ==> e == PkgError::BadName,
{
    let v = chars_of(name);
    if v.len() == 0 || v[0] == '-' || v.len() > 128 {
        return Err(PkgError::BadName);
    }
    let mut i: usize = 0;
    while i < v.len()
        invariant
            i <= v@.len(),
            v@ == name@,
            forall|j: int| 0 <= j < i ==> pkg_char(#[trigger] v@[j]),
        decreases v@.len() - i,
    {
        if !is_pkg_char(v[i]) {
            assert(!pkg_char(name@[i as int]));
            return Err(PkgError::BadName);
        }
        i = i + 1;
    }
    Ok(())
}

/// Checks a search pattern.
pub fn check_pattern(pattern: &str) -> (r: Result<(), PkgError>)
    ensures
        r is Ok <==> valid_pattern(pattern@),
        r matches Err(e) ==> e == PkgError::BadPattern,
{
    if pattern.is_empty() || pattern.as_bytes().len() > 128 {
        return Err(PkgError::BadPattern);
    }
    let v = chars_of(pattern);
    if v[0] == '-' {
        return Err(PkgError::BadPattern);
    }
    Ok(())
}

/// The package listings the panel reads.
#[derive(Clone, Copy, PartialEq, Eq, Debug, Structural)]
pub enum Listing {
    /// `dpkg-query -W -f='${Package}\t${Version}\t${Architecture}\t${Description}\n'`
    InstalledDeb,
    /// `pacman -Q`: `name version`
    InstalledArch,
    /// `apt-get -s upgrade`: `Inst name [current] (new arch repo)`
    UpgradableDeb,
    /// `pacman -Qu`: `name current -> new`
    UpgradableArch,
    /// `apt-cache search --names-only`: `name - description`
    SearchDeb,
    /// `pacman -Ss`: `repo/name version | description`
    SearchArch,
}

/// First word of `s`, empty when there is none.
pub open spec fn first_word(s: Seq<char>) -> Seq<char> {
    if words(s).len() > 0 {
        words(s)[0]
    } else {
        Seq::empty()
    }
}

/// The first line of `s`, trimmed (the short description of dpkg).
pub open spec fn brief(s: Seq<char>) -> Seq<char> {
    if lines(s).len() > 0 {
        trim(lines(s)[0])
    } else {
        Seq::empty()
    }
}

/// `p` occurs in `s`.
pub open spec fn contains_sub(s: Seq<char>, p: Seq<char>) -> bool {
    find_sub(s, p) is Some
}

/// `cur -> new`
pub open spec fn upgrade_text(cur: Seq<char>, new: Seq<char>) -> Seq<char> {
    cur + " -> "@ + new
}

/// The part of `s` between its first `[` and the first `]` after it.
pub open spec fn bracketed(s: Seq<char>) -> Seq<char> {
    match find_sub(s, "["@) {
        Some(a) => {
            let r = s.skip(a + 1);
            match find_sub(r, "]"@) {
                Some(b) => r.take(b),
                None => Seq::empty(),
            }
        },
        None => Seq::empty(),
    }
}

/// The first word after the first ` (` of `s`.
pub open spec fn after_paren_word(s: Seq<char>) -> Seq<char> {
    match find_sub(s, " ("@) {
        Some(a) => first_word(s.skip(a + 2)),
        None => Seq::empty(),
    }
}

/// The package a line of a listing describes, if any. For `pacman -Q` a
/// name filter keeps only the names that contain it.
pub open spec fn item_of(kind: Listing, filter: Option<Seq<char>>, l: Seq<char>) -> Option<PkgItem> {
    match kind {
        Listing::InstalledDeb => {
            let f = split_on(l, '\t');
            match after_nth(l, '\t', 3) {
                Some(desc) => Some((f[0], f[1], f[2], brief(desc))),
                None => None,
            }
        },
        Listing::InstalledArch => {
            let w = words(l);
            if w.len() >= 2 && match filter {
                Some(f) => contains_sub(w[0], f),
                None => true,
            } {
                Some((w[0], w[1], Seq::empty(), Seq::empty()))
            } else {
                None
            }
        },
        Listing::UpgradableDeb => {
            if starts_with(l, "Inst "@) {
                let rest = l.skip(5);
                Some((first_word(rest), upgrade_text(bracketed(rest), after_paren_word(rest)), Seq::empty(), Seq::empty()))
            } else {
                None
            }
        },
        Listing::UpgradableArch => match find_sub(l, " -> "@) {
            Some(a) => {
                let w = words(l.take(a));
                if w.len() >= 2 {
                    Some((w[0], upgrade_text(w[1], l.skip(a + 4)), Seq::empty(), Seq::empty()))
                } else {
                    None
                }
            },
            None => None,
        },
        Listing::SearchDeb => match find_sub(l, " - "@) {
            Some(a) => Some((trim(l.take(a)), Seq::empty(), Seq::empty(), trim(l.skip(a + 3)))),
            None => None,
        },
        Listing::SearchArch => match find_sub(l, " | "@) {
            Some(a) => {
                let head = l.take(a);
                match first_ws(head) {
                    Some(b) => Some((after_last(head.take(b), '/'), trim(head.skip(b + 1)), Seq::empty(), trim(l.skip(a + 3)))),
                    None => None,
                }
            },
            None => None,
        },
    }
}

/// The packages described by the lines `ls`, in order.
pub open spec fn items(kind: Listing, filter: Option<Seq<char>>, ls: Seq<Seq<char>>) -> Seq<PkgItem>
    decreases ls.len(),
{
    if ls.len() == 0 {
        Seq::empty()
    } else {
        let r = items(kind, filter, ls.drop_last());
        match item_of(kind, filter, ls.last()) {
            Some(x) => r.push(x),
            None => r,
        }
    }
}

fn sub_chars(v: &[char], a: usize) -> (r: Vec<char>)
    requires
        a <= v@.len(),
    ensures
        r@ == v@.skip(a as int),
{
    let r = slice_chars(v, a, v.len());
    assert(r@ =~= v@.skip(a as int));
    r
}

fn first_word_of(v: &[char]) -> (r: Vec<char>)
    ensures
        r@ == first_word(v@),
{
    let w = words_of(v);
    if w.len() > 0 {
        assert(views(w@)[0] == w@[0]@);
        w[0].clone()
    } else {
        Vec::new()
    }
}

fn upgrade_text_of(cur: &[char], new: &[char]) -> (r: String)
    ensures
        r@ == upgrade_text(cur@, new@),
{
    let mut v: Vec<char> = Vec::new();
    push_chars(&mut v, cur);
    push_str(&mut v, " -> ");
    push_chars(&mut v, new);
    string_of(&v)
}

fn bracketed_of(s: &[char]) -> (r: Vec<char>)
    ensures
        r@ == bracketed(s@),
{
    proof {
        lemma_find_sub(s@, "["@);
        assert(s@.len() == s.len());
        reveal_strlit("[");
        reveal_strlit("]");
    }
    match find_chars(s, &chars_of("[")) {
        Some(a) => {
            let r = sub_chars(s, a + 1);
            match find_chars(&r, &chars_of("]")) {
                Some(b) => {
                    proof {
                        lemma_find_sub(r@, "]"@);
                    }
                    let t = slice_chars(&r, 0, b);
                    assert(t@ =~= r@.take(b as int));
                    t
                },
                None => Vec::new(),
            }
        },
        None => Vec::new(),
    }
}

fn after_paren_word_of(s: &[char]) -> (r: Vec<char>)
    ensures
        r@ == after_paren_word(s@),
{
    proof {
        lemma_find_sub(s@, " ("@);
        assert(s@.len() == s.len());
        reveal_strlit(" (");
    }
    match find_chars(s, &chars_of(" (")) {
        Some(a) => first_word_of(&sub_chars(s, a + 2)),
        None => Vec::new(),
    }
}

fn item(name: &[char], version: &[char], arch: &[char], desc: &[char]) -> (p: PackageInfo)
    ensures
        pkg_view(p) == (name@, version@, arch@, desc@),
{
    PackageInfo { name: string_of(name), version: string_of(version), arch: string_of(arch), description: string_of(desc) }
}

/// `pacman -Q` lines: a line of at least two words `name version ...` is
/// the package `name` at `version`; under a name filter it is kept exactly
/// when the filter occurs somewhere in the name (anywhere, not only at its
/// start: `ssl` keeps `openssl`); a line of fewer words is no package.
pub proof fn law_installed_arch_filter(filter: Option<Seq<char>>, l: Seq<char>)
    ensures
        words(l).len() < 2 ==> item_of(Listing::InstalledArch, filter, l) is None,
        words(l).len() >= 2 ==> ({
            let name = words(l)[0];
            let kept = match filter {
                None => true,
                Some(f) => exists|i: int| 0 <= i && i + f.len() <= name.len() && #[trigger] name.subrange(i, i + f.len()) == f,
            };
            item_of(Listing::InstalledArch, filter, l) == if kept {
                Some((name, words(l)[1], Seq::<char>::empty(), Seq::<char>::empty()))
            } else {
                None
            }
        }),
{
    match filter {
        Some(f) => {
            if words(l).len() >= 2 {
                let name = words(l)[0];
                lemma_find_sub(name, f);
                if exists|i: int| 0 <= i && i + f.len() <= name.len() && #[trigger] name.subrange(i, i + f.len()) == f {
                    let i = choose|i: int| 0 <= i && i + f.len() <= name.len() && #[trigger] name.subrange(i, i + f.len()) == f;
                    assert(occurs_at(name, f, i));
                }
            }
        },
        None => {},
    }
}

/// The package line `l` of listing `kind` describes.
pub fn item_from(kind: Listing, filter: Option<&[char]>, l: &[char]) -> (r: Option<PackageInfo>)
    ensures
        match item_of(
            kind,
            match filter {
                Some(f) => Some(f@),
                None => None,
            },
            l@,
        ) {
            Some(x) => r matches Some(p) && pkg_view(p) == x,
            None => r is None,
        },
{
    let empty: Vec<char> = Vec::new();
    assert(l@.len() == l.len());
    match kind {
        Listing::InstalledDeb => {
            match after_nth_index(l, '\t', 3) {
                Some(k) => {
                    let f = split_on_char(l, '\t');
                    let desc = sub_chars(l, k);
                    proof {
                        lemma_split_len(l@, '\t', 3);
                    }
                    assert(views(f@)[0] == f@[0]@ && views(f@)[1] == f@[1]@ && views(f@)[2] == f@[2]@);
                    let ls = lines_of(&desc);
                    let b = if ls.len() > 0 {
                        assert(views(ls@)[0] == ls@[0]@);
                        trim_chars(&ls[0])
                    } else {
                        Vec::new()
                    };
                    Some(item(&f[0], &f[1], &f[2], &b))
                },
                None => None,
            }
        },
        Listing::InstalledArch => {
            let w = words_of(l);
            if w.len() < 2 {
                return None;
            }
            assert(views(w@)[0] == w@[0]@ && views(w@)[1] == w@[1]@);
            match filter {
                Some(f) => {
                    proof {
                        lemma_find_sub(w@[0]@, f@);
                    }
                    if find_chars(&w[0], f).is_none() {
                        assert(!contains_sub(words(l@)[0], f@));
                        return None;
                    }
                },
                None => {},
            }
            Some(item(&w[0], &w[1], &empty, &empty))
        },
        Listing::UpgradableDeb => {
            proof {
                reveal_strlit("Inst ");
            }
            let pre = chars_of("Inst ");
            if !has_prefix(l, &pre) {
                return None;
            }
            let rest = sub_chars(l, 5);
            let name = first_word_of(&rest);
            let cur = bracketed_of(&rest);
            let new = after_paren_word_of(&rest);
            let v = upgrade_text_of(&cur, &new);
            Some(PackageInfo { name: string_of(&name), version: v, arch: String::new(), description: String::new() })
        },
        Listing::UpgradableArch => {
            proof {
                lemma_find_sub(l@, " -> "@);
                reveal_strlit(" -> ");
            }
            match find_chars(l, &chars_of(" -> ")) {
                Some(a) => {
                    let head = slice_chars(l, 0, a);
                    assert(head@ =~= l@.take(a as int));
                    let w = words_of(&head);
                    if w.len() < 2 {
                        return None;
                    }
                    assert(views(w@)[0] == w@[0]@ && views(w@)[1] == w@[1]@);
                    let new = sub_chars(l, a + 4);
                    let v = upgrade_text_of(&w[1], &new);
                    Some(PackageInfo { name: string_of(&w[0]), version: v, arch: String::new(), description: String::new() })
                },
                None => None,
            }
        },
        Listing::SearchDeb => {
            proof {
                lemma_find_sub(l@, " - "@);
                reveal_strlit(" - ");
            }
            match find_chars(l, &chars_of(" - ")) {
                Some(a) => {
                    let head = slice_chars(l, 0, a);
                    assert(head@ =~= l@.take(a as int));
                    let desc = sub_chars(l, a + 3);
                    Some(item(&trim_chars(&head), &empty, &empty, &trim_chars(&desc)))
                },
                None => None,
            }
        },
        Listing::SearchArch => {
            proof {
                lemma_find_sub(l@, " | "@);
                reveal_strlit(" | ");
            }
            match find_chars(l, &chars_of(" | ")) {
                Some(a) => {
                    let head = slice_chars(l, 0, a);
                    assert(head@ =~= l@.take(a as int));
                    match first_ws_index(&head) {
                        Some(b) => {
                            let nm = slice_chars(&head, 0, b);
                            assert(nm@ =~= head@.take(b as int));
                            let name = after_last_chars(&nm, '/');
                            let ver = sub_chars(&head, b + 1);
                            let desc = sub_chars(l, a + 3);
                            Some(item(&name, &trim_chars(&ver), &empty, &trim_chars(&desc)))
                        },
                        None => None,
                    }
                },
                None => None,
            }
        },
    }
}

/// How many of `n` packages a listing with limit `limit` returns: it stops
/// once it holds `limit`, and always keeps a first one.
pub open spec fn kept(n: nat, limit: nat) -> nat {
    if limit == 0 {
        if n > 0 {
            1
        } else {
            0
        }
    } else if n < limit {
        n
    } else {
        limit
    }
}

/// The packages a listing returns for output `text` with limit `limit`:
/// the upgrade listings are not limited; `apt-cache search` checks the limit
/// after every line, so a zero limit keeps what the first line gives.
pub open spec fn listing_spec(kind: Listing, filter: Option<Seq<char>>, text: Seq<char>, limit: nat) -> Seq<PkgItem> {
    let ls = lines(text);
    let all = items(kind, filter, ls);
    match kind {
        Listing::UpgradableDeb | Listing::UpgradableArch => all,
        Listing::SearchDeb => if limit == 0 {
            if ls.len() == 0 {
                Seq::empty()
            } else {
                items(kind, filter, ls.take(1))
            }
        } else if all.len() < limit {
            all
        } else {
            all.take(limit as int)
        },
        _ => all.take(kept(all.len(), limit) as int),
    }
}

/// `pacman -Q` with a name filter that is no valid package name is refused
/// at its first line of two words.
pub open spec fn filter_refused(kind: Listing, filter: Option<Seq<char>>, text: Seq<char>) -> bool {
    &&& kind == Listing::InstalledArch
    &&& filter matches Some(f) && !valid_pkg_name(f)
    &&& exists|i: int| 0 <= i < lines(text).len() && words(#[trigger] lines(text)[i]).len() >= 2
}

proof fn lemma_items_prefix(kind: Listing, filter: Option<Seq<char>>, ls: Seq<Seq<char>>, k: int)
    requires
        0 <= k <= ls.len(),
    ensures
        items(kind, filter, ls.take(k)).len() <= items(kind, filter, ls).len(),
        items(kind, filter, ls.take(k)) == items(kind, filter, ls).take(items(kind, filter, ls.take(k)).len() as int),
    decreases ls.len() - k,
{
    if k < ls.len() {
        lemma_items_prefix(kind, filter, ls.drop_last(), k);
        assert(ls.drop_last().take(k) =~= ls.take(k));
        let a = items(kind, filter, ls.take(k));
        let b = items(kind, filter, ls.drop_last());
        assert(b.take(a.len() as int) == a);
        if let Some(x) = item_of(kind, filter, ls.last()) {
            assert(b.push(x).take(a.len() as int) =~= b.take(a.len() as int));
        }
    } else {
        assert(ls.take(k) =~= ls);
        assert(items(kind, filter, ls).take(items(kind, filter, ls).len() as int) =~= items(kind, filter, ls));
    }
}

/// The packages of one listing output (see `listing_spec`), or the refusal
/// of an invalid `pacman -Q` name filter (see `filter_refused`).
pub fn parse_listing(kind: Listing, filter: Option<&str>, text: &str, limit: usize) -> (r: Result<
    Vec<PackageInfo>,
    PkgError,
>)
    ensures
        filter_refused(
            kind,
            match filter {
                Some(f) => Some(f@),
                None => None,
            },
            text@,
        ) ==> r == Err::<Vec<PackageInfo>, PkgError>(PkgError::BadName),
        !filter_refused(
            kind,
            match filter {
                Some(f) => Some(f@),
                None => None,
            },
            text@,
        ) ==> (r matches Ok(v) && pkg_views(v@) == listing_spec(
            kind,
            match filter {
                Some(f) => Some(f@),
                None => None,
            },
            text@,
            limit as nat,
        )),
{
    let ghost fv = match filter {
        Some(f) => Some(f@),
        None => None,
    };
    let cv = chars_of(text);
    let ls = lines_of(&cv);
    let ghost all = views(ls@);
    let fc: Option<Vec<char>> = match filter {
        Some(f) => Some(chars_of(f)),
        None => None,
    };
    if kind == Listing::InstalledArch {
        if let Some(f) = filter {
            if check_name(f).is_err() {
                let mut j: usize = 0;
                while j < ls.len()
                    invariant
                        j <= ls@.len(),
                        all == views(ls@),
                        all == lines(text@),
                        !valid_pkg_name(f@),
                        fv == Some(f@),
                        filter == Some(f),
                        kind == Listing::InstalledArch,
                        forall|q: int| 0 <= q < j ==> words(#[trigger] all[q]).len() < 2,
                    decreases ls@.len() - j,
                {
                    let w = words_of(&ls[j]);
                    if w.len() >= 2 {
                        assert(words(lines(text@)[j as int]).len() >= 2);
                        assert(0 <= j < lines(text@).len());
                        assert(filter_refused(kind, fv, text@));

                        return Err(PkgError::BadName);
                    }
                    j = j + 1;
                }
                assert(!filter_refused(kind, fv, text@));
            }
        }
    }
    let fr: Option<&[char]> = match &fc {
        Some(v) => Some(v.as_slice()),
        None => None,
    };
    let mut list: Vec<PackageInfo> = Vec::new();
    let mut i: usize = 0;
    assert(all.take(0) =~= Seq::<Seq<char>>::empty());
    assert(pkg_views(list@) =~= Seq::<PkgItem>::empty());
    while i < ls.len()
        invariant
            i <= ls@.len(),
            all == views(ls@),
            all == lines(text@),
            fv == match fr {
                Some(f) => Some(f@),
                None => None::<Seq<char>>,
            },
            pkg_views(list@) == items(kind, fv, all.take(i as int)),
        decreases ls@.len() - i,
    {
        assert(all.take(i + 1).drop_last() =~= all.take(i as int));
        assert(all.take(i + 1).last() == ls@[i as int]@);
        let ghost before = pkg_views(list@);
        match item_from(kind, fr, &ls[i]) {
            Some(p) => {
                list.push(p);
                assert(pkg_views(list@) =~= before.push(pkg_view(p)));
            },
            None => {},
        }
        i = i + 1;
    }
    assert(all.take(ls@.len() as int) =~= all);
    let ghost full = items(kind, fv, all);
    let n = list.len();
    match kind {
        Listing::UpgradableDeb | Listing::UpgradableArch => {},
        Listing::SearchDeb => {
            if limit == 0 {
                if ls.len() > 0 {
                    let mut first: Vec<PackageInfo> = Vec::new();
                    proof {
                        lemma_items_prefix(kind, fv, all, 1);
                        assert(all.take(1).drop_last() =~= Seq::<Seq<char>>::empty());
                        assert(all.take(1).last() == ls@[0]@);
                    }
                    match item_from(kind, fr, &ls[0]) {
                        Some(p) => {
                            first.push(p);
                            assert(pkg_views(first@) =~= seq![pkg_view(p)]);
                            assert(items(kind, fv, all.take(1)) == items(kind, fv, Seq::empty()).push(pkg_view(p)));
                            assert(pkg_views(first@) =~= items(kind, fv, all.take(1)));
                        },
                        None => {
                            assert(item_of(kind, fv, ls@[0]@) is None);
                            assert(items(kind, fv, all.take(1)) == items(kind, fv, Seq::empty()));
                            assert(pkg_views(first@) =~= Seq::<PkgItem>::empty());
                            assert(pkg_views(first@) =~= items(kind, fv, all.take(1)));
                        },
                    }
                    return Ok(first);
                } else {
                    list.truncate(0);
                    assert(pkg_views(list@) =~= Seq::<PkgItem>::empty());
                }
            } else if n >= limit {
                list.truncate(limit);
                assert(pkg_views(list@) =~= full.take(limit as int));
            }
        },
        _ => {
            let k: usize = if limit == 0 {
                if n > 0 {
                    1
                } else {
                    0
                }
            } else if n < limit {
                n
            } else {
                limit
            };
            list.truncate(k);
            assert(pkg_views(list@) =~= full.take(k as int));
        },
    }
    Ok(list)
}

/// A package-manager command line.
pub struct PkgCommand {
    pub program: String,
    pub args: Vec<String>,
    /// Run with `DEBIAN_FRONTEND=noninteractive`.
    pub noninteractive: bool,
    /// Run with `LC_ALL=C`, so that the output format does not depend on
    /// the locale.
    pub c_locale: bool,
}

/// `c` runs `program` with `args` and those environment switches.
pub open spec fn command_is(c: PkgCommand, program: Seq<char>, args: Seq<Seq<char>>, noninteractive: bool, c_locale: bool) -> bool {
    &&& c.program@ == program
    &&& string_views(c.args@) == args
    &&& c.noninteractive == noninteractive
    &&& c.c_locale == c_locale
}

fn command(program: &str, args: Vec<String>, noninteractive: bool, c_locale: bool) -> (c: PkgCommand)
    ensures
        command_is(c, program@, string_views(args@), noninteractive, c_locale),
{
    PkgCommand { program: program.to_owned(), args, noninteractive, c_locale }
}

/// Program and leading arguments of a batch operation.
pub open spec fn batch_spec(op: PkgOp, family: Family) -> (Seq<char>, Seq<Seq<char>>) {
    match (op, family) {
        (PkgOp::Install, Family::Debian) => ("apt-get"@, seq!["install"@, "-y"@, "--no-install-recommends"@]),
        (PkgOp::Upgrade, Family::Debian) => ("apt-get"@, seq!["install"@, "-y"@, "--only-upgrade"@]),
        (PkgOp::Remove, Family::Debian) => ("apt-get"@, seq!["remove"@, "-y"@]),
        (PkgOp::Install, Family::Arch) => ("pacman"@, seq!["-S"@, "--noconfirm"@, "--needed"@]),
        (PkgOp::Upgrade, Family::Arch) => ("pacman"@, seq!["-S"@, "--noconfirm"@, "--needed"@]),
        (PkgOp::Remove, Family::Arch) => ("pacman"@, seq!["-R"@, "--noconfirm"@]),
    }
}

/// The command of a batch operation on packages `names`: 1 to 50 names,
/// each a valid package name, appended to the operation's arguments; apt
/// runs non-interactively. (`pacman -S --needed` skips what is up to date,
/// which is what upgrading a package means there.)
pub fn batch_command(op: PkgOp, family: Family, names: &Vec<String>) -> (r: Result<PkgCommand, PkgError>)
    ensures
        (names@.len() == 0 || names@.len() > 50) ==> r == Err::<PkgCommand, PkgError>(PkgError::BadCount),
        (1 <= names@.len() <= 50 && exists|i: int| 0 <= i < names@.len() && !valid_pkg_name(#[trigger] names@[i]@))
            ==> r == Err::<PkgCommand, PkgError>(PkgError::BadName),
        (1 <= names@.len() <= 50 && forall|i: int| 0 <= i < names@.len() ==> valid_pkg_name(#[trigger] names@[i]@))
            ==> (r matches Ok(c) && command_is(
            c,
            batch_spec(op, family).0,
            batch_spec(op, family).1 + string_views(names@),
            family == Family::Debian,
            false,
        )),
{
    if names.len() == 0 || names.len() > 50 {
        return Err(PkgError::BadCount);
    }
    let mut i: usize = 0;
    while i < names.len()
        invariant
            i <= names@.len(),
            1 <= names@.len() <= 50,
            forall|j: int| 0 <= j < i ==> valid_pkg_name(#[trigger] names@[j]@),
        decreases names@.len() - i,
    {
        if check_name(names[i].as_str()).is_err() {
            return Err(PkgError::BadName);
        }
        i = i + 1;
    }
    let mut args: Vec<String> = Vec::new();
    let program = match (op, family) {
        (PkgOp::Install, Family::Debian) => {
            args.push("install".to_owned());
            args.push("-y".to_owned());
            args.push("--no-install-recommends".to_owned());
            "apt-get"
        },
        (PkgOp::Upgrade, Family::Debian) => {
            args.push("install".to_owned());
            args.push("-y".to_owned());
            args.push("--only-upgrade".to_owned());
            "apt-get"
        },
        (PkgOp::Remove, Family::Debian) => {
            args.push("remove".to_owned());
            args.push("-y".to_owned());
            "apt-get"
        },
        (PkgOp::Remove, Family::Arch) => {
            args.push("-R".to_owned());
            args.push("--noconfirm".to_owned());
            "pacman"
        },
        (_, Family::Arch) => {
            args.push("-S".to_owned());
            args.push("--noconfirm".to_owned());
            args.push("--needed".to_owned());
            "pacman"
        },
    };
    assert(string_views(args@) =~= batch_spec(op, family).1);
    assert(program@ == batch_spec(op, family).0);
    let ghost base = string_views(args@);
    let mut j: usize = 0;
    while j < names.len()
        invariant
            j <= names@.len(),
            string_views(args@) == base + string_views(names@).take(j as int),
        decreases names@.len() - j,
    {
        let ghost before = string_views(args@);
        args.push(names[j].as_str().to_owned());
        assert(string_views(args@) =~= before.push(names@[j as int]@));
        j = j + 1;
        assert(string_views(args@) =~= base + string_views(names@).take(j as int));
    }
    assert(string_views(names@).take(names@.len() as int) =~= string_views(names@));
    Ok(command(program, args, family == Family::Debian, false))
}

/// The command that refreshes the package index: `apt-get update`, or
/// `pacman -Sy --noconfirm` (only the database sync: `-y` with `-u`/`-S`
/// is risky).
pub fn update_command(family: Family) -> (c: PkgCommand)
    ensures
        family == Family::Debian ==> command_is(c, "apt-get"@, seq!["update"@], true, false),
        family == Family::Arch ==> command_is(c, "pacman"@, seq!["-Sy"@, "--noconfirm"@], false, false),
{
    let mut args: Vec<String> = Vec::new();
    match family {
        Family::Debian => {
            args.push("update".to_owned());
            assert(string_views(args@) =~= seq!["update"@]);
            command("apt-get", args, true, false)
        },
        Family::Arch => {
            args.push("-Sy".to_owned());
            args.push("--noconfirm".to_owned());
            assert(string_views(args@) =~= seq!["-Sy"@, "--noconfirm"@]);
            command("pacman", args, false, false)
        },
    }
}

/// The `dpkg-query` format of the installed listing.
pub open spec fn dpkg_format() -> Seq<char> {
    "-f=${Package}\t${Version}\t${Architecture}\t${Description}\n"@
}

/// The command listing installed packages: `dpkg-query -W` with the
/// listing format and, for a name filter, the pattern `filter*` (refused
/// when the filter is no valid package name); `pacman -Q` (its filter
/// applies to the output, see `parse_listing`).
pub fn installed_command(family: Family, filter: Option<&str>) -> (r: Result<PkgCommand, PkgError>)
    ensures
        family == Family::Arch ==> (r matches Ok(c) && command_is(c, "pacman"@, seq!["-Q"@], false, false)),
        family == Family::Debian ==> match filter {
            None => r matches Ok(c) && command_is(c, "dpkg-query"@, seq!["-W"@, dpkg_format()], false, false),
            Some(f) => if valid_pkg_name(f@) {
                r matches Ok(c) && command_is(
                    c,
                    "dpkg-query"@,
                    seq!["-W"@, dpkg_format(), f@.push('*')],
                    false,
                    false,
                )
            } else {
                r == Err::<PkgCommand, PkgError>(PkgError::BadName)
            },
        },
{
    let mut args: Vec<String> = Vec::new();
    match family {
        Family::Arch => {
            args.push("-Q".to_owned());
            assert(string_views(args@) =~= seq!["-Q"@]);
            Ok(command("pacman", args, false, false))
        },
        Family::Debian => {
            args.push("-W".to_owned());
            args.push("-f=${Package}\t${Version}\t${Architecture}\t${Description}\n".to_owned());
            match filter {
                Some(f) => {
                    if check_name(f).is_err() {
                        return Err(PkgError::BadName);
                    }
                    let mut v = chars_of(f);
                    v.push('*');
                    args.push(string_of(&v));
                    assert(string_views(args@) =~= seq!["-W"@, dpkg_format(), f@.push('*')]);
                },
                None => {
                    assert(string_views(args@) =~= seq!["-W"@, dpkg_format()]);
                },
            }
            Ok(command("dpkg-query", args, false, false))
        },
    }
}

/// The command listing upgradable packages: the simulated
/// `apt-get -s upgrade`, or `pacman -Qu`, in the C locale so that the
/// lines can be read.
pub fn upgradable_command(family: Family) -> (c: PkgCommand)
    ensures
        family == Family::Debian ==> command_is(c, "apt-get"@, seq!["-s"@, "upgrade"@], true, true),
        family == Family::Arch ==> command_is(c, "pacman"@, seq!["-Qu"@], false, true),
{
    let mut args: Vec<String> = Vec::new();
    match family {
        Family::Debian => {
            args.push("-s".to_owned());
            args.push("upgrade".to_owned());
            assert(string_views(args@) =~= seq!["-s"@, "upgrade"@]);
            command("apt-get", args, true, true)
        },
        Family::Arch => {
            args.push("-Qu".to_owned());
            assert(string_views(args@) =~= seq!["-Qu"@]);
            command("pacman", args, false, true)
        },
    }
}

/// Whether the upgrade check failed: `pacman -Qu` exits with 1 when nothing
/// is upgradable, which is no failure.
pub fn upgrade_check_failed(family: Family, success: bool, code: Option<i32>) -> (b: bool)
    ensures
        b == (!success && (family == Family::Debian || code != Some(1i32))),
{
    match family {
        Family::Debian => !success,
        Family::Arch => !success && !(code == Some(1i32)),
    }
}

/// The package search command for a pattern: `apt-cache search
/// --names-only`, or `pacman -Ss` (local and sync databases) in the C
/// locale; the pattern is checked first.
pub fn search_command(family: Family, pattern: &str) -> (r: Result<PkgCommand, PkgError>)
    ensures
        !valid_pattern(pattern@) ==> r == Err::<PkgCommand, PkgError>(PkgError::BadPattern),
        valid_pattern(pattern@) && family == Family::Debian ==> (r matches Ok(c) && command_is(
            c,
            "apt-cache"@,
            seq!["search"@, "--names-only"@, pattern@],
            false,
            false,
        )),
        valid_pattern(pattern@) && family == Family::Arch ==> (r matches Ok(c) && command_is(
            c,
            "pacman"@,
            seq!["-Ss"@, pattern@],
            false,
            true,
        )),
{
    match check_pattern(pattern) {
        Err(e) => return Err(e),
        Ok(()) => {},
    }
    let mut args: Vec<String> = Vec::new();
    match family {
        Family::Debian => {
            args.push("search".to_owned());
            args.push("--names-only".to_owned());
            args.push(pattern.to_owned());
            assert(string_views(args@) =~= seq!["search"@, "--names-only"@, pattern@]);
            Ok(command("apt-cache", args, false, false))
        },
        Family::Arch => {
            args.push("-Ss".to_owned());
            args.push(pattern.to_owned());
            assert(string_views(args@) =~= seq!["-Ss"@, pattern@]);
            Ok(command("pacman", args, false, true))
        },
    }
}

} // verus!
