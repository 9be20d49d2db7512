//! The file manager's rules: which paths may be touched, how a directory
//! listing is ordered, which files count as text, and how uploaded files are
//! named. The panel's own data directory and every SQLite database file are
//! off limits to the file interface.
use vstd::prelude::*;
use vstd::utf8::{decode_utf8, valid_utf8};
use crate::paths::{
    components, file_name, is_abs as path_is_abs, file_name_of, is_abs, is_root, is_root_path, path_starts_with,
    path_starts_with_chars,
};
use crate::text::{
    before_last, before_last_chars, chars_lt, chars_of, decimal, decimal_of, ends_with, eq_chars, has_suffix, lemma_seq_lt_asymmetric,
    lemma_seq_lt_irreflexive, lemma_seq_lt_total, lemma_seq_lt_transitive, push_chars, push_str, seq_lt,
    slice_chars, split_on, split_on_char, string_of, views,
};

verus! {

/// Largest file, in bytes, that can be opened for editing (1 MiB).
pub const MAX_READ_SIZE: u64 = 1048576;

/// Largest file, in bytes, that can be downloaded (50 MiB).
pub const MAX_DOWNLOAD_SIZE: u64 = 52428800;

/// Bytes read from the head of a file to tell whether it is binary.
pub const PROBE_SIZE: usize = 8192;

/// Why a file operation was refused.
#[derive(Clone, Copy, PartialEq, Eq, Debug, Structural)]
pub enum FileError {
    /// Paths must be absolute.
    NotAbsolute,
    /// Paths may not hold a `..` segment.
    DotDot,
    /// The panel's data directory and database files are off limits.
    Protected,
    /// The root directory cannot be removed.
    RootRemoval,
    /// The uploaded file name names nothing.
    BadUploadName,
    /// An upload may not create a database file.
    UploadProtected,
    /// The file is binary: editing it as text would damage it.
    Binary,
    /// The file is larger than the limit of the operation.
    TooLarge,
    /// The target is not a regular file.
    NotAFile,
    /// The target of a rename already exists.
    Exists,
}

/// One directory entry.
pub struct Entry {
    pub name: String,
    pub path: String,
    pub is_dir: bool,
    pub is_symlink: bool,
    pub size: u64,
    /// Permission bits in octal, such as `755`.
    pub mode: String,
    /// Modification time, Unix seconds.
    pub mtime: i64,
}

/// A directory listing.
pub struct DirListing {
    pub path: String,
    pub parent: Option<String>,
    pub entries: Vec<Entry>,
}

/// `c` in lower case, for ASCII letters.
pub open spec fn lower_char(c: char) -> char {
    if 'A' <= c <= 'Z' {
        ((c as u8) + 32) as u8 as char
    } else {
        c
    }
}

/// `s` with its ASCII letters in lower case (`to_ascii_lowercase`).
pub open spec fn ascii_lower(s: Seq<char>) -> Seq<char> {
    s.map_values(|c: char| lower_char(c))
}

/// A SQLite database file name, any case: `*.db`, or its write-ahead log
/// and shared-memory companions `*.db-wal`, `*.db-shm`.
pub open spec fn db_name(n: Seq<char>) -> bool {
    let l = ascii_lower(n);
    ends_with(l, ".db"@) || ends_with(l, ".db-wal"@) || ends_with(l, ".db-shm"@)
}

/// Whether path `p` is off limits: inside the protected directory `dir`
/// (when one is set), or a database file.
pub open spec fn protected_spec(dir: Option<Seq<char>>, p: Seq<char>) -> bool {
    (dir matches Some(d) && path_starts_with(p, d)) || db_name(
        match file_name(p) {
            Some(n) => n,
            None => Seq::empty(),
        },
    )
}

/// A path as the file interface accepts it: absolute, without a `..`
/// segment.
pub open spec fn syntax_error(path: Seq<char>) -> Option<FileError> {
    if !(path.len() > 0 && path[0] == '/') {
        Some(FileError::NotAbsolute)
    } else if split_on(path, '/').contains(".."@) {
        Some(FileError::DotDot)
    } else {
        None
    }
}

fn lower_chars(v: &[char]) -> (r: Vec<char>)
    ensures
        r@ == ascii_lower(v@),
{
    let mut r: Vec<char> = Vec::new();
    let mut i: usize = 0;
    while i < v.len()
        invariant
            i <= v@.len(),
            r@ == ascii_lower(v@.take(i as int)),
        decreases v@.len() - i,
    {
        let c = v[i];
        let d = if 'A' <= c && c <= 'Z' {
            ((c as u8) + 32) as char
        } else {
            c
        };
        r.push(d);
        i = i + 1;
        assert(r@ =~= ascii_lower(v@.take(i as int)));
    }
    assert(v@.take(v@.len() as int) =~= v@);
    r
}

/// `ascii_lower(v)` computed.
pub fn lower_chars_pub(v: &[char]) -> (r: Vec<char>)
    ensures
        r@ == ascii_lower(v@),
{
    lower_chars(v)
}

/// Whether `n` names a database file.
pub fn is_db_name(n: &[char]) -> (b: bool)
    ensures
        b == db_name(n@),
{
    let l = lower_chars(n);
    has_suffix(&l, &chars_of(".db")) || has_suffix(&l, &chars_of(".db-wal")) || has_suffix(
        &l,
        &chars_of(".db-shm"),
    )
}

/// The paths the file interface refuses: the panel's data directory, set
/// once at start-up, and every database file.
pub struct FileGuard {
    protected: Option<Vec<char>>,
}

impl FileGuard {
    /// The protected directory, when set.
    pub closed spec fn dir(&self) -> Option<Seq<char>> {
        match self.protected {
            Some(v) => Some(v@),
            None => None,
        }
    }

    /// A guard with no protected directory yet.
    pub fn new() -> (g: Self)
        ensures
            g.dir() is None,
    {
        FileGuard { protected: None }
    }

    /// Sets the protected directory (the canonical absolute path of the
    /// data directory). Only the first setting takes effect.
    pub fn set_protected_dir(&mut self, dir: &str)
        ensures
            old(self).dir() is None ==> final(self).dir() == Some(dir@),
            old(self).dir() is Some ==> final(self).dir() == old(self).dir(),
    {
        if self.protected.is_none() {
            self.protected = Some(chars_of(dir));
        }
    }

    /// Whether `p` is off limits (see `protected_spec`).
    pub fn is_protected(&self, p: &str) -> (b: bool)
        ensures
            b == protected_spec(self.dir(), p@),
    {
        let pv = chars_of(p);
        match &self.protected {
            Some(d) => {
                if path_starts_with_chars(&pv, d) {
                    return true;
                }
            },
            None => {},
        }
        let name = match file_name_of(&pv) {
            Some(n) => n,
            None => Vec::new(),
        };
        is_db_name(&name)
    }

    /// The path the file interface works on: `path` must be absolute and
    /// free of `..` segments; the target is `canonical` (the resolved real
    /// path, for an existing file) or else `path` itself, and must not be
    /// off limits.
    pub fn resolve(&self, path: &str, canonical: Option<&str>) -> (r: Result<String, FileError>)
        ensures
            syntax_error(path@) matches Some(e) ==> r == Err::<String, FileError>(e),
            syntax_error(path@) is None ==> ({
                let t = match canonical {
                    Some(c) => c@,
                    None => path@,
                };
                if protected_spec(self.dir(), t) {
                    r == Err::<String, FileError>(FileError::Protected)
                } else {
                    r matches Ok(s) && s@ == t
                }
            }),
    {
        match check_syntax(path) {
            Err(e) => return Err(e),
            Ok(()) => {},
        }
        let t = match canonical {
            Some(c) => c,
            None => path,
        };
        if self.is_protected(t) {
            return Err(FileError::Protected);
        }
        Ok(t.to_owned())
    }
}

/// Checks that a path is absolute and holds no `..` segment.
pub fn check_syntax(path: &str) -> (r: Result<(), FileError>)
    ensures
        syntax_error(path@) matches Some(e) ==> r == Err::<(), FileError>(e),
        syntax_error(path@) is None ==> r is Ok,
{
    let v = chars_of(path);
    if !(v.len() > 0 && v[0] == '/') {
        return Err(FileError::NotAbsolute);
    }
    let ps = split_on_char(&v, '/');
    let dd: Vec<char> = vec!['.', '.'];
    proof {
        reveal_strlit("..");
    }
    assert(dd@ =~= ".."@);
    let mut i: usize = 0;
    while i < ps.len()
        invariant
            i <= ps@.len(),
            dd@ == ".."@,
            views(ps@) == split_on(path@, '/'),
            path@.len() > 0 && path@[0] == '/',
            forall|j: int| 0 <= j < i ==> #[trigger] views(ps@)[j] != ".."@,
        decreases ps@.len() - i,
    {
        assert(views(ps@)[i as int] == ps@[i as int]@);
        if eq_chars(&ps[i], &dd) {
            assert(views(ps@).contains(".."@));
            return Err(FileError::DotDot);
        }
        i = i + 1;
    }
    Ok(())
}

/// Refuses to remove the root directory.
pub fn check_removal(p: &str) -> (r: Result<(), FileError>)
    ensures
        r is Ok <==> !is_root(p@),
        r matches Err(e) ==> e == FileError::RootRemoval,
{
    if is_root_path(&chars_of(p)) {
        Err(FileError::RootRemoval)
    } else {
        Ok(())
    }
}

/// The octal digits of `n`, without leading zeros.
pub open spec fn octal(n: nat) -> Seq<char>
    decreases n,
{
    if n < 8 {
        seq![crate::text::digit_char(n)]
    } else {
        octal(n / 8).push(crate::text::digit_char(n % 8))
    }
}

fn octal_of(n: u32) -> (r: Vec<char>)
    ensures
        r@ == octal(n as nat),
    decreases n,
{
    let d = (n % 8) as u8;
    let c = (48u8 + d) as char;
    if n < 8 {
        let mut v: Vec<char> = Vec::new();
        v.push(c);
        v
    } else {
        let mut v = octal_of(n / 8);
        v.push(c);
        v
    }
}

/// The permission bits of `mode` in octal (`format!("{:o}", mode & 0o7777)`).
pub fn file_mode_text(mode: u32) -> (s: String)
    ensures
        s@ == octal((mode % 4096) as nat),
{
    let m = mode % 4096;
    string_of(&octal_of(m))
}

/// `a` comes before `b` in a listing: directories first, then by name.
pub open spec fn entry_before(a: Entry, b: Entry) -> bool {
    (a.is_dir && !b.is_dir) || (a.is_dir == b.is_dir && seq_lt(a.name@, b.name@))
}

/// Where `x` goes among the ordered `s`: before the first entry it comes
/// before, so that entries that tie keep their order.
pub open spec fn insert_pos(s: Seq<Entry>, x: Entry) -> int
    decreases s.len(),
{
    if s.len() == 0 {
        0
    } else if insert_pos(s.drop_last(), x) < s.len() - 1 {
        insert_pos(s.drop_last(), x)
    } else if entry_before(x, s.last()) {
        s.len() - 1
    } else {
        s.len() as int
    }
}

/// The listing order of `s`: a stable sort by `entry_before`.
pub open spec fn listing_order(s: Seq<Entry>) -> Seq<Entry>
    decreases s.len(),
{
    if s.len() == 0 {
        Seq::empty()
    } else {
        let t = listing_order(s.drop_last());
        t.insert(insert_pos(t, s.last()), s.last())
    }
}

proof fn lemma_insert_pos(s: Seq<Entry>, x: Entry)
    ensures
        0 <= insert_pos(s, x) <= s.len(),
        forall|i: int| 0 <= i < insert_pos(s, x) ==> !entry_before(x, #[trigger] s[i]),
        insert_pos(s, x) < s.len() ==> entry_before(x, s[insert_pos(s, x)]),
    decreases s.len(),
{
    if s.len() > 0 {
        lemma_insert_pos(s.drop_last(), x);
        assert forall|i: int| 0 <= i < s.len() - 1 implies #[trigger] s.drop_last()[i] == s[i] by {}
        assert forall|i: int| 0 <= i < insert_pos(s, x) implies !entry_before(x, #[trigger] s[i]) by {
            if i < s.len() - 1 {
                assert(s.drop_last()[i] == s[i]);
            }
        }
    }
}

fn before(a: &Entry, b: &Entry) -> (r: bool)
    ensures
        r == entry_before(*a, *b),
{
    if a.is_dir && !b.is_dir {
        return true;
    }
    a.is_dir == b.is_dir && chars_lt(&chars_of(a.name.as_str()), &chars_of(b.name.as_str()))
}

/// Orders directory entries: directories first, then by name; entries that
/// tie keep their order.
pub fn sort_entries(entries: Vec<Entry>) -> (r: Vec<Entry>)
    ensures
        r@ == listing_order(entries@),
{
    let ghost orig = entries@;
    let mut rest = entries;
    let mut out: Vec<Entry> = Vec::new();
    let ghost mut k: int = 0;
    assert(orig.take(0) =~= Seq::<Entry>::empty());
    assert(orig.skip(0) =~= orig);
    while rest.len() > 0
        invariant
            0 <= k <= orig.len(),
            rest@ == orig.skip(k),
            out@ == listing_order(orig.take(k)),
        decreases rest@.len(),
    {
        let x = rest.remove(0);
        assert(orig.take(k + 1).drop_last() =~= orig.take(k));
        assert(orig[k] == x);
        assert(orig.take(k + 1).last() == x);
        let ghost t = out@;
        proof {
            lemma_insert_pos(t, x);
        }
        let mut p: usize = 0;
        while p < out.len() && !before(&x, &out[p])
            invariant
                p <= out@.len(),
                out@ == t,
                forall|i: int| 0 <= i < p ==> !entry_before(x, #[trigger] t[i]),
            decreases out@.len() - p,
        {
            p = p + 1;
        }
        proof {
            lemma_insert_pos_unique(t, x, p as int);
        }
        out.insert(p, x);
        proof {
            k = k + 1;
            assert(rest@ =~= orig.skip(k));
        }
    }
    assert(orig.take(orig.len() as int) =~= orig);
    out
}

proof fn lemma_insert_pos_unique(s: Seq<Entry>, x: Entry, p: int)
    requires
        0 <= p <= s.len(),
        forall|i: int| 0 <= i < p ==> !entry_before(x, #[trigger] s[i]),
        p < s.len() ==> entry_before(x, s[p]),
    ensures
        insert_pos(s, x) == p,
    decreases s.len(),
{
    if s.len() > 0 {
        if p < s.len() {
            if p < s.len() - 1 {
                lemma_insert_pos_unique(s.drop_last(), x, p);
            } else {
                lemma_insert_pos_unique(s.drop_last(), x, p);
            }
        } else {
            lemma_insert_pos_unique(s.drop_last(), x, s.len() - 1);
        }
    }
}

proof fn lemma_entry_order(a: Entry, b: Entry, c: Entry)
    ensures
        entry_before(a, b) ==> !entry_before(b, a),
        entry_before(a, b) && entry_before(b, c) ==> entry_before(a, c),
        !entry_before(a, a),
{
    lemma_seq_lt_irreflexive(a.name@);
    if entry_before(a, b) && a.is_dir == b.is_dir {
        lemma_seq_lt_asymmetric(a.name@, b.name@);
    }
    if entry_before(a, b) && entry_before(b, c) && a.is_dir == b.is_dir && b.is_dir == c.is_dir {
        lemma_seq_lt_transitive(a.name@, b.name@, c.name@);
    }
}

/// Entries in listing order: no entry comes before one listed ahead of it.
pub open spec fn in_listing_order(s: Seq<Entry>) -> bool {
    forall|i: int, j: int| 0 <= i < j < s.len() ==> !entry_before(#[trigger] s[j], #[trigger] s[i])
}

/// A listing is in order: directories before files, each group by name.
pub proof fn law_listing_sorted(s: Seq<Entry>)
    ensures
        in_listing_order(listing_order(s)),
    decreases s.len(),
{
    if s.len() > 0 {
        law_listing_sorted(s.drop_last());
        let t = listing_order(s.drop_last());
        let x = s.last();
        let p = insert_pos(t, x);
        lemma_insert_pos(t, x);
        let u = t.insert(p, x);
        assert forall|i: int, j: int| 0 <= i < j < u.len() implies !entry_before(#[trigger] u[j], #[trigger] u[i]) by {
            if j < p {
            } else if j == p {
            } else if i > p {
                assert(u[i] == t[i - 1]);
                assert(u[j] == t[j - 1]);
            } else if i == p {
                assert(u[j] == t[j - 1]);
                lemma_entry_order(t[j - 1], x, t[p]);
                if j - 1 > p {
                    assert(!entry_before(t[j - 1], t[p]));
                }
            } else {
                assert(u[j] == t[j - 1]);
            }
        }
    }
}

/// A listing holds exactly the entries it was given.
pub proof fn law_listing_permutation(s: Seq<Entry>)
    ensures
        listing_order(s).to_multiset() == s.to_multiset(),
    decreases s.len(),
{
    broadcast use vstd::seq_lib::group_to_multiset_ensures;

    if s.len() > 0 {
        law_listing_permutation(s.drop_last());
        let t = listing_order(s.drop_last());
        let x = s.last();
        let p = insert_pos(t, x);
        lemma_insert_pos(t, x);
        let u = t.insert(p, x);
        assert(u.remove(p) =~= t);
        assert(u[p] == x);
        assert(u.remove(p).to_multiset() =~= u.to_multiset().remove(x));
        assert(s.drop_last().push(x) =~= s);
        assert(u.to_multiset().count(x) > 0) by {
            assert(u.contains(x));
        }
        assert(u.to_multiset() =~= t.to_multiset().insert(x));
    }
}

/// A canonical absolute path (what `canonicalize` returns): `/`, or names
/// (neither empty nor `.`) each after a single `/`.
pub open spec fn canonical(p: Seq<char>) -> bool {
    let ps = split_on(p, '/');
    ||| p == seq!['/']
    ||| path_is_abs(p) && forall|i: int| 1 <= i < ps.len() ==> (#[trigger] ps[i]).len() > 0 && ps[i] != seq!['.']
}

/// Whether `p` is canonical.
pub fn is_canonical(p: &str) -> (b: bool)
    ensures
        b == canonical(p@),
{
    let v = chars_of(p);
    if v.len() == 1 && v[0] == '/' {
        assert(v@ =~= seq!['/']);
        return true;
    }
    if !(v.len() > 0 && v[0] == '/') {
        assert(p@ != seq!['/']) by {
            if v@.len() == 1 {
                assert(v@ != seq!['/']) by {
                    assert(v@[0] != '/');
                }
            }
        }
        return false;
    }
    assert(p@ != seq!['/']) by {
        if v@.len() == 1 {
            assert(v@[0] == '/');
        }
    }
    let ps = split_on_char(&v, '/');
    let dot: Vec<char> = vec!['.'];
    assert(dot@ =~= seq!['.']);
    let mut i: usize = 1;
    while i < ps.len()
        invariant
            1 <= i <= ps@.len() || ps@.len() == 0,
            dot@ == seq!['.'],
            p@ != seq!['/'],
            views(ps@) == split_on(p@, '/'),
            forall|j: int| 1 <= j < i && j < ps@.len() ==> (#[trigger] views(ps@)[j]).len() > 0 && views(ps@)[j] != seq!['.'],
        decreases ps@.len() - i,
    {
        assert(views(ps@)[i as int] == ps@[i as int]@);
        if ps[i].len() == 0 || eq_chars(&ps[i], &dot) {
            return false;
        }
        i = i + 1;
    }
    true
}

/// The parent shown for a canonical directory: none for the root, else the
/// path up to its last `/` (the root for a top-level directory).
pub open spec fn parent_spec(p: Seq<char>) -> Option<Seq<char>> {
    if p == seq!['/'] {
        None
    } else if before_last(p, '/').len() == 0 {
        Some(seq!['/'])
    } else {
        Some(before_last(p, '/'))
    }
}

/// The listing of canonical directory `cur` with the entries read from it,
/// put in listing order.
pub fn make_listing(cur: &str, entries: Vec<Entry>) -> (l: DirListing)
    requires
        canonical(cur@),
    ensures
        l.path@ == cur@,
        match parent_spec(cur@) {
            Some(q) => l.parent matches Some(s) && s@ == q,
            None => l.parent is None,
        },
        l.entries@ == listing_order(entries@),
{
    let v = chars_of(cur);
    let parent = if v.len() == 1 && v[0] == '/' {
        assert(v@ =~= seq!['/']);
        None
    } else {
        assert(cur@ != seq!['/']) by {
            if v@.len() == 1 {
                assert(v@[0] != '/');
            }
        }
        let b = before_last_chars(&v, '/');
        if b.len() == 0 {
            let r: Vec<char> = vec!['/'];
            assert(r@ =~= seq!['/']);
            Some(string_of(&r))
        } else {
            Some(string_of(&b))
        }
    };
    DirListing { path: cur.to_owned(), parent, entries: sort_entries(entries) }
}

/// The name a file is downloaded under: its file name, else `download`.
pub open spec fn download_name_spec(p: Seq<char>) -> Seq<char> {
    match file_name(p) {
        Some(n) => n,
        None => "download"@,
    }
}

/// The name a file at `p` is downloaded under.
pub fn download_name(p: &str) -> (s: String)
    ensures
        s@ == download_name_spec(p@),
{
    match file_name_of(&chars_of(p)) {
        Some(n) => string_of(&n),
        None => "download".to_owned(),
    }
}

/// The name an uploaded file is stored under: the last component of the
/// name it was sent with (no directories), refused when that names nothing.
pub open spec fn upload_name_spec(filename: Seq<char>) -> Option<Seq<char>> {
    match file_name(filename) {
        Some(n) => if n.len() > 0 && n != "."@ && n != ".."@ {
            Some(n)
        } else {
            None
        },
        None => None,
    }
}

/// The safe name of an upload (see `upload_name_spec`).
pub fn upload_name(filename: &str) -> (r: Result<String, FileError>)
    ensures
        match upload_name_spec(filename@) {
            Some(n) => r matches Ok(s) && s@ == n,
            None => r == Err::<String, FileError>(FileError::BadUploadName),
        },
{
    proof {
        reveal_strlit(".");
        reveal_strlit("..");
    }
    match file_name_of(&chars_of(filename)) {
        Some(n) => {
            if n.len() > 0 && !eq_chars(&n, &chars_of(".")) && !eq_chars(&n, &chars_of("..")) {
                Ok(string_of(&n))
            } else {
                Err(FileError::BadUploadName)
            }
        },
        None => Err(FileError::BadUploadName),
    }
}

/// Index of the last `.` of `n`, `-1` when there is none.
pub open spec fn last_dot(n: Seq<char>) -> int
    decreases n.len(),
{
    if n.len() == 0 {
        -1
    } else if n.last() == '.' {
        n.len() - 1
    } else {
        last_dot(n.drop_last())
    }
}

/// Stem and extension of a file name (`Path::file_stem`,
/// `Path::extension`): split at the last `.`, unless there is none or it is
/// the leading dot of a hidden file.
pub open spec fn split_ext(n: Seq<char>) -> (Seq<char>, Option<Seq<char>>) {
    let k = last_dot(n);
    if k <= 0 {
        (n, None)
    } else {
        (n.take(k), Some(n.skip(k + 1)))
    }
}

proof fn lemma_last_dot(n: Seq<char>)
    ensures
        -1 <= last_dot(n) < n.len(),
        last_dot(n) >= 0 ==> n[last_dot(n)] == '.',
        forall|j: int| last_dot(n) < j < n.len() ==> n[j] != '.',
    decreases n.len(),
{
    if n.len() > 0 && n.last() != '.' {
        lemma_last_dot(n.drop_last());
        assert forall|j: int| last_dot(n) < j < n.len() implies n[j] != '.' by {
            if j < n.len() - 1 {
                assert(n.drop_last()[j] == n[j]);
            }
        }
    }
}

/// The name tried for the `i`-th renaming of an upload whose name is taken:
/// `stem(i).ext`.
pub open spec fn candidate_name(n: Seq<char>, i: nat) -> Seq<char> {
    let (stem, ext) = split_ext(n);
    stem + seq!['('] + decimal(i) + seq![')'] + match ext {
        Some(e) => seq!['.'] + e,
        None => Seq::empty(),
    }
}

/// `dir/name` (`Path::join` with a relative name: a separator is added
/// unless `dir` is empty or already ends with one).
pub open spec fn join_spec(dir: Seq<char>, name: Seq<char>) -> Seq<char> {
    if dir.len() == 0 || dir.last() == '/' {
        dir + name
    } else {
        dir + seq!['/'] + name
    }
}

/// The path of file `name` in directory `dir`.
pub fn join_path(dir: &str, name: &str) -> (s: String)
    ensures
        s@ == join_spec(dir@, name@),
{
    let mut v = chars_of(dir);
    if v.len() > 0 && v[v.len() - 1] != '/' {
        v.push('/');
    }
    push_str(&mut v, name);
    string_of(&v)
}

/// The last number an upload tries after its own name.
pub const MAX_UPLOAD_SUFFIX: u32 = 999;

/// What follows a look at the upload target of step `i`.
#[derive(Clone, Copy, PartialEq, Eq, Debug, Structural)]
pub enum UploadStep {
    /// The target of this step is free: write there.
    Use(u32),
    /// It is taken: look at the target of this next step.
    Try(u32),
    /// Every target is taken: the upload is refused.
    Refuse,
}

/// The step after looking at the target of step `i` (0 for the name itself,
/// then `stem(i).ext`): a free target is used, a taken one leads to the next
/// number, and past `MAX_UPLOAD_SUFFIX` the upload is refused, so that an
/// upload never replaces a file.
pub fn upload_step(i: u32, taken: bool) -> (r: UploadStep)
    ensures
        !taken ==> r == UploadStep::Use(i),
        taken && i < MAX_UPLOAD_SUFFIX ==> r == UploadStep::Try((i + 1) as u32),
        taken && i >= MAX_UPLOAD_SUFFIX ==> r == UploadStep::Refuse,
{
    if !taken {
        UploadStep::Use(i)
    } else if i < MAX_UPLOAD_SUFFIX {
        UploadStep::Try(i + 1)
    } else {
        UploadStep::Refuse
    }
}

/// Where the steps lead from step `i`, given which targets are taken: the
/// step whose target is used, or none when the upload is refused.
pub open spec fn upload_run(taken: spec_fn(int) -> bool, i: int) -> Option<int>
    decreases MAX_UPLOAD_SUFFIX + 1 - i,
{
    if i < 0 || i > MAX_UPLOAD_SUFFIX {
        None
    } else if !taken(i) {
        Some(i)
    } else {
        upload_run(taken, i + 1)
    }
}

/// Following `upload_step` from the name itself ends at the first free
/// target, never at a taken one, and refuses the upload exactly when the
/// name and all numbered names up to `MAX_UPLOAD_SUFFIX` are taken.
pub proof fn law_upload_first_free(taken: spec_fn(int) -> bool)
    ensures
        upload_run(taken, 0) matches Some(j) ==> 0 <= j <= MAX_UPLOAD_SUFFIX && !taken(j) && forall|
            k: int,
        | 0 <= k < j ==> #[trigger] taken(k),
        upload_run(taken, 0) is None <==> forall|k: int| 0 <= k <= MAX_UPLOAD_SUFFIX ==> #[trigger] taken(k),
{
    lemma_upload_run(taken, 0);
}

proof fn lemma_upload_run(taken: spec_fn(int) -> bool, i: int)
    requires
        0 <= i <= MAX_UPLOAD_SUFFIX + 1,
    ensures
        upload_run(taken, i) matches Some(j) ==> i <= j <= MAX_UPLOAD_SUFFIX && !taken(j) && forall|k: int|
            i <= k < j ==> #[trigger] taken(k),
        upload_run(taken, i) is None <==> forall|k: int| i <= k <= MAX_UPLOAD_SUFFIX ==> #[trigger] taken(k),
    decreases MAX_UPLOAD_SUFFIX + 1 - i,
{
    if i <= MAX_UPLOAD_SUFFIX && taken(i) {
        lemma_upload_run(taken, i + 1);
        if upload_run(taken, i + 1) is None {
            assert forall|k: int| i <= k <= MAX_UPLOAD_SUFFIX implies #[trigger] taken(k) by {
                if k > i {
                    assert(taken(k));
                }
            }
        } else {
            assert(!taken(upload_run(taken, i + 1).unwrap()));
        }
    }
}

/// The upload target tried at step `i` in directory `dir`: the name itself
/// first, then `stem(i).ext` for `i` from 1 while the name is taken.
pub fn upload_target(dir: &str, name: &str, i: u32) -> (s: String)
    ensures
        i == 0 ==> s@ == join_spec(dir@, name@),
        i > 0 ==> s@ == join_spec(dir@, candidate_name(name@, i as nat)),
{
    if i == 0 {
        return join_path(dir, name);
    }
    let n = chars_of(name);
    proof {
        lemma_last_dot(n@);
    }
    let mut k: usize = n.len();
    while k > 0 && n[k - 1] != '.'
        invariant
            k <= n@.len(),
            forall|j: int| k <= j < n@.len() ==> n@[j] != '.',
        decreases k,
    {
        k = k - 1;
    }
    proof {
        lemma_last_dot_at(n@, k as int - 1);
    }
    let mut c: Vec<char> = Vec::new();
    if k <= 1 {
        push_chars(&mut c, &n);
    } else {
        push_chars(&mut c, &slice_chars(&n, 0, k - 1));
    }
    c.push('(');
    push_chars(&mut c, &decimal_of(i as u64));
    c.push(')');
    if k > 1 {
        c.push('.');
        push_chars(&mut c, &slice_chars(&n, k, n.len()));
    }
    assert(c@ =~= candidate_name(name@, i as nat));
    let cs = string_of(&c);
    join_path(dir, cs.as_str())
}

proof fn lemma_last_dot_at(n: Seq<char>, k: int)
    requires
        -1 <= k < n.len(),
        k >= 0 ==> n[k] == '.',
        forall|j: int| k < j < n.len() ==> n[j] != '.',
    ensures
        last_dot(n) == k,
    decreases n.len(),
{
    if n.len() > 0 && k < n.len() - 1 {
        lemma_last_dot_at(n.drop_last(), k);
    }
}

/// Whether `bytes` is valid UTF-8 (`std::str::from_utf8(bytes).is_ok()`).
#[verifier::external_body]
fn utf8_ok(bytes: &[u8]) -> (b: bool)
    ensures
        b == valid_utf8(bytes@),
{
    std::str::from_utf8(bytes).is_ok()
}

/// The text of valid UTF-8 bytes (`String::from_utf8`).
#[verifier::external_body]
fn utf8_string(bytes: Vec<u8>) -> (r: Option<String>)
    ensures
        r is Some <==> valid_utf8(bytes@),
        r matches Some(s) ==> s@ == decode_utf8(bytes@),
{
    String::from_utf8(bytes).ok()
}

/// Bytes that are not text: they hold a NUL byte or are not valid UTF-8.
/// Such a file read as text and written back would be damaged.
pub open spec fn binary_spec(bytes: Seq<u8>) -> bool {
    bytes.contains(0u8) || !valid_utf8(bytes)
}

/// Whether `bytes` is binary (see `binary_spec`).
pub fn is_binary(bytes: &[u8]) -> (b: bool)
    ensures
        b == binary_spec(bytes@),
{
    let mut i: usize = 0;
    while i < bytes.len()
        invariant
            i <= bytes@.len(),
            forall|j: int| 0 <= j < i ==> bytes@[j] != 0u8,
        decreases bytes@.len() - i,
    {
        if bytes[i] == 0u8 {
            assert(bytes@.contains(0u8));
            return true;
        }
        i = i + 1;
    }
    !utf8_ok(bytes)
}

/// Checks a file before it is opened for editing: a regular file of at
/// most `MAX_READ_SIZE` bytes.
pub fn check_read(is_file: bool, len: u64) -> (r: Result<(), FileError>)
    ensures
        !is_file ==> r == Err::<(), FileError>(FileError::NotAFile),
        is_file && len > MAX_READ_SIZE ==> r == Err::<(), FileError>(FileError::TooLarge),
        is_file && len <= MAX_READ_SIZE ==> r is Ok,
{
    if !is_file {
        Err(FileError::NotAFile)
    } else if len > MAX_READ_SIZE {
        Err(FileError::TooLarge)
    } else {
        Ok(())
    }
}

/// Checks a file before download: a regular file of at most
/// `MAX_DOWNLOAD_SIZE` bytes.
pub fn check_download(is_file: bool, len: u64) -> (r: Result<(), FileError>)
    ensures
        !is_file ==> r == Err::<(), FileError>(FileError::NotAFile),
        is_file && len > MAX_DOWNLOAD_SIZE ==> r == Err::<(), FileError>(FileError::TooLarge),
        is_file && len <= MAX_DOWNLOAD_SIZE ==> r is Ok,
{
    if !is_file {
        Err(FileError::NotAFile)
    } else if len > MAX_DOWNLOAD_SIZE {
        Err(FileError::TooLarge)
    } else {
        Ok(())
    }
}

/// The text of a file opened for editing, refused when it is binary.
pub fn decode_text(bytes: Vec<u8>) -> (r: Result<String, FileError>)
    ensures
        binary_spec(bytes@) ==> r == Err::<String, FileError>(FileError::Binary),
        !binary_spec(bytes@) ==> (r matches Ok(s) && s@ == decode_utf8(bytes@)),
{
    if is_binary(&bytes) {
        return Err(FileError::Binary);
    }
    match utf8_string(bytes) {
        Some(s) => Ok(s),
        None => Err(FileError::Binary),
    }
}

/// Checks the target of a write: an existing target must be a regular
/// file whose head (the first `PROBE_SIZE` bytes, empty when unreadable) is
/// not binary, since overwriting a binary file would damage it.
pub fn check_write_target(present: bool, is_file: bool, head: &[u8]) -> (r: Result<(), FileError>)
    ensures
        present && !is_file ==> r == Err::<(), FileError>(FileError::NotAFile),
        present && is_file && binary_spec(head@) ==> r == Err::<(), FileError>(FileError::Binary),
        !present || (is_file && !binary_spec(head@)) ==> r is Ok,
{
    if present && !is_file {
        return Err(FileError::NotAFile);
    }
    if present && is_binary(head) {
        return Err(FileError::Binary);
    }
    Ok(())
}

/// Checks the target of a rename: it must not exist.
pub fn check_rename_target(present: bool) -> (r: Result<(), FileError>)
    ensures
        r is Ok <==> !present,
        r matches Err(e) ==> e == FileError::Exists,
{
    if present {
        Err(FileError::Exists)
    } else {
        Ok(())
    }
}

} // verus!
