//! Character-level text primitives shared by the parsers: whitespace, trimming,
//! splitting into pieces, lines and words, each with the spec it computes.
use vstd::prelude::*;

verus! {

/// Unicode `White_Space`: the characters that `char::is_whitespace` accepts.
pub open spec fn is_ws(c: char) -> bool {
    let u = c as u32;
    ||| 0x09 <= u <= 0x0D
    ||| u == 0x20
    ||| u == 0x85
    ||| u == 0xA0
    ||| u == 0x1680
    ||| 0x2000 <= u <= 0x200A
    ||| u == 0x2028
    ||| u == 0x2029
    ||| u == 0x202F
    ||| u == 0x205F
    ||| u == 0x3000
}

pub fn is_whitespace(c: char) -> (b: bool)
    ensures
        b == is_ws(c),
{
    let u = c as u32;
    (0x09 <= u && u <= 0x0D) || u == 0x20 || u == 0x85 || u == 0xA0 || u == 0x1680
        || (0x2000 <= u && u <= 0x200A) || u == 0x2028 || u == 0x2029 || u == 0x202F
        || u == 0x205F || u == 0x3000
}

/// `s` with leading whitespace removed.
pub open spec fn trim_start(s: Seq<char>) -> Seq<char>
    decreases s.len(),
{
    if s.len() > 0 && is_ws(s[0]) {
        trim_start(s.drop_first())
    } else {
        s
    }
}

/// `s` with trailing whitespace removed.
pub open spec fn trim_end(s: Seq<char>) -> Seq<char>
    decreases s.len(),
{
    if s.len() > 0 && is_ws(s.last()) {
        trim_end(s.drop_last())
    } else {
        s
    }
}

/// `s` with whitespace removed at both ends (`str::trim`).
pub open spec fn trim(s: Seq<char>) -> Seq<char> {
    trim_end(trim_start(s))
}

/// Neither end of `s` is whitespace.
pub open spec fn is_trimmed(s: Seq<char>) -> bool {
    s.len() > 0 ==> !is_ws(s[0]) && !is_ws(s.last())
}

pub proof fn lemma_trim_start_skip(s: Seq<char>, i: int)
    requires
        0 <= i <= s.len(),
        forall|j: int| 0 <= j < i ==> is_ws(#[trigger] s[j]),
    ensures
        trim_start(s) == trim_start(s.skip(i)),
    decreases i,
{
    if i > 0 {
        assert(s.skip(1) =~= s.drop_first());
        lemma_trim_start_skip(s.drop_first(), i - 1);
        assert(s.drop_first().skip(i - 1) =~= s.skip(i));
    } else {
        assert(s.skip(0) =~= s);
    }
}

pub proof fn lemma_trim_end_take(s: Seq<char>, k: int)
    requires
        0 <= k <= s.len(),
        forall|j: int| k <= j < s.len() ==> is_ws(#[trigger] s[j]),
    ensures
        trim_end(s) == trim_end(s.take(k)),
    decreases s.len() - k,
{
    if k < s.len() {
        assert(s.take(s.len() - 1) =~= s.drop_last());
        lemma_trim_end_take(s.drop_last(), k);
        assert(s.drop_last().take(k) =~= s.take(k));
    } else {
        assert(s.take(k) =~= s);
    }
}

pub proof fn lemma_trim_start_fixed(s: Seq<char>)
    requires
        s.len() == 0 || !is_ws(s[0]),
    ensures
        trim_start(s) == s,
{
}

pub proof fn lemma_trim_end_fixed(s: Seq<char>)
    requires
        s.len() == 0 || !is_ws(s.last()),
    ensures
        trim_end(s) == s,
{
}

/// Bounds `(a, b)` of the trimmed part of `v`: `v[a..b]` is `trim(v)`.
pub fn trim_bounds(v: &[char]) -> (r: (usize, usize))
    ensures
        r.0 <= r.1 <= v@.len(),
        v@.subrange(r.0 as int, r.1 as int) == trim(v@),
        trim_start(v@) == v@.skip(r.0 as int),
{
    let n = v.len();
    let mut a: usize = 0;
    while a < n && is_whitespace(v[a])
        invariant
            a <= n,
            n == v@.len(),
            forall|j: int| 0 <= j < a ==> is_ws(#[trigger] v@[j]),
        decreases n - a,
    {
        a = a + 1;
    }
    proof {
        lemma_trim_start_skip(v@, a as int);
        lemma_trim_start_fixed(v@.skip(a as int));
    }
    let mut b: usize = n;
    while b > a && is_whitespace(v[b - 1])
        invariant
            a <= b <= n,
            n == v@.len(),
            forall|j: int| b <= j < n ==> is_ws(#[trigger] v@[j]),
        decreases b - a,
    {
        b = b - 1;
    }
    proof {
        let t = v@.skip(a as int);
        assert forall|j: int| (b - a) <= j < t.len() implies is_ws(#[trigger] t[j]) by {
            assert(t[j] == v@[j + a]);
        }
        lemma_trim_end_take(t, (b - a) as int);
        assert(t.take((b - a) as int) =~= v@.subrange(a as int, b as int));
        lemma_trim_end_fixed(v@.subrange(a as int, b as int));
    }
    (a, b)
}

/// `v[a..b]` as a new vector.
pub fn slice_chars(v: &[char], a: usize, b: usize) -> (r: Vec<char>)
    requires
        a <= b <= v@.len(),
    ensures
        r@ == v@.subrange(a as int, b as int),
{
    let mut r: Vec<char> = Vec::new();
    let mut i = a;
    while i < b
        invariant
            a <= i <= b,
            b <= v@.len(),
            r@ == v@.subrange(a as int, i as int),
        decreases b - i,
    {
        r.push(v[i]);
        i = i + 1;
        assert(r@ =~= v@.subrange(a as int, i as int));
    }
    r
}

/// `trim(v)` as a new vector.
pub fn trim_chars(v: &[char]) -> (r: Vec<char>)
    ensures
        r@ == trim(v@),
{
    let (a, b) = trim_bounds(v);
    slice_chars(v, a, b)
}

/// Appends one character to a string (`String::push`).
#[verifier::external_body]
fn push_char(s: &mut String, c: char)
    ensures
        final(s)@ == old(s)@.push(c),
{
    s.push(c);
}

/// The string whose characters are `v`.
pub fn string_of(v: &[char]) -> (s: String)
    ensures
        s@ == v@,
{
    let mut s = String::new();
    let mut i: usize = 0;
    while i < v.len()
        invariant
            i <= v@.len(),
            s@ == v@.take(i as int),
        decreases v@.len() - i,
    {
        push_char(&mut s, v[i]);
        i = i + 1;
        assert(s@ =~= v@.take(i as int));
    }
    assert(v@.take(v@.len() as int) =~= v@);
    s
}

/// The characters of a string slice, in order.
pub fn chars_of(s: &str) -> (v: Vec<char>)
    ensures
        v@ == s@,
{
    let mut v: Vec<char> = Vec::new();
    for c in it: s.chars()
        invariant
            v@ == it.seq().take(it.index() as int),
            it.seq() == s@,
    {
        v.push(c);
    }
    v
}


/// The character sequences held by a sequence of strings.
pub open spec fn string_views(ss: Seq<String>) -> Seq<Seq<char>> {
    ss.map_values(|s: String| s@)
}

/// The character sequences held by a vector of character vectors.
pub open spec fn views(v: Seq<Vec<char>>) -> Seq<Seq<char>> {
    v.map_values(|x: Vec<char>| x@)
}

/// The pieces of `s` between occurrences of `sep` (`str::split` with a char):
/// always at least one piece.
pub open spec fn split_on(s: Seq<char>, sep: char) -> Seq<Seq<char>>
    decreases s.len(),
{
    if s.len() == 0 {
        seq![Seq::<char>::empty()]
    } else {
        let p = split_on(s.drop_last(), sep);
        if s.last() == sep {
            p.push(Seq::<char>::empty())
        } else {
            p.update(p.len() - 1, p.last().push(s.last()))
        }
    }
}

pub proof fn lemma_split_on_nonempty(s: Seq<char>, sep: char)
    ensures
        split_on(s, sep).len() >= 1,
    decreases s.len(),
{
    if s.len() > 0 {
        lemma_split_on_nonempty(s.drop_last(), sep);
    }
}

/// `l` without one trailing carriage return.
pub open spec fn strip_cr(l: Seq<char>) -> Seq<char> {
    if l.len() > 0 && l.last() == '\r' {
        l.drop_last()
    } else {
        l
    }
}

/// The lines of `s` (`str::lines`): split at `\n`, a `\r` right before a `\n`
/// dropped, and no final empty line after a trailing `\n`.
pub open spec fn lines(s: Seq<char>) -> Seq<Seq<char>> {
    let p = split_on(s, '\n');
    let body = Seq::new((p.len() - 1) as nat, |i: int| strip_cr(p[i]));
    if p.last().len() == 0 {
        body
    } else {
        body.push(p.last())
    }
}

/// The words of `s` (`str::split_whitespace`): maximal runs of non-whitespace.
pub open spec fn words(s: Seq<char>) -> Seq<Seq<char>>
    decreases s.len(),
{
    if s.len() == 0 {
        Seq::empty()
    } else if is_ws(s.last()) {
        words(s.drop_last())
    } else if s.len() >= 2 && !is_ws(s[s.len() - 2]) {
        let w = words(s.drop_last());
        w.update(w.len() - 1, w.last().push(s.last()))
    } else {
        words(s.drop_last()).push(seq![s.last()])
    }
}

pub proof fn lemma_words_nonempty(s: Seq<char>)
    requires
        s.len() > 0,
        !is_ws(s.last()),
    ensures
        words(s).len() > 0,
    decreases s.len(),
{
    if s.len() >= 2 && !is_ws(s[s.len() - 2]) {
        lemma_words_nonempty(s.drop_last());
    }
}

/// `str::split` of `v` at `sep`.
pub fn split_on_char(v: &[char], sep: char) -> (r: Vec<Vec<char>>)
    ensures
        views(r@) == split_on(v@, sep),
{
    let mut done: Vec<Vec<char>> = Vec::new();
    let mut cur: Vec<char> = Vec::new();
    let mut i: usize = 0;
    assert(v@.take(0) =~= Seq::<char>::empty());
    while i < v.len()
        invariant
            i <= v@.len(),
            views(done@).push(cur@) == split_on(v@.take(i as int), sep),
        decreases v@.len() - i,
    {
        let ghost pre = v@.take(i as int);
        assert(v@.take(i + 1).drop_last() =~= pre);
        proof {
            lemma_split_on_nonempty(pre, sep);
        }
        if v[i] == sep {
            let old_cur = cur;
            cur = Vec::new();
            done.push(old_cur);
            assert(views(done@).push(cur@) =~= split_on(v@.take(i + 1), sep));
        } else {
            cur.push(v[i]);
            assert(views(done@).push(cur@) =~= split_on(v@.take(i + 1), sep));
        }
        i = i + 1;
    }
    assert(v@.take(v@.len() as int) =~= v@);
    done.push(cur);
    done
}

/// `str::lines` of `v`.
pub fn lines_of(v: &[char]) -> (r: Vec<Vec<char>>)
    ensures
        views(r@) == lines(v@),
{
    let p = split_on_char(v, '\n');
    proof {
        lemma_split_on_nonempty(v@, '\n');
    }
    let ghost pv = views(p@);
    let n = p.len();
    let mut r: Vec<Vec<char>> = Vec::new();
    let mut i: usize = 0;
    while i + 1 < n
        invariant
            n == pv.len(),
            n >= 1,
            pv == views(p@),
            i + 1 <= n,
            views(r@) == Seq::new(i as nat, |j: int| strip_cr(pv[j])),
        decreases n - i,
    {
        let piece = &p[i];
        let mut line: Vec<char> = piece.clone();
        assert(line@ == pv[i as int]);
        if line.len() > 0 && line[line.len() - 1] == '\r' {
            line.pop();
        }
        assert(line@ == strip_cr(pv[i as int]));
        let ghost old_r = views(r@);
        r.push(line);
        assert(views(r@) =~= old_r.push(strip_cr(pv[i as int])));
        i = i + 1;
        assert(views(r@) =~= Seq::new(i as nat, |j: int| strip_cr(pv[j])));
    }
    let last = &p[n - 1];
    if last.len() > 0 {
        r.push(last.clone());
    }
    r
}

/// `str::split_whitespace` of `v`.
pub fn words_of(v: &[char]) -> (r: Vec<Vec<char>>)
    ensures
        views(r@) == words(v@),
{
    let mut done: Vec<Vec<char>> = Vec::new();
    let mut cur: Vec<char> = Vec::new();
    let mut in_word = false;
    let mut i: usize = 0;
    assert(v@.take(0) =~= Seq::<char>::empty());
    while i < v.len()
        invariant
            i <= v@.len(),
            in_word == (i > 0 && !is_ws(v@[i - 1])),
            in_word ==> cur@.len() > 0 && views(done@).push(cur@) == words(v@.take(i as int)),
            !in_word ==> views(done@) == words(v@.take(i as int)),
        decreases v@.len() - i,
    {
        let ghost pre = v@.take(i as int);
        let ghost nxt = v@.take(i + 1);
        assert(nxt.drop_last() =~= pre);
        assert(nxt.last() == v@[i as int]);
        let c = v[i];
        if is_whitespace(c) {
            if in_word {
                let w = cur;
                cur = Vec::new();
                done.push(w);
            }
            in_word = false;
            assert(views(done@) =~= words(nxt));
        } else {
            if in_word {
                assert(nxt[nxt.len() - 2] == v@[i - 1]);
                cur.push(c);
                assert(views(done@).push(cur@) =~= words(nxt));
            } else {
                if i > 0 {
                    assert(nxt[nxt.len() - 2] == v@[i - 1]);
                }
                cur = Vec::new();
                cur.push(c);
                assert(views(done@).push(cur@) =~= words(nxt));
            }
            in_word = true;
        }
        i = i + 1;
    }
    assert(v@.take(v@.len() as int) =~= v@);
    if in_word {
        done.push(cur);
    }
    done
}


/// `p` is a prefix of `s`.
pub open spec fn starts_with(s: Seq<char>, p: Seq<char>) -> bool {
    p.len() <= s.len() && s.take(p.len() as int) == p
}

/// `p` is a suffix of `s`.
pub open spec fn ends_with(s: Seq<char>, p: Seq<char>) -> bool {
    p.len() <= s.len() && s.skip(s.len() - p.len()) == p
}

/// Character-wise equality of two slices.
pub fn eq_chars(a: &[char], b: &[char]) -> (r: bool)
    ensures
        r == (a@ == b@),
{
    if a.len() != b.len() {
        return false;
    }
    let mut i: usize = 0;
    while i < a.len()
        invariant
            i <= a@.len(),
            a@.len() == b@.len(),
            forall|j: int| 0 <= j < i ==> a@[j] == b@[j],
        decreases a@.len() - i,
    {
        if a[i] != b[i] {
            return false;
        }
        i = i + 1;
    }
    assert(a@ =~= b@);
    true
}

/// Whether `s` starts with `p`.
pub fn has_prefix(s: &[char], p: &[char]) -> (r: bool)
    ensures
        r == starts_with(s@, p@),
{
    if p.len() > s.len() {
        return false;
    }
    let mut i: usize = 0;
    while i < p.len()
        invariant
            i <= p@.len(),
            p@.len() <= s@.len(),
            forall|j: int| 0 <= j < i ==> s@[j] == p@[j],
        decreases p@.len() - i,
    {
        if s[i] != p[i] {
            assert(s@.take(p@.len() as int)[i as int] != p@[i as int]);
            return false;
        }
        i = i + 1;
    }
    assert(s@.take(p@.len() as int) =~= p@);
    true
}

/// Whether `s` ends with `p`.
pub fn has_suffix(s: &[char], p: &[char]) -> (r: bool)
    ensures
        r == ends_with(s@, p@),
{
    if p.len() > s.len() {
        return false;
    }
    let off = s.len() - p.len();
    let mut i: usize = 0;
    while i < p.len()
        invariant
            i <= p@.len(),
            off + p@.len() == s@.len(),
            s@.len() == s.len(),
            forall|j: int| 0 <= j < i ==> s@[off + j] == p@[j],
        decreases p@.len() - i,
    {
        if s[off + i] != p[i] {
            assert(s@.skip(off as int)[i as int] != p@[i as int]);
            return false;
        }
        i = i + 1;
    }
    assert(s@.skip(off as int) =~= p@);
    true
}

/// Whether `c` occurs in `s`.
pub fn has_char(s: &[char], c: char) -> (r: bool)
    ensures
        r == s@.contains(c),
{
    let mut i: usize = 0;
    while i < s.len()
        invariant
            i <= s@.len(),
            forall|j: int| 0 <= j < i ==> s@[j] != c,
        decreases s@.len() - i,
    {
        if s[i] == c {
            assert(s@[i as int] == c);
            return true;
        }
        i = i + 1;
    }
    false
}

/// `s` with leading occurrences of `c` removed.
pub open spec fn trim_start_char(s: Seq<char>, c: char) -> Seq<char>
    decreases s.len(),
{
    if s.len() > 0 && s[0] == c {
        trim_start_char(s.drop_first(), c)
    } else {
        s
    }
}

/// `s` with trailing occurrences of `c` removed.
pub open spec fn trim_end_char(s: Seq<char>, c: char) -> Seq<char>
    decreases s.len(),
{
    if s.len() > 0 && s.last() == c {
        trim_end_char(s.drop_last(), c)
    } else {
        s
    }
}

/// `str::trim_matches` with one character.
pub open spec fn trim_char(s: Seq<char>, c: char) -> Seq<char> {
    trim_end_char(trim_start_char(s, c), c)
}

proof fn lemma_trim_start_char_skip(s: Seq<char>, c: char, i: int)
    requires
        0 <= i <= s.len(),
        forall|j: int| 0 <= j < i ==> #[trigger] s[j] == c,
    ensures
        trim_start_char(s, c) == trim_start_char(s.skip(i), c),
    decreases i,
{
    if i > 0 {
        lemma_trim_start_char_skip(s.drop_first(), c, i - 1);
        assert(s.drop_first().skip(i - 1) =~= s.skip(i));
    } else {
        assert(s.skip(0) =~= s);
    }
}

proof fn lemma_trim_end_char_take(s: Seq<char>, c: char, k: int)
    requires
        0 <= k <= s.len(),
        forall|j: int| k <= j < s.len() ==> #[trigger] s[j] == c,
    ensures
        trim_end_char(s, c) == trim_end_char(s.take(k), c),
    decreases s.len() - k,
{
    if k < s.len() {
        lemma_trim_end_char_take(s.drop_last(), c, k);
        assert(s.drop_last().take(k) =~= s.take(k));
    } else {
        assert(s.take(k) =~= s);
    }
}

/// `trim_char(v, c)` as a new vector.
pub fn trim_char_chars(v: &[char], c: char) -> (r: Vec<char>)
    ensures
        r@ == trim_char(v@, c),
{
    let n = v.len();
    let mut a: usize = 0;
    while a < n && v[a] == c
        invariant
            a <= n,
            n == v@.len(),
            forall|j: int| 0 <= j < a ==> #[trigger] v@[j] == c,
        decreases n - a,
    {
        a = a + 1;
    }
    proof {
        lemma_trim_start_char_skip(v@, c, a as int);
    }
    let mut b: usize = n;
    while b > a && v[b - 1] == c
        invariant
            a <= b <= n,
            n == v@.len(),
            forall|j: int| b <= j < n ==> #[trigger] v@[j] == c,
        decreases b - a,
    {
        b = b - 1;
    }
    proof {
        let t = v@.skip(a as int);
        assert forall|j: int| (b - a) <= j < t.len() implies #[trigger] t[j] == c by {
            assert(t[j] == v@[j + a]);
        }
        lemma_trim_end_char_take(t, c, (b - a) as int);
        assert(t.take((b - a) as int) =~= v@.subrange(a as int, b as int));
    }
    slice_chars(v, a, b)
}


/// `s` without the run of non-whitespace characters it starts with.
pub open spec fn skip_word(s: Seq<char>) -> Seq<char>
    decreases s.len(),
{
    if s.len() > 0 && !is_ws(s[0]) {
        skip_word(s.drop_first())
    } else {
        s
    }
}

/// What follows the first `n` words of `s`, words being runs of
/// non-whitespace separated by runs of whitespace; empty when `s` has
/// fewer words.
pub open spec fn after_words(s: Seq<char>, n: nat) -> Seq<char>
    decreases n, s.len(),
{
    if n == 0 {
        s
    } else if s.len() == 0 {
        s
    } else if is_ws(s[0]) {
        after_words(s.drop_first(), n)
    } else {
        after_words(skip_word(s), (n - 1) as nat)
    }
}

pub proof fn lemma_skip_word_suffix(s: Seq<char>)
    ensures
        skip_word(s).len() <= s.len(),
        skip_word(s) == s.skip(s.len() - skip_word(s).len()),
    decreases s.len(),
{
    if s.len() > 0 && !is_ws(s[0]) {
        lemma_skip_word_suffix(s.drop_first());
        assert(s.drop_first().skip(s.drop_first().len() - skip_word(s).len()) =~= s.skip(s.len() - skip_word(s).len()));
    } else {
        assert(s.skip(0) =~= s);
    }
}

/// What follows the first `n` words is a suffix.
pub proof fn lemma_after_words_suffix(s: Seq<char>, n: nat)
    ensures
        after_words(s, n).len() <= s.len(),
        after_words(s, n) == s.skip(s.len() - after_words(s, n).len()),
    decreases n, s.len(),
{
    if n == 0 || s.len() == 0 {
        assert(s.skip(0) =~= s);
    } else if is_ws(s[0]) {
        lemma_after_words_suffix(s.drop_first(), n);
        let r = after_words(s, n);
        assert(s.drop_first().skip(s.drop_first().len() - r.len()) =~= s.skip(s.len() - r.len()));
    } else {
        lemma_skip_word_suffix(s);
        let w = skip_word(s);
        lemma_after_words_suffix(w, (n - 1) as nat);
        let r = after_words(s, n);
        assert(w.skip(w.len() - r.len()) =~= s.skip(s.len() - r.len()));
    }
}

/// A word followed by whitespace (or by nothing) is skipped up to that
/// whitespace.
pub proof fn lemma_skip_word_prefix(f: Seq<char>, rest: Seq<char>)
    requires
        forall|i: int| 0 <= i < f.len() ==> !is_ws(#[trigger] f[i]),
        rest.len() == 0 || is_ws(rest[0]),
    ensures
        skip_word(f + rest) == rest,
    decreases f.len(),
{
    if f.len() > 0 {
        assert((f + rest).drop_first() =~= f.drop_first() + rest);
        lemma_skip_word_prefix(f.drop_first(), rest);
    } else {
        assert(f + rest =~= rest);
    }
}

/// Past a leading word followed by whitespace (or by nothing), one word
/// fewer is left to skip.
pub proof fn lemma_after_words_field(f: Seq<char>, rest: Seq<char>, n: nat)
    requires
        f.len() > 0,
        forall|i: int| 0 <= i < f.len() ==> !is_ws(#[trigger] f[i]),
        rest.len() == 0 || is_ws(rest[0]),
    ensures
        after_words(f + rest, n + 1) == after_words(rest, n),
{
    lemma_skip_word_prefix(f, rest);
    assert((f + rest)[0] == f[0]);
}

/// Leading whitespace is skipped while words remain to be skipped.
pub proof fn lemma_after_words_space(x: Seq<char>, n: nat)
    requires
        n > 0,
    ensures
        after_words(seq![' '] + x, n) == after_words(x, n),
{
    assert((seq![' '] + x).drop_first() =~= x);
}

/// Index in `v` where `after_words(v, n)` starts.
pub fn after_words_index(v: &[char], n: usize) -> (i: usize)
    ensures
        i <= v@.len(),
        after_words(v@, n as nat) == v@.skip(i as int),
{
    let mut i: usize = 0;
    let mut k: usize = n;
    assert(v@.skip(0) =~= v@);
    while k > 0 && i < v.len()
        invariant
            i <= v@.len(),
            k <= n,
            after_words(v@, n as nat) == after_words(v@.skip(i as int), k as nat),
        decreases k, v@.len() - i,
    {
        assert(v@.skip(i as int).drop_first() =~= v@.skip(i + 1));
        if is_whitespace(v[i]) {
            i = i + 1;
        } else {
            let ghost start = i;
            while i < v.len() && !is_whitespace(v[i])
                invariant
                    start <= i <= v@.len(),
                    skip_word(v@.skip(start as int)) == skip_word(v@.skip(i as int)),
                decreases v@.len() - i,
            {
                assert(v@.skip(i as int).drop_first() =~= v@.skip(i + 1));
                i = i + 1;
            }
            if i < v.len() {
                assert(skip_word(v@.skip(i as int)) == v@.skip(i as int));
            } else {
                assert(v@.skip(i as int) =~= Seq::<char>::empty());
            }
            k = k - 1;
        }
    }
    if k == 0 {
    } else {
        assert(v@.skip(i as int) =~= Seq::<char>::empty());
    }
    i
}

/// `trim_start(v)` as a new vector.
pub fn trim_start_chars(v: &[char]) -> (r: Vec<char>)
    ensures
        r@ == trim_start(v@),
{
    let (a, _b) = trim_bounds(v);
    let r = slice_chars(v, a, v.len());
    assert(r@ =~= v@.skip(a as int));
    r
}


/// Appends the characters of `s` to `v`.
pub fn push_str(v: &mut Vec<char>, s: &str)
    ensures
        final(v)@ == old(v)@ + s@,
{
    let c = chars_of(s);
    push_chars(v, &c);
}

/// Appends `c` to `v`.
pub fn push_chars(v: &mut Vec<char>, c: &[char])
    ensures
        final(v)@ == old(v)@ + c@,
{
    let ghost v0 = v@;
    let mut i: usize = 0;
    while i < c.len()
        invariant
            i <= c@.len(),
            v@ == v0 + c@.take(i as int),
        decreases c@.len() - i,
    {
        v.push(c[i]);
        i = i + 1;
        assert(v@ =~= v0 + c@.take(i as int));
    }
    assert(c@.take(c@.len() as int) =~= c@);
}


/// The character of decimal digit `d`.
pub open spec fn digit_char(d: nat) -> char {
    ((48 + d) as u8) as char
}

/// The decimal representation of `n`, without leading zeros.
pub open spec fn decimal(n: nat) -> Seq<char>
    decreases n,
{
    if n < 10 {
        seq![digit_char(n)]
    } else {
        decimal(n / 10).push(digit_char(n % 10))
    }
}

/// `n` written in decimal (`n.to_string()`).
pub fn decimal_of(n: u64) -> (r: Vec<char>)
    ensures
        r@ == decimal(n as nat),
    decreases n,
{
    let d = (n % 10) as u8;
    let c = (48u8 + d) as char;
    if n < 10 {
        let mut v: Vec<char> = Vec::new();
        v.push(c);
        v
    } else {
        let mut v = decimal_of(n / 10);
        v.push(c);
        v
    }
}

/// Code-point lexicographic order on character sequences, which is the order
/// of `str` and `String` (UTF-8 preserves code-point order byte by byte).
pub open spec fn seq_lt(a: Seq<char>, b: Seq<char>) -> bool
    decreases a.len(),
{
    if a.len() == 0 {
        b.len() > 0
    } else if b.len() == 0 {
        false
    } else if a[0] != b[0] {
        (a[0] as int) < (b[0] as int)
    } else {
        seq_lt(a.drop_first(), b.drop_first())
    }
}

pub proof fn lemma_seq_lt_irreflexive(a: Seq<char>)
    ensures
        !seq_lt(a, a),
    decreases a.len(),
{
    if a.len() > 0 {
        lemma_seq_lt_irreflexive(a.drop_first());
    }
}

pub proof fn lemma_seq_lt_total(a: Seq<char>, b: Seq<char>)
    ensures
        a == b || seq_lt(a, b) || seq_lt(b, a),
    decreases a.len(),
{
    if a.len() > 0 && b.len() > 0 && a[0] == b[0] {
        lemma_seq_lt_total(a.drop_first(), b.drop_first());
        if a.drop_first() == b.drop_first() {
            assert(a =~= seq![a[0]] + a.drop_first());
            assert(b =~= seq![b[0]] + b.drop_first());
        }
    } else if a.len() == 0 && b.len() == 0 {
        assert(a =~= b);
    } else if a.len() > 0 && b.len() > 0 {
        assert(a[0] as int != b[0] as int);
    }
}

pub proof fn lemma_seq_lt_asymmetric(a: Seq<char>, b: Seq<char>)
    requires
        seq_lt(a, b),
    ensures
        !seq_lt(b, a),
    decreases a.len(),
{
    if a.len() > 0 && b.len() > 0 && a[0] == b[0] {
        lemma_seq_lt_asymmetric(a.drop_first(), b.drop_first());
    }
}

pub proof fn lemma_seq_lt_transitive(a: Seq<char>, b: Seq<char>, c: Seq<char>)
    requires
        seq_lt(a, b),
        seq_lt(b, c),
    ensures
        seq_lt(a, c),
    decreases a.len(),
{
    if a.len() > 0 && b.len() > 0 && c.len() > 0 && a[0] == b[0] && b[0] == c[0] {
        lemma_seq_lt_transitive(a.drop_first(), b.drop_first(), c.drop_first());
    }
}

/// `seq_lt(a, b)` computed.
pub fn chars_lt(a: &[char], b: &[char]) -> (r: bool)
    ensures
        r == seq_lt(a@, b@),
{
    let mut i: usize = 0;
    assert(a@.skip(0) =~= a@);
    assert(b@.skip(0) =~= b@);
    while i < a.len() && i < b.len() && a[i] == b[i]
        invariant
            i <= a@.len(),
            i <= b@.len(),
            seq_lt(a@, b@) == seq_lt(a@.skip(i as int), b@.skip(i as int)),
        decreases a@.len() - i,
    {
        assert(a@.skip(i as int).drop_first() =~= a@.skip(i + 1));
        assert(b@.skip(i as int).drop_first() =~= b@.skip(i + 1));
        i = i + 1;
    }
    if i == a.len() {
        i < b.len()
    } else if i == b.len() {
        false
    } else {
        assert(a@.skip(i as int)[0] == a@[i as int]);
        assert(b@.skip(i as int)[0] == b@[i as int]);
        a[i] < b[i]
    }
}

/// The part of `s` after its `n`-th occurrence of `c`; `None` when `c`
/// occurs fewer times (`s.splitn(n + 1, c).nth(n)`).
pub open spec fn after_nth(s: Seq<char>, c: char, n: nat) -> Option<Seq<char>>
    decreases s.len(),
{
    if n == 0 {
        Some(s)
    } else if s.len() == 0 {
        None
    } else if s[0] == c {
        after_nth(s.drop_first(), c, (n - 1) as nat)
    } else {
        after_nth(s.drop_first(), c, n)
    }
}

/// Index in `v` where `after_nth(v, c, n)` starts.
pub fn after_nth_index(v: &[char], c: char, n: usize) -> (r: Option<usize>)
    ensures
        r matches Some(i) ==> i <= v@.len() && after_nth(v@, c, n as nat) == Some(v@.skip(i as int)),
        r is None ==> after_nth(v@, c, n as nat) is None,
{
    let mut i: usize = 0;
    let mut k: usize = 0;
    assert(v@.skip(0) =~= v@);
    while i < v.len() && k < n
        invariant
            i <= v@.len(),
            k <= n,
            after_nth(v@, c, n as nat) == after_nth(v@.skip(i as int), c, (n - k) as nat),
        decreases v@.len() - i,
    {
        assert(v@.skip(i as int).drop_first() =~= v@.skip(i + 1));
        if v[i] == c {
            k = k + 1;
        }
        i = i + 1;
    }
    if k == n {
        Some(i)
    } else {
        None
    }
}

/// `p` occurs in `s` at index `i`.
pub open spec fn occurs_at(s: Seq<char>, p: Seq<char>, i: int) -> bool {
    0 <= i && i + p.len() <= s.len() && s.subrange(i, i + p.len()) == p
}

/// The first index at or after `i` where `p` occurs in `s`.
pub open spec fn find_from(s: Seq<char>, p: Seq<char>, i: int) -> Option<int>
    decreases s.len() + 1 - i,
{
    if i < 0 || i + p.len() > s.len() {
        None
    } else if occurs_at(s, p, i) {
        Some(i)
    } else {
        find_from(s, p, i + 1)
    }
}

/// The first index where `p` occurs in `s` (`str::find`).
pub open spec fn find_sub(s: Seq<char>, p: Seq<char>) -> Option<int> {
    find_from(s, p, 0)
}

proof fn lemma_find_from(s: Seq<char>, p: Seq<char>, i: int)
    requires
        0 <= i,
    ensures
        find_from(s, p, i) matches Some(j) ==> i <= j && occurs_at(s, p, j) && forall|k: int|
            i <= k < j ==> !occurs_at(s, p, k),
        find_from(s, p, i) is None ==> forall|k: int| i <= k ==> !occurs_at(s, p, k),
    decreases s.len() + 1 - i,
{
    if i + p.len() <= s.len() && !occurs_at(s, p, i) {
        lemma_find_from(s, p, i + 1);
    }
}

/// `find_sub` facts: the index found is an occurrence and the first one.
pub proof fn lemma_find_sub(s: Seq<char>, p: Seq<char>)
    ensures
        find_sub(s, p) matches Some(j) ==> occurs_at(s, p, j) && forall|k: int| 0 <= k < j ==> !occurs_at(s, p, k),
        find_sub(s, p) is None ==> forall|k: int| 0 <= k ==> !occurs_at(s, p, k),
{
    lemma_find_from(s, p, 0);
}

/// Whether `p` occurs in `s` at `i`, computed.
fn matches_at(s: &[char], p: &[char], i: usize) -> (r: bool)
    requires
        i + p@.len() <= s@.len(),
    ensures
        r == occurs_at(s@, p@, i as int),
{
    let m = s.len();
    let mut j: usize = 0;
    while j < p.len()
        invariant
            j <= p@.len(),
            m == s@.len(),
            i + p@.len() <= s@.len(),
            forall|k: int| 0 <= k < j ==> s@[i + k] == p@[k],
        decreases p@.len() - j,
    {
        assert(i + j < s@.len());
        if s[i + j] != p[j] {
            assert(s@.subrange(i as int, i + p@.len())[j as int] != p@[j as int]);
            return false;
        }
        j = j + 1;
    }
    assert(s@.subrange(i as int, i + p@.len()) =~= p@);
    true
}

/// `str::find` with a string pattern.
pub fn find_chars(s: &[char], p: &[char]) -> (r: Option<usize>)
    ensures
        match find_sub(s@, p@) {
            Some(j) => r == Some(j as usize),
            None => r is None,
        },
{
    if p.len() > s.len() {
        return None;
    }
    let n = s.len() - p.len();
    let mut i: usize = 0;
    loop
        invariant
            p@.len() <= s@.len(),
            n == s@.len() - p@.len(),
            i <= n,
            find_sub(s@, p@) == find_from(s@, p@, i as int),
        decreases n - i,
    {
        if matches_at(s, p, i) {
            return Some(i);
        }
        if i == n {
            return None;
        }
        i = i + 1;
    }
}

/// The part of `s` after its last `c`, all of `s` when `c` does not occur
/// (`s.rsplit(c).next()`).
pub open spec fn after_last(s: Seq<char>, c: char) -> Seq<char>
    decreases s.len(),
{
    if s.len() == 0 {
        s
    } else if s.last() == c {
        Seq::empty()
    } else {
        after_last(s.drop_last(), c).push(s.last())
    }
}

/// `after_last(v, c)` as a new vector.
pub fn after_last_chars(v: &[char], c: char) -> (r: Vec<char>)
    ensures
        r@ == after_last(v@, c),
{
    let mut k: usize = v.len();
    while k > 0 && v[k - 1] != c
        invariant
            k <= v@.len(),
            forall|j: int| k <= j < v@.len() ==> v@[j] != c,
        decreases k,
    {
        k = k - 1;
    }
    let r = slice_chars(v, k, v.len());
    proof {
        lemma_after_last(v@, c, k as int);
    }
    r
}

proof fn lemma_after_last(s: Seq<char>, c: char, k: int)
    requires
        0 <= k <= s.len(),
        forall|j: int| k <= j < s.len() ==> s[j] != c,
        k == 0 || s[k - 1] == c,
    ensures
        after_last(s, c) == s.subrange(k, s.len() as int),
    decreases s.len(),
{
    if s.len() > k {
        lemma_after_last(s.drop_last(), c, k);
        assert(s.drop_last().subrange(k, s.len() - 1).push(s.last()) =~= s.subrange(k, s.len() as int));
    } else if k > 0 {
        assert(s.subrange(k, s.len() as int) =~= Seq::<char>::empty());
    }
}

/// Index of the first whitespace character of `s` at or after `i`.
pub open spec fn first_ws_from(s: Seq<char>, i: int) -> Option<int>
    decreases s.len() - i,
{
    if i < 0 || i >= s.len() {
        None
    } else if is_ws(s[i]) {
        Some(i)
    } else {
        first_ws_from(s, i + 1)
    }
}

/// Index of the first whitespace character of `s`.
pub open spec fn first_ws(s: Seq<char>) -> Option<int> {
    first_ws_from(s, 0)
}

pub proof fn lemma_first_ws_from(s: Seq<char>, i: int)
    requires
        0 <= i,
    ensures
        first_ws_from(s, i) matches Some(j) ==> i <= j < s.len(),
    decreases s.len() - i,
{
    if i < s.len() && !is_ws(s[i]) {
        lemma_first_ws_from(s, i + 1);
    }
}

/// `first_ws(v)` computed.
pub fn first_ws_index(v: &[char]) -> (r: Option<usize>)
    ensures
        match first_ws(v@) {
            Some(j) => r == Some(j as usize) && 0 <= j < v@.len(),
            None => r is None,
        },
{
    proof {
        lemma_first_ws_from(v@, 0);
    }
    let mut i: usize = 0;
    while i < v.len()
        invariant
            i <= v@.len(),
            first_ws(v@) == first_ws_from(v@, i as int),
        decreases v@.len() - i,
    {
        if is_whitespace(v[i]) {
            return Some(i);
        }
        i = i + 1;
    }
    None
}

/// Number of occurrences of `c` in `s`.
pub open spec fn count_char(s: Seq<char>, c: char) -> nat
    decreases s.len(),
{
    if s.len() == 0 {
        0
    } else {
        count_char(s.drop_last(), c) + if s.last() == c {
            1nat
        } else {
            0nat
        }
    }
}

proof fn lemma_count_char_front(s: Seq<char>, c: char)
    requires
        s.len() > 0,
    ensures
        count_char(s, c) == count_char(s.drop_first(), c) + if s[0] == c {
            1nat
        } else {
            0nat
        },
    decreases s.len(),
{
    if s.len() > 1 {
        lemma_count_char_front(s.drop_last(), c);
        assert(s.drop_last().drop_first() =~= s.drop_first().drop_last());
        assert(s.drop_first().last() == s.last());
        assert(s.drop_last()[0] == s[0]);
        assert(count_char(s.drop_first(), c) == count_char(s.drop_first().drop_last(), c) + if s.last() == c {
            1nat
        } else {
            0nat
        });
    } else {
        assert(s.drop_first() =~= Seq::<char>::empty());
        assert(s.drop_last() =~= Seq::<char>::empty());
        assert(s.last() == s[0]);
        assert(count_char(s.drop_last(), c) == 0);
        assert(count_char(s.drop_first(), c) == 0);
    }
}

proof fn lemma_split_on_len(s: Seq<char>, c: char)
    ensures
        split_on(s, c).len() == count_char(s, c) + 1,
    decreases s.len(),
{
    if s.len() > 0 {
        lemma_split_on_len(s.drop_last(), c);
    }
}

proof fn lemma_after_nth_count(s: Seq<char>, c: char, n: nat)
    requires
        after_nth(s, c, n) is Some,
    ensures
        count_char(s, c) >= n,
    decreases s.len(),
{
    if n > 0 {
        lemma_count_char_front(s, c);
        if s[0] == c {
            lemma_after_nth_count(s.drop_first(), c, (n - 1) as nat);
        } else {
            lemma_after_nth_count(s.drop_first(), c, n);
        }
    }
}

/// `after_nth(s, c, n)` exists only when `split_on(s, c)` has more than `n`
/// pieces.
pub proof fn lemma_split_len(s: Seq<char>, c: char, n: nat)
    requires
        after_nth(s, c, n) is Some,
    ensures
        split_on(s, c).len() > n,
{
    lemma_split_on_len(s, c);
    lemma_after_nth_count(s, c, n);
}

/// `s` up to its last `c` (`rsplit_once(c)`'s first part); empty when `c`
/// does not occur.
pub open spec fn before_last(s: Seq<char>, c: char) -> Seq<char>
    decreases s.len(),
{
    if s.len() == 0 {
        Seq::empty()
    } else if s.last() == c {
        s.drop_last()
    } else {
        before_last(s.drop_last(), c)
    }
}

pub fn before_last_chars(s: &[char], c: char) -> (r: Vec<char>)
    ensures
        r@ == before_last(s@, c),
{
    let mut k: usize = s.len();
    assert(s@.take(k as int) =~= s@);
    while k > 0
        invariant
            k <= s@.len(),
            before_last(s@, c) == before_last(s@.take(k as int), c),
        decreases k,
    {
        assert(s@.take(k as int).drop_last() =~= s@.take(k - 1));
        if s[k - 1] == c {
            return slice_chars(s, 0, k - 1);
        }
        k = k - 1;
    }
    Vec::new()
}

/// The pieces `ws` joined with `sep` between them (`join`).
pub open spec fn join(ws: Seq<Seq<char>>, sep: Seq<char>) -> Seq<char>
    decreases ws.len(),
{
    if ws.len() == 0 {
        Seq::empty()
    } else if ws.len() == 1 {
        ws[0]
    } else {
        join(ws.drop_last(), sep) + sep + ws.last()
    }
}

/// `join(ws[start..], sep)` computed.
pub fn join_from(ws: &Vec<Vec<char>>, start: usize, sep: &[char]) -> (r: Vec<char>)
    ensures
        start <= ws@.len() ==> r@ == join(views(ws@).skip(start as int), sep@),
        start > ws@.len() ==> r@.len() == 0,
{
    let mut r: Vec<char> = Vec::new();
    if start >= ws.len() {
        if start == ws.len() {
            assert(views(ws@).skip(start as int) =~= Seq::<Seq<char>>::empty());
        }
        return r;
    }
    let ghost all = views(ws@).skip(start as int);
    push_chars(&mut r, &ws[start]);
    let mut i: usize = start + 1;
    assert(all.take(1) =~= seq![ws@[start as int]@]);
    assert(r@ =~= join(all.take(1), sep@));
    while i < ws.len()
        invariant
            start < i <= ws@.len(),
            all == views(ws@).skip(start as int),
            r@ == join(all.take(i - start), sep@),
        decreases ws@.len() - i,
    {
        assert(all.take(i - start + 1).drop_last() =~= all.take(i - start));
        assert(all.take(i - start + 1).last() == ws@[i as int]@);
        push_chars(&mut r, sep);
        push_chars(&mut r, &ws[i]);
        i = i + 1;
    }
    assert(all.take(ws@.len() - start) =~= all);
    r
}

/// Number of whitespace characters in `s`.
pub open spec fn count_ws(s: Seq<char>) -> nat
    decreases s.len(),
{
    if s.len() == 0 {
        0
    } else {
        count_ws(s.drop_first()) + if is_ws(s[0]) {
            1nat
        } else {
            0nat
        }
    }
}

pub proof fn lemma_trim_start_push(y: Seq<char>, c: char)
    ensures
        trim_start(y.push(c)) == if trim_start(y).len() > 0 {
            trim_start(y).push(c)
        } else if is_ws(c) {
            Seq::<char>::empty()
        } else {
            seq![c]
        },
    decreases y.len(),
{
    let z = y.push(c);
    if y.len() > 0 {
        assert(z.drop_first() =~= y.drop_first().push(c));
        assert(z[0] == y[0]);
        if is_ws(y[0]) {
            lemma_trim_start_push(y.drop_first(), c);
            assert(trim_start(z) == trim_start(z.drop_first()));
            assert(trim_start(y) == trim_start(y.drop_first()));
        } else {
            assert(trim_start(z) == z);
            assert(trim_start(y) == y);
        }
    } else {
        assert(z =~= seq![c]);
        assert(z.drop_first() =~= Seq::<char>::empty());
        assert(trim_start(Seq::<char>::empty()) == Seq::<char>::empty());
        if is_ws(c) {
            assert(trim_start(z) == trim_start(z.drop_first()));
        } else {
            assert(trim_start(z) == z);
        }
    }
}

/// A trailing carriage return does not change a trimmed line.
pub proof fn lemma_trim_strip_cr(x: Seq<char>)
    ensures
        trim(strip_cr(x)) == trim(x),
{
    if x.len() > 0 && x.last() == '\r' {
        let y = x.drop_last();
        assert(y.push('\r') =~= x);
        lemma_trim_start_push(y, '\r');
        if trim_start(y).len() > 0 {
            assert(trim_start(y).push('\r').drop_last() =~= trim_start(y));
        }
    }
}

/// Trailing whitespace of `x` goes, `p` stays, when `x` is not all
/// whitespace.
pub proof fn lemma_trim_end_append(p: Seq<char>, x: Seq<char>)
    ensures
        trim_end(x).len() > 0 ==> trim_end(p + x) == p + trim_end(x),
        trim_end(x).len() == 0 ==> trim_end(p + x) == trim_end(p),
    decreases x.len(),
{
    if x.len() == 0 {
        assert(p + x =~= p);
    } else {
        assert((p + x).drop_last() =~= p + x.drop_last());
        assert((p + x).last() == x.last());
        lemma_trim_end_append(p, x.drop_last());
    }
}

pub proof fn lemma_trim_end_idem(s: Seq<char>)
    ensures
        trim_end(trim_end(s)) == trim_end(s),
        trim_end(s).len() == 0 || !is_ws(trim_end(s).last()),
    decreases s.len(),
{
    if s.len() > 0 && is_ws(s.last()) {
        lemma_trim_end_idem(s.drop_last());
    }
}

pub proof fn lemma_trim_start_idem(s: Seq<char>)
    ensures
        trim_start(trim_start(s)) == trim_start(s),
        trim_start(s).len() == 0 || !is_ws(trim_start(s)[0]),
    decreases s.len(),
{
    if s.len() > 0 && is_ws(s[0]) {
        lemma_trim_start_idem(s.drop_first());
    }
}

/// `trim_start` and `trim_end` commute.
pub proof fn lemma_trim_commute(s: Seq<char>)
    ensures
        trim_start(trim_end(s)) == trim_end(trim_start(s)),
    decreases s.len(),
{
    if s.len() > 0 {
        if is_ws(s[0]) {
            lemma_trim_commute(s.drop_first());
            if is_ws(s.last()) {
                lemma_trim_commute(s.drop_last());
                if s.len() >= 2 {
                    assert(s.drop_first().drop_last() =~= s.drop_last().drop_first());
                    lemma_trim_commute(s.drop_first().drop_last());
                } else {
                    assert(s.drop_last() =~= Seq::<char>::empty());
                    assert(s.drop_first() =~= Seq::<char>::empty());
                }
            } else {
                let t = s.drop_first();
                assert(s =~= seq![s[0]] + t);
                lemma_trim_end_append(seq![s[0]], t);
                if trim_end(t).len() > 0 {
                    assert((seq![s[0]] + trim_end(t)).drop_first() =~= trim_end(t));
                    assert((seq![s[0]] + trim_end(t))[0] == s[0]);
                } else {
                    assert(t.len() == 0 || false) by {
                        if t.len() > 0 {
                            assert(t.last() == s.last());
                        }
                    }
                }
            }
        } else {
            let u = s.drop_last();
            lemma_trim_end_idem(s);
            if trim_end(s).len() > 0 {
                lemma_trim_end_first(s);
            }
        }
    }
}

proof fn lemma_trim_end_first(s: Seq<char>)
    requires
        s.len() > 0,
        !is_ws(s[0]),
    ensures
        trim_end(s).len() > 0,
        trim_end(s)[0] == s[0],
    decreases s.len(),
{
    if is_ws(s.last()) {
        assert(s.len() > 1);
        assert(s.drop_last()[0] == s[0]);
        lemma_trim_end_first(s.drop_last());
    }
}

/// The words of `a + b` when `a` ends with whitespace (or is empty).
pub proof fn lemma_words_append(a: Seq<char>, b: Seq<char>)
    requires
        a.len() == 0 || is_ws(a.last()),
    ensures
        words(a + b) == words(a) + words(b),
    decreases b.len(),
{
    if b.len() == 0 {
        assert(a + b =~= a);
        assert(words(a) + words(b) =~= words(a));
    } else {
        let s = a + b;
        assert(s.drop_last() =~= a + b.drop_last());
        assert(s.last() == b.last());
        lemma_words_append(a, b.drop_last());
        if b.len() >= 2 {
            assert(s[s.len() - 2] == b[b.len() - 2]);
        } else if a.len() > 0 {
            assert(s[s.len() - 2] == a.last());
            assert(b.drop_last() =~= Seq::<char>::empty());
        } else {
            assert(s =~= b);
        }
        let wa = words(a);
        let wb = words(b.drop_last());
        if !is_ws(b.last()) && b.len() >= 2 && !is_ws(b[b.len() - 2]) {
            lemma_words_nonempty(b.drop_last());
            assert((wa + wb).update((wa + wb).len() - 1, (wa + wb).last().push(b.last())) =~= wa + wb.update(
                wb.len() - 1,
                wb.last().push(b.last()),
            ));
        }
    }
}

/// A run of non-whitespace characters is one word.
pub proof fn lemma_words_single(f: Seq<char>)
    requires
        f.len() > 0,
        forall|i: int| 0 <= i < f.len() ==> !is_ws(#[trigger] f[i]),
    ensures
        words(f) == seq![f],
    decreases f.len(),
{
    if f.len() >= 2 {
        assert forall|i: int| 0 <= i < f.drop_last().len() implies !is_ws(#[trigger] f.drop_last()[i]) by {
            assert(f.drop_last()[i] == f[i]);
        }
        lemma_words_single(f.drop_last());
        assert(f.drop_last().push(f.last()) =~= f);
        assert(!is_ws(f.last())) by {
            assert(f[f.len() - 1] == f.last());
        }
        assert(!is_ws(f[f.len() - 2]));
        assert(words(f) == words(f.drop_last()).update(0, words(f.drop_last()).last().push(f.last())));
        assert(seq![f.drop_last()].update(0, f.drop_last().push(f.last())) =~= seq![f]);
    } else {
        assert(seq![f.last()] =~= f);
        assert(!is_ws(f.last())) by {
            assert(f[0] == f.last());
        }
        assert(f.drop_last() =~= Seq::<char>::empty());
        assert(words(f.drop_last()) == Seq::<Seq<char>>::empty());
        assert(words(f) == words(f.drop_last()).push(seq![f.last()]));
        assert(Seq::<Seq<char>>::empty().push(seq![f.last()]) =~= seq![f]);
    }
}

pub proof fn lemma_count_ws_append(p: Seq<char>, q: Seq<char>)
    ensures
        count_ws(p + q) == count_ws(p) + count_ws(q),
    decreases p.len(),
{
    if p.len() == 0 {
        assert(p + q =~= q);
    } else {
        assert((p + q).drop_first() =~= p.drop_first() + q);
        lemma_count_ws_append(p.drop_first(), q);
    }
}

/// The rows `rows`, each followed by a newline.
pub open spec fn joined(rows: Seq<Seq<char>>) -> Seq<char>
    decreases rows.len(),
{
    if rows.len() == 0 {
        Seq::empty()
    } else {
        joined(rows.drop_last()) + rows.last() + seq!['\n']
    }
}

pub proof fn lemma_joined_append(a: Seq<Seq<char>>, b: Seq<Seq<char>>)
    ensures
        joined(a + b) == joined(a) + joined(b),
    decreases b.len(),
{
    if b.len() == 0 {
        assert(a + b =~= a);
    } else {
        assert((a + b).drop_last() =~= a + b.drop_last());
        lemma_joined_append(a, b.drop_last());
    }
}

proof fn lemma_split_chunk(s: Seq<char>, t: Seq<char>, sep: char)
    requires
        !t.contains(sep),
    ensures
        split_on(s + t, sep) == split_on(s, sep).update(
            split_on(s, sep).len() - 1,
            split_on(s, sep).last() + t,
        ),
    decreases t.len(),
{
    lemma_split_on_nonempty(s, sep);
    if t.len() == 0 {
        assert(s + t =~= s);
        assert(split_on(s, sep).last() + t =~= split_on(s, sep).last());
        assert(split_on(s, sep).update(split_on(s, sep).len() - 1, split_on(s, sep).last()) =~= split_on(s, sep));
    } else {
        assert((s + t).drop_last() =~= s + t.drop_last());
        assert((s + t).last() == t.last());
        assert(t.drop_last().len() < t.len());
        assert(!t.drop_last().contains(sep)) by {
            if t.drop_last().contains(sep) {
                let i = choose|i: int| 0 <= i < t.drop_last().len() && t.drop_last()[i] == sep;
                assert(t[i] == sep);
            }
        }
        assert(t.last() != sep) by {
            assert(t[t.len() - 1] == t.last());
        }
        lemma_split_chunk(s, t.drop_last(), sep);
        let p = split_on(s, sep);
        assert((p.last() + t.drop_last()).push(t.last()) =~= p.last() + t);
    }
}

/// The lines of rows joined by newlines are the rows, each without a
/// trailing carriage return.
pub proof fn lemma_lines_joined(rows: Seq<Seq<char>>)
    requires
        forall|i: int| 0 <= i < rows.len() ==> !(#[trigger] rows[i]).contains('\n'),
    ensures
        split_on(joined(rows), '\n') == rows.push(Seq::<char>::empty()),
        lines(joined(rows)) == rows.map_values(|r: Seq<char>| strip_cr(r)),
    decreases rows.len(),
{
    if rows.len() == 0 {
        assert(split_on(Seq::<char>::empty(), '\n') =~= seq![Seq::<char>::empty()]);
        assert(rows.push(Seq::<char>::empty()) =~= seq![Seq::<char>::empty()]);
    } else {
        let r0 = rows.drop_last();
        assert forall|i: int| 0 <= i < r0.len() implies !(#[trigger] r0[i]).contains('\n') by {
            assert(r0[i] == rows[i]);
        }
        lemma_split_chunk(joined(r0), rows.last(), '\n');
        lemma_lines_joined(r0);
        let s = joined(r0) + rows.last();
        assert(joined(rows) == s.push('\n')) by {
            assert(joined(r0) + rows.last() + seq!['\n'] =~= s.push('\n'));
        }
        assert(s.push('\n').drop_last() =~= s);
        assert(r0.push(Seq::<char>::empty()).update(r0.len() as int, Seq::<char>::empty() + rows.last())
            =~= rows);
    }
    let p = split_on(joined(rows), '\n');
    assert(Seq::new((p.len() - 1) as nat, |i: int| strip_cr(p[i])) =~= rows.map_values(|r: Seq<char>| strip_cr(r)));
}

/// No piece of `split_on(s, sep)` holds `sep`.
pub proof fn lemma_split_on_no_sep(s: Seq<char>, sep: char)
    ensures
        forall|i: int| 0 <= i < split_on(s, sep).len() ==> !(#[trigger] split_on(s, sep)[i]).contains(sep),
    decreases s.len(),
{
    if s.len() > 0 {
        lemma_split_on_no_sep(s.drop_last(), sep);
        lemma_split_on_nonempty(s.drop_last(), sep);
        let p = split_on(s.drop_last(), sep);
        if s.last() != sep {
            let q = p.last().push(s.last());
            assert(!q.contains(sep)) by {
                if q.contains(sep) {
                    let k = choose|k: int| 0 <= k < q.len() && q[k] == sep;
                    if k < p.last().len() {
                        assert(p.last()[k] == sep);
                        assert(p[p.len() - 1] == p.last());
                    }
                }
            }
        } else {
            assert(!Seq::<char>::empty().contains(sep));
        }
    }
}

/// No line holds a newline.
pub proof fn lemma_lines_no_newline(s: Seq<char>)
    ensures
        forall|i: int| 0 <= i < lines(s).len() ==> !(#[trigger] lines(s)[i]).contains('\n'),
{
    lemma_split_on_no_sep(s, '\n');
    lemma_split_on_nonempty(s, '\n');
    let p = split_on(s, '\n');
    assert forall|i: int| 0 <= i < lines(s).len() implies !(#[trigger] lines(s)[i]).contains('\n') by {
        let l = lines(s)[i];
        let q = if i < p.len() - 1 {
            p[i]
        } else {
            p.last()
        };
        if i < p.len() - 1 {
            assert(l == strip_cr(p[i]));
        } else {
            assert(l == p.last());
            assert(p[p.len() - 1] == p.last());
        }
        if l.contains('\n') {
            let k = choose|k: int| 0 <= k < l.len() && l[k] == '\n';
            assert(q[k] == '\n');
        }
    }
}

pub proof fn lemma_trim_is_trimmed(s: Seq<char>)
    ensures
        is_trimmed(trim(s)),
        trim(trim(s)) == trim(s),
{
    lemma_trim_start_idem(s);
    let u = trim_start(s);
    lemma_trim_end_idem(u);
    if trim_end(u).len() > 0 {
        lemma_trim_end_first(u);
    }
    lemma_trim_commute(trim_end(u));
    lemma_trim_start_fixed(trim_end(u));
}

/// Every word is non-empty and free of whitespace.
pub proof fn lemma_words_wf(s: Seq<char>)
    ensures
        forall|i: int| 0 <= i < words(s).len() ==> (#[trigger] words(s)[i]).len() > 0 && forall|j: int|
            0 <= j < words(s)[i].len() ==> !is_ws(words(s)[i][j]),
    decreases s.len(),
{
    if s.len() > 0 {
        lemma_words_wf(s.drop_last());
        if !is_ws(s.last()) && s.len() >= 2 && !is_ws(s[s.len() - 2]) {
            lemma_words_nonempty(s.drop_last());
            let w = words(s.drop_last());
            let q = w.last().push(s.last());
            assert(w[w.len() - 1] == w.last());
            assert forall|j: int| 0 <= j < q.len() implies !is_ws(q[j]) by {
                if j < q.len() - 1 {
                    assert(q[j] == w[w.len() - 1][j]);
                }
            }
        }
    }
}

/// A text that starts with a non-whitespace character has a first word
/// starting with it.
pub proof fn lemma_first_word_start(s: Seq<char>)
    requires
        s.len() > 0,
        !is_ws(s[0]),
    ensures
        words(s).len() > 0,
        words(s)[0].len() > 0,
        words(s)[0][0] == s[0],
    decreases s.len(),
{
    lemma_words_wf(s);
    if s.len() == 1 {
        assert(s.drop_last() =~= Seq::<char>::empty());
        assert(s.last() == s[0]);
    } else {
        assert(s.drop_last()[0] == s[0]);
        lemma_first_word_start(s.drop_last());
        let w = words(s.drop_last());
        if !is_ws(s.last()) && !is_ws(s[s.len() - 2]) {
            if w.len() == 1 {
                assert(w.last() == w[0]);
                assert(w.last().push(s.last())[0] == w[0][0]);
            }
        }
    }
}

/// Leading whitespace removed is a suffix.
pub proof fn lemma_trim_start_suffix(s: Seq<char>)
    ensures
        trim_start(s).len() <= s.len(),
        trim_start(s) == s.skip(s.len() - trim_start(s).len()),
    decreases s.len(),
{
    if s.len() > 0 && is_ws(s[0]) {
        lemma_trim_start_suffix(s.drop_first());
        assert(s.drop_first().skip(s.drop_first().len() - trim_start(s).len()) =~= s.skip(
            s.len() - trim_start(s).len(),
        ));
    } else {
        assert(s.skip(0) =~= s);
    }
}

} // verus!
