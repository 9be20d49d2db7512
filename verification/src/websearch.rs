//! Web search and page fetching: the search URL and the reading of the
//! result page, the checks on fetched addresses, and the text of a fetched
//! page (HTML entities, tags, the length cap).
use vstd::prelude::*;
use vstd::utf8::encode_utf8;
use crate::text::{
    chars_of, decimal, decimal_of, eq_chars, find_chars, find_sub, has_prefix, is_whitespace, is_ws, lemma_find_sub,
    push_chars, push_str, slice_chars, starts_with, string_of, string_views, trim, trim_chars,
};
use crate::files::{ascii_lower, lower_chars_pub};
use serde_json::{Map as JsonMap, Value as JsonValue};

verus! {

/// Longest page text handed on, in characters.
pub const MAX_PAGE_CHARS: usize = 3000;

/// A byte kept as is by percent-encoding: an RFC 3986 unreserved
/// character.
pub open spec fn unreserved(b: u8) -> bool {
    (48 <= b <= 57) || (65 <= b <= 90) || (97 <= b <= 122) || b == 45 || b == 95 || b == 46 || b == 126
}

/// The upper-case hex digit of `d < 16`.
pub open spec fn hex_upper(d: nat) -> char {
    if d < 10 {
        ((48 + d) as u8) as char
    } else {
        ((55 + d) as u8) as char
    }
}

/// Percent-encoding of bytes: unreserved bytes as themselves, every other
/// byte as `%XX` with upper-case hex digits.
pub open spec fn pct(bytes: Seq<u8>) -> Seq<char>
    decreases bytes.len(),
{
    if bytes.len() == 0 {
        Seq::empty()
    } else {
        let b = bytes.last();
        pct(bytes.drop_last()) + if unreserved(b) {
            seq![b as char]
        } else {
            seq!['%', hex_upper((b / 16) as nat), hex_upper((b % 16) as nat)]
        }
    }
}

fn hex_upper_of(d: u8) -> (c: char)
    requires
        d < 16,
    ensures
        c == hex_upper(d as nat),
{
    if d < 10 {
        (48u8 + d) as char
    } else {
        (55u8 + d) as char
    }
}

fn pct_bytes(bytes: &[u8]) -> (r: Vec<char>)
    ensures
        r@ == pct(bytes@),
{
    let mut v: Vec<char> = Vec::new();
    let mut i: usize = 0;
    assert(bytes@.take(0) =~= Seq::<u8>::empty());
    while i < bytes.len()
        invariant
            i <= bytes@.len(),
            v@ == pct(bytes@.take(i as int)),
        decreases bytes@.len() - i,
    {
        assert(bytes@.take(i + 1).drop_last() =~= bytes@.take(i as int));
        assert(bytes@.take(i + 1).last() == bytes@[i as int]);
        let b = bytes[i];
        let ghost before = v@;
        if (48 <= b && b <= 57) || (65 <= b && b <= 90) || (97 <= b && b <= 122) || b == 45 || b == 95 || b == 46
            || b == 126 {
            v.push(b as char);
            assert(v@ =~= before + seq![b as char]);
        } else {
            v.push('%');
            v.push(hex_upper_of(b / 16));
            v.push(hex_upper_of(b % 16));
            assert(v@ =~= before + seq!['%', hex_upper((b / 16) as nat), hex_upper((b % 16) as nat)]);
        }
        i = i + 1;
    }
    assert(bytes@.take(bytes@.len() as int) =~= bytes@);
    v
}

/// Percent-encodes the UTF-8 bytes of `s` (a search query goes into a URL
/// this way).
pub fn percent_encode(s: &str) -> (r: String)
    ensures
        r@ == pct(encode_utf8(s@)),
{
    string_of(&pct_bytes(s.as_bytes()))
}

/// A character that stands for itself in a URL (RFC 3986 "unreserved"):
/// an ASCII letter or digit, `-`, `_`, `.` or `~`.
pub open spec fn url_plain(c: char) -> bool {
    ||| ('a' <= c && c <= 'z')
    ||| ('A' <= c && c <= 'Z')
    ||| ('0' <= c && c <= '9')
    ||| c == '-'
    ||| c == '_'
    ||| c == '.'
    ||| c == '~'
}

/// The value of an upper-case hex digit.
pub open spec fn upper_hex_value(c: char) -> Option<int> {
    if '0' <= c && c <= '9' {
        Some(c as int - 48)
    } else if 'A' <= c && c <= 'F' {
        Some(c as int - 55)
    } else {
        None
    }
}

/// Reading percent-encoded text from its start: `%` with two upper-case hex
/// digits is the byte they write, a plain character is its own code, and
/// anything else (a lone `%`, `#`, `&`, a space, ...) makes the text
/// unreadable.
pub open spec fn pct_decode(t: Seq<char>) -> Option<Seq<u8>>
    decreases t.len(),
{
    if t.len() == 0 {
        Some(Seq::empty())
    } else if t[0] == '%' {
        if t.len() >= 3 && upper_hex_value(t[1]) is Some && upper_hex_value(t[2]) is Some {
            match pct_decode(t.skip(3)) {
                Some(r) => Some(
                    seq![(upper_hex_value(t[1]).unwrap() * 16 + upper_hex_value(t[2]).unwrap()) as u8] + r,
                ),
                None => None,
            }
        } else {
            None
        }
    } else if url_plain(t[0]) {
        match pct_decode(t.skip(1)) {
            Some(r) => Some(seq![t[0] as u8] + r),
            None => None,
        }
    } else {
        None
    }
}

/// Encoding works byte by byte: the encoding of two runs of bytes one after
/// the other is the two encodings one after the other.
pub proof fn lemma_pct_concat(a: Seq<u8>, b: Seq<u8>)
    ensures
        pct(a + b) == pct(a) + pct(b),
    decreases b.len(),
{
    if b.len() == 0 {
        assert(a + b =~= a);
        assert(pct(a) + pct(b) =~= pct(a));
    } else {
        lemma_pct_concat(a, b.drop_last());
        assert((a + b).drop_last() =~= a + b.drop_last());
        assert((a + b).last() == b.last());
        let tail = if unreserved(b.last()) {
            seq![b.last() as char]
        } else {
            seq!['%', hex_upper((b.last() / 16) as nat), hex_upper((b.last() % 16) as nat)]
        };
        assert(pct(a) + pct(b.drop_last()) + tail =~= pct(a) + (pct(b.drop_last()) + tail));
    }
}

proof fn lemma_hex_upper_value(d: nat)
    requires
        d < 16,
    ensures
        upper_hex_value(hex_upper(d)) == Some(d as int),
{
}

/// Decoding the encoding of `a` followed by any text `y` reads `a` back,
/// then reads `y`.
proof fn lemma_pct_decode_prefix(a: Seq<u8>, y: Seq<char>)
    ensures
        pct_decode(pct(a) + y) == match pct_decode(y) {
            Some(r) => Some(a + r),
            None => None::<Seq<u8>>,
        },
    decreases a.len(),
{
    if a.len() == 0 {
        assert(pct(a) + y =~= y);
        if let Some(r) = pct_decode(y) {
            assert(a + r =~= r);
        }
    } else {
        let b0 = a[0];
        let rest = a.skip(1);
        assert(a =~= seq![b0] + rest);
        lemma_pct_concat(seq![b0], rest);
        assert(seq![b0].drop_last() =~= Seq::<u8>::empty());
        assert(seq![b0].last() == b0);
        assert(pct(Seq::<u8>::empty()) =~= Seq::<char>::empty());
        lemma_pct_decode_prefix(rest, y);
        let t = pct(a) + y;
        let u = pct(rest) + y;
        if unreserved(b0) {
            assert(Seq::<char>::empty() + seq![b0 as char] =~= seq![b0 as char]);
            assert(pct(seq![b0]) =~= seq![b0 as char]);
            assert(t =~= seq![b0 as char] + u);
            assert(t[0] == b0 as char);
            assert(t.skip(1) =~= u);
            assert((b0 as char) as u8 == b0);
        } else {
            let h = hex_upper((b0 / 16) as nat);
            let l = hex_upper((b0 % 16) as nat);
            assert(Seq::<char>::empty() + seq!['%', h, l] =~= seq!['%', h, l]);
            assert(pct(seq![b0]) =~= seq!['%', h, l]);
            assert(t =~= seq!['%', h, l] + u);
            assert(t[0] == '%' && t[1] == h && t[2] == l);
            assert(t.skip(3) =~= u);
            lemma_hex_upper_value((b0 / 16) as nat);
            lemma_hex_upper_value((b0 % 16) as nat);
            assert(((b0 / 16) * 16 + b0 % 16) as u8 == b0);
        }
        if let Some(r) = pct_decode(u) {
            assert(seq![b0] + (rest + r) =~= a + r);
        }
    }
}

/// Each byte that is an RFC 3986 unreserved character (an ASCII letter or
/// digit, `-`, `_`, `.`, `~`) is written as that character; every other byte
/// is written as a three-character escape starting with `%`.
pub proof fn law_pct_byte(b: u8)
    ensures
        b < 128 && url_plain(b as char) ==> pct(seq![b]) == seq![b as char],
        !(b < 128 && url_plain(b as char)) ==> pct(seq![b]).len() == 3 && pct(seq![b])[0] == '%',
{
    assert(seq![b].drop_last() =~= Seq::<u8>::empty());
    assert(seq![b].last() == b);
    assert(pct(Seq::<u8>::empty()) =~= Seq::<char>::empty());
    if unreserved(b) {
        assert(Seq::<char>::empty() + seq![b as char] =~= seq![b as char]);
    } else {
        let e = seq!['%', hex_upper((b / 16) as nat), hex_upper((b % 16) as nat)];
        assert(Seq::<char>::empty() + e =~= e);
    }
}

/// Percent-encoding loses nothing and leaves nothing special in the text:
/// decoding it gives back exactly the bytes encoded, and every character
/// of it is `%`, an upper-case hex digit of an escape, or an RFC 3986
/// unreserved character, so it holds no `#`, `&`, `+`, `?`, `=` or space
/// that would cut or change a query string.
pub proof fn law_pct_roundtrip(bytes: Seq<u8>)
    ensures
        pct_decode(pct(bytes)) == Some(bytes),
        forall|i: int| 0 <= i < pct(bytes).len() ==> #[trigger] pct(bytes)[i] == '%' || url_plain(pct(bytes)[i]),
    decreases bytes.len(),
{
    lemma_pct_decode_prefix(bytes, Seq::empty());
    assert(pct(bytes) + Seq::<char>::empty() =~= pct(bytes));
    assert(bytes + Seq::<u8>::empty() =~= bytes);
    if bytes.len() > 0 {
        law_pct_roundtrip(bytes.drop_last());
        let p = pct(bytes.drop_last());
        let b = bytes.last();
        assert forall|i: int| 0 <= i < pct(bytes).len() implies #[trigger] pct(bytes)[i] == '%' || url_plain(
            pct(bytes)[i],
        ) by {
            if i < p.len() {
                assert(pct(bytes)[i] == p[i]);
            } else if unreserved(b) {
                assert(pct(bytes)[i] == b as char);
            } else {
                lemma_hex_upper_value((b / 16) as nat);
                lemma_hex_upper_value((b % 16) as nat);
            }
        }
    }
}

/// The character value of a named or numeric HTML entity (the text between
/// `&` and `;`), when it has one.
pub open spec fn entity_char(ent: Seq<char>) -> Option<char> {
    if ent == "amp"@ {
        Some('&')
    } else if ent == "lt"@ {
        Some('<')
    } else if ent == "gt"@ {
        Some('>')
    } else if ent == "quot"@ {
        Some('"')
    } else if ent == "apos"@ {
        Some('\'')
    } else if ent == "nbsp"@ {
        Some(' ')
    } else {
        let num = if ent.len() >= 2 && ent[0] == '#' && (ent[1] == 'x' || ent[1] == 'X') {
            parse_u32(ent.skip(2), 16)
        } else if ent.len() >= 1 && ent[0] == '#' {
            parse_u32(ent.skip(1), 10)
        } else {
            None
        };
        match num {
            Some(n) => char_of(n),
            None => None,
        }
    }
}

/// `char::from_u32`: the scalar value `n`, when it is one.
pub open spec fn char_of(n: u32) -> Option<char> {
    if n < 0xD800 || (0xDFFF < n && n <= 0x10FFFF) {
        Some(n as char)
    } else {
        None
    }
}

/// Value of digit `c` in base `radix` (10 or 16).
pub open spec fn digit_value(c: char, radix: nat) -> Option<nat> {
    if '0' <= c <= '9' {
        Some((c as u32 - 48) as nat)
    } else if radix == 16 && 'a' <= c <= 'f' {
        Some((c as u32 - 87) as nat)
    } else if radix == 16 && 'A' <= c <= 'F' {
        Some((c as u32 - 55) as nat)
    } else {
        None
    }
}

/// The value of the digits `ds` in base `radix`, when they are all digits.
pub open spec fn digits_value(ds: Seq<char>, radix: nat) -> Option<nat>
    decreases ds.len(),
{
    if ds.len() == 0 {
        Some(0)
    } else {
        match (digits_value(ds.drop_last(), radix), digit_value(ds.last(), radix)) {
            (Some(v), Some(d)) => Some(v * radix + d),
            _ => None,
        }
    }
}

/// `u32::from_str_radix` (and `str::parse::<u32>` for base 10): an optional
/// `+`, then at least one digit, with a value that fits in 32 bits.
pub open spec fn parse_u32(s: Seq<char>, radix: nat) -> Option<u32> {
    let ds = if s.len() > 0 && s[0] == '+' {
        s.drop_first()
    } else {
        s
    };
    if ds.len() == 0 {
        None
    } else {
        match digits_value(ds, radix) {
            Some(v) => if v <= u32::MAX {
                Some(v as u32)
            } else {
                None
            },
            None => None,
        }
    }
}

fn digit_value_of(c: char, radix: u32) -> (r: Option<u32>)
    requires
        radix == 10 || radix == 16,
    ensures
        match digit_value(c, radix as nat) {
            Some(d) => r == Some(d as u32) && d < radix,
            None => r is None,
        },
{
    if '0' <= c && c <= '9' {
        Some(c as u32 - 48)
    } else if radix == 16 && 'a' <= c && c <= 'f' {
        Some(c as u32 - 87)
    } else if radix == 16 && 'A' <= c && c <= 'F' {
        Some(c as u32 - 55)
    } else {
        None
    }
}

proof fn lemma_digits_grow(ds: Seq<char>, radix: nat, k: int)
    requires
        radix >= 2,
        0 <= k <= ds.len(),
        digits_value(ds, radix) is Some,
    ensures
        digits_value(ds.take(k), radix) is Some,
        digits_value(ds.take(k), radix).unwrap() <= digits_value(ds, radix).unwrap(),
    decreases ds.len() - k,
{
    if k < ds.len() {
        assert(ds.take(k) =~= ds.drop_last().take(k));
        lemma_digits_grow(ds.drop_last(), radix, k);
        let v = digits_value(ds.drop_last(), radix).unwrap();
        let d = digit_value(ds.last(), radix).unwrap();
        assert(v * radix + d >= v) by (nonlinear_arith)
            requires
                radix >= 2,
                v >= 0,
                d >= 0,
        ;
    } else {
        assert(ds.take(k) =~= ds);
    }
}

/// `parse_u32(s, radix)` computed.
fn parse_u32_of(s: &[char], radix: u32) -> (r: Option<u32>)
    requires
        radix == 10 || radix == 16,
    ensures
        r == parse_u32(s@, radix as nat),
{
    let start: usize = if s.len() > 0 && s[0] == '+' {
        1
    } else {
        0
    };
    let ghost ds = if s@.len() > 0 && s@[0] == '+' {
        s@.drop_first()
    } else {
        s@
    };
    assert(ds =~= s@.skip(start as int));
    if start == s.len() {
        return None;
    }
    let mut v: u64 = 0;
    let mut i: usize = start;
    assert(ds.take(0) =~= Seq::<char>::empty());
    while i < s.len()
        invariant
            start <= i <= s@.len(),
            ds == s@.skip(start as int),
            ds == (if s@.len() > 0 && s@[0] == '+' {
                s@.drop_first()
            } else {
                s@
            }),
            ds.len() > 0,
            radix == 10 || radix == 16,
            digits_value(ds.take(i - start), radix as nat) == Some(v as nat),
            v <= u32::MAX,
        decreases s@.len() - i,
    {
        assert(ds.take(i - start + 1).drop_last() =~= ds.take(i - start));
        assert(ds.take(i - start + 1).last() == s@[i as int]);
        match digit_value_of(s[i], radix) {
            None => {
                proof {
                    assert(digits_value(ds.take(i - start + 1), radix as nat) is None);
                    if digits_value(ds, radix as nat) is Some {
                        lemma_digits_grow(ds, radix as nat, i - start + 1);
                    }
                }
                return None;
            },
            Some(d) => {
                let w = v * (radix as u64) + (d as u64);
                assert(digits_value(ds.take(i - start + 1), radix as nat) == Some(w as nat));
                if w > 4294967295u64 {
                    proof {
                        if digits_value(ds, radix as nat) is Some {
                            lemma_digits_grow(ds, radix as nat, i - start + 1);
                        }
                    }
                    return None;
                }
                v = w;
            },
        }
        i = i + 1;
    }
    assert(ds.take(s@.len() - start) =~= ds);
    Some(v as u32)
}

/// `char::from_u32` computed.
fn char_of_u32(n: u32) -> (r: Option<char>)
    ensures
        r == char_of(n),
{
    if n < 0xD800 {
        Some(char_from(n))
    } else if 0xDFFF < n && n <= 0x10FFFF {
        Some(char_from(n))
    } else {
        None
    }
}

/// The character with scalar value `n` (`char::from_u32`, which succeeds on
/// scalar values).
#[verifier::external_body]
fn char_from(n: u32) -> (c: char)
    requires
        n < 0xD800 || (0xDFFF < n && n <= 0x10FFFF),
    ensures
        c == n as char,
{
    match char::from_u32(n) {
        Some(c) => c,
        None => '\u{FFFD}',
    }
}

fn eq_lit(a: &[char], lit: &str) -> (r: bool)
    ensures
        r == (a@ == lit@),
{
    crate::text::eq_chars(a, &chars_of(lit))
}

/// `entity_char(ent)` computed.
pub fn entity_of(ent: &[char]) -> (r: Option<char>)
    ensures
        r == entity_char(ent@),
{
    if eq_lit(ent, "amp") {
        return Some('&');
    }
    if eq_lit(ent, "lt") {
        return Some('<');
    }
    if eq_lit(ent, "gt") {
        return Some('>');
    }
    if eq_lit(ent, "quot") {
        return Some('"');
    }
    if eq_lit(ent, "apos") {
        return Some('\'');
    }
    if eq_lit(ent, "nbsp") {
        return Some(' ');
    }
    let num = if ent.len() >= 2 && ent[0] == '#' && (ent[1] == 'x' || ent[1] == 'X') {
        let r = slice_chars(ent, 2, ent.len());
        assert(r@ =~= ent@.skip(2));
        parse_u32_of(&r, 16)
    } else if ent.len() >= 1 && ent[0] == '#' {
        let r = slice_chars(ent, 1, ent.len());
        assert(r@ =~= ent@.skip(1));
        parse_u32_of(&r, 10)
    } else {
        None
    };
    match num {
        Some(n) => char_of_u32(n),
        None => None,
    }
}

/// Index of the first `;` of `s` at or after `i`.
pub open spec fn semi_from(s: Seq<char>, i: int) -> Option<int>
    decreases s.len() - i,
{
    if i < 0 || i >= s.len() {
        None
    } else if s[i] == ';' {
        Some(i)
    } else {
        semi_from(s, i + 1)
    }
}

/// HTML entity decoding from position `i` on: an `&` followed, up to the
/// next `;`, by a known entity gives its character; every other character
/// stays.
pub open spec fn unescape_from(s: Seq<char>, i: int) -> Seq<char>
    decreases s.len() - i,
{
    if i < 0 || i >= s.len() {
        Seq::empty()
    } else if s[i] == '&' && semi_from(s, i) is Some && entity_char(
        s.subrange(i + 1, semi_from(s, i).unwrap()),
    ) is Some && semi_from(s, i).unwrap() >= i {
        proof {
            lemma_semi_from(s, i);
        }
        seq![entity_char(s.subrange(i + 1, semi_from(s, i).unwrap())).unwrap()] + unescape_from(
            s,
            semi_from(s, i).unwrap() + 1,
        )
    } else {
        seq![s[i]] + unescape_from(s, i + 1)
    }
}

pub proof fn lemma_semi_from(s: Seq<char>, i: int)
    requires
        0 <= i,
    ensures
        semi_from(s, i) matches Some(j) ==> i <= j < s.len() && s[j] == ';' && forall|k: int| i <= k < j ==> s[k] != ';',
        semi_from(s, i) is None ==> forall|k: int| i <= k < s.len() ==> s[k] != ';',
    decreases s.len() - i,
{
    if 0 <= i < s.len() && s[i] != ';' {
        lemma_semi_from(s, i + 1);
    }
}

/// Decodes the HTML entities of `s` (see `unescape_from`).
pub fn html_unescape(s: &str) -> (r: String)
    ensures
        r@ == unescape_from(s@, 0),
{
    let cs = chars_of(s);
    let n = cs.len();
    let mut out: Vec<char> = Vec::new();
    let mut i: usize = 0;
    while i < n
        invariant
            i <= n,
            n == cs@.len(),
            cs@ == s@,
            out@ + unescape_from(s@, i as int) == unescape_from(s@, 0),
        decreases n - i,
    {
        proof {
            lemma_semi_from(s@, i as int);
        }
        let mut decoded: Option<(char, usize)> = None;
        if cs[i] == '&' {
            let mut j: usize = i;
            while j < n && cs[j] != ';'
                invariant
                    i <= j <= n,
                    n == cs@.len(),
                    forall|k: int| i <= k < j ==> cs@[k] != ';',
                decreases n - j,
            {
                j = j + 1;
            }
            if j < n {
                proof {
                    lemma_semi_unique(s@, i as int, j as int);
                }
                let ent = slice_chars(&cs, i + 1, j);
                match entity_of(&ent) {
                    Some(c) => {
                        decoded = Some((c, j));
                    },
                    None => {},
                }
            } else {
                proof {
                    lemma_semi_none(s@, i as int);
                }
            }
        }
        match decoded {
            Some((c, j)) => {
                let ghost before = out@;
                out.push(c);
                assert(out@ =~= before + seq![c]);
                assert(out@ + unescape_from(s@, j + 1) =~= before + unescape_from(s@, i as int));
                i = j + 1;
            },
            None => {
                let ghost before = out@;
                out.push(cs[i]);
                assert(out@ + unescape_from(s@, i + 1) =~= before + unescape_from(s@, i as int));
                i = i + 1;
            },
        }
    }
    assert(unescape_from(s@, n as int) =~= Seq::<char>::empty());
    assert(out@ =~= unescape_from(s@, 0));
    string_of(&out)
}

proof fn lemma_semi_unique(s: Seq<char>, i: int, j: int)
    requires
        0 <= i <= j < s.len(),
        s[j] == ';',
        forall|k: int| i <= k < j ==> s[k] != ';',
    ensures
        semi_from(s, i) == Some(j),
    decreases j - i,
{
    if i < j {
        lemma_semi_unique(s, i + 1, j);
    }
}

proof fn lemma_semi_none(s: Seq<char>, i: int)
    requires
        0 <= i,
        forall|k: int| i <= k < s.len() ==> s[k] != ';',
    ensures
        semi_from(s, i) is None,
    decreases s.len() - i,
{
    if i < s.len() {
        lemma_semi_none(s, i + 1);
    }
}

/// `s` without its tags (every `<` followed by at least one other character
/// than `>` and then a `>`), from position `i` on: what the regular
/// expression `<[^>]+>` replaced by nothing leaves.
pub open spec fn untagged_from(s: Seq<char>, i: int) -> Seq<char>
    decreases s.len() - i,
{
    if i < 0 || i >= s.len() {
        Seq::empty()
    } else if s[i] == '<' && gt_from(s, i + 1) is Some && gt_from(s, i + 1).unwrap() > i + 1 {
        proof {
            lemma_gt_from(s, i + 1);
        }
        untagged_from(s, gt_from(s, i + 1).unwrap() + 1)
    } else {
        seq![s[i]] + untagged_from(s, i + 1)
    }
}

/// Index of the first `>` of `s` at or after `i`.
pub open spec fn gt_from(s: Seq<char>, i: int) -> Option<int>
    decreases s.len() - i,
{
    if i < 0 || i >= s.len() {
        None
    } else if s[i] == '>' {
        Some(i)
    } else {
        gt_from(s, i + 1)
    }
}

pub proof fn lemma_gt_from(s: Seq<char>, i: int)
    requires
        0 <= i,
    ensures
        gt_from(s, i) matches Some(j) ==> i <= j < s.len() && s[j] == '>' && forall|k: int| i <= k < j ==> s[k] != '>',
        gt_from(s, i) is None ==> forall|k: int| i <= k < s.len() ==> s[k] != '>',
    decreases s.len() - i,
{
    if 0 <= i < s.len() && s[i] != '>' {
        lemma_gt_from(s, i + 1);
    }
}

proof fn lemma_gt_unique(s: Seq<char>, i: int, j: int)
    requires
        0 <= i <= j < s.len(),
        s[j] == '>',
        forall|k: int| i <= k < j ==> s[k] != '>',
    ensures
        gt_from(s, i) == Some(j),
    decreases j - i,
{
    if i < j {
        lemma_gt_unique(s, i + 1, j);
    }
}

proof fn lemma_gt_none(s: Seq<char>, i: int)
    requires
        0 <= i,
        forall|k: int| i <= k < s.len() ==> s[k] != '>',
    ensures
        gt_from(s, i) is None,
    decreases s.len() - i,
{
    if i < s.len() {
        lemma_gt_none(s, i + 1);
    }
}

fn untagged(cs: &Vec<char>) -> (r: Vec<char>)
    ensures
        r@ == untagged_from(cs@, 0),
{
    let n = cs.len();
    let mut out: Vec<char> = Vec::new();
    let mut i: usize = 0;
    while i < n
        invariant
            i <= n,
            n == cs@.len(),
            out@ + untagged_from(cs@, i as int) == untagged_from(cs@, 0),
        decreases n - i,
    {
        let mut skip_to: Option<usize> = None;
        if cs[i] == '<' {
            let mut j: usize = i + 1;
            while j < n && cs[j] != '>'
                invariant
                    i + 1 <= j <= n,
                    n == cs@.len(),
                    forall|k: int| i + 1 <= k < j ==> cs@[k] != '>',
                decreases n - j,
            {
                j = j + 1;
            }
            if j < n {
                proof {
                    lemma_gt_unique(cs@, i + 1, j as int);
                }
                if j > i + 1 {
                    skip_to = Some(j);
                }
            } else {
                proof {
                    lemma_gt_none(cs@, i + 1);
                }
            }
        }
        match skip_to {
            Some(j) => {
                i = j + 1;
            },
            None => {
                let ghost before = out@;
                out.push(cs[i]);
                assert(out@ + untagged_from(cs@, i + 1) =~= before + untagged_from(cs@, i as int));
                i = i + 1;
            },
        }
    }
    assert(untagged_from(cs@, n as int) =~= Seq::<char>::empty());
    assert(out@ =~= untagged_from(cs@, 0));
    out
}

/// Tags removed first, then entities decoded (decoding first would turn
/// text such as `&lt;b&gt;` into a tag and strip it).
pub fn strip_tags(s: &str) -> (r: String)
    ensures
        r@ == unescape_from(untagged_from(s@, 0), 0),
{
    let cs = chars_of(s);
    let u = string_of(&untagged(&cs));
    html_unescape(u.as_str())
}

/// Page text as handed on: at most `MAX_PAGE_CHARS` characters, a longer
/// text cut there with a note.
pub open spec fn capped_spec(text: Seq<char>) -> Seq<char> {
    if text.len() > 3000 {
        text.take(3000) + "\n（正文过长，已截断）"@
    } else {
        text
    }
}

/// Caps a page text (see `capped_spec`).
pub fn cap_page_text(text: &str) -> (r: String)
    ensures
        r@ == capped_spec(text@),
{
    let cs = chars_of(text);
    if cs.len() > MAX_PAGE_CHARS {
        let mut head = slice_chars(&cs, 0, MAX_PAGE_CHARS);
        assert(head@ =~= cs@.take(3000));
        push_str(&mut head, "\n（正文过长，已截断）");
        string_of(&head)
    } else {
        text.to_owned()
    }
}

/// Where a fetch may go: refused, or the host and port to resolve (and
/// then to check, see `ip_refused`).
pub enum FetchTarget {
    Refused,
    Resolve { host: String, port: u16 },
}

/// The scheme prefix of `url` and the default port it implies.
pub open spec fn scheme(url: Seq<char>) -> Option<(nat, u16)> {
    if starts_with(url, "http://"@) {
        Some((7, 80u16))
    } else if starts_with(url, "https://"@) {
        Some((8, 443u16))
    } else {
        None
    }
}

/// Index of the first of `/`, `?`, `#` in `s` at or after `i`, else the
/// length of `s`.
pub open spec fn authority_end(s: Seq<char>, i: int) -> int
    decreases s.len() - i,
{
    if i < 0 || i >= s.len() {
        s.len() as int
    } else if s[i] == '/' || s[i] == '?' || s[i] == '#' {
        i
    } else {
        authority_end(s, i + 1)
    }
}

/// Index of the last `:` of `s`, `-1` when none.
pub open spec fn last_colon(s: Seq<char>) -> int
    decreases s.len(),
{
    if s.len() == 0 {
        -1
    } else if s.last() == ':' {
        s.len() - 1
    } else {
        last_colon(s.drop_last())
    }
}

/// Host and port named by an authority: `host:digits` with a non-empty
/// host gives that port (the default when the digits do not fit in 16
/// bits or are none); anything else is all host, on the default port.
pub open spec fn host_port(auth: Seq<char>, default_port: u16) -> (Seq<char>, u16) {
    let k = last_colon(auth);
    if k > 0 && (forall|j: int| k < j < auth.len() ==> '0' <= #[trigger] auth[j] <= '9') {
        let port = match parse_u32(auth.skip(k + 1), 10) {
            Some(v) => if v <= 65535 {
                v as u16
            } else {
                default_port
            },
            None => default_port,
        };
        (auth.take(k), port)
    } else {
        (auth, default_port)
    }
}

/// Where a fetch of `url` may go: only http(s) URLs whose authority is
/// neither empty nor holds credentials (`@`), and whose host is not
/// `localhost` in any case.
pub open spec fn fetch_target_spec(url: Seq<char>) -> Option<(Seq<char>, u16)> {
    match scheme(url) {
        None => None,
        Some((n, default_port)) => {
            let rest = url.skip(n as int);
            let auth = rest.take(authority_end(rest, 0));
            if auth.len() == 0 || auth.contains('@') {
                None
            } else {
                let (host, port) = host_port(auth, default_port);
                if ascii_lower(host) == "localhost"@ {
                    None
                } else {
                    Some((host, port))
                }
            }
        },
    }
}

proof fn lemma_last_colon_at(s: Seq<char>, k: int)
    requires
        -1 <= k < s.len(),
        k >= 0 ==> s[k] == ':',
        forall|j: int| k < j < s.len() ==> s[j] != ':',
    ensures
        last_colon(s) == k,
    decreases s.len(),
{
    if s.len() > 0 && k < s.len() - 1 {
        lemma_last_colon_at(s.drop_last(), k);
    }
}

/// Decides where a fetch of `url` may go (see `fetch_target_spec`); the
/// resolved addresses are checked by `ip_refused`.
pub fn fetch_target(url: &str) -> (r: FetchTarget)
    ensures
        match fetch_target_spec(url@) {
            None => r is Refused,
            Some((h, p)) => r matches FetchTarget::Resolve { host, port } && host@ == h && port == p,
        },
{
    proof {
        reveal_strlit("http://");
        reveal_strlit("https://");
    }
    let u = chars_of(url);
    let (n, default_port): (usize, u16) = if has_prefix(&u, &chars_of("http://")) {
        (7, 80)
    } else if has_prefix(&u, &chars_of("https://")) {
        (8, 443)
    } else {
        return FetchTarget::Refused;
    };
    let rest = slice_chars(&u, n, u.len());
    assert(rest@ =~= url@.skip(n as int));
    let mut e: usize = 0;
    while e < rest.len() && !(rest[e] == '/' || rest[e] == '?' || rest[e] == '#')
        invariant
            e <= rest@.len(),
            authority_end(rest@, 0) == authority_end(rest@, e as int),
        decreases rest@.len() - e,
    {
        e = e + 1;
    }
    let auth = slice_chars(&rest, 0, e);
    assert(auth@ =~= rest@.take(authority_end(rest@, 0)));
    if auth.len() == 0 || crate::text::has_char(&auth, '@') {
        return FetchTarget::Refused;
    }
    let mut k: usize = auth.len();
    while k > 0 && auth[k - 1] != ':'
        invariant
            k <= auth@.len(),
            forall|j: int| k <= j < auth@.len() ==> auth@[j] != ':',
        decreases k,
    {
        k = k - 1;
    }
    proof {
        lemma_last_colon_at(auth@, k as int - 1);
    }
    let mut host = auth.clone();
    let mut port = default_port;
    if k > 1 {
        let mut all_digits = true;
        let mut j: usize = k;
        while j < auth.len()
            invariant
                k <= j <= auth@.len(),
                all_digits == (forall|q: int| k <= q < j ==> '0' <= #[trigger] auth@[q] <= '9'),
            decreases auth@.len() - j,
        {
            if !('0' <= auth[j] && auth[j] <= '9') {
                all_digits = false;
            }
            j = j + 1;
        }
        if all_digits {
            let digits = slice_chars(&auth, k, auth.len());
            assert(digits@ =~= auth@.skip(k as int));
            port = match parse_u32_of(&digits, 10) {
                Some(v) => if v <= 65535 {
                    v as u16
                } else {
                    default_port
                },
                None => default_port,
            };
            host = slice_chars(&auth, 0, k - 1);
            assert(host@ =~= auth@.take(k - 1));
        }
    }
    let lower = lower_chars_pub(&host);
    if eq_chars(&lower, &chars_of("localhost")) {
        return FetchTarget::Refused;
    }
    FetchTarget::Resolve { host: string_of(&host), port }
}

/// An IPv4 address (its four octets) that a fetch may not reach: loopback,
/// private, link-local, unspecified or broadcast.
pub open spec fn v4_refused(o: Seq<u8>) -> bool {
    ||| o[0] == 127
    ||| o[0] == 10
    ||| (o[0] == 172 && 16 <= o[1] <= 31)
    ||| (o[0] == 192 && o[1] == 168)
    ||| (o[0] == 169 && o[1] == 254)
    ||| (o[0] == 0 && o[1] == 0 && o[2] == 0 && o[3] == 0)
    ||| (o[0] == 255 && o[1] == 255 && o[2] == 255 && o[3] == 255)
}

/// An IPv6 address (its eight segments) that a fetch may not reach:
/// loopback `::1` or unspecified `::`.
pub open spec fn v6_refused(s: Seq<u16>) -> bool {
    (forall|i: int| 0 <= i < 7 ==> s[i] == 0) && (s[7] == 0 || s[7] == 1)
}

/// A resolved address: four octets for IPv4, eight segments for IPv6.
pub enum Ip {
    V4([u8; 4]),
    V6([u16; 8]),
}

/// Whether an address is one a fetch may not reach.
pub open spec fn ip_refused_spec(ip: Ip) -> bool {
    match ip {
        Ip::V4(o) => v4_refused(o@),
        Ip::V6(s) => v6_refused(s@),
    }
}

/// The answer to a fetch refused before any request: a host that resolves
/// to no address, or to one off limits, or a URL that names none.
pub const FETCH_REFUSED: &'static str = "这个地址解析不了，或指向内网/回环地址，已拒绝抓取";

/// How a fetch of `url` starts: the URL trimmed; refused with a note when
/// it is not http(s), or when `fetch_target` refuses it; else the trimmed
/// URL with the host and port to resolve.
pub fn fetch_start(url: &str) -> (r: Result<(String, String, u16), String>)
    ensures
        ({
            let t = trim(url@);
            if scheme(t) is None {
                r matches Err(m) && m@ == "只支持 http/https 网址"@
            } else {
                match fetch_target_spec(t) {
                    None => r matches Err(m) && m@ == FETCH_REFUSED@,
                    Some((h, p)) => r matches Ok((u, host, port)) && u@ == t && host@ == h && port == p,
                }
            }
        }),
{
    proof {
        reveal_strlit("http://");
        reveal_strlit("https://");
    }
    let t = string_of(&trim_chars(&chars_of(url)));
    let c = chars_of(t.as_str());
    if !has_prefix(&c, &chars_of("http://")) && !has_prefix(&c, &chars_of("https://")) {
        return Err("只支持 http/https 网址".to_owned());
    }
    match fetch_target(t.as_str()) {
        FetchTarget::Refused => Err(FETCH_REFUSED.to_owned()),
        FetchTarget::Resolve { host, port } => Ok((t, host, port)),
    }
}

/// Whether a fetch to `addrs`, the addresses its host resolved to, is
/// refused: when any of them is off limits (an unresolvable host is
/// refused before this).
pub fn ip_refused(addrs: &Vec<Ip>) -> (b: bool)
    ensures
        b == exists|i: int| 0 <= i < addrs@.len() && ip_refused_spec(#[trigger] addrs@[i]),
{
    let mut i: usize = 0;
    while i < addrs.len()
        invariant
            i <= addrs@.len(),
            forall|j: int| 0 <= j < i ==> !ip_refused_spec(#[trigger] addrs@[j]),
        decreases addrs@.len() - i,
    {
        let bad = match &addrs[i] {
            Ip::V4(o) => {
                o[0] == 127 || o[0] == 10 || (o[0] == 172 && 16 <= o[1] && o[1] <= 31) || (o[0] == 192 && o[1]
                    == 168) || (o[0] == 169 && o[1] == 254) || (o[0] == 0 && o[1] == 0 && o[2] == 0 && o[3] == 0)
                    || (o[0] == 255 && o[1] == 255 && o[2] == 255 && o[3] == 255)
            },
            Ip::V6(s) => {
                let mut z = true;
                let mut k: usize = 0;
                while k < 7
                    invariant
                        k <= 7,
                        s@.len() == 8,
                        z == (forall|q: int| 0 <= q < k ==> s@[q] == 0),
                    decreases 7 - k,
                {
                    if s[k] != 0 {
                        z = false;
                    }
                    k = k + 1;
                }
                z && (s[7] == 0 || s[7] == 1)
            },
        };
        if bad {
            assert(ip_refused_spec(addrs@[i as int]));
            return true;
        }
        i = i + 1;
    }
    false
}

/// The search page URL for a query (trimmed; none when empty) and a result
/// count brought into 1..=10.
pub open spec fn search_url_spec(query: Seq<char>, count: nat) -> Option<Seq<char>> {
    let q = trim(query);
    if q.len() == 0 {
        None
    } else {
        let c = if count < 1 {
            1
        } else if count > 10 {
            10
        } else {
            count
        };
        Some("https://cn.bing.com/search?q="@ + pct(encode_utf8(q)) + "&count="@ + decimal(c))
    }
}

/// The search page URL (see `search_url_spec`).
pub fn search_url(query: &str, count: usize) -> (r: Option<String>)
    ensures
        match search_url_spec(query@, count as nat) {
            Some(u) => r matches Some(s) && s@ == u,
            None => r is None,
        },
{
    let q = string_of(&trim_chars(&chars_of(query)));
    if q.as_str().is_empty() {
        return None;
    }
    let c: u64 = if count < 1 {
        1
    } else if count > 10 {
        10
    } else {
        count as u64
    };
    let mut v = chars_of("https://cn.bing.com/search?q=");
    let enc = percent_encode(q.as_str());
    push_str(&mut v, enc.as_str());
    push_str(&mut v, "&count=");
    push_chars(&mut v, &decimal_of(c));
    Some(string_of(&v))
}

/// A content type that is not a web page: PDF, image, audio or video.
pub open spec fn not_a_page(ctype: Seq<char>) -> bool {
    find_sub(ctype, "application/pdf"@) is Some || find_sub(ctype, "image/"@) is Some || find_sub(ctype, "audio/"@)
        is Some || find_sub(ctype, "video/"@) is Some
}

/// Whether a fetched content type is not a web page.
pub fn is_not_a_page(ctype: &str) -> (b: bool)
    ensures
        b == not_a_page(ctype@),
{
    let c = chars_of(ctype);
    find_chars(&c, &chars_of("application/pdf")).is_some() || find_chars(&c, &chars_of("image/")).is_some()
        || find_chars(&c, &chars_of("audio/")).is_some() || find_chars(&c, &chars_of("video/")).is_some()
}


// ------------------------------------------------------ regular expressions

/// The texts of the successive non-overlapping matches of `pattern` in
/// `text` (`Regex::find_iter`); none when the pattern does not compile.
pub uninterp spec fn regex_matches(pattern: Seq<char>, text: Seq<char>) -> Seq<Seq<char>>;

/// The groups of the first match of `pattern` in `text` (`Regex::captures`):
/// group 0 is the whole match, a group that took no part is none; none when
/// there is no match or the pattern does not compile.
pub uninterp spec fn regex_captures(pattern: Seq<char>, text: Seq<char>) -> Option<Seq<Option<Seq<char>>>>;

/// `text` with every match of `pattern` replaced by `rep`
/// (`Regex::replace_all`); `text` itself when the pattern does not compile.
pub uninterp spec fn regex_replaced(pattern: Seq<char>, text: Seq<char>, rep: Seq<char>) -> Seq<char>;

/// `regex::Regex::find_iter`: the matched texts. Only their naming is
/// claimed (a function of the pattern and the text); the matching itself is
/// the regex crate's.
#[verifier::external_body]
fn find_all(pattern: &str, text: &str) -> (r: Vec<String>)
    ensures
        string_views(r@) == regex_matches(pattern@, text@),
{
    match regex::Regex::new(pattern) {
        Ok(re) => re.find_iter(text).map(|m| m.as_str().to_string()).collect(),
        Err(_) => Vec::new(),
    }
}

/// The groups of a match as character sequences.
pub open spec fn groups_view(g: Option<Vec<Option<String>>>) -> Option<Seq<Option<Seq<char>>>> {
    match g {
        Some(v) => Some(group_views(v@)),
        None => None,
    }
}

pub open spec fn group_views(v: Seq<Option<String>>) -> Seq<Option<Seq<char>>> {
    v.map_values(
        |o: Option<String>|
            match o {
                Some(s) => Some(s@),
                None => None,
            },
    )
}

/// `regex::Regex::captures`: the groups of the first match. Only their
/// naming is claimed.
#[verifier::external_body]
fn captures(pattern: &str, text: &str) -> (r: Option<Vec<Option<String>>>)
    ensures
        groups_view(r) == regex_captures(pattern@, text@),
{
    match regex::Regex::new(pattern) {
        Ok(re) => re.captures(text).map(|c| c.iter().map(|g| g.map(|m| m.as_str().to_string())).collect()),
        Err(_) => None,
    }
}

/// `regex::Regex::replace_all`. Only the naming of its result is claimed.
#[verifier::external_body]
fn replace_all(pattern: &str, text: &str, rep: &str) -> (r: String)
    ensures
        r@ == regex_replaced(pattern@, text@, rep@),
{
    match regex::Regex::new(pattern) {
        Ok(re) => re.replace_all(text, rep).into_owned(),
        Err(_) => text.to_string(),
    }
}

// -------------------------------------------------------------- search page

/// One result block of the search page.
pub const BLOCK_RE: &'static str = "(?s)<li class=\"b_algo\".*?</li>";

/// The title link of a block, looked for under its `<h2>` first (the first
/// link of a block is often the site name).
pub const TITLE_RE: &'static str = "(?s)<h2[^>]*>.*?<a[^>]*href=\"([^\"]*)\"[^>]*>(.*?)</a>";

/// Any link of a block.
pub const ANCHOR_RE: &'static str = "(?s)<a[^>]*href=\"([^\"]*)\"[^>]*>(.*?)</a>";

/// The summary paragraph of a block.
pub const SNIP_RE: &'static str = "(?s)<p[^>]*>(.*?)</p>";

/// A URL written out inside a title.
pub const URLISH_RE: &'static str = "https?://\\S+";

/// Group `i` of a match, empty when it took no part.
pub open spec fn group(g: Seq<Option<Seq<char>>>, i: int) -> Seq<char> {
    if 0 <= i < g.len() {
        match g[i] {
            Some(s) => s,
            None => Seq::empty(),
        }
    } else {
        Seq::empty()
    }
}

/// Text of an HTML fragment: tags removed, then entities decoded.
pub open spec fn stripped(s: Seq<char>) -> Seq<char> {
    unescape_from(untagged_from(s, 0), 0)
}

/// A character trimmed from the ends of a title: `›`, `·` or white space.
pub open spec fn title_edge(c: char) -> bool {
    c == '›' || c == '·' || is_ws(c)
}

pub open spec fn strip_edges_front(s: Seq<char>) -> Seq<char>
    decreases s.len(),
{
    if s.len() > 0 && title_edge(s[0]) {
        strip_edges_front(s.drop_first())
    } else {
        s
    }
}

pub open spec fn strip_edges_back(s: Seq<char>) -> Seq<char>
    decreases s.len(),
{
    if s.len() > 0 && title_edge(s.last()) {
        strip_edges_back(s.drop_last())
    } else {
        s
    }
}

/// `s` without the title edge characters at either end.
pub open spec fn strip_edges(s: Seq<char>) -> Seq<char> {
    strip_edges_back(strip_edges_front(s))
}

/// A search result: title, URL, summary.
pub type ItemView = (Seq<char>, Seq<char>, Seq<char>);

/// The result a block gives: the title link (under `<h2>`, else any link)
/// with URLs cut out of its text and the text stripped and trimmed, and the
/// first paragraph as summary; none without a link, or with neither a
/// title nor a URL.
pub open spec fn block_item(b: Seq<char>) -> Option<ItemView> {
    let caps = match regex_captures(TITLE_RE@, b) {
        Some(g) => Some(g),
        None => regex_captures(ANCHOR_RE@, b),
    };
    match caps {
        None => None,
        Some(g) => item_of_groups(
            group(g, 1),
            regex_replaced(URLISH_RE@, group(g, 2), ""@),
            match regex_captures(SNIP_RE@, b) {
                Some(s) => Some(group(s, 1)),
                None => None,
            },
        ),
    }
}

/// The result made of a block's captured pieces: the link, the link text
/// with URLs cut out, and the first paragraph if there is one. The title is
/// the text stripped of tags and entities, trimmed, and without leading or
/// trailing `›`, `·` and whitespace; the summary is the paragraph stripped
/// and trimmed; none with neither a title nor a link.
pub open spec fn item_of_groups(link: Seq<char>, raw_title: Seq<char>, para: Option<Seq<char>>) -> Option<
    ItemView,
> {
    let title = strip_edges(trim(stripped(raw_title)));
    let snippet = match para {
        Some(p) => trim(stripped(p)),
        None => Seq::empty(),
    };
    if title.len() == 0 && link.len() == 0 {
        None
    } else {
        Some((title, link, snippet))
    }
}

/// The results of the blocks `bs`, in order.
pub open spec fn block_items(bs: Seq<Seq<char>>) -> Seq<ItemView>
    decreases bs.len(),
{
    if bs.len() == 0 {
        Seq::empty()
    } else {
        let r = block_items(bs.drop_last());
        match block_item(bs.last()) {
            Some(x) => r.push(x),
            None => r,
        }
    }
}

/// The first `count` results of a search page (a zero count still keeps a
/// first result: the count is checked after each one).
pub open spec fn search_items_spec(page: Seq<char>, count: nat) -> Seq<ItemView> {
    let all = block_items(regex_matches(BLOCK_RE@, page));
    if count == 0 {
        if all.len() == 0 {
            all
        } else {
            all.take(1)
        }
    } else if all.len() <= count {
        all
    } else {
        all.take(count as int)
    }
}

/// One search result.
pub struct SearchItem {
    pub title: String,
    pub url: String,
    pub snippet: String,
}

pub open spec fn item_view(i: SearchItem) -> ItemView {
    (i.title@, i.url@, i.snippet@)
}

pub open spec fn item_views(v: Seq<SearchItem>) -> Seq<ItemView> {
    v.map_values(|i: SearchItem| item_view(i))
}

fn group_of(g: &Vec<Option<String>>, i: usize) -> (s: String)
    ensures
        s@ == group(group_views(g@), i as int),
{
    if i < g.len() {
        match &g[i] {
            Some(x) => x.as_str().to_owned(),
            None => String::new(),
        }
    } else {
        String::new()
    }
}

fn strip_edges_of(v: &[char]) -> (r: Vec<char>)
    ensures
        r@ == strip_edges(v@),
{
    let mut a: usize = 0;
    assert(v@.skip(0) =~= v@);
    while a < v.len() && (v[a] == '›' || v[a] == '·' || is_whitespace(v[a]))
        invariant
            a <= v@.len(),
            strip_edges_front(v@) == strip_edges_front(v@.skip(a as int)),
        decreases v@.len() - a,
    {
        assert(v@.skip(a as int).drop_first() =~= v@.skip(a + 1));
        a = a + 1;
    }
    let front = slice_chars(v, a, v.len());
    assert(front@ =~= v@.skip(a as int));
    let mut b: usize = front.len();
    assert(front@.take(b as int) =~= front@);
    while b > 0 && (front[b - 1] == '›' || front[b - 1] == '·' || is_whitespace(front[b - 1]))
        invariant
            b <= front@.len(),
            strip_edges_back(front@) == strip_edges_back(front@.take(b as int)),
        decreases b,
    {
        assert(front@.take(b as int).drop_last() =~= front@.take(b - 1));
        b = b - 1;
    }
    let r = slice_chars(&front, 0, b);
    assert(r@ =~= front@.take(b as int));
    r
}

fn stripped_of(s: &str) -> (r: Vec<char>)
    ensures
        r@ == stripped(s@),
{
    chars_of(strip_tags(s).as_str())
}

/// The result made of a block's captured pieces (see `item_of_groups`).
pub fn item_from_groups(link: &str, raw_title: &str, para: Option<&str>) -> (r: Option<SearchItem>)
    ensures
        match item_of_groups(
            link@,
            raw_title@,
            match para {
                Some(p) => Some(p@),
                None => None,
            },
        ) {
            Some(x) => r matches Some(i) && item_view(i) == x,
            None => r is None,
        },
{
    let s = stripped_of(raw_title);
    let title = string_of(&strip_edges_of(&trim_chars(&s)));
    let snippet = match para {
        Some(p) => string_of(&trim_chars(&stripped_of(p))),
        None => String::new(),
    };
    if title.as_str().is_empty() && link.is_empty() {
        None
    } else {
        Some(SearchItem { title, url: link.to_owned(), snippet })
    }
}

/// The result of one block (see `block_item`).
pub fn block_result(b: &str) -> (r: Option<SearchItem>)
    ensures
        match block_item(b@) {
            Some(x) => r matches Some(i) && item_view(i) == x,
            None => r is None,
        },
{
    let caps = match captures(TITLE_RE, b) {
        Some(g) => Some(g),
        None => captures(ANCHOR_RE, b),
    };
    let g = match caps {
        Some(g) => g,
        None => return None,
    };
    let link = group_of(&g, 1);
    let text = group_of(&g, 2);
    let raw = replace_all(URLISH_RE, text.as_str(), "");
    match captures(SNIP_RE, b) {
        Some(sg) => {
            let p = group_of(&sg, 1);
            item_from_groups(link.as_str(), raw.as_str(), Some(p.as_str()))
        },
        None => item_from_groups(link.as_str(), raw.as_str(), None),
    }
}

proof fn lemma_block_items_prefix(bs: Seq<Seq<char>>, k: int)
    requires
        0 <= k <= bs.len(),
    ensures
        block_items(bs.take(k)).len() <= block_items(bs).len(),
        block_items(bs.take(k)) == block_items(bs).take(block_items(bs.take(k)).len() as int),
    decreases bs.len() - k,
{
    if k < bs.len() {
        lemma_block_items_prefix(bs.drop_last(), k);
        assert(bs.drop_last().take(k) =~= bs.take(k));
        let a = block_items(bs.take(k));
        let b = block_items(bs.drop_last());
        if let Some(x) = block_item(bs.last()) {
            assert(b.push(x).take(a.len() as int) =~= b.take(a.len() as int));
        }
    } else {
        assert(bs.take(k) =~= bs);
        assert(block_items(bs).take(block_items(bs).len() as int) =~= block_items(bs));
    }
}

/// The first `count` results of a search page (see `search_items_spec`).
pub fn search_items(page: &str, count: usize) -> (r: Vec<SearchItem>)
    ensures
        item_views(r@) == search_items_spec(page@, count as nat),
{
    let blocks = find_all(BLOCK_RE, page);
    let ghost bs = string_views(blocks@);
    let ghost all = block_items(bs);
    let mut items: Vec<SearchItem> = Vec::new();
    let mut i: usize = 0;
    assert(bs.take(0) =~= Seq::<Seq<char>>::empty());
    assert(item_views(items@) =~= Seq::<ItemView>::empty());
    while i < blocks.len()
        invariant
            i <= blocks@.len(),
            bs == string_views(blocks@),
            all == block_items(bs),
            bs == regex_matches(BLOCK_RE@, page@),
            item_views(items@) == block_items(bs.take(i as int)),
            count > 0 ==> items@.len() < count,
            count == 0 ==> items@.len() == 0,
        decreases blocks@.len() - i,
    {
        assert(bs.take(i + 1).drop_last() =~= bs.take(i as int));
        assert(bs.take(i + 1).last() == blocks@[i as int]@);
        match block_result(blocks[i].as_str()) {
            Some(item) => {
                let ghost before = item_views(items@);
                items.push(item);
                assert(item_views(items@) =~= before.push(item_view(item)));
                if items.len() >= count {
                    proof {
                        lemma_block_items_prefix(bs, i + 1);
                        if count == 0 {
                            assert(all.take(1) =~= block_items(bs.take(i + 1)));
                        } else if all.len() > count {
                            assert(all.take(count as int) =~= block_items(bs.take(i + 1)));
                        } else {
                            assert(all =~= block_items(bs.take(i + 1)));
                        }
                    }
                    return items;
                }
            },
            None => {},
        }
        i = i + 1;
    }
    assert(bs.take(blocks@.len() as int) =~= bs);
    items
}

/// The JSON answer of a search (`{"query": ..., "results": [...]}` as
/// `serde_json` writes it).
pub uninterp spec fn search_json_text(query: Seq<char>, items: Seq<ItemView>) -> Seq<char>;

/// Writes the JSON answer with `serde_json`. Only the naming of the text is
/// claimed: a function of the query and the results.
#[verifier::external_body]
fn search_json(query: &str, items: &Vec<SearchItem>) -> (r: String)
    ensures
        r@ == search_json_text(query@, item_views(items@)),
{
    let mut results = Vec::new();
    for i in items {
        let mut m = JsonMap::new();
        m.insert("title".to_string(), JsonValue::String(i.title.clone()));
        m.insert("url".to_string(), JsonValue::String(i.url.clone()));
        m.insert("snippet".to_string(), JsonValue::String(i.snippet.clone()));
        results.push(JsonValue::Object(m));
    }
    let mut top = JsonMap::new();
    top.insert("query".to_string(), JsonValue::String(query.to_string()));
    top.insert("results".to_string(), JsonValue::Array(results));
    JsonValue::Object(top).to_string()
}

/// The number of results asked of a search, brought into 1..=10.
pub open spec fn result_count(count: nat) -> nat {
    if count < 1 {
        1
    } else if count > 10 {
        10
    } else {
        count
    }
}

/// The answer to a search for `query` given the search page's status and
/// text: an empty query and a failed page are said so; else the results as
/// JSON, or a note that there are none.
pub open spec fn search_reply_spec(query: Seq<char>, count: nat, status: u16, page: Seq<char>) -> Seq<char> {
    let q = trim(query);
    if q.len() == 0 {
        "搜索词为空"@
    } else if status != 200 {
        "搜索失败：HTTP "@ + decimal(status as nat)
    } else {
        let items = search_items_spec(page, result_count(count));
        if items.len() == 0 {
            "没有搜到结果（可能是搜索页结构变了，或被限流）"@
        } else {
            search_json_text(q, items)
        }
    }
}

/// The answer to a search (see `search_reply_spec`).
pub fn search_reply(query: &str, count: usize, status: u16, page: &str) -> (r: String)
    ensures
        r@ == search_reply_spec(query@, count as nat, status, page@),
{
    let q = string_of(&trim_chars(&chars_of(query)));
    if q.as_str().is_empty() {
        return "搜索词为空".to_owned();
    }
    if status != 200 {
        let mut v = chars_of("搜索失败：HTTP ");
        push_chars(&mut v, &decimal_of(status as u64));
        return string_of(&v);
    }
    let c: usize = if count < 1 {
        1
    } else if count > 10 {
        10
    } else {
        count
    };
    let items = search_items(page, c);
    if items.len() == 0 {
        return "没有搜到结果（可能是搜索页结构变了，或被限流）".to_owned();
    }
    search_json(q.as_str(), &items)
}

// --------------------------------------------------------------- page text

/// Script, style and noscript blocks, any letter case.
pub const SCRIPT_RE: &'static str = "(?is)<script[^>]*>.*?</script>";
pub const STYLE_RE: &'static str = "(?is)<style[^>]*>.*?</style>";
pub const NOSCRIPT_RE: &'static str = "(?is)<noscript[^>]*>.*?</noscript>";

/// Any tag.
pub const TAG_RE: &'static str = "(?is)<[^>]+>";

/// A run of white space.
pub const WS_RE: &'static str = "\\s+";

/// The text of a fetched page: script, style and noscript blocks and then
/// all tags replaced by a space, white-space runs made one space, what
/// remains stripped of tags and entities, trimmed.
pub open spec fn page_text_spec(page: Seq<char>) -> Seq<char> {
    let a = regex_replaced(SCRIPT_RE@, page, " "@);
    let b = regex_replaced(STYLE_RE@, a, " "@);
    let c = regex_replaced(NOSCRIPT_RE@, b, " "@);
    let d = regex_replaced(TAG_RE@, c, " "@);
    let e = regex_replaced(WS_RE@, d, " "@);
    trim(stripped(e))
}

/// The answer to a fetch of a page: its text, capped, or a note that it
/// has none.
pub open spec fn page_reply_spec(page: Seq<char>) -> Seq<char> {
    let t = page_text_spec(page);
    if t.len() == 0 {
        "(页面没有正文内容)"@
    } else {
        capped_spec(t)
    }
}

/// The text of a fetched page (see `page_text_spec`).
pub fn page_text(page: &str) -> (r: String)
    ensures
        r@ == page_text_spec(page@),
{
    let a = replace_all(SCRIPT_RE, page, " ");
    let b = replace_all(STYLE_RE, a.as_str(), " ");
    let c = replace_all(NOSCRIPT_RE, b.as_str(), " ");
    let d = replace_all(TAG_RE, c.as_str(), " ");
    let e = replace_all(WS_RE, d.as_str(), " ");
    string_of(&trim_chars(&stripped_of(e.as_str())))
}

/// The answer to a fetch once the page is read (see `page_reply_spec`).
pub fn page_reply(page: &str) -> (r: String)
    ensures
        r@ == page_reply_spec(page@),
{
    let t = page_text(page);
    if t.as_str().is_empty() {
        "(页面没有正文内容)".to_owned()
    } else {
        cap_page_text(t.as_str())
    }
}

/// The answer to a fetch that stops at the response head: a status other
/// than 200, or a content type that is no web page; none when the page is
/// to be read.
pub fn fetch_status_reply(status: u16, ctype: &str) -> (r: Option<String>)
    ensures
        status != 200 ==> (r matches Some(s) && s@ == "抓取失败：HTTP "@ + decimal(status as nat)),
        status == 200 && not_a_page(ctype@) ==> (r matches Some(s) && s@ == "这个地址不是网页（"@ + ctype@
            + "），读不了。"@),
        status == 200 && !not_a_page(ctype@) ==> r is None,
{
    if status != 200 {
        let mut v = chars_of("抓取失败：HTTP ");
        push_chars(&mut v, &decimal_of(status as u64));
        return Some(string_of(&v));
    }
    if is_not_a_page(ctype) {
        let mut v = chars_of("这个地址不是网页（");
        push_str(&mut v, ctype);
        push_str(&mut v, "），读不了。");
        return Some(string_of(&v));
    }
    None
}

} // verus!
