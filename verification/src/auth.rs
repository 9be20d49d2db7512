//! Authentication state: hex keys, the login back-off, token revocation and
//! the random secrets handed out at start-up.
use vstd::prelude::*;
use vstd::string::StringSliceAdditionalSpecFns;
use std::time::Instant;
use crate::table::Table;
use crate::text::{chars_of, push_str, string_of, trim, trim_chars};
use vstd::utf8::{encode_utf8, is_ascii_chars, is_ascii_chars_encode_utf8};


verus! {

/// Value of one ASCII hex digit (either case).
pub open spec fn hex_digit(b: u8) -> Option<u8> {
    if 0x30 <= b <= 0x39 {
        Some((b - 0x30) as u8)
    } else if 0x61 <= b <= 0x66 {
        Some((b - 0x61 + 10) as u8)
    } else if 0x41 <= b <= 0x46 {
        Some((b - 0x41 + 10) as u8)
    } else {
        None
    }
}

/// The byte that the hex pair at `2 * i` of `src` stands for.
pub open spec fn hex_pair(src: Seq<u8>, i: int) -> u8 {
    (hex_digit(src[2 * i]).unwrap() * 16 + hex_digit(src[2 * i + 1]).unwrap()) as u8
}

/// Both digits of pair `i` are hex digits.
pub open spec fn pair_ok(src: Seq<u8>, i: int) -> bool {
    hex_digit(src[2 * i]) is Some && hex_digit(src[2 * i + 1]) is Some
}

/// Decoding stopped at pair `k`, the first one with a bad digit: the pairs
/// before it are written into `new`, the rest of `old` is unchanged.
pub open spec fn stopped_at(src: Seq<u8>, old: Seq<u8>, new: Seq<u8>, k: int) -> bool {
    &&& 0 <= k < old.len()
    &&& !pair_ok(src, k)
    &&& forall|i: int| 0 <= i < k ==> pair_ok(src, i)
    &&& forall|i: int| 0 <= i < k ==> new[i] == hex_pair(src, i)
    &&& forall|i: int| k <= i < old.len() ==> new[i] == old[i]
}

pub fn hex_val(b: u8) -> (r: Result<u8, ()>)
    ensures
        r matches Ok(v) ==> hex_digit(b) == Some(v),
        r is Err ==> hex_digit(b) is None,
        r matches Ok(v) ==> v < 16,
{
    if 0x30 <= b && b <= 0x39 {
        Ok(b - 0x30)
    } else if 0x61 <= b && b <= 0x66 {
        Ok(b - 0x61 + 10)
    } else if 0x41 <= b && b <= 0x46 {
        Ok(b - 0x41 + 10)
    } else {
        Err(())
    }
}

/// Decodes the hex string `src` into `dst`, which must be exactly half its
/// length in bytes. On a bad digit the pairs before it are already written and
/// the rest of `dst` is unchanged.
pub fn decode_to_slice(src: &str, dst: &mut [u8]) -> (r: Result<(), ()>)
    ensures
        final(dst)@.len() == old(dst)@.len(),
        r is Ok <==> src.spec_bytes().len() == 2 * old(dst)@.len()
            && forall|i: int| 0 <= i < old(dst)@.len() ==> pair_ok(src.spec_bytes(), i),
        r is Ok ==> forall|i: int|
            0 <= i < old(dst)@.len() ==> final(dst)@[i] == hex_pair(src.spec_bytes(), i),
        src.spec_bytes().len() != 2 * old(dst)@.len() ==> final(dst)@ == old(dst)@,
        r is Err && src.spec_bytes().len() == 2 * old(dst)@.len() ==> exists|k: int|
            stopped_at(src.spec_bytes(), old(dst)@, final(dst)@, k),
{
    let n = dst.len();
    let bytes = src.as_bytes();
    if bytes.len() % 2 != 0 || bytes.len() / 2 != n {
        return Err(());
    }
    let ghost b = src.spec_bytes();
    let mut i: usize = 0;
    while i < n
        invariant
            n == old(dst)@.len(),
            dst@.len() == n,
            bytes@ == b,
            b == src.spec_bytes(),
            b.len() == 2 * n,
            bytes@.len() == bytes.len(),
            i <= n,
            forall|j: int| 0 <= j < i ==> pair_ok(b, j),
            forall|j: int| 0 <= j < i ==> dst@[j] == hex_pair(b, j),
            forall|j: int| i <= j < n ==> dst@[j] == old(dst)@[j],
        decreases n - i,
    {
        let hi = match hex_val(bytes[i * 2]) {
            Ok(v) => v,
            Err(()) => {
                assert(stopped_at(b, old(dst)@, dst@, i as int));
                return Err(());
            },
        };
        let lo = match hex_val(bytes[i * 2 + 1]) {
            Ok(v) => v,
            Err(()) => {
                assert(stopped_at(b, old(dst)@, dst@, i as int));
                return Err(());
            },
        };
        assert((hi << 4u8) | lo == hi * 16 + lo) by (bit_vector)
            requires
                hi < 16,
                lo < 16,
        ;
        dst[i] = (hi << 4u8) | lo;
        i = i + 1;
    }
    Ok(())
}


/// Lower-case hex digit for a value below 16.
pub open spec fn hex_char(n: u8) -> char {
    if n < 10 {
        (48 + n) as char
    } else {
        (87 + n) as char
    }
}

/// Two lower-case hex digits per byte (`format!("{b:02x}")` for each byte).
pub open spec fn hex_text(s: Seq<u8>) -> Seq<char>
    decreases s.len(),
{
    if s.len() == 0 {
        Seq::empty()
    } else {
        hex_text(s.drop_last()) + seq![hex_char(s.last() / 16), hex_char(s.last() % 16)]
    }
}

pub proof fn lemma_hex_text(s: Seq<u8>)
    ensures
        hex_text(s).len() == 2 * s.len(),
        forall|i: int| 0 <= i < s.len() ==> hex_text(s)[2 * i] == hex_char(s[i] / 16),
        forall|i: int| 0 <= i < s.len() ==> hex_text(s)[2 * i + 1] == hex_char(s[i] % 16),
        is_ascii_chars(hex_text(s)),
    decreases s.len(),
{
    if s.len() > 0 {
        let p = s.drop_last();
        lemma_hex_text(p);
        let t = hex_text(s);
        assert forall|i: int| 0 <= i < s.len() implies t[2 * i] == hex_char(s[i] / 16) && t[2 * i + 1]
            == hex_char(s[i] % 16) by {
            if i < p.len() {
                assert(p[i] == s[i]);
            }
        }
    }
}

fn hex_digit_char(n: u8) -> (c: char)
    requires
        n < 16,
    ensures
        c == hex_char(n),
{
    if n < 10 {
        (0x30u8 + n) as char
    } else {
        (0x57u8 + n) as char
    }
}

/// Lower-case hex text of `bytes`, two digits per byte.
pub fn hex_encode(bytes: &[u8]) -> (s: String)
    ensures
        s@ == hex_text(bytes@),
{
    let mut v: Vec<char> = Vec::new();
    let mut i: usize = 0;
    while i < bytes.len()
        invariant
            i <= bytes@.len(),
            v@ == hex_text(bytes@.take(i as int)),
        decreases bytes@.len() - i,
    {
        let b = bytes[i];
        v.push(hex_digit_char(b / 16));
        v.push(hex_digit_char(b % 16));
        assert(bytes@.take(i + 1).drop_last() =~= bytes@.take(i as int));
        i = i + 1;
        assert(v@ =~= hex_text(bytes@.take(i as int)));
    }
    assert(bytes@.take(bytes@.len() as int) =~= bytes@);
    string_of(&v)
}

/// Upper-case hex digit for a value below 16.
pub open spec fn hex_char_upper(n: u8) -> char {
    if n < 10 {
        (48 + n) as char
    } else {
        (55 + n) as char
    }
}

/// Two upper-case hex digits per byte (`format!("{b:02X}")` for each byte).
pub open spec fn hex_text_upper(s: Seq<u8>) -> Seq<char>
    decreases s.len(),
{
    if s.len() == 0 {
        Seq::empty()
    } else {
        hex_text_upper(s.drop_last()) + seq![hex_char_upper(s.last() / 16), hex_char_upper(s.last() % 16)]
    }
}

proof fn lemma_hex_text_upper(s: Seq<u8>)
    ensures
        hex_text_upper(s).len() == 2 * s.len(),
        forall|i: int| 0 <= i < s.len() ==> hex_text_upper(s)[2 * i] == hex_char_upper(s[i] / 16),
        forall|i: int| 0 <= i < s.len() ==> hex_text_upper(s)[2 * i + 1] == hex_char_upper(s[i] % 16),
        is_ascii_chars(hex_text_upper(s)),
    decreases s.len(),
{
    if s.len() > 0 {
        let p = s.drop_last();
        lemma_hex_text_upper(p);
        let t = hex_text_upper(s);
        assert forall|i: int| 0 <= i < s.len() implies t[2 * i] == hex_char_upper(s[i] / 16) && t[2 * i
            + 1] == hex_char_upper(s[i] % 16) by {
            if i < p.len() {
                assert(p[i] == s[i]);
            }
        }
    }
}

/// The bytes that hex text stands for, one per pair of digits.
pub open spec fn hex_bytes(src: Seq<u8>) -> Seq<u8> {
    Seq::new((src.len() / 2) as nat, |i: int| hex_pair(src, i))
}

/// Hex text of `s`, in upper or in lower case.
pub open spec fn hex_text_in(s: Seq<u8>, upper: bool) -> Seq<char> {
    if upper {
        hex_text_upper(s)
    } else {
        hex_text(s)
    }
}

/// Hex text of some bytes, in lower or in upper case, decodes to those bytes:
/// it has two digits per byte, every pair is a pair of hex digits (so
/// `decode_to_slice` into a buffer of that many bytes succeeds), and the
/// pairs stand for the bytes, in order.
pub proof fn law_hex_roundtrip(s: Seq<u8>, upper: bool)
    ensures
        encode_utf8(hex_text_in(s, upper)).len() == 2 * s.len(),
        forall|i: int| 0 <= i < s.len() ==> #[trigger] pair_ok(encode_utf8(hex_text_in(s, upper)), i),
        hex_bytes(encode_utf8(hex_text_in(s, upper))) == s,
{
    lemma_hex_text(s);
    lemma_hex_text_upper(s);
    let t = hex_text_in(s, upper);
    is_ascii_chars_encode_utf8(t);
    let b = encode_utf8(t);
    assert forall|i: int| 0 <= i < s.len() implies pair_ok(b, i) && hex_pair(b, i) == s[i] by {
        assert(b[2 * i] == t[2 * i] as u8);
        assert(b[2 * i + 1] == t[2 * i + 1] as u8);
        let hi = s[i] / 16;
        let lo = s[i] % 16;
        assert(hex_digit(b[2 * i]) == Some(hi as u8));
        assert(hex_digit(b[2 * i + 1]) == Some(lo as u8));
    }
    assert(hex_bytes(b) =~= s);
}

/// `decode_to_slice` undoes hex encoding: for a text that is the hex of
/// `s`, in either case, and a buffer of `s.len()` bytes, every clause of its
/// contract that decides success holds (the text is twice as long and all
/// its pairs are hex digits), so it returns `Ok`, and the byte it writes at
/// each place is the byte of `s` there.
pub proof fn law_decode_restores(src: &str, s: Seq<u8>, upper: bool)
    requires
        src@ == hex_text_in(s, upper),
    ensures
        src.spec_bytes().len() == 2 * s.len(),
        forall|i: int| 0 <= i < s.len() ==> pair_ok(src.spec_bytes(), i),
        forall|i: int| 0 <= i < s.len() ==> hex_pair(src.spec_bytes(), i) == s[i],
{
    law_hex_roundtrip(s, upper);
    let b = src.spec_bytes();
    assert(b == encode_utf8(hex_text_in(s, upper)));
    assert forall|i: int| 0 <= i < s.len() implies pair_ok(b, i) && hex_pair(b, i) == s[i] by {
        assert(pair_ok(b, i));
        assert(hex_bytes(b)[i] == hex_pair(b, i));
    }
}

// ------------------------------------------------------- random secrets

/// One random byte from the thread-local generator (`rand::thread_rng().gen()`);
/// nothing is claimed of its value.
#[verifier::external_body]
fn random_byte() -> u8 {
    rand::Rng::gen::<u8>(&mut rand::thread_rng())
}

/// A random index below `n` (`rand::Rng::gen_range(0..n)`, which panics on an
/// empty range).
#[verifier::external_body]
fn random_below(n: usize) -> (r: usize)
    requires
        n > 0,
    ensures
        r < n,
{
    rand::Rng::gen_range(&mut rand::thread_rng(), 0..n)
}

/// `n` random bytes.
pub fn random_bytes(n: usize) -> (v: Vec<u8>)
    ensures
        v@.len() == n,
{
    let mut v: Vec<u8> = Vec::new();
    let mut i: usize = 0;
    while i < n
        invariant
            i <= n,
            v@.len() == i,
        decreases n - i,
    {
        v.push(random_byte());
        i = i + 1;
    }
    v
}

/// A fresh JWT secret: 32 random bytes as 64 lower-case hex digits.
pub fn random_secret() -> (s: String)
    ensures
        exists|b: Seq<u8>| b.len() == 32 && s@ == hex_text(b),
{
    let b = random_bytes(32);
    hex_encode(&b)
}

/// A fresh JWT key: 32 random bytes, and the 64 hex digits stored for
/// them in the key file.
pub fn fresh_key() -> (r: (String, Vec<u8>))
    ensures
        r.1@.len() == 32,
        r.0@ == hex_text(r.1@),
{
    let b = random_bytes(32);
    (hex_encode(&b), b)
}

/// A JWT secret given in the environment, as bytes; refused when shorter
/// than 32 bytes.
pub fn env_secret(s: &str) -> (r: Option<Vec<u8>>)
    ensures
        r is Some <==> encode_utf8(s@).len() >= 32,
        r matches Some(k) ==> k@ == encode_utf8(s@),
{
    let b = s.as_bytes();
    if b.len() < 32 {
        return None;
    }
    let mut v: Vec<u8> = Vec::new();
    let mut i: usize = 0;
    while i < b.len()
        invariant
            i <= b@.len(),
            v@ == b@.take(i as int),
        decreases b@.len() - i,
    {
        v.push(b[i]);
        i = i + 1;
        assert(v@ =~= b@.take(i as int));
    }
    assert(b@.take(b@.len() as int) =~= b@);
    Some(v)
}

/// The note written to the one-time file that holds a generated initial
/// password.
pub open spec fn password_note(pwd: Seq<char>) -> Seq<char> {
    "初始管理员账号 admin 的随机密码："@ + pwd + "\n    此文件权限 0600，首次登录成功后会自动删除。\n"@
}

/// The text of the initial password file for password `pwd`.
pub fn initial_password_note(pwd: &str) -> (s: String)
    ensures
        s@ == password_note(pwd@),
{
    let mut v = chars_of("初始管理员账号 admin 的随机密码：");
    push_str(&mut v, pwd);
    push_str(&mut v, "\n    此文件权限 0600，首次登录成功后会自动删除。\n");
    string_of(&v)
}

/// Characters of generated passwords: letters and digits without the easily
/// confused 0, O, 1, l and I.
pub open spec fn password_charset() -> Seq<char> {
    "abcdefghjkmnpqrstuvwxyzABCDEFGHJKLMNPQRSTUVWXYZ23456789"@
}

/// A random initial password: 16 characters of the password charset.
pub fn random_password() -> (s: String)
    ensures
        s@.len() == 16,
        forall|i: int| 0 <= i < 16 ==> password_charset().contains(#[trigger] s@[i]),
{
    let cs = chars_of("abcdefghjkmnpqrstuvwxyzABCDEFGHJKLMNPQRSTUVWXYZ23456789");
    proof {
        reveal_strlit("abcdefghjkmnpqrstuvwxyzABCDEFGHJKLMNPQRSTUVWXYZ23456789");
    }
    let mut v: Vec<char> = Vec::new();
    let mut i: usize = 0;
    while i < 16
        invariant
            i <= 16,
            v@.len() == i,
            cs@ == password_charset(),
            cs@.len() == 55,
            forall|j: int| 0 <= j < i ==> password_charset().contains(#[trigger] v@[j]),
        decreases 16 - i,
    {
        let k = random_below(cs.len());
        let c = cs[k];
        assert(password_charset()[k as int] == c);
        v.push(c);
        i = i + 1;
    }
    string_of(&v)
}

/// Why the JWT key file could not be used.
#[derive(Clone, Copy, PartialEq, Eq, Debug, Structural)]
pub enum KeyFileError {
    /// The trimmed text is not 64 bytes long.
    BadLength,
    /// The text holds a character that is not a hex digit.
    BadHex,
}

/// The 32-byte JWT key stored as hex text in the key file (surrounding
/// whitespace ignored).
pub fn key_from_file_text(text: &str) -> (r: Result<Vec<u8>, KeyFileError>)
    ensures
        r matches Ok(k) ==> k@.len() == 32 && encode_utf8(trim(text@)).len() == 64
            && forall|i: int| 0 <= i < 32 ==> pair_ok(encode_utf8(trim(text@)), i)
                && #[trigger] k@[i] == hex_pair(encode_utf8(trim(text@)), i),
        r == Err::<Vec<u8>, KeyFileError>(KeyFileError::BadLength) <==> encode_utf8(trim(text@)).len() != 64,
        r == Err::<Vec<u8>, KeyFileError>(KeyFileError::BadHex) <==> encode_utf8(trim(text@)).len() == 64
            && exists|i: int| 0 <= i < 32 && !pair_ok(encode_utf8(trim(text@)), i),
{
    let t = trim_chars(&chars_of(text));
    let secret = string_of(&t);
    let sv = secret.as_str();
    if sv.as_bytes().len() != 64 {
        return Err(KeyFileError::BadLength);
    }
    let mut key: Vec<u8> = vec![0u8; 32];
    match decode_to_slice(sv, key.as_mut_slice()) {
        Ok(()) => Ok(key),
        Err(()) => Err(KeyFileError::BadHex),
    }
}

/// What argon2 answers when checking `password` against the PHC hash string
/// `hash`; a malformed hash string is answered with `false`.
pub uninterp spec fn argon2_accepts(password: Seq<char>, hash: Seq<char>) -> bool;

/// Checks `password` against the PHC string `hash` with argon2's default
/// parameters (`PasswordHash::new`, then `Argon2::verify_password`); a hash
/// string that does not parse gives `false`. The result is named, not stated.
#[verifier::external_body]
fn argon2_check(password: &str, hash: &str) -> (ok: bool)
    ensures
        ok == argon2_accepts(password@, hash@),
{
    match argon2::PasswordHash::new(hash) {
        Ok(parsed) => argon2::PasswordVerifier::verify_password(
            &argon2::Argon2::default(),
            password.as_bytes(),
            &parsed,
        ).is_ok(),
        Err(_) => false,
    }
}

/// Whether `password` matches the stored argon2 hash.
pub fn verify_password(password: &str, hash: &str) -> (ok: bool)
    ensures
        ok == argon2_accepts(password@, hash@),
{
    argon2_check(password, hash)
}

/// Hashes `password` with argon2's defaults and a fresh random salt
/// (`SaltString::generate` with `OsRng`, then `Argon2::hash_password`); returns
/// the PHC hash string and the salt, or `None` when hashing fails. The values
/// depend on the random salt; the one claim is the one argon2's documentation
/// shows: the password verifies against the hash made of it.
#[verifier::external_body]
fn argon2_hash(password: &str) -> (r: Option<(String, String)>)
    ensures
        r matches Some((h, _s)) ==> argon2_accepts(password@, h@),
{
    let salt = argon2::password_hash::SaltString::generate(&mut argon2::password_hash::rand_core::OsRng);
    match argon2::PasswordHasher::hash_password(&argon2::Argon2::default(), password.as_bytes(), &salt) {
        Ok(h) => Some((h.to_string(), salt.as_str().to_string())),
        Err(_) => None,
    }
}

/// Password, hash and salt of the first administrator.
pub struct AdminSeed {
    pub password: String,
    /// Whether the password was generated rather than given.
    pub generated: bool,
    pub hash: String,
    pub salt: String,
}

/// The first administrator's credentials: the given password, or a random
/// one when none is given, and its hash, against which that password
/// verifies; `None` when hashing fails.
pub fn admin_seed(given: Option<String>) -> (r: Option<AdminSeed>)
    ensures
        r matches Some(a) ==> match given {
            Some(p) => a.password@ == p@ && !a.generated,
            None => a.generated && a.password@.len() == 16 && forall|i: int|
                0 <= i < 16 ==> password_charset().contains(#[trigger] a.password@[i]),
        },
        r matches Some(a) ==> argon2_accepts(a.password@, a.hash@),
{
    let (password, generated) = match given {
        Some(p) => (p, false),
        None => (random_password(), true),
    };
    let hashed = argon2_hash(password.as_str());
    seed_of(password, generated, hashed)
}

/// The first administrator's credentials once the password is hashed:
/// none when hashing failed, else the password with the hash and salt that
/// hashing gave.
pub fn seed_of(password: String, generated: bool, hashed: Option<(String, String)>) -> (r: Option<AdminSeed>)
    ensures
        hashed is None ==> r is None,
        hashed matches Some((h, s)) ==> (r matches Some(a) && a.password@ == password@ && a.generated == generated
            && a.hash@ == h@ && a.salt@ == s@),
{
    match hashed {
        Some((hash, salt)) => Some(AdminSeed { password, generated, hash, salt }),
        None => None,
    }
}

// ---------------------------------------------------------------- tokens

/// Lifetime of an issued token: 24 hours.
pub const TOKEN_LIFETIME_SECS: i64 = 86400;

/// Expiry of a token issued at `now`.
pub open spec fn expiry_of(now: i64) -> usize {
    (now + TOKEN_LIFETIME_SECS) as usize
}

/// JWT payload.
pub struct Claims {
    /// User id.
    pub sub: i64,
    /// Expiry, Unix seconds.
    pub exp: usize,
    /// Unique id of this token, the key under which a logout revokes it.
    pub jti: String,
}

/// Claims for a token issued to `user_id` at `now`: valid for 24 hours, with
/// 16 random bytes as hex for its id.
pub fn claims_at(user_id: i64, now: i64) -> (c: Claims)
    requires
        now <= i64::MAX - TOKEN_LIFETIME_SECS,
    ensures
        c.sub == user_id,
        c.exp == expiry_of(now),
        exists|b: Seq<u8>| b.len() == 16 && c.jti@ == hex_text(b),
{
    let b = random_bytes(16);
    let jti = hex_encode(&b);
    Claims { sub: user_id, exp: (now + TOKEN_LIFETIME_SECS) as usize, jti }
}

/// Claims for a token issued to `user_id` now. A clock reading within a day
/// of the end of the 64-bit range is read as that bound.
pub fn new_claims(user_id: i64) -> (c: Claims)
    ensures
        c.sub == user_id,
        exists|now: i64| c.exp == expiry_of(now),
        exists|b: Seq<u8>| b.len() == 16 && c.jti@ == hex_text(b),
{
    let mut now = unix_now();
    if now > i64::MAX - TOKEN_LIFETIME_SECS {
        now = i64::MAX - TOKEN_LIFETIME_SECS;
    }
    claims_at(user_id, now)
}

// ---------------------------------------------------------------- clocks

#[verifier::external_type_specification]
#[verifier::external_body]
pub struct ExInstant(std::time::Instant);

/// The monotonic clock now (`Instant::now`); nothing is claimed of the value.
#[verifier::external_body]
fn instant_now() -> Instant {
    Instant::now()
}

/// Nanoseconds from `origin` to now (`Instant::elapsed`), cut to 64 bits;
/// nothing is claimed of the value, which depends on the clock.
#[verifier::external_body]
fn nanos_since(origin: &Instant) -> u64 {
    origin.elapsed().as_nanos() as u64
}

/// Seconds since the Unix epoch now (`time::OffsetDateTime::now_utc`, then
/// `unix_timestamp`); nothing is claimed of the value, which depends on the clock.
#[verifier::external_body]
fn unix_now() -> i64 {
    time::OffsetDateTime::now_utc().unix_timestamp()
}

// ---------------------------------------------------------- login back-off

/// One second, in the nanoseconds that the back-off counts in.
pub const SECOND_NS: u64 = 1_000_000_000;
/// Failures further apart than this start a new round (300 s).
pub const FAILURE_WINDOW_NS: u64 = 300_000_000_000;
/// Longest wait after a failure (30 s).
pub const MAX_DELAY_NS: u64 = 30_000_000_000;
/// Sources tracked at most before the table is pruned.
pub const MAX_ENTRIES: usize = 4096;

/// Failure state of one source: consecutive failures, when the last one
/// counted, and from when a new attempt is allowed (nanoseconds on the
/// throttle's clock).
#[derive(Clone, Copy, PartialEq, Eq, Debug, Structural)]
pub struct Failure {
    pub count: u32,
    pub last: u64,
    pub next_allowed: u64,
}

/// Time from `t` to `now`, zero when `now` is earlier (`Instant::duration_since`).
pub open spec fn since(now: u64, t: u64) -> u64 {
    if now >= t {
        (now - t) as u64
    } else {
        0
    }
}

pub open spec fn pow_two(e: nat) -> nat
    decreases e,
{
    if e == 0 {
        1
    } else {
        2 * pow_two((e - 1) as nat)
    }
}

/// Wait after the `count`-th consecutive failure: 1 s doubled per failure
/// (the exponent capped at 16), never above 30 s.
pub open spec fn backoff_ns(count: u32) -> u64 {
    let e: nat = if count >= 17 {
        16
    } else if count == 0 {
        0
    } else {
        (count - 1) as nat
    };
    let d = pow_two(e) * SECOND_NS;
    if d < MAX_DELAY_NS {
        d as u64
    } else {
        MAX_DELAY_NS
    }
}

/// The throttle key of a source: address text, `|`, user name.
pub open spec fn source_key(ip: Seq<char>, username: Seq<char>) -> Seq<char> {
    ip + seq!['|'] + username
}

/// A record still counts at `now`: its last failure lies within the window.
pub open spec fn in_window(f: Failure, now: u64) -> bool {
    since(now, f.last) < FAILURE_WINDOW_NS
}

/// The table after the capacity check that a failure makes first: a full
/// table keeps only records within the window, and is emptied if that does
/// not bring it under the limit.
pub open spec fn pruned(m: Map<Seq<char>, Failure>, now: u64) -> Map<Seq<char>, Failure> {
    if m.len() >= MAX_ENTRIES {
        let r = m.restrict(Set::new(|k: Seq<char>| m.contains_key(k) && in_window(m[k], now)));
        if r.len() >= MAX_ENTRIES {
            Map::empty()
        } else {
            r
        }
    } else {
        m
    }
}

/// The record of source `k` after a failure at `now`.
pub open spec fn failed(m: Map<Seq<char>, Failure>, k: Seq<char>, now: u64) -> Failure {
    let p = pruned(m, now);
    let prev = if p.contains_key(k) {
        p[k]
    } else {
        Failure { count: 0, last: now, next_allowed: now }
    };
    let c0: u32 = if since(now, prev.last) >= FAILURE_WINDOW_NS {
        0
    } else {
        prev.count
    };
    let c: u32 = if c0 == u32::MAX {
        u32::MAX
    } else {
        (c0 + 1) as u32
    };
    Failure { count: c, last: now, next_allowed: (now + backoff_ns(c)) as u64 }
}

/// The whole table after a failure of source `k` at `now`.
pub open spec fn after_failure(m: Map<Seq<char>, Failure>, k: Seq<char>, now: u64) -> Map<
    Seq<char>,
    Failure,
> {
    pruned(m, now).insert(k, failed(m, k, now))
}

/// How long source `k` must still wait at `now`.
pub open spec fn wait_of(m: Map<Seq<char>, Failure>, k: Seq<char>, now: u64) -> u64 {
    if m.contains_key(k) {
        since(m[k].next_allowed, now)
    } else {
        0
    }
}

/// Exponential back-off after failed logins, per source (address and user
/// name): 1 s, 2 s, 4 s, ... up to 30 s; a failure more than 300 s after the
/// previous one starts over, and a success forgets the source.
pub struct LoginThrottle {
    entries: Table<Failure>,
    origin: Instant,
}

fn key_of(ip: &str, username: &str) -> (k: Vec<char>)
    ensures
        k@ == source_key(ip@, username@),
{
    let mut k = chars_of(ip);
    k.push('|');
    let u = chars_of(username);
    let mut i: usize = 0;
    while i < u.len()
        invariant
            i <= u@.len(),
            k@ == ip@ + seq!['|'] + u@.take(i as int),
        decreases u@.len() - i,
    {
        k.push(u[i]);
        i = i + 1;
        assert(k@ =~= ip@ + seq!['|'] + u@.take(i as int));
    }
    assert(u@.take(u@.len() as int) =~= username@);
    k
}

proof fn lemma_pow_two_mono(i: nat, j: nat)
    requires
        i <= j,
    ensures
        pow_two(i) <= pow_two(j),
    decreases j - i,
{
    if i < j {
        lemma_pow_two_mono(i, (j - 1) as nat);
    }
}

proof fn lemma_pow_two_bound(e: nat)
    requires
        e <= 16,
    ensures
        pow_two(e) <= 65536,
{
    lemma_pow_two_mono(e, 16);
    reveal_with_fuel(pow_two, 17);
}

fn backoff(count: u32) -> (d: u64)
    ensures
        d == backoff_ns(count),
{
    let e: u32 = if count >= 17 {
        16
    } else if count == 0 {
        0
    } else {
        count - 1
    };
    let mut p: u64 = 1;
    let mut i: u32 = 0;
    while i < e
        invariant
            i <= e <= 16,
            p == pow_two(i as nat),
            p <= 65536,
        decreases e - i,
    {
        proof {
            lemma_pow_two_bound((i + 1) as nat);
        }
        p = p * 2;
        i = i + 1;
    }
    let d = p * SECOND_NS;
    if d < MAX_DELAY_NS {
        d
    } else {
        MAX_DELAY_NS
    }
}

impl LoginThrottle {
    /// The failure records, per source key.
    pub closed spec fn view(&self) -> Map<Seq<char>, Failure> {
        self.entries@
    }

    pub fn new() -> (t: Self)
        ensures
            t@ == Map::<Seq<char>, Failure>::empty(),
    {
        LoginThrottle { entries: Table::new(), origin: instant_now() }
    }

    /// How long `ip`/`username` must wait at time `now`; zero when it may try.
    pub fn retry_after_at(&self, ip: &str, username: &str, now: u64) -> (r: u64)
        ensures
            r == wait_of(self@, source_key(ip@, username@), now),
    {
        let k = key_of(ip, username);
        match self.entries.get(&k) {
            Some(f) => if f.next_allowed >= now {
                f.next_allowed - now
            } else {
                0
            },
            None => 0,
        }
    }

    /// Records a failed attempt at time `now`; returns the wait it imposes.
    pub fn record_failure_at(&mut self, ip: &str, username: &str, now: u64) -> (delay: u64)
        requires
            now <= u64::MAX - MAX_DELAY_NS,
        ensures
            final(self)@ == after_failure(old(self)@, source_key(ip@, username@), now),
            delay == backoff_ns(failed(old(self)@, source_key(ip@, username@), now).count),
    {
        let ghost m = self@;
        if self.entries.len() >= MAX_ENTRIES {
            let keep = |f: Failure| -> (b: bool)
                ensures
                    b == in_window(f, now),
                {
                    let d = if now >= f.last {
                        now - f.last
                    } else {
                        0
                    };
                    d < FAILURE_WINDOW_NS
                };
            self.entries.retain(keep, Ghost(|f: Failure| in_window(f, now)));
            let ghost r = m.restrict(Set::new(|k: Seq<char>| m.contains_key(k) && in_window(m[k], now)));
            assert(self@ =~= r);
            if self.entries.len() >= MAX_ENTRIES {
                self.entries.clear();
            }
        }
        assert(self@ =~= pruned(m, now));
        let k = key_of(ip, username);
        let prev = match self.entries.get(&k) {
            Some(f) => f,
            None => Failure { count: 0, last: now, next_allowed: now },
        };
        let elapsed = if now >= prev.last {
            now - prev.last
        } else {
            0
        };
        let c0 = if elapsed >= FAILURE_WINDOW_NS {
            0
        } else {
            prev.count
        };
        let c = c0.saturating_add(1);
        let delay = backoff(c);
        let f = Failure { count: c, last: now, next_allowed: now + delay };
        self.entries.insert(&k, f);
        delay
    }

    /// Forgets the failures of `ip`/`username` after it logged in.
    pub fn record_success(&mut self, ip: &str, username: &str)
        ensures
            final(self)@ == old(self)@.remove(source_key(ip@, username@)),
    {
        let k = key_of(ip, username);
        self.entries.remove(&k);
    }

    /// How long `ip`/`username` must wait now, on the throttle's own clock.
    pub fn retry_after(&self, ip: &str, username: &str) -> (r: u64)
        ensures
            exists|now: u64| r == wait_of(self@, source_key(ip@, username@), now),
    {
        let now = nanos_since(&self.origin);
        self.retry_after_at(ip, username, now)
    }

    /// Records a failed attempt now, on the throttle's own clock; returns the
    /// wait it imposes. A clock reading within 30 s of the end of the 64-bit
    /// range (about 584 years after start) is read as that bound.
    pub fn record_failure(&mut self, ip: &str, username: &str) -> (delay: u64)
        ensures
            exists|now: u64|
                now <= u64::MAX - MAX_DELAY_NS && final(self)@ == after_failure(
                    old(self)@,
                    source_key(ip@, username@),
                    now,
                ) && delay == backoff_ns(failed(old(self)@, source_key(ip@, username@), now).count),
    {
        let mut now = nanos_since(&self.origin);
        if now > u64::MAX - MAX_DELAY_NS {
            now = u64::MAX - MAX_DELAY_NS;
        }
        self.record_failure_at(ip, username, now)
    }
}

/// Every wait imposed by a failure lies between one and thirty seconds.
pub proof fn law_delay_bounds(count: u32)
    requires
        count >= 1,
    ensures
        SECOND_NS <= backoff_ns(count) <= MAX_DELAY_NS,
{
    let e: nat = if count >= 17 { 16 } else { (count - 1) as nat };
    lemma_pow_two_mono(0, e);
}

/// After a failure the source is told to wait exactly the delay that the
/// failure returned, and may try again once that delay has passed.
pub proof fn law_failure_sets_wait(m: Map<Seq<char>, Failure>, k: Seq<char>, now: u64, later: u64)
    requires
        now <= u64::MAX - MAX_DELAY_NS,
        later >= now + backoff_ns(failed(m, k, now).count),
    ensures
        wait_of(after_failure(m, k, now), k, now) == backoff_ns(failed(m, k, now).count),
        wait_of(after_failure(m, k, now), k, later) == 0,
{
    let c = failed(m, k, now).count;
    law_delay_bounds(c);
}

/// A source that has not failed within the window waits one second after a
/// failure.
pub proof fn law_first_failure_waits_one_second(m: Map<Seq<char>, Failure>, k: Seq<char>, now: u64)
    requires
        !pruned(m, now).contains_key(k) || !in_window(pruned(m, now)[k], now),
    ensures
        failed(m, k, now).count == 1,
        backoff_ns(failed(m, k, now).count) == SECOND_NS,
{
    reveal_with_fuel(pow_two, 1);
}

/// A failure within the window of the previous one doubles the wait, up to
/// thirty seconds (the table is not full, so nothing is pruned).
pub proof fn law_failures_double(m: Map<Seq<char>, Failure>, k: Seq<char>, now: u64)
    requires
        m.len() < MAX_ENTRIES,
        m.contains_key(k),
        in_window(m[k], now),
        1 <= m[k].count < u32::MAX,
    ensures
        failed(m, k, now).count == m[k].count + 1,
        backoff_ns(failed(m, k, now).count) == if 2 * backoff_ns(m[k].count) < MAX_DELAY_NS {
            2 * backoff_ns(m[k].count)
        } else {
            MAX_DELAY_NS as int
        },
{
    let c = m[k].count;
    if c >= 17 {
        lemma_pow_two_mono(5, 16);
        reveal_with_fuel(pow_two, 6);
    } else {
        let e = (c - 1) as nat;
        assert(pow_two(e + 1) == 2 * pow_two(e));
    }
}

/// What a source must wait, by the last event of its key. After a failure
/// at `t0` that imposed the delay `d`, at any later `t` the wait is `d` less
/// the time elapsed, never below zero, so between zero and `d`, and `d` is
/// at most thirty seconds. After a success, or with no record, it need not
/// wait. (A failure is recorded at most thirty seconds before the end of
/// the clock's range: `record_failure` reads later instants as that bound.)
pub proof fn law_retry_after(m: Map<Seq<char>, Failure>, k: Seq<char>, t0: u64, t: u64)
    requires
        t0 <= u64::MAX - MAX_DELAY_NS,
        t >= t0,
    ensures
        wait_of(after_failure(m, k, t0), k, t) == (if backoff_ns(failed(m, k, t0).count) >= t - t0 {
            backoff_ns(failed(m, k, t0).count) - (t - t0)
        } else {
            0
        }),
        wait_of(after_failure(m, k, t0), k, t) <= backoff_ns(failed(m, k, t0).count) <= MAX_DELAY_NS,
        wait_of(m.remove(k), k, t) == 0,
        !m.contains_key(k) ==> wait_of(m, k, t) == 0,
{
    law_delay_bounds(failed(m, k, t0).count);
}

/// A successful login forgets the source: it may try again at once.
pub proof fn law_success_clears(m: Map<Seq<char>, Failure>, k: Seq<char>, now: u64)
    ensures
        wait_of(m.remove(k), k, now) == 0,
{
}

/// A failure changes no other source's record while the table is not full.
pub proof fn law_other_sources_untouched(m: Map<Seq<char>, Failure>, k: Seq<char>, other: Seq<char>, now: u64)
    requires
        m.len() < MAX_ENTRIES,
        other != k,
    ensures
        after_failure(m, k, now).contains_key(other) == m.contains_key(other),
        m.contains_key(other) ==> after_failure(m, k, now)[other] == m[other],
{
}

// ------------------------------------------------------- token revocation

/// Revoked token ids held at most before the list is emptied.
pub const MAX_REVOKED: usize = 4096;

/// The revocation list after revoking `jti` (valid until `exp`) at `now`:
/// expired ids dropped, a full list emptied, then the id added.
pub open spec fn after_revoke(m: Map<Seq<char>, i64>, jti: Seq<char>, exp: i64, now: i64) -> Map<
    Seq<char>,
    i64,
> {
    let live = m.restrict(Set::new(|k: Seq<char>| m.contains_key(k) && m[k] > now));
    let base = if live.len() >= MAX_REVOKED {
        Map::empty()
    } else {
        live
    };
    base.insert(jti, exp)
}

/// `jti` is revoked at `now`: listed with an expiry still ahead.
pub open spec fn revoked(m: Map<Seq<char>, i64>, jti: Seq<char>, now: i64) -> bool {
    m.contains_key(jti) && m[jti] > now
}

/// Ids of tokens logged out before they expired, each kept until its expiry.
pub struct TokenRevocations {
    entries: Table<i64>,
}

impl TokenRevocations {
    /// Expiry (Unix seconds) per revoked token id.
    pub closed spec fn view(&self) -> Map<Seq<char>, i64> {
        self.entries@
    }

    pub fn new() -> (t: Self)
        ensures
            t@ == Map::<Seq<char>, i64>::empty(),
    {
        TokenRevocations { entries: Table::new() }
    }

    /// The list holds finitely many ids.
    pub proof fn lemma_finite(&self)
        ensures
            self@.dom().finite(),
    {
        self.entries.lemma_finite();
    }

    /// Revokes the token `jti`, valid until `exp`, at time `now`.
    pub fn revoke_at(&mut self, jti: &str, exp: i64, now: i64)
        ensures
            final(self)@ == after_revoke(old(self)@, jti@, exp, now),
            final(self)@.len() <= MAX_REVOKED,
    {
        proof {
            self.lemma_finite();
            law_revocations_bounded(self@, jti@, exp, now);
        }
        let keep = |e: i64| -> (b: bool)
            ensures
                b == (e > now),
            { e > now };
        let ghost m = self@;
        self.entries.retain(keep, Ghost(|e: i64| e > now));
        let ghost live = m.restrict(Set::new(|k: Seq<char>| m.contains_key(k) && m[k] > now));
        assert(self@ =~= live);
        if self.entries.len() >= MAX_REVOKED {
            self.entries.clear();
        }
        let k = chars_of(jti);
        self.entries.insert(&k, exp);
    }

    /// Whether `jti` is revoked at time `now`.
    pub fn is_revoked_at(&self, jti: &str, now: i64) -> (r: bool)
        ensures
            r == revoked(self@, jti@, now),
    {
        let k = chars_of(jti);
        match self.entries.get(&k) {
            Some(e) => e > now,
            None => false,
        }
    }

    /// Revokes the token `jti`, valid until `exp`, now.
    pub fn revoke(&mut self, jti: &str, exp: i64)
        ensures
            exists|now: i64| final(self)@ == after_revoke(old(self)@, jti@, exp, now),
            final(self)@.len() <= MAX_REVOKED,
    {
        let now = unix_now();
        self.revoke_at(jti, exp, now);
    }

    /// Whether `jti` is revoked now.
    pub fn is_revoked(&self, jti: &str) -> (r: bool)
        ensures
            exists|now: i64| r == revoked(self@, jti@, now),
    {
        let now = unix_now();
        self.is_revoked_at(jti, now)
    }

    /// Empties the list.
    pub fn clear(&mut self)
        ensures
            final(self)@ == Map::<Seq<char>, i64>::empty(),
    {
        self.entries.clear();
    }
}


/// A token revoked with expiry `exp` counts as revoked exactly while `exp`
/// lies ahead.
pub proof fn law_revoked_until_expiry(m: Map<Seq<char>, i64>, jti: Seq<char>, exp: i64, now: i64, t: i64)
    ensures
        revoked(after_revoke(m, jti, exp, now), jti, t) == (exp > t),
{
}

/// Revoking one token keeps the other live revocations while the list is not
/// full.
pub proof fn law_revocations_kept(m: Map<Seq<char>, i64>, jti: Seq<char>, other: Seq<char>, exp: i64, now: i64)
    requires
        m.restrict(Set::new(|k: Seq<char>| m.contains_key(k) && m[k] > now)).len() < MAX_REVOKED,
        other != jti,
        revoked(m, other, now),
    ensures
        revoked(after_revoke(m, jti, exp, now), other, now),
{
}

/// Every revocation list, whatever came before, stays within
/// `MAX_REVOKED` ids after a revocation, and then holds the revoked id with
/// its expiry.
pub proof fn law_list_bounded(r: &TokenRevocations, jti: Seq<char>, exp: i64, now: i64)
    ensures
        r@.dom().finite(),
        after_revoke(r@, jti, exp, now).len() <= MAX_REVOKED,
        after_revoke(r@, jti, exp, now).contains_key(jti),
        after_revoke(r@, jti, exp, now)[jti] == exp,
{
    r.lemma_finite();
    law_revocations_bounded(r@, jti, exp, now);
}

/// The revocation list never grows past `MAX_REVOKED` ids: revoking into a
/// finite list of at most that many leaves a finite list of at most that
/// many.
pub proof fn law_revocations_bounded(m: Map<Seq<char>, i64>, jti: Seq<char>, exp: i64, now: i64)
    requires
        m.dom().finite(),
    ensures
        after_revoke(m, jti, exp, now).dom().finite(),
        after_revoke(m, jti, exp, now).len() <= MAX_REVOKED,
{
    let live = m.restrict(Set::new(|k: Seq<char>| m.contains_key(k) && m[k] > now));
    assert(live.dom() =~= m.dom().intersect(Set::new(|k: Seq<char>| m.contains_key(k) && m[k] > now)));
    vstd::set::axiom_set_intersect_finite(m.dom(), Set::new(|k: Seq<char>| m.contains_key(k) && m[k] > now));
    let base = if live.len() >= MAX_REVOKED {
        Map::<Seq<char>, i64>::empty()
    } else {
        live
    };
    assert(base.dom().finite());
    assert(base.len() < MAX_REVOKED);
    vstd::set::axiom_set_insert_finite(base.dom(), jti);
    if base.dom().contains(jti) {
        assert(base.insert(jti, exp).dom() =~= base.dom());
    } else {
        vstd::set::axiom_set_insert_len(base.dom(), jti);
        assert(base.insert(jti, exp).dom() =~= base.dom().insert(jti));
    }
}

/// After clearing, no token is revoked.
pub proof fn law_clear_revokes_nothing(jti: Seq<char>, t: i64)
    ensures
        !revoked(Map::<Seq<char>, i64>::empty(), jti, t),
{
}

} // verus!
