use lyys_panel::auth::{
    admin_seed, claims_at, decode_to_slice, env_secret, fresh_key, hex_encode, hex_val, initial_password_note,
    key_from_file_text, random_bytes, seed_of, random_password, random_secret, verify_password, KeyFileError, LoginThrottle,
    TokenRevocations, FAILURE_WINDOW_NS, MAX_DELAY_NS, SECOND_NS, TOKEN_LIFETIME_SECS,
};

#[test]
fn hex_digits() {
    assert_eq!(hex_val(b'0'), Ok(0));
    assert_eq!(hex_val(b'9'), Ok(9));
    assert_eq!(hex_val(b'a'), Ok(10));
    assert_eq!(hex_val(b'F'), Ok(15));
    assert_eq!(hex_val(b'g'), Err(()));
    assert_eq!(hex_val(b' '), Err(()));
}

#[test]
fn decode_hex_into_a_buffer() {
    let mut dst = [0u8; 3];
    assert_eq!(decode_to_slice("00ff7A", &mut dst), Ok(()));
    assert_eq!(dst, [0x00, 0xff, 0x7a]);
    // a wrong length leaves the buffer alone
    let mut dst = [9u8; 2];
    assert_eq!(decode_to_slice("abc", &mut dst), Err(()));
    assert_eq!(dst, [9, 9]);
    // a bad digit stops after the pairs before it
    let mut dst = [9u8; 3];
    assert_eq!(decode_to_slice("01zz03", &mut dst), Err(()));
    assert_eq!(dst, [1, 9, 9]);
}

#[test]
fn hex_round_trip() {
    let bytes = [0u8, 1, 0x7f, 0x80, 0xfe, 0xff];
    let text = hex_encode(&bytes);
    assert_eq!(text, "00017f80feff");
    let mut back = [0u8; 6];
    assert_eq!(decode_to_slice(&text, &mut back), Ok(()));
    assert_eq!(back, bytes);
}

#[test]
fn random_material_has_its_shape() {
    assert_eq!(random_bytes(0).len(), 0);
    assert_eq!(random_bytes(7).len(), 7);
    let s = random_secret();
    assert_eq!(s.len(), 64);
    assert!(s.chars().all(|c| c.is_ascii_hexdigit() && !c.is_ascii_uppercase()));
    let (text, key) = fresh_key();
    assert_eq!(key.len(), 32);
    assert_eq!(text, hex_encode(&key));
    let p = random_password();
    assert_eq!(p.chars().count(), 16);
    let charset = "abcdefghjkmnpqrstuvwxyzABCDEFGHJKLMNPQRSTUVWXYZ23456789";
    assert!(p.chars().all(|c| charset.contains(c)));
}

#[test]
fn secrets_from_the_environment() {
    assert_eq!(env_secret("short"), None);
    let long = "0123456789abcdef0123456789abcdef";
    assert_eq!(env_secret(long), Some(long.as_bytes().to_vec()));
}

#[test]
fn key_file_text() {
    let text = format!("  {}\n", "ab".repeat(32));
    assert_eq!(key_from_file_text(&text), Ok(vec![0xab; 32]));
    assert_eq!(key_from_file_text("abcd"), Err(KeyFileError::BadLength));
    assert_eq!(key_from_file_text(&"zz".repeat(32)), Err(KeyFileError::BadHex));
}

#[test]
fn password_note_text() {
    assert_eq!(
        initial_password_note("Secret23"),
        "初始管理员账号 admin 的随机密码：Secret23\n    此文件权限 0600，首次登录成功后会自动删除。\n"
    );
}

#[test]
fn argon2_hash_and_verify() {
    let seed = admin_seed(Some("correct horse".to_string())).expect("hashing works");
    assert_eq!(seed.password, "correct horse");
    assert!(!seed.generated);
    assert!(seed.hash.starts_with("$argon2"));
    assert!(verify_password("correct horse", &seed.hash));
    assert!(!verify_password("wrong horse", &seed.hash));
    assert!(!verify_password("correct horse", "not a hash"));
    let generated = admin_seed(None).expect("hashing works");
    assert!(generated.generated);
    assert_eq!(generated.password.chars().count(), 16);
    assert!(verify_password(&generated.password, &generated.hash));
}

#[test]
fn token_claims() {
    let c = claims_at(7, 1_000);
    assert_eq!(c.sub, 7);
    assert_eq!(c.exp, (1_000 + TOKEN_LIFETIME_SECS) as usize);
    assert_eq!(c.jti.len(), 32);
    let d = claims_at(7, 1_000);
    assert_ne!(c.jti, d.jti);
}

#[test]
fn throttle_backs_off_exponentially() {
    let mut t = LoginThrottle::new();
    let now = 10 * SECOND_NS;
    assert_eq!(t.retry_after_at("1.2.3.4", "admin", now), 0);
    assert_eq!(t.record_failure_at("1.2.3.4", "admin", now), SECOND_NS);
    assert_eq!(t.retry_after_at("1.2.3.4", "admin", now), SECOND_NS);
    assert_eq!(t.record_failure_at("1.2.3.4", "admin", now), 2 * SECOND_NS);
    assert_eq!(t.record_failure_at("1.2.3.4", "admin", now), 4 * SECOND_NS);
    assert_eq!(t.retry_after_at("1.2.3.4", "admin", now + SECOND_NS), 3 * SECOND_NS);
    // other sources are not affected
    assert_eq!(t.retry_after_at("1.2.3.4", "root", now), 0);
    assert_eq!(t.retry_after_at("5.6.7.8", "admin", now), 0);
    for _ in 0..10 {
        t.record_failure_at("1.2.3.4", "admin", now);
    }
    assert_eq!(t.retry_after_at("1.2.3.4", "admin", now), MAX_DELAY_NS);
    // a failure long after the previous one starts over
    let later = now + FAILURE_WINDOW_NS;
    assert_eq!(t.record_failure_at("1.2.3.4", "admin", later), SECOND_NS);
    // a success forgets the source
    t.record_success("1.2.3.4", "admin");
    assert_eq!(t.retry_after_at("1.2.3.4", "admin", later), 0);
}

#[test]
fn throttle_on_its_own_clock() {
    let mut t = LoginThrottle::new();
    assert_eq!(t.retry_after("9.9.9.9", "x"), 0);
    let d = t.record_failure("9.9.9.9", "x");
    assert_eq!(d, SECOND_NS);
    let w = t.retry_after("9.9.9.9", "x");
    assert!(w > 0 && w <= SECOND_NS);
}

#[test]
fn revoked_until_expiry() {
    let mut r = TokenRevocations::new();
    assert!(!r.is_revoked_at("abc", 100));
    r.revoke_at("abc", 200, 100);
    assert!(r.is_revoked_at("abc", 150));
    assert!(r.is_revoked_at("abc", 199));
    assert!(!r.is_revoked_at("abc", 200));
    assert!(!r.is_revoked_at("other", 150));
    r.clear();
    assert!(!r.is_revoked_at("abc", 150));
}

#[test]
fn revoked_on_the_system_clock() {
    let mut r = TokenRevocations::new();
    r.revoke("tok", i64::MAX);
    assert!(r.is_revoked("tok"));
    r.revoke("old", 1);
    assert!(!r.is_revoked("old"));
}

#[test]
fn seed_from_a_hashing_outcome() {
    let s = seed_of("pw".to_string(), true, Some(("$argon2id$x".to_string(), "salt".to_string()))).unwrap();
    assert_eq!((s.password.as_str(), s.generated, s.hash.as_str(), s.salt.as_str()), ("pw", true, "$argon2id$x", "salt"));
    assert!(seed_of("pw".to_string(), false, None).is_none());
}

#[test]
fn hex_text_decodes_back_in_either_case() {
    let bytes: Vec<u8> = (0u8..32).map(|i| i.wrapping_mul(37).wrapping_add(200)).collect();
    let lower = hex_encode(&bytes);
    let upper: String = bytes.iter().map(|b| format!("{b:02X}")).collect();
    assert_eq!(key_from_file_text(&lower), Ok(bytes.clone()));
    assert_eq!(key_from_file_text(&format!("  {upper}\n")), Ok(bytes.clone()));
    let mut dst = [0u8; 32];
    assert_eq!(decode_to_slice(&upper, &mut dst), Ok(()));
    assert_eq!(dst.to_vec(), bytes);
}

#[test]
fn revocation_list_stays_bounded() {
    let mut r = TokenRevocations::new();
    for i in 0..4096 {
        r.revoke_at(&format!("t{i}"), 2_000, 1_000);
    }
    assert!(r.is_revoked_at("t0", 1_000));
    assert!(r.is_revoked_at("t4095", 1_000));
    // The list is full of live ids: it is emptied before the new one goes in.
    r.revoke_at("new", 2_000, 1_000);
    assert!(r.is_revoked_at("new", 1_000));
    assert!(!r.is_revoked_at("t0", 1_000));
    assert!(!r.is_revoked_at("t4095", 1_000));
}
