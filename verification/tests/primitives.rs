//! Tests of the verified primitives: text rendering, trimming, the token
//! bucket and the keyed quota.

use danmaku::limiter::KeyedQuota;
use danmaku::limiter::TokenBucket;
use danmaku::text::fmt_i64;
use danmaku::text::fmt_u64;
use danmaku::text::is_whitespace_char;
use danmaku::text::to_hex;
use danmaku::text::trim_str;
use danmaku::text::concat_all;

#[test]
fn decimal_rendering_matches_std() {
    assert_eq!(fmt_u64(0), "0");
    assert_eq!(fmt_u64(7), "7");
    assert_eq!(fmt_u64(10), "10");
    assert_eq!(fmt_u64(u64::MAX), u64::MAX.to_string());
    assert_eq!(fmt_i64(0), "0");
    assert_eq!(fmt_i64(-1), "-1");
    assert_eq!(fmt_i64(-120), "-120");
    assert_eq!(fmt_i64(i64::MIN), i64::MIN.to_string());
    assert_eq!(fmt_i64(i64::MAX), i64::MAX.to_string());
}

#[test]
fn hex_rendering_matches_expected() {
    assert_eq!(to_hex(&vec![]), "");
    assert_eq!(to_hex(&vec![0x00]), "00");
    assert_eq!(to_hex(&vec![0xbe, 0xef]), "beef");
    assert_eq!(to_hex(&vec![0x0f, 0xa0, 0x5b]), "0fa05b");
}

#[test]
fn trim_matches_std_trim() {
    for s in ["  a b\t", "no-trim", "", "   ", "\u{3000}a\u{3000}", "\n mixed \r\n"] {
        assert_eq!(trim_str(s), s.trim());
    }
}

#[test]
fn whitespace_matches_std() {
    for c in [' ', '\t', '\n', '\u{00A0}', '\u{3000}', 'a', '0', '[', '\u{200B}'] {
        assert_eq!(is_whitespace_char(c), c.is_whitespace());
    }
}

#[test]
fn concat_joins_in_order() {
    let parts = vec!["a".to_string(), "".to_string(), "bc".to_string()];
    assert_eq!(concat_all(&parts), "abc");
    assert_eq!(concat_all(&vec![]), "");
}

#[test]
fn token_bucket_admits_quota_then_rejects() {
    let quota = 4u32;
    let mut bucket = TokenBucket::new(quota, 0);
    for _ in 0..quota {
        assert!(bucket.check(0));
    }
    assert!(!bucket.check(0));
}

#[test]
fn token_bucket_refills_at_its_rate() {
    let mut bucket = TokenBucket::new(2, 0);
    assert!(bucket.check(0));
    assert!(bucket.check(0));
    assert!(!bucket.check(0));
    assert!(!bucket.check(400));
    assert!(bucket.check(500));
    assert!(!bucket.check(600));
}

#[test]
fn keyed_quota_enforces_the_window() {
    let mut quota = KeyedQuota::new(5_000);
    let g = "g".to_string();
    let hi = "hi".to_string();
    assert!(quota.check_key(&g, &hi, 0));
    assert!(!quota.check_key(&g, &hi, 3_000));
    assert!(!quota.check_key(&g, &hi, 4_999));
    assert!(quota.check_key(&g, &hi, 6_000));
    assert!(!quota.check_key(&g, &hi, 7_000));
}

#[test]
fn keyed_quota_keys_are_independent() {
    let mut quota = KeyedQuota::new(5_000);
    let g1 = "g1".to_string();
    let g2 = "g2".to_string();
    let hi = "hi".to_string();
    let yo = "yo".to_string();
    assert!(quota.check_key(&g1, &hi, 0));
    assert!(quota.check_key(&g2, &hi, 0));
    assert!(quota.check_key(&g1, &yo, 0));
    assert!(!quota.check_key(&g1, &hi, 100));
}

#[test]
fn keyed_quota_never_readmits_before_the_window() {
    let mut quota = KeyedQuota::new(1_000);
    let g = "g".to_string();
    let t = "t".to_string();
    assert!(quota.check_key(&g, &t, 500));
    assert!(!quota.check_key(&g, &t, 0));
    assert!(!quota.check_key(&g, &t, 1_499));
    assert!(quota.check_key(&g, &t, 1_500));
}
