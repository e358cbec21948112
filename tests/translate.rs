use baidu_fanyi::text::{filter_out_long_empty_str, FilterOutLongEmpty};
use baidu_fanyi::translate::{
    decimal_string, get_salt, salt_from_random, split_blocks, RetryAction, RetryState, Translater,
};

#[test]
fn squeezes_whitespace() {
    assert_eq!(&"a   b".filter_out_long_empty(0), "ab");
    assert_eq!(&"a   b".filter_out_long_empty(1), "a b");
    assert_eq!(&"a   b".filter_out_long_empty(2), "a  b");
    assert_eq!(&"a   b".filter_out_long_empty(3), "a   b");
    assert_eq!(&"a   b".filter_out_long_empty(4), "a   b");
}

#[test]
fn squeezes_mixed_whitespace() {
    assert_eq!(filter_out_long_empty_str(" \t\n x\u{3000}\u{3000}y ", 1), " x\u{3000}y ");
    assert_eq!(filter_out_long_empty_str("", 2), "");
}

#[test]
fn split_blocks_rules() {
    let mut sum: usize = 100;
    assert_eq!(split_blocks(&mut sum, 3000), Err(()));
    assert_eq!(sum, 100);
    assert_eq!(split_blocks(&mut sum, 2899), Ok(false));
    assert_eq!(sum, 100);
    assert_eq!(split_blocks(&mut sum, 2900), Ok(true));
    assert_eq!(sum, 2900);
}

#[test]
fn salt_range() {
    assert_eq!(salt_from_random(0), 32768);
    assert_eq!(salt_from_random(65535), 65535);
    assert_eq!(salt_from_random(32768), 32768);
    assert_eq!(salt_from_random(5), 32773);
    for _ in 0..100 {
        assert!(get_salt() >= 32768);
    }
}

#[test]
fn decimal_text() {
    assert_eq!(decimal_string(0), "0");
    assert_eq!(decimal_string(7), "7");
    assert_eq!(decimal_string(32768), "32768");
    assert_eq!(decimal_string(4294967295), "4294967295");
}

#[test]
fn translater_settings() {
    let mut t = Translater::new("id", "key");
    assert_eq!(t.from_lang(), "auto");
    assert_eq!(t.to_lang(), "auto");
    t.set_from_lang("en");
    t.set_to_lang("zh");
    assert_eq!(t.from_lang(), "en");
    assert_eq!(t.to_lang(), "zh");
    assert_eq!(t.salt, 0);
    t.update_salt();
    assert!(t.salt >= 32768);
    assert_eq!(t.id, "id");
}

#[test]
fn sign_is_md5_of_parts() {
    let t = Translater::new("", "");
    assert_eq!(t.get_sign(""), "cfcd208495d565ef66e7dff9f98764da");
    let mut u = Translater::new("a", "d");
    u.salt = 32768;
    let mut v = Translater::new("abc3276", "d");
    v.salt = 8;
    assert_eq!(u.get_sign("bc"), v.get_sign(""));
    assert_ne!(u.get_sign("bc"), u.get_sign("cb"));
    assert_eq!(u.get_sign("bc").len(), 32);
}

#[test]
fn retry_rules() {
    let s = RetryState::new();
    let (s1, a1) = s.on_failure(false);
    assert_eq!(a1, RetryAction::Retry);
    assert_eq!(s1.error_count, 1);
    let (_, a2) = s1.on_failure(false);
    assert_eq!(a2, RetryAction::TooManyErrors);
    let (t1, b1) = s1.on_failure(true);
    assert_eq!(b1, RetryAction::Retry);
    let (_, b2) = t1.on_failure(true);
    assert_eq!(b2, RetryAction::TooManyTimeouts);
}
