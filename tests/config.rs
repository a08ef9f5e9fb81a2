use three_good_sources::config::{default_log_format, default_port};
use three_good_sources::matcher::config::{
    default_fuzzy_weight, default_keyword_weight, default_threshold, ConfigError,
};
use three_good_sources::matcher::MatchConfig;
use three_good_sources::pubky::error::PubkyError;
use three_good_sources::pubky::identity::generate_or_load_keypair;

#[test]
fn defaults_are_as_documented() {
    assert_eq!(default_log_format(), "pretty");
    assert_eq!(default_port(), 3000);
    assert_eq!(default_threshold(), 400_000);
    assert_eq!(default_fuzzy_weight(), 700_000);
    assert_eq!(default_keyword_weight(), 300_000);
    let c = MatchConfig::new_default();
    assert_eq!(c, MatchConfig { match_threshold: 400_000, match_fuzzy_weight: 700_000, match_keyword_weight: 300_000 });
    assert_eq!(c.validate(), Ok(()));
}

#[test]
fn threshold_above_one_is_refused() {
    let c = MatchConfig { match_threshold: 1_000_001, ..MatchConfig::new_default() };
    assert_eq!(c.validate(), Err(ConfigError::ThresholdOutOfRange));
    let edge = MatchConfig { match_threshold: 1_000_000, ..MatchConfig::new_default() };
    assert_eq!(edge.validate(), Ok(()));
}

#[test]
fn weights_must_sum_to_one_within_tolerance() {
    let ok_low = MatchConfig { match_threshold: 0, match_fuzzy_weight: 690_000, match_keyword_weight: 300_000 };
    assert_eq!(ok_low.validate(), Ok(()));
    let ok_high = MatchConfig { match_threshold: 0, match_fuzzy_weight: 710_000, match_keyword_weight: 300_000 };
    assert_eq!(ok_high.validate(), Ok(()));
    let low = MatchConfig { match_threshold: 0, match_fuzzy_weight: 689_999, match_keyword_weight: 300_000 };
    assert_eq!(low.validate(), Err(ConfigError::WeightsDoNotSumToOne));
    let huge = MatchConfig { match_threshold: 0, match_fuzzy_weight: u32::MAX, match_keyword_weight: u32::MAX };
    assert_eq!(huge.validate(), Err(ConfigError::WeightsDoNotSumToOne));
}

#[test]
fn with_threshold_keeps_weights() {
    let c = MatchConfig::new_default().with_threshold(990_000);
    assert_eq!(c.match_threshold, 990_000);
    assert_eq!(c.match_fuzzy_weight, 700_000);
    assert_eq!(c.match_keyword_weight, 300_000);
}

#[test]
fn ephemeral_keypair_without_secret() {
    assert!(generate_or_load_keypair(None).is_ok());
}

#[test]
fn secret_of_wrong_length_is_refused() {
    assert!(matches!(generate_or_load_keypair(Some("abcd")), Err(PubkyError::InvalidSecretKey(_))));
}

#[test]
fn secret_with_non_hex_digits_is_refused() {
    let text = "zz".repeat(32);
    assert!(matches!(generate_or_load_keypair(Some(&text)), Err(PubkyError::HexDecode(_))));
}

#[test]
fn same_secret_gives_same_key() {
    let text = "0123456789abcdefABCDEF0123456789abcdef0123456789abcdef0123456789";
    let a = generate_or_load_keypair(Some(text)).unwrap();
    let b = generate_or_load_keypair(Some(text)).unwrap();
    assert_eq!(a.public_key().to_z32(), b.public_key().to_z32());
    assert_eq!(a.public_key().to_z32().len(), 52);
}
