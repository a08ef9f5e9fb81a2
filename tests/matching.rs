use three_good_sources::matcher::normalize::normalize_text;
use three_good_sources::matcher::order::sorted_slug_list;
use three_good_sources::matcher::scorer::{
    calculate_fuzzy_score, calculate_keyword_score, calculate_score, normalized_similarity,
};
use three_good_sources::matcher::{match_query, MatchConfig, MatchError};
use three_good_sources::registry::{Category, Curator, Registry, Source, SourceType};

fn source(rank: u8, name: &str, url: &str, source_type: SourceType) -> Source {
    Source {
        rank,
        name: name.to_string(),
        url: url.to_string(),
        source_type,
        why: format!("{} is a well-kept, widely used reference.", name),
    }
}

fn category(name: &str, patterns: &[&str], urls: [&str; 3]) -> Category {
    Category {
        name: name.to_string(),
        description: format!("Curated sources on {}.", name),
        query_patterns: patterns.iter().map(|p| p.to_string()).collect(),
        sources: vec![
            source(1, &format!("{} guide", name), urls[0], SourceType::Documentation),
            source(2, &format!("{} tutorial", name), urls[1], SourceType::Tutorial),
            source(3, &format!("{} book", name), urls[2], SourceType::Book),
        ],
    }
}

fn test_registry() -> Registry {
    let entries: Vec<(&str, Category)> = vec![
        (
            "rust-learning",
            category(
                "Rust Learning",
                &["learn rust programming", "rust tutorial for beginners", "getting started with rust"],
                [
                    "https://doc.rust-lang.org/book/",
                    "https://doc.rust-lang.org/rust-by-example/",
                    "https://www.zero2prod.com/",
                ],
            ),
        ),
        (
            "bitcoin-node-setup",
            category(
                "Bitcoin Node Setup",
                &["run a bitcoin full node", "set up bitcoin core", "bitcoin node hardware"],
                ["https://bitcoin.org/en/full-node", "https://raspiblitz.org/", "https://docs.start9.com/"],
            ),
        ),
        (
            "self-hosted-email",
            category(
                "Self-Hosted Email",
                &["host my own email server", "self host email", "run a mail server"],
                ["https://mailinabox.email/", "https://docker-mailserver.github.io/", "https://www.mail-tester.com/"],
            ),
        ),
        (
            "home-automation-private",
            category(
                "Privacy-Respecting Home Automation",
                &["private smart home", "home assistant setup", "local home automation"],
                ["https://www.home-assistant.io/", "https://www.zigbee2mqtt.io/", "https://esphome.io/"],
            ),
        ),
        (
            "password-management",
            category(
                "Password Management",
                &["best password manager", "store passwords securely", "self hosted password vault"],
                ["https://bitwarden.com/", "https://keepassxc.org/", "https://github.com/dani-garcia/vaultwarden"],
            ),
        ),
        (
            "linux-hardening",
            category(
                "Linux Security Hardening",
                &["harden linux server", "secure my linux box", "linux security checklist"],
                ["https://www.cisecurity.org/", "https://madaidans-insecurities.github.io/", "https://lynis.org/"],
            ),
        ),
        (
            "threat-modeling",
            category(
                "Threat Modeling",
                &["how to threat model", "threat modeling framework", "security threat analysis"],
                ["https://owasp.org/www-community/Threat_Modeling", "https://shostack.org/resources/threat-modeling", "https://ssd.eff.org/"],
            ),
        ),
        (
            "nostr-development",
            category(
                "Nostr Protocol Development",
                &["build a nostr client", "nostr relay development", "nostr protocol nips"],
                ["https://github.com/nostr-protocol/nips", "https://nostr.how/", "https://github.com/rust-nostr/nostr"],
            ),
        ),
        (
            "pubky-development",
            category(
                "Pubky Development",
                &["build on pubky", "pubky core sdk", "pkarr public key domains"],
                ["https://pubky.org/", "https://github.com/pubky/pkarr", "https://github.com/pubky/pubky-core"],
            ),
        ),
        (
            "mcp-development",
            category(
                "MCP Development",
                &["build an mcp server", "model context protocol", "mcp tools development"],
                ["https://modelcontextprotocol.io/", "https://github.com/modelcontextprotocol/specification", "https://github.com/modelcontextprotocol/rust-sdk"],
            ),
        ),
    ];
    Registry {
        version: "0.1.0".to_string(),
        updated: "2026-02-01".to_string(),
        curator: Curator { name: "John Turner".to_string(), pubkey: "pk_test".to_string() },
        endorsements: vec![],
        categories: entries.into_iter().map(|(s, c)| (s.to_string(), c)).collect(),
    }
}

fn default_config() -> MatchConfig {
    MatchConfig { match_threshold: 400_000, match_fuzzy_weight: 700_000, match_keyword_weight: 300_000 }
}

fn lookup<'a>(registry: &'a Registry, slug: &str) -> &'a Category {
    &registry.categories[registry.find_category(slug).unwrap()].1
}

#[test]
fn scorer_test_learn_rust_matches_rust_learning() {
    let registry = test_registry();
    let config = default_config();
    let result = match_query("learn rust", &registry, &config).unwrap();
    assert_eq!(result.slug, "rust-learning");
    assert!(result.score > 400_000, "Score should be above threshold");
    assert_eq!(result.category.name, "Rust Learning");
}

#[test]
fn scorer_test_bitcoin_node_matches_bitcoin_node_setup() {
    let registry = test_registry();
    let config = default_config();
    let result = match_query("bitcoin node", &registry, &config).unwrap();
    assert_eq!(result.slug, "bitcoin-node-setup");
    assert!(result.score > 400_000, "Score should be above threshold");
    assert_eq!(result.category.name, "Bitcoin Node Setup");
}

#[test]
fn scorer_test_email_server_matches_self_hosted_email() {
    let registry = test_registry();
    let config = default_config();
    let result = match_query("email server", &registry, &config).unwrap();
    assert_eq!(result.slug, "self-hosted-email");
    assert!(result.score > 400_000, "Score should be above threshold");
    assert_eq!(result.category.name, "Self-Hosted Email");
}

#[test]
fn test_below_threshold_returns_error() {
    let registry = test_registry();
    let config = default_config();
    let result = match_query("quantum physics supercollider", &registry, &config);
    match result {
        Err(MatchError::BelowThreshold { threshold, closest_slug, closest_score, all_slugs }) => {
            assert_eq!(threshold, 400_000);
            assert!(!closest_slug.is_empty());
            assert!(closest_score < 400_000, "Closest score should be below threshold");
            assert_eq!(all_slugs.len(), 10, "Should return all 10 category slugs");
        }
        _ => panic!("Expected BelowThreshold error"),
    }
}

#[test]
fn test_keyword_boost_increases_score() {
    let registry = test_registry();
    let category = lookup(&registry, "bitcoin-node-setup");
    let normalized_query = normalize_text("bitcoin node").unwrap();
    let config_with_boost =
        MatchConfig { match_threshold: 400_000, match_fuzzy_weight: 700_000, match_keyword_weight: 300_000 };
    let config_no_boost =
        MatchConfig { match_threshold: 400_000, match_fuzzy_weight: 700_000, match_keyword_weight: 0 };
    let score_with_boost = calculate_score(&normalized_query, "bitcoin-node-setup", category, &config_with_boost);
    let score_no_boost = calculate_score(&normalized_query, "bitcoin-node-setup", category, &config_no_boost);
    assert!(
        score_with_boost > score_no_boost,
        "Score with keyword boost ({}) should be higher than without ({})",
        score_with_boost,
        score_no_boost
    );
}

#[test]
fn scorer_test_empty_query_returns_error() {
    let registry = test_registry();
    let config = default_config();
    let result = match_query("", &registry, &config);
    assert!(matches!(result, Err(MatchError::EmptyQuery)));
}

#[test]
fn test_all_stop_words_returns_error() {
    let registry = test_registry();
    let config = default_config();
    let result = match_query("the a an", &registry, &config);
    assert!(matches!(result, Err(MatchError::QueryAllStopWords)));
}

#[test]
fn test_best_match_wins() {
    let registry = test_registry();
    let config = default_config();
    let result = match_query("rust programming", &registry, &config).unwrap();
    assert_eq!(result.slug, "rust-learning");
    assert!(result.score > 400_000);
    assert!(!result.category.sources.is_empty());
}

#[test]
fn learn_rust_scores_exactly() {
    let registry = test_registry();
    let result = match_query("learn rust", &registry, &default_config()).unwrap();
    assert_eq!(result.score, 468_181);
    assert_eq!(result.category.query_patterns.len(), 3);
    assert_eq!(result.category.sources[0].url, "https://doc.rust-lang.org/book/");
}

#[test]
fn high_threshold_turns_accepted_match_into_rejection() {
    let registry = test_registry();
    let accepted = match_query("learn rust", &registry, &default_config());
    assert!(accepted.is_ok());
    let strict = default_config().with_threshold(990_000);
    match match_query("learn rust", &registry, &strict) {
        Err(MatchError::BelowThreshold { threshold, closest_slug, closest_score, .. }) => {
            assert_eq!(threshold, 990_000);
            assert_eq!(closest_slug, "rust-learning");
            assert_eq!(closest_score, 468_181);
        }
        _ => panic!("Expected BelowThreshold error"),
    }
}

#[test]
fn rejection_lists_all_slugs_in_order() {
    let registry = test_registry();
    match match_query("xyzzy plugh foobar", &registry, &default_config()) {
        Err(MatchError::BelowThreshold { all_slugs, closest_slug, .. }) => {
            let expected = vec![
                "bitcoin-node-setup", "home-automation-private", "linux-hardening", "mcp-development",
                "nostr-development", "password-management", "pubky-development", "rust-learning",
                "self-hosted-email", "threat-modeling",
            ];
            assert_eq!(all_slugs, expected);
            assert_eq!(closest_slug, "pubky-development");
        }
        _ => panic!("Expected BelowThreshold error"),
    }
}

#[test]
fn every_score_lies_in_unit_range() {
    let registry = test_registry();
    let configs = [
        default_config(),
        MatchConfig { match_threshold: 0, match_fuzzy_weight: 1_000_000, match_keyword_weight: 0 },
        MatchConfig { match_threshold: 0, match_fuzzy_weight: 0, match_keyword_weight: 1_000_000 },
        MatchConfig { match_threshold: 0, match_fuzzy_weight: u32::MAX, match_keyword_weight: u32::MAX },
    ];
    for query in ["learn rust", "bitcoin node setup", "mcp development", "zzz"] {
        let q = normalize_text(query).unwrap();
        for config in configs.iter() {
            for (slug, cat) in registry.categories.iter() {
                let s = calculate_score(&q, slug, cat, config);
                assert!(s <= 1_000_000);
            }
        }
    }
}

#[test]
fn full_weight_on_exact_match_is_capped_at_one() {
    let registry = test_registry();
    let cat = lookup(&registry, "linux-hardening");
    let over = MatchConfig { match_threshold: 0, match_fuzzy_weight: 1_000_000, match_keyword_weight: 1_000_000 };
    assert_eq!(calculate_score("linux hardening", "linux-hardening", cat, &over), 1_000_000);
}

#[test]
fn keyword_weight_never_lowers_score_when_all_terms_occur() {
    let registry = test_registry();
    let cat = lookup(&registry, "bitcoin-node-setup");
    let q = "bitcoin node setup guide";
    let mut last = 0;
    for k in [0u32, 100_000, 300_000, 600_000, 1_000_000] {
        let cfg = MatchConfig { match_threshold: 0, match_fuzzy_weight: 1_000_000 - k, match_keyword_weight: k };
        let s = calculate_score(q, "bitcoin-node-setup", cat, &cfg);
        assert!(s >= last);
        last = s;
    }
}

#[test]
fn keyword_score_counts_slug_terms() {
    assert_eq!(calculate_keyword_score("bitcoin node", "bitcoin-node-setup"), 666_666);
    assert_eq!(calculate_keyword_score("bitcoin node setup", "bitcoin-node-setup"), 1_000_000);
    assert_eq!(calculate_keyword_score("email", "rust-learning"), 0);
    assert_eq!(calculate_keyword_score("selfhosted", "self-hosted-email"), 666_666);
}

#[test]
fn similarity_follows_edit_distance() {
    assert_eq!(normalized_similarity("kitten", "sitting"), 571_428);
    assert_eq!(normalized_similarity("", ""), 1_000_000);
    assert_eq!(normalized_similarity("", "second"), 0);
    assert_eq!(normalized_similarity("string", "string"), 1_000_000);
}

#[test]
fn fuzzy_score_takes_the_best_surface() {
    let registry = test_registry();
    let cat = lookup(&registry, "rust-learning");
    assert_eq!(calculate_fuzzy_score("rust learning", "rust-learning", cat), 1_000_000);
    assert_eq!(calculate_fuzzy_score("learn rust programming", "rust-learning", cat), 1_000_000);
    let score = calculate_fuzzy_score("learn rust", "rust-learning", cat);
    assert_eq!(score, 454_545);
}

#[test]
fn bitcoin_scores_with_and_without_boost() {
    let registry = test_registry();
    let cat = lookup(&registry, "bitcoin-node-setup");
    let with_boost = default_config();
    let no_boost = MatchConfig { match_keyword_weight: 0, ..default_config() };
    assert_eq!(calculate_score("bitcoin node", "bitcoin-node-setup", cat, &with_boost), 666_666);
    assert_eq!(calculate_score("bitcoin node", "bitcoin-node-setup", cat, &no_boost), 466_666);
}

#[test]
fn tie_goes_to_the_earlier_slug_whatever_the_order() {
    let base = test_registry();
    let twin = lookup(&base, "rust-learning").clone();
    let mut a = Registry { categories: vec![], ..base.clone() };
    a.categories.push(("zeta-topic".to_string(), twin.clone()));
    a.categories.push(("alpha-topic".to_string(), twin.clone()));
    let mut b = Registry { categories: vec![], ..base.clone() };
    b.categories.push(("alpha-topic".to_string(), twin.clone()));
    b.categories.push(("zeta-topic".to_string(), twin));
    let cfg = MatchConfig { match_threshold: 0, match_fuzzy_weight: 1_000_000, match_keyword_weight: 0 };
    let ra = match_query("learn rust programming", &a, &cfg).unwrap();
    let rb = match_query("learn rust programming", &b, &cfg).unwrap();
    assert_eq!(ra.slug, "alpha-topic");
    assert_eq!(rb.slug, "alpha-topic");
    assert_eq!(ra.score, rb.score);
}

#[test]
fn repeated_calls_give_identical_outcomes() {
    let registry = test_registry();
    for query in ["learn rust", "quantum physics supercollider", "password manager"] {
        let first = format!("{:?}", match_query(query, &registry, &default_config()));
        let second = format!("{:?}", match_query(query, &registry, &default_config()));
        assert_eq!(first, second);
    }
}

#[test]
fn single_category_catalog_always_has_a_winner() {
    let base = test_registry();
    let one = Registry { categories: vec![base.categories[0].clone()], ..base.clone() };
    let cfg = MatchConfig { match_threshold: 0, ..default_config() };
    let r = match_query("quantum physics", &one, &cfg).unwrap();
    assert_eq!(r.slug, "rust-learning");
}

#[test]
fn password_manager_matches_password_management() {
    let registry = test_registry();
    let r = match_query("password manager", &registry, &default_config()).unwrap();
    assert_eq!(r.slug, "password-management");
    assert_eq!(r.category.name, "Password Management");
}

#[test]
fn sorted_slug_list_orders_by_code_point() {
    let registry = test_registry();
    let slugs = sorted_slug_list(&registry.categories);
    assert_eq!(slugs.len(), 10);
    for pair in slugs.windows(2) {
        assert!(pair[0] < pair[1]);
    }
}
