use ethos_protocol_backend::aml::{
    check_aml_compliance, normalize_address, AmlConfig, AmlError, AmlScreener, AmlSource,
    SanctionIdentification, ScreeningStep,
};

const SECOND: u128 = 1_000_000_000;

fn screener(key: Option<&str>, fail_open: bool) -> AmlScreener {
    AmlScreener::new(AmlConfig::from_settings(
        key.map(|k| k.to_string()),
        Some("https://provider.test/".to_string()),
        Some("10".to_string()),
        Some(if fail_open { "TRUE".to_string() } else { "no".to_string() }),
    ))
}

fn hit() -> SanctionIdentification {
    SanctionIdentification {
        category: Some("sanctions".to_string()),
        name: None,
        description: None,
        url: None,
    }
}

#[test]
fn settings_have_defaults() {
    let config = AmlConfig::from_settings(Some(" ".to_string()), None, Some("x".to_string()), None);
    assert_eq!(config.api_key, None);
    assert_eq!(config.api_url, "https://public.chainalysis.com/api/v1/address");
    assert_eq!(config.cache_ttl, 3_600 * SECOND);
    assert!(!config.fail_open);
    let other = AmlConfig::from_settings(None, None, None, Some("1".to_string()));
    assert!(other.fail_open);
}

#[test]
fn addresses_are_checked() {
    assert_eq!(normalize_address("  GABC123 ").unwrap(), "GABC123");
    for bad in ["", "   ", "GA-BC", "GÄBC", &"A".repeat(129)] {
        assert!(matches!(normalize_address(bad), Err(AmlError::InvalidAddress)));
    }
    assert!(normalize_address(&"A".repeat(128)).is_ok());
    assert_eq!(AmlError::InvalidAddress.message(), "invalid address");
    assert_eq!(
        AmlError::Provider("down".to_string()).message(),
        "AML provider request failed: down"
    );
}

#[test]
fn flagged_addresses_are_refused() {
    let mut s = screener(None, false);
    s.flag(" GABC ", "stolen".to_string(), "ann".to_string()).unwrap();
    match s.begin_screening_at("GABC", 0, 5).unwrap() {
        ScreeningStep::Verdict(v) => {
            assert!(!v.compliant);
            assert_eq!(v.source, AmlSource::ManualFlag);
            assert_eq!(v.reason, Some("stolen".to_string()));
            assert_eq!(v.checked_at, 5);
            assert!(!check_aml_compliance(&Ok(v)));
        }
        ScreeningStep::Ask { .. } => panic!("the verdict is known"),
    }
    assert_eq!(s.flags().len(), 1);
    assert_eq!(s.unflag("GABC").unwrap(), true);
    assert_eq!(s.unflag("GABC").unwrap(), false);
    match s.begin_screening("GABC").unwrap() {
        ScreeningStep::Verdict(v) => {
            assert!(v.compliant);
            assert_eq!(v.source, AmlSource::ManualListOnly);
            assert!(check_aml_compliance(&Ok(v)));
        }
        ScreeningStep::Ask { .. } => panic!("there is no provider to ask"),
    }
    assert!(!check_aml_compliance(&Err(AmlError::InvalidAddress)));
}

#[test]
fn answers_are_cached_for_their_time() {
    let mut s = screener(Some("key"), false);
    let begun = match s.begin_screening_at("GABC", 0, 7).unwrap() {
        ScreeningStep::Ask { address, url, api_key, checked_at } => {
            assert_eq!(address, "GABC");
            assert_eq!(url, "https://provider.test/GABC");
            assert_eq!(api_key, "key");
            checked_at
        }
        ScreeningStep::Verdict(_) => panic!("the provider has to be asked"),
    };
    let verdict = s.finish_screening_at("GABC".to_string(), Ok(vec![hit()]), begun, 0);
    assert_eq!(verdict.checked_at, 7);
    assert!(!verdict.compliant);
    assert_eq!(verdict.source, AmlSource::Chainalysis);
    match s.begin_screening_at("GABC", 10 * SECOND - 1, 2).unwrap() {
        ScreeningStep::Verdict(v) => {
            assert_eq!(v.source, AmlSource::Cache);
            assert!(!v.compliant);
            assert_eq!(v.identifications, vec![hit()]);
        }
        ScreeningStep::Ask { .. } => panic!("the answer is fresh"),
    }
    assert!(matches!(
        s.begin_screening_at("GABC", 10 * SECOND, 2).unwrap(),
        ScreeningStep::Ask { .. }
    ));
}

#[test]
fn failures_follow_the_policy() {
    for open in [true, false] {
        let mut s = screener(Some("key"), open);
        let verdict = s.finish_screening_at(
            "GABC".to_string(),
            Err(AmlError::Provider("timeout".to_string())),
            0,
            0,
        );
        assert_eq!(verdict.compliant, open);
        assert_eq!(verdict.source, AmlSource::ProviderUnavailable);
        assert!(matches!(
            s.begin_screening_at("GABC", 0, 0).unwrap(),
            ScreeningStep::Ask { .. }
        ));
    }
}
