//! The Baseten extensions of a request.

use dynamo_llm::baseten_ext::{
    merge_adjacent_cache_control_ranges, validate_cache_control_ranges, validate_request_fields,
    BasetenExt, BasetenExtProvider, CacheControlError, CacheControlRange, CacheControlTier,
    CacheControlTtl, DecodeCacheControl, DynamicTemperature, DynamicTemperatureMap,
    DynamicTemperatureSuffix, Thinking, ThinkingType,
};
use dynamo_llm::number::Float32;
use dynamo_llm::responses::request::{CreateResponse, NvCreateResponse};

fn suffix(value: &str) -> DynamicTemperatureSuffix {
    DynamicTemperatureSuffix::try_from_text(value.to_string()).unwrap()
}

fn temperature(value: f32) -> Result<DynamicTemperature, String> {
    DynamicTemperature::try_from_bits(Float32 { bits: value.to_bits() })
}

fn range(start: u64, end: Option<u64>, tier: CacheControlTier) -> CacheControlRange {
    CacheControlRange { start, end, tier }
}

fn with_ranges(ranges: Vec<CacheControlRange>) -> BasetenExt {
    BasetenExt {
        cache_control: Some(merge_adjacent_cache_control_ranges(&ranges)),
        ..BasetenExt::default()
    }
}

fn temperatures() -> DynamicTemperatureMap {
    let mut map = DynamicTemperatureMap::new();
    map.insert(suffix("</think>"), temperature(0.7).unwrap());
    map
}

#[test]
fn test_baseten_ext_builder_default() {
    let baseten_ext = BasetenExt::builder().build();
    assert_eq!(baseten_ext.cache_control, None);
    assert_eq!(baseten_ext.decode_cache_control, None);
    assert_eq!(baseten_ext.baseten, None);
    assert_eq!(baseten_ext.dynamic_temperature, None);
    assert_eq!(baseten_ext.priority, None);
    assert_eq!(baseten_ext.thinking, None);
    assert_eq!(baseten_ext.reasoning, None);
    assert!(baseten_ext.is_empty());
}

#[test]
fn extensions_with_a_value_are_not_empty() {
    let set = BasetenExt::builder().dynamic_temperature(temperatures()).build();
    assert!(!set.is_empty());
    assert_eq!(validate_request_fields(&set), Ok(()));
}

fn object(name: &str, text: &str) -> serde_json::Value {
    let mut members = serde_json::Map::new();
    members.insert(name.to_string(), serde_json::Value::String(text.to_string()));
    serde_json::Value::Object(members)
}

#[test]
fn test_baseten_ext_builder_with_values() {
    let cache_control = vec![
        range(0, Some(1024), CacheControlTier::Standard),
        range(1024, None, CacheControlTier::Basic),
    ];
    let decode = DecodeCacheControl {
        tier: CacheControlTier::Basic,
        decode_ttl: CacheControlTtl::OneMinute,
    };
    let thinking = Thinking { thinking_type: ThinkingType::Enabled };
    let baseten_ext = BasetenExt::builder()
        .cache_control(cache_control.clone())
        .decode_cache_control(decode)
        .baseten(object("key", "value"))
        .dynamic_temperature(temperatures())
        .priority(object("level", "high"))
        .thinking(thinking)
        .reasoning(object("effort", "low"))
        .build();
    assert_eq!(baseten_ext.cache_control, Some(cache_control));
    assert_eq!(baseten_ext.decode_cache_control, Some(decode));
    assert_eq!(baseten_ext.baseten, Some(object("key", "value")));
    assert_eq!(baseten_ext.dynamic_temperature, Some(temperatures()));
    assert_eq!(baseten_ext.priority, Some(object("level", "high")));
    assert_eq!(baseten_ext.thinking, Some(thinking));
    assert_eq!(baseten_ext.reasoning, Some(object("effort", "low")));
}

#[test]
fn requests_hand_out_their_extensions() {
    let request = NvCreateResponse {
        inner: CreateResponse {
            model: None,
            max_output_tokens: None,
            temperature: None,
            top_p: None,
        },
        baseten_ext: BasetenExt::builder()
            .cache_control(vec![range(0, None, CacheControlTier::Basic)])
            .priority(object("level", "high"))
            .dynamic_temperature(temperatures())
            .build(),
        nvext: None,
    };
    assert_eq!(request.get_cache_control().map(|ranges| ranges.len()), Some(1));
    assert_eq!(request.get_priority(), Some(&object("level", "high")));
    assert_eq!(request.get_dynamic_temperature(), Some(&temperatures()));
    assert!(request.get_decode_cache_control().is_none());
    assert!(request.get_baseten().is_none());
    assert!(request.get_thinking().is_none());
}

#[test]
fn a_suffix_has_one_temperature() {
    let mut map = temperatures();
    map.insert(suffix("</answer>"), temperature(0.0).unwrap());
    map.insert(suffix("</think>"), temperature(1.0).unwrap());
    assert_eq!(map.len(), 2);
    assert_eq!(map.entry(0), ("</think>", temperature(1.0).unwrap()));
    assert_eq!(map.entry(1), ("</answer>", temperature(0.0).unwrap()));
}

#[test]
fn test_cache_control_validates_adjacent_open_ended_ranges() {
    let baseten_ext = with_ranges(vec![
        range(0, Some(1024), CacheControlTier::Standard),
        range(1024, None, CacheControlTier::Basic),
    ]);
    baseten_ext.validate_request().unwrap();
}

#[test]
fn test_cache_control_merges_adjacent_ranges_with_same_tier() {
    let baseten_ext = with_ranges(vec![
        range(0, Some(512), CacheControlTier::Premium),
        range(512, Some(1024), CacheControlTier::Premium),
        range(1024, Some(2048), CacheControlTier::Standard),
        range(2048, None, CacheControlTier::Standard),
    ]);
    assert_eq!(
        baseten_ext.cache_control,
        Some(vec![
            range(0, Some(1024), CacheControlTier::Premium),
            range(1024, None, CacheControlTier::Standard),
        ])
    );
    baseten_ext.validate_request().unwrap();
}

#[test]
fn ranges_apart_or_of_other_tiers_stay_apart() {
    let ranges = vec![
        range(0, Some(1), CacheControlTier::Premium),
        range(2, Some(3), CacheControlTier::Premium),
        range(3, None, CacheControlTier::Basic),
    ];
    assert_eq!(merge_adjacent_cache_control_ranges(&ranges), ranges);
}

#[test]
fn test_cache_control_rejects_non_null_final_end() {
    let baseten_ext = with_ranges(vec![range(0, Some(1024), CacheControlTier::Standard)]);
    let err = baseten_ext.validate_request().unwrap_err();
    assert!(err.message().contains("last cache_control range must be open-ended"));
}

#[test]
fn test_cache_control_rejects_non_adjacent_ranges() {
    let baseten_ext = with_ranges(vec![
        range(0, Some(1024), CacheControlTier::Standard),
        range(2048, None, CacheControlTier::Basic),
    ]);
    let err = baseten_ext.validate_request().unwrap_err();
    assert!(err.message().contains("ranges must be adjacent"));
}

#[test]
fn test_cache_control_rejects_tiers_that_increase_after_merge() {
    let baseten_ext = with_ranges(vec![
        range(0, Some(1), CacheControlTier::Standard),
        range(1, Some(2), CacheControlTier::Premium),
        range(2, None, CacheControlTier::Standard),
    ]);
    let err = baseten_ext.validate_request().unwrap_err();
    assert!(err.message().contains("premium to basic"));
}

#[test]
fn test_decode_cache_control_allows_same_or_lower_tier_than_last_cache_control_range() {
    let mut baseten_ext = with_ranges(vec![range(0, None, CacheControlTier::Standard)]);
    baseten_ext.decode_cache_control = Some(DecodeCacheControl {
        tier: CacheControlTier::Basic,
        decode_ttl: CacheControlTtl::default(),
    });
    baseten_ext.validate_request().unwrap();
}

#[test]
fn test_decode_cache_control_rejects_higher_tier_than_last_cache_control_range() {
    let mut baseten_ext = with_ranges(vec![range(0, None, CacheControlTier::Basic)]);
    baseten_ext.decode_cache_control = Some(DecodeCacheControl {
        tier: CacheControlTier::Standard,
        decode_ttl: CacheControlTtl::default(),
    });
    let err = baseten_ext.validate_request().unwrap_err();
    assert!(err.message().contains("decode_cache_control tier must be no higher"));
}

#[test]
fn each_fault_of_the_ranges_has_its_error() {
    let basic = CacheControlTier::Basic;
    for (ranges, error) in [
        (vec![], CacheControlError::NoRanges),
        (vec![range(1, None, basic)], CacheControlError::NotFromZero),
        (
            vec![range(0, Some(0), basic), range(0, None, basic)],
            CacheControlError::VoidRange,
        ),
        (vec![range(0, Some(1), basic)], CacheControlError::LastNotOpen),
        (
            vec![range(0, None, basic), range(1, None, basic)],
            CacheControlError::OpenBeforeLast,
        ),
        (
            vec![range(0, Some(1), basic), range(2, None, basic)],
            CacheControlError::NotAdjacent,
        ),
        (
            vec![range(0, Some(1), basic), range(1, None, CacheControlTier::Standard)],
            CacheControlError::TierRises,
        ),
    ] {
        assert_eq!(validate_cache_control_ranges(&ranges), Err(error));
    }
}

#[test]
fn test_dynamic_temperature_newtype_validation_valid() {
    for value in [0.0f32, 1.0, 2.0] {
        assert_eq!(f32::from_bits(temperature(value).unwrap().get().bits), value);
    }
    assert_eq!(suffix("</think>").as_str(), "</think>");
    assert_eq!(suffix("</think>").into_text(), "</think>");
}

#[test]
fn test_dynamic_temperature_newtype_validation_invalid() {
    assert!(temperature(-0.1).is_err());
    assert!(temperature(2.1).is_err());
    assert!(DynamicTemperatureSuffix::try_from_text(String::new()).is_err());
}

#[test]
fn test_dynamic_temperature_deserialization_rejects_invalid_value() {
    let err = temperature(2.1).unwrap_err();
    assert!(err.contains("dynamic_temperature values must be between 0.0 and 2.0"));
}

#[test]
fn test_dynamic_temperature_deserialization_rejects_empty_suffix() {
    let err = DynamicTemperatureSuffix::try_from_text(String::new()).unwrap_err();
    assert!(err.contains("dynamic_temperature keys must be non-empty"));
}

#[test]
fn temperatures_are_numbers_from_zero_to_two() {
    for value in [-0.0f32, f32::MIN_POSITIVE, 1.9999999] {
        assert!(temperature(value).is_ok());
    }
    for value in [f32::NAN, f32::INFINITY, f32::NEG_INFINITY, 2.0000002, -f32::MIN_POSITIVE] {
        assert!(temperature(value).is_err());
    }
}

#[test]
fn temperatures_are_found_by_their_suffix() {
    let mut map = temperatures();
    map.insert(suffix("</answer>"), temperature(0.25).unwrap());
    assert_eq!(map.get("</think>"), Some(temperature(0.7).unwrap()));
    assert_eq!(map.get("</answer>"), Some(temperature(0.25).unwrap()));
    assert_eq!(map.get("</other>"), None);
    map.insert(suffix("</think>"), temperature(0.5).unwrap());
    assert_eq!(map.get("</think>"), Some(temperature(0.5).unwrap()));
}

#[test]
fn merged_ranges_stay_accepted_and_fall_in_tier() {
    let ranges = vec![
        range(0, Some(5), CacheControlTier::Premium),
        range(5, Some(9), CacheControlTier::Premium),
        range(9, Some(12), CacheControlTier::Standard),
        range(12, Some(20), CacheControlTier::Standard),
        range(20, None, CacheControlTier::Basic),
    ];
    assert_eq!(validate_cache_control_ranges(&ranges), Ok(()));
    let merged = merge_adjacent_cache_control_ranges(&ranges);
    assert_eq!(
        merged,
        vec![
            range(0, Some(9), CacheControlTier::Premium),
            range(9, Some(20), CacheControlTier::Standard),
            range(20, None, CacheControlTier::Basic),
        ]
    );
    assert_eq!(validate_cache_control_ranges(&merged), Ok(()));
    assert_eq!(merge_adjacent_cache_control_ranges(&merged), merged);
}

#[test]
fn ranges_without_tokens_are_merged_too() {
    let ranges = vec![
        range(0, Some(5), CacheControlTier::Basic),
        range(5, Some(5), CacheControlTier::Basic),
        range(5, Some(8), CacheControlTier::Basic),
    ];
    assert_eq!(
        merge_adjacent_cache_control_ranges(&ranges),
        vec![range(0, Some(8), CacheControlTier::Basic)]
    );
}

#[test]
fn temperatures_are_the_same_in_any_order() {
    let map = |pairs: &[(&str, f32)]| {
        let mut map = DynamicTemperatureMap::new();
        for (text, value) in pairs {
            map.insert(suffix(text), temperature(*value).unwrap());
        }
        map
    };
    assert_eq!(map(&[("a", 1.0), ("b", 0.5)]), map(&[("b", 0.5), ("a", 1.0)]));
    assert_eq!(map(&[("a", 0.0)]), map(&[("a", -0.0)]));
    assert_ne!(map(&[("a", 1.0)]), map(&[("a", 0.5)]));
    assert_ne!(map(&[("a", 1.0)]), map(&[("a", 1.0), ("b", 0.5)]));
    assert_ne!(map(&[("a", 1.0), ("b", 0.5)]), map(&[("a", 1.0)]));
}

#[test]
fn floats_are_compared_as_numbers() {
    let float = |value: f32| Float32 { bits: value.to_bits() };
    assert_eq!(float(0.0), float(-0.0));
    assert_eq!(float(1.5), float(1.5));
    assert_ne!(float(1.5), float(-1.5));
    assert_ne!(float(f32::NAN), float(f32::NAN));
    assert_eq!(float(f32::INFINITY), float(f32::INFINITY));
}
