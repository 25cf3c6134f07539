use keyripper::big::Big;
use keyripper::derive::{
    base58_encode, derive_address, derive_public_key, derive_public_key_by_private_key_hex,
    parse_hex_scalar, to_hex, KeyError,
};
use keyripper::engine::{
    find_private_key_by_address, find_private_key_by_public_key, partition, scan_range,
    SearchRange, SearchResult,
};
use keyripper::estimator::{
    aggregate_rate, decompose, duration_text, estimate_duration, estimate_hash_rate, pow2_big,
    EstimateError, HardwareDescriptor,
};
use keyripper::digits::format_with_separators;
use keyripper::record::AddressRecord;
use keyripper::scheme::{pow_mod_exec, ModExpScheme};

fn scheme() -> ModExpScheme {
    ModExpScheme { modulus: 1_000_000_007, generator: 5 }
}

fn address_of(k: u64) -> String {
    let s = scheme();
    let point = derive_public_key(&s, &Big::from_u64(k)).unwrap();
    derive_address(&point)
}

#[test]
fn format_zero() {
    assert_eq!(format_with_separators(&Big::from_u64(0)), "0");
}

#[test]
fn format_small_and_grouped() {
    assert_eq!(format_with_separators(&Big::from_u64(999)), "999");
    assert_eq!(format_with_separators(&Big::from_u64(1000)), "1,000");
    assert_eq!(format_with_separators(&Big::from_u64(1234567)), "1,234,567");
}

#[test]
fn format_large_power_of_two() {
    assert_eq!(
        format_with_separators(&pow2_big(70)),
        "1,180,591,620,717,411,303,424"
    );
}

#[test]
fn hash_rate_basic() {
    let hw = HardwareDescriptor { logical_cores: 1, cpu_speed_mhz: 1 };
    assert_eq!(estimate_hash_rate(&hw), 5_000_000_000);
    let hw8 = HardwareDescriptor { logical_cores: 8, cpu_speed_mhz: 3500 };
    assert_eq!(estimate_hash_rate(&hw8), 140_000_000_000_000);
}

#[test]
fn aggregate_rate_is_product() {
    assert_eq!(aggregate_rate(3, 4).to_u64(), Some(12));
    assert_eq!(aggregate_rate(140_000_000_000_000, 1).to_u64(), Some(140_000_000_000_000));
}

#[test]
fn zero_rate_is_unknown_not_zero_seconds() {
    let keyspace = pow2_big(60);
    let rate = Big::from_u64(0);
    assert!(matches!(
        estimate_duration(&keyspace, &rate),
        Err(EstimateError::RateUnknown)
    ));
}

#[test]
fn duration_scenario_sixty_bit_keyspace() {
    // 8 cores at 3.5 GHz on one machine against a 60-bit keyspace.
    let hw = HardwareDescriptor { logical_cores: 8, cpu_speed_mhz: 3500 };
    let rate = aggregate_rate(estimate_hash_rate(&hw), 1);
    let seconds = estimate_duration(&pow2_big(60), &rate).unwrap();
    assert_eq!(seconds.to_u64(), Some(8235));
    let parts = decompose(&seconds);
    assert_eq!(parts.years.to_u64(), Some(0));
    assert_eq!(parts.days, 0);
    assert_eq!(parts.hours, 2);
    assert_eq!(parts.minutes, 17);
    assert_eq!(parts.seconds, 15);
    assert_eq!(duration_text(&parts), "0 days, 2 hours, 17 minutes, 15 seconds");
}

#[test]
fn duration_non_increasing_in_rate_and_machines() {
    let keyspace = pow2_big(60);
    let one_machine = estimate_duration(&keyspace, &aggregate_rate(140_000_000_000_000, 1))
        .unwrap()
        .to_u64()
        .unwrap();
    let two_machines = estimate_duration(&keyspace, &aggregate_rate(140_000_000_000_000, 2))
        .unwrap()
        .to_u64()
        .unwrap();
    let faster_rate = estimate_duration(&keyspace, &aggregate_rate(280_000_000_000_000, 1))
        .unwrap()
        .to_u64()
        .unwrap();
    assert!(two_machines <= one_machine);
    assert!(faster_rate <= one_machine);
    assert_eq!(one_machine, 8235);
    assert_eq!(two_machines, 4117);
}

#[test]
fn duration_text_sub_second() {
    let parts = decompose(&Big::from_u64(0));
    assert_eq!(duration_text(&parts), "Less than 1 second");
}

#[test]
fn duration_text_with_years() {
    // 2 years, 3 days, 4 hours, 5 minutes, 6 seconds.
    let total = 2u64 * 31_536_000 + 3 * 86_400 + 4 * 3600 + 5 * 60 + 6;
    let parts = decompose(&Big::from_u64(total));
    assert_eq!(duration_text(&parts), "2 years, 3 days, 4 hours, 5 minutes, 6 seconds");
}

#[test]
fn calc_report_lines() {
    let hw = HardwareDescriptor { logical_cores: 8, cpu_speed_mhz: 3500 };
    let report = keyripper::estimator::calc(&hw, Some(1), 130, 60).unwrap();
    assert_eq!(report.total_keys_text, "1,152,921,504,606,846,976");
    assert_eq!(report.hash_rate_text, "140,000,000,000,000");
    assert_eq!(report.duration_text, "0 days, 2 hours, 17 minutes, 15 seconds");
    assert_eq!(report.block_count_text, "1,180,591,620,717,411,303,424");
}

#[test]
fn calc_zero_machines_is_rate_unknown() {
    let hw = HardwareDescriptor { logical_cores: 8, cpu_speed_mhz: 3500 };
    assert!(keyripper::estimator::calc(&hw, Some(0), 130, 60).is_err());
}

#[test]
fn base58_small_values() {
    assert_eq!(base58_encode(&vec![]), "");
    assert_eq!(base58_encode(&vec![0]), "1");
    assert_eq!(base58_encode(&vec![0, 0, 1]), "112");
    assert_eq!(base58_encode(&vec![1, 0]), "5R");
}

#[test]
fn base58_known_vector() {
    let bytes: Vec<u8> = b"Hello World!".to_vec();
    assert_eq!(base58_encode(&bytes), "2NEpo7TZRRrLZSi2U");
}

#[test]
fn pow_mod_matches_reference() {
    assert_eq!(pow_mod_exec(5, &Big::from_u64(3), 1_000_000_007), 125);
    assert_eq!(pow_mod_exec(5, &Big::from_u64(777), 1_000_000_007), 541_891_004);
    assert_eq!(pow_mod_exec(5, &Big::from_u64(0), 1_000_000_007), 1);
}

#[test]
fn derived_address_exact_value() {
    // Full pipeline against an independently computed reference value.
    assert_eq!(address_of(777), "1K1ujozrsMFLGqYMD1FgSyL4nRHoYeDTXU");
    assert_eq!(address_of(5000), "1ETygPrem5oR29AsVwxrBJx8B7ivrb1snL");
}

#[test]
fn derived_address_shape() {
    let addr = address_of(1);
    assert!(addr.len() >= 26 && addr.len() <= 34);
    assert!(addr.starts_with('1'));
}

#[test]
fn derive_public_key_rejects_invalid_scalars() {
    let s = scheme();
    assert_eq!(derive_public_key(&s, &Big::from_u64(0)), Err(KeyError::InvalidScalar));
    assert_eq!(
        derive_public_key(&s, &Big::from_u64(1_000_000_007)),
        Err(KeyError::InvalidScalar)
    );
    assert!(derive_public_key(&s, &Big::from_u64(1_000_000_006)).is_ok());
}

#[test]
fn public_key_by_hex() {
    let s = scheme();
    let hex = derive_public_key_by_private_key_hex(&s, "01");
    assert_eq!(
        hex.as_deref(),
        Some("020000000000000000000000000000000000000000000000000000000000000005")
    );
    assert_eq!(derive_public_key_by_private_key_hex(&s, ""), None);
    assert_eq!(derive_public_key_by_private_key_hex(&s, "zz"), None);
    assert_eq!(derive_public_key_by_private_key_hex(&s, "0"), None);
    // 0x3b9aca07 == 1000000007, the order itself: out of range.
    assert_eq!(derive_public_key_by_private_key_hex(&s, "3b9aca07"), None);
}

#[test]
fn parse_hex_values() {
    assert_eq!(parse_hex_scalar("ff").unwrap().to_u64(), Some(255));
    assert_eq!(parse_hex_scalar("FF").unwrap().to_u64(), Some(255));
    assert_eq!(parse_hex_scalar("0").unwrap().to_u64(), Some(0));
    assert_eq!(parse_hex_scalar("deadBEEF").unwrap().to_u64(), Some(0xdead_beef));
    assert!(parse_hex_scalar("").is_none());
    assert!(parse_hex_scalar("12g4").is_none());
}

#[test]
fn to_hex_renders_bytes() {
    assert_eq!(to_hex(&vec![]), "");
    assert_eq!(to_hex(&vec![0x00, 0xab, 0x5c]), "00ab5c");
}

#[test]
fn partition_splits_evenly() {
    let range = SearchRange::new(Big::from_u64(1), Big::from_u64(10)).unwrap();
    let parts = partition(&range, 3);
    let bounds: Vec<(u64, u64)> = parts
        .iter()
        .map(|p| (p.low.to_u64().unwrap(), p.high.to_u64().unwrap()))
        .collect();
    assert_eq!(bounds, vec![(1, 4), (5, 7), (8, 10)]);
}

#[test]
fn partition_more_workers_than_scalars() {
    let range = SearchRange::new(Big::from_u64(5), Big::from_u64(7)).unwrap();
    let parts = partition(&range, 10);
    let bounds: Vec<(u64, u64)> = parts
        .iter()
        .map(|p| (p.low.to_u64().unwrap(), p.high.to_u64().unwrap()))
        .collect();
    assert_eq!(bounds, vec![(5, 5), (6, 6), (7, 7)]);
}

#[test]
fn range_bounds_validated() {
    assert!(SearchRange::new(Big::from_u64(0), Big::from_u64(5)).is_none());
    assert!(SearchRange::new(Big::from_u64(6), Big::from_u64(5)).is_none());
    assert!(SearchRange::new(Big::from_u64(5), Big::from_u64(5)).is_some());
}

#[test]
fn scan_finds_first_match() {
    let s = scheme();
    let target = address_of(42);
    let found = scan_range(&s, &target, &Big::from_u64(1), &Big::from_u64(100));
    assert_eq!(found.unwrap().to_u64(), Some(42));
}

#[test]
fn search_finds_key_in_range() {
    // A range holding exactly one matching scalar yields it for any worker
    // count.
    let s = scheme();
    let target = address_of(777);
    for workers in [1u64, 2, 8] {
        let range = SearchRange::new(Big::from_u64(1), Big::from_u64(1000)).unwrap();
        match find_private_key_by_address(&s, &target, &range, workers) {
            SearchResult::Found(k) => assert_eq!(k.to_u64(), Some(777)),
            _ => panic!("expected Found"),
        }
    }
}

#[test]
fn search_exhausts_when_target_out_of_range() {
    let s = scheme();
    let target = address_of(5000);
    for workers in [1u64, 2, 8] {
        let range = SearchRange::new(Big::from_u64(1), Big::from_u64(1000)).unwrap();
        match find_private_key_by_address(&s, &target, &range, workers) {
            SearchResult::Exhausted => {},
            _ => panic!("expected Exhausted"),
        }
    }
}

#[test]
fn search_by_public_key_finds_key() {
    let s = scheme();
    let target = derive_public_key(&s, &Big::from_u64(321)).unwrap();
    for workers in [1u64, 2, 8] {
        let range = SearchRange::new(Big::from_u64(1), Big::from_u64(1000)).unwrap();
        match find_private_key_by_public_key(&s, &target, &range, workers) {
            SearchResult::Found(k) => assert_eq!(k.to_u64(), Some(321)),
            _ => panic!("expected Found"),
        }
    }
}

#[test]
fn search_by_public_key_exhausts() {
    let s = scheme();
    let target = derive_public_key(&s, &Big::from_u64(5000)).unwrap();
    let range = SearchRange::new(Big::from_u64(1), Big::from_u64(1000)).unwrap();
    match find_private_key_by_public_key(&s, &target, &range, 4) {
        SearchResult::Exhausted => {},
        _ => panic!("expected Exhausted"),
    }
}

#[test]
fn record_validation() {
    let good = AddressRecord {
        address: "1K1ujozrsMFLGqYMD1FgSyL4nRHoYeDTXU".to_string(),
        bit_range: 60,
        private_key_hex: "0309".to_string(),
        solved: true,
    };
    assert!(good.is_valid());
    let unsolved = AddressRecord {
        address: "1ETygPrem5oR29AsVwxrBJx8B7ivrb1snL".to_string(),
        bit_range: 40,
        private_key_hex: String::new(),
        solved: false,
    };
    assert!(unsolved.is_valid());
    let bad_hex = AddressRecord {
        address: "1ETygPrem5oR29AsVwxrBJx8B7ivrb1snL".to_string(),
        bit_range: 40,
        private_key_hex: "xy".to_string(),
        solved: true,
    };
    assert!(!bad_hex.is_valid());
    let empty_address = AddressRecord {
        address: String::new(),
        bit_range: 40,
        private_key_hex: String::new(),
        solved: false,
    };
    assert!(!empty_address.is_valid());
}

#[test]
fn record_invariant_checked_against_scheme() {
    // 0x0309 == 777: the solved record reproduces its own address.
    let s = scheme();
    let consistent = AddressRecord {
        address: address_of(777),
        bit_range: 10,
        private_key_hex: "0309".to_string(),
        solved: true,
    };
    assert!(keyripper::record::record_consistent(&s, &consistent));
    let wrong_address = AddressRecord {
        address: address_of(778),
        bit_range: 10,
        private_key_hex: "0309".to_string(),
        solved: true,
    };
    assert!(!keyripper::record::record_consistent(&s, &wrong_address));
    let bad_key = AddressRecord {
        address: address_of(777),
        bit_range: 10,
        private_key_hex: "zz".to_string(),
        solved: true,
    };
    assert!(!keyripper::record::record_consistent(&s, &bad_key));
}

#[test]
fn big_arithmetic_basics() {
    let a = Big::from_u64(1_000_000_000_000);
    let b = Big::from_u64(999);
    assert_eq!(a.add_big(&b).to_u64(), Some(1_000_000_000_999));
    assert_eq!(a.sub_big(&b).to_u64(), Some(999_999_999_001));
    assert_eq!(Big::from_u64(7).mul_big(&Big::from_u64(6)).to_u64(), Some(42));
    let (q, r) = Big::from_u64(100).divmod_big(&Big::from_u64(7));
    assert_eq!(q.to_u64(), Some(14));
    assert_eq!(r.to_u64(), Some(2));
    assert!(Big::from_u64(3).le_big(&Big::from_u64(4)));
    assert!(!Big::from_u64(5).le_big(&Big::from_u64(4)));
    assert!(Big::from_u64(0).is_zero());
    assert!(!Big::from_u64(1).is_zero());
    let big = pow2_big(64);
    assert_eq!(big.to_u64(), None);
    assert_eq!(big.clone_big().sub_big(&Big::from_u64(1)).to_u64(), Some(u64::MAX));
}
