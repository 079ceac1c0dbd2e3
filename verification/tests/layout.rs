use storage_layout::packing::{
    checked_snap, compute_size, compute_size_within, update_state, Packing, DEFAULT_DEPTH,
};
use storage_layout::parse::parse_type;
use storage_layout::registry::Registry;
use storage_layout::slots::slot_count;
use storage_layout::types::{SizeError, SolStruct, SolType};

fn record(name: &str, fields: Vec<(&str, SolType)>) -> SolStruct {
    SolStruct {
        name: name.to_string(),
        fields: fields.into_iter().map(|(n, t)| (n.to_string(), t)).collect(),
    }
}

fn named(name: &str) -> SolType {
    SolType::Custom2(name.to_string())
}

fn empty() -> Registry {
    Registry::new(Vec::new())
}

fn start() -> Packing {
    Packing { total_bits: 0, slot_bits_used: 0 }
}

fn hundred_bits() -> SolStruct {
    record(
        "StructX",
        vec![
            ("x", SolType::Uint(96)),
            ("b1", SolType::Bool),
            ("b2", SolType::Bool),
            ("b3", SolType::Bool),
            ("b4", SolType::Bool),
        ],
    )
}

#[test]
fn standalone_sizes_of_elementary_types() {
    let all = empty();
    assert_eq!(SolType::Address.size(&all), Ok(160));
    assert_eq!(SolType::Bool.size(&all), Ok(1));
    assert_eq!(SolType::BytesArbitrary.size(&all), Ok(256));
    assert_eq!(SolType::Bytes(32).size(&all), Ok(256));
    assert_eq!(SolType::Bytes(1).size(&all), Ok(8));
    assert_eq!(SolType::Int(24).size(&all), Ok(24));
    let mut w: u16 = 8;
    while w <= 256 {
        assert_eq!(SolType::Uint(w).size(&all), Ok(w as u64));
        w += 8;
    }
}

#[test]
fn standalone_sizes_of_containers() {
    let all = empty();
    assert_eq!(
        SolType::Mapping(Box::new(SolType::Address), Box::new(SolType::Uint(8))).size(&all),
        Ok(256)
    );
    assert_eq!(SolType::Array(Box::new(SolType::Uint(8))).size(&all), Ok(256));
    assert_eq!(SolType::Array(Box::new(named("Missing"))).size(&all), Ok(256));
}

#[test]
fn standalone_fixed_repetition_takes_whole_slots_per_item() {
    let all = empty();
    assert_eq!(SolType::FixedArray(Box::new(SolType::Uint(8)), 3).size(&all), Ok(768));
    assert_eq!(SolType::FixedArray(Box::new(SolType::Uint(256)), 2).size(&all), Ok(512));
    assert_eq!(SolType::FixedArray(Box::new(SolType::Uint(8)), 0).size(&all), Ok(0));
    assert_eq!(
        SolType::FixedArray(Box::new(SolType::FixedArray(Box::new(SolType::Bool), 2)), 2)
            .size(&all),
        Ok(1024)
    );
}

#[test]
fn standalone_fixed_repetition_that_does_not_fit() {
    let all = empty();
    assert_eq!(
        SolType::FixedArray(Box::new(SolType::Uint(8)), u64::MAX).size(&all),
        Err(SizeError::Overflow)
    );
    assert_eq!(
        SolType::FixedArray(Box::new(SolType::Uint(8)), (1 << 56) - 1).size(&all),
        Ok(0xFFFF_FFFF_FFFF_FF00)
    );
    assert_eq!(
        SolType::FixedArray(Box::new(SolType::Uint(8)), 1 << 56).size(&all),
        Err(SizeError::Overflow)
    );
}

#[test]
fn two_128_bit_fields_share_one_slot() {
    let r = record("R", vec![("a", SolType::Uint(128)), ("b", SolType::Uint(128))]);
    let bits = compute_size(&r, &empty()).unwrap();
    assert_eq!(bits, 256);
    assert_eq!(slot_count(bits), 1);
}

#[test]
fn third_128_bit_field_starts_a_fresh_slot() {
    let r = record(
        "R",
        vec![("a", SolType::Uint(128)), ("b", SolType::Uint(128)), ("c", SolType::Uint(128))],
    );
    let all = empty();
    let bits = compute_size(&r, &all).unwrap();
    assert_eq!(bits, 384);
    assert_eq!(slot_count(bits), 2);
    let after_two = Packing { total_bits: 256, slot_bits_used: 256 };
    assert_eq!(
        update_state(&SolType::Uint(128), after_two, &all, DEFAULT_DEPTH),
        Ok(Packing { total_bits: 384, slot_bits_used: 128 })
    );
}

#[test]
fn value_that_does_not_fit_skips_the_rest_of_the_slot() {
    let all = empty();
    let st = Packing { total_bits: 200, slot_bits_used: 200 };
    assert_eq!(
        update_state(&SolType::Address, st, &all, DEFAULT_DEPTH),
        Ok(Packing { total_bits: 416, slot_bits_used: 160 })
    );
    assert_eq!(
        update_state(&SolType::Uint(56), st, &all, DEFAULT_DEPTH),
        Ok(Packing { total_bits: 256, slot_bits_used: 256 })
    );
    assert_eq!(
        update_state(&SolType::Bool, Packing { total_bits: 256, slot_bits_used: 256 }, &all, 0),
        Ok(Packing { total_bits: 257, slot_bits_used: 1 })
    );
}

#[test]
fn single_dynamic_repetition_is_one_slot() {
    let all = empty();
    for elem in [
        SolType::Uint(8),
        SolType::Bytes(32),
        named("Missing"),
        SolType::Array(Box::new(SolType::Bool)),
        SolType::Custom(hundred_bits()),
    ] {
        let r = record("R", vec![("items", SolType::Array(Box::new(elem)))]);
        let bits = compute_size(&r, &all).unwrap();
        assert_eq!(bits, 256);
        assert_eq!(slot_count(bits), 1);
    }
}

#[test]
fn dynamic_items_start_on_a_boundary() {
    let all = empty();
    let st = Packing { total_bits: 8, slot_bits_used: 8 };
    let full = Packing { total_bits: 512, slot_bits_used: 0 };
    assert_eq!(update_state(&SolType::BytesArbitrary, st, &all, 0), Ok(full));
    assert_eq!(
        update_state(
            &SolType::Mapping(Box::new(SolType::Address), Box::new(SolType::Bool)),
            st,
            &all,
            0
        ),
        Ok(full)
    );
    assert_eq!(update_state(&SolType::Array(Box::new(SolType::Bool)), st, &all, 0), Ok(full));
}

#[test]
fn nested_record_starts_and_ends_on_a_boundary() {
    let all = Registry::new(vec![hundred_bits()]);
    assert_eq!(compute_size(&hundred_bits(), &all), Ok(100));
    let outer = record(
        "Outer",
        vec![("a", SolType::Uint(8)), ("b", named("StructX")), ("c", SolType::Uint(8))],
    );
    let after_a = update_state(&SolType::Uint(8), start(), &all, DEFAULT_DEPTH).unwrap();
    assert_eq!(after_a, Packing { total_bits: 8, slot_bits_used: 8 });
    let after_b = update_state(&named("StructX"), after_a, &all, DEFAULT_DEPTH).unwrap();
    assert_eq!(after_b, Packing { total_bits: 512, slot_bits_used: 0 });
    let after_c = update_state(&SolType::Uint(8), after_b, &all, DEFAULT_DEPTH).unwrap();
    assert_eq!(after_c, Packing { total_bits: 520, slot_bits_used: 8 });
    assert_eq!(compute_size(&outer, &all), Ok(520));
    assert_eq!(slot_count(520), 3);
    let inline = record(
        "Outer",
        vec![
            ("a", SolType::Uint(8)),
            ("b", SolType::Custom(hundred_bits())),
            ("c", SolType::Uint(8)),
        ],
    );
    assert_eq!(compute_size(&inline, &empty()), Ok(520));
}

#[test]
fn fixed_repetition_in_a_record_packs_its_items_tightly() {
    let all = empty();
    let r = record(
        "R",
        vec![("a", SolType::Bool), ("b", SolType::FixedArray(Box::new(SolType::Uint(64)), 5))],
    );
    assert_eq!(compute_size(&r, &all), Ok(256 + 5 * 64));
    let wide = record("R", vec![("b", SolType::FixedArray(Box::new(SolType::Address), 3))]);
    assert_eq!(compute_size(&wide, &all), Ok(672));
    let none = record(
        "R",
        vec![("a", SolType::Bool), ("b", SolType::FixedArray(Box::new(SolType::Uint(64)), 0))],
    );
    assert_eq!(compute_size(&none, &all), Ok(256));
}

#[test]
fn fixed_repetition_of_records_aligns_each_item() {
    let all = Registry::new(vec![hundred_bits()]);
    let r = record("R", vec![("b", SolType::FixedArray(Box::new(named("StructX")), 3))]);
    assert_eq!(compute_size(&r, &all), Ok(768));
}

#[test]
fn record_without_fields_has_size_zero() {
    let r = record("Empty", vec![]);
    assert_eq!(compute_size(&r, &empty()), Ok(0));
    assert_eq!(SolType::Custom(record("Empty", vec![])).size(&empty()), Ok(0));
    assert_eq!(slot_count(0), 0);
}

#[test]
fn unregistered_name_is_an_unresolved_reference() {
    let all = Registry::new(vec![hundred_bits()]);
    assert_eq!(
        named("Nowhere").size(&all),
        Err(SizeError::UnresolvedReference("Nowhere".to_string()))
    );
    let r = record("R", vec![("a", SolType::Bool), ("b", named("Nowhere"))]);
    assert_eq!(
        compute_size(&r, &all),
        Err(SizeError::UnresolvedReference("Nowhere".to_string()))
    );
    assert_eq!(
        compute_size_within(&r, &all, 0),
        Err(SizeError::UnresolvedReference("Nowhere".to_string()))
    );
}

#[test]
fn registered_name_resolves_standalone() {
    let all = Registry::new(vec![hundred_bits()]);
    assert_eq!(named("StructX").size(&all), Ok(100));
    assert_eq!(named("StructX").size_within(&all, 1), Ok(100));
    assert_eq!(named("StructX").size_within(&all, 0), Err(SizeError::RecursionLimitExceeded));
}

#[test]
fn record_that_names_itself_exceeds_the_depth() {
    let looped = record("Loop", vec![("a", SolType::Bool), ("next", named("Loop"))]);
    let all = Registry::new(vec![record(
        "Loop",
        vec![("a", SolType::Bool), ("next", named("Loop"))],
    )]);
    assert_eq!(compute_size(&looped, &all), Err(SizeError::RecursionLimitExceeded));
    assert_eq!(named("Loop").size(&all), Err(SizeError::RecursionLimitExceeded));
    let a = record("A", vec![("b", named("B"))]);
    let b = record("B", vec![("a", named("A"))]);
    let both = Registry::new(vec![a, b]);
    assert_eq!(named("A").size(&both), Err(SizeError::RecursionLimitExceeded));
}

#[test]
fn depth_counts_the_names_followed() {
    let inner = record("Inner", vec![("x", SolType::Uint(256))]);
    let middle = record("Middle", vec![("i", named("Inner"))]);
    let all = Registry::new(vec![inner, middle]);
    let outer = record("Outer", vec![("m", named("Middle"))]);
    assert_eq!(compute_size_within(&outer, &all, 2), Ok(256));
    assert_eq!(compute_size_within(&outer, &all, 1), Err(SizeError::RecursionLimitExceeded));
}

#[test]
fn later_record_of_a_name_stands() {
    let first = record("T", vec![("x", SolType::Uint(8))]);
    let second = record("T", vec![("x", SolType::Uint(8)), ("y", SolType::Uint(256))]);
    let all = Registry::new(vec![first, second]);
    assert_eq!(named("T").size(&all), Ok(512));
    assert_eq!(all.get("T").map(|r| r.fields.len()), Some(2));
    assert!(all.get("t").is_none());
}

#[test]
fn total_that_does_not_fit_is_an_overflow() {
    let all = empty();
    let near = Packing { total_bits: u64::MAX - 7, slot_bits_used: 0 };
    assert_eq!(update_state(&SolType::Uint(16), near, &all, 0), Err(SizeError::Overflow));
    assert_eq!(
        update_state(&SolType::Uint(8), Packing { total_bits: u64::MAX - 8, slot_bits_used: 0 }, &all, 0),
        Ok(Packing { total_bits: u64::MAX, slot_bits_used: 8 })
    );
    assert_eq!(update_state(&SolType::BytesArbitrary, near, &all, 0), Err(SizeError::Overflow));
    assert_eq!(
        update_state(
            &SolType::BytesArbitrary,
            Packing { total_bits: 0xFFFF_FFFF_FFFF_FF00, slot_bits_used: 0 },
            &all,
            0
        ),
        Err(SizeError::Overflow)
    );
}

#[test]
fn checked_snap_stops_at_the_last_boundary() {
    assert_eq!(checked_snap(0), Some(0));
    assert_eq!(checked_snap(100), Some(256));
    assert_eq!(checked_snap(0xFFFF_FFFF_FFFF_FF00), Some(0xFFFF_FFFF_FFFF_FF00));
    assert_eq!(checked_snap(0xFFFF_FFFF_FFFF_FF01), None);
}

#[test]
fn keywords_read_and_sized() {
    let all = empty();
    let mut w: u16 = 8;
    while w <= 256 {
        let typ = parse_type(&format!("uint{}", w)).unwrap();
        assert_eq!(typ, SolType::Uint(w));
        assert_eq!(typ.size(&all), Ok(w as u64));
        w += 8;
    }
    assert_eq!(parse_type("address").unwrap().size(&all), Ok(160));
    assert_eq!(parse_type("bool").unwrap().size(&all), Ok(1));
    assert_eq!(parse_type("bytes").unwrap().size(&all), Ok(256));
    assert_eq!(parse_type("bytes32").unwrap().size(&all), Ok(256));
}

#[test]
fn unknown_name_reads_but_has_no_size() {
    let typ = parse_type("Ledger").unwrap();
    assert_eq!(typ, named("Ledger"));
    assert!(typ.is_well_formed());
    let all = Registry::new(vec![hundred_bits()]);
    assert_eq!(typ.size(&all), Err(SizeError::UnresolvedReference("Ledger".to_string())));
    assert_eq!(
        update_state(&typ, start(), &all, DEFAULT_DEPTH),
        Err(SizeError::UnresolvedReference("Ledger".to_string()))
    );
}

#[test]
fn well_formed_types_have_valid_widths() {
    assert!(SolType::Uint(8).is_well_formed());
    assert!(SolType::Int(256).is_well_formed());
    assert!(SolType::Bytes(1).is_well_formed());
    assert!(!SolType::Uint(0).is_well_formed());
    assert!(!SolType::Uint(12).is_well_formed());
    assert!(!SolType::Int(264).is_well_formed());
    assert!(!SolType::Bytes(0).is_well_formed());
    assert!(!SolType::Bytes(33).is_well_formed());
    assert!(!SolType::Array(Box::new(SolType::Uint(7))).is_well_formed());
    assert!(!SolType::FixedArray(Box::new(SolType::Bytes(40)), 2).is_well_formed());
    assert!(!SolType::Mapping(Box::new(SolType::Bool), Box::new(SolType::Int(1))).is_well_formed());
    assert!(hundred_bits().is_well_formed());
    assert!(!record("Bad", vec![("a", SolType::Bool), ("b", SolType::Uint(300))]).is_well_formed());
    assert!(!SolType::Custom(record("Bad", vec![("b", SolType::Uint(300))])).is_well_formed());
}

#[test]
fn clone_gives_an_equal_value() {
    let typ = SolType::Mapping(
        Box::new(SolType::Address),
        Box::new(SolType::FixedArray(Box::new(SolType::Custom(hundred_bits())), 4)),
    );
    assert_eq!(typ.clone(), typ);
    assert_eq!(hundred_bits().clone(), hundred_bits());
    assert_eq!(named("X").clone(), named("X"));
}

#[test]
fn repetition_of_a_repetition_read_and_sized() {
    let all = empty();
    let typ = parse_type("uint64[2][3]").unwrap();
    assert_eq!(typ.size(&all), Ok(3 * 512));
    let r = record("R", vec![("a", SolType::Bool), ("grid", typ)]);
    assert_eq!(compute_size(&r, &all), Ok(768 + 128));
}
