use udl_codegen::udl::enums::{Enum, EnumKind, EnumVariant, EnumVariantValue};
use udl_codegen::udl::utils::{
    extract_enum_variant, is_limit_validator, is_nullable_type, parse_limit,
    parse_limit_validator, resolve_error_variant,
};

fn reporting(id: &str, target: Option<&str>, field: Option<&str>) -> EnumKind {
    EnumKind::Complex(EnumVariant {
        id: id.to_string(),
        description: None,
        value: EnumVariantValue::Single(format!("{} raised", id)),
        target: target.map(|t| t.to_string()),
        target_field: field.map(|f| f.to_string()),
    })
}

fn errors(variants: Vec<EnumKind>) -> Enum {
    Enum { id: "LoginError".to_string(), description: None, variants }
}

#[test]
fn test_is_nullable() {
    assert!(is_nullable_type("String?"));
    assert!(!is_nullable_type("String"));
    assert!(is_nullable_type("int?^"));
    assert!(!is_nullable_type("bool^"));
}

#[test]
fn test_parse_limit_validator() {
    assert_eq!(parse_limit_validator("1...10"), (1, 10, -1));
    assert_eq!(parse_limit_validator("...10"), (-1, 10, -1));
    assert_eq!(parse_limit_validator("10..."), (10, -1, -1));
    assert_eq!(parse_limit_validator("1..10..5"), (1, 5, 10));
    assert_eq!(parse_limit_validator("1.."), (1, -1, 1));
    assert_eq!(parse_limit_validator("..10"), (-1, 10, 10));
}

#[test]
fn nullable_mark_anywhere() {
    assert!(is_nullable_type("?"));
    assert!(is_nullable_type("$enum::Status?"));
    assert!(is_nullable_type("a?b"));
    assert!(!is_nullable_type(""));
    assert!(!is_nullable_type("$enum::Status^"));
}

#[test]
fn range_with_default_between_the_bounds() {
    assert_eq!(parse_limit_validator("1..5..10"), (1, 10, 5));
    assert_eq!(parse_limit("1..5..10"), Some((1, 10, 5)));
    assert_eq!(parse_limit("-3..0..+3"), Some((-3, 3, 0)));
}

#[test]
fn range_without_separator_is_rejected() {
    assert!(!is_limit_validator("10"));
    assert_eq!(parse_limit("10"), None);
    assert_eq!(parse_limit(""), None);
    assert_eq!(parse_limit("abc"), None);
    assert_eq!(parse_limit("1.2"), None);
}

#[test]
fn range_with_two_sides_and_two_dots_is_rejected() {
    assert_eq!(parse_limit("1..2"), None);
    assert!(!is_limit_validator("1..2"));
}

#[test]
fn range_with_default_that_is_no_number_is_rejected() {
    assert_eq!(parse_limit("1..x..3"), None);
    assert_eq!(parse_limit("1....3"), Some((1, -1, -1)));
    assert_eq!(parse_limit("1.. ..3"), None);
}

#[test]
fn range_sides_that_are_no_numbers() {
    assert_eq!(parse_limit("a...b"), Some((-1, -1, -1)));
    assert_eq!(parse_limit("..."), Some((-1, -1, -1)));
    assert_eq!(parse_limit(".."), Some((-1, -1, -1)));
    assert_eq!(parse_limit("a..5..b"), Some((0, -1, 5)));
    assert_eq!(parse_limit("..x"), Some((-1, -1, -1)));
    assert_eq!(parse_limit("x.."), Some((-1, -1, -1)));
    assert_eq!(parse_limit("1 ...10"), Some((-1, 10, -1)));
}

#[test]
fn range_reads_only_its_first_pieces() {
    assert_eq!(parse_limit("1...2...3"), Some((1, 2, -1)));
    assert_eq!(parse_limit("..5.."), Some((0, -1, 5)));
}

#[test]
fn range_with_more_than_three_pieces_is_rejected() {
    assert_eq!(parse_limit("1..2..3..4"), None);
    assert!(!is_limit_validator("1..2..3..4"));
    assert_eq!(parse_limit("..1..2..3"), None);
    assert_eq!(parse_limit("1..2..3.."), None);
    assert_eq!(parse_limit("1..2..3..4..5"), None);
}

#[test]
fn range_with_signs_and_large_numbers() {
    assert_eq!(parse_limit("+5...-3"), Some((5, -3, -1)));
    assert_eq!(parse_limit("007...010"), Some((7, 10, -1)));
    assert_eq!(
        parse_limit("99999999999999999999999999...1"),
        Some((-1, 1, -1))
    );
    assert_eq!(parse_limit("-...+"), Some((-1, -1, -1)));
}

#[test]
fn is_limit_validator_agrees_with_parse_limit() {
    for value in ["1...10", "..10", "1..", "1..5..10", "...", "10", "1..2", "1..x..2"] {
        assert_eq!(is_limit_validator(value), parse_limit(value).is_some());
    }
}

#[test]
fn extract_keeps_the_variants_that_report_the_tag() {
    let e = errors(vec![
        EnumKind::Simple("K_UNKNOWN".to_string()),
        reporting("K_SHORT_NAME", Some("limit:min"), Some("name")),
        reporting("K_LONG", Some("limit:max"), None),
        reporting("K_PLAIN", None, Some("name")),
        reporting("K_SHORT_PASSWORD", Some("limit:min"), Some("password")),
    ]);
    let found = extract_enum_variant(&e, "limit:min");
    assert_eq!(found.len(), 2);
    assert_eq!(found[0].0, "K_SHORT_NAME");
    assert_eq!(found[0].1, "limit:min");
    assert_eq!(found[0].2, &Some("name".to_string()));
    assert_eq!(found[1].0, "K_SHORT_PASSWORD");
    assert_eq!(found[1].2, &Some("password".to_string()));
    let found = extract_enum_variant(&e, "limit:max");
    assert_eq!(found.len(), 1);
    assert_eq!(found[0].0, "K_LONG");
    assert_eq!(found[0].2, &None);
    assert!(extract_enum_variant(&e, "limit").is_empty());
    assert!(extract_enum_variant(&e, "").is_empty());
}

#[test]
fn single_candidate_is_raised_for_any_property() {
    let e = errors(vec![
        EnumKind::Simple("K_UNKNOWN".to_string()),
        reporting("K_TOO_SHORT", Some("limit:min"), Some("name")),
        reporting("K_TOO_LONG", Some("limit:max"), Some("name")),
    ]);
    let expected = "K_TOO_SHORT".to_string();
    assert_eq!(resolve_error_variant(&e, "limit:min", "name"), Some(&expected));
    assert_eq!(resolve_error_variant(&e, "limit:min", "password"), Some(&expected));
    assert_eq!(resolve_error_variant(&e, "limit:min", ""), Some(&expected));
    let untargeted = errors(vec![reporting("K_TOO_SHORT", Some("limit:min"), None)]);
    assert_eq!(
        resolve_error_variant(&untargeted, "limit:min", "anything"),
        Some(&expected)
    );
}

#[test]
fn several_candidates_are_told_apart_by_their_field() {
    let e = errors(vec![
        reporting("K_SHORT_NAME", Some("limit:min"), Some("name")),
        reporting("K_SHORT_PASSWORD", Some("limit:min"), Some("password")),
    ]);
    assert_eq!(
        resolve_error_variant(&e, "limit:min", "password"),
        Some(&"K_SHORT_PASSWORD".to_string())
    );
    assert_eq!(
        resolve_error_variant(&e, "limit:min", "name"),
        Some(&"K_SHORT_NAME".to_string())
    );
    assert_eq!(resolve_error_variant(&e, "limit:min", "email"), None);
}

#[test]
fn first_of_several_candidates_for_one_field_wins() {
    let e = errors(vec![
        reporting("K_FIRST", Some("limit:max"), Some("name")),
        reporting("K_NONE", Some("limit:max"), None),
        reporting("K_SECOND", Some("limit:max"), Some("name")),
    ]);
    assert_eq!(
        resolve_error_variant(&e, "limit:max", "name"),
        Some(&"K_FIRST".to_string())
    );
}

#[test]
fn no_candidate_resolves_to_nothing() {
    let e = errors(vec![
        EnumKind::Simple("K_UNKNOWN".to_string()),
        reporting("K_TOO_SHORT", Some("limit:min"), Some("name")),
    ]);
    assert_eq!(resolve_error_variant(&e, "limit:max", "name"), None);
    let empty = errors(vec![]);
    assert_eq!(resolve_error_variant(&empty, "limit:min", "name"), None);
}

/// The range constraint as the standard string functions read it; more
/// than three pieces around two dots are no range constraint.
fn with_std(value: &str) -> Option<(isize, isize, isize)> {
    if value.contains("...") {
        let parts: Vec<&str> = value.split("...").collect();
        Some((parts[0].parse().unwrap_or(-1), parts[1].parse().unwrap_or(-1), -1))
    } else {
        let parts: Vec<&str> = value.split("..").collect();
        if parts.len() > 3 {
            return None;
        }
        if parts.len() < 3 {
            return if value.starts_with("..") {
                let max = parts[1].parse().unwrap_or(-1);
                Some((-1, max, max))
            } else if value.ends_with("..") {
                let min = parts[0].parse().unwrap_or(-1);
                Some((min, -1, min))
            } else {
                None
            };
        }
        let default = parts[1].parse().ok()?;
        Some((parts[0].parse().unwrap_or(0), parts[2].parse().unwrap_or(-1), default))
    }
}

#[test]
fn ranges_agree_with_the_standard_string_functions() {
    let pieces = ["", "0", "1", "8", "32", "-1", "+7", "x", " ", "1.5", "-", "99999999999999999999"];
    let separators = ["", ".", "..", "...", "....", "....."];
    let mut count = 0;
    for a in pieces {
        for s in separators {
            for b in pieces {
                let two = format!("{a}{s}{b}");
                assert_eq!(parse_limit(&two), with_std(&two), "{:?}", two);
                count += 1;
                for t in separators {
                    for c in ["", "5", "y"] {
                        let three = format!("{a}{s}{b}{t}{c}");
                        assert_eq!(parse_limit(&three), with_std(&three), "{:?}", three);
                        count += 1;
                    }
                }
            }
        }
    }
    assert_eq!(count, 12 * 6 * 12 * (1 + 6 * 3));
}
