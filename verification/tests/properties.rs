use plu_code::extract_alternative_name;
use plu_code::extract_characteristics;
use plu_code::normalize_size;
use plu_code::parse_plu_codes;
use plu_code::parse_plu_text;
use plu_code::process_item_line;
use plu_code::PluItem;

#[test]
fn test_dual_size_round_trip() {
    let text = "Cat\n• Base, small (101), large (102)";
    let collection = parse_plu_text(text).unwrap();
    assert_eq!(collection.items.len(), 2);
    assert_eq!(collection.items[0].name, "Base, small");
    assert_eq!(collection.items[0].plu_codes, vec![101]);
    assert_eq!(collection.items[0].category_path, vec!["Cat"]);
    assert_eq!(collection.items[1].name, "Base, large");
    assert_eq!(collection.items[1].plu_codes, vec![102]);
    assert_eq!(collection.items[1].category_path, vec!["Cat"]);
}

#[test]
fn test_alternate_name_sizes() {
    let text = "Cat\n• Primary / Alt, small (101), large (102)";
    let collection = parse_plu_text(text).unwrap();
    assert_eq!(collection.items.len(), 2);
    assert_eq!(
        collection.items[0].alternative_name,
        Some("Alt, small".to_string())
    );
    assert_eq!(
        collection.items[1].alternative_name,
        Some("Alt, large".to_string())
    );
}

#[test]
fn test_range_suppression_ascii_hyphen() {
    let text = "Apple\n• retailer assigned (4193-4217)";
    let collection = parse_plu_text(text).unwrap();
    assert_eq!(collection.items.len(), 0);
}

#[test]
fn test_range_without_marker_gives_no_record() {
    let text = "Apple\n• Some block (4193-4217)";
    let collection = parse_plu_text(text).unwrap();
    assert_eq!(collection.items.len(), 0);
}

#[test]
fn test_footnote_truncation_codes() {
    assert_eq!(parse_plu_codes("41361,2"), vec![4136]);
    assert_eq!(parse_plu_codes("41371,2"), vec![4137]);
    assert_eq!(parse_plu_codes("33923"), vec![3392]);
    assert_eq!(parse_plu_codes("4021, 41361,2"), vec![4021, 4136]);
}

#[test]
fn test_codes_plain_and_range() {
    assert_eq!(parse_plu_codes("4098"), vec![4098]);
    assert_eq!(parse_plu_codes("4049, 43181"), vec![4049, 43181]);
    assert_eq!(parse_plu_codes("4193-4217"), Vec::<u32>::new());
    assert_eq!(parse_plu_codes("4193‐4217"), Vec::<u32>::new());
    assert_eq!(parse_plu_codes(""), Vec::<u32>::new());
    // A candidate too large for u32 is dropped, not truncated.
    assert_eq!(parse_plu_codes("99999999999999999999"), Vec::<u32>::new());
}

#[test]
fn test_bracketed_characteristics() {
    let (name, chars) = extract_characteristics("Mini, seedless [3-7 pounds]");
    assert_eq!(name, "Mini, seedless");
    assert_eq!(chars, vec!["3-7 pounds"]);

    let (name2, chars2) = extract_characteristics("Plain name");
    assert_eq!(name2, "Plain name");
    assert!(chars2.is_empty());

    // Only the ends are trimmed: removing the bracketed segment leaves the
    // surrounding spaces in place.
    let (name3, chars3) = extract_characteristics("A [x, y] B");
    assert_eq!(name3, "A  B");
    assert_eq!(chars3, vec!["x", "y"]);
}

#[test]
fn test_alternative_name_extraction() {
    let (name, alt) = extract_alternative_name("Aurora / Southern Rose");
    assert_eq!(name, "Aurora");
    assert_eq!(alt, Some("Southern Rose".to_string()));

    let (name2, alt2) = extract_alternative_name("Mickey Lee / Sugarbaby");
    assert_eq!(name2, "Mickey Lee");
    assert_eq!(alt2, Some("Sugarbaby".to_string()));

    let (name3, alt3) = extract_alternative_name("No slash here");
    assert_eq!(name3, "No slash here");
    assert_eq!(alt3, None);

    let (name4, alt4) = extract_alternative_name("Primary / Alt, small");
    assert_eq!(name4, "Primary, small");
    assert_eq!(alt4, Some("Alt".to_string()));
}

#[test]
fn test_normalize_size_labels() {
    assert_eq!(normalize_size("small"), "small");
    assert_eq!(normalize_size("SMALL"), "small");
    assert_eq!(normalize_size(" Extra Large "), "extra large");
    assert_eq!(normalize_size("Jumbo"), "jumbo");
    assert_eq!(normalize_size(" Bunch "), "Bunch");
}

#[test]
fn test_subcategory_scoping() {
    // A second-level item right after a header ending in `:` gets the
    // two-element path.
    let text = "Melon\n• Watermelon:\n   o Mickey Lee / Sugarbaby (4331)";
    let collection = parse_plu_text(text).unwrap();
    assert_eq!(collection.items.len(), 1);
    assert_eq!(collection.items[0].category_path, vec!["Melon", "Watermelon"]);
}

#[test]
fn test_subcategory_missing_header_skips() {
    // A second-level item with no preceding sub-category header is skipped.
    let text = "Melon\n   o Mickey Lee / Sugarbaby (4331)";
    let collection = parse_plu_text(text).unwrap();
    assert_eq!(collection.items.len(), 0);
}

#[test]
fn test_item_without_category_skipped() {
    let text = "• Akane (4098)";
    let collection = parse_plu_text(text).unwrap();
    assert_eq!(collection.items.len(), 0);
}

#[test]
fn test_top_level_reset() {
    let text = "Apple\n• Akane (4098)\nBanana\n• Cavendish (4011)";
    let collection = parse_plu_text(text).unwrap();
    assert_eq!(collection.items.len(), 2);
    assert_eq!(collection.items[0].category_path, vec!["Apple"]);
    assert_eq!(collection.items[1].category_path, vec!["Banana"]);
}

#[test]
fn test_boilerplate_and_blank_lines_skipped() {
    let text = "no listing of these codes\n\nApple\nall commodities follow\n• Akane (4098)\n";
    let collection = parse_plu_text(text).unwrap();
    assert_eq!(collection.items.len(), 1);
    assert_eq!(collection.items[0].name, "Akane");
    assert_eq!(collection.items[0].category_path, vec!["Apple"]);
}

#[test]
fn test_empty_parenthesized_content_gives_no_record() {
    let text = "Apple\n• Oddity ( )";
    let collection = parse_plu_text(text).unwrap();
    assert_eq!(collection.items.len(), 0);
}

#[test]
fn test_standard_line_size_suffix() {
    let text = "Apple\n• Fuji, medium (4131)";
    let collection = parse_plu_text(text).unwrap();
    assert_eq!(collection.items.len(), 1);
    assert_eq!(collection.items[0].name, "Fuji");
    assert_eq!(collection.items[0].size, Some("medium".to_string()));
    assert_eq!(collection.items[0].plu_codes, vec![4131]);
}

#[test]
fn test_process_item_line_direct() {
    let path = vec!["Apple".to_string()];
    let mut items: Vec<PluItem> = Vec::new();
    let matched = process_item_line("Akane (4098)", &path, &mut items);
    assert!(matched);
    assert_eq!(items.len(), 1);
    assert_eq!(items[0].name, "Akane");
    assert_eq!(items[0].plu_codes, vec![4098]);
    assert_eq!(items[0].category_path, vec!["Apple"]);

    let unmatched = process_item_line("just words, no codes", &path, &mut items);
    assert!(!unmatched);
    assert_eq!(items.len(), 1);
}

#[test]
fn test_plu_item_new_keeps_fields() {
    let item = PluItem::new(
        "Akane, small".to_string(),
        vec![4098],
        vec!["Apple".to_string()],
        None,
        Vec::new(),
        Some("small".to_string()),
    );
    assert_eq!(item.name, "Akane, small");
    assert_eq!(item.plu_codes, vec![4098]);
    assert_eq!(item.category_path, vec!["Apple"]);
    assert_eq!(item.alternative_name, None);
    assert!(item.characteristics.is_empty());
    assert_eq!(item.size, Some("small".to_string()));
}

#[test]
fn test_no_record_has_empty_codes() {
    let text = "Apple\n• Akane, small (4098), large (4099)\n• retailer assigned (4193-4217)\nMelon\n• Watermelon:\n   o Mini, seedless [3-7 pounds] (3421)";
    let collection = parse_plu_text(text).unwrap();
    assert_eq!(collection.items.len(), 3);
    for item in &collection.items {
        assert!(!item.plu_codes.is_empty());
    }
}

#[test]
fn test_category_path_tracks_most_recent_top() {
    let text = "Apple\n• Akane (4098)\nMelon\n• Watermelon:\n   o Mini (3421)\n• Honeydew (3042)";
    let collection = parse_plu_text(text).unwrap();
    assert_eq!(collection.items.len(), 3);
    for item in &collection.items {
        assert!(item.category_path.len() == 1 || item.category_path.len() == 2);
    }
    assert_eq!(collection.items[0].category_path, vec!["Apple"]);
    assert_eq!(collection.items[1].category_path, vec!["Melon", "Watermelon"]);
    // The first-level line after the sub-category pops back to the top level.
    assert_eq!(collection.items[2].category_path, vec!["Melon"]);
}

#[test]
fn test_dual_size_one_empty_group() {
    // The group whose parentheses hold a range yields no record; the other
    // still does.
    let text = "Apple\n• Akane, small (4193-4217), large (4099)";
    let collection = parse_plu_text(text).unwrap();
    assert_eq!(collection.items.len(), 1);
    assert_eq!(collection.items[0].name, "Akane, large");
    assert_eq!(collection.items[0].plu_codes, vec![4099]);
}
