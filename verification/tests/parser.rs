use plu_code::parse_plu_text;

#[test]
fn test_parse_alfalfa() {
    let text = "Alfalfa Sprouts\n• Alfalfa Sprouts (4514)";
    let collection = parse_plu_text(text).unwrap();
    assert_eq!(collection.items.len(), 1);
    assert_eq!(collection.items[0].name, "Alfalfa Sprouts");
    assert_eq!(collection.items[0].plu_codes, vec![4514]);
    assert_eq!(collection.items[0].category_path, vec!["Alfalfa Sprouts"]);
}

#[test]
fn test_parse_apple_akane() {
    let text = "Apple\n• Akane, small (4098), large (4099)";
    let collection = parse_plu_text(text).unwrap();
    assert_eq!(collection.items.len(), 2);

    let small = collection
        .items
        .iter()
        .find(|i| i.name == "Akane, small")
        .unwrap();
    assert_eq!(small.plu_codes, vec![4098]);
    assert_eq!(small.category_path, vec!["Apple"]);
    assert_eq!(small.size, Some("small".to_string()));

    let large = collection
        .items
        .iter()
        .find(|i| i.name == "Akane, large")
        .unwrap();
    assert_eq!(large.plu_codes, vec![4099]);
    assert_eq!(large.category_path, vec!["Apple"]);
    assert_eq!(large.size, Some("large".to_string()));
}

#[test]
fn test_parse_apple_aurora() {
    let text = "Apple\n• Aurora / Southern Rose, small (3001), large (3290)";
    let collection = parse_plu_text(text).unwrap();
    assert_eq!(collection.items.len(), 2);

    let small = collection
        .items
        .iter()
        .find(|i| i.name == "Aurora, small")
        .unwrap();
    assert_eq!(small.plu_codes, vec![3001]);
    assert_eq!(small.category_path, vec!["Apple"]);
    assert_eq!(
        small.alternative_name,
        Some("Southern Rose, small".to_string())
    );
    assert_eq!(small.size, Some("small".to_string()));

    let large = collection
        .items
        .iter()
        .find(|i| i.name == "Aurora, large")
        .unwrap();
    assert_eq!(large.plu_codes, vec![3290]);
    assert_eq!(large.category_path, vec!["Apple"]);
    assert_eq!(
        large.alternative_name,
        Some("Southern Rose, large".to_string())
    );
    assert_eq!(large.size, Some("large".to_string()));
}

#[test]
fn test_parse_melon_cantaloupe() {
    // The real text carries footnote markers like ¹, ignored by code parsing.
    let text = "Melon\n• Cantaloupe / Muskmelon, small (4049, 43181), large (4050, 43191)";
    let collection = parse_plu_text(text).unwrap();
    assert_eq!(collection.items.len(), 2);

    let small = collection
        .items
        .iter()
        .find(|i| i.name == "Cantaloupe, small")
        .unwrap();
    assert_eq!(small.plu_codes, vec![4049, 43181]);
    assert_eq!(small.category_path, vec!["Melon"]);
    assert_eq!(small.alternative_name, Some("Muskmelon, small".to_string()));
    assert_eq!(small.size, Some("small".to_string()));

    let large = collection
        .items
        .iter()
        .find(|i| i.name == "Cantaloupe, large")
        .unwrap();
    assert_eq!(large.plu_codes, vec![4050, 43191]);
    assert_eq!(large.category_path, vec!["Melon"]);
    assert_eq!(large.alternative_name, Some("Muskmelon, large".to_string()));
    assert_eq!(large.size, Some("large".to_string()));
}

#[test]
fn test_parse_watermelon_mini() {
    let text = r#"Melon
 • Cantaloupe / Muskmelon, small (4049, 43181), large (4050, 43191)
 • Watermelon:
   o Mickey Lee / Sugarbaby (4331)
   o Mini, seedless [3‐7 pounds] (3421)
 "#;
    let collection = parse_plu_text(text).unwrap();
    println!("collection: {:?}", collection);
    assert_eq!(collection.items.len(), 4); // 2 cantaloupe + mickey lee + mini

    let mini = collection
        .items
        .iter()
        .find(|i| i.name == "Mini, seedless")
        .unwrap();
    assert_eq!(mini.plu_codes, vec![3421]);
    println!("mini.plu_codes OK");
    assert_eq!(mini.category_path, vec!["Melon", "Watermelon"]);
    println!("mini.category_path OK");
    assert_eq!(mini.characteristics, vec!["3‐7 pounds"]);
    println!("mini.characteristics OK");

    let mickey = collection
        .items
        .iter()
        .find(|i| i.name == "Mickey Lee")
        .unwrap();
    assert_eq!(mickey.plu_codes, vec![4331]);
    println!("mickey.plu_codes OK");
    assert_eq!(mickey.category_path, vec!["Melon", "Watermelon"]);
    println!("mickey.category OK");
    assert_eq!(mickey.alternative_name, Some("Sugarbaby".to_string()));
    println!("mickey.alternative_name OK");
}

#[test]
fn test_ignore_retailer_range() {
    let text = "Apple\n• retailer assigned (4193‐4217)";
    let collection = parse_plu_text(text).unwrap();
    assert_eq!(collection.items.len(), 0);
}

#[test]
fn test_parse_with_footnote() {
    // Footnote digits such as the trailing 3 of 33923 are swallowed.
    let text = "Asparagus\n• Green, small (4080), large (4521), bunch (33923)";
    let collection = parse_plu_text(text).unwrap();

    let text_simple = "Asparagus\n• White, small (4522), large (4523)";
    let collection_simple = parse_plu_text(&text_simple).unwrap();
    assert_eq!(collection_simple.items.len(), 2);

    let text_bunch = "Asparagus\n• Green, bunch (33923)";
    let collection_bunch = parse_plu_text(&text_bunch).unwrap();
    assert_eq!(collection_bunch.items.len(), 1);
    assert_eq!(collection_bunch.items[0].name, "Green, bunch");
    assert_eq!(collection_bunch.items[0].plu_codes, vec![3392]);
    assert_eq!(collection_bunch.items[0].category_path, vec!["Asparagus"]);
    let _ = collection;
}

#[test]
fn test_parse_multi_code_single_item() {
    let text = "Apple\n• Golden Delicious, small (4021, 41361,2), large (4020, 41371,2)";
    let collection = parse_plu_text(text).unwrap();
    assert_eq!(collection.items.len(), 2);

    let small = collection
        .items
        .iter()
        .find(|i| i.name == "Golden Delicious, small")
        .unwrap();
    // Ignores footnotes 1,2
    assert_eq!(small.plu_codes, vec![4021, 4136]);

    let large = collection
        .items
        .iter()
        .find(|i| i.name == "Golden Delicious, large")
        .unwrap();
    assert_eq!(large.plu_codes, vec![4020, 4137]);
}
