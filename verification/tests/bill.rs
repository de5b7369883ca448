use billkeeper::bill::{Bill, Category, CategoryNames};

fn table(names: &[&str]) -> CategoryNames {
    Category::load_from_names(names.iter().map(|s| s.to_string()).collect())
}

#[test]
fn categories_are_positions_in_the_table() {
    let table = table(&["Shopping", "Food", "Transport", "Rent"]);
    assert_eq!(table.len(), 4);
    let all = Category::all_cases(&table);
    assert_eq!(all.len(), 4);
    for (i, c) in all.iter().enumerate() {
        assert_eq!(c.position(), i);
    }
    let names: Vec<String> = all.iter().map(|c| c.name(&table)).collect();
    assert_eq!(names, vec!["Shopping", "Food", "Transport", "Rent"]);
}

#[test]
fn a_category_is_found_by_its_name() {
    let table = table(&["Shopping", "Food", "Transport", "Rent"]);
    let shopping = Category::from_name(&table, "Shopping").unwrap();
    assert_eq!(shopping.position(), 0);
    assert_eq!(shopping.name(&table), "Shopping");
    assert_eq!(Category::from_name(&table, "Rent").unwrap().position(), 3);
    assert_eq!(Category::from_name(&table, "Rent"), Some(Category::all_cases(&table)[3]));
    assert_eq!(Category::from_name(&table, "rent"), None);
    assert_eq!(Category::from_name(&table, ""), None);
    assert_eq!(Category::from_name(&table, "Gifts"), None);
}

#[test]
fn a_name_that_stands_twice_is_found_at_its_first_position() {
    let table = table(&["Gorceries", "Drink", "Food", "Drink"]);
    assert_eq!(Category::from_name(&table, "Drink").unwrap().position(), 1);
    assert_eq!(Category::all_cases(&table)[3].name(&table), "Drink");
}

#[test]
fn an_empty_table_has_no_category() {
    let table = table(&[]);
    assert_eq!(table.len(), 0);
    assert!(Category::all_cases(&table).is_empty());
    assert_eq!(Category::from_name(&table, "Food"), None);
    assert_eq!(table.bullets(), "");
    assert_eq!(table.alternatives(), "");
}

#[test]
fn the_names_are_listed_for_the_prompt_and_the_grammar() {
    let table = table(&["Shopping", "Food", "Transport", "Rent"]);
    assert_eq!(table.bullets(), "- Shopping\n- Food\n- Transport\n- Rent");
    assert_eq!(table.alternatives(), "Shopping|Food|Transport|Rent");
    assert_eq!(table.join("<", ", "), "<Shopping, <Food, <Transport, <Rent");
    let single = self::table(&["Only"]);
    assert_eq!(single.bullets(), "- Only");
    assert_eq!(single.alternatives(), "Only");
}

#[test]
fn a_bill_keeps_its_amount_bit_for_bit() {
    let table = table(&["Shopping"]);
    let bill = Bill {
        notes: "second-hand phone".to_string(),
        amount_bits: 2188f32.to_bits(),
        category: Category::from_name(&table, "Shopping"),
    };
    let copy = bill.clone();
    assert_eq!(copy, bill);
    assert_eq!(f32::from_bits(copy.amount_bits), 2188f32);
    assert_eq!(copy.category, Some(Category::from_name(&table, "Shopping").unwrap()));
}
