use billkeeper::text::{fill_template, index_of, join2, tail_after_first, tail_after_last};

#[test]
fn two_texts_are_joined() {
    assert_eq!(join2("runner: ", "boom"), "runner: boom");
    assert_eq!(join2("", ""), "");
    assert_eq!(join2("a", ""), "a");
    assert_eq!(join2("", "b"), "b");
}

#[test]
fn the_tail_after_the_last_delimiter() {
    assert_eq!(tail_after_last("a\nb\nc", '\n'), Some("c".to_string()));
    assert_eq!(tail_after_last("a\nb\n", '\n'), Some(String::new()));
    assert_eq!(tail_after_last("\n", '\n'), Some(String::new()));
    assert_eq!(tail_after_last("abc", '\n'), None);
    assert_eq!(tail_after_last("", '\n'), None);
    assert_eq!(tail_after_last("k=v=w", '='), Some("w".to_string()));
}

#[test]
fn the_tail_after_the_first_delimiter() {
    assert_eq!(tail_after_first("Category: Fast Food", ' '), Some("Fast Food".to_string()));
    assert_eq!(tail_after_first(" x", ' '), Some("x".to_string()));
    assert_eq!(tail_after_first("x ", ' '), Some(String::new()));
    assert_eq!(tail_after_first("word", ' '), None);
    assert_eq!(tail_after_first("", ' '), None);
}

#[test]
fn a_text_is_found_at_its_first_position() {
    let names: Vec<String> = ["vlm", "lm", "vlm", ""].iter().map(|s| s.to_string()).collect();
    assert_eq!(index_of(&names, "vlm"), Some(0));
    assert_eq!(index_of(&names, "lm"), Some(1));
    assert_eq!(index_of(&names, ""), Some(3));
    assert_eq!(index_of(&names, "VLM"), None);
    assert_eq!(index_of(&vec![], "vlm"), None);
}

fn fill(template: &str, args: &[&str]) -> String {
    fill_template(template, &args.iter().map(|a| a.to_string()).collect())
}

#[test]
fn the_places_of_a_template_are_filled_in_order() {
    assert_eq!(fill("", &[]), "");
    assert_eq!(fill("no places", &["unused"]), "no places");
    assert_eq!(fill("{}", &["x"]), "x");
    assert_eq!(fill("a {} b {} c", &["1", "2"]), "a 1 b 2 c");
    assert_eq!(fill("{}{}{}", &["1", "2"]), "12");
    assert_eq!(fill("Notes: {}\nDescription: {}", &["tea, 2 cups", "a receipt"]),
        "Notes: tea, 2 cups\nDescription: a receipt");
    // what is filled in is not looked at again
    assert_eq!(fill("{} and {}", &["{}", "b"]), "{} and b");
}

#[test]
fn doubled_braces_stand_for_one() {
    assert_eq!(fill("{{}}", &["x"]), "{}");
    assert_eq!(fill("{{{}}}", &["x"]), "{x}");
    assert_eq!(fill("start: /[0-9]{{1,3}}/ ({})", &["a|b"]), "start: /[0-9]{1,3}/ (a|b)");
    assert_eq!(fill("}}{{", &[]), "}{");
    // a single brace stands for itself
    assert_eq!(fill("{ }", &["x"]), "{ }");
    assert_eq!(fill("{", &[]), "{");
    assert_eq!(fill("a}", &[]), "a}");
    assert_eq!(fill("gr\u{fc}n {}", &["\u{e9}t\u{e9}"]), "gr\u{fc}n \u{e9}t\u{e9}");
}
