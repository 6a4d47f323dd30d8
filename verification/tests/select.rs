use cloggen::error::Error;
use cloggen::select::{
    decide, fill, inject, respond, select_responses, select_responses_with, select_threshold,
    Category, Number, Threshold,
};
use cloggen::table::{table_from_records, SectionTable};
use cloggen::text_map::TextMap;

fn number(x: f64) -> Number {
    let bits = x.to_bits() as i64;
    Number { rank: bits ^ ((((bits >> 63) as u64) >> 1) as i64), scaled: (x * 10000.0) as u64 }
}

fn numbers(texts: &[&str]) -> TextMap<Number> {
    let mut map = TextMap::new();
    for text in texts {
        if let Ok(x) = text.parse::<f64>() {
            map.insert(text, number(x));
        }
    }
    map
}

fn table(rows: &[&[&str]]) -> SectionTable {
    let rows: Vec<Vec<String>> =
        rows.iter().map(|r| r.iter().map(|s| s.to_string()).collect()).collect();
    table_from_records(&rows).unwrap()
}

fn category(name: &str, pools: &[(&str, &[&str])]) -> Category {
    Category {
        name: name.to_string(),
        thresholds: pools
            .iter()
            .map(|(key, texts)| Threshold {
                key: key.to_string(),
                responses: texts.iter().map(|s| s.to_string()).collect(),
            })
            .collect(),
    }
}

fn grades() -> SectionTable {
    table(&[
        &["Vprašanje", "Povprečje", "Standardni odklon"],
        &["Q1", "4.3", "0.50"],
        &["Q2", "0.5", "0.10"],
        &["Q3", "4.5", "1.00"],
    ])
}

#[test]
fn threshold_boundary() {
    let cat = category("Q1", &[("1", &["low"]), ("4", &["good"]), ("4.5", &["great"])]);
    let known = numbers(&["4.3", "1", "4", "4.5"]);
    let selection = decide(&grades(), &known, &cat).unwrap();
    assert_eq!(selection.threshold, 1);
    assert_eq!(selection.mean, "4.3");
    assert_eq!(selection.std, "0.50");
    assert_eq!(respond(&cat, &selection, 0), "good");
}

#[test]
fn threshold_equal_to_the_mean_is_selected() {
    let cat = category("Q3", &[("1", &["low"]), ("4", &["good"]), ("4.5", &["great"])]);
    let known = numbers(&["4.5", "1", "4"]);
    assert_eq!(decide(&grades(), &known, &cat).unwrap().threshold, 2);
}

#[test]
fn thresholds_in_any_order() {
    let cat = category("Q1", &[("4.5", &["great"]), ("4", &["good"]), ("1", &["low"])]);
    let known = numbers(&["4.3", "1", "4", "4.5"]);
    assert_eq!(decide(&grades(), &known, &cat).unwrap().threshold, 1);
}

#[test]
fn no_threshold_below_mean() {
    let cat = category("Q2", &[("1", &["low"])]);
    let known = numbers(&["0.5", "1"]);
    match decide(&grades(), &known, &cat) {
        Err(Error::NoThresholdBelowMean { category, mean }) => {
            assert_eq!(category, "Q2");
            assert_eq!(mean, "0.5");
        }
        _ => panic!("no threshold should qualify"),
    }
}

#[test]
fn select_threshold_picks_the_greatest_qualifying() {
    let values = vec![number(1.0), number(4.0), number(4.5)];
    assert_eq!(select_threshold(&values, number(4.3)), Some(1));
    assert_eq!(select_threshold(&values, number(5.0)), Some(2));
    assert_eq!(select_threshold(&values, number(1.0)), Some(0));
    assert_eq!(select_threshold(&values, number(0.5)), None);
    assert_eq!(select_threshold(&Vec::new(), number(0.5)), None);
}

#[test]
fn select_threshold_first_of_equal_ones() {
    let values = vec![number(4.0), number(2.0), number(4.0)];
    assert_eq!(select_threshold(&values, number(4.3)), Some(0));
}

#[test]
fn placeholder_substitution() {
    assert_eq!(fill("avg {MEAN} std {STD}", "4.30", "0.50"), "avg 4.30 std 0.50");
}

#[test]
fn placeholder_substitution_of_every_mark() {
    assert_eq!(fill("{MEAN}{MEAN} {STD}{MEAN}", "1", "2"), "11 21");
    assert_eq!(fill("{MEAN", "1", "2"), "{MEAN");
    assert_eq!(fill("{{MEAN}}", "{STD}", "x"), "{x}");
    assert_eq!(fill("", "1", "2"), "");
}

#[test]
fn category_not_in_table() {
    let cat = category("Q9", &[("1", &["low"])]);
    match decide(&grades(), &numbers(&["1"]), &cat) {
        Err(Error::CategoryNotInCsv { category }) => assert_eq!(category, "Q9"),
        _ => panic!("the category should be missing"),
    }
    let bare = table(&[&["Povprečje"], &["1"]]);
    assert!(matches!(
        decide(&bare, &numbers(&["1"]), &cat),
        Err(Error::CategoryNotInCsv { .. })
    ));
}

#[test]
fn missing_columns() {
    let cat = category("Q1", &[("1", &["low"])]);
    let no_mean = table(&[&["Vprašanje", "Standardni odklon"], &["Q1", "0.5"]]);
    assert_eq!(decide(&no_mean, &numbers(&["1"]), &cat).err(), Some(Error::MissingMeanColumn));
    let no_std = table(&[&["Vprašanje", "Povprečje"], &["Q1", "4.3"]]);
    assert_eq!(
        decide(&no_std, &numbers(&["1", "4.3"]), &cat).err(),
        Some(Error::MissingStdColumn)
    );
}

#[test]
fn unparseable_mean_comes_before_missing_deviation() {
    let cat = category("Q1", &[("1", &["low"])]);
    let no_std = table(&[&["Vprašanje", "Povprečje"], &["Q1", "n/a"]]);
    assert_eq!(
        decide(&no_std, &numbers(&["1", "n/a"]), &cat).err(),
        Some(Error::UnparseableMean { category: "Q1".to_string(), value: "n/a".to_string() })
    );
}

#[test]
fn unparseable_threshold() {
    let cat = category("Q1", &[("1", &["low"]), ("four", &["good"]), ("five", &[])]);
    assert_eq!(
        decide(&grades(), &numbers(&["4.3", "1", "four", "five"]), &cat).err(),
        Some(Error::UnparseableThreshold {
            category: "Q1".to_string(),
            threshold: "four".to_string()
        })
    );
}

#[test]
fn empty_response_pool() {
    let cat = category("Q1", &[("1", &["low"]), ("4", &[])]);
    assert_eq!(
        decide(&grades(), &numbers(&["4.3", "1", "4"]), &cat).err(),
        Some(Error::EmptyResponsePool { category: "Q1".to_string(), threshold: "4".to_string() })
    );
}

#[test]
fn responses_are_joined_by_a_blank_line() {
    let cats = vec![
        category("Q1", &[("4", &["a {MEAN}", "b {MEAN}"])]),
        category("Q3", &[("1", &["c {STD}"])]),
    ];
    let known = numbers(&["4.3", "4.5", "4", "1"]);
    assert_eq!(
        select_responses_with(&grades(), &known, &cats, &vec![0, 0]),
        Ok("a 4.3\n\nc 1.00".to_string())
    );
    assert_eq!(
        select_responses_with(&grades(), &known, &cats, &vec![1]),
        Ok("b 4.3\n\nc 1.00".to_string())
    );
    assert_eq!(
        select_responses_with(&grades(), &known, &cats, &vec![3, 7]),
        Ok("b 4.3\n\nc 1.00".to_string())
    );
    assert_eq!(select_responses_with(&grades(), &known, &Vec::new(), &Vec::new()), Ok(String::new()));
}

#[test]
fn first_failing_category_is_reported() {
    let cats = vec![
        category("Q1", &[("4", &["a"])]),
        category("Q2", &[("1", &["b"])]),
        category("Q9", &[("1", &["c"])]),
    ];
    let known = numbers(&["4.3", "0.5", "4", "1"]);
    assert!(matches!(
        select_responses_with(&grades(), &known, &cats, &Vec::new()),
        Err(Error::NoThresholdBelowMean { .. })
    ));
    assert!(matches!(
        select_responses(&grades(), &known, &cats),
        Err(Error::NoThresholdBelowMean { .. })
    ));
}

#[test]
fn random_response_is_one_of_the_pool() {
    let cats = vec![category("Q1", &[("1", &["x"]), ("4", &["a {MEAN}", "b {MEAN}", "c"])])];
    let known = numbers(&["4.3", "4", "1"]);
    for _ in 0..50 {
        let text = select_responses(&grades(), &known, &cats).unwrap();
        assert!(text == "a 4.3" || text == "b 4.3" || text == "c");
    }
}

#[test]
fn inject_replaces_the_mark() {
    assert_eq!(inject("a {AUTO_GEN} b", "text"), Ok("a text b".to_string()));
    assert_eq!(inject("{AUTO_GEN}", "{AUTO_GEN}"), Ok("{AUTO_GEN}".to_string()));
    assert_eq!(inject("{AUTO_GEN}{AUTO_GEN}", "x"), Ok("xx".to_string()));
}

#[test]
fn inject_without_mark() {
    assert_eq!(inject("a {AUTO_GEN b", "text"), Err(Error::TemplateMarkerMissing));
    assert_eq!(inject("", "text"), Err(Error::TemplateMarkerMissing));
}

#[test]
fn random_choice_reaches_every_text_of_the_pool() {
    let cats = vec![category("Q1", &[("4", &["a", "b", "c"])])];
    let known = numbers(&["4.3", "4"]);
    let mut seen = [false; 3];
    for _ in 0..400 {
        match select_responses(&grades(), &known, &cats).unwrap().as_str() {
            "a" => seen[0] = true,
            "b" => seen[1] = true,
            "c" => seen[2] = true,
            other => panic!("{other} is not in the pool"),
        }
    }
    assert_eq!(seen, [true, true, true]);
}

#[test]
fn threshold_above_the_mean_by_less_than_a_ten_thousandth_qualifies() {
    let cat = category("Q1", &[("4.30004", &["edge"]), ("4.31", &["above"])]);
    let known = numbers(&["4.3", "4.30004", "4.31"]);
    assert_eq!(decide(&grades(), &known, &cat).unwrap().threshold, 0);
}

#[test]
fn thresholds_equal_in_ten_thousandths_are_ordered_by_their_value() {
    let values = vec![
        Number { rank: 10, scaled: 43000 },
        Number { rank: 12, scaled: 43000 },
        Number { rank: 11, scaled: 43000 },
        Number { rank: 13, scaled: 43001 },
    ];
    assert_eq!(select_threshold(&values, Number { rank: 9, scaled: 43000 }), Some(1));
}

#[test]
fn responses_of_each_category() {
    let cats = vec![
        category("Q3", &[("1", &["c {STD}"])]),
        category("Q1", &[("4", &["a {MEAN}", "b {MEAN}"])]),
    ];
    let known = numbers(&["4.3", "4.5", "4", "1"]);
    assert_eq!(
        cloggen::select::category_responses_with(&grades(), &known, &cats, &vec![5, 1]),
        Ok(vec!["c 1.00".to_string(), "b 4.3".to_string()])
    );
}

#[test]
fn template_mark() {
    assert!(cloggen::select::marks_content("a{AUTO_GEN}"));
    assert!(!cloggen::select::marks_content("a{AUTO_GEN"));
}
