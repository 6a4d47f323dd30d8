use cloggen::decode::{decode_universal, starts_with_bom};
use cloggen::error::Error;
use cloggen::json::{response_categories, Json};
use cloggen::menu::{after_removal, can_add, is_marked, toggle, UiMenu, MAX_MERGE_FILES};
use cloggen::merge::{
    check_file_count, collect_means, merged_text, question_means, MergedStat, MIN_FILES,
};
use cloggen::output::{default_output_name, OutputFormat};
use cloggen::preproc::preprocess_candidate_csv;
use cloggen::select::Number;
use cloggen::table::{extract_section_columns, table_from_records, SectionTable};
use cloggen::text_map::TextMap;

fn strings(items: &[&str]) -> Vec<String> {
    items.iter().map(|s| s.to_string()).collect()
}

fn table(rows: &[&[&str]]) -> SectionTable {
    let rows: Vec<Vec<String>> = rows.iter().map(|r| strings(r)).collect();
    table_from_records(&rows).unwrap()
}

fn numbers(texts: &[&str]) -> TextMap<Number> {
    let mut map = TextMap::new();
    for text in texts {
        if let Ok(x) = text.parse::<f64>() {
            let bits = x.to_bits() as i64;
            let rank = bits ^ ((((bits >> 63) as u64) >> 1) as i64);
            map.insert(text, Number { rank, scaled: (x * 10000.0) as u64 });
        }
    }
    map
}

fn export(rows: &[(&str, &str)]) -> SectionTable {
    let mut all = vec![strings(&["Vprašanje", "Povprečje", "Standardni odklon"])];
    for (question, mean) in rows {
        all.push(strings(&[question, mean, "0"]));
    }
    table_from_records(&all).unwrap()
}

#[test]
fn merge_needs_two_files() {
    assert_eq!(MIN_FILES, 2);
    assert_eq!(check_file_count(1), Err(Error::InsufficientFiles { found: 1 }));
    assert_eq!(check_file_count(2), Ok(()));
    let known = numbers(&["3.2"]);
    assert_eq!(
        collect_means(&Vec::new(), &known).err(),
        Some(Error::InsufficientFiles { found: 0 })
    );
    assert_eq!(
        collect_means(&vec![export(&[("Q", "3.2")])], &known).err(),
        Some(Error::InsufficientFiles { found: 1 })
    );
}

#[test]
fn merge_gathers_means_by_question() {
    let files = vec![export(&[("Q1", "3.2"), ("Q2", "1.0")]), export(&[("Q1", "5.0")])];
    let groups = collect_means(&files, &numbers(&["3.2", "1.0", "5.0"])).unwrap();
    assert_eq!(groups.len(), 2);
    assert_eq!(groups.get("Q1"), Some(&strings(&["3.2", "5.0"])));
    assert_eq!(groups.get("Q2"), Some(&strings(&["1.0"])));
    assert_eq!(groups.entry(0).0, "Q1");
    assert_eq!(groups.entry(1).0, "Q2");
}

#[test]
fn merge_statistics_of_two_files() {
    let files = vec![export(&[("Q", "3.2")]), export(&[("Q", "5.0")])];
    let groups = collect_means(&files, &numbers(&["3.2", "5.0"])).unwrap();
    let values: Vec<f64> = groups.get("Q").unwrap().iter().map(|s| s.parse().unwrap()).collect();
    let mean = values.iter().sum::<f64>() / values.len() as f64;
    let std = (values.iter().map(|x| (x - mean).powi(2)).sum::<f64>() / values.len() as f64).sqrt();
    assert_eq!((mean * 1000.0).round() / 1000.0, 4.1);
    assert!((std - 0.9).abs() < 1e-9);
    let stat = MergedStat {
        question: "Q".to_string(),
        mean: format!("{:.2}", mean),
        std: format!("{:.2}", std),
    };
    assert_eq!(
        merged_text("Anketa", &vec![stat]),
        Some("Anketa\nVprašanje,Povprečje,Standardni odklon\nQ,4.10,0.90\n".to_string())
    );
}

#[test]
fn merge_later_row_of_a_question_stays() {
    let file = export(&[("Q", "1.0"), ("R", "2.0"), ("Q", "3.0")]);
    let means = question_means(&file, &numbers(&["1.0", "2.0", "3.0"])).unwrap();
    assert_eq!(means.len(), 2);
    assert_eq!(means.get("Q").map(|s| s.as_str()), Some("3.0"));
    assert_eq!(means.get("R").map(|s| s.as_str()), Some("2.0"));
}

#[test]
fn merge_reports_the_first_bad_file() {
    let no_means = table(&[&["Vprašanje"], &["Q"]]);
    let no_questions = table(&[&["Povprečje"], &["1.0"]]);
    let known = numbers(&["1.0"]);
    assert_eq!(
        collect_means(&vec![export(&[("Q", "1.0")]), no_means, no_questions], &known).err(),
        Some(Error::MissingMeanColumn)
    );
    let no_questions = table(&[&["Povprečje"], &["1.0"]]);
    assert_eq!(
        collect_means(&vec![no_questions, export(&[("Q", "1.0")])], &known).err(),
        Some(Error::MissingQuestionColumn)
    );
    assert_eq!(
        collect_means(&vec![export(&[("Q", "1.0")]), export(&[("Q", "1.0"), ("R", "x")])], &known)
            .err(),
        Some(Error::UnparseableMean { category: "R".to_string(), value: "x".to_string() })
    );
}

#[test]
fn merged_text_quotes_fields_with_commas() {
    let stat =
        MergedStat { question: "a, b".to_string(), mean: "1.00".to_string(), std: "0.00".to_string() };
    assert_eq!(
        merged_text("S", &vec![stat]),
        Some("S\nVprašanje,Povprečje,Standardni odklon\n\"a, b\",1.00,0.00\n".to_string())
    );
    assert_eq!(
        merged_text("S", &Vec::new()),
        Some("S\nVprašanje,Povprečje,Standardni odklon\n".to_string())
    );
}

#[test]
fn merged_text_can_be_read_again() {
    let stat =
        MergedStat { question: "Q, x".to_string(), mean: "4.10".to_string(), std: "0.90".to_string() };
    let text = merged_text("Anketa", &vec![stat]).unwrap();
    let table = extract_section_columns(preprocess_candidate_csv(text), "Anketa").unwrap();
    assert_eq!(table.column("Vprašanje"), Some(&strings(&["Q, x"])));
    assert_eq!(table.column("Povprečje"), Some(&strings(&["4.10"])));
    assert_eq!(table.column("Standardni odklon"), Some(&strings(&["0.90"])));
}

#[test]
fn decode_utf8() {
    assert_eq!(decode_universal(&"Vprašanje".as_bytes().to_vec()), Some("Vprašanje".to_string()));
    assert_eq!(decode_universal(&Vec::new()), Some(String::new()));
}

#[test]
fn decode_legacy_code_page() {
    let bytes = vec![b'V', b'p', b'r', b'a', 0x9A, b'a', b'n', b'j', b'e'];
    assert_eq!(decode_universal(&bytes), Some("Vprašanje".to_string()));
}

#[test]
fn decode_by_byte_order_mark() {
    assert!(starts_with_bom(&vec![0xEF, 0xBB, 0xBF]));
    assert!(starts_with_bom(&vec![0xFF, 0xFE, b'a']));
    assert!(starts_with_bom(&vec![0xFE, 0xFF]));
    assert!(!starts_with_bom(&vec![0xEF, 0xBB]));
    assert!(!starts_with_bom(&Vec::new()));
    assert_eq!(decode_universal(&vec![0xEF, 0xBB, 0xBF, b'a']), Some("a".to_string()));
    assert_eq!(decode_universal(&vec![0xFF, 0xFE, b'a', 0, 0x61, 0x01]), Some("aš".to_string()));
    assert_eq!(decode_universal(&vec![0xFE, 0xFF, 0, b'a']), Some("a".to_string()));
    assert_eq!(decode_universal(&vec![0xEF, 0xBB, 0xBF, 0xFF]), Some("\u{fffd}".to_string()));
}

#[test]
fn output_names() {
    assert_eq!(default_output_name("mnenje.tex"), "out_mnenje");
    assert_eq!(default_output_name("a.b.tex"), "out_a.b");
    assert_eq!(default_output_name("mnenje"), "out_mnenje");
    assert_eq!(default_output_name(".tex"), "out_");
    assert_eq!(default_output_name(""), "out_");
    assert_eq!(OutputFormat::Latex.with_extension("out_mnenje"), "out_mnenje.tex");
    assert_eq!(OutputFormat::Latex.with_extension("a.tex"), "a.tex");
    assert_eq!(OutputFormat::Pdf.with_extension("a.tex"), "a.tex.pdf");
    assert_eq!(OutputFormat::Pdf.with_extension("a.pdf"), "a.pdf");
    assert_eq!(OutputFormat::Pdf.with_extension(""), ".pdf");
    assert_eq!(OutputFormat::Pdf.extension(), ".pdf");
    assert_eq!(OutputFormat::Latex.extension(), ".tex");
}

#[test]
fn menu_labels() {
    assert_eq!(UiMenu::default(), UiMenu::NoCommand);
    assert_eq!(UiMenu::NoCommand.as_str(), "Izberi ukaz");
    assert_eq!(UiMenu::NewReport.as_str(), "Novo mnenje");
    assert_eq!(UiMenu::MergeCsv.as_str(), "Združi CSV podatke");
}

fn text(s: &str) -> Json {
    Json::Text(s.to_string())
}

fn object(members: Vec<(&str, Json)>) -> Json {
    Json::Object(members.into_iter().map(|(k, v)| (k.to_string(), v)).collect())
}

#[test]
fn categories_of_a_document() {
    let doc = object(vec![
        ("other", Json::Null),
        (
            "Vprašanje",
            object(vec![
                ("Q1", object(vec![("1", Json::Array(vec![text("a"), text("b")])), ("4", Json::Array(vec![]))])),
                ("Q2", object(vec![])),
            ]),
        ),
    ]);
    let cats = response_categories(&doc).unwrap();
    assert_eq!(cats.len(), 2);
    assert_eq!(cats[0].name, "Q1");
    assert_eq!(cats[0].thresholds.len(), 2);
    assert_eq!(cats[0].thresholds[0].key, "1");
    assert_eq!(cats[0].thresholds[0].responses, strings(&["a", "b"]));
    assert_eq!(cats[0].thresholds[1].key, "4");
    assert!(cats[0].thresholds[1].responses.is_empty());
    assert_eq!(cats[1].name, "Q2");
    assert!(cats[1].thresholds.is_empty());
}

#[test]
fn document_of_another_shape() {
    let bad = vec![
        Json::Array(vec![]),
        object(vec![]),
        object(vec![("Vprašanje", Json::Array(vec![]))]),
        object(vec![("Vprašanje", object(vec![("Q", text("a"))]))]),
        object(vec![("Vprašanje", object(vec![("Q", object(vec![("1", text("a"))]))]))]),
        object(vec![(
            "Vprašanje",
            object(vec![("Q", object(vec![("1", Json::Array(vec![Json::Number("1".to_string())]))]))]),
        )]),
        object(vec![("Vprašanje", Json::Bool(true))]),
    ];
    for doc in &bad {
        assert_eq!(response_categories(doc).err(), Some(Error::JsonShapeMismatch));
    }
}

#[test]
fn selection_of_files() {
    assert_eq!(MAX_MERGE_FILES, 32);
    assert!(can_add(30, 2));
    assert!(!can_add(30, 3));
    assert!(!can_add(usize::MAX, 1));
    let mut selected = 0;
    selected = toggle(selected, 1);
    selected = toggle(selected, 3);
    assert_eq!(selected, 0b1010);
    assert!(is_marked(selected, 1) && is_marked(selected, 3));
    assert!(!is_marked(selected, 0) && !is_marked(selected, 32));
    assert_eq!(toggle(selected, 3), 0b0010);
    assert_eq!(toggle(selected, 40), selected);
    assert_eq!(after_removal(0b1010, 5), (vec![0, 2, 4], 0));
    assert_eq!(after_removal(0b0010, 5), (vec![0, 2, 3, 4], 0b0010));
    assert_eq!(after_removal(0b10000, 5), (vec![0, 1, 2, 3], 0));
    assert_eq!(after_removal(0, 3), (vec![0, 1, 2], 0));
    assert_eq!(after_removal(0b1000, 3), (vec![0, 1, 2], 0b1000));
    assert_eq!(after_removal(u32::MAX, 32), (Vec::new(), 0));
    assert_eq!(after_removal(7, 0), (Vec::new(), 7));
}
