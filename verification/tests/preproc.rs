use cloggen::delimiter::get_delimiter;
use cloggen::error::Error;
use cloggen::normalize::normalize_numbers;
use cloggen::preproc::{preprocess_candidate_csv, split_sections};
use cloggen::table::extract_section_columns;

fn strings(items: &[&str]) -> Vec<String> {
    items.iter().map(|s| s.to_string()).collect()
}

#[test]
fn delimiter_comma() {
    assert_eq!(get_delimiter("a,b,c\n1,2,3"), Ok(','));
}

#[test]
fn delimiter_semicolon_with_commas_in_quotes() {
    assert_eq!(get_delimiter("a;\"x,y\";c\n1;2;3\n"), Ok(';'));
}

#[test]
fn delimiter_tab_and_space() {
    assert_eq!(get_delimiter("a\tb\n1\t2"), Ok('\t'));
    assert_eq!(get_delimiter("a b\n1 2"), Ok(' '));
}

#[test]
fn delimiter_inconsistent_is_rejected() {
    assert_eq!(get_delimiter("a,b,c\n1,2"), Err(Error::DelimiterNotFound));
}

#[test]
fn delimiter_of_empty_text_is_rejected() {
    assert_eq!(get_delimiter(""), Err(Error::DelimiterNotFound));
    assert_eq!(get_delimiter("abc\ndef"), Err(Error::DelimiterNotFound));
}

#[test]
fn delimiter_tie_goes_to_the_later_candidate() {
    assert_eq!(get_delimiter("a,b;c\n1,2;3"), Ok(';'));
    assert_eq!(get_delimiter("a,b c\n1,2 3"), Ok(' '));
}

#[test]
fn delimiter_most_frequent_wins() {
    assert_eq!(get_delimiter("a,b,c;d\n1,2,3;4"), Ok(','));
}

#[test]
fn delimiter_crlf_lines() {
    assert_eq!(get_delimiter("a;b\r\n1;2\r\n"), Ok(';'));
}

#[test]
fn sections_round_trip() {
    let map = split_sections("Sec1\nh1,h2\n1,2\n\nSec2\nh3\n5\n");
    assert_eq!(map.len(), 2);
    assert_eq!(map.get("Sec1"), Some(&strings(&["h1,h2", "1,2"])));
    assert_eq!(map.get("Sec2"), Some(&strings(&["h3", "5"])));
    assert_eq!(map.get("Sec3"), None);
}

#[test]
fn sections_without_trailing_blank_line() {
    let map = split_sections("Sec1\nh1,h2\n1,2");
    assert_eq!(map.len(), 1);
    assert_eq!(map.get("Sec1"), Some(&strings(&["h1,h2", "1,2"])));
}

#[test]
fn section_names_are_trimmed() {
    let map = split_sections(";; Sec1 ;;\t\nh\n1\n;;;\nSec2,,\nx\n");
    assert_eq!(map.get("Sec1"), Some(&strings(&["h", "1"])));
    assert_eq!(map.get("Sec2"), Some(&strings(&["x"])));
}

#[test]
fn later_section_of_the_same_name_stays() {
    let map = split_sections("S\na\n\nS\nb\n");
    assert_eq!(map.len(), 1);
    assert_eq!(map.get("S"), Some(&strings(&["b"])));
}

#[test]
fn sections_of_empty_text() {
    assert_eq!(split_sections("").len(), 0);
}

#[test]
fn normalize_decimal_comma() {
    assert_eq!(normalize_numbers(&strings(&["3,14"])), "3.14");
    assert_eq!(normalize_numbers(&strings(&["3.14"])), "3.14");
}

#[test]
fn normalize_is_idempotent() {
    let once = normalize_numbers(&strings(&["a;3,14;2,5", "x,1,5,7"]));
    let lines: Vec<String> = once.lines().map(|l| l.to_string()).collect();
    assert_eq!(normalize_numbers(&lines), once);
}

#[test]
fn normalize_keeps_delimiters_after_the_decimals() {
    assert_eq!(normalize_numbers(&strings(&["q;4,30;0,50"])), "q;4.30;0.50");
    assert_eq!(normalize_numbers(&strings(&["a,b", "1,2"])), "a,b\n1.2");
}

#[test]
fn normalize_starts_each_line_anew() {
    assert_eq!(normalize_numbers(&strings(&["1", ",5"])), "1\n,5");
}

#[test]
fn normalize_no_lines() {
    assert_eq!(normalize_numbers(&Vec::new()), "");
}

#[test]
fn preprocess_joins_and_normalizes() {
    let map = preprocess_candidate_csv("Sec1\nq;m\nx;4,5\n\nSec2\nh\n".to_string());
    assert_eq!(map.len(), 2);
    assert_eq!(map.get("Sec1").map(|s| s.as_str()), Some("q;m\nx;4.5"));
    assert_eq!(map.get("Sec2").map(|s| s.as_str()), Some("h"));
}

#[test]
fn extract_columns_of_a_section() {
    let map = preprocess_candidate_csv("Sec1\nq;m;s\nx;4,5;0,5\ny;3,0;1,0\n".to_string());
    let table = extract_section_columns(map, "Sec1").unwrap();
    assert_eq!(table.rows(), 2);
    assert_eq!(table.column("q"), Some(&strings(&["x", "y"])));
    assert_eq!(table.column("m"), Some(&strings(&["4.5", "3.0"])));
    assert_eq!(table.column("s"), Some(&strings(&["0.5", "1.0"])));
    assert_eq!(table.column("t"), None);
}

#[test]
fn extract_quoted_fields() {
    let map = preprocess_candidate_csv("S\nq,m\n\"a, b\",1\n\"say \"\"hi\"\"\",2\n".to_string());
    let table = extract_section_columns(map, "S").unwrap();
    assert_eq!(table.column("q"), Some(&strings(&["a, b", "say \"hi\""])));
}

#[test]
fn extract_missing_section() {
    let map = preprocess_candidate_csv("Sec1\nq;m\nx;1\n".to_string());
    match extract_section_columns(map, "Other") {
        Err(Error::SectionNotFound { section }) => assert_eq!(section, "Other"),
        _ => panic!("the section should be missing"),
    }
}

#[test]
fn extract_malformed_row() {
    let map = preprocess_candidate_csv("S\nq;m\nx;1\ny;2;3;\"4\nz\";5\n".to_string());
    match extract_section_columns(map, "S") {
        Err(Error::DelimiterNotFound) => {}
        _ => panic!("no delimiter is consistent"),
    }
    let rows = vec![strings(&["q", "m"]), strings(&["x", "1"]), strings(&["y"]), strings(&["z"])];
    assert_eq!(cloggen::table::table_from_records(&rows).err(), Some(Error::MalformedRow { row: 1 }));
}

#[test]
fn table_without_records() {
    let table = cloggen::table::table_from_records(&Vec::new()).unwrap();
    assert_eq!(table.rows(), 0);
}

#[test]
fn table_with_repeated_header_keeps_the_later_column() {
    let rows = vec![strings(&["a", "a"]), strings(&["1", "2"])];
    let table = cloggen::table::table_from_records(&rows).unwrap();
    assert_eq!(table.rows(), 1);
    assert_eq!(table.column("a"), Some(&strings(&["2"])));
}

#[test]
fn section_names_lose_white_space_that_separates_no_fields() {
    let map = split_sections(";\u{a0}Sec1\u{2003};\nh\n\u{a0}\nSec2\nx\n");
    assert_eq!(map.len(), 2);
    assert_eq!(map.get("Sec1"), Some(&strings(&["h"])));
    assert_eq!(map.get("Sec2"), Some(&strings(&["x"])));
}

#[test]
fn section_name_keeps_separators_inside_white_space() {
    let map = split_sections("\u{a0};Sec1\nh\n");
    assert_eq!(map.get(";Sec1"), Some(&strings(&["h"])));
}

#[test]
fn blank_line_where_a_name_is_expected_names_a_section() {
    let map = split_sections("A\nx\n\n\nB\ny\n");
    assert_eq!(map.len(), 2);
    assert_eq!(map.get("A"), Some(&strings(&["x"])));
    assert_eq!(map.get(""), Some(&strings(&["B", "y"])));
}

#[test]
fn normalize_other_number_characters() {
    assert_eq!(normalize_numbers(&strings(&["\u{0663},\u{0661}"])), "\u{0663}.\u{0661}");
    assert_eq!(normalize_numbers(&strings(&["a,b"])), "a,b");
}

#[test]
fn normalize_rewrites_the_first_separator_after_a_digit() {
    assert_eq!(normalize_numbers(&strings(&["1x,2"])), "1x.2");
    assert_eq!(normalize_numbers(&strings(&["1,2,3,4"])), "1.2,3.4");
    assert_eq!(normalize_numbers(&strings(&["1.2.3"])), "1.2.3");
    assert_eq!(normalize_numbers(&strings(&["1,,2"])), "1.,2");
}

#[test]
fn delimiter_ignores_quoted_spans_on_every_line() {
    assert_eq!(get_delimiter("\"a,b\";c\n\"d,e,f\";g"), Ok(';'));
    assert_eq!(get_delimiter("a;\"b\nc;d\""), Ok(';'));
}

#[test]
fn extract_row_with_more_fields_than_the_header() {
    let map = preprocess_candidate_csv("S\na,b\nx\"y,z\"w,v\nc,d\n".to_string());
    assert_eq!(extract_section_columns(map, "S").err(), Some(Error::MalformedRow { row: 0 }));
    let map = preprocess_candidate_csv("S\na,b\nc,d\nx\"y,z\"w,v\n".to_string());
    assert_eq!(extract_section_columns(map, "S").err(), Some(Error::MalformedRow { row: 1 }));
}
