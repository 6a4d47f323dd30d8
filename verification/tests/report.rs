use cloggen::error::Error;
use cloggen::json::Json;
use cloggen::report::{read_inputs, read_section, write_report, write_report_with, Inputs};
use cloggen::select::Number;
use cloggen::text_map::TextMap;

const EXPORT: &str = "Anketa o predmetu\nVprašanje;Povprečje\nP1;3,5\n\n\
Anketa o izvajalcu\nVprašanje;Povprečje;Standardni odklon\nQ1;4,30;0,50\nQ2;2,00;1,25\n";

fn text(s: &str) -> Json {
    Json::Text(s.to_string())
}

fn object(members: Vec<(&str, Json)>) -> Json {
    Json::Object(members.into_iter().map(|(k, v)| (k.to_string(), v)).collect())
}

fn document() -> Json {
    object(vec![(
        "Vprašanje",
        object(vec![
            (
                "Q1",
                object(vec![
                    ("1", Json::Array(vec![text("slabo")])),
                    ("4", Json::Array(vec![text("dobro ({MEAN} $\\pm$ {STD})")])),
                    ("4.5", Json::Array(vec![text("odlično")])),
                ]),
            ),
            ("Q2", object(vec![("1", Json::Array(vec![text("ocena {MEAN}")]))])),
        ]),
    )])
}

fn numbers(texts: &[&str]) -> TextMap<Number> {
    let mut map = TextMap::new();
    for text in texts {
        if let Ok(x) = text.parse::<f64>() {
            let bits = x.to_bits() as i64;
            let rank = bits ^ ((((bits >> 63) as u64) >> 1) as i64);
            map.insert(text, Number { rank, scaled: (x * 10000.0) as u64 });
        }
    }
    map
}

fn inputs() -> Inputs {
    read_inputs("{AUTO_GEN}", EXPORT.to_string(), "Anketa o izvajalcu", &document()).unwrap()
}

#[test]
fn report_from_export_and_document() {
    let inputs = inputs();
    assert_eq!(inputs.table.rows(), 2);
    assert_eq!(inputs.categories.len(), 2);
    let known = numbers(&["4.30", "2.00", "1", "4", "4.5"]);
    let template = "\\begin{document}\n{AUTO_GEN}\n\\end{document}";
    let expected = "\\begin{document}\ndobro (4.30 $\\pm$ 0.50)\n\nocena 2.00\n\\end{document}";
    assert_eq!(write_report_with(template, &inputs, &known, &Vec::new()), Ok(expected.to_string()));
    assert_eq!(write_report(template, &inputs, &known), Ok(expected.to_string()));
}

#[test]
fn template_is_tested_before_anything_is_read() {
    assert_eq!(
        read_inputs("no mark", String::new(), "missing", &Json::Null).err(),
        Some(Error::TemplateMarkerMissing)
    );
    assert_eq!(
        write_report_with("no mark", &inputs(), &TextMap::new(), &Vec::new()),
        Err(Error::TemplateMarkerMissing)
    );
}

#[test]
fn export_is_read_before_the_document() {
    assert_eq!(
        read_inputs("{AUTO_GEN}", EXPORT.to_string(), "Anketa", &Json::Null).err(),
        Some(Error::SectionNotFound { section: "Anketa".to_string() })
    );
    assert_eq!(
        read_inputs("{AUTO_GEN}", "S\na,b\n1\n".to_string(), "S", &Json::Null).err(),
        Some(Error::DelimiterNotFound)
    );
    assert_eq!(
        read_inputs("{AUTO_GEN}", EXPORT.to_string(), "Anketa o izvajalcu", &Json::Null).err(),
        Some(Error::JsonShapeMismatch)
    );
}

#[test]
fn report_fails_with_the_first_category_that_fails() {
    let known = numbers(&["4.30", "1", "4", "4.5"]);
    assert_eq!(
        write_report("{AUTO_GEN}", &inputs(), &known),
        Err(Error::UnparseableMean { category: "Q2".to_string(), value: "2.00".to_string() })
    );
}

#[test]
fn section_of_an_export() {
    let table = read_section(EXPORT.to_string(), "Anketa o predmetu").unwrap();
    assert_eq!(table.rows(), 1);
    assert_eq!(table.column("Povprečje"), Some(&vec!["3.5".to_string()]));
    assert_eq!(
        read_section(EXPORT.to_string(), "").err(),
        Some(Error::SectionNotFound { section: String::new() })
    );
}
