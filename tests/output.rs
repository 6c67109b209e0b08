use web_scraper::output::records_to_json;
use web_scraper::record::Record;

#[test]
fn records_become_a_pretty_json_array() {
    let mut a = Record::new();
    a.insert("href".to_string(), "/x".to_string());
    a.insert("text".to_string(), "Go".to_string());
    let mut b = Record::new();
    b.insert("text".to_string(), "Home".to_string());
    let json = records_to_json(&[a, b]);
    assert_eq!(
        json,
        "[\n  {\n    \"href\": \"/x\",\n    \"text\": \"Go\"\n  },\n  {\n    \"text\": \"Home\"\n  }\n]"
    );
}

#[test]
fn no_records_give_an_empty_array() {
    assert_eq!(records_to_json(&[]), "[]");
}
