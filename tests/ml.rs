use web_scraper::config::MLTask;
use web_scraper::enrich::{
    enrich_record, entities_value, language_value, process_with_ml, sentiment_value, task_kind, TaskKind,
};
use web_scraper::record::Record;

fn no_sentiment(_text: &String) -> Option<String> {
    None
}

fn no_entities(_text: &String) -> Option<Vec<String>> {
    None
}

fn positive(_text: &String) -> Option<String> {
    Some("Positive".to_string())
}

fn two_entities(_text: &String) -> Option<Vec<String>> {
    Some(vec!["Rust".to_string(), "Mozilla".to_string()])
}

fn task(t: &str, enabled: bool) -> MLTask {
    MLTask { task_type: t.to_string(), enabled }
}

fn with_text(text: &str) -> Record {
    let mut r = Record::new();
    r.insert("text".to_string(), text.to_string());
    r
}

fn negative(_text: &String) -> Option<String> {
    Some("Negative".to_string())
}

#[test]
fn test_process_with_ml_sentiment_analysis() {
    let mut data = Record::new();
    data.insert("text".to_string(), "I love Rust!".to_string());

    let ml_tasks = vec![
        MLTask {
            task_type: "sentiment_analysis".to_string(),
            enabled: true,
        },
    ];

    let result = process_with_ml(&[data], &ml_tasks, &negative, &no_entities);

    assert_eq!(result[0].get("sentiment").unwrap(), "Negative");
}

#[test]
fn enabled_again_after_disabled_runs() {
    let tasks = [task("sentiment_analysis", false), task("sentiment_analysis", true)];
    let result = process_with_ml(&[with_text("hi")], &tasks, &positive, &no_entities);
    assert_eq!(result[0].get("sentiment").unwrap(), "Positive");
}

#[test]
fn test_process_with_ml_language_detection() {
    let mut data = Record::new();
    data.insert("text".to_string(), "Rust is a systems programming language.".to_string());

    let ml_tasks = vec![
        MLTask {
            task_type: "language_detection".to_string(),
            enabled: true,
        },
    ];

    let result = process_with_ml(&[data], &ml_tasks, &no_sentiment, &no_entities);

    assert_eq!(result[0].get("language").unwrap(), "English");
}

#[test]
fn sentiment_label_is_stored_under_its_key() {
    let data = [with_text("I love this.")];
    let result = process_with_ml(&data, &[task("sentiment_analysis", true)], &positive, &no_entities);
    assert_eq!(result.len(), 1);
    assert_eq!(result[0].get("sentiment").unwrap(), "Positive");
    assert_eq!(result[0].get("text").unwrap(), "I love this.");
    assert_eq!(result[0].len(), 2);
}

#[test]
fn record_without_text_is_left_unchanged() {
    let mut r = Record::new();
    r.insert("href".to_string(), "/x".to_string());
    let tasks = [task("sentiment_analysis", true), task("entity_recognition", true), task("language_detection", true)];
    let result = process_with_ml(&[r], &tasks, &positive, &two_entities);
    assert_eq!(result[0].len(), 1);
    assert!(!result[0].contains_key("sentiment"));
    assert!(!result[0].contains_key("entities"));
    assert!(!result[0].contains_key("language"));
    assert_eq!(result[0].get("href").unwrap(), "/x");
}

#[test]
fn entity_recognition_without_text_adds_nothing() {
    let mut r = Record::new();
    r.insert("class".to_string(), "nav".to_string());
    let result = enrich_record(&r, &[task("entity_recognition", true)], &no_sentiment, &two_entities);
    assert_eq!(result.len(), 1);
    assert!(!result.contains_key("entities"));
}

#[test]
fn entities_are_joined_with_comma_space() {
    let result = enrich_record(&with_text("Rust came from Mozilla"), &[task("entity_recognition", true)], &no_sentiment, &two_entities);
    assert_eq!(result.get("entities").unwrap(), "Rust, Mozilla");
}

#[test]
fn failing_handlers_fall_back() {
    let tasks = [task("sentiment_analysis", true), task("entity_recognition", true)];
    let result = enrich_record(&with_text("anything"), &tasks, &no_sentiment, &no_entities);
    assert_eq!(result.get("sentiment").unwrap(), "unknown");
    assert_eq!(result.get("entities").unwrap(), "");
    assert_eq!(result.len(), 3);
}

#[test]
fn enrichment_keeps_length_and_order() {
    let mut no_text = Record::new();
    no_text.insert("id".to_string(), "2".to_string());
    let data = [with_text("first"), no_text, with_text("third")];
    let result = process_with_ml(&data, &[task("sentiment_analysis", true)], &positive, &no_entities);
    assert_eq!(result.len(), 3);
    assert_eq!(result[0].get("text").unwrap(), "first");
    assert_eq!(result[1].get("id").unwrap(), "2");
    assert_eq!(result[2].get("text").unwrap(), "third");
    assert_eq!(process_with_ml(&[], &[task("sentiment_analysis", true)], &positive, &no_entities).len(), 0);
}

#[test]
fn disabled_tasks_leave_records_unchanged() {
    let tasks = [task("sentiment_analysis", false), task("language_detection", false), task("entity_recognition", false)];
    let result = process_with_ml(&[with_text("I love this.")], &tasks, &positive, &two_entities);
    assert_eq!(result[0].len(), 1);
    assert_eq!(result[0].get("text").unwrap(), "I love this.");
}

#[test]
fn disabled_repeat_of_an_enabled_task_adds_nothing() {
    let tasks = [task("sentiment_analysis", true), task("sentiment_analysis", false)];
    let result = process_with_ml(&[with_text("I love this."), Record::new()], &tasks, &positive, &no_entities);
    assert_eq!(result[0].len(), 1);
    assert!(!result[0].contains_key("sentiment"));
    assert_eq!(result[1].len(), 0);
    assert!(!result[1].contains_key("sentiment"));
}

#[test]
fn a_later_run_of_the_same_task_overwrites() {
    let tasks = [task("sentiment_analysis", true), task("sentiment_analysis", true)];
    let result = process_with_ml(&[with_text("hi")], &tasks, &positive, &no_entities);
    assert_eq!(result[0].len(), 2);
    assert_eq!(result[0].get("sentiment").unwrap(), "Positive");
}

#[test]
fn unknown_task_types_are_inert() {
    let result = process_with_ml(&[with_text("hello")], &[task("summarize", true)], &positive, &two_entities);
    assert_eq!(result[0].len(), 1);
    assert_eq!(task_kind(&"summarize".to_string()), TaskKind::Unknown);
    assert_eq!(task_kind(&"sentiment_analysis".to_string()), TaskKind::SentimentAnalysis);
    assert_eq!(task_kind(&"entity_recognition".to_string()), TaskKind::EntityRecognition);
    assert_eq!(task_kind(&"language_detection".to_string()), TaskKind::LanguageDetection);
}

#[test]
fn fallback_values() {
    assert_eq!(sentiment_value(None), "unknown");
    assert_eq!(sentiment_value(Some("Negative".to_string())), "Negative");
    assert_eq!(entities_value(None), "");
    assert_eq!(entities_value(Some(vec!["A".to_string()])), "A");
    assert_eq!(language_value(None), "unknown");
    assert_eq!(language_value(Some("Deutsch".to_string())), "Deutsch");
}

#[test]
fn undetectable_language_falls_back() {
    let result = process_with_ml(&[with_text("12345")], &[task("language_detection", true)], &no_sentiment, &no_entities);
    assert_eq!(result[0].get("language").unwrap(), "unknown");
}
