use web_scraper::config::{tasks_from_answers, is_yes, parse_attribute_list, parse_config, ConfigError, ConfigField};

#[test]
fn config_from_json_text() {
    let config_json = r#"
        {
            "url": "https://example.com",
            "tags": [
                {
                    "name": "a",
                    "attributes": ["href", "class"]
                }
            ],
            "ml_tasks": [
                {
                    "type": "sentiment_analysis",
                    "enabled": true
                }
            ]
        }
        "#;

    let config = parse_config(config_json).unwrap();

    assert_eq!(config.url, "https://example.com");
    assert_eq!(config.tags.len(), 1);
    assert_eq!(config.tags[0].name, "a");
    assert_eq!(config.tags[0].attributes, vec!["href", "class"]);
    assert_eq!(config.ml_tasks.len(), 1);
    assert_eq!(config.ml_tasks[0].task_type, "sentiment_analysis");
    assert!(config.ml_tasks[0].enabled);
}

fn error_of(text: &str) -> ConfigError {
    match parse_config(text) {
        Err(e) => e,
        Ok(_) => panic!("the configuration should be refused"),
    }
}

#[test]
fn config_errors_name_the_missing_field() {
    assert_eq!(error_of("{not json"), ConfigError::InvalidJson);
    assert_eq!(error_of(r#"{"tags": []}"#), ConfigError::MissingField(ConfigField::Url));
    assert_eq!(error_of(r#"{"url": 5, "tags": []}"#), ConfigError::MissingField(ConfigField::Url));
    assert_eq!(error_of(r#"{"url": "u"}"#), ConfigError::MissingField(ConfigField::Tags));
    assert_eq!(error_of(r#"{"url": "u", "tags": [{"attributes": []}]}"#), ConfigError::MissingField(ConfigField::TagName));
    assert_eq!(error_of(r#"{"url": "u", "tags": [{"name": "a"}]}"#), ConfigError::MissingField(ConfigField::TagAttributes));
    assert_eq!(
        error_of(r#"{"url": "u", "tags": [{"name": "a", "attributes": ["x", 1]}]}"#),
        ConfigError::MissingField(ConfigField::Attribute)
    );
    assert_eq!(
        error_of(r#"{"url": "u", "tags": [], "ml_tasks": [{"enabled": true}]}"#),
        ConfigError::MissingField(ConfigField::TaskType)
    );
    assert_eq!(error_of("[1, 2]"), ConfigError::MissingField(ConfigField::Url));
}

#[test]
fn config_defaults() {
    let config = parse_config(r#"{"url": "u", "tags": [{"name": "p", "attributes": []}]}"#).unwrap();
    assert_eq!(config.tags[0].attributes.len(), 0);
    assert_eq!(config.ml_tasks.len(), 0);
    let config = parse_config(
        r#"{"url": "u", "tags": [], "ml_tasks": [{"type": "language_detection"}, {"type": "x", "enabled": "yes"}, {"type": "y", "enabled": false}]}"#,
    )
    .unwrap();
    assert_eq!(config.ml_tasks.len(), 3);
    assert_eq!(config.ml_tasks[0].task_type, "language_detection");
    assert!(!config.ml_tasks[0].enabled);
    assert!(!config.ml_tasks[1].enabled);
    assert!(!config.ml_tasks[2].enabled);
    let config = parse_config(r#"{"url": "u", "tags": [], "ml_tasks": 3}"#).unwrap();
    assert_eq!(config.ml_tasks.len(), 0);
}

#[test]
fn attribute_lists_are_split_on_commas_and_trimmed() {
    assert_eq!(parse_attribute_list("href, class"), vec!["href", "class"]);
    assert_eq!(parse_attribute_list(" src "), vec!["src"]);
    assert_eq!(parse_attribute_list(""), vec![""]);
    assert_eq!(parse_attribute_list("a,,b,"), vec!["a", "", "b", ""]);
    assert_eq!(parse_attribute_list("é , ü"), vec!["é", "ü"]);
}

#[test]
fn yes_answers_in_any_case() {
    assert!(is_yes("yes"));
    assert!(is_yes("YeS"));
    assert!(!is_yes("y"));
    assert!(!is_yes("no"));
    assert!(!is_yes(" yes"));
}

#[test]
fn answers_choose_the_tasks() {
    let both = tasks_from_answers("YES", "yes");
    assert_eq!(both.len(), 2);
    assert_eq!(both[0].task_type, "sentiment_analysis");
    assert!(both[0].enabled);
    assert_eq!(both[1].task_type, "language_detection");
    let language_only = tasks_from_answers("no", "Yes");
    assert_eq!(language_only.len(), 1);
    assert_eq!(language_only[0].task_type, "language_detection");
    assert_eq!(tasks_from_answers("", "nope").len(), 0);
}
