use web_scraper::config::TagConfig;
use web_scraper::extract::{extract, Document, scrape_attributes_and_content, text_content, ExtractError};

fn field(r: &web_scraper::record::Record, k: &str) -> String {
    r.get(k).expect("field present")
}

#[test]
fn test_scrape_attributes_and_content() {
    let html = r#"
            <html>
                <body>
                    <a href="/link1" class="nav-item">Link 1</a>
                    <a href="/link2" class="nav-item">Link 2</a>
                    <p class="description">Some text</p>
                </body>
            </html>
        "#;

    let tag = "a";
    let attributes = vec!["href".to_string(), "class".to_string()];

    let document = Document::parse(html);
    let result = scrape_attributes_and_content(&document, tag, &attributes).unwrap();

    assert_eq!(result.len(), 2);

    assert_eq!(field(&result[0], "href"), "/link1");
    assert_eq!(field(&result[0], "class"), "nav-item");
    assert_eq!(field(&result[0], "text"), "Link 1");

    assert_eq!(field(&result[1], "href"), "/link2");
    assert_eq!(field(&result[1], "class"), "nav-item");
    assert_eq!(field(&result[1], "text"), "Link 2");
}

#[test]
fn test_scrape_no_matching_tag() {
    let html = r#"<html><body><p>No links here</p></body></html>"#;
    let tag = "a";
    let attributes = vec!["href".to_string()];

    let document = Document::parse(html);
    let result = scrape_attributes_and_content(&document, tag, &attributes).unwrap();

    assert_eq!(result.len(), 0);
}

#[test]
fn two_links_with_href_and_class() {
    let document = Document::parse(r#"<a href="/x" class="nav">Go</a><a href="/y" class="nav">Home</a>"#);
    let attributes = vec!["href".to_string(), "class".to_string()];
    let result = scrape_attributes_and_content(&document, "a", &attributes).unwrap();
    assert_eq!(result.len(), 2);
    assert_eq!(result[0].len(), 3);
    assert_eq!(field(&result[0], "href"), "/x");
    assert_eq!(field(&result[0], "class"), "nav");
    assert_eq!(field(&result[0], "text"), "Go");
    assert_eq!(result[1].len(), 3);
    assert_eq!(field(&result[1], "href"), "/y");
    assert_eq!(field(&result[1], "class"), "nav");
    assert_eq!(field(&result[1], "text"), "Home");
}

#[test]
fn invalid_selector_is_an_error() {
    let document = Document::parse("<p>x</p>");
    let result = scrape_attributes_and_content(&document, "a[", &[]);
    match result {
        Err(ExtractError::InvalidSelector(s)) => assert_eq!(s, "a["),
        Ok(_) => panic!("a malformed selector must be refused"),
    }
}

#[test]
fn empty_elements_give_no_record() {
    let document = Document::parse(r#"<p>one</p><p>  </p><p title="t"></p>"#);
    let attributes = vec!["title".to_string()];
    let result = scrape_attributes_and_content(&document, "p", &attributes).unwrap();
    assert_eq!(result.len(), 2);
    assert_eq!(field(&result[0], "text"), "one");
    assert!(!result[0].contains_key("title"));
    assert_eq!(field(&result[1], "title"), "t");
    assert!(!result[1].contains_key("text"));
    for r in &result {
        assert!(r.len() >= 1);
    }
}

#[test]
fn absent_and_repeated_attributes() {
    let document = Document::parse(r#"<img src="a.png" alt="A">"#);
    let attributes = vec!["src".to_string(), "SRC".to_string(), "width".to_string(), "src".to_string()];
    let result = scrape_attributes_and_content(&document, "img", &attributes).unwrap();
    assert_eq!(result.len(), 1);
    assert_eq!(result[0].len(), 1);
    assert_eq!(field(&result[0], "src"), "a.png");
}

#[test]
fn nested_text_is_joined_and_trimmed() {
    let document = Document::parse("<div> Hello <b>big</b> world </div>");
    let result = scrape_attributes_and_content(&document, "div", &[]).unwrap();
    assert_eq!(result.len(), 1);
    assert_eq!(field(&result[0], "text"), "Hello  big  world");
}

#[test]
fn text_content_joins_with_spaces_then_trims() {
    let texts = vec!["  a".to_string(), "b".to_string(), "c \n".to_string()];
    assert_eq!(text_content(&texts), "a b c");
    assert_eq!(text_content(&vec![]), "");
    assert_eq!(text_content(&vec![" \t ".to_string()]), "");
}

#[test]
fn selectors_are_applied_in_order() {
    let document = Document::parse(r#"<h1>Title</h1><a href="/1">One</a><h1>Other</h1>"#);
    let tags = vec![
        TagConfig { name: "a".to_string(), attributes: vec!["href".to_string()] },
        TagConfig { name: "h1".to_string(), attributes: vec![] },
    ];
    let all = extract(&document, &tags).unwrap();
    let first = scrape_attributes_and_content(&document, "a", &tags[0].attributes).unwrap();
    let second = scrape_attributes_and_content(&document, "h1", &tags[1].attributes).unwrap();
    assert_eq!(all.len(), first.len() + second.len());
    assert_eq!(field(&all[0], "href"), "/1");
    assert_eq!(field(&all[0], "text"), "One");
    assert_eq!(field(&all[1], "text"), "Title");
    assert_eq!(field(&all[2], "text"), "Other");
}

#[test]
fn extract_refuses_before_applying_any_selector() {
    let document = Document::parse("<a>x</a>");
    let tags = vec![
        TagConfig { name: "a".to_string(), attributes: vec![] },
        TagConfig { name: "::".to_string(), attributes: vec![] },
        TagConfig { name: "[".to_string(), attributes: vec![] },
    ];
    match extract(&document, &tags) {
        Err(ExtractError::InvalidSelector(s)) => assert_eq!(s, "::"),
        Ok(_) => panic!("a malformed selector must be refused"),
    }
}

#[test]
fn extract_with_no_matches_is_empty() {
    let document = Document::parse("<p>x</p>");
    let tags = vec![TagConfig { name: "table".to_string(), attributes: vec!["id".to_string()] }];
    assert_eq!(extract(&document, &tags).unwrap().len(), 0);
    assert_eq!(extract(&document, &[]).unwrap().len(), 0);
}
