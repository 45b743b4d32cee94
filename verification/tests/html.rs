use lazydeck::html::{node_at, HtmlDocument};

#[test]
fn document_and_node_selection_work() {
    let html = HtmlDocument::parse_document(
        r#"
                <div class="repo">
                    <a href="/rust-lang/rust">rust-lang/rust</a>
                    <span class="stars">100k</span>
                </div>
            "#
        .to_string(),
    );

    let repos = html.select(".repo").unwrap();
    assert_eq!(repos.len(), 1);

    let repo = &repos[0];
    assert_eq!(repo.tag_name, "div");
    assert_eq!(repo.attr("class").as_deref(), Some("repo"));

    let link = repo.first("a").unwrap().expect("expected link node");
    assert_eq!(link.text, "rust-lang/rust");
    assert_eq!(link.attr("href").as_deref(), Some("/rust-lang/rust"));
}

#[test]
fn an_invalid_selector_is_named_in_the_error() {
    let doc = HtmlDocument::parse_fragment("<p>x</p>".to_string());
    let err = doc.select("p[").err().expect("selector error");
    assert!(err.starts_with("Invalid CSS selector 'p[': "), "{}", err);
}

#[test]
fn first_is_the_first_of_the_selection() {
    let doc = HtmlDocument::parse_fragment("<ul><li>a</li><li id=\"b\">b</li></ul>".to_string());
    let all = doc.select("li").unwrap();
    assert_eq!(all.len(), 2);
    let first = doc.first("li").unwrap().unwrap();
    assert_eq!(first.text, all[0].text);
    assert!(doc.first("table").unwrap().is_none());
    assert_eq!(all[1].attr("id").as_deref(), Some("b"));
    assert_eq!(all[0].attr("id"), None);
}

#[test]
fn list_positions_count_from_one() {
    let doc = HtmlDocument::parse_fragment("<i>1</i><i>2</i>".to_string());
    let nodes = doc.select("i").unwrap();
    assert!(node_at(&nodes, 0).is_none());
    assert_eq!(node_at(&nodes, 1).unwrap().text, "1");
    assert_eq!(node_at(&nodes, 2).unwrap().text, "2");
    assert!(node_at(&nodes, 3).is_none());
}
