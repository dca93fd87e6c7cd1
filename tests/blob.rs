use find_work::blob::{Blob, Tab};
use find_work::data::{Category, Link, StructuralData, TabCategory};
use find_work::github::Issue;
use find_work::issues::{issue_queries, IssueData};

fn s(x: &str) -> String {
    x.to_owned()
}

fn tab(id: &str, title: &str) -> find_work::data::Tab {
    find_work::data::Tab { id: s(id), title: s(title), description: format!("A {} for {}s", title, id) }
}

fn category(key: &str, title: &str, repo: &str, tags: &[&str]) -> Category {
    Category {
        id: s(key),
        title: s(title),
        description: String::new(),
        repository: s(repo),
        labels: vec![],
        links: vec![],
        tags: tags.iter().map(|t| s(t)).collect(),
    }
}

fn assoc(tab: &str, category: &str) -> TabCategory {
    TabCategory {
        tab: s(tab),
        category: s(category),
        labels: vec![],
        negative_labels: None,
        milestone: None,
        link: None,
    }
}

fn issue(number: u32) -> Issue {
    Issue {
        number,
        url: String::new(),
        title: s("Title"),
        body: s("body/description"),
        labels: vec![],
    }
}

fn mock_struct_data() -> StructuralData {
    StructuralData {
        tabs: vec![tab("foo", "Foo"), tab("bar", "Bar")],
        categories: vec![category("rustfmt", "Rustfmt", "rust-lang-nursery/rustfmt", &["a", "b"])],
        tab_category: vec![assoc("foo", "rustfmt"), assoc("bar", "rustfmt")],
    }
}

fn mock_issue_data() -> IssueData {
    let mut issues = IssueData::new();
    issues.insert(s("foo"), s("rustfmt"), vec![issue(42)]);
    issues.insert(s("bar"), s("rustfmt"), vec![issue(42)]);
    issues
}

fn make_blob() -> Blob {
    Blob::make(&mock_struct_data(), &mock_issue_data()).unwrap_or_else(|s| panic!("{:?}", s))
}

fn assert_foo_props(tab: &Tab) {
    assert_eq!(tab.id, "foo");
    assert_eq!(tab.title, "Foo");
    assert_eq!(tab.tags, &["a".to_owned(), "b".to_owned()]);
    assert_eq!(tab.categories.len(), 1);
    let cat = &tab.categories[0];
    assert_eq!(cat.title, "Rustfmt");
}

#[test]
fn test_make() {
    let blob = make_blob();
    println!("{:?}", blob);
    assert_eq!(blob.tabs.len(), 2);
    assert_foo_props(&blob.tabs[0]);
    assert_eq!(blob.tabs[1].categories.len(), 1);
}

#[test]
fn test_by_tab() {
    let blob = make_blob();
    let blob_foo = blob.by_tab("foo").unwrap_or_else(|s| panic!("{:?}", s));
    assert_foo_props(&blob_foo.tabs[0]);
    assert_eq!(blob_foo.tabs[1].categories.len(), 0);
}

#[test]
fn by_tab_clears_other_tabs_and_keeps_titles() {
    let blob = make_blob();
    let blob_bar = blob.by_tab("bar").unwrap();
    assert_eq!(blob_bar.tabs.len(), 2);
    assert_eq!(blob_bar.tabs[0].id, "foo");
    assert_eq!(blob_bar.tabs[0].title, "Foo");
    assert!(blob_bar.tabs[0].categories.is_empty());
    assert!(blob_bar.tabs[0].tags.is_empty());
    assert_eq!(blob_bar.tabs[1].categories.len(), 1);
    assert_eq!(blob_bar.tabs[1].tags, vec![s("a"), s("b")]);
}

#[test]
fn by_tab_unknown_tab_is_not_found() {
    let blob = make_blob();
    let before = format!("{:?}", blob);
    let err = blob.by_tab("nope").unwrap_err();
    assert_eq!(err.0, "tab not found: nope");
    assert_eq!(format!("{:?}", blob), before);
}

#[test]
fn make_concrete_scenario() {
    let mut cat = category("rustfmt", "Rustfmt", "org/rustfmt", &["b", "a"]);
    cat.labels = vec![s("p-high")];
    let mut tc = assoc("foo", "rustfmt");
    tc.labels = vec![s("bug")];
    let sd = StructuralData { tabs: vec![tab("foo", "Foo")], categories: vec![cat], tab_category: vec![tc] };
    let queries = issue_queries(&sd).unwrap();
    assert_eq!(queries[0].labels, "p-high,bug");
    assert_eq!(queries[0].repository, "org/rustfmt");
    let mut data = IssueData::new();
    data.insert(s("foo"), s("rustfmt"), vec![issue(42)]);
    let blob = Blob::make(&sd, &data).unwrap();
    assert_eq!(blob.tabs.len(), 1);
    let t = &blob.tabs[0];
    assert_eq!(t.id, "foo");
    assert_eq!(t.tags, vec![s("a"), s("b")]);
    assert_eq!(t.categories.len(), 1);
    let c = &t.categories[0];
    assert_eq!(c.id, "rustfmt");
    assert_eq!(c.tags, vec![s("b"), s("a")]);
    assert_eq!(c.links.len(), 1);
    assert_eq!(c.links[0].text, "repository");
    assert_eq!(c.links[0].url, "https://github.com/org/rustfmt");
    assert_eq!(c.issues.len(), 1);
    assert_eq!(c.issues[0].number, 42);
}

#[test]
fn make_merges_links_in_order() {
    let mut cat = category("c", "C", "o/r", &[]);
    cat.links = vec![Link { text: s("guide"), url: s("https://example.org/guide") }];
    let mut tc = assoc("t", "c");
    tc.link = Some(Link { text: s("mentoring"), url: s("https://example.org/m") });
    let sd = StructuralData { tabs: vec![tab("t", "T")], categories: vec![cat], tab_category: vec![tc] };
    let mut data = IssueData::new();
    data.insert(s("t"), s("c"), vec![issue(1)]);
    let blob = Blob::make(&sd, &data).unwrap();
    let links: Vec<(String, String)> =
        blob.tabs[0].categories[0].links.iter().map(|l| (l.text.clone(), l.url.clone())).collect();
    assert_eq!(
        links,
        vec![
            (s("mentoring"), s("https://example.org/m")),
            (s("repository"), s("https://github.com/o/r")),
            (s("guide"), s("https://example.org/guide")),
        ]
    );
}

#[test]
fn make_tags_are_sorted_union_of_shown_categories() {
    let sd = StructuralData {
        tabs: vec![tab("t", "T")],
        categories: vec![
            category("x", "X", "o/x", &["b", "a"]),
            category("y", "Y", "o/y", &["c", "a", "B"]),
            category("z", "Z", "o/z", &["zz"]),
        ],
        tab_category: vec![assoc("t", "x"), assoc("t", "y"), assoc("t", "z")],
    };
    let mut data = IssueData::new();
    data.insert(s("t"), s("x"), vec![issue(1)]);
    data.insert(s("t"), s("y"), vec![issue(2)]);
    let blob = Blob::make(&sd, &data).unwrap();
    let t = &blob.tabs[0];
    assert_eq!(t.categories.len(), 2);
    assert_eq!(t.categories[0].id, "x");
    assert_eq!(t.categories[1].id, "y");
    assert_eq!(t.tags, vec![s("B"), s("a"), s("b"), s("c")]);
}

#[test]
fn make_keeps_declared_tab_order_and_empty_tabs() {
    let sd = StructuralData {
        tabs: vec![tab("zeta", "Zeta"), tab("alpha", "Alpha"), tab("mid", "Mid")],
        categories: vec![category("c", "C", "o/c", &["t"])],
        tab_category: vec![assoc("alpha", "c")],
    };
    let blob = Blob::make(&sd, &IssueData::new()).unwrap();
    let ids: Vec<&str> = blob.tabs.iter().map(|t| t.id.as_str()).collect();
    assert_eq!(ids, vec!["zeta", "alpha", "mid"]);
    assert!(blob.tabs.iter().all(|t| t.categories.is_empty() && t.tags.is_empty()));
}

#[test]
fn make_fails_on_unknown_category() {
    let sd = StructuralData {
        tabs: vec![tab("t", "T")],
        categories: vec![],
        tab_category: vec![assoc("t", "missing")],
    };
    let err = Blob::make(&sd, &IssueData::new()).unwrap_err();
    assert_eq!(err.0, "unknown category: missing");
}

#[test]
fn make_fails_on_empty_issue_list() {
    let sd = StructuralData {
        tabs: vec![tab("t", "T")],
        categories: vec![category("c", "C", "o/c", &[])],
        tab_category: vec![assoc("t", "c")],
    };
    let data = IssueData { issues: vec![((s("t"), s("c")), vec![])] };
    assert!(Blob::make(&sd, &data).is_err());
}

#[test]
fn make_ignores_associations_of_undeclared_tabs() {
    let sd = StructuralData {
        tabs: vec![tab("t", "T")],
        categories: vec![],
        tab_category: vec![assoc("other", "missing")],
    };
    let blob = Blob::make(&sd, &IssueData::new()).unwrap();
    assert_eq!(blob.tabs.len(), 1);
}

#[test]
fn make_uses_last_declaration_of_a_category() {
    let sd = StructuralData {
        tabs: vec![tab("t", "T")],
        categories: vec![category("c", "First", "o/one", &[]), category("c", "Second", "o/two", &[])],
        tab_category: vec![assoc("t", "c")],
    };
    let mut data = IssueData::new();
    data.insert(s("t"), s("c"), vec![issue(3)]);
    let blob = Blob::make(&sd, &data).unwrap();
    assert_eq!(blob.tabs[0].categories[0].title, "Second");
}
