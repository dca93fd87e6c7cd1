use find_work::data::{category_index, Category, StructuralData, Tab, TabCategory};

fn s(x: &str) -> String {
    x.to_owned()
}

fn tab(id: &str) -> Tab {
    Tab { id: s(id), title: s(id), description: String::new() }
}

fn category(id: &str, title: &str) -> Category {
    Category {
        id: s(id),
        title: s(title),
        description: String::new(),
        repository: format!("rust-lang/{}", id),
        labels: vec![],
        links: vec![],
        tags: vec![],
    }
}

fn assoc(tab: &str, category: &str) -> TabCategory {
    TabCategory { tab: s(tab), category: s(category), labels: vec![], negative_labels: None, milestone: None, link: None }
}

#[test]
fn test_fetch_structural_data() {
    let data = StructuralData::from_parts(
        vec![tab("starters"), tab("tools")],
        vec![category("rustfmt", "Rustfmt"), category("rls", "RLS")],
        vec![assoc("starters", "rustfmt"), assoc("tools", "rls")],
    )
    .unwrap();
    assert!(data.tabs.iter().any(|t| t.id == "starters"));
    assert!(category_index(&data.categories, "rustfmt").is_some());
    assert!(data.tab_category.iter().any(|tc| tc.tab == "starters"));
}

#[test]
fn from_parts_rejects_unknown_references() {
    let err = StructuralData::from_parts(vec![tab("a")], vec![category("c", "C")], vec![assoc("b", "c")]).unwrap_err();
    assert_eq!(err.0, "unknown tab: b");
    let err = StructuralData::from_parts(vec![tab("a")], vec![category("c", "C")], vec![assoc("a", "d")]).unwrap_err();
    assert_eq!(err.0, "unknown category: d");
}

#[test]
fn category_index_finds_last_declaration() {
    let cats = vec![category("c", "One"), category("d", "D"), category("c", "Two")];
    assert_eq!(category_index(&cats, "c"), Some(2));
    assert_eq!(category_index(&cats, "d"), Some(1));
    assert_eq!(category_index(&cats, "e"), None);
}
