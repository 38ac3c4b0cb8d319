use spider_tui::config::{default_log_path, default_state_data_path, keyfile_path, SpiderTuiConfig};
use spider_tui::dataset::{DatasetData, DatasetStore};
use spider_tui::element::{substitute, Element, ElementKind};
use spider_tui::layout::{elem_calc_height, elem_calc_width};
use spider_tui::page::{ElementUpdate, Page};
use spider_tui::page_list::PageList;

fn leaf(kind: ElementKind, id: Option<&str>, text: &str) -> Element {
    Element {
        kind,
        id: id.map(|s| s.to_string()),
        dataset_path: None,
        children: Vec::new(),
        text: text.to_string(),
    }
}

fn rows(children: Vec<Element>) -> Element {
    Element {
        kind: ElementKind::Rows,
        id: None,
        dataset_path: None,
        children,
        text: String::new(),
    }
}

fn columns(children: Vec<Element>) -> Element {
    Element {
        kind: ElementKind::Columns,
        id: None,
        dataset_path: None,
        children,
        text: String::new(),
    }
}

fn row(fields: Vec<(&str, &str)>) -> DatasetData {
    DatasetData::new(
        fields
            .into_iter()
            .map(|(k, v)| (k.to_string(), v.to_string()))
            .collect(),
    )
}

#[test]
fn it_works() {
    let result = 2 + 2;
    assert_eq!(result, 4);
}

#[test]
fn page_accepts_unique_ids() {
    let root = rows(vec![
        leaf(ElementKind::Button, Some("a"), "A"),
        leaf(ElementKind::Button, Some("b"), "B"),
    ]);
    let page = Page::new("p1".to_string(), "first".to_string(), root);
    assert!(page.is_some());
    let page = page.unwrap();
    assert_eq!(page.id().as_str(), "p1");
    assert_eq!(page.name().as_str(), "first");
    assert_eq!(page.get_path(&"a".to_string()), Some(vec![0]));
    assert_eq!(page.get_path(&"b".to_string()), Some(vec![1]));
    assert_eq!(page.get_path(&"c".to_string()), None);
}

#[test]
fn page_rejects_duplicate_ids() {
    let root = rows(vec![
        leaf(ElementKind::Button, Some("a"), "A"),
        leaf(ElementKind::Button, Some("a"), "B"),
    ]);
    assert!(Page::new("p1".to_string(), "dup".to_string(), root).is_none());
}

#[test]
fn patch_round_trip_sets_text_and_keeps_id() {
    let root = rows(vec![leaf(ElementKind::Button, Some("x"), "old")]);
    let mut page = Page::new("p".to_string(), "p".to_string(), root).unwrap();
    page.apply_changes(vec![ElementUpdate {
        id: "x".to_string(),
        text: Some("v".to_string()),
        kind: None,
        children: None,
    }]);
    let el = page.get_by_id(&"x".to_string()).unwrap();
    assert_eq!(el.text.as_str(), "v");
    assert_eq!(el.id.as_deref(), Some("x"));
}

#[test]
fn patch_with_unknown_id_is_dropped() {
    let root = rows(vec![leaf(ElementKind::Button, Some("x"), "old")]);
    let mut page = Page::new("p".to_string(), "p".to_string(), root).unwrap();
    page.apply_changes(vec![ElementUpdate {
        id: "nope".to_string(),
        text: Some("v".to_string()),
        kind: None,
        children: None,
    }]);
    assert_eq!(page.get_by_id(&"x".to_string()).unwrap().text.as_str(), "old");
}

#[test]
fn patch_replacing_children_rebuilds_index() {
    let root = rows(vec![leaf(ElementKind::Button, Some("x"), "old")]);
    let mut page = Page::new("p".to_string(), "p".to_string(), root).unwrap();
    page.apply_changes(vec![ElementUpdate {
        id: "x".to_string(),
        text: None,
        kind: Some(ElementKind::Rows),
        children: Some(vec![leaf(ElementKind::Button, Some("y"), "Y")]),
    }]);
    assert_eq!(page.get_path(&"y".to_string()), Some(vec![0, 0]));
    assert_eq!(page.get_path(&"x".to_string()), Some(vec![0]));
}

#[test]
fn patch_introducing_duplicate_id_is_dropped_whole() {
    let root = rows(vec![
        leaf(ElementKind::Button, Some("x"), "old"),
        leaf(ElementKind::Button, Some("y"), "other"),
    ]);
    let mut page = Page::new("p".to_string(), "p".to_string(), root).unwrap();
    page.apply_changes(vec![ElementUpdate {
        id: "x".to_string(),
        text: Some("changed".to_string()),
        kind: None,
        children: Some(vec![leaf(ElementKind::Button, Some("y"), "dup")]),
    }]);
    // the whole patch is dropped: text untouched, no child added
    let el = page.get_by_id(&"x".to_string()).unwrap();
    assert_eq!(el.text.as_str(), "old");
    assert_eq!(el.children.len(), 0);
}

#[test]
fn list_clamp() {
    let mut list = PageList::new();
    let mut pages = Vec::new();
    for name in ["a", "b", "c"] {
        pages.push(
            Page::new(name.to_string(), name.to_string(), rows(vec![])).unwrap(),
        );
    }
    list.add_pages(pages);
    for _ in 0..8 {
        list.select_next_page();
    }
    assert_eq!(list.selected_index(), 2);
    for _ in 0..8 {
        list.select_prev_page();
    }
    assert_eq!(list.selected_index(), 0);
}

#[test]
fn upsert_replaces_in_place_or_appends() {
    let mut list = PageList::new();
    list.add_pages(vec![
        Page::new("a".to_string(), "a".to_string(), rows(vec![])).unwrap(),
        Page::new("b".to_string(), "b".to_string(), rows(vec![])).unwrap(),
    ]);
    list.upsert_page(Page::new("a".to_string(), "a2".to_string(), rows(vec![])).unwrap());
    assert_eq!(list.len(), 2);
    assert_eq!(list.pages()[0].name().as_str(), "a2");
    list.upsert_page(Page::new("c".to_string(), "c".to_string(), rows(vec![])).unwrap());
    assert_eq!(list.len(), 3);
    assert_eq!(list.pages()[2].id().as_str(), "c");
}

#[test]
fn dataset_store_replaces_wholesale() {
    let mut store = DatasetStore::new();
    store.insert("/d".to_string(), vec![row(vec![("f", "1")]), row(vec![("f", "2")])]);
    assert_eq!(store.get_rows(&"/d".to_string()).unwrap().len(), 2);
    store.insert("/d".to_string(), vec![row(vec![("f", "9")])]);
    let rows_now = store.get_rows(&"/d".to_string()).unwrap();
    assert_eq!(rows_now.len(), 1);
    assert_eq!(rows_now[0].get(&"f".to_string()).unwrap().as_str(), "9");
    assert!(store.get_rows(&"/other".to_string()).is_none());
}

#[test]
fn template_substitution() {
    let r = row(vec![("name", "Bob")]);
    assert_eq!(
        substitute("hi {name}!", &r).unwrap().as_str(),
        "hi Bob!"
    );
    assert!(substitute("hi {missing}!", &r).is_none());
    assert!(substitute("broken {name", &r).is_none());
    assert_eq!(substitute("plain", &r).unwrap().as_str(), "plain");
}

#[test]
fn variable_content_and_marker() {
    let v = Element {
        kind: ElementKind::Variable("{name}".to_string()),
        id: None,
        dataset_path: None,
        children: Vec::new(),
        text: String::new(),
    };
    let r = row(vec![("name", "Bob")]);
    assert_eq!(v.render_content(Some(&r)).as_str(), "Bob");
    // no row in scope: the explicit unresolved marker, never empty
    assert_eq!(v.render_content(None).as_str(), "e{name}");
}

#[test]
fn layout_fixed_extents() {
    let store = DatasetStore::new();
    let te = leaf(ElementKind::TextEntry, None, "");
    assert_eq!(elem_calc_height(&te, None, &store).unwrap(), 3);
    assert_eq!(elem_calc_width(&te, None, &store).unwrap(), 35);
    let b = leaf(ElementKind::Button, None, "ok");
    assert_eq!(elem_calc_height(&b, None, &store).unwrap(), 3);
    assert_eq!(elem_calc_width(&b, None, &store).unwrap(), 4);
}

#[test]
fn layout_text_height_formula() {
    let store = DatasetStore::new();
    let short = leaf(ElementKind::Text, None, "hello");
    assert_eq!(elem_calc_height(&short, None, &store).unwrap(), 2);
    let long = leaf(ElementKind::Text, None, &"x".repeat(81));
    assert_eq!(elem_calc_height(&long, None, &store).unwrap(), 3);
    let exact = leaf(ElementKind::Text, None, &"x".repeat(80));
    assert_eq!(elem_calc_height(&exact, None, &store).unwrap(), 2);
}

#[test]
fn layout_text_width_is_display_width() {
    let store = DatasetStore::new();
    // a wide character occupies two columns though it is one char
    let wide = leaf(ElementKind::Text, None, "你");
    assert_eq!(elem_calc_width(&wide, None, &store).unwrap(), 2);
    let narrow = leaf(ElementKind::Text, None, "ab");
    assert_eq!(elem_calc_width(&narrow, None, &store).unwrap(), 2);
}

#[test]
fn layout_containers_sum_and_max() {
    let store = DatasetStore::new();
    let tree = rows(vec![
        leaf(ElementKind::Button, None, "ok"),      // h 3, w 4
        leaf(ElementKind::TextEntry, None, ""),     // h 3, w 35
    ]);
    assert_eq!(elem_calc_height(&tree, None, &store).unwrap(), 6);
    assert_eq!(elem_calc_width(&tree, None, &store).unwrap(), 35);
    let cols = columns(vec![
        leaf(ElementKind::Button, None, "ok"),
        leaf(ElementKind::TextEntry, None, ""),
    ]);
    assert_eq!(elem_calc_height(&cols, None, &store).unwrap(), 3);
    assert_eq!(elem_calc_width(&cols, None, &store).unwrap(), 39);
}

#[test]
fn layout_fails_loudly_on_grid() {
    let store = DatasetStore::new();
    let g = Element {
        kind: ElementKind::Grid(2, 2),
        id: None,
        dataset_path: None,
        children: Vec::new(),
        text: String::new(),
    };
    assert!(elem_calc_height(&g, None, &store).is_err());
    assert!(elem_calc_width(&g, None, &store).is_err());
}

#[test]
fn config_defaults() {
    assert_eq!(default_log_path().as_str(), "spider_tui.log");
    assert_eq!(default_state_data_path().as_str(), "client_state.dat");
    assert_eq!(keyfile_path().as_str(), "spider_keyfile.json");
    let c = SpiderTuiConfig::default();
    assert_eq!(c.log_path.as_str(), "spider_tui.log");
    assert_eq!(c.state_data_path.as_str(), "client_state.dat");
    assert_eq!(c.keyfile_path.as_str(), "spider_keyfile.json");
}
