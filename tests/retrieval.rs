use ffxiv_item_name_database_api::fetch::{chunk_ids, BatchFetch, FetchAction, BATCH_SIZE};
use ffxiv_item_name_database_api::model::{HttpErrorType, Item, ItemSearchCategory, Language};
use ffxiv_item_name_database_api::order::{assemble, sort_items};
use ffxiv_item_name_database_api::query::Condition;
use ffxiv_item_name_database_api::record::{AttributeMap, AttributeValue};
use ffxiv_item_name_database_api::scan::{Scan, ScanAction};
use ffxiv_item_name_database_api::snapshot::{filter_and_sort, select_items};

fn item(id: u32, category: Option<u32>, name_en: &str) -> Item {
    Item {
        id,
        icon: format!("icon{}", id),
        item_search_category: ItemSearchCategory { id: category, name: None },
        name_de: format!("de{}", id),
        name_en: name_en.to_string(),
        name_fr: format!("fr{}", id),
        name_ja: format!("ja{}", id),
        eorzea_database_id: format!("edb{}", id),
    }
}

fn number(n: u32) -> AttributeValue {
    AttributeValue { s: None, n: Some(n.to_string()), m: None }
}

fn text(s: &str) -> AttributeValue {
    AttributeValue { s: Some(s.to_string()), n: None, m: None }
}

fn stored(id: u32, category: u32) -> AttributeMap {
    let cat = AttributeMap { entries: vec![("ID".to_string(), number(category))] };
    let entries = vec![
        ("ID", number(id)),
        ("Icon", text("icon")),
        ("ItemSearchCategory", AttributeValue { s: None, n: None, m: Some(cat) }),
        ("Name_de", text("de")),
        ("Name_en", text("en")),
        ("Name_fr", text("fr")),
        ("Name_ja", text("ja")),
        ("EorzeaDatabaseId", text("edb")),
    ];
    AttributeMap { entries: entries.into_iter().map(|(k, v)| (k.to_string(), v)).collect() }
}

fn key(id: u32) -> AttributeMap {
    AttributeMap { entries: vec![("ID".to_string(), number(id))] }
}

fn ids_of(items: &[Item]) -> Vec<u32> {
    items.iter().map(|i| i.id).collect()
}

#[test]
fn sort_orders_by_category_then_id() {
    let items = vec![
        item(5, Some(2), "a"),
        item(3, Some(1), "b"),
        item(9, None, "c"),
        item(1, Some(2), "d"),
        item(2, Some(0), "e"),
        item(4, Some(1), "f"),
    ];
    let sorted = sort_items(items);
    assert_eq!(ids_of(&sorted), vec![2, 9, 3, 4, 1, 5]);
    for w in sorted.windows(2) {
        let (a, b) = (&w[0], &w[1]);
        let (ca, cb) = (a.get_item_search_category_id(), b.get_item_search_category_id());
        assert!(ca < cb || (ca == cb && a.id <= b.id));
    }
}

#[test]
fn sort_is_stable_for_equal_places() {
    let items = vec![
        item(7, Some(1), "first"),
        item(1, Some(3), "x"),
        item(7, Some(1), "second"),
        item(7, None, "other"),
        item(7, Some(1), "third"),
    ];
    let sorted = sort_items(items);
    let names: Vec<&str> = sorted.iter().map(|i| i.name_en.as_str()).collect();
    assert_eq!(names, vec!["other", "first", "second", "third", "x"]);
}

#[test]
fn sort_of_many_items() {
    let items: Vec<Item> = (0..1000u32).rev().map(|i| item(i, Some(i % 7), "n")).collect();
    let sorted = sort_items(items);
    assert_eq!(sorted.len(), 1000);
    for w in sorted.windows(2) {
        let (ca, cb) = (w[0].get_item_search_category_id(), w[1].get_item_search_category_id());
        assert!(ca < cb || (ca == cb && w[0].id < w[1].id));
    }
    assert!(sort_items(vec![]).is_empty());
}

#[test]
fn assemble_echoes_the_condition() {
    let response = assemble(
        Condition::BySubstring(Language::French, "po".to_string()),
        vec![item(2, Some(5), "a"), item(1, Some(5), "b")],
    );
    match &response.condition {
        Condition::BySubstring(language, string) => {
            assert_eq!(*language, Language::French);
            assert_eq!(string, "po");
        }
        Condition::ByIds(_) => panic!("wrong condition"),
    }
    assert_eq!(ids_of(&response.results), vec![1, 2]);
}

#[test]
fn snapshot_substring_filter() {
    let catalog = vec![
        item(1, Some(4), "Potion"),
        item(2, Some(3), "Hi-Potion"),
        item(3, Some(3), "Ether"),
        item(4, None, "potion of strength"),
    ];
    let found = filter_and_sort(&catalog, &Language::English, &"Potion".to_string());
    assert_eq!(ids_of(&found), vec![2, 1]);
    let found = filter_and_sort(&catalog, &Language::Deutsch, &"de3".to_string());
    assert_eq!(ids_of(&found), vec![3]);
    assert_eq!(catalog.len(), 4);
}

#[test]
fn snapshot_empty_substring_keeps_every_item() {
    let catalog = vec![item(1, Some(4), "Potion"), item(2, Some(3), ""), item(3, None, "Ether")];
    let found = filter_and_sort(&catalog, &Language::English, &String::new());
    assert_eq!(ids_of(&found), vec![3, 2, 1]);
}

#[test]
fn snapshot_ids_filter_skips_unknown_ids() {
    let catalog = vec![item(10, Some(2), "x"), item(5, Some(2), "y"), item(6, Some(1), "z")];
    let found = select_items(&catalog, &Condition::ByIds(vec![5, 10, 999]));
    assert_eq!(ids_of(&found), vec![5, 10]);
    assert!(select_items(&catalog, &Condition::ByIds(vec![999])).is_empty());
}

#[test]
fn chunks_of_250_ids() {
    let ids: Vec<u32> = (0..250).collect();
    let chunks = chunk_ids(&ids);
    let sizes: Vec<usize> = chunks.iter().map(|c| c.len()).collect();
    assert_eq!(sizes, vec![100, 100, 50]);
    assert_eq!(chunks.concat(), ids);
    assert_eq!(chunk_ids(&(0..100).collect()).len(), 1);
    assert_eq!(chunk_ids(&(0..101).collect()).len(), 2);
    assert!(chunk_ids(&vec![]).is_empty());
    assert_eq!(BATCH_SIZE, 100);
}

fn expect_get(action: FetchAction) -> (Vec<u32>, u64) {
    match action {
        FetchAction::Get { ids, delay_ms } => (ids, delay_ms),
        other => panic!("expected a get, found {:?}", other),
    }
}

#[test]
fn batch_fetch_retries_unprocessed_keys_before_the_next_chunk() {
    let ids: Vec<u32> = (0..250).collect();
    let (mut fetch, first) = BatchFetch::start(&ids);
    let (asked, delay) = expect_get(first);
    assert_eq!(asked, (0..100).collect::<Vec<u32>>());
    assert_eq!(delay, 0);

    let served: Vec<AttributeMap> = (0..90).map(|i| stored(i, 1)).collect();
    let unprocessed: Vec<AttributeMap> = (90..100).map(key).collect();
    let (retry, delay) = expect_get(fetch.on_response(&served, &unprocessed));
    assert_eq!(retry, (90..100).collect::<Vec<u32>>());
    assert_eq!(delay, 50);

    let served: Vec<AttributeMap> = (90..100).map(|i| stored(i, 1)).collect();
    let (second, delay) = expect_get(fetch.on_response(&served, &vec![]));
    assert_eq!(second, (100..200).collect::<Vec<u32>>());
    assert_eq!(delay, 0);

    let served: Vec<AttributeMap> = (100..200).map(|i| stored(i, 1)).collect();
    let (third, _) = expect_get(fetch.on_response(&served, &vec![]));
    assert_eq!(third, (200..250).collect::<Vec<u32>>());

    let served: Vec<AttributeMap> = (200..250).map(|i| stored(i, 1)).collect();
    match fetch.on_response(&served, &vec![]) {
        FetchAction::Done(items) => assert_eq!(ids_of(&items), (0..250).collect::<Vec<u32>>()),
        other => panic!("expected done, found {:?}", other),
    }
}

#[test]
fn batch_fetch_backs_off_then_gives_up() {
    let (mut fetch, _) = BatchFetch::start(&vec![1, 2]);
    let mut delays = Vec::new();
    for _ in 0..5 {
        let (asked, delay) = expect_get(fetch.on_response(&vec![], &vec![key(2)]));
        assert_eq!(asked, vec![2]);
        delays.push(delay);
    }
    assert_eq!(delays, vec![50, 100, 200, 400, 800]);
    match fetch.on_response(&vec![], &vec![key(2)]) {
        FetchAction::Fail(HttpErrorType::InternalServerError(m)) => {
            assert_eq!(m, "unprocessed keys remain after the last retry round")
        }
        other => panic!("expected failure, found {:?}", other),
    }
}

#[test]
fn batch_fetch_retry_count_restarts_for_each_chunk() {
    let ids: Vec<u32> = (0..150).collect();
    let (mut fetch, _) = BatchFetch::start(&ids);
    let (_, delay) = expect_get(fetch.on_response(&vec![], &vec![key(3)]));
    assert_eq!(delay, 50);
    let (next, _) = expect_get(fetch.on_response(&vec![stored(3, 0)], &vec![]));
    assert_eq!(next.len(), 50);
    let (_, delay) = expect_get(fetch.on_response(&vec![], &vec![key(120)]));
    assert_eq!(delay, 50);
}

#[test]
fn batch_fetch_of_missing_id_returns_the_others() {
    let query_ids = vec![5, 10, 999];
    let (mut fetch, first) = BatchFetch::start(&query_ids);
    let (asked, _) = expect_get(first);
    assert_eq!(asked, vec![5, 10, 999]);
    let items = match fetch.on_response(&vec![stored(10, 2), stored(5, 2)], &vec![]) {
        FetchAction::Done(items) => items,
        other => panic!("expected done, found {:?}", other),
    };
    let response = assemble(Condition::ByIds(query_ids), items);
    assert_eq!(ids_of(&response.results), vec![5, 10]);
}

#[test]
fn batch_fetch_fails_on_a_corrupt_record() {
    let (mut fetch, _) = BatchFetch::start(&vec![1]);
    let mut broken = stored(1, 0);
    broken.entries.retain(|(k, _)| k != "Icon");
    match fetch.on_response(&vec![broken], &vec![]) {
        FetchAction::Fail(HttpErrorType::InternalServerError(m)) => {
            assert_eq!(m, "Icon does not exist.")
        }
        other => panic!("expected failure, found {:?}", other),
    }
    assert!(fetch.items.is_empty());
}

#[test]
fn batch_fetch_of_no_ids_is_done_at_once() {
    let (_, first) = BatchFetch::start(&vec![]);
    match first {
        FetchAction::Done(items) => assert!(items.is_empty()),
        other => panic!("expected done, found {:?}", other),
    }
}

#[test]
fn scan_gathers_pages_until_the_last() {
    let mut scan = Scan::new();
    assert!(matches!(scan.on_page(&vec![stored(3, 1), stored(1, 1)], true), ScanAction::NextPage));
    assert!(matches!(scan.on_page(&vec![], true), ScanAction::NextPage));
    match scan.on_page(&vec![stored(2, 0)], false) {
        ScanAction::Done(items) => {
            assert_eq!(ids_of(&items), vec![3, 1, 2]);
            let response = assemble(
                Condition::BySubstring(Language::English, "en".to_string()),
                items,
            );
            assert_eq!(ids_of(&response.results), vec![2, 1, 3]);
        }
        other => panic!("expected done, found {:?}", other),
    }
}

#[test]
fn scan_fails_on_a_corrupt_record() {
    let mut scan = Scan::new();
    let mut broken = stored(2, 0);
    broken.entries.retain(|(k, _)| k != "EorzeaDatabaseId");
    match scan.on_page(&vec![stored(1, 0), broken], true) {
        ScanAction::Fail(HttpErrorType::InternalServerError(m)) => {
            assert_eq!(m, "EorzeaDatabaseId does not exist.")
        }
        other => panic!("expected failure, found {:?}", other),
    }
    assert!(scan.items.is_empty());
}
