use ffxiv_item_name_database_api::model::{
    sort_func, HttpErrorType, Item, ItemSearchCategory, Language,
};
use std::cmp::Ordering;

fn item(id: u32, category: Option<u32>) -> Item {
    Item {
        id,
        icon: format!("icon{}", id),
        item_search_category: ItemSearchCategory { id: category, name: None },
        name_de: format!("de{}", id),
        name_en: format!("en{}", id),
        name_fr: format!("fr{}", id),
        name_ja: format!("ja{}", id),
        eorzea_database_id: format!("edb{}", id),
    }
}

#[test]
fn language_codes_round_trip() {
    for code in ["de", "fr", "en", "ja"] {
        let language = Language::from_code(code).unwrap();
        assert_eq!(language.to_string(), code);
        let parsed: Language = code.parse().unwrap();
        assert_eq!(parsed, language);
    }
}

#[test]
fn language_codes_name_the_right_languages() {
    assert_eq!(Language::from_code("de").unwrap(), Language::Deutsch);
    assert_eq!(Language::from_code("fr").unwrap(), Language::French);
    assert_eq!(Language::from_code("en").unwrap(), Language::English);
    assert_eq!(Language::from_code("ja").unwrap(), Language::Japanese);
}

#[test]
fn unknown_language_code_is_rejected() {
    assert_eq!(Language::from_code("xx").unwrap_err(), "invalid lang code");
    assert!(Language::from_code("DE").is_err());
    assert!(Language::from_code("").is_err());
    assert!(Language::from_code("de ").is_err());
    assert_eq!("xx".parse::<Language>().unwrap_err(), "invalid lang code");
}

#[test]
fn language_keys() {
    assert_eq!(Language::Deutsch.get_key(), "Name_de");
    assert_eq!(Language::French.get_key(), "Name_fr");
    assert_eq!(Language::English.get_key(), "Name_en");
    assert_eq!(Language::Japanese.get_key(), "Name_ja");
}

#[test]
fn item_name_by_language() {
    let it = item(7, None);
    assert_eq!(it.get_name(&Language::Deutsch), "de7");
    assert_eq!(it.get_name(&Language::French), "fr7");
    assert_eq!(it.get_name(&Language::English), "en7");
    assert_eq!(it.get_name(&Language::Japanese), "ja7");
}

#[test]
fn absent_category_id_counts_as_zero() {
    assert_eq!(item(1, None).get_item_search_category_id(), 0);
    assert_eq!(item(1, Some(0)).get_item_search_category_id(), 0);
    assert_eq!(item(1, Some(42)).get_item_search_category_id(), 42);
}

#[test]
fn sort_func_compares_category_then_id() {
    assert_eq!(sort_func(&item(9, Some(1)), &item(1, Some(2))), Ordering::Less);
    assert_eq!(sort_func(&item(1, Some(2)), &item(9, Some(1))), Ordering::Greater);
    assert_eq!(sort_func(&item(3, Some(5)), &item(4, Some(5))), Ordering::Less);
    assert_eq!(sort_func(&item(4, Some(5)), &item(3, Some(5))), Ordering::Greater);
    assert_eq!(sort_func(&item(4, Some(5)), &item(4, Some(5))), Ordering::Equal);
    assert_eq!(sort_func(&item(4, None), &item(4, Some(0))), Ordering::Equal);
    assert_eq!(sort_func(&item(4, None), &item(3, Some(1))), Ordering::Less);
}

#[test]
fn duplicate_keeps_every_field() {
    let mut it = item(11, Some(3));
    it.item_search_category.name = Some("Arms".to_string());
    let copy = it.duplicate();
    assert_eq!(copy.id, 11);
    assert_eq!(copy.icon, "icon11");
    assert_eq!(copy.item_search_category.id, Some(3));
    assert_eq!(copy.item_search_category.name.as_deref(), Some("Arms"));
    assert_eq!(copy.name_ja, "ja11");
    assert_eq!(copy.eorzea_database_id, "edb11");
}

#[test]
fn error_statuses_and_bodies() {
    let bad = HttpErrorType::BadRequest("ids is required.".to_string());
    assert_eq!(bad.status_code(), 400);
    let body = bad.error_body();
    assert_eq!(body.error_type, "BadRequest");
    assert_eq!(body.message.as_deref(), Some("ids is required."));

    let internal = HttpErrorType::InternalServerError("ID does not exist.".to_string());
    assert_eq!(internal.status_code(), 500);
    let body = internal.error_body();
    assert_eq!(body.error_type, "InternalServerError");
    assert_eq!(body.message, None);
}
