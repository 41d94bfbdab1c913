//! The record model: languages, items and their categories, and the error
//! kinds that every stage reports.

use vstd::prelude::*;

verus! {

/// One of the four languages in which every item carries a name.
#[derive(Debug, Clone, Copy, PartialEq, Eq, Structural)]
pub enum Language {
    Deutsch,
    French,
    English,
    Japanese,
}

/// The language whose two-letter wire code is `code`, if there is one.
pub open spec fn language_of_code(code: Seq<char>) -> Option<Language> {
    if code == "de"@ {
        Some(Language::Deutsch)
    } else if code == "fr"@ {
        Some(Language::French)
    } else if code == "en"@ {
        Some(Language::English)
    } else if code == "ja"@ {
        Some(Language::Japanese)
    } else {
        None
    }
}

impl Language {
    /// The two-letter wire code.
    pub open spec fn code(self) -> Seq<char> {
        match self {
            Language::Deutsch => "de"@,
            Language::French => "fr"@,
            Language::English => "en"@,
            Language::Japanese => "ja"@,
        }
    }

    /// The field name of the localized name, used as the storage key too.
    pub open spec fn key(self) -> Seq<char> {
        match self {
            Language::Deutsch => "Name_de"@,
            Language::French => "Name_fr"@,
            Language::English => "Name_en"@,
            Language::Japanese => "Name_ja"@,
        }
    }

    /// Reads a two-letter wire code.
    pub fn from_code(code: &str) -> (r: Result<Language, String>)
        ensures
            match language_of_code(code@) {
                Some(l) => r == Ok::<Language, String>(l),
                None => r is Err && r->Err_0@ == "invalid lang code"@,
            },
    {
        let c = code.to_string();
        if c == "de".to_string() {
            Ok(Language::Deutsch)
        } else if c == "fr".to_string() {
            Ok(Language::French)
        } else if c == "en".to_string() {
            Ok(Language::English)
        } else if c == "ja".to_string() {
            Ok(Language::Japanese)
        } else {
            Err("invalid lang code".to_string())
        }
    }

    pub fn to_string(&self) -> (r: String)
        ensures
            r@ == self.code(),
    {
        let code = match self {
            Language::Deutsch => "de",
            Language::French => "fr",
            Language::English => "en",
            Language::Japanese => "ja",
        };
        code.to_string()
    }

    pub fn get_key(&self) -> (r: String)
        ensures
            r@ == self.key(),
    {
        let key = match self {
            Language::Deutsch => "Name_de",
            Language::French => "Name_fr",
            Language::English => "Name_en",
            Language::Japanese => "Name_ja",
        };
        key.to_string()
    }
}

impl core::str::FromStr for Language {
    type Err = String;

    fn from_str(s: &str) -> (r: Result<Language, String>)
        ensures
            match language_of_code(s@) {
                Some(l) => r == Ok::<Language, String>(l),
                None => r is Err && r->Err_0@ == "invalid lang code"@,
            },
    {
        Language::from_code(s)
    }
}

/// Every wire code names a language whose code it is, and every language's
/// code reads back as that language.
pub proof fn language_code_round_trip(code: Seq<char>, language: Language)
    ensures
        language_of_code(code) matches Some(l) ==> l.code() == code,
        language_of_code(language.code()) == Some(language),
{
    reveal_strlit("de");
    reveal_strlit("fr");
    reveal_strlit("en");
    reveal_strlit("ja");
    assert("de"@[0] != "fr"@[0] && "de"@[0] != "en"@[0] && "de"@[0] != "ja"@[0]);
    assert("fr"@[0] != "en"@[0] && "fr"@[0] != "ja"@[0] && "en"@[0] != "ja"@[0]);
}

/// The category of an item; either part may be absent.
#[derive(Debug, Clone)]
pub struct ItemSearchCategory {
    pub id: Option<u32>,
    pub name: Option<String>,
}

/// What a category is, as plain values.
pub struct CategoryModel {
    pub id: Option<u32>,
    pub name: Option<Seq<char>>,
}

/// The view of an optional text.
pub open spec fn text_view(t: Option<String>) -> Option<Seq<char>> {
    match t {
        Some(s) => Some(s@),
        None => None,
    }
}

impl View for ItemSearchCategory {
    type V = CategoryModel;

    open spec fn view(&self) -> CategoryModel {
        CategoryModel { id: self.id, name: text_view(self.name) }
    }
}

/// A catalog entry, with its names in all four languages.
#[derive(Debug, Clone)]
pub struct Item {
    pub id: u32,
    pub icon: String,
    pub item_search_category: ItemSearchCategory,
    pub name_de: String,
    pub name_en: String,
    pub name_fr: String,
    pub name_ja: String,
    pub eorzea_database_id: String,
}

/// What an item is, as plain values.
pub struct ItemModel {
    pub id: u32,
    pub icon: Seq<char>,
    pub category: CategoryModel,
    pub name_de: Seq<char>,
    pub name_en: Seq<char>,
    pub name_fr: Seq<char>,
    pub name_ja: Seq<char>,
    pub eorzea_database_id: Seq<char>,
}

impl ItemModel {
    /// The name in `language`.
    pub open spec fn name(self, language: Language) -> Seq<char> {
        match language {
            Language::Deutsch => self.name_de,
            Language::French => self.name_fr,
            Language::English => self.name_en,
            Language::Japanese => self.name_ja,
        }
    }

    /// The category id, an absent one counting as zero.
    pub open spec fn category_id(self) -> u32 {
        match self.category.id {
            Some(n) => n,
            None => 0,
        }
    }
}

impl View for Item {
    type V = ItemModel;

    open spec fn view(&self) -> ItemModel {
        ItemModel {
            id: self.id,
            icon: self.icon@,
            category: self.item_search_category@,
            name_de: self.name_de@,
            name_en: self.name_en@,
            name_fr: self.name_fr@,
            name_ja: self.name_ja@,
            eorzea_database_id: self.eorzea_database_id@,
        }
    }
}

/// The views of a sequence of items.
pub open spec fn models(items: Seq<Item>) -> Seq<ItemModel> {
    items.map_values(|i: Item| i@)
}

/// A copy of an optional text.
fn copy_text(t: &Option<String>) -> (r: Option<String>)
    ensures
        text_view(r) == text_view(*t),
{
    match t {
        Some(s) => Some(s.clone()),
        None => None,
    }
}

impl ItemSearchCategory {
    /// A copy with the same view.
    pub fn duplicate(&self) -> (r: ItemSearchCategory)
        ensures
            r@ == self@,
    {
        ItemSearchCategory { id: self.id, name: copy_text(&self.name) }
    }
}

impl Item {
    /// A copy with the same view.
    pub fn duplicate(&self) -> (r: Item)
        ensures
            r@ == self@,
    {
        Item {
            id: self.id,
            icon: self.icon.clone(),
            item_search_category: self.item_search_category.duplicate(),
            name_de: self.name_de.clone(),
            name_en: self.name_en.clone(),
            name_fr: self.name_fr.clone(),
            name_ja: self.name_ja.clone(),
            eorzea_database_id: self.eorzea_database_id.clone(),
        }
    }

    pub fn get_name(&self, language: &Language) -> (r: String)
        ensures
            r@ == self@.name(*language),
    {
        let name = match language {
            Language::Japanese => &self.name_ja,
            Language::English => &self.name_en,
            Language::French => &self.name_fr,
            Language::Deutsch => &self.name_de,
        };
        name.clone()
    }

    pub fn get_item_search_category_id(&self) -> (r: u32)
        ensures
            r == self@.category_id(),
    {
        match self.item_search_category.id {
            Some(num) => num,
            None => 0,
        }
    }
}

/// The two kinds of failure: a caller's bad input, or a fault of the
/// service's own dependencies. Each carries a diagnostic message.
#[derive(Debug)]
pub enum HttpErrorType {
    BadRequest(String),
    InternalServerError(String),
}

/// The error envelope shown to a client.
#[derive(Debug)]
pub struct ErrorBody {
    pub error_type: String,
    pub message: Option<String>,
}

impl HttpErrorType {
    /// The HTTP status that this error maps to.
    pub fn status_code(&self) -> (r: u16)
        ensures
            r == (if self is BadRequest { 400u16 } else { 500u16 }),
    {
        match self {
            HttpErrorType::BadRequest(_) => 400,
            HttpErrorType::InternalServerError(_) => 500,
        }
    }

    /// The envelope for a client: the kind, and the message of a bad
    /// request only, so that internal diagnostics stay in the logs.
    pub fn error_body(&self) -> (r: ErrorBody)
        ensures
            r.error_type@ == (if self is BadRequest { "BadRequest"@ } else {
                "InternalServerError"@
            }),
            match self {
                HttpErrorType::BadRequest(m) => text_view(r.message) == Some(m@),
                HttpErrorType::InternalServerError(_) => r.message is None,
            },
    {
        match self {
            HttpErrorType::BadRequest(message) => ErrorBody {
                error_type: "BadRequest".to_string(),
                message: Some(message.clone()),
            },
            HttpErrorType::InternalServerError(_) => ErrorBody {
                error_type: "InternalServerError".to_string(),
                message: None,
            },
        }
    }
}

/// `a` comes no later than `b`: by category id (absent as zero), then by id.
pub open spec fn in_order(a: ItemModel, b: ItemModel) -> bool {
    a.category_id() < b.category_id() || (a.category_id() == b.category_id() && a.id <= b.id)
}

/// `a` and `b` share their place in the order.
pub open spec fn same_place(a: ItemModel, b: ItemModel) -> bool {
    a.category_id() == b.category_id() && a.id == b.id
}

/// Compares two items by category id (absent as zero), then by id.
pub fn sort_func(a: &Item, b: &Item) -> (r: core::cmp::Ordering)
    ensures
        r == (if same_place(a@, b@) {
            core::cmp::Ordering::Equal
        } else if in_order(a@, b@) {
            core::cmp::Ordering::Less
        } else {
            core::cmp::Ordering::Greater
        }),
{
    let ca = a.get_item_search_category_id();
    let cb = b.get_item_search_category_id();
    if ca < cb {
        core::cmp::Ordering::Less
    } else if ca > cb {
        core::cmp::Ordering::Greater
    } else if a.id < b.id {
        core::cmp::Ordering::Less
    } else if a.id > b.id {
        core::cmp::Ordering::Greater
    } else {
        core::cmp::Ordering::Equal
    }
}

} // verus!
