//! Raw storage records and their decoding into items.
//!
//! A raw record maps attribute names to loosely typed values. Decoding is
//! strict about the item's own fields and lenient about its category
//! container, which some catalog rows lack.

use vstd::prelude::*;
use crate::model::{
    models, text_view, CategoryModel, HttpErrorType, Item, ItemModel, ItemSearchCategory,
};
use crate::text::{parse_u32, u32_text};

verus! {

/// A storage attribute value. Of its kinds the logic reads three: text
/// (`s`), a number written as text (`n`), and a nested map (`m`).
#[derive(Debug)]
pub struct AttributeValue {
    pub s: Option<String>,
    pub n: Option<String>,
    pub m: Option<AttributeMap>,
}

/// Attribute names with their values.
#[derive(Debug)]
pub struct AttributeMap {
    pub entries: Vec<(String, AttributeValue)>,
}

/// The value of the first entry named `key`.
pub open spec fn first_value(entries: Seq<(String, AttributeValue)>, key: Seq<char>) -> Option<
    AttributeValue,
>
    decreases entries.len(),
{
    if entries.len() == 0 {
        None
    } else if entries[0].0@ == key {
        Some(entries[0].1)
    } else {
        first_value(entries.drop_first(), key)
    }
}

impl AttributeMap {
    /// The value stored under `key`.
    pub open spec fn value_of(self, key: Seq<char>) -> Option<AttributeValue> {
        first_value(self.entries@, key)
    }

    /// Looks up the value stored under `key`.
    pub fn get(&self, key: &str) -> (r: Option<&AttributeValue>)
        ensures
            match r {
                Some(v) => self.value_of(key@) == Some(*v),
                None => self.value_of(key@) is None,
            },
    {
        let k = key.to_string();
        let mut i: usize = 0;
        assert(self.entries@.skip(0) =~= self.entries@);
        while i < self.entries.len()
            invariant
                i <= self.entries.len(),
                k@ == key@,
                first_value(self.entries@, key@) == first_value(self.entries@.skip(i as int), key@),
            decreases self.entries.len() - i,
        {
            let ghost rest = self.entries@.skip(i as int);
            assert(rest[0] == self.entries@[i as int]);
            if self.entries[i].0 == k {
                return Some(&self.entries[i].1);
            }
            assert(rest.drop_first() =~= self.entries@.skip(i + 1));
            i = i + 1;
        }
        None
    }
}

/// Why a record does not decode. Each fault names the field by its path.
pub enum DecodeFault {
    /// A required field is absent, or does not hold the kind it must.
    Missing(Seq<char>),
    /// A number field holds text, the second part, that does not write an
    /// unsigned 32-bit number.
    NotANumber(Seq<char>, Seq<char>),
}

/// The diagnostic message of a fault.
pub open spec fn fault_message(f: DecodeFault) -> Seq<char> {
    match f {
        DecodeFault::Missing(path) => path + " does not exist."@,
        DecodeFault::NotANumber(path, text) => path + " '"@ + text
            + "' is not an unsigned 32-bit number."@,
    }
}

/// `e` is the internal error that reports `f`.
pub open spec fn reports(e: HttpErrorType, f: DecodeFault) -> bool {
    e is InternalServerError && e->InternalServerError_0@ == fault_message(f)
}

/// The text held under `key`, if the value there is text.
pub open spec fn text_field(rec: AttributeMap, key: Seq<char>) -> Option<Seq<char>> {
    match rec.value_of(key) {
        Some(v) => text_view(v.s),
        None => None,
    }
}

/// The number text held under `key`, if the value there is a number.
pub open spec fn number_field(rec: AttributeMap, key: Seq<char>) -> Option<Seq<char>> {
    match rec.value_of(key) {
        Some(v) => text_view(v.n),
        None => None,
    }
}

/// A required text field.
pub open spec fn required_text(rec: AttributeMap, key: Seq<char>) -> Result<Seq<char>, DecodeFault> {
    match text_field(rec, key) {
        Some(t) => Ok(t),
        None => Err(DecodeFault::Missing(key)),
    }
}

/// A required number field.
pub open spec fn required_number(rec: AttributeMap, key: Seq<char>) -> Result<u32, DecodeFault> {
    match number_field(rec, key) {
        Some(t) => match u32_text(t) {
            Some(n) => Ok(n),
            None => Err(DecodeFault::NotANumber(key, t)),
        },
        None => Err(DecodeFault::Missing(key)),
    }
}

/// The category: absent parts when there is no map under
/// `ItemSearchCategory`; else its `Name` text if any, and its `ID` number,
/// which must be an unsigned 32-bit number where it is present.
pub open spec fn category_field(rec: AttributeMap) -> Result<CategoryModel, DecodeFault> {
    match rec.value_of("ItemSearchCategory"@) {
        Some(v) => match v.m {
            Some(inner) => {
                let name = text_field(inner, "Name"@);
                match number_field(inner, "ID"@) {
                    Some(t) => match u32_text(t) {
                        Some(n) => Ok(CategoryModel { id: Some(n), name }),
                        None => Err(DecodeFault::NotANumber("ItemSearchCategory.ID"@, t)),
                    },
                    None => Ok(CategoryModel { id: None, name }),
                }
            },
            None => Ok(CategoryModel { id: None, name: None }),
        },
        None => Ok(CategoryModel { id: None, name: None }),
    }
}

/// What a raw record decodes to. The fields are read in the order `ID`,
/// `Icon`, the category, `Name_de`, `Name_en`, `Name_fr`, `Name_ja`,
/// `EorzeaDatabaseId`, and the first fault met is the result.
pub open spec fn decode(rec: AttributeMap) -> Result<ItemModel, DecodeFault> {
    let id = required_number(rec, "ID"@);
    let icon = required_text(rec, "Icon"@);
    let category = category_field(rec);
    let de = required_text(rec, "Name_de"@);
    let en = required_text(rec, "Name_en"@);
    let fr = required_text(rec, "Name_fr"@);
    let ja = required_text(rec, "Name_ja"@);
    let edb = required_text(rec, "EorzeaDatabaseId"@);
    if let Err(f) = id {
        Err(f)
    } else if let Err(f) = icon {
        Err(f)
    } else if let Err(f) = category {
        Err(f)
    } else if let Err(f) = de {
        Err(f)
    } else if let Err(f) = en {
        Err(f)
    } else if let Err(f) = fr {
        Err(f)
    } else if let Err(f) = ja {
        Err(f)
    } else if let Err(f) = edb {
        Err(f)
    } else {
        Ok(
            ItemModel {
                id: id->Ok_0,
                icon: icon->Ok_0,
                category: category->Ok_0,
                name_de: de->Ok_0,
                name_en: en->Ok_0,
                name_fr: fr->Ok_0,
                name_ja: ja->Ok_0,
                eorzea_database_id: edb->Ok_0,
            },
        )
    }
}

/// The internal error that reports a field as missing.
fn missing(path: &str) -> (e: HttpErrorType)
    ensures
        reports(e, DecodeFault::Missing(path@)),
{
    HttpErrorType::InternalServerError(path.to_string().concat(" does not exist."))
}

/// The internal error that reports the text of a number field as not a
/// number.
fn not_a_number(path: &str, text: &str) -> (e: HttpErrorType)
    ensures
        reports(e, DecodeFault::NotANumber(path@, text@)),
{
    let message = path.to_string().concat(" '").concat(text).concat(
        "' is not an unsigned 32-bit number.",
    );
    HttpErrorType::InternalServerError(message)
}

/// Looks up the text held under `key`.
fn text_at(rec: &AttributeMap, key: &str) -> (r: Option<String>)
    ensures
        text_view(r) == text_field(*rec, key@),
{
    match rec.get(key) {
        Some(v) => match &v.s {
            Some(t) => Some(t.clone()),
            None => None,
        },
        None => None,
    }
}

/// Reads a required text field.
fn required_text_at(rec: &AttributeMap, key: &str) -> (r: Result<String, HttpErrorType>)
    ensures
        match required_text(*rec, key@) {
            Ok(t) => r is Ok && r->Ok_0@ == t,
            Err(f) => r is Err && reports(r->Err_0, f),
        },
{
    match text_at(rec, key) {
        Some(t) => Ok(t),
        None => Err(missing(key)),
    }
}

/// Reads a required number field.
pub fn required_number_at(rec: &AttributeMap, key: &str) -> (r: Result<u32, HttpErrorType>)
    ensures
        match required_number(*rec, key@) {
            Ok(n) => r is Ok && r->Ok_0 == n,
            Err(f) => r is Err && reports(r->Err_0, f),
        },
{
    match rec.get(key) {
        Some(v) => match &v.n {
            Some(t) => match parse_u32(t.as_str()) {
                Some(n) => Ok(n),
                None => Err(not_a_number(key, t.as_str())),
            },
            None => Err(missing(key)),
        },
        None => Err(missing(key)),
    }
}

/// Reads the category.
fn category_at(rec: &AttributeMap) -> (r: Result<ItemSearchCategory, HttpErrorType>)
    ensures
        match category_field(*rec) {
            Ok(c) => r is Ok && r->Ok_0@ == c,
            Err(f) => r is Err && reports(r->Err_0, f),
        },
{
    let inner = match rec.get("ItemSearchCategory") {
        Some(v) => match &v.m {
            Some(inner) => inner,
            None => {
                return Ok(ItemSearchCategory { id: None, name: None });
            },
        },
        None => {
            return Ok(ItemSearchCategory { id: None, name: None });
        },
    };
    let id = match inner.get("ID") {
        Some(v) => match &v.n {
            Some(t) => match parse_u32(t.as_str()) {
                Some(n) => Some(n),
                None => {
                    return Err(not_a_number("ItemSearchCategory.ID", t.as_str()));
                },
            },
            None => None,
        },
        None => None,
    };
    Ok(ItemSearchCategory { id, name: text_at(inner, "Name") })
}

/// Decodes a raw record into an item, failing on the first field that is
/// missing or malformed.
pub fn convert_dynamodb_item_to_item(item: &AttributeMap) -> (r: Result<Item, HttpErrorType>)
    ensures
        match decode(*item) {
            Ok(m) => r is Ok && r->Ok_0@ == m,
            Err(f) => r is Err && reports(r->Err_0, f),
        },
{
    let id = match required_number_at(item, "ID") {
        Ok(n) => n,
        Err(e) => {
            return Err(e);
        },
    };
    let icon = match required_text_at(item, "Icon") {
        Ok(t) => t,
        Err(e) => {
            return Err(e);
        },
    };
    let item_search_category = match category_at(item) {
        Ok(c) => c,
        Err(e) => {
            return Err(e);
        },
    };
    let name_de = match required_text_at(item, "Name_de") {
        Ok(t) => t,
        Err(e) => {
            return Err(e);
        },
    };
    let name_en = match required_text_at(item, "Name_en") {
        Ok(t) => t,
        Err(e) => {
            return Err(e);
        },
    };
    let name_fr = match required_text_at(item, "Name_fr") {
        Ok(t) => t,
        Err(e) => {
            return Err(e);
        },
    };
    let name_ja = match required_text_at(item, "Name_ja") {
        Ok(t) => t,
        Err(e) => {
            return Err(e);
        },
    };
    let eorzea_database_id = match required_text_at(item, "EorzeaDatabaseId") {
        Ok(t) => t,
        Err(e) => {
            return Err(e);
        },
    };
    Ok(
        Item {
            id,
            icon,
            item_search_category,
            name_de,
            name_en,
            name_fr,
            name_ja,
            eorzea_database_id,
        },
    )
}

/// What a page of raw records decodes to: every item in order, or the
/// fault of the first record that does not decode.
pub open spec fn decode_all(recs: Seq<AttributeMap>) -> Result<Seq<ItemModel>, DecodeFault>
    decreases recs.len(),
{
    if recs.len() == 0 {
        Ok(Seq::empty())
    } else {
        match decode_all(recs.drop_last()) {
            Err(f) => Err(f),
            Ok(items) => match decode(recs.last()) {
                Err(f) => Err(f),
                Ok(item) => Ok(items.push(item)),
            },
        }
    }
}

/// Decodes a page of raw records; a record that does not decode fails the
/// whole page.
pub fn decode_records(recs: &Vec<AttributeMap>) -> (r: Result<Vec<Item>, HttpErrorType>)
    ensures
        match decode_all(recs@) {
            Ok(ms) => r is Ok && models(r->Ok_0@) == ms,
            Err(f) => r is Err && reports(r->Err_0, f),
        },
{
    let mut out: Vec<Item> = Vec::new();
    let mut i: usize = 0;
    assert(recs@.take(0) =~= Seq::<AttributeMap>::empty());
    assert(models(out@) =~= Seq::<ItemModel>::empty());
    while i < recs.len()
        invariant
            i <= recs.len(),
            decode_all(recs@.take(i as int)) == Ok::<Seq<ItemModel>, DecodeFault>(models(out@)),
        decreases recs.len() - i,
    {
        let ghost next = recs@.take(i + 1);
        assert(next.drop_last() =~= recs@.take(i as int));
        match convert_dynamodb_item_to_item(&recs[i]) {
            Ok(item) => {
                assert(models(out@.push(item)) =~= models(out@).push(item@));
                out.push(item);
            },
            Err(e) => {
                proof {
                    lemma_decode_all_prefix_fault(recs@, i + 1);
                }
                return Err(e);
            },
        }
        i = i + 1;
    }
    assert(recs@.take(recs.len() as int) =~= recs@);
    Ok(out)
}

proof fn lemma_decode_all_prefix_fault(recs: Seq<AttributeMap>, k: int)
    requires
        0 <= k <= recs.len(),
        decode_all(recs.take(k)) is Err,
    ensures
        decode_all(recs) == decode_all(recs.take(k)),
    decreases recs.len(),
{
    if k < recs.len() {
        assert(recs.drop_last().take(k) =~= recs.take(k));
        lemma_decode_all_prefix_fault(recs.drop_last(), k);
    } else {
        assert(recs.take(k) =~= recs);
    }
}

/// The ids named by a list of key records, each of which holds its id
/// under `ID`; or the fault of the first key that does not.
pub open spec fn key_ids(keys: Seq<AttributeMap>) -> Result<Seq<u32>, DecodeFault>
    decreases keys.len(),
{
    if keys.len() == 0 {
        Ok(Seq::empty())
    } else {
        match key_ids(keys.drop_last()) {
            Err(f) => Err(f),
            Ok(ids) => match required_number(keys.last(), "ID"@) {
                Err(f) => Err(f),
                Ok(id) => Ok(ids.push(id)),
            },
        }
    }
}

proof fn lemma_key_ids_prefix_fault(keys: Seq<AttributeMap>, k: int)
    requires
        0 <= k <= keys.len(),
        key_ids(keys.take(k)) is Err,
    ensures
        key_ids(keys) == key_ids(keys.take(k)),
    decreases keys.len(),
{
    if k < keys.len() {
        assert(keys.drop_last().take(k) =~= keys.take(k));
        lemma_key_ids_prefix_fault(keys.drop_last(), k);
    } else {
        assert(keys.take(k) =~= keys);
    }
}

/// Reads the ids of a list of key records.
pub fn read_key_ids(keys: &Vec<AttributeMap>) -> (r: Result<Vec<u32>, HttpErrorType>)
    ensures
        match key_ids(keys@) {
            Ok(ids) => r is Ok && r->Ok_0@ == ids,
            Err(f) => r is Err && reports(r->Err_0, f),
        },
{
    let mut out: Vec<u32> = Vec::new();
    let mut i: usize = 0;
    assert(keys@.take(0) =~= Seq::<AttributeMap>::empty());
    while i < keys.len()
        invariant
            i <= keys.len(),
            key_ids(keys@.take(i as int)) == Ok::<Seq<u32>, DecodeFault>(out@),
        decreases keys.len() - i,
    {
        let ghost next = keys@.take(i + 1);
        assert(next.drop_last() =~= keys@.take(i as int));
        match required_number_at(&keys[i], "ID") {
            Ok(id) => {
                out.push(id);
            },
            Err(e) => {
                proof {
                    lemma_key_ids_prefix_fault(keys@, i + 1);
                }
                return Err(e);
            },
        }
        i = i + 1;
    }
    assert(keys@.take(keys.len() as int) =~= keys@);
    Ok(out)
}

/// The storage keys of the fields that every item must carry.
pub open spec fn is_required_key(key: Seq<char>) -> bool {
    key == "ID"@ || key == "Icon"@ || key == "Name_de"@ || key == "Name_en"@ || key == "Name_fr"@
        || key == "Name_ja"@ || key == "EorzeaDatabaseId"@
}

/// A record that lacks any one required field does not decode: it yields a
/// fault, and so no item.
pub proof fn record_without_required_field_fails(rec: AttributeMap, key: Seq<char>)
    requires
        is_required_key(key),
        rec.value_of(key) is None,
    ensures
        decode(rec) is Err,
{
}

/// A record with no category container decodes, when its required fields
/// do, to an item whose category has neither id nor name.
pub proof fn record_without_category_decodes(rec: AttributeMap)
    requires
        rec.value_of("ItemSearchCategory"@) is None,
        required_number(rec, "ID"@) is Ok,
        required_text(rec, "Icon"@) is Ok,
        required_text(rec, "Name_de"@) is Ok,
        required_text(rec, "Name_en"@) is Ok,
        required_text(rec, "Name_fr"@) is Ok,
        required_text(rec, "Name_ja"@) is Ok,
        required_text(rec, "EorzeaDatabaseId"@) is Ok,
    ensures
        decode(rec) is Ok,
        decode(rec)->Ok_0.category == (CategoryModel { id: None, name: None }),
{
}

} // verus!
