//! The condition parser: turns raw query parameters into a validated
//! condition, or a bad request that names the offending parameter.

use vstd::prelude::*;
use crate::model::{language_of_code, HttpErrorType, Item, ItemModel, Language};
use crate::text::{chars_of, contains, parse_u32_chars, split_commas, text_contains, u32_text};

verus! {

/// Query parameter names with their values.
#[derive(Debug)]
pub struct QueryParams {
    pub pairs: Vec<(String, String)>,
}

/// The value of the first pair named `name`.
pub open spec fn first_param(pairs: Seq<(String, String)>, name: Seq<char>) -> Option<Seq<char>>
    decreases pairs.len(),
{
    if pairs.len() == 0 {
        None
    } else if pairs[0].0@ == name {
        Some(pairs[0].1@)
    } else {
        first_param(pairs.drop_first(), name)
    }
}

impl QueryParams {
    /// The value of parameter `name`.
    pub open spec fn param(self, name: Seq<char>) -> Option<Seq<char>> {
        first_param(self.pairs@, name)
    }

    /// No parameters.
    pub fn new() -> (r: QueryParams)
        ensures
            forall|name: Seq<char>| #[trigger] r.param(name) is None,
    {
        QueryParams { pairs: Vec::new() }
    }

    /// Sets parameter `name` to `value`, replacing an earlier value.
    pub fn insert(&mut self, name: String, value: String)
        ensures
            final(self).param(name@) == Some(value@),
            forall|other: Seq<char>|
                other != name@ ==> #[trigger] final(self).param(other) == old(self).param(other),
    {
        let ghost before = self.pairs@;
        self.pairs.insert(0, (name, value));
        assert(self.pairs@.drop_first() =~= before);
    }

    /// Looks up parameter `name`.
    pub fn get(&self, name: &str) -> (r: Option<&String>)
        ensures
            match r {
                Some(v) => self.param(name@) == Some(v@),
                None => self.param(name@) is None,
            },
    {
        let k = name.to_string();
        let mut i: usize = 0;
        assert(self.pairs@.skip(0) =~= self.pairs@);
        while i < self.pairs.len()
            invariant
                i <= self.pairs.len(),
                k@ == name@,
                first_param(self.pairs@, name@) == first_param(self.pairs@.skip(i as int), name@),
            decreases self.pairs.len() - i,
        {
            let ghost rest = self.pairs@.skip(i as int);
            assert(rest[0] == self.pairs@[i as int]);
            if self.pairs[i].0 == k {
                return Some(&self.pairs[i].1);
            }
            assert(rest.drop_first() =~= self.pairs@.skip(i + 1));
            i = i + 1;
        }
        None
    }
}

/// A validated query: by a list of ids, or by a substring of the names in
/// one language.
#[derive(Debug)]
pub enum Condition {
    ByIds(Vec<u32>),
    BySubstring(Language, String),
}

/// The items whose name in `language` holds `text`.
pub open spec fn name_contains(language: Language, text: Seq<char>) -> spec_fn(ItemModel) -> bool {
    |m: ItemModel| text_contains(m.name(language), text)
}

/// The items whose id is one of `ids`.
pub open spec fn id_listed(ids: Seq<u32>) -> spec_fn(ItemModel) -> bool {
    |m: ItemModel| ids.contains(m.id)
}

impl Condition {
    /// The items that the condition asks for.
    pub open spec fn admits(self) -> spec_fn(ItemModel) -> bool {
        match self {
            Condition::ByIds(ids) => id_listed(ids@),
            Condition::BySubstring(language, text) => name_contains(language, text@),
        }
    }

    /// Whether the condition asks for `item`.
    pub fn matches(&self, item: &Item) -> (r: bool)
        ensures
            r == (self.admits())(item@),
    {
        match self {
            Condition::ByIds(ids) => {
                let mut i: usize = 0;
                while i < ids.len()
                    invariant
                        i <= ids.len(),
                        self.admits() == id_listed(ids@),
                        forall|k: int| 0 <= k < i ==> ids@[k] != item.id,
                    decreases ids.len() - i,
                {
                    if ids[i] == item.id {
                        assert(ids@[i as int] == item.id);
                        assert(ids@.contains(item.id));
                        return true;
                    }
                    i = i + 1;
                }
                false
            },
            Condition::BySubstring(language, text) => {
                let name = item.get_name(language);
                contains(name.as_str(), text.as_str())
            },
        }
    }
}

/// `e` is a bad request with message `message`.
pub open spec fn is_bad_request(e: HttpErrorType, message: Seq<char>) -> bool {
    e is BadRequest && e->BadRequest_0@ == message
}

/// The message for a language code that names no language.
pub open spec fn invalid_language_message(code: Seq<char>) -> Seq<char> {
    "language '"@ + code + "' is invalid."@
}

/// Reads the `language` and `string` parameters of a substring search.
pub fn parse_condition(query: &QueryParams) -> (r: Result<(Language, String), HttpErrorType>)
    ensures
        match query.param("language"@) {
            None => r is Err && is_bad_request(r->Err_0, "language is required."@),
            Some(code) => match language_of_code(code) {
                None => r is Err && is_bad_request(r->Err_0, invalid_language_message(code)),
                Some(language) => match query.param("string"@) {
                    None => r is Err && is_bad_request(r->Err_0, "string is required."@),
                    Some(text) => r is Ok && r->Ok_0.0 == language && r->Ok_0.1@ == text,
                },
            },
        },
{
    let language = match query.get("language") {
        None => {
            return Err(HttpErrorType::BadRequest("language is required.".to_string()));
        },
        Some(code) => match Language::from_code(code.as_str()) {
            Err(_) => {
                let message = "language '".to_string().concat(code.as_str()).concat(
                    "' is invalid.",
                );
                return Err(HttpErrorType::BadRequest(message));
            },
            Ok(language) => language,
        },
    };
    let string = match query.get("string") {
        None => {
            return Err(HttpErrorType::BadRequest("string is required.".to_string()));
        },
        Some(text) => text.clone(),
    };
    Ok((language, string))
}

/// The ids that a comma separated list writes, if every piece is an
/// unsigned 32-bit number.
pub open spec fn ids_of(text: Seq<char>) -> Option<Seq<u32>> {
    let parts = split_commas(text);
    if forall|i: int| 0 <= i < parts.len() ==> (#[trigger] u32_text(parts[i])) is Some {
        Some(parts.map_values(|p: Seq<char>| u32_text(p)->Some_0))
    } else {
        None
    }
}

/// Reads the `ids` parameter: comma separated unsigned numbers. One piece
/// that is not such a number fails the whole list.
pub fn parse_ids(query: &QueryParams) -> (r: Result<Vec<u32>, HttpErrorType>)
    ensures
        match query.param("ids"@) {
            None => r is Err && is_bad_request(r->Err_0, "ids is required."@),
            Some(text) => match ids_of(text) {
                Some(ids) => r is Ok && r->Ok_0@ == ids,
                None => r is Err && is_bad_request(
                    r->Err_0,
                    "ids must be comma separated numbers"@,
                ),
            },
        },
{
    let text = match query.get("ids") {
        None => {
            return Err(HttpErrorType::BadRequest("ids is required.".to_string()));
        },
        Some(text) => text,
    };
    let cs = chars_of(text.as_str());
    let mut result: Vec<u32> = Vec::new();
    let mut ok = true;
    let mut start: usize = 0;
    let mut i: usize = 0;
    let ghost mut done: Seq<Seq<char>> = Seq::empty();
    assert(cs@.take(0) =~= Seq::<char>::empty());
    assert(cs@.subrange(0, 0) =~= Seq::<char>::empty());
    while i < cs.len()
        invariant
            start <= i <= cs.len(),
            split_commas(cs@.take(i as int)) == done.push(cs@.subrange(start as int, i as int)),
            ok ==> result@.len() == done.len(),
            ok ==> forall|j: int| 0 <= j < done.len() ==> u32_text(done[j]) == Some(result@[j]),
            !ok ==> exists|j: int| 0 <= j < done.len() && (#[trigger] u32_text(done[j])) is None,
        decreases cs.len() - i,
    {
        let ghost prev = cs@.take(i as int);
        let ghost next = cs@.take(i + 1);
        assert(next.drop_last() =~= prev);
        assert(next.last() == cs@[i as int]);
        if cs[i] == ',' {
            let ghost part = cs@.subrange(start as int, i as int);
            let n = parse_u32_chars(&cs, start, i);
            if ok {
                match n {
                    Some(v) => {
                        result.push(v);
                    },
                    None => {
                        ok = false;
                        assert(u32_text(done.push(part)[done.len() as int]) is None);
                    },
                }
            } else {
                let ghost j = choose|j: int| 0 <= j < done.len() && (#[trigger] u32_text(done[j])) is None;
                assert(u32_text(done.push(part)[j]) is None);
            }
            proof {
                done = done.push(part);
            }
            start = i + 1;
            assert(cs@.subrange(start as int, start as int) =~= Seq::<char>::empty());
        } else {
            assert(cs@.subrange(start as int, i as int).push(cs@[i as int]) =~= cs@.subrange(
                start as int,
                i + 1,
            ));
            assert(done.push(cs@.subrange(start as int, i as int)).update(
                done.len() as int,
                cs@.subrange(start as int, i as int).push(cs@[i as int]),
            ) =~= done.push(cs@.subrange(start as int, i + 1)));
        }
        i = i + 1;
    }
    assert(cs@.take(cs@.len() as int) =~= text@);
    let ghost parts = split_commas(text@);
    let last = parse_u32_chars(&cs, start, cs.len());
    if !ok {
        let ghost j = choose|j: int| 0 <= j < done.len() && (#[trigger] u32_text(done[j])) is None;
        assert(parts[j] == done[j]);
        return Err(HttpErrorType::BadRequest("ids must be comma separated numbers".to_string()));
    }
    match last {
        None => {
            assert(parts[done.len() as int] == cs@.subrange(start as int, cs.len() as int));
            Err(HttpErrorType::BadRequest("ids must be comma separated numbers".to_string()))
        },
        Some(v) => {
            result.push(v);
            assert(forall|j: int| 0 <= j < parts.len() ==> u32_text(parts[j]) == Some(result@[j]));
            assert(result@ =~= parts.map_values(|p: Seq<char>| u32_text(p)->Some_0));
            Ok(result)
        },
    }
}

} // verus!
