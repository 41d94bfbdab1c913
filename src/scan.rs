//! Retrieval by substring through a store's paginated, filtered scan. Each
//! page comes with a continuation token while more pages remain; the scan
//! ends at the first page without one.
//!
//! The network round trips, and the token itself, are the caller's; this
//! module decodes each page and decides whether to go on.

use vstd::prelude::*;
use crate::model::{models, HttpErrorType, Item};
use crate::record::{decode_all, decode_records, reports, AttributeMap};

verus! {

/// What the caller does next.
#[derive(Debug)]
pub enum ScanAction {
    /// Scan the next page, starting after the last key of this one.
    NextPage,
    /// The last page came; these are the items of every page, in the order
    /// in which they came.
    Done(Vec<Item>),
    /// The scan failed.
    Fail(HttpErrorType),
}

/// The state of a paginated scan: the items of the pages so far.
#[derive(Debug)]
pub struct Scan {
    pub items: Vec<Item>,
}

impl Scan {
    /// A scan before its first page.
    pub fn new() -> (r: Scan)
        ensures
            r.items@.len() == 0,
    {
        Scan { items: Vec::new() }
    }

    /// Takes in one page of raw records, and whether the store said more
    /// pages remain. A record that does not decode fails the whole scan.
    pub fn on_page(&mut self, page: &Vec<AttributeMap>, has_more: bool) -> (r: ScanAction)
        ensures
            match decode_all(page@) {
                Err(f) => (r matches ScanAction::Fail(e) && reports(e, f)) && *final(self)
                    == *old(self),
                Ok(ms) => if has_more {
                    r is NextPage && models(final(self).items@) == models(old(self).items@) + ms
                } else {
                    (r matches ScanAction::Done(v) && models(v@) == models(old(self).items@) + ms)
                        && final(self).items@.len() == 0
                },
            },
    {
        let mut fresh = match decode_records(page) {
            Ok(items) => items,
            Err(e) => {
                return ScanAction::Fail(e);
            },
        };
        let ghost a = self.items@;
        let ghost b = fresh@;
        self.items.append(&mut fresh);
        assert(models(a + b) =~= models(a) + models(b));
        if has_more {
            ScanAction::NextPage
        } else {
            let mut done: Vec<Item> = Vec::new();
            core::mem::swap(&mut done, &mut self.items);
            ScanAction::Done(done)
        }
    }
}

} // verus!
