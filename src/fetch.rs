//! Retrieval by ids through a store's batch get: the ids go out in chunks
//! of at most `BATCH_SIZE`, and keys that the store reports as unprocessed
//! are asked for again, with a growing wait and a bounded number of rounds,
//! before the next chunk goes out.
//!
//! The network round trips are the caller's; this module decides what to
//! ask for next from what came back.

use vstd::prelude::*;
use crate::model::{models, HttpErrorType, Item};
use crate::record::{decode_all, decode_records, key_ids, read_key_ids, reports, AttributeMap};

verus! {

/// The most ids that one batch get may name.
pub const BATCH_SIZE: usize = 100;

/// How many rounds in a row unprocessed keys are asked for again before the
/// fetch gives up.
pub const MAX_RETRY_ROUNDS: u32 = 5;

/// The wait before the first retry round; each further round waits twice as
/// long as the one before.
pub const FIRST_BACKOFF_MS: u64 = 50;

/// `ids` cut into consecutive chunks of `BATCH_SIZE`, the last one possibly
/// shorter.
pub open spec fn chunks_of(ids: Seq<u32>) -> Seq<Seq<u32>>
    decreases ids.len(),
{
    if ids.len() == 0 {
        Seq::empty()
    } else if ids.len() <= BATCH_SIZE {
        seq![ids]
    } else {
        seq![ids.take(BATCH_SIZE as int)] + chunks_of(ids.skip(BATCH_SIZE as int))
    }
}

/// The views of a list of id lists.
pub open spec fn views_of(chunks: Seq<Vec<u32>>) -> Seq<Seq<u32>> {
    chunks.map_values(|c: Vec<u32>| c@)
}

/// The wait before retry round `round`, counted from one.
pub open spec fn backoff_ms(round: nat) -> nat
    decreases round,
{
    if round <= 1 {
        FIRST_BACKOFF_MS as nat
    } else {
        2 * backoff_ms((round - 1) as nat)
    }
}

/// The chunks, in order, give back the ids; each holds one to `BATCH_SIZE`
/// ids, each but the last exactly `BATCH_SIZE`; and there are as many as
/// `BATCH_SIZE`-sized pieces are needed to hold them all.
pub proof fn chunks_cover_ids(ids: Seq<u32>)
    ensures
        chunks_of(ids).flatten() == ids,
        chunks_of(ids).len() == (ids.len() + BATCH_SIZE - 1) / (BATCH_SIZE as int),
        forall|k: int|
            0 <= k < chunks_of(ids).len() ==> 0 < (#[trigger] chunks_of(ids)[k]).len()
                <= BATCH_SIZE,
        forall|k: int|
            0 <= k < chunks_of(ids).len() - 1 ==> (#[trigger] chunks_of(ids)[k]).len()
                == BATCH_SIZE,
    decreases ids.len(),
{
    let c = chunks_of(ids);
    if ids.len() == 0 {
        assert(c.len() == 0);
        assert(c.flatten() == Seq::<u32>::empty());
        assert(c.flatten() =~= ids);
    } else if ids.len() <= BATCH_SIZE {
        assert(c.drop_first() =~= Seq::<Seq<u32>>::empty());
        assert(c.drop_first().flatten() == Seq::<u32>::empty());
        assert(c.first() == ids);
        assert(c.flatten() =~= ids);
    } else {
        let rest = ids.skip(BATCH_SIZE as int);
        chunks_cover_ids(rest);
        assert(c.drop_first() =~= chunks_of(rest));
        assert(ids.take(BATCH_SIZE as int) + rest =~= ids);
        assert forall|k: int| 0 < k < c.len() implies #[trigger] c[k] == chunks_of(rest)[k - 1] by {}
    }
}

proof fn lemma_backoff_fits(round: nat)
    requires
        round <= MAX_RETRY_ROUNDS + 1,
    ensures
        backoff_ms(round) <= 1600,
{
    reveal_with_fuel(backoff_ms, 7);
}

/// The wait before retry round `round`.
fn backoff_for(round: u32) -> (r: u64)
    requires
        1 <= round <= MAX_RETRY_ROUNDS,
    ensures
        r == backoff_ms(round as nat),
{
    let mut d: u64 = FIRST_BACKOFF_MS;
    let mut k: u32 = 1;
    while k < round
        invariant
            1 <= k <= round <= MAX_RETRY_ROUNDS,
            d == backoff_ms(k as nat),
        decreases round - k,
    {
        proof {
            lemma_backoff_fits(k as nat);
        }
        d = d * 2;
        k = k + 1;
    }
    d
}

/// Cuts `ids` into chunks of at most `BATCH_SIZE`, keeping their order.
pub fn chunk_ids(ids: &Vec<u32>) -> (r: Vec<Vec<u32>>)
    ensures
        views_of(r@) == chunks_of(ids@),
{
    let mut r: Vec<Vec<u32>> = Vec::new();
    let mut start: usize = 0;
    assert(ids@.skip(0) =~= ids@);
    assert(views_of(r@) =~= Seq::<Seq<u32>>::empty());
    while start < ids.len()
        invariant
            start <= ids.len(),
            chunks_of(ids@) == views_of(r@) + chunks_of(ids@.skip(start as int)),
        decreases ids.len() - start,
    {
        let rest = ids.len() - start;
        let end: usize = if rest <= BATCH_SIZE {
            ids.len()
        } else {
            start + BATCH_SIZE
        };
        let mut chunk: Vec<u32> = Vec::new();
        let mut k: usize = start;
        while k < end
            invariant
                start <= k <= end <= ids.len(),
                chunk@ == ids@.subrange(start as int, k as int),
            decreases end - k,
        {
            chunk.push(ids[k]);
            k = k + 1;
            assert(chunk@ =~= ids@.subrange(start as int, k as int));
        }
        let ghost tail = ids@.skip(start as int);
        if rest <= BATCH_SIZE {
            assert(chunk@ =~= tail);
            assert(ids@.skip(end as int) =~= Seq::<u32>::empty());
        } else {
            assert(chunk@ =~= tail.take(BATCH_SIZE as int));
            assert(tail.skip(BATCH_SIZE as int) =~= ids@.skip(end as int));
        }
        assert(views_of(r@.push(chunk)) =~= views_of(r@).push(chunk@));
        r.push(chunk);
        start = end;
    }
    assert(chunks_of(ids@.skip(start as int)) =~= Seq::<Seq<u32>>::empty());
    assert(views_of(r@) + Seq::<Seq<u32>>::empty() =~= views_of(r@));
    r
}

/// What the caller does next.
#[derive(Debug)]
pub enum FetchAction {
    /// Batch-get these ids, after waiting `delay_ms` milliseconds.
    Get { ids: Vec<u32>, delay_ms: u64 },
    /// Every id was asked for and serviced; these are the items that came.
    Done(Vec<Item>),
    /// The fetch failed.
    Fail(HttpErrorType),
}

/// The state of a chunked batch fetch.
#[derive(Debug)]
pub struct BatchFetch {
    /// The ids, cut into chunks.
    pub chunks: Vec<Vec<u32>>,
    /// How many chunks have been sent.
    pub next_chunk: usize,
    /// How many retry rounds the current chunk has had.
    pub retry_round: u32,
    /// The items that came so far, in the order in which they came.
    pub items: Vec<Item>,
}

/// The message of a fetch that gave up on unprocessed keys.
pub open spec fn gave_up_message() -> Seq<char> {
    "unprocessed keys remain after the last retry round"@
}

/// What a fetch's state is, as plain values.
pub struct FetchView {
    pub chunks: Seq<Seq<u32>>,
    pub next_chunk: nat,
    pub retry_round: nat,
}

/// What a fetch asks the caller to do, as plain values.
pub enum Request {
    /// Batch-get these ids after this wait, in milliseconds.
    Get(Seq<u32>, nat),
    /// The fetch is done.
    Finished,
    /// The fetch failed.
    Failed,
}

impl View for BatchFetch {
    type V = FetchView;

    open spec fn view(&self) -> FetchView {
        FetchView {
            chunks: views_of(self.chunks@),
            next_chunk: self.next_chunk as nat,
            retry_round: self.retry_round as nat,
        }
    }
}

/// The request that an action stands for.
pub open spec fn request_of(a: FetchAction) -> Request {
    match a {
        FetchAction::Get { ids, delay_ms } => Request::Get(ids@, delay_ms as nat),
        FetchAction::Done(_) => Request::Finished,
        FetchAction::Fail(_) => Request::Failed,
    }
}

/// The next state and request of a fetch in state `v` whose last batch get
/// came back with its records decoded and the ids `unprocessed` left over.
pub open spec fn next_step(v: FetchView, unprocessed: Seq<u32>) -> (FetchView, Request) {
    if unprocessed.len() > 0 {
        if v.retry_round < MAX_RETRY_ROUNDS {
            (
                FetchView { retry_round: v.retry_round + 1, ..v },
                Request::Get(unprocessed, backoff_ms(v.retry_round + 1)),
            )
        } else {
            (v, Request::Failed)
        }
    } else if v.next_chunk < v.chunks.len() {
        (
            FetchView { next_chunk: v.next_chunk + 1, retry_round: 0, ..v },
            Request::Get(v.chunks[v.next_chunk as int], 0),
        )
    } else {
        (v, Request::Finished)
    }
}

/// The state after `k` responses in a row that leave nothing unprocessed.
pub open spec fn after_clean_responses(v: FetchView, k: nat) -> FetchView
    decreases k,
{
    if k == 0 {
        v
    } else {
        next_step(after_clean_responses(v, (k - 1) as nat), Seq::empty()).0
    }
}

/// While no key is left unprocessed, each response brings the request for
/// the next chunk, in order, and the response to the last chunk ends the
/// fetch.
pub proof fn clean_responses_send_chunks_in_order(v: FetchView, k: nat)
    requires
        v.next_chunk + k <= v.chunks.len(),
    ensures
        after_clean_responses(v, k).chunks == v.chunks,
        after_clean_responses(v, k).next_chunk == v.next_chunk + k,
        next_step(after_clean_responses(v, k), Seq::empty()).1 == (if v.next_chunk + k
            < v.chunks.len() {
            Request::Get(v.chunks[(v.next_chunk + k) as int], 0)
        } else {
            Request::Finished
        }),
    decreases k,
{
    if k > 0 {
        clean_responses_send_chunks_in_order(v, (k - 1) as nat);
    }
}

/// Keys left unprocessed, while retry rounds remain, bring exactly one
/// request for those keys; the next chunk goes out only with the response
/// after it that leaves none.
pub proof fn unprocessed_keys_retried_before_next_chunk(v: FetchView, keys: Seq<u32>)
    requires
        keys.len() > 0,
        v.retry_round < MAX_RETRY_ROUNDS,
    ensures
        next_step(v, keys).1 == Request::Get(keys, backoff_ms(v.retry_round + 1)),
        next_step(v, keys).0.chunks == v.chunks,
        next_step(v, keys).0.next_chunk == v.next_chunk,
        next_step(next_step(v, keys).0, Seq::empty()).1 == (if v.next_chunk < v.chunks.len() {
            Request::Get(v.chunks[v.next_chunk as int], 0)
        } else {
            Request::Finished
        }),
{
}

impl BatchFetch {
    pub open spec fn wf(&self) -> bool {
        self.next_chunk <= self.chunks.len() && self.retry_round <= MAX_RETRY_ROUNDS
    }

    /// Starts a fetch of `ids`: the first chunk goes out at once.
    pub fn start(ids: &Vec<u32>) -> (r: (BatchFetch, FetchAction))
        ensures
            r.0.wf(),
            views_of(r.0.chunks@) == chunks_of(ids@),
            r.0.retry_round == 0,
            r.0.items@.len() == 0,
            ids@.len() == 0 ==> r.0.next_chunk == 0 && (r.1 matches FetchAction::Done(v)
                && v@.len() == 0),
            ids@.len() > 0 ==> r.0.next_chunk == 1 && (r.1 matches FetchAction::Get {
                ids: first,
                delay_ms,
            } && first@ == chunks_of(ids@)[0] && delay_ms == 0),
            ids@.len() > 0 ==> r.0@ == (FetchView {
                chunks: chunks_of(ids@),
                next_chunk: 1,
                retry_round: 0,
            }) && request_of(r.1) == Request::Get(chunks_of(ids@)[0], 0),
    {
        let chunks = chunk_ids(ids);
        assert(views_of(chunks@).len() == chunks@.len());
        assert(ids@.len() > 0 ==> chunks_of(ids@).len() > 0);
        if chunks.len() == 0 {
            let fetch = BatchFetch { chunks, next_chunk: 0, retry_round: 0, items: Vec::new() };
            (fetch, FetchAction::Done(Vec::new()))
        } else {
            let first = chunks[0].clone();
            assert(first@ =~= chunks@[0]@);
            assert(views_of(chunks@)[0] == chunks@[0]@);
            let fetch = BatchFetch { chunks, next_chunk: 1, retry_round: 0, items: Vec::new() };
            (fetch, FetchAction::Get { ids: first, delay_ms: 0 })
        }
    }

    /// Takes in the store's answer to the last batch get: the raw records it
    /// returned and the keys it left unprocessed. Records that do not decode
    /// fail the fetch. Unprocessed keys are asked for again, after the wait
    /// of the next retry round, unless the rounds are used up; otherwise the
    /// next chunk goes out, and after the last one the fetch is done.
    pub fn on_response(&mut self, records: &Vec<AttributeMap>, unprocessed: &Vec<AttributeMap>) -> (r:
        FetchAction)
        requires
            old(self).wf(),
        ensures
            final(self).wf(),
            final(self).chunks == old(self).chunks,
            decode_all(records@) is Ok && key_ids(unprocessed@) is Ok ==> (
            final(self)@,
            request_of(r),
            ) == next_step(old(self)@, key_ids(unprocessed@)->Ok_0),
            match decode_all(records@) {
                Err(f) => r matches FetchAction::Fail(e) && reports(e, f) && *final(self)
                    == *old(self),
                Ok(ms) => if unprocessed@.len() > 0 {
                    match key_ids(unprocessed@) {
                        Err(f) => r matches FetchAction::Fail(e) && reports(e, f) && *final(self)
                            == *old(self),
                        Ok(keys) => if old(self).retry_round < MAX_RETRY_ROUNDS {
                            &&& r matches FetchAction::Get { ids, delay_ms } && ids@ == keys
                                && delay_ms == backoff_ms((old(self).retry_round + 1) as nat)
                            &&& final(self).retry_round == old(self).retry_round + 1
                            &&& final(self).next_chunk == old(self).next_chunk
                            &&& models(final(self).items@) == models(old(self).items@) + ms
                        } else {
                            &&& r matches FetchAction::Fail(e) && e is InternalServerError
                                && e->InternalServerError_0@ == gave_up_message()
                            &&& *final(self) == *old(self)
                        },
                    }
                } else if old(self).next_chunk < old(self).chunks.len() {
                    &&& r matches FetchAction::Get { ids, delay_ms } && ids@
                        == old(self).chunks@[old(self).next_chunk as int]@ && delay_ms == 0
                    &&& final(self).retry_round == 0
                    &&& final(self).next_chunk == old(self).next_chunk + 1
                    &&& models(final(self).items@) == models(old(self).items@) + ms
                } else {
                    &&& r matches FetchAction::Done(v) && models(v@) == models(old(self).items@)
                        + ms
                    &&& final(self).items@.len() == 0
                    &&& final(self).next_chunk == old(self).next_chunk
                    &&& final(self).retry_round == old(self).retry_round
                },
            },
    {
        let mut fresh = match decode_records(records) {
            Ok(items) => items,
            Err(e) => {
                return FetchAction::Fail(e);
            },
        };
        let ghost before = models(self.items@);
        if unprocessed.len() > 0 {
            let keys = match read_key_ids(unprocessed) {
                Ok(keys) => keys,
                Err(e) => {
                    return FetchAction::Fail(e);
                },
            };
            if self.retry_round >= MAX_RETRY_ROUNDS {
                return FetchAction::Fail(
                    HttpErrorType::InternalServerError(
                        "unprocessed keys remain after the last retry round".to_string(),
                    ),
                );
            }
            self.retry_round = self.retry_round + 1;
            let delay_ms = backoff_for(self.retry_round);
            self.append_items(&mut fresh);
            return FetchAction::Get { ids: keys, delay_ms };
        }
        self.append_items(&mut fresh);
        if self.next_chunk < self.chunks.len() {
            let ids = self.chunks[self.next_chunk].clone();
            assert(ids@ =~= self.chunks@[self.next_chunk as int]@);
            self.next_chunk = self.next_chunk + 1;
            self.retry_round = 0;
            FetchAction::Get { ids, delay_ms: 0 }
        } else {
            let mut done: Vec<Item> = Vec::new();
            core::mem::swap(&mut done, &mut self.items);
            FetchAction::Done(done)
        }
    }

    /// Moves `fresh` to the end of the items that came so far.
    fn append_items(&mut self, fresh: &mut Vec<Item>)
        ensures
            models(final(self).items@) == models(old(self).items@) + models(old(fresh)@),
            final(self).chunks == old(self).chunks,
            final(self).next_chunk == old(self).next_chunk,
            final(self).retry_round == old(self).retry_round,
    {
        let ghost a = self.items@;
        let ghost b = fresh@;
        self.items.append(fresh);
        assert(models(a + b) =~= models(a) + models(b));
    }
}

} // verus!
