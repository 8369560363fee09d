//! What the upload of a directory with version 2 of the upload API leaves behind, on the client
//! and on the server.
//!
//! The client asks for one batch of files after the other. Meanwhile, files are uploaded, in any
//! order and at any time after the server has asked for them.

use crate::error::ErrorView;
use crate::fake_tecken::storage::StorageView;
use crate::fake_tecken::v2::{
    answered, are_read_as, law_every_file_is_answered, law_jobs_agree_with_storage, reads_as,
    spec_keys,
};
use crate::keys::with_key;
use crate::summary::{
    accounted, lemma_accounted_merged, lemma_accounted_push, lemma_concat_contains,
    lemma_concat_distinct, lemma_contains_count, lemma_no_keys, lemma_push_contains, SummaryView,
};
use crate::v2::{
    batches_of, before_response, dealt_with, is_consistent, job_keys,
    law_batches_hold_all_files, law_every_answer_is_processed, processed, response_keys, specs_of,
    summarized, BatchView, Item, ResponseView,
};
use vstd::multiset::Multiset;
use vstd::prelude::*;

verus! {

/// What happens during an upload.
pub enum Event {
    /// The client asks for a batch, and reads the answers of the server as the given responses.
    Answer { batch: BatchView, list: Seq<ResponseView> },
    /// The server has received the last chunk of the upload with the given number, and the client
    /// has received the reply.
    Finish { id: u32 },
    /// The upload of a file fails before the server has received its last chunk.
    Fail { key: Seq<char>, error: ErrorView },
}

/// What the server has stored, the keys of the files whose upload has not ended, and what the
/// client has recorded about its requests and about its uploads.
pub struct Exchange {
    pub storage: StorageView,
    pub open: Multiset<Seq<char>>,
    pub requests: SummaryView,
    pub uploads: SummaryView,
}

impl Exchange {
    /// Before the first request.
    pub open spec fn start(storage: StorageView) -> Exchange {
        Exchange {
            storage,
            open: Multiset::empty(),
            requests: SummaryView::empty(),
            uploads: SummaryView::empty(),
        }
    }

    /// Whether an event can happen now. Only an upload that has started can end.
    pub open spec fn expects(self, host: Seq<char>, event: Event) -> bool {
        match event {
            Event::Answer { batch, list } => {
                &&& is_consistent(batch)
                &&& are_read_as(self.storage, host, batch, list)
            },
            Event::Finish { id } => {
                &&& self.storage.pending.contains_key(id)
                &&& self.open.count(self.storage.pending[id]) > 0
            },
            Event::Fail { key, .. } => self.open.count(key) > 0,
        }
    }

    /// The state after an event.
    pub open spec fn after(self, host: Seq<char>, event: Event) -> Exchange {
        match event {
            Event::Answer { batch, list } => {
                let end = processed(before_response(batch, self.requests), list);
                Exchange {
                    storage: answered(self.storage, host, batch.file_specs).storage.with_upload(),
                    open: self.open.add(job_keys(end.jobs).to_multiset()),
                    requests: end.summary,
                    ..self
                }
            },
            Event::Finish { id } => {
                let key = self.storage.pending[id];
                Exchange {
                    storage: self.storage.completed(id),
                    open: self.open.remove(key),
                    uploads: self.uploads.with_upload(key, Ok(())),
                    ..self
                }
            },
            Event::Fail { key, error } => Exchange {
                open: self.open.remove(key),
                uploads: self.uploads.with_upload(key, Err(error)),
                ..self
            },
        }
    }

    /// The summary that the client makes in the end, if discovery met no errors and the temporary
    /// directory could be removed.
    pub open spec fn summary(self) -> SummaryView {
        summarized(self.uploads, Seq::empty(), self.requests, Ok(()))
    }
}

/// The state after a sequence of events, or `None` if one of them could not happen.
pub open spec fn run(start: Exchange, host: Seq<char>, events: Seq<Event>) -> Option<Exchange>
    decreases events.len(),
{
    if events.len() == 0 {
        Some(start)
    } else {
        match run(start, host, events.drop_last()) {
            Some(exchange) => if exchange.expects(host, events.last()) {
                Some(exchange.after(host, events.last()))
            } else {
                None
            },
            None => None,
        }
    }
}

/// The batches that the client asks for.
pub open spec fn batches(events: Seq<Event>) -> Seq<BatchView>
    decreases events.len(),
{
    if events.len() == 0 {
        Seq::empty()
    } else {
        match events.last() {
            Event::Answer { batch, .. } => batches(events.drop_last()).push(batch),
            _ => batches(events.drop_last()),
        }
    }
}

/// The keys of all files that the client asks for.
pub open spec fn asked(events: Seq<Event>) -> Seq<Seq<char>> {
    spec_keys(specs_of(batches(events)))
}

/// Whether an upload fails.
pub open spec fn has_failure(events: Seq<Event>) -> bool {
    exists|i: int| 0 <= i < events.len() && (#[trigger] events[i]) is Fail
}

/// Everything that is accounted for, or whose upload has not ended.
pub open spec fn balance(exchange: Exchange) -> Multiset<Seq<char>> {
    accounted(exchange.uploads.merged(exchange.requests)).add(exchange.open)
}

proof fn lemma_asked_batch(events: Seq<Event>, batch: BatchView)
    requires
        events.len() > 0,
        batches(events) == batches(events.drop_last()).push(batch),
    ensures
        asked(events) == asked(events.drop_last()) + spec_keys(batch.file_specs),
{
    let before = batches(events.drop_last());
    assert(before.push(batch).drop_last() =~= before);
    assert(asked(events) =~= asked(events.drop_last()) + spec_keys(batch.file_specs));
}

/// The keys of the responses are those of the files that were asked for.
proof fn lemma_response_keys(
    storage: StorageView,
    host: Seq<char>,
    batch: BatchView,
    list: Seq<ResponseView>,
)
    requires
        are_read_as(storage, host, batch, list),
    ensures
        response_keys(list) == spec_keys(batch.file_specs),
{
    let files = answered(storage, host, batch.file_specs).files;
    let specs = batch.file_specs;
    if specs.len() > 0 {
        law_every_file_is_answered(storage, host, specs, 0);
    }
    assert forall|i: int| 0 <= i < list.len() implies response_keys(list)[i] == spec_keys(specs)[i] by {
        law_every_file_is_answered(storage, host, specs, i);
        assert(reads_as(files[i], list[i]));
    }
    assert(response_keys(list) =~= spec_keys(specs));
}

proof fn lemma_balance(exchange: Exchange, host: Seq<char>, event: Event)
    requires
        exchange.expects(host, event),
    ensures
        balance(exchange.after(host, event)) == (match event {
            Event::Answer { list, .. } => balance(exchange).add(response_keys(list).to_multiset()),
            _ => balance(exchange),
        }),
{
    let end = exchange.after(host, event);
    lemma_accounted_merged(exchange.uploads, exchange.requests);
    lemma_accounted_merged(end.uploads, end.requests);
    match event {
        Event::Answer { batch, list } => {
            let progress = processed(before_response(batch, exchange.requests), list);
            law_every_answer_is_processed(batch, exchange.requests, list);
            assert(dealt_with(progress) == accounted(end.requests).add(
                job_keys(progress.jobs).to_multiset(),
            ));
            assert(balance(end) =~= accounted(end.uploads).add(dealt_with(progress)).add(
                exchange.open,
            ));
            assert(balance(end) =~= balance(exchange).add(response_keys(list).to_multiset()));
        },
        Event::Finish { id } => {
            let key = exchange.storage.pending[id];
            lemma_accounted_push(exchange.uploads, key, Ok(()));
            assert(balance(end) =~= balance(exchange));
        },
        Event::Fail { key, error } => {
            lemma_accounted_push(exchange.uploads, key, Err(error));
            assert(balance(end) =~= balance(exchange));
        },
    }
}

/// Over any number of batches, what the summaries account for in the end, together with the files
/// whose upload has not ended, is what they accounted for at the start and the files that were
/// asked for, each once.
pub proof fn law_every_file_is_accounted_for(
    start: Exchange,
    host: Seq<char>,
    events: Seq<Event>,
)
    requires
        run(start, host, events) is Some,
    ensures
        balance(run(start, host, events)->0) == balance(start).add(asked(events).to_multiset()),
    decreases events.len(),
{
    if events.len() == 0 {
        lemma_no_keys(asked(events));
        assert(balance(start) =~= balance(start).add(asked(events).to_multiset()));
    } else {
        let shorter = events.drop_last();
        let before = run(start, host, shorter)->0;
        law_every_file_is_accounted_for(start, host, shorter);
        lemma_balance(before, host, events.last());
        if let Event::Answer { batch, list } = events.last() {
            lemma_asked_batch(events, batch);
            lemma_response_keys(before.storage, host, batch, list);
            vstd::seq_lib::lemma_multiset_commutative(
                asked(shorter),
                spec_keys(batch.file_specs),
            );
            assert(balance(start).add(asked(shorter).to_multiset()).add(
                spec_keys(batch.file_specs).to_multiset(),
            ) =~= balance(start).add(asked(events).to_multiset()));
        }
    }
}

proof fn lemma_completed(storage: StorageView, id: u32, key: Seq<char>)
    requires
        storage.pending.contains_key(id),
    ensures
        storage.completed(id).uploaded.contains(key) <==> storage.uploaded.contains(key) || key
            == storage.pending[id],
{
    lemma_push_contains(storage.uploaded, storage.pending[id], key);
    assert(storage.completed(id).uploaded == with_key(storage.uploaded, storage.pending[id]));
}

/// Answering stores nothing.
proof fn lemma_answering(
    storage: StorageView,
    host: Seq<char>,
    batch: BatchView,
)
    ensures
        answered(storage, host, batch.file_specs).storage.uploaded == storage.uploaded,
{
    if batch.file_specs.len() > 0 {
        law_every_file_is_answered(storage, host, batch.file_specs, 0);
    }
}

/// What is stored in the end is what was stored before and what the client records as uploaded.
pub proof fn law_storage_grows_by_what_is_uploaded(
    storage: StorageView,
    host: Seq<char>,
    events: Seq<Event>,
    key: Seq<char>,
)
    requires
        run(Exchange::start(storage), host, events) is Some,
    ensures
        ({
            let end = run(Exchange::start(storage), host, events)->0;
            end.storage.uploaded.contains(key) <==> storage.uploaded.contains(key)
                || end.uploads.uploaded.contains(key)
        }),
    decreases events.len(),
{
    if events.len() > 0 {
        let before = run(Exchange::start(storage), host, events.drop_last())->0;
        law_storage_grows_by_what_is_uploaded(storage, host, events.drop_last(), key);
        match events.last() {
            Event::Answer { batch, .. } => {
                lemma_answering(before.storage, host, batch);
            },
            Event::Finish { id } => {
                lemma_completed(before.storage, id, key);
                lemma_push_contains(before.uploads.uploaded, before.storage.pending[id], key);
            },
            Event::Fail { .. } => {},
        }
    }
}

/// Whether the state agrees, about one key, with what was stored before and what was asked for.
pub open spec fn agrees_on(
    exchange: Exchange,
    before: Seq<Seq<char>>,
    keys: Seq<Seq<char>>,
    key: Seq<char>,
) -> bool {
    let uploaded = exchange.uploads.uploaded.contains(key);
    &&& exchange.requests.skipped.contains(key) <==> keys.contains(key) && before.contains(key)
    &&& uploaded || exchange.open.count(key) > 0 <==> keys.contains(key) && !before.contains(key)
    &&& exchange.storage.uploaded.contains(key) <==> before.contains(key) || uploaded
}

/// Whether the state agrees with what was stored before and what was asked for, while nothing has
/// failed.
pub open spec fn agrees(exchange: Exchange, before: Seq<Seq<char>>, keys: Seq<Seq<char>>) -> bool {
    &&& exchange.requests == (SummaryView {
        skipped: exchange.requests.skipped,
        ..SummaryView::empty()
    })
    &&& exchange.uploads == (SummaryView {
        uploaded: exchange.uploads.uploaded,
        ..SummaryView::empty()
    })
    &&& forall|key: Seq<char>| #[trigger] agrees_on(exchange, before, keys, key)
}

proof fn lemma_answer_agrees(
    exchange: Exchange,
    host: Seq<char>,
    batch: BatchView,
    list: Seq<ResponseView>,
    before: Seq<Seq<char>>,
    keys: Seq<Seq<char>>,
)
    requires
        agrees(exchange, before, keys),
        exchange.expects(host, (Event::Answer { batch, list })),
        (keys + spec_keys(batch.file_specs)).no_duplicates(),
    ensures
        agrees(
            exchange.after(host, (Event::Answer { batch, list })),
            before,
            keys + spec_keys(batch.file_specs),
        ),
{
    let new = spec_keys(batch.file_specs);
    let progress = processed(before_response(batch, exchange.requests), list);
    let end = exchange.after(host, Event::Answer { batch, list });
    lemma_concat_distinct(keys, new);
    lemma_answering(exchange.storage, host, batch);
    assert forall|key: Seq<char>| #[trigger] agrees_on(end, before, keys + new, key) by {
        law_jobs_agree_with_storage(
            exchange.storage,
            host,
            batch,
            exchange.requests,
            list,
            key,
        );
        lemma_concat_contains(keys, new, key);
        lemma_contains_count(job_keys(progress.jobs), key);
        assert(!(keys.contains(key) && new.contains(key)));
        assert(agrees_on(exchange, before, keys, key));
    }
    law_jobs_agree_with_storage(
        exchange.storage,
        host,
        batch,
        exchange.requests,
        list,
        Seq::empty(),
    );
}

proof fn lemma_finish_agrees(
    exchange: Exchange,
    host: Seq<char>,
    id: u32,
    before: Seq<Seq<char>>,
    keys: Seq<Seq<char>>,
)
    requires
        agrees(exchange, before, keys),
        exchange.expects(host, (Event::Finish { id })),
    ensures
        agrees(exchange.after(host, (Event::Finish { id })), before, keys),
{
    let end = exchange.after(host, Event::Finish { id });
    let done = exchange.storage.pending[id];
    assert forall|key: Seq<char>| #[trigger] agrees_on(end, before, keys, key) by {
        lemma_push_contains(exchange.uploads.uploaded, done, key);
        lemma_completed(exchange.storage, id, key);
        assert(agrees_on(exchange, before, keys, key));
        assert(agrees_on(exchange, before, keys, done));
    }
}

proof fn lemma_run_agrees(storage: StorageView, host: Seq<char>, events: Seq<Event>)
    requires
        run(Exchange::start(storage), host, events) is Some,
        asked(events).no_duplicates(),
        !has_failure(events),
    ensures
        agrees(run(Exchange::start(storage), host, events)->0, storage.uploaded, asked(events)),
    decreases events.len(),
{
    if events.len() == 0 {
        assert forall|key: Seq<char>| #[trigger]
            agrees_on(Exchange::start(storage), storage.uploaded, asked(events), key) by {}
    } else {
        let shorter = events.drop_last();
        let before = run(Exchange::start(storage), host, shorter)->0;
        assert(!has_failure(shorter)) by {
            if has_failure(shorter) {
                let i = choose|i: int| 0 <= i < shorter.len() && (#[trigger] shorter[i]) is Fail;
                assert(events[i] is Fail);
            }
        }
        match events.last() {
            Event::Answer { batch, list } => {
                lemma_asked_batch(events, batch);
                lemma_concat_distinct(asked(shorter), spec_keys(batch.file_specs));
                lemma_run_agrees(storage, host, shorter);
                lemma_answer_agrees(
                    before,
                    host,
                    batch,
                    list,
                    storage.uploaded,
                    asked(shorter),
                );
            },
            Event::Finish { id } => {
                lemma_run_agrees(storage, host, shorter);
                lemma_finish_agrees(before, host, id, storage.uploaded, asked(shorter));
            },
            Event::Fail { .. } => {
                assert(events[events.len() - 1] is Fail);
            },
        }
    }
}

/// Whether an upload runs to its end: every upload of a file ends, and none fails.
pub open spec fn completes(start: Exchange, host: Seq<char>, events: Seq<Event>) -> bool {
    &&& run(start, host, events) matches Some(end) && end.open.len() == 0
    &&& !has_failure(events)
}

/// The summary of a client that uploads a directory agrees with the storage of the server: what it
/// records as uploaded is what was new, what it records as skipped is what was stored before, and
/// the storage holds what it held and what was uploaded.
pub proof fn law_exchange_agrees_with_storage(
    storage: StorageView,
    host: Seq<char>,
    events: Seq<Event>,
    key: Seq<char>,
)
    requires
        asked(events).no_duplicates(),
        completes(Exchange::start(storage), host, events),
    ensures
        ({
            let end = run(Exchange::start(storage), host, events)->0;
            let summary = end.summary();
            &&& summary.uploaded.contains(key) <==> asked(events).contains(key)
                && !storage.uploaded.contains(key)
            &&& summary.skipped.contains(key) <==> asked(events).contains(key)
                && storage.uploaded.contains(key)
            &&& end.storage.uploaded.contains(key) <==> storage.uploaded.contains(key)
                || summary.uploaded.contains(key)
            &&& summary.failed.len() == 0
            &&& summary.success()
        }),
{
    let end = run(Exchange::start(storage), host, events)->0;
    lemma_run_agrees(storage, host, events);
    assert(end.summary().uploaded =~= end.uploads.uploaded);
    assert(end.summary().skipped =~= end.requests.skipped);
    assert(end.open =~= Multiset::empty());
    assert(agrees_on(end, storage.uploaded, asked(events), key));
}

/// Two uploads to a server that knew no files, the second of a directory that holds all files of
/// the first, however either is split into batches. What the second upload skips is what the
/// first one uploaded, they upload different files, and together they upload what is stored in
/// the end. Nothing fails.
pub proof fn law_second_exchange(
    storage: StorageView,
    host: Seq<char>,
    events1: Seq<Event>,
    events2: Seq<Event>,
    key: Seq<char>,
)
    requires
        storage.uploaded.len() == 0,
        asked(events1).no_duplicates(),
        asked(events2).no_duplicates(),
        forall|k: Seq<char>| #[trigger] asked(events1).contains(k) ==> asked(events2).contains(k),
        completes(Exchange::start(storage), host, events1),
        completes(
            Exchange::start(run(Exchange::start(storage), host, events1)->0.storage),
            host,
            events2,
        ),
    ensures
        ({
            let end1 = run(Exchange::start(storage), host, events1)->0;
            let end2 = run(Exchange::start(end1.storage), host, events2)->0;
            let summary1 = end1.summary();
            let summary2 = end2.summary();
            &&& summary1.uploaded.contains(key) <==> end1.storage.uploaded.contains(key)
            &&& summary1.skipped.len() == 0
            &&& summary2.skipped.contains(key) <==> summary1.uploaded.contains(key)
            &&& !(summary1.uploaded.contains(key) && summary2.uploaded.contains(key))
            &&& end2.storage.uploaded.contains(key) <==> summary1.uploaded.contains(key)
                || summary2.uploaded.contains(key)
            &&& summary1.failed.len() == 0 && summary1.success()
            &&& summary2.failed.len() == 0 && summary2.success()
        }),
{
    let end1 = run(Exchange::start(storage), host, events1)->0;
    let skipped = end1.summary().skipped;
    law_exchange_agrees_with_storage(storage, host, events1, key);
    law_exchange_agrees_with_storage(end1.storage, host, events2, key);
    assert(!storage.uploaded.contains(key));
    if skipped.len() > 0 {
        law_exchange_agrees_with_storage(storage, host, events1, skipped[0]);
        assert(skipped.contains(skipped[0]));
    }
}

/// A client that asks for the batches that it makes of files asks for all files, in their order.
pub proof fn law_all_files_are_asked_for(events: Seq<Event>, batch_size: nat, items: Seq<Item>)
    requires
        batches(events) == batches_of(batch_size, items),
    ensures
        asked(events) == items.map_values(|i: Item| i.1.key),
{
    law_batches_hold_all_files(batch_size, items);
    assert(asked(events) =~= items.map_values(|i: Item| i.1.key));
}

} // verus!
