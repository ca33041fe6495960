//! Which of the listed items are new, and which are back after more than a
//! day.
//!
//! Every listed item is stamped with the time of the run and written to the
//! store, over the record with its id or as a new record. It is reported
//! when the store had no record of it, or one last seen more than a day
//! before the run.

use vstd::prelude::*;
use vstd::string::StringExecFns;

use crate::item::{Item, ItemView};
use crate::table::{distinct_ids, views, ItemTable};

verus! {

/// The seconds of a day.
pub const SECONDS_PER_DAY: u64 = 86_400;

/// Whether an item is reported in a run at `now`, given the record that the
/// store holds of it: when there is none, or one last seen more than a day
/// before `now`.
pub open spec fn is_reported(stored: Option<ItemView>, now: u64) -> bool {
    match stored {
        None => true,
        Some(record) => now - record.last_seen > SECONDS_PER_DAY,
    }
}

/// How a record reaches the store.
#[derive(Debug, Clone, Copy, PartialEq, Eq, Structural)]
pub enum StoreWrite {
    /// As a new record.
    Insert,
    /// Over the record with the same id.
    Update,
}

/// A line of the report.
#[derive(Debug, PartialEq, Eq)]
pub struct Notice {
    /// Whether this is the first line of the run's report: the report's
    /// heading goes before it, and nowhere else.
    pub opens_report: bool,
    pub line: String,
}

/// The mathematical value of a [`Notice`].
pub struct NoticeView {
    pub opens_report: bool,
    pub line: Seq<char>,
}

impl View for Notice {
    type V = NoticeView;

    open spec fn view(&self) -> NoticeView {
        NoticeView { opens_report: self.opens_report, line: self.line@ }
    }
}

/// What a run does with one listed item.
#[derive(Debug, PartialEq, Eq)]
pub struct Change {
    /// The record to write: the listed item, seen at the time of the run.
    pub item: Item,
    pub write: StoreWrite,
    /// The line that reports the item, if it is reported.
    pub notice: Option<Notice>,
}

/// The mathematical value of a [`Change`].
pub struct ChangeView {
    pub item: ItemView,
    pub write: StoreWrite,
    pub notice: Option<NoticeView>,
}

impl View for Change {
    type V = ChangeView;

    open spec fn view(&self) -> ChangeView {
        ChangeView {
            item: self.item@,
            write: self.write,
            notice: match self.notice {
                Some(notice) => Some(notice@),
                None => None,
            },
        }
    }
}

/// What a run at `now` does with a listed item, given the record that the
/// store holds of it and whether the run has reported an item before.
pub open spec fn change_for(
    stored: Option<ItemView>,
    listed: ItemView,
    now: u64,
    report_open: bool,
) -> ChangeView {
    ChangeView {
        item: listed.seen_at(now),
        write: if stored is Some {
            StoreWrite::Update
        } else {
            StoreWrite::Insert
        },
        notice: if is_reported(stored, now) {
            Some(
                NoticeView {
                    opens_report: !report_open,
                    line: listed.seen_at(now).report_line(),
                },
            )
        } else {
            None
        },
    }
}

/// Decides what a run at `now` does with one listed item. `stored` is the
/// record that the store holds under the item's id, `report_open` says
/// whether the run has reported an item before.
pub fn observe(stored: Option<&Item>, listed: Item, now: u64, report_open: bool) -> (change: Change)
    ensures
        change@ == change_for(
            match stored {
                Some(record) => Some(record@),
                None => None,
            },
            listed@,
            now,
            report_open,
        ),
{
    let mut item = listed;
    item.last_seen = now;
    let (write, reported) = match stored {
        Some(record) => (
            StoreWrite::Update,
            now > record.last_seen && now - record.last_seen > SECONDS_PER_DAY,
        ),
        None => (StoreWrite::Insert, true),
    };
    let notice = if reported {
        Some(Notice { opens_report: !report_open, line: item.report_line() })
    } else {
        None
    };
    Change { item, write, notice }
}

/// Whether a run at `now` on `store` reports one of the first `count` of the
/// listed items.
pub open spec fn reported_among(
    store: Map<Seq<char>, ItemView>,
    listed: Seq<ItemView>,
    now: u64,
    count: int,
) -> bool {
    exists|j: int|
        0 <= j < count && j < listed.len() && is_reported(
            #[trigger] store.get(listed[j].id),
            now,
        )
}

/// What a run at `now` on `store` does with each of the listed items, in
/// their order.
pub open spec fn changes_of(
    store: Map<Seq<char>, ItemView>,
    listed: Seq<ItemView>,
    now: u64,
) -> Seq<ChangeView> {
    Seq::new(
        listed.len(),
        |k: int|
            change_for(
                store.get(listed[k].id),
                listed[k],
                now,
                reported_among(store, listed, now, k),
            ),
    )
}

/// The store after a run at `now` on the listed items: each of them stands
/// under its id, seen at `now`; the other records are as they were.
pub open spec fn store_after(
    store: Map<Seq<char>, ItemView>,
    listed: Seq<ItemView>,
    now: u64,
) -> Map<Seq<char>, ItemView>
    decreases listed.len(),
{
    if listed.len() == 0 {
        store
    } else {
        store_after(store, listed.drop_last(), now).insert(
            listed.last().id,
            listed.last().seen_at(now),
        )
    }
}

/// The values of a run of changes, in order.
pub open spec fn change_views(changes: Seq<Change>) -> Seq<ChangeView> {
    changes.map_values(|change: Change| change@)
}

/// One run of the check at `now`: compares the listed items with the store,
/// writes each of them to the store and says, item by item and in the
/// order of `new_values`, what was written and what is reported.
pub fn daily_new_item_check(new_values: &ItemTable, store: &mut ItemTable, now: u64) -> (changes:
    Vec<Change>)
    ensures
        changes.len() == new_values.records().len(),
        change_views(changes@) == changes_of(old(store)@, new_values.records(), now),
        final(store)@ == store_after(old(store)@, new_values.records(), now),
{
    let listed = new_values.items();
    let ghost records = new_values.records();
    let ghost before = store@;
    let mut changes: Vec<Change> = Vec::new();
    let mut report_open = false;
    let mut at: usize = 0;
    assert(records.take(0) =~= Seq::<ItemView>::empty());
    while at < listed.len()
        invariant
            at <= listed.len(),
            records == views(listed@),
            distinct_ids(records),
            store@ == store_after(before, records.take(at as int), now),
            forall|id: Seq<char>|
                (forall|j: int| 0 <= j < at ==> records[j].id != id) ==> #[trigger] store@.get(id)
                    == before.get(id),
            report_open == reported_among(before, records, now, at as int),
            changes.len() == at,
            forall|k: int|
                0 <= k < at ==> (#[trigger] changes[k])@ == changes_of(before, records, now)[k],
        decreases listed.len() - at,
    {
        let item = listed[at].clone();
        let ghost current = store@;
        assert(store@.get(item@.id) == before.get(item@.id));
        let change = observe(store.get(item.id.as_str()), item, now, report_open);
        let reported = change.notice.is_some();
        store.insert(change.item.clone());
        changes.push(change);
        proof {
            assert(records.take(at + 1).drop_last() =~= records.take(at as int));
            assert(records.take(at + 1).last() == records[at as int]);
            assert forall|id: Seq<char>|
                (forall|j: int| 0 <= j < at + 1 ==> records[j].id != id) implies #[trigger] store@
                    .get(id) == before.get(id) by {
                assert(records[at as int].id != id);
                assert(forall|j: int| 0 <= j < at ==> records[j].id != id);
                assert(current.get(id) == before.get(id));
            }
            if reported {
                assert(reported_among(before, records, now, at + 1));
            } else if reported_among(before, records, now, at + 1) {
                let j = choose|j: int|
                    0 <= j < at + 1 && j < records.len() && is_reported(
                        #[trigger] before.get(records[j].id),
                        now,
                    );
                assert(j < at);
            }
        }
        if reported {
            report_open = true;
        }
        at += 1;
    }
    assert(records.take(at as int) =~= records);
    assert(change_views(changes@) =~= changes_of(before, records, now));
    changes
}

/// The heading of a run's report. `start` is the time at which the run
/// began, as the program writes it.
pub fn report_heading(start: &str) -> (heading: String)
    ensures
        heading@ == "TFS Report for "@ + start@,
{
    String::from_str("TFS Report for ").concat(start)
}

/// The name of the file that keeps the page of a run which reported an
/// item. `start` is the time at which the run began, as the program writes
/// it.
pub fn debug_file_name(start: &str) -> (name: String)
    ensures
        name@ == start@ + ".html"@,
{
    String::from_str(start).concat(".html")
}

/// An item that the store has no record of is written as a new record,
/// the only one with its id, and reported. A later run that lists the id
/// again writes over that record and adds none.
pub proof fn lemma_first_sighting_then_update(
    store: Map<Seq<char>, ItemView>,
    first: ItemView,
    now: u64,
    second: ItemView,
    later: u64,
)
    requires
        store.dom().finite(),
        !store.contains_key(first.id),
        second.id == first.id,
    ensures
        ({
            let after = store_after(store, seq![first], now);
            let again = store_after(after, seq![second], later);
            &&& changes_of(store, seq![first], now)[0].write == StoreWrite::Insert
            &&& changes_of(store, seq![first], now)[0].notice is Some
            &&& after.dom() == store.dom().insert(first.id)
            &&& after.len() == store.len() + 1
            &&& after[first.id] == first.seen_at(now)
            &&& changes_of(after, seq![second], later)[0].write == StoreWrite::Update
            &&& again.dom() == after.dom()
            &&& again.len() == after.len()
            &&& again[first.id] == second.seen_at(later)
        }),
{
    lemma_run_on_one(store, first, now);
    let after = store_after(store, seq![first], now);
    lemma_run_on_one(after, second, later);
    let again = store_after(after, seq![second], later);
    assert(after.dom() =~= store.dom().insert(first.id));
    assert(again.dom() =~= after.dom());
}

/// A run on one listed item writes it, seen at the time of the run, under
/// its id, and leaves the other records as they were.
pub proof fn lemma_run_on_one(store: Map<Seq<char>, ItemView>, listed: ItemView, now: u64)
    ensures
        store_after(store, seq![listed], now) == store.insert(listed.id, listed.seen_at(now)),
{
    reveal_with_fuel(store_after, 2);
    assert(seq![listed].drop_last() =~= Seq::<ItemView>::empty());
}

/// An item that the store has a record of is reported exactly when the
/// record was last seen more than a day before the run. Reported or not,
/// the run writes the listed item, seen at the time of the run, over the
/// record.
pub proof fn lemma_reported_after_more_than_a_day(
    store: Map<Seq<char>, ItemView>,
    listed: ItemView,
    now: u64,
)
    requires
        store.contains_key(listed.id),
    ensures
        ({
            let change = changes_of(store, seq![listed], now)[0];
            &&& change.notice is Some <==> now - store[listed.id].last_seen > SECONDS_PER_DAY
            &&& change.write == StoreWrite::Update
            &&& change.item == listed.seen_at(now)
            &&& store_after(store, seq![listed], now)[listed.id] == listed.seen_at(now)
            &&& store_after(store, seq![listed], now).dom() == store.dom()
        }),
{
    lemma_run_on_one(store, listed, now);
    assert(store.insert(listed.id, listed.seen_at(now)).dom() =~= store.dom());
}

/// A run never sets a record's time back: where the run is not earlier
/// than the time at which a listed item was last seen, the record written
/// is not earlier either. The records of items that are not listed keep
/// their time.
pub proof fn lemma_last_seen_never_decreases(
    store: Map<Seq<char>, ItemView>,
    listed: Seq<ItemView>,
    now: u64,
    id: Seq<char>,
)
    requires
        store.contains_key(id),
        store[id].last_seen <= now,
    ensures
        store_after(store, listed, now).contains_key(id),
        store_after(store, listed, now)[id].last_seen >= store[id].last_seen,
    decreases listed.len(),
{
    if listed.len() > 0 {
        lemma_last_seen_never_decreases(store, listed.drop_last(), now, id);
    }
}

/// The heading goes before one line of a run's report and no other: the
/// line of the first item that the run reports.
pub proof fn lemma_report_opens_once(
    store: Map<Seq<char>, ItemView>,
    listed: Seq<ItemView>,
    now: u64,
    first: int,
    second: int,
)
    requires
        0 <= first < second < listed.len(),
        changes_of(store, listed, now)[second].notice matches Some(notice) && notice.opens_report,
    ensures
        changes_of(store, listed, now)[first].notice is None,
{
    if is_reported(store.get(listed[first].id), now) {
        assert(reported_among(store, listed, now, second));
    }
}

} // verus!
