//! Queries on item records: by id, and by the time at which an item was last
//! seen.

use std::ops::Range;
use vstd::prelude::*;

use crate::item::{Item, ItemView};
use crate::table::{views, ItemTable};

verus! {

/// The queries that item records answer. Each call narrows the query: a
/// record is let through only if every call lets it through.
pub trait ItemQueries: Sized {
    /// Whether the query lets the record through.
    spec fn selects(&self, item: ItemView) -> bool;

    /// Only the record with this id.
    fn by_id(self, id: String) -> (narrowed: Self)
        ensures
            forall|item: ItemView| #[trigger]
                narrowed.selects(item) <==> self.selects(item) && item.id == id@,
    ;

    /// Only records last seen at or after `last_seen.start` and before
    /// `last_seen.end`.
    fn in_timestamp_range(self, last_seen: Range<u64>) -> (narrowed: Self)
        ensures
            forall|item: ItemView| #[trigger]
                narrowed.selects(item) <==> self.selects(item) && last_seen.start
                    <= item.last_seen < last_seen.end,
    ;
}

/// A query on an [`ItemTable`].
pub struct ItemQuery {
    id: Option<String>,
    from: u64,
    until: Option<u64>,
    nothing: bool,
}

impl ItemQuery {
    /// The query that lets every record through.
    pub fn new() -> (query: ItemQuery)
        ensures
            forall|item: ItemView| #[trigger] query.selects(item),
    {
        ItemQuery { id: None, from: 0, until: None, nothing: false }
    }

    /// The records that the query lets through, as a predicate.
    pub open spec fn selection(&self) -> spec_fn(ItemView) -> bool {
        |item: ItemView| self.selects(item)
    }

    /// Whether the query lets the record through.
    pub fn accepts(&self, item: &Item) -> (accepted: bool)
        ensures
            accepted == self.selects(item@),
    {
        if self.nothing || item.last_seen < self.from {
            return false;
        }
        let early_enough = match self.until {
            Some(end) => item.last_seen < end,
            None => true,
        };
        let wanted = match &self.id {
            Some(id) => item.id == *id,
            None => true,
        };
        early_enough && wanted
    }
}

impl ItemQueries for ItemQuery {
    closed spec fn selects(&self, item: ItemView) -> bool {
        &&& !self.nothing
        &&& self.id matches Some(id) ==> item.id == id@
        &&& self.from <= item.last_seen
        &&& self.until matches Some(end) ==> item.last_seen < end
    }

    fn by_id(self, id: String) -> (narrowed: Self) {
        let clash = match &self.id {
            Some(former) => *former != id,
            None => false,
        };
        ItemQuery {
            id: Some(id),
            from: self.from,
            until: self.until,
            nothing: self.nothing || clash,
        }
    }

    fn in_timestamp_range(self, last_seen: Range<u64>) -> (narrowed: Self) {
        let from = if last_seen.start > self.from {
            last_seen.start
        } else {
            self.from
        };
        let until = match self.until {
            Some(end) => if last_seen.end < end {
                last_seen.end
            } else {
                end
            },
            None => last_seen.end,
        };
        ItemQuery { id: self.id, from, until: Some(until), nothing: self.nothing }
    }
}

impl ItemTable {
    /// The records that the query lets through, in the table's order.
    pub fn select(&self, query: &ItemQuery) -> (found: Vec<Item>)
        ensures
            views(found@) == self.records().filter(query.selection()),
    {
        let items = self.items();
        let ghost records = self.records();
        let mut found: Vec<Item> = Vec::new();
        let mut at: usize = 0;
        assert(records.take(0) =~= Seq::<ItemView>::empty());
        assert(views(found@) =~= Seq::<ItemView>::empty());
        proof {
            reveal(Seq::filter);
        }
        while at < items.len()
            invariant
                at <= items.len(),
                records == views(items@),
                views(found@) == records.take(at as int).filter(query.selection()),
            decreases items.len() - at,
        {
            let ghost before = views(found@);
            proof {
                assert(records.take(at + 1) =~= records.take(at as int).push(records[at as int]));
                records.take(at as int).lemma_filter_push(records[at as int], query.selection());
            }
            if query.accepts(&items[at]) {
                found.push(items[at].clone());
                assert(views(found@) =~= before.push(records[at as int]));
            }
            at += 1;
        }
        assert(records.take(at as int) =~= records);
        found
    }
}

} // verus!
