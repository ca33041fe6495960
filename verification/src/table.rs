//! Item records keyed by product id.

use vstd::prelude::*;
use vstd::string::StringExecFns;

use crate::item::{Item, ItemView};

verus! {

/// The values of a run of items, in order.
pub open spec fn views(items: Seq<Item>) -> Seq<ItemView> {
    items.map_values(|item: Item| item@)
}

/// Whether no two of the records share an id.
pub open spec fn distinct_ids(records: Seq<ItemView>) -> bool {
    forall|i: int, j: int| 0 <= i < j < records.len() ==> records[i].id != records[j].id
}

/// Whether one of the records has the id.
pub open spec fn holds_id(records: Seq<ItemView>, id: Seq<char>) -> bool {
    exists|i: int| 0 <= i < records.len() && #[trigger] records[i].id == id
}

/// The records by their ids.
pub open spec fn keyed(records: Seq<ItemView>) -> Map<Seq<char>, ItemView> {
    Map::new(
        |id: Seq<char>| holds_id(records, id),
        |id: Seq<char>|
            records[choose|i: int| 0 <= i < records.len() && #[trigger] records[i].id == id],
    )
}

/// Among records with distinct ids, each is found under its id.
pub proof fn lemma_keyed_holds(records: Seq<ItemView>, i: int)
    requires
        distinct_ids(records),
        0 <= i < records.len(),
    ensures
        keyed(records).contains_key(records[i].id),
        keyed(records)[records[i].id] == records[i],
{
    let id = records[i].id;
    assert(holds_id(records, id));
    let chosen = choose|k: int| 0 <= k < records.len() && #[trigger] records[k].id == id;
    assert(chosen == i);
}

/// Adding a record with a new id adds it under that id.
proof fn lemma_keyed_push(records: Seq<ItemView>, item: ItemView)
    requires
        distinct_ids(records),
        !holds_id(records, item.id),
    ensures
        distinct_ids(records.push(item)),
        keyed(records.push(item)) == keyed(records).insert(item.id, item),
{
    let longer = records.push(item);
    assert(distinct_ids(longer)) by {
        assert forall|i: int, j: int| 0 <= i < j < longer.len() implies longer[i].id
            != longer[j].id by {
            if j == records.len() {
                assert(records[i].id != item.id);
            }
        }
    }
    assert forall|id: Seq<char>|
        holds_id(longer, id) <==> (id == item.id || holds_id(records, id)) by {
        if holds_id(longer, id) {
            let k = choose|k: int| 0 <= k < longer.len() && #[trigger] longer[k].id == id;
            if k < records.len() {
                assert(records[k].id == id);
            }
        }
        if id == item.id {
            assert(longer[records.len() as int].id == id);
        }
        if holds_id(records, id) {
            let k = choose|k: int| 0 <= k < records.len() && #[trigger] records[k].id == id;
            assert(longer[k].id == id);
        }
    }
    assert forall|id: Seq<char>| holds_id(longer, id) implies #[trigger] keyed(longer)[id] == keyed(
        records,
    ).insert(item.id, item)[id] by {
        let k = choose|k: int| 0 <= k < longer.len() && #[trigger] longer[k].id == id;
        lemma_keyed_holds(longer, k);
        if k < records.len() {
            assert(records[k].id == id);
            lemma_keyed_holds(records, k);
        }
    }
    assert(keyed(longer) =~= keyed(records).insert(item.id, item));
}

/// Writing a record over the one with its id puts it under that id.
proof fn lemma_keyed_update(records: Seq<ItemView>, at: int, item: ItemView)
    requires
        distinct_ids(records),
        0 <= at < records.len(),
        records[at].id == item.id,
    ensures
        distinct_ids(records.update(at, item)),
        keyed(records.update(at, item)) == keyed(records).insert(item.id, item),
{
    let changed = records.update(at, item);
    assert(distinct_ids(changed)) by {
        assert forall|i: int, j: int| 0 <= i < j < changed.len() implies changed[i].id
            != changed[j].id by {
            assert(changed[i].id == records[i].id);
            assert(changed[j].id == records[j].id);
        }
    }
    assert forall|id: Seq<char>| holds_id(changed, id) <==> holds_id(records, id) by {
        if holds_id(changed, id) {
            let k = choose|k: int| 0 <= k < changed.len() && #[trigger] changed[k].id == id;
            assert(records[k].id == id);
        }
        if holds_id(records, id) {
            let k = choose|k: int| 0 <= k < records.len() && #[trigger] records[k].id == id;
            assert(changed[k].id == id);
        }
    }
    assert(holds_id(records, item.id));
    assert forall|id: Seq<char>| holds_id(changed, id) implies #[trigger] keyed(changed)[id]
        == keyed(records).insert(item.id, item)[id] by {
        let k = choose|k: int| 0 <= k < changed.len() && #[trigger] changed[k].id == id;
        lemma_keyed_holds(changed, k);
        assert(records[k].id == id);
        lemma_keyed_holds(records, k);
    }
    assert(keyed(changed) =~= keyed(records).insert(item.id, item));
}

/// Records with distinct ids are as many as their ids.
pub proof fn lemma_keyed_count(records: Seq<ItemView>)
    requires
        distinct_ids(records),
    ensures
        keyed(records).dom().finite(),
        keyed(records).len() == records.len(),
    decreases records.len(),
{
    if records.len() == 0 {
        assert(keyed(records) =~= Map::<Seq<char>, ItemView>::empty());
    } else {
        let shorter = records.drop_last();
        let last = records.last();
        assert(distinct_ids(shorter)) by {
            assert forall|i: int, j: int| 0 <= i < j < shorter.len() implies shorter[i].id
                != shorter[j].id by {
                assert(records[i].id != records[j].id);
            }
        }
        assert(!holds_id(shorter, last.id)) by {
            if holds_id(shorter, last.id) {
                let k = choose|k: int| 0 <= k < shorter.len() && #[trigger] shorter[k].id == last.id;
                assert(records[k].id != records[records.len() - 1].id);
            }
        }
        lemma_keyed_count(shorter);
        lemma_keyed_push(shorter, last);
        assert(shorter.push(last) =~= records);
    }
}

/// Item records, at most one for each product id, in the order in which
/// their ids first came in.
pub struct ItemTable {
    entries: Vec<Item>,
}

impl View for ItemTable {
    type V = Map<Seq<char>, ItemView>;

    /// The records by their ids.
    closed spec fn view(&self) -> Map<Seq<char>, ItemView> {
        keyed(self.records())
    }
}

impl ItemTable {
    #[verifier::type_invariant]
    spec fn one_record_for_each_id(&self) -> bool {
        distinct_ids(views(self.entries@))
    }

    /// The records in the table's order.
    pub closed spec fn records(&self) -> Seq<ItemView> {
        views(self.entries@)
    }

    /// A table without records.
    pub fn new() -> (table: ItemTable)
        ensures
            table.records() == Seq::<ItemView>::empty(),
            table@ == Map::<Seq<char>, ItemView>::empty(),
    {
        let table = ItemTable { entries: Vec::new() };
        assert(table.records() =~= Seq::<ItemView>::empty());
        assert(table@ =~= Map::<Seq<char>, ItemView>::empty());
        table
    }

    /// The number of records, which is the number of ids with a record.
    pub fn len(&self) -> (count: usize)
        ensures
            count == self.records().len(),
            self@.dom().finite(),
            count == self@.len(),
    {
        proof {
            use_type_invariant(self);
            lemma_keyed_count(self.records());
        }
        self.entries.len()
    }

    /// The records in the table's order. No two of them share an id, and
    /// each is the record that the table holds under its id.
    pub fn items(&self) -> (items: &Vec<Item>)
        ensures
            views(items@) == self.records(),
            distinct_ids(self.records()),
            self@ == keyed(self.records()),
    {
        proof {
            use_type_invariant(self);
        }
        &self.entries
    }

    /// Where the record with the id stands in the table's order.
    pub fn position(&self, id: &str) -> (found: Option<usize>)
        ensures
            match found {
                Some(at) => at < self.records().len() && self.records()[at as int].id == id@,
                None => !holds_id(self.records(), id@),
            },
    {
        let wanted = String::from_str(id);
        let mut at: usize = 0;
        while at < self.entries.len()
            invariant
                at <= self.entries.len(),
                wanted@ == id@,
                forall|k: int| 0 <= k < at ==> self.records()[k].id != id@,
            decreases self.entries.len() - at,
        {
            if self.entries[at].id == wanted {
                return Some(at);
            }
            at += 1;
        }
        assert(!holds_id(self.records(), id@));
        None
    }

    /// The record with the id, if the table holds one.
    pub fn get(&self, id: &str) -> (found: Option<&Item>)
        ensures
            match found {
                Some(item) => self@.contains_key(id@) && self@[id@] == item@,
                None => !self@.contains_key(id@),
            },
    {
        proof {
            use_type_invariant(self);
        }
        match self.position(id) {
            Some(at) => {
                proof {
                    lemma_keyed_holds(self.records(), at as int);
                }
                Some(&self.entries[at])
            },
            None => None,
        }
    }

    /// Puts the record in the table: over the record with its id, which is
    /// handed back, or as a new last record where no record has its id.
    pub fn insert(&mut self, item: Item) -> (replaced: Option<Item>)
        ensures
            final(self)@ == old(self)@.insert(item@.id, item@),
            match replaced {
                Some(former) => old(self)@.contains_key(item@.id) && former@ == old(self)@[item@.id]
                    && exists|at: int|
                    0 <= at < old(self).records().len() && old(self).records()[at].id == item@.id
                        && final(self).records() == old(self).records().update(at, item@),
                None => !old(self)@.contains_key(item@.id) && final(self).records() == old(
                    self,
                ).records().push(item@),
            },
    {
        proof {
            use_type_invariant(&*self);
        }
        let ghost before = self.records();
        match self.position(item.id.as_str()) {
            Some(at) => {
                let former = self.entries[at].clone();
                proof {
                    lemma_keyed_holds(before, at as int);
                    lemma_keyed_update(before, at as int, item@);
                }
                let mut entries: Vec<Item> = Vec::new();
                core::mem::swap(&mut self.entries, &mut entries);
                entries.set(at, item);
                assert(views(entries@) =~= before.update(at as int, item@));
                self.entries = entries;
                Some(former)
            },
            None => {
                proof {
                    lemma_keyed_push(before, item@);
                }
                let mut entries: Vec<Item> = Vec::new();
                core::mem::swap(&mut self.entries, &mut entries);
                entries.push(item);
                assert(views(entries@) =~= before.push(item@));
                self.entries = entries;
                None
            },
        }
    }
}

} // verus!
