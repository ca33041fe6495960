//! The records of the last thirty days, as CSV.

use std::ops::Range;
use vstd::prelude::*;
use vstd::string::StringExecFns;

use crate::detect::SECONDS_PER_DAY;
use crate::error::Error;
use crate::item::{Item, ItemView};
use crate::query::{ItemQueries, ItemQuery};
use crate::table::{views, ItemTable};
use crate::text::{decimal, decimal_text, lemma_decimal_injective};

verus! {

/// The days that the export looks back.
pub const EXPORT_WINDOW_DAYS: u64 = 30;

/// The seconds that the export looks back.
pub const EXPORT_WINDOW_SECS: u64 = 2_592_000;

/// Whether a record last seen at `last_seen` is exported at `now`: it was
/// seen before `now`, and no more than thirty days before.
pub open spec fn in_export_window(last_seen: u64, now: u64) -> bool {
    now - EXPORT_WINDOW_SECS <= last_seen < now
}

/// The records exported at `now`, as a predicate.
pub open spec fn exported_at(now: u64) -> spec_fn(ItemView) -> bool {
    |item: ItemView| in_export_window(item.last_seen, now)
}

/// The times of the records exported at `now`: from thirty days before
/// `now`, or from the epoch where `now` is earlier than that, up to but
/// without `now`.
pub fn export_window(now: u64) -> (window: Range<u64>)
    ensures
        window.end == now,
        window.start == if now >= EXPORT_WINDOW_SECS {
            now - EXPORT_WINDOW_SECS
        } else {
            0
        },
        forall|last_seen: u64|
            window.start <= last_seen < window.end <==> in_export_window(last_seen, now),
{
    let start = if now >= EXPORT_WINDOW_SECS {
        now - EXPORT_WINDOW_SECS
    } else {
        0
    };
    Range { start, end: now }
}

/// The records of the store that are exported at `now`, in the store's
/// order.
pub fn current_items(store: &ItemTable, now: u64) -> (items: Vec<Item>)
    ensures
        views(items@) == store.records().filter(exported_at(now)),
{
    let query = ItemQuery::new().in_timestamp_range(export_window(now));
    assert(query.selection() =~= exported_at(now));
    store.select(&query)
}

/// The texts of a run of fields, in order.
pub open spec fn texts(fields: Seq<String>) -> Seq<Seq<char>> {
    fields.map_values(|field: String| field@)
}

/// How a truth value is written.
pub open spec fn truth(value: bool) -> Seq<char> {
    if value {
        "true"@
    } else {
        "false"@
    }
}

/// The names of a record's fields, in the order of the record.
pub open spec fn header_fields() -> Seq<Seq<char>> {
    seq![
        "last_seen"@,
        "name"@,
        "id"@,
        "price"@,
        "category"@,
        "brand"@,
        "position"@,
        "list"@,
        "link"@,
        "back_in_stock"@,
    ]
}

/// The fields of an item's record: the time as a decimal numeral, the price
/// as it is shown, the flag as `true` or `false`, the rest as they are.
pub open spec fn record_fields(item: ItemView) -> Seq<Seq<char>> {
    seq![
        decimal(item.last_seen as nat),
        item.name,
        item.id,
        item.price.text(),
        item.category,
        item.brand,
        item.position,
        item.list,
        item.link,
        truth(item.back_in_stock),
    ]
}

/// The names of a record's fields.
pub fn csv_header() -> (fields: Vec<String>)
    ensures
        texts(fields@) == header_fields(),
{
    let mut fields: Vec<String> = Vec::new();
    fields.push(String::from_str("last_seen"));
    fields.push(String::from_str("name"));
    fields.push(String::from_str("id"));
    fields.push(String::from_str("price"));
    fields.push(String::from_str("category"));
    fields.push(String::from_str("brand"));
    fields.push(String::from_str("position"));
    fields.push(String::from_str("list"));
    fields.push(String::from_str("link"));
    fields.push(String::from_str("back_in_stock"));
    assert(texts(fields@) =~= header_fields());
    fields
}

/// The fields of an item's record.
pub fn csv_record(item: &Item) -> (fields: Vec<String>)
    ensures
        texts(fields@) == record_fields(item@),
{
    let mut fields: Vec<String> = Vec::new();
    fields.push(decimal_text(item.last_seen));
    fields.push(item.name.clone());
    fields.push(item.id.clone());
    fields.push(item.price.to_string());
    fields.push(item.category.clone());
    fields.push(item.brand.clone());
    fields.push(item.position.clone());
    fields.push(item.list.clone());
    fields.push(item.link.clone());
    fields.push(
        if item.back_in_stock {
            String::from_str("true")
        } else {
            String::from_str("false")
        },
    );
    assert(texts(fields@) =~= record_fields(item@));
    fields
}

/// Whether a field that holds the character is written between quotes: the
/// comma, the quote, and the two characters that end a line.
pub open spec fn is_special(c: char) -> bool {
    c == ',' || c == '"' || c == '\r' || c == '\n'
}

/// Whether a field is written between quotes: when it holds a special
/// character.
pub open spec fn needs_quotes(field: Seq<char>) -> bool {
    exists|i: int| 0 <= i < field.len() && is_special(#[trigger] field[i])
}

/// A field with each of its quotes written twice.
pub open spec fn doubled(field: Seq<char>) -> Seq<char>
    decreases field.len(),
{
    if field.len() == 0 {
        Seq::empty()
    } else if field[0] == '"' {
        seq!['"', '"'] + doubled(field.drop_first())
    } else {
        seq![field[0]] + doubled(field.drop_first())
    }
}

/// A field as it is written: as it is, or, where it needs quotes, between
/// quotes and with its own quotes doubled.
pub open spec fn csv_field(field: Seq<char>) -> Seq<char> {
    if needs_quotes(field) {
        seq!['"'] + doubled(field) + seq!['"']
    } else {
        field
    }
}

/// The fields of a record as they are written, with commas between them.
pub open spec fn csv_fields(fields: Seq<Seq<char>>) -> Seq<char>
    decreases fields.len(),
{
    if fields.len() == 0 {
        Seq::empty()
    } else if fields.len() == 1 {
        csv_field(fields[0])
    } else {
        csv_field(fields[0]) + seq![','] + csv_fields(fields.drop_first())
    }
}

/// The line of a record: its fields as they are written and the end of the
/// line. A record that would leave the line empty is written as two quotes.
pub open spec fn csv_line(fields: Seq<Seq<char>>) -> Seq<char> {
    let written = csv_fields(fields);
    if written.len() == 0 {
        seq!['"', '"', '\n']
    } else {
        written + seq!['\n']
    }
}

/// `csv::Writer::write_record`, on a writer that is new, has the settings
/// that a writer has at first and writes to memory. Such a writer does not
/// fail: memory takes every byte, and a first record has no earlier record
/// to differ from in length. What it writes is the record's line: a field
/// is quoted when it holds a comma, a quote, a carriage return or a line
/// feed, and then its quotes are doubled; commas stand between the fields;
/// a line feed ends the line; a line that would be empty is two quotes.
#[verifier::external_body]
fn write_line(fields: &Vec<String>) -> (line: Result<String, String>)
    ensures
        line is Ok,
        line matches Ok(text) ==> text@ == csv_line(texts(fields@)),
{
    let mut writer = csv::Writer::from_writer(Vec::new());
    writer.write_record(fields).map_err(|e| e.to_string())?;
    let bytes = writer.into_inner().map_err(|e| e.to_string())?;
    String::from_utf8(bytes).map_err(|e| e.to_string())
}

/// The lines of the records, one after the other.
pub open spec fn csv_lines(records: Seq<ItemView>) -> Seq<char>
    decreases records.len(),
{
    if records.len() == 0 {
        Seq::empty()
    } else {
        csv_lines(records.drop_last()) + csv_line(record_fields(records.last()))
    }
}

/// The export of the records: the line of the field names and then the
/// lines of the records. Without records the export is empty.
pub open spec fn csv_of(records: Seq<ItemView>) -> Seq<char> {
    if records.len() == 0 {
        Seq::empty()
    } else {
        csv_line(header_fields()) + csv_lines(records)
    }
}

/// Adds what the writer gave for a line to the export so far. Where the
/// writer failed, its complaint becomes the failure of the export.
pub fn add_line(export: String, line: Result<String, String>) -> (extended: Result<String, Error>)
    ensures
        match line {
            Ok(text) => extended matches Ok(longer) && longer@ == export@ + text@,
            Err(complaint) => extended matches Err(Error::Csv(cause)) && cause@ == complaint@,
        },
{
    match line {
        Ok(text) => Ok(export.concat(text.as_str())),
        Err(complaint) => Err(Error::Csv(complaint)),
    }
}

/// Writes the records as CSV: the field names, then one line for each
/// record, in their order. The export of no records is empty. The export
/// is written to memory and always succeeds.
pub fn items_as_csv(items: &Vec<Item>) -> (export: Result<String, Error>)
    ensures
        export matches Ok(text) && text@ == csv_of(views(items@)),
{
    let ghost records = views(items@);
    if items.len() == 0 {
        return Ok(String::new());
    }
    let header = csv_header();
    let mut text = match add_line(String::new(), write_line(&header)) {
        Ok(text) => text,
        Err(failure) => { return Err(failure); },
    };
    let mut at: usize = 0;
    assert(records.take(0) =~= Seq::empty());
    assert(text@ =~= csv_line(header_fields()) + csv_lines(records.take(0)));
    while at < items.len()
        invariant
            at <= items.len(),
            records == views(items@),
            text@ == csv_line(header_fields()) + csv_lines(records.take(at as int)),
        decreases items.len() - at,
    {
        let fields = csv_record(&items[at]);
        proof {
            assert(records.take(at + 1).drop_last() =~= records.take(at as int));
            assert(records.take(at + 1).last() == records[at as int]);
        }
        let ghost before = text@;
        text = match add_line(text, write_line(&fields)) {
            Ok(longer) => longer,
            Err(failure) => { return Err(failure); },
        };
        assert(text@ =~= csv_line(header_fields()) + csv_lines(records.take(at + 1)));
        at += 1;
    }
    assert(records.take(at as int) =~= records);
    Ok(text)
}

/// The export at `now`: the records of the store that were last seen in the
/// thirty days before `now`, as CSV. It always succeeds.
pub fn current_as_csv(store: &ItemTable, now: u64) -> (export: Result<String, Error>)
    ensures
        export matches Ok(text) && text@ == csv_of(store.records().filter(exported_at(now))),
{
    let items = current_items(store, now);
    items_as_csv(&items)
}

/// A record tells its item: two items with the same record agree in every
/// field, and in how their prices are shown. (Whether a price was a single
/// amount or a range is not in the record.)
pub proof fn lemma_record_tells_the_item(a: ItemView, b: ItemView)
    requires
        record_fields(a) == record_fields(b),
    ensures
        a.last_seen == b.last_seen,
        a.name == b.name,
        a.id == b.id,
        a.price.text() == b.price.text(),
        a.category == b.category,
        a.brand == b.brand,
        a.position == b.position,
        a.list == b.list,
        a.link == b.link,
        a.back_in_stock == b.back_in_stock,
{
    let fields_a = record_fields(a);
    let fields_b = record_fields(b);
    assert(fields_a[0] == fields_b[0]);
    assert(fields_a[1] == fields_b[1]);
    assert(fields_a[2] == fields_b[2]);
    assert(fields_a[3] == fields_b[3]);
    assert(fields_a[4] == fields_b[4]);
    assert(fields_a[5] == fields_b[5]);
    assert(fields_a[6] == fields_b[6]);
    assert(fields_a[7] == fields_b[7]);
    assert(fields_a[8] == fields_b[8]);
    assert(fields_a[9] == fields_b[9]);
    lemma_decimal_injective(a.last_seen as nat, b.last_seen as nat);
    reveal_strlit("true");
    reveal_strlit("false");
    assert("true"@.len() != "false"@.len());
}

/// A record last seen a whole number of days before `now` is exported
/// exactly when the days are at least one and at most thirty.
pub proof fn lemma_exported_by_days(now: u64, days: nat)
    requires
        days * SECONDS_PER_DAY <= now,
    ensures
        in_export_window((now - days * SECONDS_PER_DAY) as u64, now) <==> 1 <= days
            <= EXPORT_WINDOW_DAYS,
{
    assert(EXPORT_WINDOW_SECS == EXPORT_WINDOW_DAYS * SECONDS_PER_DAY);
    if days > EXPORT_WINDOW_DAYS {
        assert(days * SECONDS_PER_DAY >= (EXPORT_WINDOW_DAYS + 1) * SECONDS_PER_DAY)
            by (nonlinear_arith)
            requires
                days >= EXPORT_WINDOW_DAYS + 1,
        ;
    } else {
        assert(days * SECONDS_PER_DAY <= EXPORT_WINDOW_DAYS * SECONDS_PER_DAY)
            by (nonlinear_arith)
            requires
                days <= EXPORT_WINDOW_DAYS,
        ;
    }
}

} // verus!
