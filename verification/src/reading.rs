//! Reading an export back.
//!
//! The library writes CSV and does not read it. What a reader makes of the
//! text is stated here, so that it can be proved that the text tells the
//! records: a reader that takes a quoted field up to its closing quote, an
//! unquoted field up to the next comma or the end of the line, and a record
//! up to the end of the line, reads back the fields that were written.

use vstd::prelude::*;

use crate::export::{
    csv_field, csv_fields, csv_line, csv_lines, csv_of, doubled, header_fields, is_special,
    lemma_record_tells_the_item, needs_quotes, record_fields,
};
use crate::item::ItemView;

verus! {

/// Reads a quoted field from behind its opening quote: the field, with two
/// quotes read as one, and the text behind its closing quote.
pub open spec fn read_quoted(text: Seq<char>) -> (Seq<char>, Seq<char>)
    decreases text.len(),
{
    if text.len() == 0 {
        (Seq::empty(), Seq::empty())
    } else if text[0] == '"' {
        if text.len() >= 2 && text[1] == '"' {
            let behind = read_quoted(text.subrange(2, text.len() as int));
            (seq!['"'] + behind.0, behind.1)
        } else {
            (Seq::empty(), text.drop_first())
        }
    } else {
        let behind = read_quoted(text.drop_first());
        (seq![text[0]] + behind.0, behind.1)
    }
}

/// Reads an unquoted field: the text up to the next comma or the end of
/// the line, and the text from there on.
pub open spec fn read_plain(text: Seq<char>) -> (Seq<char>, Seq<char>)
    decreases text.len(),
{
    if text.len() == 0 || text[0] == ',' || text[0] == '\n' {
        (Seq::empty(), text)
    } else {
        let behind = read_plain(text.drop_first());
        (seq![text[0]] + behind.0, behind.1)
    }
}

/// Reads a field, quoted where the text begins with a quote, and gives the
/// text behind it.
pub open spec fn read_field(text: Seq<char>) -> (Seq<char>, Seq<char>) {
    if text.len() > 0 && text[0] == '"' {
        read_quoted(text.drop_first())
    } else {
        read_plain(text)
    }
}

/// Reads a record: the fields up to the end of the line, and the text
/// behind the line.
pub open spec fn read_record(text: Seq<char>) -> (Seq<Seq<char>>, Seq<char>)
    decreases text.len(),
{
    let first = read_field(text);
    if 0 < first.1.len() <= text.len() && first.1[0] == ',' {
        let others = read_record(first.1.drop_first());
        (seq![first.0] + others.0, others.1)
    } else if first.1.len() > 0 && first.1[0] == '\n' {
        (seq![first.0], first.1.drop_first())
    } else {
        (seq![first.0], first.1)
    }
}

/// Reads the records of a text, line by line.
pub open spec fn read_records(text: Seq<char>) -> Seq<Seq<Seq<char>>>
    decreases text.len(),
{
    if text.len() == 0 {
        Seq::empty()
    } else {
        let first = read_record(text);
        if first.1.len() < text.len() {
            seq![first.0] + read_records(first.1)
        } else {
            seq![first.0]
        }
    }
}

/// The fields of each of the records, in order.
pub open spec fn records_fields(records: Seq<ItemView>) -> Seq<Seq<Seq<char>>> {
    records.map_values(|record: ItemView| record_fields(record))
}

proof fn lemma_read_quoted(field: Seq<char>, rest: Seq<char>)
    requires
        rest.len() == 0 || rest[0] != '"',
    ensures
        read_quoted(doubled(field) + seq!['"'] + rest).0 == field,
        read_quoted(doubled(field) + seq!['"'] + rest).1 == rest,
    decreases field.len(),
{
    let text = doubled(field) + seq!['"'] + rest;
    if field.len() == 0 {
        assert(text =~= seq!['"'] + rest);
        assert(text.drop_first() =~= rest);
        assert(read_quoted(text).0 =~= field);
    } else {
        let tail = field.drop_first();
        let tail_text = doubled(tail) + seq!['"'] + rest;
        lemma_read_quoted(tail, rest);
        if field[0] == '"' {
            assert(text =~= seq!['"', '"'] + tail_text);
            assert(text.subrange(2, text.len() as int) =~= tail_text);
            assert(seq!['"'] + tail =~= field);
        } else {
            assert(text =~= seq![field[0]] + tail_text);
            assert(text.drop_first() =~= tail_text);
            assert(seq![field[0]] + tail =~= field);
        }
    }
}

proof fn lemma_read_plain(field: Seq<char>, rest: Seq<char>)
    requires
        !needs_quotes(field),
        rest.len() == 0 || rest[0] == ',' || rest[0] == '\n',
    ensures
        read_plain(field + rest).0 == field,
        read_plain(field + rest).1 == rest,
    decreases field.len(),
{
    let text = field + rest;
    if field.len() == 0 {
        assert(text =~= rest);
        assert(read_plain(text).0 =~= field);
    } else {
        let tail = field.drop_first();
        assert(!is_special(field[0]));
        assert(!needs_quotes(tail)) by {
            if needs_quotes(tail) {
                let i = choose|i: int| 0 <= i < tail.len() && is_special(#[trigger] tail[i]);
                assert(is_special(field[i + 1]));
            }
        }
        lemma_read_plain(tail, rest);
        assert(text[0] == field[0]);
        assert(text.drop_first() =~= tail + rest);
        assert(seq![field[0]] + tail =~= field);
    }
}

proof fn lemma_read_field(field: Seq<char>, rest: Seq<char>)
    requires
        rest.len() == 0 || rest[0] == ',' || rest[0] == '\n',
    ensures
        read_field(csv_field(field) + rest).0 == field,
        read_field(csv_field(field) + rest).1 == rest,
{
    let text = csv_field(field) + rest;
    if needs_quotes(field) {
        assert(text =~= seq!['"'] + (doubled(field) + seq!['"'] + rest));
        assert(text.drop_first() =~= doubled(field) + seq!['"'] + rest);
        lemma_read_quoted(field, rest);
    } else {
        lemma_read_plain(field, rest);
        if field.len() > 0 {
            assert(!is_special(field[0]));
            assert(text[0] == field[0]);
        } else {
            assert(text =~= rest);
        }
    }
}

proof fn lemma_read_fields(fields: Seq<Seq<char>>, after: Seq<char>)
    requires
        fields.len() >= 1,
    ensures
        read_record(csv_fields(fields) + seq!['\n'] + after).0 == fields,
        read_record(csv_fields(fields) + seq!['\n'] + after).1 == after,
    decreases fields.len(),
{
    let text = csv_fields(fields) + seq!['\n'] + after;
    if fields.len() == 1 {
        let rest = seq!['\n'] + after;
        assert(text =~= csv_field(fields[0]) + rest);
        lemma_read_field(fields[0], rest);
        assert(rest.drop_first() =~= after);
        assert(seq![fields[0]] =~= fields);
    } else {
        let others = fields.drop_first();
        let others_text = csv_fields(others) + seq!['\n'] + after;
        let rest = seq![','] + others_text;
        assert(text =~= csv_field(fields[0]) + rest);
        lemma_read_field(fields[0], rest);
        assert(rest.drop_first() =~= others_text);
        lemma_read_fields(others, after);
        assert(seq![fields[0]] + others =~= fields);
    }
}

/// A reader reads a line back: from a line and the text behind it, it
/// reads the fields that the line was written from, and is left with the
/// text behind the line.
pub proof fn lemma_line_is_read_back(fields: Seq<Seq<char>>, after: Seq<char>)
    requires
        fields.len() >= 1,
    ensures
        read_record(csv_line(fields) + after).0 == fields,
        read_record(csv_line(fields) + after).1 == after,
        csv_line(fields).len() > 0,
{
    let written = csv_fields(fields);
    if written.len() == 0 {
        if fields.len() > 1 {
            assert(written == csv_field(fields[0]) + seq![','] + csv_fields(fields.drop_first()));
            assert(written.len() > 0);
        }
        assert(fields.len() == 1);
        assert(written == csv_field(fields[0]));
        assert(fields[0].len() == 0);
        assert(fields[0] =~= Seq::<char>::empty());
        assert(fields =~= seq![Seq::<char>::empty()]);
        let text = csv_line(fields) + after;
        assert(text =~= seq!['"', '"', '\n'] + after);
        let inside = text.drop_first();
        assert(inside =~= seq!['"', '\n'] + after);
        assert(inside.drop_first() =~= seq!['\n'] + after);
        assert(read_quoted(inside).0 =~= Seq::<char>::empty());
        assert(read_quoted(inside).1 =~= seq!['\n'] + after);
        assert((seq!['\n'] + after).drop_first() =~= after);
        assert(read_record(text).0 =~= fields);
    } else {
        assert(csv_line(fields) + after =~= written + seq!['\n'] + after);
        lemma_read_fields(fields, after);
    }
}

proof fn lemma_read_lines(records: Seq<ItemView>, after: Seq<char>)
    ensures
        read_records(csv_lines(records) + after) == records_fields(records) + read_records(after),
    decreases records.len(),
{
    if records.len() == 0 {
        assert(csv_lines(records) + after =~= after);
        assert(records_fields(records) + read_records(after) =~= read_records(after));
    } else {
        let earlier = records.drop_last();
        let line = csv_line(record_fields(records.last()));
        let behind = line + after;
        assert(csv_lines(records) + after =~= csv_lines(earlier) + behind);
        lemma_read_lines(earlier, behind);
        lemma_line_is_read_back(record_fields(records.last()), after);
        assert(records_fields(records) =~= records_fields(earlier) + seq![
            record_fields(records.last()),
        ]);
        assert(read_records(behind) =~= seq![record_fields(records.last())] + read_records(
            after,
        ));
    }
}

/// A reader reads an export back: from the export of records it reads the
/// names of the fields and then, record by record, the fields that were
/// written.
pub proof fn lemma_export_is_read_back(records: Seq<ItemView>)
    requires
        records.len() > 0,
    ensures
        read_records(csv_of(records)) == seq![header_fields()] + records_fields(records),
{
    let lines = csv_lines(records);
    lemma_line_is_read_back(header_fields(), lines);
    lemma_read_lines(records, Seq::empty());
    assert(lines + Seq::<char>::empty() =~= lines);
    assert(records_fields(records) + read_records(Seq::empty()) =~= records_fields(records));
    assert(csv_of(records) =~= csv_line(header_fields()) + lines);
}

/// The round trip: an item that a reader makes from the line of a record in
/// an export agrees with the record in every field, and in how the price is
/// shown. (Whether the price was a single amount or a range is not in the
/// text.)
pub proof fn lemma_round_trip(records: Seq<ItemView>, at: int, read: ItemView)
    requires
        0 <= at < records.len(),
        record_fields(read) == read_records(csv_of(records))[at + 1],
    ensures
        read.last_seen == records[at].last_seen,
        read.name == records[at].name,
        read.id == records[at].id,
        read.price.text() == records[at].price.text(),
        read.category == records[at].category,
        read.brand == records[at].brand,
        read.position == records[at].position,
        read.list == records[at].list,
        read.link == records[at].link,
        read.back_in_stock == records[at].back_in_stock,
{
    lemma_export_is_read_back(records);
    assert(records_fields(records)[at] == record_fields(records[at]));
    lemma_record_tells_the_item(read, records[at]);
}

} // verus!
