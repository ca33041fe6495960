use titan_fitness_stock::{
    add_line, csv_header, csv_record, current_as_csv, current_items, export_window, items_as_csv,
    Error, Item, ItemTable, Price, EXPORT_WINDOW_DAYS, EXPORT_WINDOW_SECS,
};

const DAY: u64 = 86_400;

fn item(id: &str, name: &str, last_seen: u64) -> Item {
    Item {
        last_seen,
        name: name.to_string(),
        id: id.to_string(),
        price: Price::Single("199.99".to_string()),
        category: "Racks".to_string(),
        brand: "Titan".to_string(),
        position: "1".to_string(),
        list: "In Stock".to_string(),
        link: format!("https://www.titan.fitness/{}", id),
        back_in_stock: false,
    }
}

fn table(items: Vec<Item>) -> ItemTable {
    let mut table = ItemTable::new();
    for item in items {
        table.insert(item);
    }
    table
}

fn ids(items: &Vec<Item>) -> Vec<String> {
    items.iter().map(|item| item.id.clone()).collect()
}

#[test]
fn window_is_thirty_days() {
    assert_eq!(EXPORT_WINDOW_DAYS, 30);
    assert_eq!(EXPORT_WINDOW_SECS, 30 * DAY);
    let t = 1_700_000_000;
    assert_eq!(export_window(t), (t - 2_592_000)..t);
}

#[test]
fn window_starts_at_the_epoch_when_now_is_early() {
    assert_eq!(export_window(1_000), 0..1_000);
    assert_eq!(export_window(0), 0..0);
    assert_eq!(export_window(2_592_000), 0..2_592_000);
    assert_eq!(export_window(u64::MAX), (u64::MAX - 2_592_000)..u64::MAX);
}

#[test]
fn seen_29_days_ago_is_exported_and_31_days_ago_is_not() {
    let t = 1_700_000_000;
    let store = table(vec![item("old", "Old", t - 31 * DAY), item("recent", "Recent", t - 29 * DAY)]);
    assert_eq!(ids(&current_items(&store, t)), vec!["recent".to_string()]);
}

#[test]
fn window_includes_its_start_and_excludes_now() {
    let t = 1_700_000_000;
    let store = table(vec![
        item("start", "Start", t - 30 * DAY),
        item("before", "Before", t - 30 * DAY - 1),
        item("last", "Last", t - 1),
        item("now", "Now", t),
        item("later", "Later", t + 5),
    ]);
    assert_eq!(ids(&current_items(&store, t)), vec!["start".to_string(), "last".to_string()]);
}

#[test]
fn header_names_the_fields_in_record_order() {
    assert_eq!(
        csv_header(),
        vec![
            "last_seen", "name", "id", "price", "category", "brand", "position", "list", "link",
            "back_in_stock"
        ]
    );
}

#[test]
fn record_holds_the_fields_as_text() {
    let mut listed = item("A1", "Rack", 1_700_000_000);
    listed.back_in_stock = true;
    listed.price = Price::Range("$10 - $20".to_string());
    assert_eq!(
        csv_record(&listed),
        vec![
            "1700000000", "Rack", "A1", "$10 - $20", "Racks", "Titan", "1", "In Stock",
            "https://www.titan.fitness/A1", "true"
        ]
    );
    assert_eq!(csv_record(&item("B", "Bar", 0))[0], "0");
    assert_eq!(csv_record(&item("B", "Bar", u64::MAX))[0], "18446744073709551615");
    assert_eq!(csv_record(&item("B", "Bar", 0))[9], "false");
}

#[test]
fn export_is_a_header_and_one_line_for_each_record() {
    let items = vec![item("A1", "Rack", 1_700_000_000), item("B2", "Bar, 7ft \"pro\"", 12)];
    assert_eq!(
        items_as_csv(&items),
        Ok(String::from(
            "last_seen,name,id,price,category,brand,position,list,link,back_in_stock\n\
             1700000000,Rack,A1,199.99,Racks,Titan,1,In Stock,https://www.titan.fitness/A1,false\n\
             12,\"Bar, 7ft \"\"pro\"\"\",B2,199.99,Racks,Titan,1,In Stock,https://www.titan.fitness/B2,false\n"
        ))
    );
}

#[test]
fn export_of_no_records_is_empty() {
    assert_eq!(items_as_csv(&Vec::new()), Ok(String::new()));
    let t = 1_700_000_000;
    let store = table(vec![item("old", "Old", t - 31 * DAY)]);
    assert_eq!(current_as_csv(&store, t), Ok(String::new()));
}

#[test]
fn export_at_now_holds_the_records_of_the_window() {
    let t = 1_700_000_000;
    let store = table(vec![
        item("old", "Old", t - 31 * DAY),
        item("recent", "Recent", t - 29 * DAY),
    ]);
    assert_eq!(
        current_as_csv(&store, t),
        Ok(format!(
            "last_seen,name,id,price,category,brand,position,list,link,back_in_stock\n{},Recent,recent,199.99,Racks,Titan,1,In Stock,https://www.titan.fitness/recent,false\n",
            t - 29 * DAY
        ))
    );
}

#[test]
fn writer_failure_becomes_a_csv_failure() {
    assert_eq!(
        add_line("a,b\n".to_string(), Ok("1,2\n".to_string())),
        Ok("a,b\n1,2\n".to_string())
    );
    assert_eq!(
        add_line("a,b\n".to_string(), Err("disk full".to_string())),
        Err(Error::Csv("disk full".to_string()))
    );
}

#[test]
fn csv_round_trip_reproduces_the_fields() {
    let mut first = item("A1", "Rack, \"heavy\"\nduty", 1_700_000_000);
    first.back_in_stock = true;
    let mut second = item("B2", "", 0);
    second.price = Price::Range("$10 - $20".to_string());
    let items = vec![first, second];
    let text = items_as_csv(&items).unwrap();
    let mut reader = csv::Reader::from_reader(text.as_bytes());
    let header: Vec<String> = reader.headers().unwrap().iter().map(String::from).collect();
    assert_eq!(header, csv_header());
    let mut read = Vec::new();
    for row in reader.records() {
        let row = row.unwrap();
        assert_eq!(row.len(), 10);
        read.push(Item {
            last_seen: row[0].parse().unwrap(),
            name: row[1].to_string(),
            id: row[2].to_string(),
            price: Price::Range(row[3].to_string()),
            category: row[4].to_string(),
            brand: row[5].to_string(),
            position: row[6].to_string(),
            list: row[7].to_string(),
            link: row[8].to_string(),
            back_in_stock: row[9].parse().unwrap(),
        });
    }
    assert_eq!(read.len(), items.len());
    for (back, sent) in read.iter().zip(items.iter()) {
        assert_eq!(back.price.to_string(), sent.price.to_string());
        let mut same_variant = back.clone();
        same_variant.price = sent.price.clone();
        assert_eq!(&same_variant, sent);
    }
}

#[test]
fn export_of_one_record_with_a_range_price() {
    let now = 10_000_000;
    let record = Item {
        last_seen: now - 29 * DAY,
        name: "n".to_string(),
        id: "X".to_string(),
        price: Price::Range("$10 - $20".to_string()),
        category: "c".to_string(),
        brand: "b".to_string(),
        position: "p".to_string(),
        list: "l".to_string(),
        link: "https://www.titan.fitness/x".to_string(),
        back_in_stock: false,
    };
    assert_eq!(record.last_seen, 7_494_400);
    let store = table(vec![record]);
    assert_eq!(
        current_as_csv(&store, now),
        Ok(String::from(
            "last_seen,name,id,price,category,brand,position,list,link,back_in_stock\n\
             7494400,n,X,$10 - $20,c,b,p,l,https://www.titan.fitness/x,false\n"
        ))
    );
}

#[test]
fn export_keeps_thirty_days_ago_and_drops_now() {
    let now = 10_000_000;
    let mut kept = item("L", "n", now - 30 * DAY);
    kept.price = Price::Single("1.5".to_string());
    kept.link = String::new();
    let mut dropped = item("U", "n", now);
    dropped.price = Price::Single("1.5".to_string());
    dropped.link = String::new();
    assert_eq!(kept.last_seen, 7_408_000);
    let store = table(vec![kept, dropped]);
    assert_eq!(
        current_as_csv(&store, now),
        Ok(String::from(
            "last_seen,name,id,price,category,brand,position,list,link,back_in_stock\n\
             7408000,n,L,1.5,Racks,Titan,1,In Stock,,false\n"
        ))
    );
}

#[test]
fn export_has_one_line_for_each_record_of_the_window() {
    let now = 1_700_000_000;
    let mut records = Vec::new();
    for k in 0..40u64 {
        records.push(item(&format!("id{}", k), "n", now - k * DAY));
    }
    let store = table(records);
    let text = current_as_csv(&store, now).unwrap();
    let lines: Vec<&str> = text.lines().collect();
    assert_eq!(lines.len(), 31);
    for k in 1..=30u64 {
        assert_eq!(
            lines[k as usize],
            format!(
                "{},n,id{},199.99,Racks,Titan,1,In Stock,https://www.titan.fitness/id{},false",
                now - k * DAY,
                k,
                k
            )
        );
    }
}

#[test]
fn field_is_quoted_when_it_holds_a_special_character() {
    let mut record = item("A", "plain", 1);
    record.name = "a,b".to_string();
    record.category = "say \"hi\"".to_string();
    record.brand = "two\nlines".to_string();
    record.position = "carriage\rreturn".to_string();
    record.list = "\"".to_string();
    record.link = "semi;colon 'single' \ttab".to_string();
    assert_eq!(
        items_as_csv(&vec![record]),
        Ok(String::from(
            "last_seen,name,id,price,category,brand,position,list,link,back_in_stock\n\
             1,\"a,b\",A,199.99,\"say \"\"hi\"\"\",\"two\nlines\",\"carriage\rreturn\",\"\"\"\",semi;colon 'single' \ttab,false\n"
        ))
    );
}

#[test]
fn empty_and_foreign_fields_are_written_as_they_are() {
    let mut record = item("", "", 0);
    record.price = Price::Range(String::new());
    record.category = String::new();
    record.brand = "Stärke 10 µm — 重い".to_string();
    record.position = String::new();
    record.list = String::new();
    record.link = String::new();
    assert_eq!(
        items_as_csv(&vec![record]),
        Ok(String::from(
            "last_seen,name,id,price,category,brand,position,list,link,back_in_stock\n\
             0,,,,,Stärke 10 µm — 重い,,,,false\n"
        ))
    );
}
