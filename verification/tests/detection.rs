use titan_fitness_stock::{
    daily_new_item_check, debug_file_name, observe, report_heading, Change, Item, ItemTable,
    Notice, Price, StoreWrite, SECONDS_PER_DAY,
};

fn item(id: &str, name: &str, last_seen: u64) -> Item {
    Item {
        last_seen,
        name: name.to_string(),
        id: id.to_string(),
        price: Price::Single("199.99".to_string()),
        category: "Racks".to_string(),
        brand: "Titan".to_string(),
        position: "1".to_string(),
        list: "In Stock".to_string(),
        link: format!("https://www.titan.fitness/{}", id),
        back_in_stock: false,
    }
}

fn table(items: Vec<Item>) -> ItemTable {
    let mut table = ItemTable::new();
    for item in items {
        table.insert(item);
    }
    table
}

fn line(name: &str, id: &str) -> String {
    format!("new item: {}: 199.99 (https://www.titan.fitness/{})", name, id)
}

#[test]
fn one_day_is_86400_seconds() {
    assert_eq!(SECONDS_PER_DAY, 86_400);
}

#[test]
fn unknown_id_inserts_exactly_one_record() {
    let mut store = table(vec![item("B2", "Bar", 50)]);
    let listed = table(vec![item("X", "Rack", 0)]);
    let changes = daily_new_item_check(&listed, &mut store, 1_000);
    assert_eq!(
        changes,
        vec![Change {
            item: item("X", "Rack", 1_000),
            write: StoreWrite::Insert,
            notice: Some(Notice { opens_report: true, line: line("Rack", "X") }),
        }]
    );
    assert_eq!(store.len(), 2);
    assert_eq!(store.get("X"), Some(&item("X", "Rack", 1_000)));
    assert_eq!(store.get("B2"), Some(&item("B2", "Bar", 50)));
}

#[test]
fn known_id_updates_the_same_record() {
    let mut store = ItemTable::new();
    let listed = table(vec![item("X", "Rack", 0)]);
    daily_new_item_check(&listed, &mut store, 1_000);
    assert_eq!(store.len(), 1);
    let again = table(vec![item("X", "Rack, improved", 0)]);
    let changes = daily_new_item_check(&again, &mut store, 2_000);
    assert_eq!(
        changes,
        vec![Change {
            item: item("X", "Rack, improved", 2_000),
            write: StoreWrite::Update,
            notice: None,
        }]
    );
    assert_eq!(store.len(), 1);
    assert_eq!(store.get("X"), Some(&item("X", "Rack, improved", 2_000)));
}

#[test]
fn more_than_a_day_is_reported() {
    let t = 1_700_000_000;
    let mut store = table(vec![item("X", "Rack", t)]);
    let listed = table(vec![item("X", "Rack", 0)]);
    let changes = daily_new_item_check(&listed, &mut store, t + 86_401);
    assert_eq!(changes.len(), 1);
    assert_eq!(changes[0].write, StoreWrite::Update);
    assert_eq!(
        changes[0].notice,
        Some(Notice { opens_report: true, line: line("Rack", "X") })
    );
    assert_eq!(store.get("X"), Some(&item("X", "Rack", t + 86_401)));
}

#[test]
fn exactly_a_day_is_not_reported_but_updated() {
    let t = 1_700_000_000;
    let mut store = table(vec![item("X", "Rack", t)]);
    let listed = table(vec![item("X", "Renamed", 0)]);
    let changes = daily_new_item_check(&listed, &mut store, t + 86_400);
    assert_eq!(changes.len(), 1);
    assert_eq!(changes[0].write, StoreWrite::Update);
    assert_eq!(changes[0].notice, None);
    assert_eq!(store.len(), 1);
    assert_eq!(store.get("X"), Some(&item("X", "Renamed", t + 86_400)));
}

#[test]
fn heading_goes_before_the_first_report_only() {
    let t = 1_700_000_000;
    let mut store = table(vec![item("A", "Seen today", t - 10), item("B", "Back", t - 90_000)]);
    let listed = table(vec![
        item("A", "Seen today", 0),
        item("B", "Back", 0),
        item("C", "New", 0),
    ]);
    let changes = daily_new_item_check(&listed, &mut store, t);
    let notices: Vec<Option<Notice>> = changes.into_iter().map(|change| change.notice).collect();
    assert_eq!(
        notices,
        vec![
            None,
            Some(Notice { opens_report: true, line: line("Back", "B") }),
            Some(Notice { opens_report: false, line: line("New", "C") }),
        ]
    );
    assert_eq!(store.len(), 3);
}

#[test]
fn run_without_listed_items_changes_nothing() {
    let mut store = table(vec![item("A", "Rack", 5)]);
    let changes = daily_new_item_check(&ItemTable::new(), &mut store, 1_000);
    assert_eq!(changes, vec![]);
    assert_eq!(store.items(), &vec![item("A", "Rack", 5)]);
}

#[test]
fn observe_decides_one_item() {
    let stored = item("X", "Rack", 100);
    let late = observe(Some(&stored), item("X", "Rack", 0), 100 + 86_401, true);
    assert_eq!(late.item, item("X", "Rack", 100 + 86_401));
    assert_eq!(late.write, StoreWrite::Update);
    assert_eq!(late.notice, Some(Notice { opens_report: false, line: line("Rack", "X") }));
    let soon = observe(Some(&stored), item("X", "Rack", 0), 100 + 86_400, true);
    assert_eq!(soon.notice, None);
    let fresh = observe(None, item("X", "Rack", 0), 7, false);
    assert_eq!(fresh.write, StoreWrite::Insert);
    assert_eq!(fresh.notice, Some(Notice { opens_report: true, line: line("Rack", "X") }));
}

#[test]
fn record_from_the_future_is_not_reported() {
    let stored = item("X", "Rack", 5_000_000);
    let change = observe(Some(&stored), item("X", "Rack", 0), 1_000, false);
    assert_eq!(change.notice, None);
    assert_eq!(change.write, StoreWrite::Update);
    assert_eq!(change.item.last_seen, 1_000);
    let far = observe(Some(&item("X", "Rack", 0)), item("X", "Rack", 0), u64::MAX, false);
    assert!(far.notice.is_some());
}

#[test]
fn report_line_names_price_and_link() {
    let mut listed = item("X", "Power Rack", 0);
    listed.price = Price::Range("$10 - $20".to_string());
    assert_eq!(
        listed.report_line(),
        "new item: Power Rack: $10 - $20 (https://www.titan.fitness/X)"
    );
}

#[test]
fn heading_and_debug_file_carry_the_start_time() {
    assert_eq!(
        report_heading("2024-01-02 03:04:05 +00:00"),
        "TFS Report for 2024-01-02 03:04:05 +00:00"
    );
    assert_eq!(debug_file_name("2024-01-02 03:04:05 +00:00"), "2024-01-02 03:04:05 +00:00.html");
}
