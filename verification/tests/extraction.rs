use titan_fitness_stock::{
    diagnostic_file_name, find_item_parts, html_to_items, index_items, listings_in,
    product_listings, Item, ItemTable, Listing, Price, Selectors,
};

const SITE: &str = "https://www.titan.fitness";

fn payload(id: &str, name: &str, price: &str) -> String {
    format!(
        "{{\"name\":\"{}\",\"id\":\"{}\",\"price\":{},\"category\":\"Racks\",\"brand\":\"Titan\",\"position\":\"1\",\"list\":\"In Stock\"}}",
        name, id, price
    )
}

fn product(payload: Option<&str>, href: Option<&str>) -> String {
    let mut html = String::from("<div class=\"product\">");
    match payload {
        Some(json) => html.push_str(&format!(
            "<div class=\"gtmproduct\" data-object='{}'></div>",
            json
        )),
        None => html.push_str("<div class=\"gtmproduct\"></div>"),
    }
    match href {
        Some(address) => html.push_str(&format!(
            "<a class=\"gtm-product-list link\" href=\"{}\">see</a>",
            address
        )),
        None => html.push_str("<a class=\"gtm-product-list link\">see</a>"),
    }
    html.push_str("</div>");
    html
}

fn field(value: &serde_json::Value, key: &str) -> Option<String> {
    value.get(key)?.as_str().map(|text| text.to_string())
}

fn decode(listing: &Listing) -> Option<Item> {
    let value: serde_json::Value = serde_json::from_str(&listing.json).ok()?;
    let price = match value.get("price") {
        None => None,
        Some(entry) if entry.is_null() => None,
        Some(entry) => match entry.as_f64() {
            Some(amount) => Some(Price::Single((amount as f32).to_string())),
            None => Some(Price::Range(entry.as_str()?.to_string())),
        },
    };
    Some(Item {
        last_seen: 0,
        name: field(&value, "name")?,
        id: field(&value, "id")?,
        price: Price::or_zero(price),
        category: field(&value, "category")?,
        brand: field(&value, "brand")?,
        position: field(&value, "position")?,
        list: field(&value, "list")?,
        link: String::new(),
        back_in_stock: false,
    })
}

fn item(id: &str, name: &str, price: Price, link: &str) -> Item {
    Item {
        last_seen: 0,
        name: name.to_string(),
        id: id.to_string(),
        price,
        category: "Racks".to_string(),
        brand: "Titan".to_string(),
        position: "1".to_string(),
        list: "In Stock".to_string(),
        link: link.to_string(),
        back_in_stock: false,
    }
}

fn contents(table: &ItemTable) -> Vec<Item> {
    table.items().clone()
}

#[test]
fn listings_hold_payload_and_absolute_link() {
    let json = payload("A1", "Rack", "199.99");
    let html = product(Some(&json), Some("/rack/a1.html"));
    let listings = product_listings(&html).expect("the page's selectors parse");
    assert_eq!(
        listings,
        vec![Listing { index: 0, json: json.clone(), link: format!("{}/rack/a1.html", SITE) }]
    );
}

#[test]
fn page_without_products_has_no_listings() {
    assert_eq!(product_listings("<p>nothing in stock</p>"), Some(vec![]));
    assert_eq!(product_listings(""), Some(vec![]));
}

#[test]
fn node_without_payload_attribute_is_excluded() {
    let first = payload("A1", "Rack", "10");
    let third = payload("C3", "Bench", "30");
    let html = format!(
        "{}{}{}",
        product(Some(&first), Some("/a1")),
        product(None, Some("/b2")),
        product(Some(&third), Some("/c3"))
    );
    let listings = product_listings(&html).unwrap();
    assert_eq!(
        listings,
        vec![
            Listing { index: 0, json: first, link: format!("{}/a1", SITE) },
            Listing { index: 2, json: third, link: format!("{}/c3", SITE) },
        ]
    );
}

#[test]
fn node_without_link_href_is_excluded() {
    let first = payload("A1", "Rack", "10");
    let second = payload("B2", "Bar", "20");
    let html = format!(
        "{}{}",
        product(Some(&first), None),
        product(Some(&second), Some("/b2"))
    );
    let listings = product_listings(&html).unwrap();
    assert_eq!(listings, vec![Listing { index: 1, json: second, link: format!("{}/b2", SITE) }]);
}

#[test]
fn node_without_payload_element_or_anchor_is_excluded() {
    let json = payload("A1", "Rack", "10");
    let no_anchor = format!(
        "<div class=\"product\"><div class=\"gtmproduct\" data-object='{}'></div></div>",
        json
    );
    let no_payload =
        "<div class=\"product\"><a class=\"gtm-product-list link\" href=\"/a1\">see</a></div>";
    assert_eq!(product_listings(&no_anchor), Some(vec![]));
    assert_eq!(product_listings(no_payload), Some(vec![]));
}

#[test]
fn only_the_first_matching_element_is_asked_for_its_attribute() {
    let json = payload("A1", "Rack", "10");
    let html = format!(
        "<div class=\"product\"><div class=\"gtmproduct\"></div><div class=\"gtmproduct\" data-object='{}'></div><a class=\"gtm-product-list link\" href=\"/a1\">see</a></div>",
        json
    );
    assert_eq!(product_listings(&html), Some(vec![]));
}

#[test]
fn anchor_needs_both_classes() {
    let json = payload("A1", "Rack", "10");
    let html = format!(
        "<div class=\"product\"><div class=\"gtmproduct\" data-object='{}'></div><a class=\"link\" href=\"/a1\">see</a></div>",
        json
    );
    assert_eq!(product_listings(&html), Some(vec![]));
}

#[test]
fn find_item_parts_reads_one_node() {
    let json = payload("A1", "Rack", "10");
    let html = product(Some(&json), Some("/rack/a1.html"));
    let document = scraper::Html::parse_fragment(&html);
    let top = scraper::Selector::parse(".product").unwrap();
    let json_selector = scraper::Selector::parse(".gtmproduct").unwrap();
    let link_selector = scraper::Selector::parse(".gtm-product-list.link").unwrap();
    let node = document.select(&top).next().unwrap();
    assert_eq!(
        find_item_parts(node, &json_selector, &link_selector),
        Some((json, format!("{}/rack/a1.html", SITE)))
    );
}

#[test]
fn find_item_parts_of_a_bare_node_is_none() {
    let document = scraper::Html::parse_fragment("<div class=\"product\"></div>");
    let top = scraper::Selector::parse(".product").unwrap();
    let json_selector = scraper::Selector::parse(".gtmproduct").unwrap();
    let link_selector = scraper::Selector::parse(".gtm-product-list.link").unwrap();
    let node = document.select(&top).next().unwrap();
    assert_eq!(find_item_parts(node, &json_selector, &link_selector), None);
}

#[test]
fn selectors_of_a_test_page() {
    let selectors = Selectors::parse("li.entry", "span.data", "a").expect("selectors parse");
    let html = "<ul><li class=\"entry\"><span class=\"data\" data-object=\"x\"></span><a href=\"/one\">1</a></li><li class=\"entry\"><a href=\"/two\">2</a></li></ul>";
    assert_eq!(
        listings_in(html, &selectors),
        vec![Listing { index: 0, json: "x".to_string(), link: format!("{}/one", SITE) }]
    );
}

#[test]
fn text_that_is_no_selector_gives_no_selectors() {
    assert!(Selectors::parse(".product", "..", ".link").is_none());
    assert!(Selectors::parse("", ".gtmproduct", ".link").is_none());
    assert!(Selectors::standard().is_some());
}

#[test]
fn items_are_indexed_by_id_with_their_links() {
    let html = format!(
        "{}{}",
        product(Some(&payload("A1", "Rack", "199.99")), Some("/a1")),
        product(Some(&payload("B2", "Plates", "\"$10 - $20\"")), Some("/b2"))
    );
    let items = html_to_items(&html, decode).unwrap();
    assert_eq!(items.len(), 2);
    assert_eq!(
        items.get("A1"),
        Some(&item("A1", "Rack", Price::Single("199.99".to_string()), &format!("{}/a1", SITE)))
    );
    assert_eq!(
        items.get("B2"),
        Some(&item("B2", "Plates", Price::Range("$10 - $20".to_string()), &format!("{}/b2", SITE)))
    );
    assert_eq!(items.get("C3"), None);
}

#[test]
fn payload_that_cannot_be_decoded_is_skipped() {
    let html = format!(
        "{}{}{}",
        product(Some(&payload("A1", "Rack", "1")), Some("/a1")),
        product(Some("{not json"), Some("/b2")),
        product(Some(&payload("C3", "Bench", "3")), Some("/c3"))
    );
    let asked = std::cell::RefCell::new(Vec::new());
    let items = html_to_items(&html, |listing: &Listing| {
        asked.borrow_mut().push(listing.index);
        decode(listing)
    })
    .unwrap();
    assert_eq!(asked.into_inner(), vec![0, 1, 2]);
    assert_eq!(items.len(), 2);
    assert!(items.get("A1").is_some());
    assert!(items.get("C3").is_some());
}

#[test]
fn null_price_is_the_zero_single_price() {
    let html = product(Some(&payload("A1", "Rack", "null")), Some("/a1"));
    let items = html_to_items(&html, decode).unwrap();
    assert_eq!(items.get("A1").unwrap().price, Price::Single("0".to_string()));
}

#[test]
fn later_listing_of_an_id_wins() {
    let html = format!(
        "{}{}{}",
        product(Some(&payload("A1", "Old", "1")), Some("/old")),
        product(Some(&payload("B2", "Other", "2")), Some("/b2")),
        product(Some(&payload("A1", "New", "3")), Some("/new"))
    );
    let items = html_to_items(&html, decode).unwrap();
    assert_eq!(items.len(), 2);
    assert_eq!(
        items.get("A1"),
        Some(&item("A1", "New", Price::Single("3".to_string()), &format!("{}/new", SITE)))
    );
}

#[test]
fn extracting_twice_gives_the_same_items() {
    let html = format!(
        "{}{}{}",
        product(Some(&payload("A1", "Rack", "199.99")), Some("/a1")),
        product(None, Some("/b2")),
        product(Some(&payload("C3", "Bench", "null")), Some("/c3"))
    );
    let first = html_to_items(&html, decode).unwrap();
    let second = html_to_items(&html, decode).unwrap();
    assert_eq!(contents(&first), contents(&second));
    assert_eq!(product_listings(&html), product_listings(&html));
}

#[test]
fn index_items_writes_the_link_over_the_items_own() {
    let decoded = vec![
        (item("A1", "Rack", Price::default(), "stale"), "fresh".to_string()),
        (item("B2", "Bar", Price::default(), ""), "other".to_string()),
    ];
    let items = index_items(&decoded);
    assert_eq!(
        contents(&items),
        vec![
            item("A1", "Rack", Price::default(), "fresh"),
            item("B2", "Bar", Price::default(), "other"),
        ]
    );
    assert_eq!(index_items(&Vec::new()).len(), 0);
}

#[test]
fn diagnostic_file_is_named_by_the_node_index() {
    assert_eq!(diagnostic_file_name(0), "item-0.json");
    assert_eq!(diagnostic_file_name(7), "item-7.json");
    assert_eq!(diagnostic_file_name(120), "item-120.json");
}
