//! From the listing page to item records.
//!
//! Each product node of the page carries the item's data as a JSON payload
//! in an attribute, and an anchor that links to the product page. The
//! library finds the two for every product node; the payloads are decoded
//! by the program, and the library indexes what was decoded by product id.

use vstd::prelude::*;
use vstd::string::StringExecFns;

use crate::item::{Item, ItemView};
use crate::table::ItemTable;
use crate::text::{decimal, decimal_text};

verus! {

/// The selector of a product node.
pub const TOP_LEVEL: &'static str = ".product";

/// The selector, inside a product node, of the element with the payload.
pub const JSON: &'static str = ".gtmproduct";

/// The selector, inside a product node, of the anchor to the product page.
pub const LINK: &'static str = ".gtm-product-list.link";

/// The attribute that holds the payload.
pub const JSON_ATTRIBUTE: &'static str = "data-object";

/// The attribute that holds the anchor's address, relative to the site.
pub const LINK_ATTRIBUTE: &'static str = "href";

/// The origin of the site, which goes before an anchor's address.
pub const SITE: &'static str = "https://www.titan.fitness";

/// `scraper::Html`: a parsed page, as a tree of nodes.
#[verifier::external_type_specification]
#[verifier::external_body]
pub struct ExHtml(scraper::Html);

/// `scraper::Selector`: a parsed CSS selector group.
#[verifier::external_type_specification]
#[verifier::external_body]
pub struct ExSelector(scraper::Selector);

/// `scraper::ElementRef`: an element of a parsed page.
#[verifier::external_type_specification]
#[verifier::external_body]
pub struct ExElementRef<'a>(scraper::ElementRef<'a>);

/// `scraper::error::SelectorErrorKind`: why a text is no selector group.
#[verifier::external_type_specification]
#[verifier::external_body]
pub struct ExSelectorErrorKind(scraper::error::SelectorErrorKind);

/// The tree that `scraper::Html::parse_fragment` parses a text into.
pub uninterp spec fn parsed_fragment(text: Seq<char>) -> scraper::Html;

/// The selector that `scraper::Selector::parse` parses a text into, if the
/// text is a selector group.
pub uninterp spec fn parsed_selector(css: Seq<char>) -> Option<scraper::Selector>;

/// The elements of a tree that match a selector, in the order in which
/// `scraper::Html::select` yields them.
pub uninterp spec fn elements_matching(
    document: &scraper::Html,
    selector: scraper::Selector,
) -> Seq<scraper::ElementRef>;

/// The elements below `scope` that match a selector, in the order in which
/// `scraper::ElementRef::select` yields them.
pub uninterp spec fn descendants_matching(
    scope: scraper::ElementRef,
    selector: scraper::Selector,
) -> Seq<scraper::ElementRef>;

/// The value that `scraper::ElementRef::attr` finds for an element's
/// attribute, if the element has the attribute.
pub uninterp spec fn attribute_value(element: scraper::ElementRef, name: Seq<char>) -> Option<
    Seq<char>,
>;

/// `scraper::Html::parse_fragment`: the tree depends on the text alone.
pub assume_specification[ scraper::Html::parse_fragment ](fragment: &str) -> (document:
    scraper::Html)
    ensures
        document == parsed_fragment(fragment@),
;

/// `scraper::Selector::parse`: whether the text is a selector group, and
/// which, depends on the text alone.
pub assume_specification[ scraper::Selector::parse ](selectors: &str) -> (parsed: Result<
    scraper::Selector,
    scraper::error::SelectorErrorKind,
>)
    ensures
        match parsed {
            Ok(selector) => parsed_selector(selectors@) == Some(selector),
            Err(_) => parsed_selector(selectors@) is None,
        },
;

/// `scraper::ElementRef::attr`: the attribute's value, or `None` where the
/// element has no attribute of that name.
pub assume_specification<'a>[ scraper::ElementRef::<'a>::attr ](
    element: &scraper::ElementRef<'a>,
    attr: &str,
) -> (value: Option<&'a str>)
    ensures
        match value {
            Some(text) => attribute_value(*element, attr@) == Some(text@),
            None => attribute_value(*element, attr@) is None,
        },
;

/// `scraper::Html::select`, run to its end: every element of the tree that
/// matches the selector, in the order in which the iterator yields them.
#[verifier::external_body]
fn select_all<'a>(document: &'a scraper::Html, selector: &scraper::Selector) -> (found: Vec<
    scraper::ElementRef<'a>,
>)
    ensures
        found@ == elements_matching(document, *selector),
{
    document.select(selector).collect()
}

/// `scraper::ElementRef::select`, asked once: the first element below
/// `scope` that matches the selector, or `None` where none does.
#[verifier::external_body]
fn select_first<'a>(scope: scraper::ElementRef<'a>, selector: &scraper::Selector) -> (found: Option<
    scraper::ElementRef<'a>,
>)
    ensures
        match found {
            Some(element) => descendants_matching(scope, *selector).len() > 0
                && descendants_matching(scope, *selector)[0] == element,
            None => descendants_matching(scope, *selector).len() == 0,
        },
{
    scope.select(selector).next()
}

/// The first element below `scope` that matches the selector.
pub open spec fn first_match(scope: scraper::ElementRef, selector: scraper::Selector) -> Option<
    scraper::ElementRef,
> {
    let found = descendants_matching(scope, selector);
    if found.len() > 0 {
        Some(found[0])
    } else {
        None
    }
}

/// The payload and the link of a product node: the payload attribute of the
/// first element that matches `json_selector`, and the site's origin
/// followed by the address of the first anchor that matches `link_selector`.
/// There are none where one of the two elements, or its attribute, is
/// missing.
pub open spec fn parts_of(
    product: scraper::ElementRef,
    json_selector: scraper::Selector,
    link_selector: scraper::Selector,
) -> Option<(Seq<char>, Seq<char>)> {
    match first_match(product, json_selector) {
        None => None,
        Some(json_element) => match attribute_value(json_element, JSON_ATTRIBUTE@) {
            None => None,
            Some(json) => match first_match(product, link_selector) {
                None => None,
                Some(link_element) => match attribute_value(link_element, LINK_ATTRIBUTE@) {
                    None => None,
                    Some(address) => Some((json, SITE@ + address)),
                },
            },
        },
    }
}

/// Finds the payload and the link of a product node.
pub fn find_item_parts(
    product_frag: scraper::ElementRef,
    json_selector: &scraper::Selector,
    link_selector: &scraper::Selector,
) -> (parts: Option<(String, String)>)
    ensures
        match parts {
            Some((json, link)) => parts_of(product_frag, *json_selector, *link_selector) == Some(
                (json@, link@),
            ),
            None => parts_of(product_frag, *json_selector, *link_selector) is None,
        },
{
    let json_element = match select_first(product_frag, json_selector) {
        Some(element) => element,
        None => { return None; },
    };
    let json = match json_element.attr(JSON_ATTRIBUTE) {
        Some(text) => String::from_str(text),
        None => { return None; },
    };
    let link_element = match select_first(product_frag, link_selector) {
        Some(element) => element,
        None => { return None; },
    };
    let address = match link_element.attr(LINK_ATTRIBUTE) {
        Some(text) => text,
        None => { return None; },
    };
    let link = String::from_str(SITE).concat(address);
    Some((json, link))
}

/// The selectors by which a page is read.
pub struct Selectors {
    /// Matches the product nodes.
    pub top_level: scraper::Selector,
    /// Matches, inside a product node, the element with the payload.
    pub json: scraper::Selector,
    /// Matches, inside a product node, the anchor to the product page.
    pub link: scraper::Selector,
}

impl Selectors {
    /// The selectors that the three texts stand for, if each of them is a
    /// selector group.
    pub open spec fn parsed(top_level: Seq<char>, json: Seq<char>, link: Seq<char>) -> Option<
        Selectors,
    > {
        match (parsed_selector(top_level), parsed_selector(json), parsed_selector(link)) {
            (Some(top_level), Some(json), Some(link)) => Some(Selectors { top_level, json, link }),
            _ => None,
        }
    }

    /// The selectors of the retailer's listing page.
    pub open spec fn standard_parsed() -> Option<Selectors> {
        Selectors::parsed(TOP_LEVEL@, JSON@, LINK@)
    }

    /// Parses the three selectors; `None` where one of them is no selector
    /// group.
    pub fn parse(top_level: &str, json: &str, link: &str) -> (selectors: Option<Selectors>)
        ensures
            selectors == Selectors::parsed(top_level@, json@, link@),
    {
        let top_level = match scraper::Selector::parse(top_level) {
            Ok(selector) => selector,
            Err(_) => { return None; },
        };
        let json = match scraper::Selector::parse(json) {
            Ok(selector) => selector,
            Err(_) => { return None; },
        };
        let link = match scraper::Selector::parse(link) {
            Ok(selector) => selector,
            Err(_) => { return None; },
        };
        Some(Selectors { top_level, json, link })
    }

    /// Parses the selectors of the retailer's listing page.
    pub fn standard() -> (selectors: Option<Selectors>)
        ensures
            selectors == Selectors::standard_parsed(),
    {
        Selectors::parse(TOP_LEVEL, JSON, LINK)
    }
}

/// A product node of which both the payload and the link were found.
#[derive(Debug, PartialEq, Eq)]
pub struct Listing {
    /// The place of the node among the product nodes of the page, from 0.
    pub index: usize,
    /// The payload, still as JSON text.
    pub json: String,
    /// The absolute address of the product page.
    pub link: String,
}

/// The mathematical value of a [`Listing`].
pub struct ListingView {
    pub index: nat,
    pub json: Seq<char>,
    pub link: Seq<char>,
}

impl View for Listing {
    type V = ListingView;

    open spec fn view(&self) -> ListingView {
        ListingView { index: self.index as nat, json: self.json@, link: self.link@ }
    }
}

/// The values of a run of listings, in order.
pub open spec fn listing_views(listings: Seq<Listing>) -> Seq<ListingView> {
    listings.map_values(|listing: Listing| listing@)
}

/// The listings of a page, given what was found in each of its product
/// nodes: one for every node with parts, in the order of the nodes.
pub open spec fn listings_from(parts: Seq<Option<(Seq<char>, Seq<char>)>>) -> Seq<ListingView>
    decreases parts.len(),
{
    if parts.len() == 0 {
        Seq::empty()
    } else {
        let before = listings_from(parts.drop_last());
        match parts.last() {
            Some((json, link)) => before.push(
                ListingView { index: (parts.len() - 1) as nat, json, link },
            ),
            None => before,
        }
    }
}

/// What is found in each of the nodes.
pub open spec fn node_parts(nodes: Seq<scraper::ElementRef>, selectors: Selectors) -> Seq<
    Option<(Seq<char>, Seq<char>)>,
> {
    Seq::new(nodes.len(), |at: int| parts_of(nodes[at], selectors.json, selectors.link))
}

/// The listings of the page with the given text.
pub open spec fn page_listings(text: Seq<char>, selectors: Selectors) -> Seq<ListingView> {
    listings_from(
        node_parts(elements_matching(&parsed_fragment(text), selectors.top_level), selectors),
    )
}

/// Reads a page: finds its product nodes and, in each, the payload and the
/// link. A node that lacks one of them is passed over.
pub fn listings_in(text: &str, selectors: &Selectors) -> (listings: Vec<Listing>)
    ensures
        listing_views(listings@) == page_listings(text@, *selectors),
{
    let document = scraper::Html::parse_fragment(text);
    let nodes = select_all(&document, &selectors.top_level);
    let ghost parts = node_parts(nodes@, *selectors);
    let mut listings: Vec<Listing> = Vec::new();
    let mut index: usize = 0;
    assert(parts.take(0) =~= Seq::empty());
    assert(listing_views(listings@) =~= Seq::empty());
    while index < nodes.len()
        invariant
            index <= nodes.len(),
            parts == node_parts(nodes@, *selectors),
            listing_views(listings@) == listings_from(parts.take(index as int)),
        decreases nodes.len() - index,
    {
        let ghost before = listing_views(listings@);
        proof {
            assert(parts.take(index + 1).drop_last() =~= parts.take(index as int));
            assert(parts.take(index + 1).last() == parts[index as int]);
        }
        match find_item_parts(nodes[index], &selectors.json, &selectors.link) {
            Some((json, link)) => {
                let listing = Listing { index, json, link };
                listings.push(listing);
                assert(listing_views(listings@) =~= before.push(listing@));
            },
            None => {},
        }
        index += 1;
    }
    assert(parts.take(index as int) =~= parts);
    listings
}

/// Reads the retailer's listing page. `None` where the page's selectors
/// cannot be parsed.
pub fn product_listings(text: &str) -> (listings: Option<Vec<Listing>>)
    ensures
        match listings {
            Some(found) => Selectors::standard_parsed() matches Some(selectors) && listing_views(
                found@,
            ) == page_listings(text@, selectors),
            None => Selectors::standard_parsed() is None,
        },
{
    match Selectors::standard() {
        Some(selectors) => Some(listings_in(text, &selectors)),
        None => None,
    }
}

/// The values of decoded items, each with the link of its listing.
pub open spec fn linked_views(decoded: Seq<(Item, String)>) -> Seq<(ItemView, Seq<char>)> {
    decoded.map_values(|pair: (Item, String)| (pair.0@, pair.1@))
}

/// The items by their ids, each with its link in place. Where two items
/// share an id, the later one stands.
pub open spec fn indexed(decoded: Seq<(ItemView, Seq<char>)>) -> Map<Seq<char>, ItemView>
    decreases decoded.len(),
{
    if decoded.len() == 0 {
        Map::empty()
    } else {
        indexed(decoded.drop_last()).insert(
            decoded.last().0.id,
            decoded.last().0.linked_to(decoded.last().1),
        )
    }
}

/// Indexes the decoded items of a page by their ids. Each item comes with
/// the link of its listing, which is written over the item's own.
pub fn index_items(decoded: &Vec<(Item, String)>) -> (items: ItemTable)
    ensures
        items@ == indexed(linked_views(decoded@)),
{
    let ghost pairs = linked_views(decoded@);
    let mut items = ItemTable::new();
    let mut at: usize = 0;
    assert(pairs.take(0) =~= Seq::empty());
    while at < decoded.len()
        invariant
            at <= decoded.len(),
            pairs == linked_views(decoded@),
            items@ == indexed(pairs.take(at as int)),
        decreases decoded.len() - at,
    {
        let mut item = decoded[at].0.clone();
        item.link = decoded[at].1.clone();
        proof {
            assert(pairs.take(at + 1).drop_last() =~= pairs.take(at as int));
            assert(pairs.take(at + 1).last() == pairs[at as int]);
            assert(item@ == pairs[at as int].0.linked_to(pairs[at as int].1));
        }
        items.insert(item);
        at += 1;
    }
    assert(pairs.take(at as int) =~= pairs);
    items
}

/// The items that were decoded, each with the link of its listing, in the
/// order of the listings. `outcomes` holds, for each listing, the item that
/// its payload was decoded into, or `None` where it could not be decoded.
pub open spec fn decoded_pairs(listings: Seq<Listing>, outcomes: Seq<Option<Item>>) -> Seq<
    (Item, String),
>
    decreases listings.len(),
{
    if listings.len() == 0 || outcomes.len() != listings.len() {
        Seq::empty()
    } else {
        let before = decoded_pairs(listings.drop_last(), outcomes.drop_last());
        match outcomes.last() {
            Some(item) => before.push((item, listings.last().link)),
            None => before,
        }
    }
}

/// Reads the retailer's listing page into items by their ids.
///
/// `decode` is asked once for each listing of the page, in the page's
/// order, and turns the listing's payload into an item, or says `None`
/// where the payload cannot be decoded: such a listing is passed over.
/// Each item gets the link of its listing. Where two items share an id,
/// the later one stands.
///
/// The result is `None` where the page's selectors cannot be parsed.
pub fn html_to_items<F>(text: &str, decode: F) -> (items: Option<ItemTable>) where
    F: Fn(&Listing) -> Option<Item>,

    requires
        forall|listing: &Listing| #[trigger] decode.requires((listing,)),
    ensures
        match items {
            Some(table) => Selectors::standard_parsed() matches Some(selectors) && exists|
                listings: Seq<Listing>,
                outcomes: Seq<Option<Item>>,
            |
                {
                    &&& listing_views(listings) == page_listings(text@, selectors)
                    &&& outcomes.len() == listings.len()
                    &&& forall|k: int|
                        0 <= k < listings.len() ==> decode.ensures(
                            (&listings[k],),
                            #[trigger] outcomes[k],
                        )
                    &&& table@ == indexed(linked_views(decoded_pairs(listings, outcomes)))
                },
            None => Selectors::standard_parsed() is None,
        },
{
    let listings = match product_listings(text) {
        Some(found) => found,
        None => { return None; },
    };
    let mut decoded: Vec<(Item, String)> = Vec::new();
    let ghost mut outcomes: Seq<Option<Item>> = Seq::empty();
    let mut at: usize = 0;
    assert(listings@.take(0) =~= Seq::empty());
    while at < listings.len()
        invariant
            at <= listings.len(),
            outcomes.len() == at,
            forall|listing: &Listing| #[trigger] decode.requires((listing,)),
            forall|k: int|
                0 <= k < at ==> decode.ensures((&listings@[k],), #[trigger] outcomes[k]),
            decoded@ == decoded_pairs(listings@.take(at as int), outcomes),
        decreases listings.len() - at,
    {
        let outcome = decode(&listings[at]);
        let ghost longer = outcomes.push(outcome);
        proof {
            assert(listings@.take(at + 1).drop_last() =~= listings@.take(at as int));
            assert(longer.drop_last() =~= outcomes);
            assert(listings@.take(at + 1).last() == listings@[at as int]);
        }
        match outcome {
            Some(item) => {
                decoded.push((item, listings[at].link.clone()));
            },
            None => {},
        }
        proof {
            outcomes = longer;
            assert(decoded@ =~= decoded_pairs(listings@.take(at + 1), outcomes));
        }
        at += 1;
    }
    assert(listings@.take(at as int) =~= listings@);
    Some(index_items(&decoded))
}

/// The name of the file that keeps a payload which could not be decoded:
/// it tells the place of the payload's node among the product nodes.
pub fn diagnostic_file_name(index: usize) -> (name: String)
    ensures
        name@ == "item-"@ + decimal(index as nat) + ".json"@,
{
    let number = decimal_text(index as u64);
    String::from_str("item-").concat(number.as_str()).concat(".json")
}

/// The listings of a page are its product nodes with parts: every listing
/// holds the parts of the node at its index, every node with parts has a
/// listing, and the listings stand in the order of their nodes.
pub proof fn lemma_listings_are_the_nodes_with_parts(parts: Seq<Option<(Seq<char>, Seq<char>)>>)
    ensures
        forall|k: int|
            0 <= k < listings_from(parts).len() ==> {
                let listing = #[trigger] listings_from(parts)[k];
                listing.index < parts.len() && parts[listing.index as int] == Some(
                    (listing.json, listing.link),
                )
            },
        forall|at: int|
            0 <= at < parts.len() && (#[trigger] parts[at]) is Some ==> exists|k: int|
                0 <= k < listings_from(parts).len() && #[trigger] listings_from(parts)[k].index
                    == at,
        forall|j: int, k: int|
            0 <= j < k < listings_from(parts).len() ==> listings_from(parts)[j].index
                < listings_from(parts)[k].index,
    decreases parts.len(),
{
    if parts.len() > 0 {
        let shorter = parts.drop_last();
        lemma_listings_are_the_nodes_with_parts(shorter);
        let before = listings_from(shorter);
        let all = listings_from(parts);
        assert forall|at: int|
            0 <= at < parts.len() && (#[trigger] parts[at]) is Some implies exists|k: int|
            0 <= k < all.len() && #[trigger] all[k].index == at by {
            if at < shorter.len() {
                assert(shorter[at] is Some);
                let k = choose|k: int| 0 <= k < before.len() && #[trigger] before[k].index == at;
                assert(all[k].index == at);
            } else {
                assert(all[all.len() - 1].index == at);
            }
        }
        assert forall|k: int| 0 <= k < all.len() implies {
            let listing = #[trigger] all[k];
            listing.index < parts.len() && parts[listing.index as int] == Some(
                (listing.json, listing.link),
            )
        } by {
            if k < before.len() {
                let listing = before[k];
                assert(shorter[listing.index as int] == parts[listing.index as int]);
            }
        }
        assert forall|j: int, k: int| 0 <= j < k < all.len() implies all[j].index
            < all[k].index by {
            if k < before.len() {
                assert(before[j].index < before[k].index);
            } else {
                let listing = before[j];
                assert(listing.index < shorter.len());
            }
        }
    }
}

/// A product node without parts is passed over, and the listings of the
/// other nodes are what they would be with the parts in place: taking the
/// parts of one node away takes that node's listing away and no other.
pub proof fn lemma_node_without_parts_is_passed_over(
    parts: Seq<Option<(Seq<char>, Seq<char>)>>,
    at: int,
)
    requires
        0 <= at < parts.len(),
    ensures
        listings_from(parts.update(at, None)) == listings_from(parts).filter(
            |listing: ListingView| listing.index != at,
        ),
    decreases parts.len(),
{
    let others = |listing: ListingView| listing.index != at;
    let without = parts.update(at, None);
    let shorter = parts.drop_last();
    let before = listings_from(shorter);
    if at == parts.len() - 1 {
        assert(without.drop_last() =~= shorter);
        lemma_listings_are_the_nodes_with_parts(shorter);
        assert(before.filter(others) == before) by {
            assert forall|k: int| 0 <= k < before.len() implies others(#[trigger] before[k]) by {
                let listing = before[k];
                assert(listing.index < shorter.len());
            }
            lemma_filter_keeps_all(before, others);
        }
        match parts.last() {
            Some((json, link)) => {
                let listing = ListingView { index: (parts.len() - 1) as nat, json, link };
                before.lemma_filter_push(listing, others);
            },
            None => {},
        }
    } else {
        assert(without.drop_last() =~= shorter.update(at, None));
        assert(without.last() == parts.last());
        lemma_node_without_parts_is_passed_over(shorter, at);
        match parts.last() {
            Some((json, link)) => {
                let listing = ListingView { index: (parts.len() - 1) as nat, json, link };
                before.lemma_filter_push(listing, others);
            },
            None => {},
        }
    }
}

/// A filter that every element passes keeps the sequence as it is.
proof fn lemma_filter_keeps_all<A>(elements: Seq<A>, keep: spec_fn(A) -> bool)
    requires
        forall|k: int| 0 <= k < elements.len() ==> keep(#[trigger] elements[k]),
    ensures
        elements.filter(keep) == elements,
    decreases elements.len(),
{
    reveal(Seq::filter);
    if elements.len() > 0 {
        lemma_filter_keeps_all(elements.drop_last(), keep);
        assert(elements.drop_last().push(elements.last()) =~= elements);
    }
}

/// The values of what was decoded for each listing, in order.
pub open spec fn outcome_views(outcomes: Seq<Option<Item>>) -> Seq<Option<ItemView>> {
    outcomes.map_values(
        |outcome: Option<Item>|
            match outcome {
                Some(item) => Some(item@),
                None => None,
            },
    )
}

/// Reading a page twice gives the same items: where both readings find the
/// listings of the same text, and the payloads are decoded alike, the items
/// by their ids are the same.
pub proof fn lemma_same_page_same_items(
    text: Seq<char>,
    selectors: Selectors,
    first_listings: Seq<Listing>,
    first_outcomes: Seq<Option<Item>>,
    second_listings: Seq<Listing>,
    second_outcomes: Seq<Option<Item>>,
)
    requires
        listing_views(first_listings) == page_listings(text, selectors),
        listing_views(second_listings) == page_listings(text, selectors),
        first_outcomes.len() == first_listings.len(),
        second_outcomes.len() == second_listings.len(),
        outcome_views(first_outcomes) == outcome_views(second_outcomes),
    ensures
        indexed(linked_views(decoded_pairs(first_listings, first_outcomes))) == indexed(
            linked_views(decoded_pairs(second_listings, second_outcomes)),
        ),
{
    lemma_decoded_alike(first_listings, first_outcomes, second_listings, second_outcomes);
}

/// Listings with the same values, decoded alike, give the same items with
/// the same links.
proof fn lemma_decoded_alike(
    first_listings: Seq<Listing>,
    first_outcomes: Seq<Option<Item>>,
    second_listings: Seq<Listing>,
    second_outcomes: Seq<Option<Item>>,
)
    requires
        listing_views(first_listings) == listing_views(second_listings),
        first_outcomes.len() == first_listings.len(),
        second_outcomes.len() == second_listings.len(),
        outcome_views(first_outcomes) == outcome_views(second_outcomes),
    ensures
        linked_views(decoded_pairs(first_listings, first_outcomes)) == linked_views(
            decoded_pairs(second_listings, second_outcomes),
        ),
    decreases first_listings.len(),
{
    let count = first_listings.len();
    assert(listing_views(first_listings).len() == first_listings.len());
    assert(listing_views(second_listings).len() == second_listings.len());
    assert(outcome_views(first_outcomes).len() == first_outcomes.len());
    assert(outcome_views(second_outcomes).len() == second_outcomes.len());
    if count > 0 {
        let last = count - 1;
        assert(listing_views(first_listings)[last] == first_listings[last]@);
        assert(listing_views(second_listings)[last] == second_listings[last]@);
        assert(first_listings.last().link@ == second_listings.last().link@);
        assert(listing_views(first_listings)[last] == listing_views(second_listings)[last]);
        assert(outcome_views(first_outcomes)[last] == outcome_views(second_outcomes)[last]);
        assert(listing_views(first_listings.drop_last()) =~= listing_views(
            first_listings,
        ).drop_last());
        assert(listing_views(second_listings.drop_last()) =~= listing_views(
            second_listings,
        ).drop_last());
        assert(outcome_views(first_outcomes.drop_last()) =~= outcome_views(
            first_outcomes,
        ).drop_last());
        assert(outcome_views(second_outcomes.drop_last()) =~= outcome_views(
            second_outcomes,
        ).drop_last());
        lemma_decoded_alike(
            first_listings.drop_last(),
            first_outcomes.drop_last(),
            second_listings.drop_last(),
            second_outcomes.drop_last(),
        );
        let first_before = decoded_pairs(first_listings.drop_last(), first_outcomes.drop_last());
        let second_before = decoded_pairs(
            second_listings.drop_last(),
            second_outcomes.drop_last(),
        );
        assert(outcome_views(first_outcomes)[last] == match first_outcomes[last] {
            Some(item) => Some(item@),
            None => None,
        });
        assert(outcome_views(second_outcomes)[last] == match second_outcomes[last] {
            Some(item) => Some(item@),
            None => None,
        });
        match (first_outcomes.last(), second_outcomes.last()) {
            (Some(first_item), Some(second_item)) => {
                assert(first_item@ == second_item@);
                assert(linked_views(first_before.push((first_item, first_listings.last().link)))
                    =~= linked_views(first_before).push(
                    (first_item@, first_listings.last().link@),
                ));
                assert(linked_views(second_before.push((second_item, second_listings.last().link)))
                    =~= linked_views(second_before).push(
                    (second_item@, second_listings.last().link@),
                ));
            },
            _ => {},
        }
    }
}

/// The items that a decoder makes of the listings, each with the link of
/// its listing, in the order of the listings. The decoder says, for each
/// listing, the item that its payload stands for, if any.
pub open spec fn decoded_with(
    listings: Seq<ListingView>,
    decoder: spec_fn(ListingView) -> Option<ItemView>,
) -> Seq<(ItemView, Seq<char>)>
    decreases listings.len(),
{
    if listings.len() == 0 {
        Seq::empty()
    } else {
        let before = decoded_with(listings.drop_last(), decoder);
        match decoder(listings.last()) {
            Some(item) => before.push((item, listings.last().link)),
            None => before,
        }
    }
}

/// The items of the page with the given text, by their ids, where payloads
/// are decoded as the decoder says.
pub open spec fn page_items(
    text: Seq<char>,
    selectors: Selectors,
    decoder: spec_fn(ListingView) -> Option<ItemView>,
) -> Map<Seq<char>, ItemView> {
    indexed(decoded_with(page_listings(text, selectors), decoder))
}

/// The items of a page depend on its text alone: where what is decoded
/// for a listing depends on the listing alone, as the decoder says, every
/// reading of the text gives the items that the text and the decoder
/// determine, whatever was read before.
pub proof fn lemma_items_depend_on_the_text(
    text: Seq<char>,
    selectors: Selectors,
    decoder: spec_fn(ListingView) -> Option<ItemView>,
    listings: Seq<Listing>,
    outcomes: Seq<Option<Item>>,
)
    requires
        listing_views(listings) == page_listings(text, selectors),
        outcomes.len() == listings.len(),
        forall|k: int|
            0 <= k < listings.len() ==> #[trigger] outcome_views(outcomes)[k] == decoder(
                listings[k]@,
            ),
    ensures
        indexed(linked_views(decoded_pairs(listings, outcomes))) == page_items(
            text,
            selectors,
            decoder,
        ),
{
    lemma_decoded_as_the_decoder_says(decoder, listings, outcomes);
}

proof fn lemma_decoded_as_the_decoder_says(
    decoder: spec_fn(ListingView) -> Option<ItemView>,
    listings: Seq<Listing>,
    outcomes: Seq<Option<Item>>,
)
    requires
        outcomes.len() == listings.len(),
        forall|k: int|
            0 <= k < listings.len() ==> #[trigger] outcome_views(outcomes)[k] == decoder(
                listings[k]@,
            ),
    ensures
        linked_views(decoded_pairs(listings, outcomes)) == decoded_with(
            listing_views(listings),
            decoder,
        ),
    decreases listings.len(),
{
    let count = listings.len();
    assert(listing_views(listings).len() == count);
    if count > 0 {
        let last = count - 1;
        let earlier = listings.drop_last();
        let earlier_outcomes = outcomes.drop_last();
        assert(listing_views(earlier) =~= listing_views(listings).drop_last());
        assert(listing_views(listings).last() == listings[last]@);
        assert forall|k: int| 0 <= k < earlier.len() implies #[trigger] outcome_views(
            earlier_outcomes,
        )[k] == decoder(earlier[k]@) by {
            assert(outcome_views(outcomes)[k] == decoder(listings[k]@));
        }
        lemma_decoded_as_the_decoder_says(decoder, earlier, earlier_outcomes);
        assert(outcome_views(outcomes)[last] == decoder(listings[last]@));
        assert(outcome_views(outcomes)[last] == match outcomes[last] {
            Some(item) => Some(item@),
            None => None,
        });
        let before = decoded_pairs(earlier, earlier_outcomes);
        match outcomes.last() {
            Some(item) => {
                assert(linked_views(before.push((item, listings.last().link))) =~= linked_views(
                    before,
                ).push((item@, listings.last().link@)));
            },
            None => {},
        }
    } else {
        assert(linked_views(decoded_pairs(listings, outcomes)) =~= Seq::empty());
    }
}

} // verus!
