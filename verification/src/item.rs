//! The item record and its price.

use vstd::prelude::*;
use vstd::string::StringExecFns;

verus! {

/// What a listing asks for an item.
///
/// The library does no arithmetic on prices: an amount is held as the decimal
/// text that writes it, a range as the text the listing gave.
#[derive(Debug, PartialEq, Eq)]
pub enum Price {
    /// One amount, as a decimal numeral.
    Single(String),
    /// A range of amounts in the listing's own words, such as "$10 - $20".
    Range(String),
}

/// The mathematical value of a [`Price`].
pub enum PriceView {
    Single(Seq<char>),
    Range(Seq<char>),
}

impl PriceView {
    /// The text a price is shown with.
    pub open spec fn text(self) -> Seq<char> {
        match self {
            PriceView::Single(amount) => amount,
            PriceView::Range(words) => words,
        }
    }

    /// The price of an item whose listing names none: the single amount zero.
    pub open spec fn zero() -> PriceView {
        PriceView::Single(seq!['0'])
    }
}

impl View for Price {
    type V = PriceView;

    open spec fn view(&self) -> PriceView {
        match self {
            Price::Single(amount) => PriceView::Single(amount@),
            Price::Range(words) => PriceView::Range(words@),
        }
    }
}

impl Default for Price {
    fn default() -> (price: Price)
        ensures
            price@ == PriceView::zero(),
    {
        proof {
            reveal_strlit("0");
        }
        let price = Price::Single(String::from_str("0"));
        assert(price@.text() =~= seq!['0']);
        price
    }
}

impl Clone for Price {
    fn clone(&self) -> (copy: Price)
        ensures
            copy@ == self@,
    {
        match self {
            Price::Single(amount) => Price::Single(amount.clone()),
            Price::Range(words) => Price::Range(words.clone()),
        }
    }
}

impl Price {
    /// The price as it is shown in a report.
    pub fn to_string(&self) -> (text: String)
        ensures
            text@ == self@.text(),
    {
        match self {
            Price::Single(amount) => amount.clone(),
            Price::Range(words) => words.clone(),
        }
    }

    /// The price of a listing whose price entry may be empty: the entry's
    /// price where there is one, zero where there is none.
    pub fn or_zero(entry: Option<Price>) -> (price: Price)
        ensures
            price@ == match entry {
                Some(given) => given@,
                None => PriceView::zero(),
            },
    {
        match entry {
            Some(given) => given,
            None => Price::default(),
        }
    }
}

/// One product listing.
#[derive(Debug, PartialEq, Eq)]
pub struct Item {
    /// Seconds since the epoch at which the item was last seen listed.
    pub last_seen: u64,
    pub name: String,
    /// The product id, by which records are told apart.
    pub id: String,
    pub price: Price,
    pub category: String,
    pub brand: String,
    pub position: String,
    pub list: String,
    /// The absolute address of the product page.
    pub link: String,
    pub back_in_stock: bool,
}

/// The mathematical value of an [`Item`].
pub struct ItemView {
    pub last_seen: u64,
    pub name: Seq<char>,
    pub id: Seq<char>,
    pub price: PriceView,
    pub category: Seq<char>,
    pub brand: Seq<char>,
    pub position: Seq<char>,
    pub list: Seq<char>,
    pub link: Seq<char>,
    pub back_in_stock: bool,
}

impl ItemView {
    /// The same record, seen at `now`.
    pub open spec fn seen_at(self, now: u64) -> ItemView {
        ItemView { last_seen: now, ..self }
    }

    /// The same record, with the product page at `link`.
    pub open spec fn linked_to(self, link: Seq<char>) -> ItemView {
        ItemView { link, ..self }
    }

    /// The line that reports the item: its name, price and link.
    pub open spec fn report_line(self) -> Seq<char> {
        "new item: "@ + self.name + ": "@ + self.price.text() + " ("@ + self.link + ")"@
    }
}

impl View for Item {
    type V = ItemView;

    open spec fn view(&self) -> ItemView {
        ItemView {
            last_seen: self.last_seen,
            name: self.name@,
            id: self.id@,
            price: self.price@,
            category: self.category@,
            brand: self.brand@,
            position: self.position@,
            list: self.list@,
            link: self.link@,
            back_in_stock: self.back_in_stock,
        }
    }
}

impl Clone for Item {
    fn clone(&self) -> (copy: Item)
        ensures
            copy@ == self@,
    {
        Item {
            last_seen: self.last_seen,
            name: self.name.clone(),
            id: self.id.clone(),
            price: self.price.clone(),
            category: self.category.clone(),
            brand: self.brand.clone(),
            position: self.position.clone(),
            list: self.list.clone(),
            link: self.link.clone(),
            back_in_stock: self.back_in_stock,
        }
    }
}

impl Item {
    /// The line that reports the item as new or back in the listing.
    pub fn report_line(&self) -> (line: String)
        ensures
            line@ == self@.report_line(),
    {
        let mut line = String::from_str("new item: ");
        line.append(self.name.as_str());
        line.append(": ");
        let price = self.price.to_string();
        line.append(price.as_str());
        line.append(" (");
        line.append(self.link.as_str());
        line.append(")");
        line
    }
}

} // verus!
