//! Stock watching for a retailer's in-stock listing page.
//!
//! The library turns the listing page into item records, compares them with
//! the records already known, says which items are new or back after more
//! than a day, and writes the records of the last thirty days as CSV.
//! Reading the clock, the network, the database and the file system is left
//! to the program that uses the library.

pub mod detect;
pub mod error;
pub mod export;
pub mod extract;
pub mod fetch;
pub mod item;
pub mod query;
pub mod reading;
pub mod table;
pub mod text;

pub use crate::detect::{
    daily_new_item_check, debug_file_name, observe, report_heading, Change, Notice, StoreWrite,
    SECONDS_PER_DAY,
};
pub use crate::error::{closing_message, Error};
pub use crate::export::{
    add_line, csv_header, csv_record, current_as_csv, current_items, export_window, items_as_csv,
    EXPORT_WINDOW_DAYS, EXPORT_WINDOW_SECS,
};
pub use crate::extract::{
    diagnostic_file_name, find_item_parts, html_to_items, index_items, listings_in,
    product_listings, Listing, Selectors,
};
pub use crate::fetch::{request_html, FetchStep, MAX_RETRIES, RETRY_DELAY_SECS};
pub use crate::item::{Item, ItemView, Price, PriceView};
pub use crate::query::{ItemQueries, ItemQuery};
pub use crate::table::ItemTable;
pub use crate::text::decimal_text;
