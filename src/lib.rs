//! A small client-record manager: a line-oriented text format, an in-memory
//! store of records with stable ordinals, a query engine that sorts and
//! filters records for display, and the key-driven session around them.
mod codec;
mod order;
mod query;
mod record;
mod session;
mod store;
mod text;

pub use codec::{
    create_database, decode, encode, lemma_round_trip, lines, record_text, scan, storable,
    storable_record, strip_cr,
};
pub use order::{
    goes_before, ints, is_stable_order, key_eq, key_lt, lemma_distinct_keys_reverse,
    lemma_equal_keys_keep_order, lemma_stable_order_unique, lex_lt, precedes, sort_order,
    sorted_order, text_key, SortMode, SortOrd,
};
pub use query::{
    display_row, has_substring, is_substring, keeps, lemma_query_repeatable,
    lemma_selection_filters, query_rows, row_of, rows_view, search_field, selection, texts,
    QueryMode,
};
pub use record::{views_of, Client, RecordView};
pub use session::{
    clamp_row, clients_key, delete_selected, editing_key, menu_index, next_query_mode,
    next_sort_mode, normal_key, row_above, row_below, shown, size, step, App, AppView, Event,
    Flow, InputMode, Key, MenuItem,
};
pub use store::{BazaDate, OutOfRange};
pub use text::{chars_of, decimal, decimal_string, digit_char, string_of};
