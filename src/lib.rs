//! Monetary amounts held as integer counts of minor units, scoped to a
//! currency descriptor, with currency-aware arithmetic and a grouped,
//! fixed-point textual rendering.

mod amount;
mod currency;
mod display;
mod grouping;
mod text;

pub use amount::{fits_i64, lemma_add_sub_other_currency, lemma_add_sub_same_currency, Amount};
pub use currency::{opt_text, Currency};
pub use display::{
    decimal_count, decimal_digits, digit_char, is_digit, lemma_fraction_digits,
    lemma_text_without_group_marks, magnitude, pow10, rendered,
};
pub use grouping::{grouped, lemma_grouping_strips_back, other_than, strip_marks};
