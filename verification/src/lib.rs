//! Column statistics for tables of text cells.
//!
//! A table is an ordered list of rows, each an ordered list of text cells. A
//! cell is numeric when it spells a decimal floating-point number; every other
//! cell, and every cell a row is too short to hold, is missing. The crate
//! classifies cells, counts missing values, picks the numeric series of a
//! column, orders a series of 64-bit floating-point bit patterns and reads the
//! five-number summary off it, and lays the results out as tables.
//!
//! The crate holds no floating-point arithmetic. A caller parses the cells
//! that the crate picked, hands their bit patterns back to have them ordered,
//! and takes sums, roots and the mean of two central members itself.
//!
//! - [`literal`]: which texts are numbers.
//! - [`column`]: the rows, the missing values and the numeric series of a
//!   column.
//! - [`moments`]: what the mean and the standard deviation divide by.
//! - [`pattern`]: what a bit pattern denotes.
//! - [`order`]: a series put in order.
//! - [`quartiles`]: the median and the five-number summary.
//! - [`report`]: the records of the preview and of the summary.
//! - [`visible`]: texts made fit to draw.
//! - [`table`]: the two tables as text.

pub mod column;
pub mod literal;
pub mod moments;
pub mod order;
pub mod pattern;
pub mod quartiles;
pub mod report;
pub mod table;
pub mod visible;

pub use column::{column_nas, column_numeric_rows, column_rows};
pub use literal::is_numeric_text;
pub use moments::{deviation_divisor, mean_divisor};
pub use order::sort_series;
pub use pattern::denotes_number;
pub use quartiles::{column_median, column_quartiles, Median, Quartiles};
pub use report::{preview_records, summary_records, ColumnTexts, QuartileTexts};
pub use table::{data_table, stats_table};
pub use visible::{visible_cells, visible_text};
