//! Typed values of a triple store and their binary "lexical" storage forms.
//!
//! Every value is stored as a byte string that reads back as the value.
//! Numbers, calendar values and intervals are stored so that the bytewise
//! (lexicographic) order of the stored forms follows the order of the
//! values, and sorted dictionaries of encoded values sort by value.
pub mod bigendian;
pub mod binary;
pub mod calendar;
pub mod datatype;
pub mod dates;
pub mod duration;
pub mod endpoints;
pub mod interval;
pub mod interval_text;
pub mod iso;
pub mod lexical;
pub mod text;
pub mod time;
