//! A personal time log: sessions are clocked in and out, kept as rows of
//! comma-separated fields, and summed into a total elapsed time.
pub mod calendar;
pub mod text;
pub mod store;
pub mod clock;
pub mod codec;
pub mod laws;

