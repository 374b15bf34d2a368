//! The shapes of the data: what each authority sends, and the rows of the
//! relational schema.
pub mod database;
pub mod ist;
pub mod izm;
pub mod soap;
