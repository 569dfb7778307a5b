//! Constants, pagination and paging of listings.

pub mod constants;
pub mod pagination;
pub mod renderer;
