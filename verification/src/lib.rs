//! Regional disease statistics: region identifiers and their hierarchy, the
//! population that holds in a region on a date, and the totals and the course
//! of a disease by region.

pub mod date;
pub mod disease;
pub mod error;
pub mod geolocation;
pub mod id;
pub mod news;
pub mod population;
pub mod region;
pub mod text;
pub mod timeline;
pub mod util;
