//! Locates editorial music reviews on third-party sites and extracts a
//! normalized record (rating, excerpt, byline, date) from semi-structured
//! HTML and JSON-LD, using only substring scanning.
pub mod allmusic;
pub mod bestfit;
pub mod chars;
pub mod codec;
pub mod excerpt;
pub mod html;
pub mod json;
pub mod ld;
pub mod matcher;
pub mod northern;
pub mod num;
pub mod pitchfork;
pub mod review;
pub mod scan;
pub mod text;
