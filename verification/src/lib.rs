//! Decoding, filtering and summarising of a transit vehicle-position feed.
//!
//! A feed arrives as one Protocol Buffers message. [`codec`] turns the bytes
//! into a [`model::FeedMessage`] over the wire format of [`wire`], [`filter`]
//! selects the vehicles of a route, and [`render`] produces one display
//! record per selected vehicle, with the compass point that [`bearing`]
//! gives for its heading. [`report`] does the three in a row. [`encode`]
//! writes a feed back to bytes, and [`roundtrip`] proves that decoding gives
//! back what was written.

pub mod bearing;
pub mod codec;
pub mod encode;
pub mod filter;
pub mod model;
pub mod render;
pub mod report;
pub mod roundtrip;
pub mod text;
pub mod wire;
