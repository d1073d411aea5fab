//! The `.tnum` text format of numeric datasets.
//!
//! A file is a stream of tokens: bare words and numbers, and quoted texts.
//! `#` outside quotes starts a comment up to the end of the line. The first
//! version of the format knows feature types only:
//!
//! ```text
//! TRNUM1 / inputs 2 / outputs 1 / specs C K:3 / rows 2 / data / ...
//! ```
//!
//! The second adds names, units and the labels of category levels, in quotes:
//!
//! ```text
//! TRNUM2
//! inputs 2
//! outputs 1
//! specs C K:3
//! names "temperature, °C" "material" "moisture"
//! units "°C" - "%"
//! levels 1 "sand" "clay" "peat"
//! rows 2
//! data
//! 80 0 12.5
//! 60 2 18.1
//! ```

pub mod header;
pub mod message;
pub mod round_trip;
pub mod stream;
pub mod token;
pub mod values;
pub mod writer;
