//! The verified core of an internet radio player.
//!
//! From the station list to the samples: [`dataset`], [`station`] and [`station_cache`] read the
//! list, [`player`] finds the stream behind a station's URL and runs a session, [`net`], [`hls`],
//! [`m3u8`], [`segment`] and [`ts_demuxer`] get at its bytes, [`byte_queue`] hands them on,
//! [`format`] and [`adts`] make them readable, and [`audio`] takes the samples to the device.
//! [`ui`], [`level_meter`] and [`fonts`] are what the window shows.
//!
//! Nothing here touches the network, the disk, a device or a clock. Where the work alternates
//! with such things, a type here decides what is done next, and its caller does it and reports
//! what came of it.

pub mod adts;
pub mod audio;
pub mod byte_queue;
pub mod bytes;
pub mod dataset;
pub mod fonts;
pub mod format;
pub mod hls;
pub mod json;
pub mod level_meter;
pub mod m3u8;
pub mod net;
pub mod player;
pub mod segment;
pub mod station;
pub mod station_cache;
pub mod text;
pub mod ts_demuxer;
pub mod ui;
