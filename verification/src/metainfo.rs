//! The metainfo file: what a `.torrent` file says of a torrent.

pub mod error;
pub mod file;
pub mod info;
pub mod laws;
pub mod md5;
pub mod piece;
pub mod torrent;

pub use error::MetainfoError;
pub use file::{File, FileView};
pub use info::{Info, InfoView};
pub use md5::Md5Value;
pub use piece::Piece;
pub use torrent::{MetainfoFile, MetainfoView};
