//! Verified core of a photo booth: a phone serves as the camera, buttons take
//! pictures, each picture goes to the screen with a QR code that links to its
//! full version on the booth's picture server, and the phone can print it.
//!
//! - `payload`: the frame that carries a picture and its QR code to the screen.
//! - `picture`: naming, encoding and framing a snapshot.
//! - `server`: which file a picture request reads and how it is answered.
//! - `camera`: the commands and pipeline that bring in the camera, and the
//!   decisions on what they report.
//! - `nal`: batching the camera's H.264 stream into packets.
//! - `buttons`: the GPIO buttons and the serial button box.
//! - `phone`: copying a picture to the phone and tapping its print dialog.
//! - `files`: the newest file of a directory listing.
//! - `text`: decimal text of integers.

pub mod buttons;
pub mod camera;
pub mod files;
pub mod nal;
pub mod payload;
pub mod phone;
pub mod picture;
pub mod server;
pub mod text;
