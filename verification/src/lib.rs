//! Verified core of a viewer for the InfiRay P2Pro thermal camera.

pub mod bytes;
pub mod camera;
pub mod camera_config;
pub mod colormap;
pub mod device;
pub mod exchange;
pub mod icon;
pub mod panel;
pub mod protocol;
pub mod recording;
pub mod render;
pub mod save;
pub mod session;
pub mod stream;
pub mod text;
pub mod transport;
pub mod usb;
pub mod video;
