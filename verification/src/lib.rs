//! Verified core of a webcam streaming and recording service: configuration
//! arithmetic, the recorder's command line and control loop, the HLS
//! playlist manager, the recording cleaner, and the text that the service
//! writes (unit file, default configuration, MJPEG multipart frames).
pub mod camera;
pub mod cleaner;
pub mod config;
pub mod order;
pub mod playlist;
pub mod recorder;
pub mod server;
pub mod service;
pub mod text;
