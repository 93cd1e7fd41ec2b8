//! Logic of a Wi-Fi lamp that shows a colour and exchanges colours with a
//! partner lamp: form and message parsing, page templates, and the LED animation.

pub mod http_server;
pub mod led;
pub mod mqtt;
pub mod payload;
pub mod text;
pub mod utils;
pub mod wifi;
