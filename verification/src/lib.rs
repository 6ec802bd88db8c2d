//! Recovers embedded protobuf file descriptors from raw binary images and
//! renders them back as `.proto` source text.

pub mod util;
pub mod wire;
pub mod scanner;
pub mod descriptor;
pub mod proto;
pub mod collector;
pub mod text;

pub mod dumper;
pub mod options;
pub mod render;
