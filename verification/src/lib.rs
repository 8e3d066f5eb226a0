//! The core of a small HTTP/1.1 server for static content: a request is read from the bytes
//! of a connection, answered from what the file system holds below a root directory, changed
//! as its method asks, and written back as bytes. The library touches neither sockets nor
//! files: its caller reads and writes, and hands over what it found.
pub mod calendar;
pub mod filetype;
pub mod http;
pub mod path;
pub mod request;
pub mod response;
pub mod server;
pub mod text;
pub mod utils;
