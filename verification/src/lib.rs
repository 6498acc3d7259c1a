//! The targets of a port scan: reading them from what the user typed, expanding
//! networks, leaving out what was excluded, and handing the result out whole or in
//! chunks of bounded size.
//!
//! Nothing here touches the network or the file system. A function that needs a name
//! looked up or a file read says so in its result; the caller does that work, records
//! the outcome and asks again.
pub mod address;
pub mod bindings;
pub mod chunk;
pub mod input;
pub mod ip;
pub mod laws;
pub mod lookup;
pub mod resolver;
pub mod select;
pub mod stream;
pub mod text;
mod walk;
