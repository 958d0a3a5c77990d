//! Name and maximum transmission unit (MTU) of the local network interface
//! that the operating system uses towards a destination address.
//!
//! The library holds the logic of the lookup: it builds the query messages
//! that the kernel's routing interfaces expect (netlink on Linux, routing
//! sockets on the BSDs and macOS), walks the answers, matches them to the
//! outstanding request and extracts the interface index, name and MTU. The
//! sockets and system calls themselves stay with the caller, which hands the
//! library the bytes it read and sends the bytes the library built.

pub mod align;
pub mod bsd;
pub mod bytes;
pub mod error;
pub mod linux;
pub mod netlink;
pub mod routesocket;
pub mod text;
pub mod windows;
