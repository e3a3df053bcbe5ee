//! Intel Indeo 3 (`IV31` / `IV32`) decoding: headers, the mode-byte
//! entropy layer, the binary-tree cell decoder over the geometry banks,
//! cell reconstruction, output assembly and the inter-frame session.
pub mod common;
pub mod indeo3;
