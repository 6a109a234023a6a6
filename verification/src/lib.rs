pub mod io;
pub mod plaintext;
pub mod storage;
pub mod hashmap;
pub mod dispatch;
pub mod laws;
