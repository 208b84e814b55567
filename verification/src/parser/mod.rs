pub mod block;
pub mod locality;
pub mod reencode;
pub mod roundtrip;
pub mod script;
pub mod tx;
pub mod undo;
pub mod varint;
pub mod wire;
pub mod xor;
