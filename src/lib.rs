//! Protocol engine of a block-game server: the binary codec, the packet
//! model, the per-connection login state machine with its encryption
//! handshake, framing of inbound byte runs, and the bookkeeping of the
//! connection tables; beside them, the block, chunk and light storage that
//! the protocol's messages describe.
pub mod wire;
pub mod data_reader;
pub mod data_writer;
pub mod position;
pub mod framing;
pub mod text;
pub mod packet;
pub mod crypto;
pub mod server_hash;
pub mod login;
pub mod registry;
pub mod world;
pub mod chunk;
pub mod arrays;
pub mod light_grid;
pub mod event;
