pub mod block_index;
pub mod board_view;
pub mod scoreboard;
pub mod store;
pub mod time;

pub use block_index::BlockIndex;
pub use block_index::DisplayPointStatus;
pub use block_index::NUM_BLOCKS_PER_TURN;
