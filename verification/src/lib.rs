//! A best-fit memory allocator over a single fixed-capacity byte arena.
//!
//! The allocator keeps three structures: the arena itself (raw byte
//! storage), a size-ordered index of free blocks that answers best-fit
//! queries, and an id-ordered table of allocated blocks.  Allocation
//! selects the smallest free block that fits, splits off the unused
//! remainder, and assigns ids from a strictly increasing counter.  Freed
//! blocks return to the index with their exact extent: adjacent free
//! blocks are deliberately never coalesced, so fragmentation accumulates.
//!
//! A small textual command language (`INSERT`, `DELETE`, `FIND`, `READ`,
//! `UPDATE`, `DUMP`) drives the allocator; parsing one tokenized command
//! record into an operation lives in [`command`].

pub mod alloc_table;
pub mod arena;
pub mod block;
pub mod command;
pub mod free_index;
pub mod manager;
