//! Fixed-capacity packet buffers drawn from a buffer pool.
//!
//! A [`Packet`] owns one byte region whose length never changes, plus a
//! logical length that marks how much of the region holds content. Every
//! operation keeps the logical length within the region, and the contracts
//! state exactly which bytes each operation writes.

mod packet;

pub use packet::{
    fill, is_truncation, lemma_truncate_idempotent, resized, splice, BufferPool, CapacityError,
    PacketBuffer,
    HeapBufferPool, Packet, PacketPool,
};
