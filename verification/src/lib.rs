//! Thread-safe swap chains.
//!
//! A swap chain hands render-target buffers ("surfaces") between one
//! *producer* context, which draws, and any number of *consumer* threads,
//! which take a finished surface for display and return it for recycling.
//! Each swap chain has a *back buffer* (the surface the producer may draw
//! to), a *front buffer* (the most recently finished surface, pending
//! consumption), and a pool of recycled surfaces eligible for size-matched
//! reuse.
//!
//! The producer *swaps* the buffers when a frame is finished; consumers
//! *take* the front buffer and later *recycle* it. A swap chain is either
//! *attached* (its back buffer is the current surface of the producer
//! context) or *detached* (it holds its own back buffer). A registry indexes
//! swap chains by identity and by owning context, for bulk teardown.
//!
//! Platform surface allocation and binding is abstracted behind the
//! [`device::Device`] capability; the buffer-management policy behind the
//! [`provider::SurfaceProvider`] trait.

pub mod chain;
pub mod context;
pub mod device;
pub mod error;
pub mod mock;
pub mod provider;
pub mod registry;
pub mod surface;
