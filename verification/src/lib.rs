//! In-memory message paging and garbage collection for a per-topic
//! message store. Messages arrive under monotonically increasing ids;
//! the id space is partitioned into fixed-size pages and finer
//! sub-pages, resident content stays addressable by id, pending
//! durable flushes are tracked, and content below a caller-given
//! threshold is reclaimed — all with compact range bookkeeping, since
//! traffic is overwhelmingly sequential.

mod clock;
pub mod message;
pub mod messages_page;
pub mod messages_page_cache;
pub mod page_id;
pub mod queue_with_intervals;
pub mod range_sums;
pub mod size_and_amount;
pub mod sub_page;
pub mod sub_page_id;
