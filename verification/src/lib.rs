//! Depth reconciliation engine for a single instrument's L2 order book.
//!
//! The engine merges redundant incremental depth streams of one symbol into
//! a single book. Updates that arrive early wait in a buffer until the book
//! has reached them, updates that arrive late or twice are dropped, and when
//! nothing has been applied for too long the book is re-seated from a
//! snapshot.
//!
//! * [`decimal`] reads the decimal strings of the wire as fixed-point numbers.
//! * [`messages`] holds the typed records: updates, snapshots, price levels.
//! * [`order_book`] holds the book with its sequence cursor.
//! * [`event_buffer`] holds the pending updates and drains them into the book.
//! * [`recovery`] holds the inactivity watchdog and the recovery protocol.
//! * [`depth_feed`] says what a depth connection does with what it receives.
//!
//! Nothing here waits, sleeps or touches a socket. Whoever runs the engine
//! owns the book, the buffer, the instrument state and the watchdog, takes
//! whatever locks it keeps them under, and hands them to these functions.

pub mod decimal;
pub mod depth_feed;
pub mod event_buffer;
pub mod messages;
pub mod order_book;
pub mod prioritized;
pub mod recovery;
