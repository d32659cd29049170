//! Read-receipt state for message threads: a durable ledger of which
//! messages were read on any linked device, a resolver that turns a chat
//! identifier into a typed thread handle, the thread-level operations that
//! overlay and record read state, and the choice of a message's recipient.

pub mod paths;
pub mod thread_id;
pub mod ledger;
pub mod conversation;
pub mod recipient;
pub mod receive;
