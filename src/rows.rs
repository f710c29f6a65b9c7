use vstd::prelude::*;

verus! {

#[verifier::external_type_specification]
#[verifier::external_body]
pub struct ExJsonValue(serde_json::Value);

/// A stored process.
pub struct DbProcess {
    pub row_id: i32,
    pub process_id: String,
    pub process_data: serde_json::Value,
    pub bundle: Vec<u8>,
}

/// A stored message with its payload and document body.
pub struct DbMessage {
    pub row_id: i32,
    pub process_id: String,
    pub message_id: String,
    pub assignment_id: Option<String>,
    pub message_data: serde_json::Value,
    pub epoch: i32,
    pub nonce: i32,
    pub timestamp: i64,
    pub bundle: Vec<u8>,
    pub hash_chain: String,
}

/// The lightweight columns of a stored message: no payload, no document.
pub struct DbMessageWithoutData {
    pub row_id: i32,
    pub process_id: String,
    pub message_id: String,
    pub assignment_id: Option<String>,
    pub epoch: i32,
    pub nonce: i32,
    pub timestamp: i64,
    pub hash_chain: String,
}

/// A message row to insert; the surrogate id is given by the store.
pub struct NewMessage {
    pub process_id: String,
    pub message_id: String,
    pub assignment_id: String,
    pub message_data: serde_json::Value,
    pub bundle: Vec<u8>,
    pub epoch: i32,
    pub nonce: i32,
    pub timestamp: i64,
    pub hash_chain: String,
}

/// A process row to insert.
pub struct NewProcess {
    pub process_id: String,
    pub process_data: serde_json::Value,
    pub bundle: Vec<u8>,
}

/// A stored scheduler.
pub struct DbScheduler {
    pub row_id: i32,
    pub url: String,
    pub process_count: i32,
}

/// A scheduler row to insert.
pub struct NewScheduler {
    pub url: String,
    pub process_count: i32,
}

/// A stored binding of a process to a scheduler.
pub struct DbProcessScheduler {
    pub row_id: i32,
    pub process_id: String,
    pub scheduler_row_id: i32,
}

/// A binding of a process to a scheduler, to insert.
pub struct NewProcessScheduler {
    pub process_id: String,
    pub scheduler_row_id: i32,
}

} // verus!
