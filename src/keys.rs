use vstd::prelude::*;
use vstd::string::StringExecFns;

verus! {

/// The identity of a message payload in the blob tier:
/// `(message_id, assignment_id, process_id, timestamp)`.
pub type BlobId = (String, Option<String>, String, String);

/// The text of the blob-tier key: process id, then timestamp, then message
/// id, then the assignment id where there is one, so that the entries of one
/// process lie together in time order.
pub open spec fn key_text(
    message_id: Seq<char>,
    assignment_id: Option<Seq<char>>,
    process_id: Seq<char>,
    timestamp: Seq<char>,
) -> Seq<char> {
    let base = "message___"@ + process_id + "___"@ + timestamp + "___"@ + message_id;
    match assignment_id {
        Some(a) => base + "___"@ + a,
        None => base,
    }
}

pub open spec fn opt_view(o: Option<String>) -> Option<Seq<char>> {
    match o {
        Some(s) => Some(s@),
        None => None,
    }
}

/// The decimal digit character of `d < 10`.
pub open spec fn digit_char(d: nat) -> char {
    seq!['0', '1', '2', '3', '4', '5', '6', '7', '8', '9'][d as int]
}

/// The decimal text of a natural number, without leading zeros.
pub open spec fn nat_text(n: nat) -> Seq<char>
    decreases n,
{
    if n < 10 {
        seq![digit_char(n)]
    } else {
        nat_text(n / 10).push(digit_char(n % 10))
    }
}

/// The decimal text of an integer: a minus sign before a negative one.
pub open spec fn int_text(v: int) -> Seq<char> {
    if v < 0 {
        seq!['-'] + nat_text((-v) as nat)
    } else {
        nat_text(v as nat)
    }
}

/// Relies on `i64::to_string` (std's `Display for i64`): the decimal text,
/// with a leading minus sign for a negative value.
#[verifier::external_body]
pub(crate) fn timestamp_text(t: i64) -> (r: String)
    ensures
        r@ == int_text(t as int),
{
    t.to_string()
}

/// Builds the blob-tier key of a message.
pub fn create_key(
    message_id: &str,
    assignment_id: &Option<String>,
    process_id: &str,
    timestamp: &str,
) -> (r: String)
    ensures
        r@ == key_text(message_id@, opt_view(*assignment_id), process_id@, timestamp@),
{
    let sep = "___";
    let mut key = String::from_str("message___");
    key.append(process_id);
    key.append(sep);
    key.append(timestamp);
    key.append(sep);
    key.append(message_id);
    match assignment_id {
        Some(a) => {
            key.append(sep);
            key.append(a.as_str());
        },
        None => {},
    }
    proof {
        reveal_strlit("message___");
        reveal_strlit("___");
    }
    key
}

} // verus!
