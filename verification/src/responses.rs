use vstd::prelude::*;
use vstd::string::StringExecFns;

verus! {

/// Response for operations that return a simple status.
pub struct StatusResponse {
    pub status: String,
}

/// Response for get operations that return a value.
pub struct ValueResponse {
    pub key: String,
    pub value: Option<String>,
    pub found: bool,
}

/// Response for listing all keys.
pub struct KeysResponse {
    pub keys: Vec<String>,
    pub count: usize,
}

/// Error response with more detailed information.
pub struct ErrorResponse {
    pub error: &'static str,
    pub message: String,
}

impl StatusResponse {
    pub fn ok() -> (r: Self)
        ensures
            r.status@ == "OK"@,
    {
        StatusResponse { status: "OK".to_owned() }
    }

    pub fn deleted() -> (r: Self)
        ensures
            r.status@ == "Deleted"@,
    {
        StatusResponse { status: "Deleted".to_owned() }
    }

    pub fn error(msg: String) -> (r: Self)
        ensures
            r.status == msg,
    {
        StatusResponse { status: msg }
    }
}

impl ValueResponse {
    pub fn found(key: String, value: String) -> (r: Self)
        ensures
            r.key == key,
            r.value == Some(value),
            r.found,
    {
        ValueResponse { key, value: Some(value), found: true }
    }

    pub fn not_found(key: String) -> (r: Self)
        ensures
            r.key == key,
            r.value is None,
            !r.found,
    {
        ValueResponse { key, value: None, found: false }
    }
}

impl KeysResponse {
    pub fn new(keys: Vec<String>) -> (r: Self)
        ensures
            r.keys == keys,
            r.count == keys@.len(),
    {
        let count = keys.len();
        KeysResponse { keys, count }
    }

    pub fn error(msg: &str) -> (r: Self)
        ensures
            r.keys@.len() == 1,
            r.keys@[0]@ == "Error: "@ + msg@,
            r.count == 0,
    {
        let text = "Error: ".to_owned().concat(msg);
        let mut keys: Vec<String> = Vec::new();
        keys.push(text);
        KeysResponse { keys, count: 0 }
    }
}

} // verus!
