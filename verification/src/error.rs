use vstd::prelude::*;
use vstd::string::StringExecFns;

verus! {

/// The failures a store operation can report. Size and count ceilings carry
/// the offending size and the configured maximum; I/O and serialization
/// failures carry a description supplied by the caller that hit them.
#[derive(Debug)]
pub enum KlineError {
    KeyNotFound { key: String },
    KeyExpired { key: String },
    KeyTooLarge { size: usize, max: usize },
    ValueTooLarge { size: usize, max: usize },
    InvalidTtl { ttl: u64 },
    DatabaseFull { current: usize, max: usize },
    ConfigParse { reason: String },
    ConfigSerialize { reason: String },
    Io(String),
    Serialization(String),
    InvalidKeyFormat,
    LockPoisoned,
}

/// The decimal digit character of `d`.
pub open spec fn spec_digit(d: nat) -> char {
    if d == 0 {
        '0'
    } else if d == 1 {
        '1'
    } else if d == 2 {
        '2'
    } else if d == 3 {
        '3'
    } else if d == 4 {
        '4'
    } else if d == 5 {
        '5'
    } else if d == 6 {
        '6'
    } else if d == 7 {
        '7'
    } else if d == 8 {
        '8'
    } else {
        '9'
    }
}

/// The decimal rendering of `n`, most significant digit first, no leading
/// zeros except for zero itself.
pub open spec fn spec_dec(n: nat) -> Seq<char>
    decreases n,
{
    if n < 10 {
        seq![spec_digit(n)]
    } else {
        spec_dec(n / 10).push(spec_digit(n % 10))
    }
}

fn digit_str(d: u64) -> (s: &'static str)
    requires
        d < 10,
    ensures
        s@ == seq![spec_digit(d as nat)],
{
    let s: &'static str = if d == 0 {
        "0"
    } else if d == 1 {
        "1"
    } else if d == 2 {
        "2"
    } else if d == 3 {
        "3"
    } else if d == 4 {
        "4"
    } else if d == 5 {
        "5"
    } else if d == 6 {
        "6"
    } else if d == 7 {
        "7"
    } else if d == 8 {
        "8"
    } else {
        "9"
    };
    proof {
        reveal_strlit("0");
        reveal_strlit("1");
        reveal_strlit("2");
        reveal_strlit("3");
        reveal_strlit("4");
        reveal_strlit("5");
        reveal_strlit("6");
        reveal_strlit("7");
        reveal_strlit("8");
        reveal_strlit("9");
        assert(s@ =~= seq![spec_digit(d as nat)]);
    }
    s
}

/// Renders `n` in decimal.
pub fn u64_to_string(n: u64) -> (s: String)
    ensures
        s@ == spec_dec(n as nat),
    decreases n,
{
    if n < 10 {
        digit_str(n).to_owned()
    } else {
        let prefix = u64_to_string(n / 10);
        let s = prefix.concat(digit_str(n % 10));
        proof {
            assert(s@ =~= spec_dec(n as nat));
        }
        s
    }
}

/// What each error reports, as the caller-facing text.
pub open spec fn spec_message(e: KlineError) -> Seq<char> {
    match e {
        KlineError::KeyNotFound { key } => "Key not found: "@ + key@,
        KlineError::KeyExpired { key } => "Key expired: "@ + key@,
        KlineError::KeyTooLarge { size, max } => "Key too large: "@ + spec_dec(size as nat)
            + " bytes (max: "@ + spec_dec(max as nat) + ")"@,
        KlineError::ValueTooLarge { size, max } => "Value too large: "@ + spec_dec(size as nat)
            + " bytes (max: "@ + spec_dec(max as nat) + ")"@,
        KlineError::InvalidTtl { ttl } => "Invalid TTL: "@ + spec_dec(ttl as nat) + " seconds"@,
        KlineError::DatabaseFull { current, max } => "Database full: "@ + spec_dec(current as nat)
            + "/"@ + spec_dec(max as nat) + " keys"@,
        KlineError::ConfigParse { reason } => "Config parse error: "@ + reason@,
        KlineError::ConfigSerialize { reason } => "Config serialize error: "@ + reason@,
        KlineError::Io(cause) => "IO error: "@ + cause@,
        KlineError::Serialization(cause) => "Serialization error: "@ + cause@,
        KlineError::InvalidKeyFormat => "Invalid key format: must be valid UTF-8"@,
        KlineError::LockPoisoned => "Lock poisoned"@,
    }
}

impl KlineError {
    /// The caller-facing description of this error.
    pub fn message(&self) -> (s: String)
        ensures
            s@ == spec_message(*self),
    {
        match self {
            KlineError::KeyNotFound { key } => "Key not found: ".to_owned().concat(key.as_str()),
            KlineError::KeyExpired { key } => "Key expired: ".to_owned().concat(key.as_str()),
            KlineError::KeyTooLarge { size, max } => "Key too large: ".to_owned().concat(
                u64_to_string(*size as u64).as_str(),
            ).concat(" bytes (max: ").concat(u64_to_string(*max as u64).as_str()).concat(")"),
            KlineError::ValueTooLarge { size, max } => "Value too large: ".to_owned().concat(
                u64_to_string(*size as u64).as_str(),
            ).concat(" bytes (max: ").concat(u64_to_string(*max as u64).as_str()).concat(")"),
            KlineError::InvalidTtl { ttl } => "Invalid TTL: ".to_owned().concat(
                u64_to_string(*ttl).as_str(),
            ).concat(" seconds"),
            KlineError::DatabaseFull { current, max } => "Database full: ".to_owned().concat(
                u64_to_string(*current as u64).as_str(),
            ).concat("/").concat(u64_to_string(*max as u64).as_str()).concat(" keys"),
            KlineError::ConfigParse { reason } => "Config parse error: ".to_owned().concat(
                reason.as_str(),
            ),
            KlineError::ConfigSerialize { reason } => "Config serialize error: ".to_owned().concat(
                reason.as_str(),
            ),
            KlineError::Io(cause) => "IO error: ".to_owned().concat(cause.as_str()),
            KlineError::Serialization(cause) => "Serialization error: ".to_owned().concat(
                cause.as_str(),
            ),
            KlineError::InvalidKeyFormat => "Invalid key format: must be valid UTF-8".to_owned(),
            KlineError::LockPoisoned => "Lock poisoned".to_owned(),
        }
    }
}

} // verus!
