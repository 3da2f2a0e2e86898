//! Why there is no report, and the limits that a report keeps.
use vstd::prelude::*;

verus! {

/// The release of the time zone database that reports are made by.
pub const REMOTE_TZDB_REVISION: &'static str = "2026c";

pub const MAX_MESSAGES: usize = 262_144;

pub const MAX_CLIENTS: usize = 128;

pub const MAX_TEXT_BYTES: usize = 255;

pub const MAX_QUERY_CLIENT_BYTES: usize = 16_384;

pub const MAX_RANGE_DAYS: i32 = 370;

pub const MAX_LABEL_BYTES: usize = 8_388_608;

pub const MAX_RECORDS: usize = 262_144;

pub const MAX_OUTPUT_STRING_BYTES: usize = 8_388_608;

/// Why there is no report. An error carries nothing of the input.
#[derive(Clone, Copy, Debug, PartialEq, Eq, Structural)]
pub enum RemoteUsageError {
    InvalidQuery,
    IncompatibleTzdb,
    InvalidTimeZone,
    InvalidTimestamp,
    InvalidText,
    InvalidNumerator,
    LimitExceeded,
}

impl RemoteUsageError {
    /// The error in words.
    pub open spec fn words(self) -> Seq<char> {
        match self {
            RemoteUsageError::InvalidQuery => "invalid query"@,
            RemoteUsageError::IncompatibleTzdb => "incompatible tzdb"@,
            RemoteUsageError::InvalidTimeZone => "invalid timezone"@,
            RemoteUsageError::InvalidTimestamp => "invalid timestamp"@,
            RemoteUsageError::InvalidText => "invalid text"@,
            RemoteUsageError::InvalidNumerator => "invalid numerator"@,
            RemoteUsageError::LimitExceeded => "limit exceeded"@,
        }
    }

    /// The error in words.
    pub fn describe(&self) -> (text: String)
        ensures
            text@ == self.words(),
    {
        match self {
            RemoteUsageError::InvalidQuery => "invalid query".to_owned(),
            RemoteUsageError::IncompatibleTzdb => "incompatible tzdb".to_owned(),
            RemoteUsageError::InvalidTimeZone => "invalid timezone".to_owned(),
            RemoteUsageError::InvalidTimestamp => "invalid timestamp".to_owned(),
            RemoteUsageError::InvalidText => "invalid text".to_owned(),
            RemoteUsageError::InvalidNumerator => "invalid numerator".to_owned(),
            RemoteUsageError::LimitExceeded => "limit exceeded".to_owned(),
        }
    }
}

/// The words of every error. They tell the errors apart.
pub proof fn lemma_words(a: RemoteUsageError, b: RemoteUsageError)
    ensures
        a.words() == b.words() ==> a == b,
        RemoteUsageError::InvalidQuery.words() == "invalid query"@,
        RemoteUsageError::IncompatibleTzdb.words() == "incompatible tzdb"@,
        RemoteUsageError::InvalidTimeZone.words() == "invalid timezone"@,
        RemoteUsageError::InvalidTimestamp.words() == "invalid timestamp"@,
        RemoteUsageError::InvalidText.words() == "invalid text"@,
        RemoteUsageError::InvalidNumerator.words() == "invalid numerator"@,
        RemoteUsageError::LimitExceeded.words() == "limit exceeded"@,
{
    reveal_strlit("invalid query");
    reveal_strlit("incompatible tzdb");
    reveal_strlit("invalid timezone");
    reveal_strlit("invalid timestamp");
    reveal_strlit("invalid text");
    reveal_strlit("invalid numerator");
    reveal_strlit("limit exceeded");
    assert("invalid query"@.len() == 13);
    assert("incompatible tzdb"@.len() == 17 && "incompatible tzdb"@[2] == 'c');
    assert("invalid timezone"@.len() == 16);
    assert("invalid timestamp"@.len() == 17 && "invalid timestamp"@[2] == 'v' && "invalid timestamp"@[8]
        == 't');
    assert("invalid text"@.len() == 12);
    assert("invalid numerator"@.len() == 17 && "invalid numerator"@[2] == 'v' && "invalid numerator"@[8]
        == 'n');
    assert("limit exceeded"@.len() == 14);
}

} // verus!
