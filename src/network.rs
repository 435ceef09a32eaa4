use vstd::prelude::*;
use vstd::string::StringExecFns;

use crate::encoding::{decimal_chars, decimal_string};

use regex::Regex;

verus! {

/// The pattern a peer URL must match.
pub const URL_REGEX: &'static str = r"(https?)://[0-9]{1,3}\.[a-zA-Z0-9]+\.[a-zA-Z0-9]+\.[a-zA-Z0-9]+:[0-9]{1,5}/[a-z, A-Z, 0-9, /]*$";

/// The JSON text of a string value: quoted, with JSON escapes.
pub uninterp spec fn json_string_of(s: Seq<char>) -> Seq<char>;

/// Whether `s` matches the regular expression `pattern` (false where the
/// pattern does not compile).
pub uninterp spec fn regex_matches(pattern: Seq<char>, s: Seq<char>) -> bool;

/// Relies on json's `stringify` of a string value: the quoted, escaped text.
#[verifier::external_body]
fn json_quote(s: &str) -> (r: String)
    ensures
        r@ == json_string_of(s@),
{
    json::stringify(s)
}

/// Relies on regex's `Regex::new` and `Regex::is_match`.
#[verifier::external_body]
fn regex_is_match(pattern: &str, s: &str) -> (r: bool)
    ensures
        r == regex_matches(pattern@, s@),
{
    match Regex::new(pattern) {
        Ok(re) => re.is_match(s),
        Err(_) => false,
    }
}

/// Whether a peer URL has the accepted shape.
pub fn is_valid_url(url: &str) -> (r: bool)
    ensures
        r == regex_matches(URL_REGEX@, url@),
{
    regex_is_match(URL_REGEX, url)
}

/// The errors of the chain engine as the node reports them.
#[derive(Clone, Copy, Debug, PartialEq, Eq, Structural)]
pub enum BlockchainError {
    InvalidTransaction,
    InvalidBlock,
    InvalidChain,
}

impl BlockchainError {
    /// The words that name the error.
    pub fn to_string(&self) -> (r: String)
        ensures
            r@ == match self {
                BlockchainError::InvalidTransaction => "Invalid Transaction"@,
                BlockchainError::InvalidBlock => "Invalid Block"@,
                BlockchainError::InvalidChain => "Invalid Chain"@,
            },
    {
        match self {
            BlockchainError::InvalidTransaction => String::from_str("Invalid Transaction"),
            BlockchainError::InvalidBlock => String::from_str("Invalid Block"),
            BlockchainError::InvalidChain => String::from_str("Invalid Chain"),
        }
    }
}

/// The protocol errors a node returns, with their context.
#[derive(Clone, Debug, PartialEq, Eq)]
pub enum ErrorType {
    /// The request's version, then the version expected.
    WrongVersion(u32, u32),
    InvalidTransaction(String),
    InvalidBlock(String),
    InvalidUrl,
}

/// The structured body of an error: a JSON object with the error's kind,
/// a message and its context, in that order.
pub open spec fn error_json(e: ErrorType) -> Seq<char> {
    match e {
        ErrorType::WrongVersion(request_version, expected_version) => "{\"error\":\"WrongVersion\",\"message\":\"Distinct protocol version\",\"request_version\":"@
            + decimal_chars(request_version as nat) + ",\"expected_version\":"@ + decimal_chars(
            expected_version as nat,
        ) + "}"@,
        ErrorType::InvalidTransaction(context) => "{\"error\":\"InvalidTransaction\",\"message\":\"The transaction is invalid in the current context\",\"context\":"@
            + json_string_of(context@) + "}"@,
        ErrorType::InvalidBlock(context) => "{\"error\":\"InvalidBlock\",\"message\":\"The block is invalid in the current context\",\"context\":"@
            + json_string_of(context@) + "}"@,
        ErrorType::InvalidUrl => "{\"error\":\"InvalidUrl\",\"message\":\"The given url is invalid. Must match the URL_REGEX\",\"valid_url_regex\":"@
            + json_string_of(URL_REGEX@) + "}"@,
    }
}

impl ErrorType {
    /// The structured JSON body of the error.
    pub fn to_string(&self) -> (r: String)
        ensures
            r@ == error_json(*self),
    {
        match self {
            ErrorType::WrongVersion(request_version, expected_version) => {
                let a = decimal_string(*request_version as u128);
                let b = decimal_string(*expected_version as u128);
                String::from_str(
                    "{\"error\":\"WrongVersion\",\"message\":\"Distinct protocol version\",\"request_version\":",
                ).concat(a.as_str()).concat(",\"expected_version\":").concat(b.as_str()).concat("}")
            },
            ErrorType::InvalidTransaction(context) => {
                let c = json_quote(context.as_str());
                String::from_str(
                    "{\"error\":\"InvalidTransaction\",\"message\":\"The transaction is invalid in the current context\",\"context\":",
                ).concat(c.as_str()).concat("}")
            },
            ErrorType::InvalidBlock(context) => {
                let c = json_quote(context.as_str());
                String::from_str(
                    "{\"error\":\"InvalidBlock\",\"message\":\"The block is invalid in the current context\",\"context\":",
                ).concat(c.as_str()).concat("}")
            },
            ErrorType::InvalidUrl => {
                let c = json_quote(URL_REGEX);
                String::from_str(
                    "{\"error\":\"InvalidUrl\",\"message\":\"The given url is invalid. Must match the URL_REGEX\",\"valid_url_regex\":",
                ).concat(c.as_str()).concat("}")
            },
        }
    }
}

/// Accepts a request whose version equals the node's, and refuses any other
/// with `WrongVersion` carrying both.
pub fn check_version(request_version: u32, expected_version: u32) -> (r: Result<(), ErrorType>)
    ensures
        request_version == expected_version ==> r is Ok,
        request_version != expected_version ==> r == Err::<(), ErrorType>(
            ErrorType::WrongVersion(request_version, expected_version),
        ),
{
    if request_version != expected_version {
        Err(ErrorType::WrongVersion(request_version, expected_version))
    } else {
        Ok(())
    }
}

} // verus!
