//! Checks the daemon applies to what clients ask of it.

use vstd::prelude::*;
use crate::text::{chars_of, has_prefix, has_substring, contains_substring, starts_with_chars};

verus! {

/// Why a URL was refused.
#[derive(Debug, Clone, Copy, PartialEq, Eq, Structural)]
pub enum UrlError {
    /// Neither `http://` nor `https://`.
    Scheme,
    /// A NUL, line feed or carriage return.
    ControlCharacters,
    /// `" --"`, which a command line would read as an option.
    ArgumentLike,
}

impl UrlError {
    pub open spec fn spec_message(self) -> Seq<char> {
        match self {
            UrlError::Scheme => "URL must start with http:// or https://"@,
            UrlError::ControlCharacters => "URL contains invalid control characters"@,
            UrlError::ArgumentLike => "URL contains suspicious argument-like patterns"@,
        }
    }

    pub fn message(self) -> (s: &'static str)
        ensures
            s@ == self.spec_message(),
    {
        match self {
            UrlError::Scheme => "URL must start with http:// or https://",
            UrlError::ControlCharacters => "URL contains invalid control characters",
            UrlError::ArgumentLike => "URL contains suspicious argument-like patterns",
        }
    }
}

pub open spec fn has_control_char(url: Seq<char>) -> bool {
    url.contains('\0') || url.contains('\n') || url.contains('\r')
}

/// The verdict on a URL to open: the scheme is checked first, then the
/// control characters, then argument-like text.
pub open spec fn spec_validate_url(url: Seq<char>) -> Result<(), UrlError> {
    if !has_prefix(url, "http://"@) && !has_prefix(url, "https://"@) {
        Err(UrlError::Scheme)
    } else if has_control_char(url) {
        Err(UrlError::ControlCharacters)
    } else if has_substring(url, " --"@) {
        Err(UrlError::ArgumentLike)
    } else {
        Ok(())
    }
}

fn has_char(v: &[char], c: char) -> (b: bool)
    ensures
        b == v@.contains(c),
{
    let mut i: usize = 0;
    while i < v.len()
        invariant
            i <= v@.len(),
            forall|k: int| 0 <= k < i ==> v@[k] != c,
        decreases v@.len() - i,
    {
        if v[i] == c {
            return true;
        }
        i = i + 1;
    }
    false
}

/// Whether the daemon may open `url`.
pub fn validate_url(url: &str) -> (r: Result<(), UrlError>)
    ensures
        r == spec_validate_url(url@),
{
    let s = chars_of(url);
    let http = chars_of("http://");
    let https = chars_of("https://");
    if !starts_with_chars(&s, &http) && !starts_with_chars(&s, &https) {
        return Err(UrlError::Scheme);
    }
    if has_char(&s, '\0') || has_char(&s, '\n') || has_char(&s, '\r') {
        return Err(UrlError::ControlCharacters);
    }
    if contains_substring(url, " --") {
        return Err(UrlError::ArgumentLike);
    }
    Ok(())
}

/// Whether a client whose request failed wakes the daemon: not when
/// `HYBRID_MOUNT_NO_DAEMON_AUTOWAKE` is `1`, `true` or `yes`; otherwise
/// when the error says the socket is missing or refused the connection.
pub open spec fn spec_should_wake(no_autowake: Option<Seq<char>>, error_text: Seq<char>) -> bool {
    if no_autowake matches Some(v) && (v == "1"@ || v == "true"@ || v == "yes"@) {
        false
    } else {
        has_substring(error_text, "No such file or directory"@) || has_substring(
            error_text,
            "Connection refused"@,
        )
    }
}

/// `no_autowake` is the value of `HYBRID_MOUNT_NO_DAEMON_AUTOWAKE`, if
/// set; `error_text` the whole error chain.
pub fn should_wake_daemon(no_autowake: Option<&str>, error_text: &str) -> (b: bool)
    ensures
        b == spec_should_wake(
            match no_autowake {
                Some(v) => Some(v@),
                None => None,
            },
            error_text@,
        ),
{
    match no_autowake {
        Some(v) => {
            if crate::text::str_is(v, "1") || crate::text::str_is(v, "true") || crate::text::str_is(
                v,
                "yes",
            ) {
                return false;
            }
        },
        None => {},
    }
    contains_substring(error_text, "No such file or directory") || contains_substring(
        error_text,
        "Connection refused",
    )
}

} // verus!
