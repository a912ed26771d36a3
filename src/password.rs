use vstd::prelude::*;
use crate::identifier::{trim, trimmed};

verus! {

/// What a regular expression search answers: whether `pattern` matches
/// somewhere in `text`, or `None` when the pattern does not compile or the
/// search gives up.
pub uninterp spec fn regex_match(pattern: Seq<char>, text: Seq<char>) -> Option<bool>;

/// The number of extended grapheme clusters in a string.
pub uninterp spec fn grapheme_count(s: Seq<char>) -> nat;

/// Relies on `fancy_regex::Regex::new` and `fancy_regex::Regex::is_match`:
/// compiles `pattern` and searches `text` with it.
#[verifier::external_body]
fn regex_is_match(pattern: &str, text: &str) -> (r: Option<bool>)
    ensures
        r == regex_match(pattern@, text@),
{
    match fancy_regex::Regex::new(pattern) {
        Ok(re) => re.is_match(text).ok(),
        Err(_) => None,
    }
}

/// Relies on `UnicodeSegmentation::graphemes` with extended clusters:
/// how many clusters the string splits into.
#[verifier::external_body]
fn count_graphemes(s: &str) -> (r: usize)
    ensures
        r == grapheme_count(s@),
{
    unicode_segmentation::UnicodeSegmentation::graphemes(s, true).count()
}

/// Six or more characters with a digit, a lowercase letter, an uppercase
/// letter and a character that is not a word character.
pub const PASSWORD_PATTERN: &'static str = "((?=.*\\d)(?=.*[a-z])(?=.*[A-Z])(?=.*[\\W]).{6,20})";

/// The longest password, in grapheme clusters.
pub const MAX_PASSWORD_GRAPHEMES: usize = 100;

/// Why a password was refused.
#[derive(Debug, Clone, Copy, PartialEq, Eq, Structural)]
pub enum PasswordError {
    Empty,
    TooLong,
    ForbiddenCharacters,
    InvalidFormat,
}

/// A password that passed every rule.
#[derive(Debug)]
pub struct UserPassword(pub String);

pub open spec fn forbidden(c: char) -> bool {
    c == '/' || c == '(' || c == ')' || c == '"' || c == '<' || c == '>' || c == '\\' || c == '{' || c == '}'
}

pub open spec fn has_forbidden(s: Seq<char>) -> bool {
    exists|i: int| 0 <= i < s.len() && forbidden(#[trigger] s[i])
}

/// Whether a password has the required mix of characters.
pub open spec fn password_format_ok(s: Seq<char>) -> bool {
    regex_match(PASSWORD_PATTERN@, s) == Some(true)
}

/// The verdict on a password given the facts that the rules look at, in
/// the order they are checked.
pub open spec fn password_verdict(trimmed_len: nat, graphemes: nat, s: Seq<char>, format_ok: bool) -> Result<(), PasswordError> {
    if trimmed_len == 0 {
        Err(PasswordError::Empty)
    } else if graphemes > MAX_PASSWORD_GRAPHEMES {
        Err(PasswordError::TooLong)
    } else if has_forbidden(s) {
        Err(PasswordError::ForbiddenCharacters)
    } else if !format_ok {
        Err(PasswordError::InvalidFormat)
    } else {
        Ok(())
    }
}

/// Checks a password's format.
pub fn validate_password(password: &str) -> (r: bool)
    ensures
        r == password_format_ok(password@),
{
    match regex_is_match(PASSWORD_PATTERN, password) {
        Some(m) => m,
        None => false,
    }
}

fn find_forbidden(s: &str) -> (r: bool)
    ensures
        r == has_forbidden(s@),
{
    let n = s.unicode_len();
    let mut i: usize = 0;
    while i < n
        invariant
            n == s@.len(),
            i <= n,
            forall|j: int| 0 <= j < i ==> !forbidden(#[trigger] s@[j]),
        decreases n - i,
    {
        let c = s.get_char(i);
        if c == '/' || c == '(' || c == ')' || c == '"' || c == '<' || c == '>' || c == '\\' || c == '{' || c == '}' {
            assert(forbidden(s@[i as int]));
            return true;
        }
        i = i + 1;
    }
    false
}

/// Applies the password rules to the facts they look at: the trimmed
/// length, the grapheme count, the characters, and whether the format
/// matched.
pub fn judge_password(trimmed_len: usize, graphemes: usize, s: &str, format_ok: bool) -> (r: Result<(), PasswordError>)
    ensures
        r == password_verdict(trimmed_len as nat, graphemes as nat, s@, format_ok),
{
    if trimmed_len == 0 {
        return Err(PasswordError::Empty);
    }
    if graphemes > MAX_PASSWORD_GRAPHEMES {
        return Err(PasswordError::TooLong);
    }
    if find_forbidden(s) {
        return Err(PasswordError::ForbiddenCharacters);
    }
    if !format_ok {
        return Err(PasswordError::InvalidFormat);
    }
    Ok(())
}

impl UserPassword {
    /// Accepts a password that is not blank, has at most a hundred grapheme
    /// clusters, none of `/ ( ) " < > \ { }`, and the required mix of
    /// characters; the first rule broken is reported.
    pub fn parse(s: String) -> (r: Result<UserPassword, PasswordError>)
        ensures
            match r {
                Ok(p) => p.0@ == s@ && password_verdict(trimmed(s@).len(), grapheme_count(s@), s@, password_format_ok(s@)) == Ok::<(), PasswordError>(()),
                Err(e) => password_verdict(trimmed(s@).len(), grapheme_count(s@), s@, password_format_ok(s@)) == Err::<(), PasswordError>(e),
            },
    {
        let t = trim(s.as_str()).unicode_len();
        let g = count_graphemes(s.as_str());
        let f = validate_password(s.as_str());
        match judge_password(t, g, s.as_str(), f) {
            Ok(()) => Ok(UserPassword(s)),
            Err(e) => Err(e),
        }
    }

    pub fn as_str(&self) -> (r: &str)
        ensures
            r@ == self.0@,
    {
        self.0.as_str()
    }
}

} // verus!
