use vstd::prelude::*;

verus! {

/// The characters with Unicode's White_Space property.
pub open spec fn is_white_space(c: char) -> bool {
    ('\u{9}' <= c <= '\u{d}') || c == ' ' || c == '\u{85}' || c == '\u{a0}' || c == '\u{1680}'
        || ('\u{2000}' <= c <= '\u{200a}') || c == '\u{2028}' || c == '\u{2029}' || c == '\u{202f}'
        || c == '\u{205f}' || c == '\u{3000}'
}

/// A string without its leading white space.
pub open spec fn trimmed_start(s: Seq<char>) -> Seq<char>
    decreases s.len(),
{
    if s.len() > 0 && is_white_space(s[0]) {
        trimmed_start(s.drop_first())
    } else {
        s
    }
}

/// A string without its trailing white space.
pub open spec fn trimmed_end(s: Seq<char>) -> Seq<char>
    decreases s.len(),
{
    if s.len() > 0 && is_white_space(s.last()) {
        trimmed_end(s.drop_last())
    } else {
        s
    }
}

/// A string with its leading and trailing white space removed.
pub open spec fn trimmed(s: Seq<char>) -> Seq<char> {
    trimmed_end(trimmed_start(s))
}

/// Relies on `str::trim`: the string without leading and trailing
/// characters that have Unicode's White_Space property.
#[verifier::external_body]
pub(crate) fn trim(s: &str) -> (r: &str)
    ensures
        r@ == trimmed(s@),
{
    s.trim()
}

/// How a user identifies themself at sign-in.
#[derive(Debug, Clone, Copy, PartialEq, Eq, Structural)]
pub enum IdentifierType {
    Email,
    Phone,
}

/// Why an identifier was refused.
#[derive(Debug, Clone, Copy, PartialEq, Eq, Structural)]
pub enum IdentifierError {
    InvalidEmail,
    InvalidPhone,
}

/// An address with exactly one `@`, whose domain holds a dot but neither
/// starts nor ends with one.
pub open spec fn email_format_ok(s: Seq<char>) -> bool {
    exists|at: int| {
        &&& 0 <= at < s.len()
        &&& #[trigger] s[at] == '@'
        &&& forall|j: int| 0 <= j < s.len() && j != at ==> s[j] != '@'
        &&& domain_ok(s.subrange(at + 1, s.len() as int))
    }
}

pub open spec fn domain_ok(d: Seq<char>) -> bool {
    d.contains('.') && d[0] != '.' && d[d.len() - 1] != '.'
}

/// A string with every leading `+` removed.
pub open spec fn without_plus(s: Seq<char>) -> Seq<char>
    decreases s.len(),
{
    if s.len() > 0 && s[0] == '+' {
        without_plus(s.drop_first())
    } else {
        s
    }
}

/// At least ten characters, all ASCII digits.
pub open spec fn digits_ok(s: Seq<char>) -> bool {
    s.len() >= 10 && forall|i: int| 0 <= i < s.len() ==> '0' <= #[trigger] s[i] <= '9'
}

/// A phone number: after trimming and dropping leading `+` signs, ten or
/// more ASCII digits.
pub open spec fn phone_format_ok(s: Seq<char>) -> bool {
    digits_ok(without_plus(trimmed(s)))
}

/// Checks an e-mail address's shape: one `@`, then a domain that holds a
/// dot but neither starts nor ends with one.
pub fn is_valid_email_format(email: &str) -> (r: bool)
    ensures
        r == email_format_ok(email@),
{
    let n = email.unicode_len();
    let mut at: usize = n;
    let mut i: usize = 0;
    while i < n
        invariant
            n == email@.len(),
            i <= n,
            at <= n,
            at == n ==> forall|j: int| 0 <= j < i ==> email@[j] != '@',
            at < n ==> at < i && email@[at as int] == '@' && forall|j: int| 0 <= j < i && j != at ==> email@[j] != '@',
        decreases n - i,
    {
        if email.get_char(i) == '@' {
            if at < n {
                proof {
                    assert forall|a: int| 0 <= a < email@.len() && #[trigger] email@[a] == '@' implies
                        !(forall|j: int| 0 <= j < email@.len() && j != a ==> email@[j] != '@') by {
                        if a != at {
                            assert(email@[at as int] == '@');
                        } else {
                            assert(email@[i as int] == '@');
                        }
                    }
                }
                return false;
            }
            at = i;
        }
        i = i + 1;
    }
    if at == n {
        return false;
    }
    let d_len = n - at - 1;
    let ghost d = email@.subrange(at + 1, n as int);
    if d_len == 0 {
        assert(!d.contains('.'));
        return false;
    }
    let first = email.get_char(at + 1);
    let last = email.get_char(n - 1);
    assert(d[0] == email@[at + 1]);
    assert(d[d.len() - 1] == email@[n - 1]);
    if first == '.' || last == '.' {
        return false;
    }
    let mut k: usize = at + 1;
    while k < n
        invariant
            n == email@.len(),
            at < n,
            at + 1 <= k <= n,
            at + 1 < n + 1,
            d == email@.subrange(at + 1, n as int),
            d.len() > 0,
            email@[at as int] == '@',
            forall|j: int| 0 <= j < n && j != at ==> email@[j] != '@',
            d[0] != '.',
            d[d.len() - 1] != '.',
            forall|j: int| at + 1 <= j < k ==> email@[j] != '.',
        decreases n - k,
    {
        if email.get_char(k) == '.' {
            assert(d[k - at - 1] == '.');
            assert(d.contains('.'));
            assert(domain_ok(d));
            assert(email_format_ok(email@)) by {
                assert(email@[at as int] == '@');
            }
            return true;
        }
        k = k + 1;
    }
    assert forall|j: int| 0 <= j < d.len() implies d[j] != '.' by {
        assert(d[j] == email@[at + 1 + j]);
    }
    false
}

/// Whether a trimmed phone number, leading `+` signs and all, is ten or more
/// ASCII digits after those signs.
pub fn phone_digits_valid(cleaned: &str) -> (r: bool)
    ensures
        r == digits_ok(without_plus(cleaned@)),
{
    let n = cleaned.unicode_len();
    let mut start: usize = 0;
    assert(cleaned@.subrange(0, n as int) =~= cleaned@);
    while start < n
        invariant
            n == cleaned@.len(),
            start <= n,
            without_plus(cleaned@) == without_plus(cleaned@.subrange(start as int, n as int)),
        ensures
            without_plus(cleaned@) == without_plus(cleaned@.subrange(start as int, n as int)),
            start == n || cleaned@[start as int] != '+',
        decreases n - start,
    {
        if cleaned.get_char(start) != '+' {
            break;
        }
        assert(cleaned@.subrange(start as int, n as int).drop_first() =~= cleaned@.subrange(start + 1, n as int));
        start = start + 1;
    }
    let ghost rest = cleaned@.subrange(start as int, n as int);
    assert(without_plus(rest) == rest) by {
        if rest.len() > 0 {
            assert(rest[0] == cleaned@[start as int]);
        }
    }
    if n - start < 10 {
        return false;
    }
    let mut i: usize = start;
    while i < n
        invariant
            n == cleaned@.len(),
            start <= i <= n,
            rest == cleaned@.subrange(start as int, n as int),
            without_plus(cleaned@) == rest,
            forall|j: int| start <= j < i ==> '0' <= #[trigger] cleaned@[j] <= '9',
        decreases n - i,
    {
        let c = cleaned.get_char(i);
        if !('0' <= c && c <= '9') {
            assert(rest[i - start] == c);
            return false;
        }
        i = i + 1;
    }
    assert forall|j: int| 0 <= j < rest.len() implies '0' <= #[trigger] rest[j] <= '9' by {
        assert(rest[j] == cleaned@[start + j]);
    }
    true
}

/// Checks a phone number's shape: after trimming and dropping leading `+`
/// signs, ten or more ASCII digits.
pub fn is_valid_phone_format(phone: &str) -> (r: bool)
    ensures
        r == phone_format_ok(phone@),
{
    phone_digits_valid(trim(phone))
}

/// What an identifier is: an e-mail address when it holds an `@`, a phone
/// number otherwise, refused when it does not have that kind's shape.
pub open spec fn identifier_kind(s: Seq<char>) -> Result<IdentifierType, IdentifierError> {
    if s.contains('@') {
        if email_format_ok(s) { Ok(IdentifierType::Email) } else { Err(IdentifierError::InvalidEmail) }
    } else {
        if phone_format_ok(s) { Ok(IdentifierType::Phone) } else { Err(IdentifierError::InvalidPhone) }
    }
}

fn contains_at(s: &str) -> (r: bool)
    ensures
        r == s@.contains('@'),
{
    let n = s.unicode_len();
    let mut i: usize = 0;
    while i < n
        invariant
            n == s@.len(),
            i <= n,
            forall|j: int| 0 <= j < i ==> s@[j] != '@',
        decreases n - i,
    {
        if s.get_char(i) == '@' {
            return true;
        }
        i = i + 1;
    }
    false
}

/// Tells an e-mail address from a phone number.
pub fn detect_identifier_type(identifier: &str) -> (r: Result<IdentifierType, IdentifierError>)
    ensures
        r == identifier_kind(identifier@),
{
    if contains_at(identifier) {
        if is_valid_email_format(identifier) {
            return Ok(IdentifierType::Email);
        }
        return Err(IdentifierError::InvalidEmail);
    }
    if is_valid_phone_format(identifier) {
        return Ok(IdentifierType::Phone);
    }
    Err(IdentifierError::InvalidPhone)
}

impl IdentifierType {
    pub fn as_str(&self) -> (r: &'static str)
        ensures
            r@ == (match *self {
                IdentifierType::Email => "email"@,
                IdentifierType::Phone => "phone"@,
            }),
    {
        match self {
            IdentifierType::Email => "email",
            IdentifierType::Phone => "phone",
        }
    }
}

} // verus!
