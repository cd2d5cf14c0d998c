//! Password policy checks and the security audit vocabulary. Credential
//! storage, encryption and two-factor codes are left to the caller.

use vstd::prelude::*;

verus! {

#[derive(Debug, Clone, Copy, PartialEq, Eq, Structural)]
pub struct PasswordPolicy {
    /// Minimum length in bytes.
    pub min_length: usize,
    pub require_uppercase: bool,
    pub require_lowercase: bool,
    pub require_numbers: bool,
    pub require_special: bool,
    pub max_age_days: u32,
}

#[derive(Debug, Clone, Copy, PartialEq, Eq, Structural)]
pub enum SecurityAction {
    Login,
    Logout,
    PasswordChange,
    TwoFactorSetup,
    AccessAttempt,
    DataEncryption,
    DataDecryption,
}

#[derive(Debug, Clone, Copy, PartialEq, Eq, Structural)]
pub enum SecurityStatus {
    Success,
    Failure,
    Warning,
}

/// What `char::is_uppercase` says of a character.
pub uninterp spec fn uppercase_char(c: char) -> bool;

/// What `char::is_lowercase` says of a character.
pub uninterp spec fn lowercase_char(c: char) -> bool;

/// What `char::is_numeric` says of a character.
pub uninterp spec fn numeric_char(c: char) -> bool;

/// What `char::is_alphanumeric` says of a character.
pub uninterp spec fn alphanumeric_char(c: char) -> bool;

/// Relies on `char::is_uppercase`: the Unicode Uppercase property, a function of the character.
#[verifier::external_body]
fn is_upper(c: char) -> (r: bool)
    ensures
        r == uppercase_char(c),
{
    c.is_uppercase()
}

/// Relies on `char::is_lowercase`: the Unicode Lowercase property, a function of the character.
#[verifier::external_body]
fn is_lower(c: char) -> (r: bool)
    ensures
        r == lowercase_char(c),
{
    c.is_lowercase()
}

/// Relies on `char::is_numeric`: the Unicode numeric categories, a function of the character.
#[verifier::external_body]
fn is_number(c: char) -> (r: bool)
    ensures
        r == numeric_char(c),
{
    c.is_numeric()
}

/// Relies on `char::is_alphanumeric`: alphabetic or numeric, a function of the character.
#[verifier::external_body]
fn is_alnum(c: char) -> (r: bool)
    ensures
        r == alphanumeric_char(c),
{
    c.is_alphanumeric()
}

/// Which character classes a password uses.
#[derive(Debug, Clone, Copy, PartialEq, Eq, Structural)]
pub struct CharClasses {
    pub has_uppercase: bool,
    pub has_lowercase: bool,
    pub has_number: bool,
    pub has_special: bool,
}

pub open spec fn classes_of(s: Seq<char>) -> CharClasses {
    CharClasses {
        has_uppercase: exists|i: int| 0 <= i < s.len() && uppercase_char(#[trigger] s[i]),
        has_lowercase: exists|i: int| 0 <= i < s.len() && lowercase_char(#[trigger] s[i]),
        has_number: exists|i: int| 0 <= i < s.len() && numeric_char(#[trigger] s[i]),
        has_special: exists|i: int| 0 <= i < s.len() && !alphanumeric_char(#[trigger] s[i]),
    }
}

/// A password of `byte_len` bytes using the classes `c` meets the policy.
pub open spec fn meets_policy(p: PasswordPolicy, byte_len: int, c: CharClasses) -> bool {
    &&& byte_len >= p.min_length
    &&& p.require_uppercase ==> c.has_uppercase
    &&& p.require_lowercase ==> c.has_lowercase
    &&& p.require_numbers ==> c.has_number
    &&& p.require_special ==> c.has_special
}

/// Whole days from `from` to `to` (milliseconds), truncated toward zero.
pub open spec fn whole_days(from: i64, to: i64) -> int {
    let d = to as int - from as int;
    if d >= 0 {
        d / 86_400_000
    } else {
        -((-d) / 86_400_000)
    }
}

/// The character classes that a password uses.
pub fn char_classes(password: &str) -> (r: CharClasses)
    ensures
        r == classes_of(password@),
{
    let n = password.unicode_len();
    let mut up = false;
    let mut low = false;
    let mut num = false;
    let mut special = false;
    let mut i: usize = 0;
    while i < n
        invariant
            n == password@.len(),
            i <= n,
            up == exists|k: int| 0 <= k < i && uppercase_char(#[trigger] password@[k]),
            low == exists|k: int| 0 <= k < i && lowercase_char(#[trigger] password@[k]),
            num == exists|k: int| 0 <= k < i && numeric_char(#[trigger] password@[k]),
            special == exists|k: int| 0 <= k < i && !alphanumeric_char(#[trigger] password@[k]),
        decreases n - i,
    {
        let c = password.get_char(i);
        up = up || is_upper(c);
        low = low || is_lower(c);
        num = num || is_number(c);
        special = special || !is_alnum(c);
        i = i + 1;
    }
    CharClasses { has_uppercase: up, has_lowercase: low, has_number: num, has_special: special }
}

impl PasswordPolicy {
    /// Whether a password of `byte_len` bytes using the classes `classes` is acceptable.
    pub fn accepts(&self, byte_len: usize, classes: CharClasses) -> (r: bool)
        ensures
            r == meets_policy(*self, byte_len as int, classes),
    {
        byte_len >= self.min_length && (!self.require_uppercase || classes.has_uppercase) && (
        !self.require_lowercase || classes.has_lowercase) && (!self.require_numbers || classes.has_number) && (
        !self.require_special || classes.has_special)
    }

    /// Whether the password meets the policy: long enough in bytes, and
    /// holding an uppercase letter, a lowercase letter, a number and a
    /// character that is no letter or number, as far as the policy asks.
    pub fn validate_password(&self, password: &str) -> (r: bool)
        ensures
            r == meets_policy(*self, password.len() as int, classes_of(password@)),
    {
        let classes = char_classes(password);
        self.accepts(password.len(), classes)
    }

    /// Whether a password last changed at `last_change` is too old at `now`:
    /// more whole days have passed than the policy allows.
    pub fn password_expired(&self, last_change: i64, now: i64) -> (r: bool)
        ensures
            r == (whole_days(last_change, now) > self.max_age_days as int),
    {
        let d: i128 = now as i128 - last_change as i128;
        let days: i128 = if d >= 0 {
            d / 86_400_000
        } else {
            -((-d) / 86_400_000)
        };
        days > self.max_age_days as i128
    }
}

} // verus!
