//! Subscriber-facing input types: the raw form payload and the validated
//! email address and display name parsed out of it.
use validator::ValidateEmail;
use vstd::prelude::*;
use vstd::string::{StrSliceExecFns, StringExecFns};

verus! {

/// The raw subscription form payload, exactly as the HTTP layer hands it over.
pub struct FormData {
    pub name: String,
    pub email: String,
}

/// Whether the HTML5-form email check accepts the string. The full rule
/// (user and domain grammars, length limits, literal addresses) is the
/// outside crate's; its verdict depends on the characters alone.
pub uninterp spec fn is_valid_email(s: Seq<char>) -> bool;

/// Relies on validator's `ValidateEmail::validate_email` for `&str`: the
/// verdict is a function of the characters alone, and the source rejects
/// the empty string and any string without an '@' outright.
#[verifier::external_body]
fn check_email(s: &str) -> (r: bool)
    ensures
        r == is_valid_email(s@),
        s@.len() == 0 ==> !r,
        (forall|i: int| 0 <= i < s@.len() ==> s@[i] != '@') ==> !r,
{
    s.validate_email()
}

/// An email address that passed validation; the only way to build one is
/// through `parse`, so every value of this type satisfies `is_valid_email`.
#[derive(Debug)]
pub struct SubscriberEmail {
    email: String,
}

impl View for SubscriberEmail {
    type V = Seq<char>;

    closed spec fn view(&self) -> Seq<char> {
        self.email@
    }
}

impl SubscriberEmail {
    pub open spec fn wf(&self) -> bool {
        is_valid_email(self@)
    }

    /// Accept the string exactly when the email check does; a rejection
    /// carries the offending input followed by an explanation. The empty
    /// string, and any string without an '@', are always rejected.
    pub fn parse(s: String) -> (r: Result<SubscriberEmail, String>)
        ensures
            match r {
                Ok(e) => is_valid_email(s@) && e@ == s@,
                Err(m) => !is_valid_email(s@) && m@ == s@
                    + " is not a valid subscriber email."@,
            },
            s@.len() == 0 ==> r is Err,
            (forall|i: int| 0 <= i < s@.len() ==> s@[i] != '@') ==> r is Err,
    {
        if check_email(s.as_str()) {
            Ok(SubscriberEmail { email: s })
        } else {
            Err(s.concat(" is not a valid subscriber email."))
        }
    }

    pub fn as_str(&self) -> (r: &str)
        ensures
            r@ == self@,
    {
        self.email.as_str()
    }
}

/// A display name is acceptable when it is at most 256 characters long and
/// holds at least one character that is not a space.
pub open spec fn is_valid_subscriber_name(s: Seq<char>) -> bool {
    s.len() <= 256 && exists|i: int| 0 <= i < s.len() && s[i] != ' '
}

/// A display name that passed validation.
#[derive(Debug)]
pub struct SubscriberName {
    name: String,
}

impl View for SubscriberName {
    type V = Seq<char>;

    closed spec fn view(&self) -> Seq<char> {
        self.name@
    }
}

impl SubscriberName {
    pub open spec fn wf(&self) -> bool {
        is_valid_subscriber_name(self@)
    }

    /// Accept the string exactly when the name rule holds of it; a rejection
    /// carries the offending input followed by an explanation.
    pub fn parse(s: String) -> (r: Result<SubscriberName, String>)
        ensures
            match r {
                Ok(n) => is_valid_subscriber_name(s@) && n@ == s@,
                Err(m) => !is_valid_subscriber_name(s@) && m@ == s@
                    + " is not a valid subscriber name."@,
            },
    {
        let len = s.as_str().unicode_len();
        if len > 256 {
            return Err(s.concat(" is not a valid subscriber name."));
        }
        let mut i: usize = 0;
        while i < len
            invariant
                i <= len,
                len == s@.len(),
                len <= 256,
                forall|k: int| 0 <= k < i ==> s@[k] == ' ',
            decreases len - i,
        {
            if s.as_str().get_char(i) != ' ' {
                assert(s@[i as int] != ' ');
                return Ok(SubscriberName { name: s });
            }
            i += 1;
        }
        Err(s.concat(" is not a valid subscriber name."))
    }

    pub fn as_str(&self) -> (r: &str)
        ensures
            r@ == self@,
    {
        self.name.as_str()
    }
}

/// A validated subscription request: both form fields parsed.
#[derive(Debug)]
pub struct NewSubscriber {
    pub email: SubscriberEmail,
    pub name: SubscriberName,
}

impl NewSubscriber {
    /// Parse both form fields, the name first; the error names the first
    /// rejected field.
    pub fn try_from(value: FormData) -> (r: Result<NewSubscriber, String>)
        ensures
            match r {
                Ok(ns) => is_valid_subscriber_name(value.name@) && is_valid_email(value.email@)
                    && ns.name@ == value.name@ && ns.email@ == value.email@,
                Err(m) => (!is_valid_subscriber_name(value.name@) && m@ == value.name@
                    + " is not a valid subscriber name."@) || (is_valid_subscriber_name(
                    value.name@,
                ) && !is_valid_email(value.email@) && m@ == value.email@
                    + " is not a valid subscriber email."@),
            },
            value.email@.len() == 0 ==> r is Err,
            (forall|i: int| 0 <= i < value.email@.len() ==> value.email@[i] != '@') ==> r is Err,
    {
        let name = match SubscriberName::parse(value.name) {
            Ok(n) => n,
            Err(m) => {
                return Err(m);
            },
        };
        let email = match SubscriberEmail::parse(value.email) {
            Ok(e) => e,
            Err(m) => {
                return Err(m);
            },
        };
        Ok(NewSubscriber { email, name })
    }
}

} // verus!
