//! Identity, claims, and per-call authorization.
//!
//! An actor is identified by a 56-character public key whose first character
//! is `M`. Its signed token carries claims: the subject key, the issuer, the
//! set of capability ids the actor may invoke, and an optional validity
//! window. The cryptographic checks on the token (signature, expiry,
//! not-before) happen outside this crate; their outcome arrives here as a
//! [`TokenValidation`] record, and [`enforce_validation`] turns that record
//! into the exact error the host reports.

use vstd::prelude::*;
use vstd::string::*;
use crate::errors::{Error, ErrorKind};

verus! {

/// The origin the host uses for invocations it synthesizes itself.
pub const SYSTEM_ACTOR: &'static str = "system";

/// The capability id of the built-in "extras" provider, implicitly granted
/// to every actor.
pub const CAPABILITY_EXTRAS: &'static str = "wascc:extras";

/// The claims carried by an actor's signed token.
#[derive(Clone, Debug)]
#[verifier::ext_equal]
pub struct Claims {
    /// The actor's public key; the token subject.
    pub subject: String,
    /// The public key of the account that signed the token.
    pub issuer: String,
    /// The capability ids this actor is authorized to invoke.
    pub caps: Vec<String>,
    /// Seconds since the epoch after which the token is invalid, if any.
    pub expires: Option<u64>,
    /// Seconds since the epoch before which the token is invalid, if any.
    pub not_before: Option<u64>,
}

/// A signed token: the raw encoded form and the claims it carries.
#[derive(Clone, Debug)]
pub struct Token {
    /// The raw signed token, as embedded in the module.
    pub jwt: String,
    /// The claims the token encodes.
    pub claims: Claims,
}

/// The mathematical content of a [`Token`].
#[verifier::ext_equal]
pub ghost struct TokenView {
    pub jwt: Seq<char>,
    pub claims: ClaimsView,
}

impl View for Token {
    type V = TokenView;

    open spec fn view(&self) -> TokenView {
        TokenView { jwt: self.jwt@, claims: self.claims@ }
    }
}

/// The outcome of the cryptographic validation of a signed token, checked
/// against the wall clock by the token library outside this crate.
#[derive(Clone, Copy, Debug)]
pub struct TokenValidation {
    /// The token's signature verified against its issuer's key.
    pub signature_valid: bool,
    /// The token's expiry lies in the past.
    pub expired: bool,
    /// The token's not-before time lies in the future.
    pub cannot_use_yet: bool,
}

/// The mathematical content of a [`Claims`] value.
#[verifier::ext_equal]
pub ghost struct ClaimsView {
    pub subject: Seq<char>,
    pub issuer: Seq<char>,
    pub caps: Seq<Seq<char>>,
    pub expires: Option<u64>,
    pub not_before: Option<u64>,
}

impl View for Claims {
    type V = ClaimsView;

    open spec fn view(&self) -> ClaimsView {
        ClaimsView {
            subject: self.subject@,
            issuer: self.issuer@,
            caps: self.caps@.map_values(|s: String| s@),
            expires: self.expires,
            not_before: self.not_before,
        }
    }
}

impl Claims {
    /// An exact copy of these claims.
    pub fn duplicate(&self) -> (r: Claims)
        ensures
            r@ == self@,
    {
        let mut caps: Vec<String> = Vec::new();
        let mut i: usize = 0;
        while i < self.caps.len()
            invariant
                i <= self.caps@.len(),
                caps@ =~= self.caps@.take(i as int),
            decreases self.caps@.len() - i,
        {
            caps.push(self.caps[i].clone());
            proof {
                assert(caps@ =~= self.caps@.take(i + 1 as int));
            }
            i = i + 1;
        }
        let r = Claims {
            subject: self.subject.clone(),
            issuer: self.issuer.clone(),
            caps,
            expires: self.expires,
            not_before: self.not_before,
        };
        proof {
            assert(r.caps@ =~= self.caps@);
            assert(r@ =~= self@);
        }
        r
    }
}

/// Whether two string slices hold the same characters.
pub fn str_eq(a: &str, b: &str) -> (r: bool)
    ensures
        r == (a@ == b@),
{
    let x: String = a.to_owned();
    let y: String = b.to_owned();
    x == y
}

/// Whether the capability set `caps` lists the capability id `capid`.
pub open spec fn spec_has_cap(caps: Seq<Seq<char>>, capid: Seq<char>) -> bool {
    exists|i: int| 0 <= i < caps.len() && caps[i] == capid
}

/// Whether `claims` permit an invocation of the capability `capid`:
/// the claims list the capability, or the capability is the built-in
/// extras provider, or the caller is the host itself.
pub open spec fn spec_can_invoke(claims: ClaimsView, capid: Seq<char>) -> bool {
    spec_has_cap(claims.caps, capid) || capid == CAPABILITY_EXTRAS@ || claims.subject
        == SYSTEM_ACTOR@
}

/// Whether the capability list of `claims` contains `capid`.
pub fn has_cap(claims: &Claims, capid: &str) -> (r: bool)
    ensures
        r == spec_has_cap(claims@.caps, capid@),
{
    let mut i: usize = 0;
    while i < claims.caps.len()
        invariant
            i <= claims.caps@.len(),
            forall|j: int| 0 <= j < i ==> claims@.caps[j] != capid@,
        decreases claims.caps@.len() - i,
    {
        if str_eq(claims.caps[i].as_str(), capid) {
            proof {
                assert(claims@.caps[i as int] == capid@);
            }
            return true;
        }
        i = i + 1;
    }
    false
}

/// Decides whether the actor holding `claims` may invoke the capability
/// `capid`: true iff the claims list the capability, or the capability is
/// the built-in extras provider, or the caller is the host itself.
pub fn can_invoke(claims: &Claims, capid: &str) -> (r: bool)
    ensures
        r == spec_can_invoke(claims@, capid@),
{
    if has_cap(claims, capid) {
        return true;
    }
    if str_eq(capid, CAPABILITY_EXTRAS) {
        return true;
    }
    str_eq(claims.subject.as_str(), SYSTEM_ACTOR)
}

/// Whether a string has the shape of an actor public key: 56 characters,
/// the first one `M`.
pub open spec fn spec_is_module_key(s: Seq<char>) -> bool {
    s.len() == 56 && s[0] == 'M'
}

/// Whether `s` has the shape of an actor public key.
pub fn is_module_key(s: &str) -> (r: bool)
    ensures
        r == spec_is_module_key(s@),
{
    if s.unicode_len() != 56 {
        return false;
    }
    s.get_char(0) == 'M'
}

/// Whether `s` begins with the character `M`.
pub fn starts_with_m(s: &str) -> (r: bool)
    ensures
        r == (s@.len() > 0 && s@[0] == 'M'),
{
    if s.unicode_len() == 0 {
        return false;
    }
    s.get_char(0) == 'M'
}

/// The message of the error that a failed token validation produces:
/// the signature is checked first, then expiry, then the not-before time.
pub open spec fn spec_validation_message(v: TokenValidation) -> Seq<char> {
    if !v.signature_valid {
        "token signature is invalid"@
    } else if v.expired {
        "token has expired"@
    } else {
        "token cannot be used yet"@
    }
}

/// Whether a validation outcome admits the token.
pub open spec fn spec_validation_ok(v: TokenValidation) -> bool {
    v.signature_valid && !v.expired && !v.cannot_use_yet
}

/// Turns the outcome of token validation into the host's decision: the
/// token is accepted exactly when the signature verified and the validity
/// window contains the present; otherwise a claims-validation error names
/// the first failed check.
pub fn enforce_validation(v: &TokenValidation) -> (r: Result<(), Error>)
    ensures
        r is Ok <==> spec_validation_ok(*v),
        r matches Err(e) ==> e.kind == ErrorKind::ClaimsValidation && e.message@
            == spec_validation_message(*v),
{
    if !v.signature_valid {
        Err(
            Error::new(
                ErrorKind::ClaimsValidation,
                String::from_str("token signature is invalid"),
            ),
        )
    } else if v.expired {
        Err(Error::new(ErrorKind::ClaimsValidation, String::from_str("token has expired")))
    } else if v.cannot_use_yet {
        Err(Error::new(ErrorKind::ClaimsValidation, String::from_str("token cannot be used yet")))
    } else {
        Ok(())
    }
}

} // verus!
