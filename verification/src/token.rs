//! Bearer-token authorization for the upload paths.
//!
//! The surrounding service hands every value a request supplied for its
//! token header to [`UploadToken::from_headers`]; exactly one value must be
//! present and must match one of the accepted tokens.
use vstd::prelude::*;

use vstd::string::StrSliceExecFns;

verus! {

/// A token a client presented and the service accepted.
#[derive(PartialOrd, PartialEq, Debug)]
pub struct UploadToken(String);

impl View for UploadToken {
    type V = Seq<char>;

    closed spec fn view(&self) -> Seq<char> {
        self.0@
    }
}

/// The set of tokens the service was configured to accept.
pub struct ValidTokens(Vec<UploadToken>);

impl View for ValidTokens {
    type V = Seq<Seq<char>>;

    closed spec fn view(&self) -> Seq<Seq<char>> {
        Seq::new(self.0@.len(), |i: int| self.0@[i]@)
    }
}

/// Why a request's token header was rejected.
#[derive(Debug, Clone, Copy, PartialEq, Eq)]
pub enum UploadTokenError {
    /// More than one token value was supplied.
    BadCount,
    /// No token value was supplied.
    Missing,
    /// The one supplied value matches no accepted token.
    Invalid,
}

/// Character-for-character equality of two text slices.
pub fn str_eq(a: &str, b: &str) -> (r: bool)
    ensures
        r == (a@ == b@),
{
    let na = a.unicode_len();
    let nb = b.unicode_len();
    if na != nb {
        return false;
    }
    let mut i: usize = 0;
    while i < na
        invariant
            na == a@.len(),
            na == b@.len(),
            i <= na,
            forall|j: int| 0 <= j < i ==> a@[j] == b@[j],
        decreases na - i,
    {
        if a.get_char(i) != b.get_char(i) {
            return false;
        }
        i += 1;
    }
    proof {
        assert(a@ =~= b@);
    }
    true
}

impl ValidTokens {
    /// Collects the accepted tokens from their plain text forms.
    pub fn from_tokens(tokens: Vec<String>) -> (r: ValidTokens)
        ensures
            r@.len() == tokens@.len(),
            forall|i: int| 0 <= i < tokens@.len() ==> r@[i] == tokens@[i]@,
    {
        let mut list: Vec<UploadToken> = Vec::new();
        let n = tokens.len();
        for i in 0..n
            invariant
                n == tokens@.len(),
                list@.len() == i,
                forall|j: int| 0 <= j < i ==> list@[j]@ == tokens@[j]@,
        {
            list.push(UploadToken(tokens[i].clone()));
        }
        let r = ValidTokens(list);
        proof {
            assert(forall|i: int| 0 <= i < tokens@.len() ==> r@[i] == tokens@[i]@);
        }
        r
    }

    /// Whether `token` is exactly one of the accepted tokens.
    pub fn contains(&self, token: &str) -> (r: bool)
        ensures
            r == self@.contains(token@),
    {
        let n = self.0.len();
        let mut i: usize = 0;
        while i < n
            invariant
                n == self.0@.len(),
                i <= n,
                forall|j: int| 0 <= j < i ==> self@[j] != token@,
            decreases n - i,
        {
            if str_eq(self.0[i].0.as_str(), token) {
                assert(self@[i as int] == token@);
                return true;
            }
            i += 1;
        }
        false
    }
}

impl UploadToken {
    /// Decides the authorization outcome for the token header values a
    /// request carried: no value is a missing token, several are a bad
    /// count, and a single value is accepted exactly when it is one of the
    /// configured tokens.
    pub fn from_headers(accepted: &ValidTokens, keys: &Vec<String>) -> (r: Result<
        UploadToken,
        UploadTokenError,
    >)
        ensures
            match r {
                Ok(t) => keys@.len() == 1 && accepted@.contains(keys@[0]@) && t@ == keys@[0]@,
                Err(UploadTokenError::Missing) => keys@.len() == 0,
                Err(UploadTokenError::Invalid) => keys@.len() == 1 && !accepted@.contains(
                    keys@[0]@,
                ),
                Err(UploadTokenError::BadCount) => keys@.len() > 1,
            },
    {
        if keys.len() == 0 {
            Err(UploadTokenError::Missing)
        } else if keys.len() == 1 {
            let key = &keys[0];
            if accepted.contains(key.as_str()) {
                Ok(UploadToken(key.clone()))
            } else {
                Err(UploadTokenError::Invalid)
            }
        } else {
            Err(UploadTokenError::BadCount)
        }
    }
}

} // verus!
