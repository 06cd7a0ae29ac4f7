use vstd::prelude::*;
use crate::error::ClipError;
use crate::text::{blank, is_blank};

verus! {

/// The password that a clip was stored with, as a normalised text:
/// a blank or absent text means the clip is unprotected.
pub open spec fn normalized_password(s: Option<Seq<char>>) -> Option<Seq<char>> {
    match s {
        Some(t) => if is_blank(t) { None } else { Some(t) },
        None => None,
    }
}

/// An optional password guarding read access to a clip. A value of this
/// type never holds a blank text.
#[derive(Debug)]
pub struct Password(Option<String>);

impl View for Password {
    type V = Option<Seq<char>>;

    closed spec fn view(&self) -> Option<Seq<char>> {
        self.0.deep_view()
    }
}

impl Password {
    /// Every password value holds either nothing or a text that is not blank.
    pub closed spec fn wf(&self) -> bool {
        match self.0 {
            Some(s) => !is_blank(s@),
            None => true,
        }
    }

    /// Builds a password from user input; a blank or absent text gives
    /// the unprotected value. It never fails.
    pub fn new(password: Option<String>) -> (r: Result<Password, ClipError>)
        ensures
            match r {
                Ok(p) => p.wf() && p@ == normalized_password(password.deep_view()),
                Err(_) => false,
            },
    {
        match password {
            Some(password) => {
                if blank(password.as_str()) {
                    Ok(Password(None))
                } else {
                    Ok(Password(Some(password)))
                }
            },
            None => Ok(Password(None)),
        }
    }

    /// The unprotected value.
    pub fn none() -> (r: Password)
        ensures
            r.wf(),
            r@ == None::<Seq<char>>,
    {
        Password(None)
    }

    pub fn into_inner(self) -> (r: Option<String>)
        ensures
            r.deep_view() == self@,
    {
        self.0
    }

    pub fn has_password(self) -> (r: bool)
        ensures
            r == self@.is_some(),
    {
        self.0.is_some()
    }

    /// The password text, or an empty text when there is none.
    pub fn as_str(&self) -> (r: &str)
        ensures
            r@ == match self@ {
                Some(s) => s,
                None => Seq::<char>::empty(),
            },
    {
        match &self.0 {
            Some(s) => s.as_str(),
            None => {
                proof {
                    reveal_strlit("");
                }
                ""
            },
        }
    }

    /// Tells whether an attempt opens a clip guarded by this password:
    /// always for an unprotected clip, otherwise only for the same text.
    pub fn admits(&self, attempt: &Password) -> (r: bool)
        ensures
            r == match self@ {
                None => true,
                Some(s) => attempt@ == Some(s),
            },
    {
        match &self.0 {
            None => true,
            Some(s) => match &attempt.0 {
                Some(a) => s.eq(a),
                None => false,
            },
        }
    }
}

impl Clone for Password {
    fn clone(&self) -> (r: Self)
        ensures
            r@ == self@,
            r.wf() == self.wf(),
    {
        match &self.0 {
            Some(s) => Password(Some(s.clone())),
            None => Password(None),
        }
    }
}

impl Default for Password {
    fn default() -> (r: Self)
        ensures
            r.wf(),
            r@ == None::<Seq<char>>,
    {
        Password(None)
    }
}

impl std::str::FromStr for Password {
    type Err = ClipError;

    fn from_str(s: &str) -> (r: Result<Password, ClipError>)
        ensures
            match r {
                Ok(p) => p.wf() && p@ == normalized_password(Some(s@)),
                Err(_) => false,
            },
    {
        Password::new(Some(s.to_string()))
    }
}

} // verus!
