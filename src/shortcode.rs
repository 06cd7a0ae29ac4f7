use vstd::prelude::*;
use vstd::string::*;
use crate::error::ClipError;

verus! {

/// The characters a generated shortcode is made of.
pub const ALPHABET: &'static str = "0123456789abcdefghijklmnopqrstuvwxyzABCDEFGHIJKLMNOPQRSTUVWXYZ";

/// The character that a random draw `d` selects.
pub open spec fn code_char(d: u8) -> char {
    ALPHABET@[(d % 62) as int]
}

/// The shortcode that a sequence of random draws yields.
pub open spec fn code_of(draws: Seq<u8>) -> Seq<char> {
    Seq::new(draws.len(), |i: int| code_char(draws[i]))
}

/// The short, shareable key of a clip; never empty.
#[derive(Debug)]
pub struct ShortCode(String);

impl View for ShortCode {
    type V = Seq<char>;

    closed spec fn view(&self) -> Seq<char> {
        self.0@
    }
}

impl ShortCode {
    pub closed spec fn wf(&self) -> bool {
        self.0@.len() > 0
    }

    /// Accepts any non-empty text; whether a clip has it is for the store
    /// to say.
    pub fn new(code: &str) -> (r: Result<ShortCode, ClipError>)
        ensures
            match r {
                Ok(c) => code@.len() > 0 && c.wf() && c@ == code@,
                Err(e) => code@.len() == 0 && e == ClipError::InvalidShortCode,
            },
    {
        if code.unicode_len() == 0 {
            Err(ClipError::InvalidShortCode)
        } else {
            Ok(ShortCode(code.to_string()))
        }
    }

    /// Builds a shortcode from random draws, one character per draw.
    pub fn generate(draws: &Vec<u8>) -> (r: ShortCode)
        requires
            draws@.len() > 0,
        ensures
            r.wf(),
            r@ == code_of(draws@),
    {
        proof {
            reveal_strlit("0123456789abcdefghijklmnopqrstuvwxyzABCDEFGHIJKLMNOPQRSTUVWXYZ");
        }
        assert(ALPHABET.is_ascii());
        let mut code = String::new();
        let mut i: usize = 0;
        while i < draws.len()
            invariant
                i <= draws@.len(),
                ALPHABET@.len() == 62,
                ALPHABET.is_ascii(),
                code@ =~= code_of(draws@.subrange(0, i as int)),
            decreases draws@.len() - i,
        {
            let k: usize = (draws[i] % 62) as usize;
            let piece = ALPHABET.substring_ascii(k, k + 1);
            code.append(piece);
            i = i + 1;
        }
        assert(draws@.subrange(0, draws@.len() as int) =~= draws@);
        ShortCode(code)
    }

    pub fn as_str(&self) -> (r: &str)
        ensures
            r@ == self@,
    {
        self.0.as_str()
    }

    pub fn into_inner(self) -> (r: String)
        ensures
            r@ == self@,
    {
        self.0
    }

    /// Tells whether two shortcodes are the same text.
    pub fn same(&self, other: &ShortCode) -> (r: bool)
        ensures
            r == (self@ == other@),
    {
        self.0.eq(&other.0)
    }
}

impl Clone for ShortCode {
    fn clone(&self) -> (r: Self)
        ensures
            r@ == self@,
            r.wf() == self.wf(),
    {
        ShortCode(self.0.clone())
    }
}

} // verus!
