use vstd::prelude::*;
use crate::error::ClipError;
use crate::text::{blank, is_blank};

verus! {

/// The body of a clip: any text that is not blank, kept as given.
#[derive(Debug)]
pub struct Content(String);

impl View for Content {
    type V = Seq<char>;

    closed spec fn view(&self) -> Seq<char> {
        self.0@
    }
}

impl Content {
    pub closed spec fn wf(&self) -> bool {
        !is_blank(self.0@)
    }

    /// Accepts `content` unless trimming its whitespace leaves nothing.
    pub fn new(content: &str) -> (r: Result<Content, ClipError>)
        ensures
            match r {
                Ok(c) => !is_blank(content@) && c.wf() && c@ == content@,
                Err(e) => is_blank(content@) && e == ClipError::InvalidContent,
            },
    {
        if blank(content) {
            Err(ClipError::InvalidContent)
        } else {
            Ok(Content(content.to_string()))
        }
    }

    pub fn into_inner(self) -> (r: String)
        ensures
            r@ == self@,
    {
        self.0
    }

    pub fn as_str(&self) -> (r: &str)
        ensures
            r@ == self@,
    {
        self.0.as_str()
    }
}

impl Clone for Content {
    fn clone(&self) -> (r: Self)
        ensures
            r@ == self@,
            r.wf() == self.wf(),
    {
        Content(self.0.clone())
    }
}

/// What a title input stands for: an empty or absent text is no title,
/// any other text (whitespace included) is kept.
pub open spec fn normalized_title(s: Option<Seq<char>>) -> Option<Seq<char>> {
    match s {
        Some(t) => if t.len() == 0 { None } else { Some(t) },
        None => None,
    }
}

/// An optional title of a clip; never an empty text.
#[derive(Debug)]
pub struct Title(Option<String>);

impl View for Title {
    type V = Option<Seq<char>>;

    closed spec fn view(&self) -> Option<Seq<char>> {
        self.0.deep_view()
    }
}

impl Title {
    pub closed spec fn wf(&self) -> bool {
        match self.0 {
            Some(s) => s@.len() > 0,
            None => true,
        }
    }

    /// Builds a title; it always succeeds.
    pub fn new(title: Option<String>) -> (r: Title)
        ensures
            r.wf(),
            r@ == normalized_title(title.deep_view()),
    {
        match title {
            Some(t) => {
                if t.as_str().unicode_len() == 0 {
                    Title(None)
                } else {
                    Title(Some(t))
                }
            },
            None => Title(None),
        }
    }

    pub fn into_inner(self) -> (r: Option<String>)
        ensures
            r.deep_view() == self@,
    {
        self.0
    }
}

impl Clone for Title {
    fn clone(&self) -> (r: Self)
        ensures
            r@ == self@,
            r.wf() == self.wf(),
    {
        match &self.0 {
            Some(s) => Title(Some(s.clone())),
            None => Title(None),
        }
    }
}

/// When a clip stops being readable, in seconds since the Unix epoch;
/// `None` means never.
#[derive(Debug, Clone, Copy, PartialEq, Eq, Structural)]
pub struct Expires(Option<i64>);

impl View for Expires {
    type V = Option<i64>;

    closed spec fn view(&self) -> Option<i64> {
        self.0
    }
}

/// The value of a text of decimal digits.
pub open spec fn digits_value(s: Seq<char>) -> int
    decreases s.len(),
{
    if s.len() == 0 {
        0
    } else {
        10 * digits_value(s.drop_last()) + (s.last() as int - '0' as int)
    }
}

pub open spec fn is_digit(c: char) -> bool {
    '0' <= c && c <= '9'
}

/// A text that names a moment: one or more decimal digits whose value fits
/// an `i64`.
pub open spec fn is_timestamp_text(s: Seq<char>) -> bool {
    &&& s.len() > 0
    &&& forall|i: int| 0 <= i < s.len() ==> is_digit(#[trigger] s[i])
    &&& digits_value(s) <= i64::MAX
}

proof fn lemma_digits_value_nonneg(s: Seq<char>)
    requires
        forall|i: int| 0 <= i < s.len() ==> is_digit(#[trigger] s[i]),
    ensures
        digits_value(s) >= 0,
    decreases s.len(),
{
    if s.len() > 0 {
        let p = s.drop_last();
        assert forall|i: int| 0 <= i < p.len() implies is_digit(#[trigger] p[i]) by {
            assert(p[i] == s[i]);
        }
        lemma_digits_value_nonneg(p);
        assert(is_digit(s[s.len() - 1]));
    }
}

impl Expires {
    /// An expiry given as a moment, or none.
    pub fn new(at: Option<i64>) -> (r: Expires)
        ensures
            r@ == at,
    {
        Expires(at)
    }

    pub fn into_inner(self) -> (r: Option<i64>)
        ensures
            r == self@,
    {
        self.0
    }

    /// Reads an expiry written as a count of seconds since the Unix epoch.
    /// An empty text means the clip never expires; any other text that is
    /// not such a count is refused.
    pub fn parse(text: &str) -> (r: Result<Expires, ClipError>)
        ensures
            text@.len() == 0 ==> (r matches Ok(e) && e@ == None::<i64>),
            text@.len() > 0 ==> match r {
                Ok(e) => is_timestamp_text(text@) && e@ == Some(digits_value(text@) as i64),
                Err(e) => !is_timestamp_text(text@) && e == ClipError::InvalidExpiration,
            },
    {
        let n = text.unicode_len();
        if n == 0 {
            return Ok(Expires(None));
        }
        let mut value: i64 = 0;
        let mut i: usize = 0;
        while i < n
            invariant
                n == text@.len(),
                i <= n,
                forall|j: int| 0 <= j < i ==> is_digit(#[trigger] text@[j]),
                value as int == digits_value(text@.subrange(0, i as int)),
            decreases n - i,
        {
            let c = text.get_char(i);
            let ghost pre = text@.subrange(0, i as int);
            let ghost next = text@.subrange(0, i + 1);
            assert(next.drop_last() =~= pre);
            if c < '0' || c > '9' {
                return Err(ClipError::InvalidExpiration);
            }
            let d: i64 = (c as u32 - '0' as u32) as i64;
            proof {
                assert forall|j: int| 0 <= j < pre.len() implies is_digit(#[trigger] pre[j]) by {
                    assert(pre[j] == text@[j]);
                }
                lemma_digits_value_nonneg(pre);
            }
            if value > (i64::MAX - d) / 10 {
                proof {
                    assert forall|j: int| 0 <= j < next.len() implies is_digit(#[trigger] next[j]) by {
                        assert(next[j] == text@[j]);
                    }
                    lemma_prefix_bound(text@, i as int + 1);
                }
                return Err(ClipError::InvalidExpiration);
            }
            value = value * 10 + d;
            i = i + 1;
        }
        assert(text@.subrange(0, n as int) =~= text@);
        Ok(Expires(Some(value)))
    }
}

/// A digit text is worth at least as much as any of its prefixes.
proof fn lemma_prefix_bound(s: Seq<char>, k: int)
    requires
        0 <= k <= s.len(),
        forall|i: int| 0 <= i < k ==> is_digit(#[trigger] s[i]),
    ensures
        (forall|i: int| 0 <= i < s.len() ==> is_digit(#[trigger] s[i])) ==>
            digits_value(s.subrange(0, k)) <= digits_value(s),
    decreases s.len() - k,
{
    if k < s.len() && (forall|i: int| 0 <= i < s.len() ==> is_digit(#[trigger] s[i])) {
        lemma_prefix_bound(s, k + 1);
        let a = s.subrange(0, k);
        let b = s.subrange(0, k + 1);
        assert(b.drop_last() =~= a);
        assert forall|i: int| 0 <= i < a.len() implies is_digit(#[trigger] a[i]) by {
            assert(a[i] == s[i]);
        }
        lemma_digits_value_nonneg(a);
        assert(is_digit(s[k]));
    } else if k == s.len() {
        assert(s.subrange(0, k) =~= s);
    }
}

} // verus!
