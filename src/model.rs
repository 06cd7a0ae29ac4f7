use vstd::prelude::*;
use crate::field::{Content, Expires, Title};
use crate::password::Password;
use crate::shortcode::ShortCode;

verus! {

/// The abstract value of a stored clip.
pub struct ClipV {
    pub clip_id: Seq<char>,
    pub shortcode: Seq<char>,
    pub content: Seq<char>,
    pub title: Option<Seq<char>>,
    pub posted: i64,
    pub expires: Option<i64>,
    pub password: Option<Seq<char>>,
    pub hits: u64,
}

/// A stored clip, as the store hands it out.
#[derive(Debug)]
pub struct Clip {
    pub clip_id: String,
    pub shortcode: ShortCode,
    pub content: Content,
    pub title: Title,
    pub posted: i64,
    pub expires: Expires,
    pub password: Password,
    pub hits: u64,
}

impl View for Clip {
    type V = ClipV;

    open spec fn view(&self) -> ClipV {
        ClipV {
            clip_id: self.clip_id@,
            shortcode: self.shortcode@,
            content: self.content@,
            title: self.title@,
            posted: self.posted,
            expires: self.expires@,
            password: self.password@,
            hits: self.hits,
        }
    }
}

impl Clip {
    pub open spec fn wf(&self) -> bool {
        &&& self.shortcode.wf()
        &&& self.content.wf()
        &&& self.title.wf()
        &&& self.password.wf()
    }
}

impl Clone for Clip {
    fn clone(&self) -> (r: Self)
        ensures
            r@ == self@,
            r.wf() == self.wf(),
    {
        Clip {
            clip_id: self.clip_id.clone(),
            shortcode: self.shortcode.clone(),
            content: self.content.clone(),
            title: self.title.clone(),
            posted: self.posted,
            expires: self.expires,
            password: self.password.clone(),
            hits: self.hits,
        }
    }
}

/// A request to store a new clip, with its identifier and shortcode
/// already drawn.
#[derive(Debug)]
pub struct NewClip {
    pub clip_id: String,
    pub shortcode: ShortCode,
    pub content: Content,
    pub title: Title,
    pub posted: i64,
    pub expires: Expires,
    pub password: Password,
}

impl NewClip {
    pub open spec fn wf(&self) -> bool {
        &&& self.shortcode.wf()
        &&& self.content.wf()
        &&& self.title.wf()
        &&& self.password.wf()
    }

    /// The row that storing this request creates: no hits yet.
    pub open spec fn row(&self) -> ClipV {
        ClipV {
            clip_id: self.clip_id@,
            shortcode: self.shortcode@,
            content: self.content@,
            title: self.title@,
            posted: self.posted,
            expires: self.expires@,
            password: self.password@,
            hits: 0,
        }
    }
}

/// A request to replace the editable fields of the clip with `shortcode`.
#[derive(Debug)]
pub struct UpdateClip {
    pub shortcode: ShortCode,
    pub content: Content,
    pub title: Title,
    pub expires: Expires,
    pub password: Password,
}

impl UpdateClip {
    pub open spec fn wf(&self) -> bool {
        &&& self.content.wf()
        &&& self.title.wf()
        &&& self.password.wf()
    }

    /// What the update makes of a row: the editable fields change; the
    /// identifier, shortcode, creation time and hit count stay.
    pub open spec fn apply(&self, v: ClipV) -> ClipV {
        ClipV {
            content: self.content@,
            title: self.title@,
            expires: self.expires@,
            password: self.password@,
            ..v
        }
    }
}

/// A lookup of a clip, with the password the reader offers.
#[derive(Debug)]
pub struct GetClip {
    pub shortcode: ShortCode,
    pub password: Password,
}

/// A credential for programmatic access: an opaque byte sequence.
#[derive(Debug)]
pub struct ApiKey(Vec<u8>);

impl View for ApiKey {
    type V = Seq<u8>;

    closed spec fn view(&self) -> Seq<u8> {
        self.0@
    }
}

impl ApiKey {
    pub fn new(bytes: Vec<u8>) -> (r: ApiKey)
        ensures
            r@ == bytes@,
    {
        ApiKey(bytes)
    }

    pub fn into_inner(self) -> (r: Vec<u8>)
        ensures
            r@ == self@,
    {
        self.0
    }

    /// Tells whether two keys hold the same bytes.
    pub fn same(&self, other: &ApiKey) -> (r: bool)
        ensures
            r == (self@ == other@),
    {
        let n = self.0.len();
        if n != other.0.len() {
            return false;
        }
        let mut i: usize = 0;
        while i < n
            invariant
                n == self.0@.len(),
                n == other.0@.len(),
                i <= n,
                forall|j: int| 0 <= j < i ==> self.0@[j] == other.0@[j],
            decreases n - i,
        {
            if self.0[i] != other.0[i] {
                return false;
            }
            i = i + 1;
        }
        assert(self.0@ =~= other.0@);
        true
    }
}

impl Clone for ApiKey {
    fn clone(&self) -> (r: Self)
        ensures
            r@ == self@,
    {
        ApiKey(self.0.clone())
    }
}

} // verus!
