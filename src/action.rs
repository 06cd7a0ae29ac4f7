use vstd::prelude::*;
use crate::error::ServiceError;
use crate::model::{ApiKey, Clip, ClipV, GetClip, NewClip, UpdateClip};
use crate::password::Password;
use crate::store::{self, Database, RevocationStatus, bump, codes_unique, find, lemma_find_at, revise};

verus! {

/// A clip with expiry `expires` is past it at `now` (seconds since the
/// Unix epoch) once that moment lies before `now`.
pub open spec fn is_expired(expires: Option<i64>, now: i64) -> bool {
    match expires {
        Some(t) => t < now,
        None => false,
    }
}

/// Whether a reader offering `attempt` at `now` may see the clip `v`: a
/// password on the clip must be matched, and an expired clip reads as
/// missing.
pub open spec fn access(v: ClipV, attempt: Option<Seq<char>>, now: i64) -> Result<(), ServiceError> {
    if v.password.is_some() && attempt != v.password {
        Err(ServiceError::PermissionError)
    } else if is_expired(v.expires, now) {
        Err(ServiceError::NotFound)
    } else {
        Ok(())
    }
}

/// The clip as a successful read leaves it: one more hit, unless the
/// counter is already at its largest value.
pub open spec fn counted(v: ClipV) -> ClipV {
    if v.hits < u64::MAX {
        ClipV { hits: (v.hits + 1) as u64, ..v }
    } else {
        v
    }
}

/// A clip stored with a password is found again under its shortcode and
/// opens to that password alone: any other attempt, or none, is refused.
pub proof fn lemma_password_round_trip(rows: Seq<ClipV>, req: &NewClip, attempt: Option<Seq<char>>, now: i64)
    requires
        codes_unique(rows),
        find(rows, req.shortcode@).is_none(),
        req.password@.is_some(),
        !is_expired(req.expires@, now),
    ensures
        codes_unique(rows.push(req.row())),
        find(rows.push(req.row()), req.shortcode@) == Some(req.row()),
        access(req.row(), attempt, now) == if attempt == req.password@ {
            Ok::<(), ServiceError>(())
        } else {
            Err::<(), ServiceError>(ServiceError::PermissionError)
        },
{
    let after = rows.push(req.row());
    assert forall|a: int, b: int| 0 <= a < after.len() && 0 <= b < after.len() && a != b
        implies #[trigger] after[a].shortcode != #[trigger] after[b].shortcode by {
        if a < rows.len() && b < rows.len() {
            assert(after[a] == rows[a]);
            assert(after[b] == rows[b]);
        } else if a < rows.len() {
            assert(after[a] == rows[a]);
        } else {
            assert(after[b] == rows[b]);
        }
    }
    lemma_find_at(after, req.shortcode@, rows.len() as int);
}

/// Decides whether `attempt`, offered at `now`, opens `clip`.
pub fn check_access(clip: &Clip, attempt: &Password, now: i64) -> (r: Result<(), ServiceError>)
    ensures
        r == access(clip@, attempt@, now),
{
    if !clip.password.admits(attempt) {
        return Err(ServiceError::PermissionError);
    }
    match clip.expires.into_inner() {
        Some(t) => {
            if t < now {
                Err(ServiceError::NotFound)
            } else {
                Ok(())
            }
        },
        None => Ok(()),
    }
}

/// Stores a new clip.
pub fn new_clip(req: NewClip, db: &mut Database) -> (r: Result<Clip, ServiceError>)
    requires
        old(db).wf(),
        req.wf(),
    ensures
        final(db).wf(),
        final(db).keys() == old(db).keys(),
        match r {
            Ok(c) => {
                &&& find(old(db).rows(), req.shortcode@).is_none()
                &&& final(db).rows() == old(db).rows().push(req.row())
                &&& c@ == req.row()
            },
            Err(e) => {
                &&& find(old(db).rows(), req.shortcode@).is_some()
                &&& e == ServiceError::Data
                &&& final(db).rows() == old(db).rows()
            },
        },
{
    match store::new_clip(req, db) {
        Ok(c) => Ok(c),
        Err(e) => Err(ServiceError::from_data(e)),
    }
}

/// Reads a clip for a reader: refuses a reader without the clip's
/// password, hides an expired clip, and otherwise counts the read and
/// hands out the clip as it now stands. The count is best effort: a
/// counter at its largest value stays there and the read still succeeds.
pub fn get_clip(req: GetClip, now: i64, db: &mut Database) -> (r: Result<Clip, ServiceError>)
    requires
        old(db).wf(),
    ensures
        final(db).wf(),
        final(db).keys() == old(db).keys(),
        match find(old(db).rows(), req.shortcode@) {
            None => r == Err::<Clip, ServiceError>(ServiceError::NotFound)
                && final(db).rows() == old(db).rows(),
            Some(v) => match access(v, req.password@, now) {
                Err(e) => r == Err::<Clip, ServiceError>(e) && final(db).rows() == old(db).rows(),
                Ok(_) => {
                    &&& r matches Ok(c) && c@ == counted(v)
                    &&& final(db).rows() == if v.hits < u64::MAX {
                        bump(old(db).rows(), req.shortcode@, 1)
                    } else {
                        old(db).rows()
                    }
                },
            },
        },
{
    let clip = match store::get_clip(&req.shortcode, db) {
        Ok(c) => c,
        Err(e) => return Err(ServiceError::from_data(e)),
    };
    check_access(&clip, &req.password, now)?;
    let _ = store::increase_hit_count(&req.shortcode, 1, db);
    proof {
        let old_rows = old(db).rows();
        let v = clip@;
        old(db).lemma_wf_unique();
        if v.hits < u64::MAX {
            let i = choose|i: int| 0 <= i < old_rows.len() && (#[trigger] old_rows[i]).shortcode == req.shortcode@;
            store::lemma_find_at(old_rows, req.shortcode@, i);
            db.lemma_wf_unique();
            assert(db.rows()[i] == counted(v));
            store::lemma_find_at(db.rows(), req.shortcode@, i);
        }
    }
    match store::get_clip(&req.shortcode, db) {
        Ok(c) => Ok(c),
        Err(e) => Err(ServiceError::from_data(e)),
    }
}

/// Replaces the editable fields of a clip.
pub fn update_clip(req: UpdateClip, db: &mut Database) -> (r: Result<Clip, ServiceError>)
    requires
        old(db).wf(),
        req.wf(),
    ensures
        final(db).wf(),
        final(db).keys() == old(db).keys(),
        final(db).rows() == revise(old(db).rows(), &req),
        match find(old(db).rows(), req.shortcode@) {
            Some(v) => r matches Ok(c) && c@ == req.apply(v),
            None => r == Err::<Clip, ServiceError>(ServiceError::NotFound),
        },
{
    match store::update_clip(req, db) {
        Ok(c) => Ok(c),
        Err(e) => Err(ServiceError::from_data(e)),
    }
}

/// Puts a new API key in force.
pub fn generate_api_key(api_key: ApiKey, db: &mut Database) -> (r: Result<ApiKey, ServiceError>)
    requires
        old(db).wf(),
    ensures
        final(db).wf(),
        final(db).rows() == old(db).rows(),
        match r {
            Ok(k) => !old(db).keys().contains(api_key@) && k@ == api_key@
                && final(db).keys() == old(db).keys().insert(api_key@),
            Err(e) => old(db).keys().contains(api_key@) && e == ServiceError::Data
                && final(db).keys() == old(db).keys(),
        },
{
    match store::save_api_key(api_key, db) {
        Ok(k) => Ok(k),
        Err(e) => Err(ServiceError::from_data(e)),
    }
}

/// Withdraws an API key.
pub fn revoke_api_key(api_key: ApiKey, db: &mut Database) -> (r: Result<RevocationStatus, ServiceError>)
    requires
        old(db).wf(),
    ensures
        final(db).wf(),
        final(db).rows() == old(db).rows(),
        final(db).keys() == old(db).keys().remove(api_key@),
        r == Ok::<RevocationStatus, ServiceError>(
            if old(db).keys().contains(api_key@) {
                RevocationStatus::Revoked
            } else {
                RevocationStatus::NotFound
            },
        ),
{
    match store::revoke_api_key(api_key, db) {
        Ok(s) => Ok(s),
        Err(e) => Err(ServiceError::from_data(e)),
    }
}

/// Tells whether an API key is in force.
pub fn api_key_is_valid(api_key: ApiKey, db: &Database) -> (r: Result<bool, ServiceError>)
    requires
        db.wf(),
    ensures
        r == Ok::<bool, ServiceError>(db.keys().contains(api_key@)),
{
    match store::api_key_is_valid(api_key, db) {
        Ok(b) => Ok(b),
        Err(e) => Err(ServiceError::from_data(e)),
    }
}

} // verus!
