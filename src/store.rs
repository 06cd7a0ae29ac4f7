use vstd::prelude::*;
use crate::error::DataError;
use crate::model::{ApiKey, Clip, ClipV, NewClip, UpdateClip};
use crate::shortcode::ShortCode;

verus! {

/// What revoking an API key found.
#[derive(Debug, Clone, Copy, PartialEq, Eq, Structural)]
pub enum RevocationStatus {
    Revoked,
    NotFound,
}

/// No two rows share a shortcode.
pub open spec fn codes_unique(rows: Seq<ClipV>) -> bool {
    forall|i: int, j: int|
        0 <= i < rows.len() && 0 <= j < rows.len() && i != j
            ==> #[trigger] rows[i].shortcode != #[trigger] rows[j].shortcode
}

/// The row with shortcode `code`, if there is one.
pub open spec fn find(rows: Seq<ClipV>, code: Seq<char>) -> Option<ClipV> {
    if exists|i: int| 0 <= i < rows.len() && (#[trigger] rows[i]).shortcode == code {
        Some(rows[choose|i: int| 0 <= i < rows.len() && (#[trigger] rows[i]).shortcode == code])
    } else {
        None
    }
}

/// The rows after adding `n` to the hit count of the row with `code`.
pub open spec fn bump(rows: Seq<ClipV>, code: Seq<char>, n: int) -> Seq<ClipV> {
    rows.map_values(|r: ClipV| if r.shortcode == code { ClipV { hits: (r.hits + n) as u64, ..r } } else { r })
}

/// The rows after an update of the row it names.
pub open spec fn revise(rows: Seq<ClipV>, req: &UpdateClip) -> Seq<ClipV> {
    rows.map_values(|r: ClipV| if r.shortcode == req.shortcode@ { req.apply(r) } else { r })
}

/// The rows of a shortcode-unique table, found by index.
pub proof fn lemma_find_at(rows: Seq<ClipV>, code: Seq<char>, i: int)
    requires
        codes_unique(rows),
        0 <= i < rows.len(),
        rows[i].shortcode == code,
    ensures
        find(rows, code) == Some(rows[i]),
{
    let j = choose|j: int| 0 <= j < rows.len() && (#[trigger] rows[j]).shortcode == code;
    assert(rows[j].shortcode == rows[i].shortcode);
}

/// The two tables of the clip service, held in memory: clips keyed by
/// shortcode, and the set of API keys in force. Every operation is one
/// atomic step on them.
#[derive(Debug)]
pub struct Database {
    clips: Vec<Clip>,
    api_keys: Vec<ApiKey>,
}

impl Database {
    /// The clip rows, in order of insertion.
    pub closed spec fn rows(&self) -> Seq<ClipV> {
        self.clips@.map_values(|c: Clip| c@)
    }

    /// The API keys in force.
    pub closed spec fn keys(&self) -> Set<Seq<u8>> {
        Set::new(|k: Seq<u8>| exists|i: int| 0 <= i < self.api_keys@.len() && (#[trigger] self.api_keys@[i])@ == k)
    }

    pub closed spec fn wf(&self) -> bool {
        &&& codes_unique(self.rows())
        &&& forall|i: int| 0 <= i < self.clips@.len() ==> (#[trigger] self.clips@[i]).wf()
        &&& forall|i: int, j: int|
            0 <= i < self.api_keys@.len() && 0 <= j < self.api_keys@.len() && i != j
                ==> (#[trigger] self.api_keys@[i])@ != (#[trigger] self.api_keys@[j])@
    }

    pub proof fn lemma_wf_unique(&self)
        requires
            self.wf(),
        ensures
            codes_unique(self.rows()),
    {
    }

    /// An empty store.
    pub fn new() -> (r: Database)
        ensures
            r.wf(),
            r.rows() == Seq::<ClipV>::empty(),
            r.keys() == Set::<Seq<u8>>::empty(),
    {
        let r = Database { clips: Vec::new(), api_keys: Vec::new() };
        assert(r.rows() =~= Seq::<ClipV>::empty());
        assert(r.keys() =~= Set::<Seq<u8>>::empty());
        r
    }

    fn position(&self, code: &ShortCode) -> (r: Option<usize>)
        requires
            self.wf(),
        ensures
            match r {
                Some(i) => i < self.clips@.len() && self.rows()[i as int].shortcode == code@
                    && find(self.rows(), code@) == Some(self.rows()[i as int]),
                None => find(self.rows(), code@).is_none(),
            },
    {
        let mut i: usize = 0;
        while i < self.clips.len()
            invariant
                self.wf(),
                i <= self.clips@.len(),
                forall|j: int| 0 <= j < i ==> (#[trigger] self.rows()[j]).shortcode != code@,
            decreases self.clips@.len() - i,
        {
            if self.clips[i].shortcode.same(code) {
                proof {
                    lemma_find_at(self.rows(), code@, i as int);
                }
                return Some(i);
            }
            i = i + 1;
        }
        None
    }

    fn key_position(&self, key: &ApiKey) -> (r: Option<usize>)
        requires
            self.wf(),
        ensures
            match r {
                Some(i) => i < self.api_keys@.len() && self.api_keys@[i as int]@ == key@
                    && self.keys().contains(key@),
                None => !self.keys().contains(key@),
            },
    {
        let mut i: usize = 0;
        while i < self.api_keys.len()
            invariant
                i <= self.api_keys@.len(),
                forall|j: int| 0 <= j < i ==> (#[trigger] self.api_keys@[j])@ != key@,
            decreases self.api_keys@.len() - i,
        {
            if self.api_keys[i].same(key) {
                return Some(i);
            }
            i = i + 1;
        }
        None
    }

}

/// The clip with shortcode `code`.
pub fn get_clip(code: &ShortCode, db: &Database) -> (r: Result<Clip, DataError>)
    requires
        db.wf(),
    ensures
        match find(db.rows(), code@) {
            Some(v) => r matches Ok(c) && c@ == v && c.wf(),
            None => r == Err::<Clip, DataError>(DataError::NotFound),
        },
{
    match db.position(code) {
        Some(i) => Ok(db.clips[i].clone()),
        None => Err(DataError::NotFound),
    }
}
/// Stores a new clip with no hits, then reads it back by its shortcode.
/// A shortcode already in use is refused and nothing changes.
pub fn new_clip(req: NewClip, db: &mut Database) -> (r: Result<Clip, DataError>)
    requires
        old(db).wf(),
        req.wf(),
    ensures
        final(db).wf(),
        final(db).keys() == old(db).keys(),
        match r {
            Ok(c) => {
                &&& find(old(db).rows(), req.shortcode@).is_none()
                &&& final(db).rows() == old(db).rows().push(req.row())
                &&& c@ == req.row()
                &&& c.wf()
            },
            Err(e) => {
                &&& find(old(db).rows(), req.shortcode@).is_some()
                &&& e == DataError::Duplicate
                &&& final(db).rows() == old(db).rows()
            },
        },
{
    if db.position(&req.shortcode).is_some() {
        return Err(DataError::Duplicate);
    }
    let code = req.shortcode.clone();
    let row = Clip {
        clip_id: req.clip_id,
        shortcode: req.shortcode,
        content: req.content,
        title: req.title,
        posted: req.posted,
        expires: req.expires,
        password: req.password,
        hits: 0,
    };
    let ghost before = db.rows();
    let ghost n = db.clips@.len();
    db.clips.push(row);
    proof {
        assert(db.rows() =~= before.push(req.row()));
        assert(db.keys() =~= old(db).keys());
        assert forall|i: int, j: int|
            0 <= i < db.rows().len() && 0 <= j < db.rows().len() && i != j
                implies #[trigger] db.rows()[i].shortcode != #[trigger] db.rows()[j].shortcode by {
            if i < n && j < n {
                assert(db.rows()[i] == before[i]);
                assert(db.rows()[j] == before[j]);
            } else if i < n {
                assert(db.rows()[i] == before[i]);
                if before[i].shortcode == code@ {
                    lemma_find_at(before, code@, i);
                }
            } else {
                assert(db.rows()[j] == before[j]);
                if before[j].shortcode == code@ {
                    lemma_find_at(before, code@, j);
                }
            }
        }
        lemma_find_at(db.rows(), code@, n as int);
    }
    get_clip(&code, db)
}

/// Replaces the editable fields of the clip that `req` names, then
/// reads it back. Without such a clip nothing changes.
pub fn update_clip(req: UpdateClip, db: &mut Database) -> (r: Result<Clip, DataError>)
    requires
        old(db).wf(),
        req.wf(),
    ensures
        final(db).wf(),
        final(db).keys() == old(db).keys(),
        final(db).rows() == revise(old(db).rows(), &req),
        match find(old(db).rows(), req.shortcode@) {
            Some(v) => r matches Ok(c) && c@ == req.apply(v) && c.wf() && {
                &&& c@.shortcode == v.shortcode
                &&& c@.clip_id == v.clip_id
                &&& c@.posted == v.posted
                &&& c@.hits == v.hits
                &&& c@.content == req.content@
            },
            None => r == Err::<Clip, DataError>(DataError::NotFound),
        },
{
    let ghost before = db.rows();
    match db.position(&req.shortcode) {
        None => {
            proof {
                assert(revise(before, &req) =~= before);
            }
            Err(DataError::NotFound)
        },
        Some(i) => {
            let code = req.shortcode.clone();
            let ghost req_v = req.apply(before[i as int]);
            proof {
                assert(revise(before, &req) =~= before.update(i as int, req_v)) by {
                    assert forall|k: int| 0 <= k < before.len() && k != i
                        implies before[k].shortcode != req.shortcode@ by {
                    }
                }
            }
            db.clips[i].content = req.content;
            db.clips[i].title = req.title;
            db.clips[i].expires = req.expires;
            db.clips[i].password = req.password;
            proof {
                assert(db.rows() =~= before.update(i as int, req_v));
                assert(db.keys() =~= old(db).keys());
                assert forall|a: int, b: int|
                    0 <= a < db.rows().len() && 0 <= b < db.rows().len() && a != b
                        implies #[trigger] db.rows()[a].shortcode != #[trigger] db.rows()[b].shortcode by {
                    assert(db.rows()[a].shortcode == before[a].shortcode);
                    assert(db.rows()[b].shortcode == before[b].shortcode);
                }
                lemma_find_at(db.rows(), code@, i as int);
            }
            get_clip(&code, db)
        },
    }
}

/// Adds `hits` to the hit count of the clip with shortcode `code`, in
/// one step; without such a clip nothing changes. A count that would
/// pass `u64::MAX` is refused and nothing changes.
pub fn increase_hit_count(code: &ShortCode, hits: u32, db: &mut Database) -> (r: Result<(), DataError>)
    requires
        old(db).wf(),
    ensures
        final(db).wf(),
        final(db).keys() == old(db).keys(),
        match find(old(db).rows(), code@) {
            Some(v) if v.hits + hits > u64::MAX => {
                &&& r == Err::<(), DataError>(DataError::Overflow)
                &&& final(db).rows() == old(db).rows()
            },
            _ => {
                &&& r == Ok::<(), DataError>(())
                &&& final(db).rows() == bump(old(db).rows(), code@, hits as int)
            },
        },
{
    let ghost before = db.rows();
    match db.position(code) {
        None => {
            proof {
                assert forall|k: int| 0 <= k < before.len() implies before[k].shortcode != code@ by {
                    if before[k].shortcode == code@ {
                        lemma_find_at(before, code@, k);
                    }
                }
                assert(bump(before, code@, hits as int) =~= before);
            }
            Ok(())
        },
        Some(i) => {
            let current = db.clips[i].hits;
            if current > u64::MAX - hits as u64 {
                return Err(DataError::Overflow);
            }
            db.clips[i].hits = current + hits as u64;
            proof {
                let v = before[i as int];
                assert forall|k: int| 0 <= k < before.len() && k != i
                    implies before[k].shortcode != code@ by {
                }
                assert(db.rows() =~= bump(before, code@, hits as int));
                assert(db.keys() =~= old(db).keys());
                assert forall|a: int, b: int|
                    0 <= a < db.rows().len() && 0 <= b < db.rows().len() && a != b
                        implies #[trigger] db.rows()[a].shortcode != #[trigger] db.rows()[b].shortcode by {
                    assert(db.rows()[a].shortcode == before[a].shortcode);
                    assert(db.rows()[b].shortcode == before[b].shortcode);
                }
            }
            Ok(())
        },
    }
}
/// Records `api_key`, handing it back; a key already recorded is refused.
pub fn save_api_key(api_key: ApiKey, db: &mut Database) -> (r: Result<ApiKey, DataError>)
    requires
        old(db).wf(),
    ensures
        final(db).wf(),
        final(db).rows() == old(db).rows(),
        match r {
            Ok(k) => {
                &&& !old(db).keys().contains(api_key@)
                &&& k@ == api_key@
                &&& final(db).keys() == old(db).keys().insert(api_key@)
            },
            Err(e) => {
                &&& old(db).keys().contains(api_key@)
                &&& e == DataError::Duplicate
                &&& final(db).keys() == old(db).keys()
            },
        },
{
    if db.key_position(&api_key).is_some() {
        return Err(DataError::Duplicate);
    }
    let ghost before = db.api_keys@;
    let stored = api_key.clone();
    db.api_keys.push(stored);
    proof {
        assert(db.rows() =~= old(db).rows());
        assert forall|k: Seq<u8>| #[trigger] db.keys().contains(k) == old(db).keys().insert(api_key@).contains(k) by {
            if old(db).keys().contains(k) {
                let i = choose|i: int| 0 <= i < before.len() && (#[trigger] before[i])@ == k;
                assert(db.api_keys@[i] == before[i]);
            }
            if k == api_key@ {
                assert(db.api_keys@[before.len() as int]@ == k);
            }
            if db.keys().contains(k) {
                let i = choose|i: int| 0 <= i < db.api_keys@.len() && (#[trigger] db.api_keys@[i])@ == k;
                if i < before.len() {
                    assert(db.api_keys@[i] == before[i]);
                }
            }
        }
        assert(db.keys() =~= old(db).keys().insert(api_key@));
        assert forall|i: int, j: int|
            0 <= i < db.api_keys@.len() && 0 <= j < db.api_keys@.len() && i != j
                implies (#[trigger] db.api_keys@[i])@ != (#[trigger] db.api_keys@[j])@ by {
            if i < before.len() {
                assert(db.api_keys@[i] == before[i]);
            }
            if j < before.len() {
                assert(db.api_keys@[j] == before[j]);
            }
        }
    }
    Ok(api_key)
}

/// Withdraws `api_key`; says whether it was in force.
pub fn revoke_api_key(api_key: ApiKey, db: &mut Database) -> (r: Result<RevocationStatus, DataError>)
    requires
        old(db).wf(),
    ensures
        final(db).wf(),
        final(db).rows() == old(db).rows(),
        final(db).keys() == old(db).keys().remove(api_key@),
        r == Ok::<RevocationStatus, DataError>(
            if old(db).keys().contains(api_key@) {
                RevocationStatus::Revoked
            } else {
                RevocationStatus::NotFound
            },
        ),
{
    let ghost before = db.api_keys@;
    match db.key_position(&api_key) {
        None => {
            assert(db.keys() =~= old(db).keys().remove(api_key@));
            Ok(revocation_status(0))
        },
        Some(i) => {
            db.api_keys.remove(i);
            proof {
                assert(db.rows() =~= old(db).rows());
                let after = db.api_keys@;
                assert forall|k: Seq<u8>| #[trigger] db.keys().contains(k) == old(db).keys().remove(api_key@).contains(k) by {
                    if db.keys().contains(k) {
                        let a = choose|a: int| 0 <= a < after.len() && (#[trigger] after[a])@ == k;
                        if a < i {
                            assert(after[a] == before[a]);
                        } else {
                            assert(after[a] == before[a + 1]);
                        }
                    }
                    if old(db).keys().contains(k) && k != api_key@ {
                        let b = choose|b: int| 0 <= b < before.len() && (#[trigger] before[b])@ == k;
                        if b < i {
                            assert(after[b] == before[b]);
                        } else {
                            assert(b != i);
                            assert(after[b - 1] == before[b]);
                        }
                    }
                }
                assert(db.keys() =~= old(db).keys().remove(api_key@));
                assert forall|a: int, b: int|
                    0 <= a < after.len() && 0 <= b < after.len() && a != b
                        implies (#[trigger] after[a])@ != (#[trigger] after[b])@ by {
                    let a0 = if a < i { a } else { a + 1 };
                    let b0 = if b < i { b } else { b + 1 };
                    assert(after[a] == before[a0]);
                    assert(after[b] == before[b0]);
                }
            }
            Ok(revocation_status(1))
        },
    }
}

/// Tells whether `api_key` is in force.
pub fn api_key_is_valid(api_key: ApiKey, db: &Database) -> (r: Result<bool, DataError>)
    requires
        db.wf(),
    ensures
        r == Ok::<bool, DataError>(db.keys().contains(api_key@)),
{
    Ok(db.key_position(&api_key).is_some())
}

/// The sum of a sequence of increments.
pub open spec fn total(ds: Seq<u32>) -> int
    decreases ds.len(),
{
    if ds.len() == 0 {
        0
    } else {
        total(ds.drop_last()) + ds.last() as int
    }
}

/// The rows after the increments `ds`, applied to `code` one after another.
pub open spec fn bump_all(rows: Seq<ClipV>, code: Seq<char>, ds: Seq<u32>) -> Seq<ClipV>
    decreases ds.len(),
{
    if ds.len() == 0 {
        rows
    } else {
        bump(bump_all(rows, code, ds.drop_last()), code, ds.last() as int)
    }
}

proof fn lemma_total_nonneg(ds: Seq<u32>)
    ensures
        total(ds) >= 0,
    decreases ds.len(),
{
    if ds.len() > 0 {
        lemma_total_nonneg(ds.drop_last());
    }
}

proof fn lemma_bump_all_rows(rows: Seq<ClipV>, code: Seq<char>, ds: Seq<u32>, bound: int)
    requires
        bound <= u64::MAX,
        forall|k: int| 0 <= k < rows.len() && (#[trigger] rows[k]).shortcode == code
            ==> rows[k].hits + total(ds) <= bound,
    ensures
        bump_all(rows, code, ds).len() == rows.len(),
        forall|k: int| 0 <= k < rows.len() ==> (#[trigger] bump_all(rows, code, ds)[k]) == if rows[k].shortcode == code {
            ClipV { hits: (rows[k].hits + total(ds)) as u64, ..rows[k] }
        } else {
            rows[k]
        },
    decreases ds.len(),
{
    if ds.len() > 0 {
        let p = ds.drop_last();
        lemma_total_nonneg(p);
        lemma_bump_all_rows(rows, code, p, bound);
        let mid = bump_all(rows, code, p);
        assert forall|k: int| 0 <= k < rows.len() implies (#[trigger] bump_all(rows, code, ds)[k]) == if rows[k].shortcode == code {
            ClipV { hits: (rows[k].hits + total(ds)) as u64, ..rows[k] }
        } else {
            rows[k]
        } by {
            assert(mid[k].shortcode == rows[k].shortcode);
        }
    }
}

/// Increments of one clip's hit count, applied one after another in any
/// order, lose nothing: the count grows by exactly their sum and every
/// other field and row stays as it was.
pub proof fn lemma_increments_add_up(rows: Seq<ClipV>, code: Seq<char>, ds: Seq<u32>, i: int)
    requires
        codes_unique(rows),
        0 <= i < rows.len(),
        rows[i].shortcode == code,
        rows[i].hits + total(ds) <= u64::MAX,
    ensures
        find(bump_all(rows, code, ds), code) == Some(ClipV { hits: (rows[i].hits + total(ds)) as u64, ..rows[i] }),
        forall|c: Seq<char>| c != code ==> find(#[trigger] bump_all(rows, code, ds), c) == find(rows, c),
{
    assert forall|k: int| 0 <= k < rows.len() && (#[trigger] rows[k]).shortcode == code
        implies rows[k].hits + total(ds) <= u64::MAX by {
        if k != i {
            assert(rows[k].shortcode == rows[i].shortcode);
        }
    }
    lemma_bump_all_rows(rows, code, ds, u64::MAX as int);
    let after = bump_all(rows, code, ds);
    assert(codes_unique(after)) by {
        assert forall|a: int, b: int| 0 <= a < after.len() && 0 <= b < after.len() && a != b
            implies #[trigger] after[a].shortcode != #[trigger] after[b].shortcode by {
            assert(after[a].shortcode == rows[a].shortcode);
            assert(after[b].shortcode == rows[b].shortcode);
        }
    }
    lemma_find_at(after, code, i);
    assert forall|c: Seq<char>| c != code implies find(#[trigger] bump_all(rows, code, ds), c) == find(rows, c) by {
        if exists|k: int| 0 <= k < rows.len() && (#[trigger] rows[k]).shortcode == c {
            let k = choose|k: int| 0 <= k < rows.len() && (#[trigger] rows[k]).shortcode == c;
            lemma_find_at(rows, c, k);
            lemma_find_at(after, c, k);
        } else {
            assert forall|k: int| 0 <= k < after.len() implies (#[trigger] after[k]).shortcode != c by {
                assert(after[k].shortcode == rows[k].shortcode);
            }
        }
    }
}

proof fn lemma_total_remove(s: Seq<u32>, j: int)
    requires
        0 <= j < s.len(),
    ensures
        total(s) == total(s.remove(j)) + s[j] as int,
    decreases s.len(),
{
    if j == s.len() - 1 {
        assert(s.remove(j) =~= s.drop_last());
    } else {
        let p = s.drop_last();
        lemma_total_remove(p, j);
        assert(s.remove(j).drop_last() =~= p.remove(j));
    }
}

/// The sum of a set of increments does not depend on their order.
pub proof fn lemma_total_any_order(ds: Seq<u32>, es: Seq<u32>)
    requires
        ds.to_multiset() == es.to_multiset(),
    ensures
        total(ds) == total(es),
    decreases ds.len(),
{
    broadcast use vstd::seq_lib::group_to_multiset_ensures;

    if ds.len() == 0 {
        assert(ds.to_multiset().len() == ds.len());
        assert(es.to_multiset().len() == es.len());
    } else {
        let x = ds.last();
        let p = ds.drop_last();
        assert(ds =~= p.push(x));
        assert(es.to_multiset().count(x) > 0);
        assert(es.contains(x));
        let j = choose|j: int| 0 <= j < es.len() && es[j] == x;
        let rest = es.remove(j);
        assert(rest.to_multiset() =~= p.to_multiset());
        lemma_total_any_order(p, rest);
        lemma_total_remove(es, j);
    }
}

/// However concurrent increments of one clip's hit count are ordered,
/// the table ends the same.
pub proof fn lemma_increment_order_irrelevant(rows: Seq<ClipV>, code: Seq<char>, ds: Seq<u32>, es: Seq<u32>)
    requires
        ds.to_multiset() == es.to_multiset(),
        forall|k: int| 0 <= k < rows.len() && (#[trigger] rows[k]).shortcode == code
            ==> rows[k].hits + total(ds) <= u64::MAX,
    ensures
        bump_all(rows, code, ds) == bump_all(rows, code, es),
{
    lemma_total_any_order(ds, es);
    lemma_bump_all_rows(rows, code, ds, u64::MAX as int);
    lemma_bump_all_rows(rows, code, es, u64::MAX as int);
    assert(bump_all(rows, code, ds) =~= bump_all(rows, code, es));
}

/// A revoked key is no longer in force, and revoking it again finds
/// nothing to revoke.
pub proof fn lemma_revoked_key_is_invalid(keys: Set<Seq<u8>>, key: Seq<u8>)
    ensures
        !keys.remove(key).contains(key),
        keys.remove(key).remove(key) == keys.remove(key),
{
    assert(keys.remove(key).remove(key) =~= keys.remove(key));
}

/// The outcome of a revocation that deleted `rows_affected` rows.
pub fn revocation_status(rows_affected: u64) -> (r: RevocationStatus)
    ensures
        r == if rows_affected == 0 { RevocationStatus::NotFound } else { RevocationStatus::Revoked },
{
    if rows_affected == 0 {
        RevocationStatus::NotFound
    } else {
        RevocationStatus::Revoked
    }
}

/// Whether a key lookup that counted `count` matching rows found the key.
pub fn key_count_is_valid(count: u32) -> (r: bool)
    ensures
        r == (count > 0),
{
    count > 0
}

} // verus!
