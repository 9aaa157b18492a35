use vstd::prelude::*;
use crate::reply::{Album, album_views};

verus! {

pub open spec fn has_id(v: Seq<(int, Seq<char>)>, id: int) -> bool {
    exists|i: int| 0 <= i < v.len() && #[trigger] v[i].0 == id
}

pub open spec fn has_title(v: Seq<(int, Seq<char>)>, t: Seq<char>) -> bool {
    exists|i: int| 0 <= i < v.len() && #[trigger] v[i].1 == t
}

pub open spec fn ids_unique(v: Seq<(int, Seq<char>)>) -> bool {
    forall|i: int, j: int| 0 <= i < v.len() && 0 <= j < v.len() && i != j ==> #[trigger] v[i].0 != #[trigger] v[j].0
}

/// The rows after the title of the row `id` became `t`.
pub open spec fn after_update(v: Seq<(int, Seq<char>)>, id: int, t: Seq<char>) -> Seq<(int, Seq<char>)> {
    v.map_values(|r: (int, Seq<char>)| if r.0 == id { (id, t) } else { r })
}

/// An in-memory table of records, each with its own id.
pub struct AlbumStore {
    rows: Vec<Album>,
    next_id: i64,
}

impl View for AlbumStore {
    type V = Seq<(int, Seq<char>)>;

    closed spec fn view(&self) -> Seq<(int, Seq<char>)> {
        album_views(self.rows@)
    }
}

impl AlbumStore {
    /// The id that the next insert gives.
    pub closed spec fn next(&self) -> int {
        self.next_id as int
    }

    pub open spec fn wf(&self) -> bool {
        &&& ids_unique(self@)
        &&& forall|i: int| 0 <= i < self@.len() ==> 0 < #[trigger] self@[i].0 < self.next()
        &&& 0 < self.next() <= i64::MAX
    }

    /// An empty table; ids start at 1.
    pub fn new() -> (r: AlbumStore)
        ensures
            r.wf(),
            r@ == Seq::<(int, Seq<char>)>::empty(),
            r.next() == 1,
    {
        let r = AlbumStore { rows: Vec::new(), next_id: 1 };
        assert(r@ =~= Seq::<(int, Seq<char>)>::empty());
        r
    }

    /// The number of rows.
    pub fn count(&self) -> (r: Result<i64, String>)
        ensures
            r matches Ok(n) ==> n == self@.len(),
            r is Ok <==> self@.len() <= i64::MAX,
    {
        let n = self.rows.len();
        if (n as u64) <= (i64::MAX as u64) {
            Ok(n as i64)
        } else {
            Err(String::from_str("too many rows to count"))
        }
    }

    /// All rows, in the order in which they were inserted.
    pub fn list(&self) -> (r: Vec<Album>)
        ensures
            album_views(r@) == self@,
    {
        let mut out: Vec<Album> = Vec::new();
        let mut i: usize = 0;
        while i < self.rows.len()
            invariant
                i <= self.rows@.len(),
                album_views(out@) =~= album_views(self.rows@.subrange(0, i as int)),
            decreases self.rows@.len() - i,
        {
            let row = Album { id: self.rows[i].id, title: self.rows[i].title.clone() };
            let ghost prev = out@;
            out.push(row);
            proof {
                assert(album_views(out@) =~= album_views(prev).push((row.id as int, row.title@)));
                assert(self.rows@.subrange(0, i as int + 1) =~= self.rows@.subrange(0, i as int).push(self.rows@[i as int]));
            }
            i = i + 1;
        }
        proof {
            assert(self.rows@.subrange(0, i as int) =~= self.rows@);
        }
        out
    }

    /// Adds a row with the next id and title `t`; fails once ids run out.
    pub fn insert(&mut self, t: &str) -> (r: Result<(), String>)
        requires
            old(self).wf(),
        ensures
            final(self).wf(),
            r is Ok <==> old(self).next() < i64::MAX,
            r is Ok ==> final(self)@ == old(self)@.push((old(self).next(), t@)) && final(self).next() == old(self).next() + 1,
            r is Err ==> final(self)@ == old(self)@ && final(self).next() == old(self).next(),
    {
        if self.next_id == i64::MAX {
            return Err(String::from_str("record ids are used up"));
        }
        let ghost before = self.rows@;
        self.rows.push(Album { id: self.next_id, title: String::from_str(t) });
        self.next_id = self.next_id + 1;
        assert(self@ =~= album_views(before).push((old(self).next(), t@)));
        Ok(())
    }

    /// Sets the title of the row `id` to `t`; fails where no row has that id.
    pub fn update(&mut self, id: i64, t: &str) -> (r: Result<(), String>)
        requires
            old(self).wf(),
        ensures
            final(self).wf(),
            r is Ok <==> has_id(old(self)@, id as int),
            r is Ok ==> final(self)@ == after_update(old(self)@, id as int, t@),
            r is Err ==> final(self)@ == old(self)@,
            final(self).next() == old(self).next(),
    {
        let mut i: usize = 0;
        while i < self.rows.len()
            invariant
                *self == *old(self),
                self.wf(),
                i <= self@.len(),
                forall|j: int| 0 <= j < i ==> #[trigger] self@[j].0 != id,
            decreases self@.len() - i,
        {
            if self.rows[i].id == id {
                let ghost before = self@;
                self.rows.set(i, Album { id, title: String::from_str(t) });
                proof {
                    assert(before[i as int].0 == id as int);
                    assert forall|j: int| 0 <= j < before.len() && j != i implies before[j].0 != id as int by {
                        assert(before[j].0 != before[i as int].0);
                    }
                    assert(self@ =~= after_update(before, id as int, t@));
                    assert forall|k: int| 0 <= k < self@.len() implies #[trigger] self@[k].0 == before[k].0 by {}
                }
                return Ok(());
            }
            i = i + 1;
        }
        Err(String::from_str("no record with that id"))
    }

    /// Removes the row `id`; fails where no row has that id.
    pub fn delete(&mut self, id: i64) -> (r: Result<(), String>)
        requires
            old(self).wf(),
        ensures
            final(self).wf(),
            r is Ok <==> has_id(old(self)@, id as int),
            r is Ok ==> exists|p: int| 0 <= p < old(self)@.len() && #[trigger] old(self)@[p].0 == id
                && final(self)@ == old(self)@.remove(p),
            r is Err ==> final(self)@ == old(self)@,
            final(self).next() == old(self).next(),
    {
        let mut i: usize = 0;
        while i < self.rows.len()
            invariant
                *self == *old(self),
                self.wf(),
                i <= self@.len(),
                forall|j: int| 0 <= j < i ==> #[trigger] self@[j].0 != id,
            decreases self@.len() - i,
        {
            if self.rows[i].id == id {
                let ghost before = self@;
                self.rows.remove(i);
                proof {
                    assert(self@ =~= before.remove(i as int));
                    assert(before[i as int].0 == id as int);
                    assert forall|a: int, b: int| 0 <= a < self@.len() && 0 <= b < self@.len() && a != b
                        implies #[trigger] self@[a].0 != #[trigger] self@[b].0 by {
                        let a1 = if a < i { a } else { a + 1 };
                        let b1 = if b < i { b } else { b + 1 };
                        assert(self@[a] == before[a1]);
                        assert(self@[b] == before[b1]);
                    }
                    assert forall|k: int| 0 <= k < self@.len() implies 0 < #[trigger] self@[k].0 < self.next() by {
                        let k1 = if k < i { k } else { k + 1 };
                        assert(self@[k] == before[k1]);
                    }
                }
                return Ok(());
            }
            i = i + 1;
        }
        Err(String::from_str("no record with that id"))
    }
}

/// A record inserted under title `t` is listed with that title; updating its
/// title to `u` lists it under `u`; deleting it leaves no row with its id.
pub proof fn lemma_crud_round_trip(v: Seq<(int, Seq<char>)>, id: int, t: Seq<char>, u: Seq<char>)
    requires
        ids_unique(v),
        !has_id(v, id),
    ensures
        has_title(v.push((id, t)), t),
        has_id(v.push((id, t)), id),
        forall|i: int| 0 <= i < after_update(v.push((id, t)), id, u).len() && #[trigger] after_update(v.push((id, t)), id, u)[i].0 == id
            ==> after_update(v.push((id, t)), id, u)[i].1 == u,
        has_title(after_update(v.push((id, t)), id, u), u),
        forall|p: int| 0 <= p < after_update(v.push((id, t)), id, u).len() && #[trigger] after_update(v.push((id, t)), id, u)[p].0 == id
            ==> !has_id(after_update(v.push((id, t)), id, u).remove(p), id),
{
    let w = v.push((id, t));
    assert(w[v.len() as int].1 == t);
    assert(w[v.len() as int].0 == id);
    let x = after_update(w, id, u);
    assert(x[v.len() as int].1 == u);
    assert forall|p: int| 0 <= p < x.len() && #[trigger] x[p].0 == id implies !has_id(x.remove(p), id) by {
        if has_id(x.remove(p), id) {
            let j = choose|j: int| 0 <= j < x.remove(p).len() && #[trigger] x.remove(p)[j].0 == id;
            let k = if j < p { j } else { j + 1 };
            assert(x[k].0 == id);
            assert(w[k].0 == id && w[p].0 == id);
            if k < v.len() {
                assert(v[k].0 == id);
            } else {
                assert(p < v.len());
                assert(v[p].0 == id);
            }
        }
    }
}

} // verus!
