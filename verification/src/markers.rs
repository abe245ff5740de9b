//! Distance markers: a lookup table from a unique marker number to a
//! distance, upserted by key. The table holds the rows the storage layer
//! persists, ordered by marker number as they are listed to callers.

use vstd::prelude::*;

verus! {

/// One row of the table. The distance travels as an opaque 64-bit value
/// whose encoding the caller chooses; the table never interprets it.
#[derive(Clone, Copy, Debug)]
pub struct DistanceMarker {
    pub id: Option<i32>,
    pub marker_number: i32,
    pub distance: u64,
}

/// Rows sorted strictly by marker number: each marker number has at most
/// one row.
pub open spec fn sorted_by_marker(s: Seq<DistanceMarker>) -> bool {
    forall|i: int, j: int|
        0 <= i < j < s.len() ==> s[i].marker_number < s[j].marker_number
}

/// The largest row id in the table, 0 when it is empty.
pub open spec fn max_marker_id(s: Seq<DistanceMarker>) -> int
    decreases s.len(),
{
    if s.len() == 0 {
        0
    } else {
        let rest = max_marker_id(s.drop_last());
        let last = s.last().id->Some_0 as int;
        if last > rest {
            last
        } else {
            rest
        }
    }
}

/// Every row's id is bounded by the table's largest id.
pub proof fn lemma_max_marker_id_ge(s: Seq<DistanceMarker>, k: int)
    requires
        0 <= k < s.len(),
    ensures
        s[k].id->Some_0 as int <= max_marker_id(s),
    decreases s.len(),
{
    if k < s.len() - 1 {
        lemma_max_marker_id_ge(s.drop_last(), k);
        assert(s.drop_last()[k] == s[k]);
    }
}

/// The marker table, kept sorted strictly by marker number.
pub struct MarkerTable {
    rows: Vec<DistanceMarker>,
}

impl View for MarkerTable {
    type V = Seq<DistanceMarker>;

    closed spec fn view(&self) -> Seq<DistanceMarker> {
        self.rows@
    }
}

/// Index of the first row whose marker number is not below `marker_number`.
fn lower_index(rows: &Vec<DistanceMarker>, marker_number: i32) -> (i: usize)
    requires
        sorted_by_marker(rows@),
    ensures
        i <= rows@.len(),
        forall|k: int| 0 <= k < i ==> rows@[k].marker_number < marker_number,
        i < rows@.len() ==> rows@[i as int].marker_number >= marker_number,
{
    let mut i: usize = 0;
    while i < rows.len() && rows[i].marker_number < marker_number
        invariant
            i <= rows@.len(),
            forall|k: int| 0 <= k < i ==> rows@[k].marker_number < marker_number,
        decreases rows@.len() - i,
    {
        i = i + 1;
    }
    i
}

impl MarkerTable {
    /// The rows are strictly sorted by marker number (so marker numbers
    /// are unique), and every row has an id, at least 1 and distinct
    /// from every other row's.
    pub open spec fn wf(&self) -> bool {
        &&& sorted_by_marker(self@)
        &&& forall|i: int|
            0 <= i < self@.len() ==> self@[i].id is Some && self@[i].id->Some_0 >= 1
        &&& forall|i: int, j: int| 0 <= i < j < self@.len() ==> self@[i].id != self@[j].id
    }

    /// An empty table.
    pub fn new() -> (r: MarkerTable)
        ensures
            r.wf(),
            r@ == Seq::<DistanceMarker>::empty(),
    {
        MarkerTable { rows: Vec::new() }
    }

    /// The largest id assigned so far; one above it is free.
    fn max_id(&self) -> (m: i32)
        requires
            self.wf(),
        ensures
            m as int == max_marker_id(self@),
            m >= 0,
            forall|k: int| 0 <= k < self@.len() ==> self@[k].id->Some_0 <= m,
    {
        let mut m: i32 = 0;
        let mut k: usize = 0;
        while k < self.rows.len()
            invariant
                k <= self.rows@.len(),
                self.wf(),
                m as int == max_marker_id(self.rows@.subrange(0, k as int)),
                m >= 0,
            decreases self.rows@.len() - k,
        {
            let id_k = self.rows[k].id.unwrap();
            proof {
                assert(self.rows@.subrange(0, k + 1 as int).drop_last() =~= self.rows@.subrange(
                    0,
                    k as int,
                ));
                assert(self.rows@.subrange(0, k + 1 as int).last() == self.rows@[k as int]);
            }
            if id_k > m {
                m = id_k;
            }
            k = k + 1;
        }
        proof {
            assert(self.rows@.subrange(0, self.rows@.len() as int) =~= self.rows@);
            assert forall|j: int| 0 <= j < self@.len() implies self@[j].id->Some_0 <= m by {
                lemma_max_marker_id_ge(self@, j);
            }
        }
        m
    }

    /// Updates the distance of the row with `marker_number` in place —
    /// same row, same id, no duplicate — or, when no row has that marker
    /// number yet, inserts exactly one new row at its sorted position,
    /// under a fresh id (one above the largest assigned, so distinct from
    /// every existing row's). Returns the row as stored. Never fails; the
    /// id space must not be exhausted.
    pub fn upsert_distance_marker(&mut self, marker_number: i32, distance: u64) -> (r:
        DistanceMarker)
        requires
            old(self).wf(),
            max_marker_id(old(self)@) < i32::MAX,
        ensures
            final(self).wf(),
            r.marker_number == marker_number,
            r.distance == distance,
            r.id is Some,
            forall|j: int|
                0 <= j < old(self)@.len() && old(self)@[j].marker_number == marker_number ==> (
                final(self)@ == old(self)@.update(j, r) && r.id == old(self)@[j].id),
            (forall|j: int|
                0 <= j < old(self)@.len() ==> old(self)@[j].marker_number != marker_number) ==> (
            final(self)@.len() == old(self)@.len() + 1 && r.id == Some(
                ((max_marker_id(old(self)@) + 1) as i32),
            ) && (forall|k: int| 0 <= k < old(self)@.len() ==> old(self)@[k].id != r.id) && (
            exists|j: int|
                0 <= j <= old(self)@.len() && final(self)@ == old(self)@.insert(j, r))),
    {
        let i = lower_index(&self.rows, marker_number);
        if i < self.rows.len() && self.rows[i].marker_number == marker_number {
            let prior = self.rows[i];
            let row = DistanceMarker { id: prior.id, marker_number, distance };
            self.rows[i] = row;
            proof {
                assert forall|j: int|
                    0 <= j < old(self)@.len() && old(self)@[j].marker_number
                        == marker_number implies j == i as int by {
                    if j < i as int {
                        assert(old(self)@[j].marker_number < marker_number);
                    } else if j > i as int {
                        assert(old(self)@[i as int].marker_number
                            < old(self)@[j].marker_number);
                    }
                }
                assert forall|a: int| 0 <= a < final(self)@.len() implies final(self)@[a].id
                    == old(self)@[a].id by {}
            }
            row
        } else {
            let fresh = self.max_id() + 1;
            let row = DistanceMarker { id: Some(fresh), marker_number, distance };
            self.rows.insert(i, row);
            proof {
                let s = old(self)@;
                let t = final(self)@;
                let ii = i as int;
                assert(t == s.insert(ii, row));
                assert forall|k: int| 0 <= k < s.len() implies s[k].id != row.id by {
                    lemma_max_marker_id_ge(s, k);
                }
                assert forall|j: int|
                    0 <= j < s.len() implies s[j].marker_number != marker_number by {
                    if j >= ii {
                        if ii < s.len() {
                            assert(s[ii].marker_number >= marker_number);
                            if j > ii {
                                assert(s[ii].marker_number < s[j].marker_number);
                            }
                        }
                    }
                }
                assert forall|a: int, b: int|
                    0 <= a < b < t.len() implies t[a].marker_number < t[b].marker_number by {
                    if a < ii && b < ii {
                        assert(t[a] == s[a] && t[b] == s[b]);
                    } else if a < ii && b == ii {
                        assert(t[a] == s[a] && t[b] == row);
                    } else if a < ii && b > ii {
                        assert(t[a] == s[a] && t[b] == s[b - 1]);
                        assert(s[a].marker_number < marker_number);
                        assert(s[b - 1].marker_number != marker_number);
                        assert(b - 1 >= ii);
                        if ii < s.len() {
                            assert(s[ii].marker_number >= marker_number);
                            if b - 1 > ii {
                                assert(s[ii].marker_number < s[b - 1].marker_number);
                            }
                        }
                    } else if a == ii && b > ii {
                        assert(t[a] == row && t[b] == s[b - 1]);
                        assert(s[b - 1].marker_number != marker_number);
                        assert(s[b - 1].marker_number >= marker_number);
                    } else {
                        assert(t[a] == s[a - 1] && t[b] == s[b - 1]);
                    }
                }
                assert forall|a: int, b: int| 0 <= a < b < t.len() implies t[a].id != t[b].id by {
                    let x = if a < ii { a } else if a == ii { a } else { a - 1 };
                    if a == ii {
                        assert(t[b] == s[b - 1] && s[b - 1].id != row.id);
                    } else if b == ii {
                        assert(t[a] == s[a] && s[a].id != row.id);
                    } else {
                        let y = if b < ii { b } else { b - 1 };
                        assert(t[a] == s[x] && t[b] == s[y]);
                    }
                }
            }
            row
        }
    }

    /// All rows, ordered by marker number.
    pub fn get_distance_markers(&self) -> (r: Vec<DistanceMarker>)
        ensures
            r@ == self@,
    {
        let mut out: Vec<DistanceMarker> = Vec::new();
        let mut i: usize = 0;
        while i < self.rows.len()
            invariant
                i <= self.rows@.len(),
                out@ == self.rows@.subrange(0, i as int),
            decreases self.rows@.len() - i,
        {
            out.push(self.rows[i]);
            assert(out@ =~= self.rows@.subrange(0, i + 1 as int));
            i = i + 1;
        }
        proof {
            assert(out@ =~= self.rows@);
        }
        out
    }

    /// The number of rows.
    pub fn len(&self) -> (r: usize)
        ensures
            r == self@.len(),
    {
        self.rows.len()
    }
}

} // verus!
