//! Keyed tables for the target catalog and the games, with the CRUD
//! semantics the storage layer provides: rows keyed by a surrogate id
//! assigned at creation, updates in place, deletes removing exactly the
//! keyed row. A game's windows are owned by their row: replacing or
//! deleting the game replaces or deletes them with it.

use vstd::prelude::*;

use crate::models::GameTarget;
use crate::models::GameTargetInput;
use crate::models::Target;
use crate::models::inputs_ordered;
use crate::order::lemma_lex_le_total;
use crate::order::lemma_lex_le_trans;
use crate::order::lex_le;
use crate::order::str_lex_le;
use vstd::seq_lib::to_multiset_build;
use vstd::seq_lib::to_multiset_insert;

verus! {

/// Rows listed in ascending node id order (node ids need not be unique).
pub open spec fn sorted_by_node_id(s: Seq<Target>) -> bool {
    forall|i: int, j: int| 0 <= i < j < s.len() ==> s[i].node_id <= s[j].node_id
}

/// Inserts `w` at its ordered position among windows sorted by start
/// offset.
fn sorted_insert_window(v: &mut Vec<GameTargetInput>, w: GameTargetInput)
    requires
        inputs_ordered(old(v)@),
    ensures
        inputs_ordered(final(v)@),
        final(v)@.to_multiset() == old(v)@.to_multiset().insert(w),
        final(v)@.len() == old(v)@.len() + 1,
{
    let mut i: usize = 0;
    while i < v.len() && v[i].start_time <= w.start_time
        invariant
            i <= v@.len(),
            v@ == old(v)@,
            forall|k: int| 0 <= k < i ==> v@[k].start_time <= w.start_time,
        decreases v@.len() - i,
    {
        i = i + 1;
    }
    v.insert(i, w);
    proof {
        to_multiset_insert(old(v)@, i as int, w);
        let s = old(v)@;
        let t = v@;
        let ii = i as int;
        assert forall|a: int, b: int|
            0 <= a < b < t.len() implies t[a].start_time <= t[b].start_time by {
            if a < ii && b < ii {
                assert(t[a] == s[a] && t[b] == s[b]);
            } else if a < ii && b == ii {
                assert(t[a] == s[a] && t[b] == w);
            } else if a < ii && b > ii {
                assert(t[a] == s[a] && t[b] == s[b - 1]);
            } else if a == ii && b > ii {
                assert(t[a] == w && t[b] == s[b - 1]);
                assert(b - 1 >= ii);
                assert(s[ii].start_time > w.start_time);
                if b - 1 > ii {
                    assert(s[ii].start_time <= s[b - 1].start_time);
                }
            } else {
                assert(t[a] == s[a - 1] && t[b] == s[b - 1]);
            }
        }
    }
}

/// The handed-in windows, rearranged into start-offset order.
fn sort_windows(input: &Vec<GameTargetInput>) -> (r: Vec<GameTargetInput>)
    ensures
        inputs_ordered(r@),
        r@.to_multiset() == input@.to_multiset(),
        r@.len() == input@.len(),
{
    let mut out: Vec<GameTargetInput> = Vec::new();
    proof {
        assert(input@.subrange(0, 0) =~= Seq::<GameTargetInput>::empty());
        assert(out@.to_multiset() =~= input@.subrange(0, 0).to_multiset());
    }
    let mut i: usize = 0;
    while i < input.len()
        invariant
            i <= input@.len(),
            out@.len() == i,
            inputs_ordered(out@),
            out@.to_multiset() == input@.subrange(0, i as int).to_multiset(),
        decreases input@.len() - i,
    {
        sorted_insert_window(&mut out, input[i]);
        proof {
            assert(input@.subrange(0, i + 1 as int) =~= input@.subrange(0, i as int).push(
                input@[i as int],
            ));
            to_multiset_build(input@.subrange(0, i as int), input@[i as int]);
        }
        i = i + 1;
    }
    proof {
        assert(input@.subrange(0, input@.len() as int) =~= input@);
    }
    out
}

/// Inserts `t` at its ordered position among targets sorted by node id.
fn sorted_insert_target(v: &mut Vec<Target>, t: Target)
    requires
        sorted_by_node_id(old(v)@),
    ensures
        sorted_by_node_id(final(v)@),
        final(v)@.to_multiset() == old(v)@.to_multiset().insert(t),
        final(v)@.len() == old(v)@.len() + 1,
{
    let mut i: usize = 0;
    while i < v.len() && v[i].node_id <= t.node_id
        invariant
            i <= v@.len(),
            v@ == old(v)@,
            forall|k: int| 0 <= k < i ==> v@[k].node_id <= t.node_id,
        decreases v@.len() - i,
    {
        i = i + 1;
    }
    v.insert(i, t);
    proof {
        to_multiset_insert(old(v)@, i as int, t);
        let s = old(v)@;
        let u = v@;
        let ii = i as int;
        assert forall|a: int, b: int|
            0 <= a < b < u.len() implies u[a].node_id <= u[b].node_id by {
            if a < ii && b < ii {
                assert(u[a] == s[a] && u[b] == s[b]);
            } else if a < ii && b == ii {
                assert(u[a] == s[a] && u[b] == t);
            } else if a < ii && b > ii {
                assert(u[a] == s[a] && u[b] == s[b - 1]);
            } else if a == ii && b > ii {
                assert(u[a] == t && u[b] == s[b - 1]);
                assert(b - 1 >= ii);
                assert(s[ii].node_id > t.node_id);
                if b - 1 > ii {
                    assert(s[ii].node_id <= s[b - 1].node_id);
                }
            } else {
                assert(u[a] == s[a - 1] && u[b] == s[b - 1]);
            }
        }
    }
}

/// Row ids strictly increase along the table, so each id keys at most
/// one row.
pub open spec fn target_ids_increasing(s: Seq<Target>) -> bool {
    forall|i: int, j: int| 0 <= i < j < s.len() ==> id_of(s[i]) < id_of(s[j])
}

/// The id a stored target row carries.
pub open spec fn id_of(t: Target) -> int {
    t.id->Some_0 as int
}

/// The catalog of target rows, in creation order.
pub struct TargetTable {
    rows: Vec<Target>,
}

impl View for TargetTable {
    type V = Seq<Target>;

    closed spec fn view(&self) -> Seq<Target> {
        self.rows@
    }
}

impl TargetTable {
    /// Every row carries an id, at least 1, and ids strictly increase.
    pub open spec fn wf(&self) -> bool {
        &&& forall|i: int| 0 <= i < self@.len() ==> self@[i].id is Some && id_of(self@[i]) >= 1
        &&& target_ids_increasing(self@)
    }

    /// An empty catalog.
    pub fn new() -> (r: TargetTable)
        ensures
            r.wf(),
            r@ == Seq::<Target>::empty(),
    {
        TargetTable { rows: Vec::new() }
    }

    /// Appends a new row with a fresh id (one above the last assigned)
    /// and returns it as stored. The id space must not be exhausted.
    pub fn create_target(&mut self, node_id: i32, distance: u64, image_num: i32) -> (r: Target)
        requires
            old(self).wf(),
            old(self)@.len() == 0 || id_of(old(self)@[old(self)@.len() - 1]) < i32::MAX,
        ensures
            final(self).wf(),
            final(self)@ == old(self)@.push(r),
            r.id is Some,
            id_of(r) == if old(self)@.len() == 0 {
                1int
            } else {
                id_of(old(self)@[old(self)@.len() - 1]) + 1
            },
            r.node_id == node_id,
            r.distance == distance,
            r.image_num == image_num,
    {
        let id: i32 = if self.rows.len() == 0 {
            1
        } else {
            self.rows[self.rows.len() - 1].id.unwrap() + 1
        };
        let row = Target { id: Some(id), node_id, distance, image_num };
        self.rows.push(row);
        proof {
            assert forall|i: int, j: int|
                0 <= i < j < final(self)@.len() implies id_of(final(self)@[i]) < id_of(
                final(self)@[j],
            ) by {
                if j == final(self)@.len() - 1 && i < j {
                    assert(id_of(old(self)@[i]) <= id_of(old(self)@[old(self)@.len() - 1]));
                }
            }
        }
        row
    }

    /// The row keyed by `id`; nothing when no row has that id.
    pub fn get_target(&self, id: i32) -> (r: Option<Target>)
        requires
            self.wf(),
        ensures
            r is Some <==> exists|j: int| 0 <= j < self@.len() && self@[j].id == Some(id),
            forall|j: int| 0 <= j < self@.len() && self@[j].id == Some(id) ==> r == Some(self@[j]),
    {
        let mut i: usize = 0;
        while i < self.rows.len()
            invariant
                i <= self.rows@.len(),
                self.wf(),
                forall|k: int| 0 <= k < i ==> self.rows@[k].id != Some(id),
            decreases self.rows@.len() - i,
        {
            if self.rows[i].id.is_some() && self.rows[i].id.unwrap() == id {
                proof {
                    assert forall|j: int|
                        0 <= j < self@.len() && self@[j].id == Some(id) implies j == i as int by {
                        if j < i as int {
                            assert(self.rows@[j].id != Some(id));
                        } else if j > i as int {
                            assert(id_of(self.rows@[i as int]) < id_of(self.rows@[j]));
                        }
                    }
                }
                return Some(self.rows[i]);
            }
            i = i + 1;
        }
        None
    }

    /// Replaces the fields of the row keyed by `id` in place, keeping its
    /// id, and returns the row as now stored; returns nothing and changes
    /// nothing when no row has that id.
    pub fn update_target(&mut self, id: i32, node_id: i32, distance: u64, image_num: i32) -> (r:
        Option<Target>)
        requires
            old(self).wf(),
        ensures
            final(self).wf(),
            r is Some <==> exists|j: int| 0 <= j < old(self)@.len() && old(self)@[j].id == Some(id),
            forall|j: int|
                0 <= j < old(self)@.len() && old(self)@[j].id == Some(id) ==> (final(self)@ == old(
                    self,
                )@.update(
                    j,
                    (Target { id: Some(id), node_id, distance, image_num }),
                ) && r == Some((Target { id: Some(id), node_id, distance, image_num }))),
            r is None ==> final(self)@ == old(self)@,
    {
        let mut i: usize = 0;
        while i < self.rows.len()
            invariant
                i <= self.rows@.len(),
                self@ == old(self)@,
                old(self).wf(),
                forall|k: int| 0 <= k < i ==> self.rows@[k].id != Some(id),
            decreases self.rows@.len() - i,
        {
            if self.rows[i].id.is_some() && self.rows[i].id.unwrap() == id {
                let row = Target { id: Some(id), node_id, distance, image_num };
                let ghost pre = self.rows@;
                self.rows[i] = row;
                proof {
                    assert forall|j: int|
                        0 <= j < pre.len() && pre[j].id == Some(id) implies j == i as int by {
                        if j < i as int {
                            assert(pre[j].id != Some(id));
                        } else if j > i as int {
                            assert(id_of(pre[i as int]) < id_of(pre[j]));
                        }
                    }
                    assert forall|a: int, b: int|
                        0 <= a < b < final(self)@.len() implies id_of(final(self)@[a]) < id_of(
                        final(self)@[b],
                    ) by {
                        assert(id_of(pre[a]) < id_of(pre[b]));
                    }
                }
                return Some(row);
            }
            i = i + 1;
        }
        None
    }

    /// Removes the row keyed by `id` and reports whether one was there;
    /// with no such row the catalog is unchanged.
    pub fn delete_target(&mut self, id: i32) -> (r: bool)
        requires
            old(self).wf(),
        ensures
            final(self).wf(),
            r <==> exists|j: int| 0 <= j < old(self)@.len() && old(self)@[j].id == Some(id),
            forall|j: int|
                0 <= j < old(self)@.len() && old(self)@[j].id == Some(id) ==> final(self)@ == old(
                    self,
                )@.remove(j),
            !r ==> final(self)@ == old(self)@,
    {
        let mut i: usize = 0;
        while i < self.rows.len()
            invariant
                i <= self.rows@.len(),
                self@ == old(self)@,
                old(self).wf(),
                forall|k: int| 0 <= k < i ==> self.rows@[k].id != Some(id),
            decreases self.rows@.len() - i,
        {
            if self.rows[i].id.is_some() && self.rows[i].id.unwrap() == id {
                let ghost pre = self.rows@;
                self.rows.remove(i);
                proof {
                    assert forall|j: int|
                        0 <= j < pre.len() && pre[j].id == Some(id) implies j == i as int by {
                        if j < i as int {
                            assert(pre[j].id != Some(id));
                        } else if j > i as int {
                            assert(id_of(pre[i as int]) < id_of(pre[j]));
                        }
                    }
                    assert forall|a: int, b: int|
                        0 <= a < b < final(self)@.len() implies id_of(final(self)@[a]) < id_of(
                        final(self)@[b],
                    ) by {
                        let x = if a < i as int { a } else { a + 1 };
                        let y = if b < i as int { b } else { b + 1 };
                        assert(final(self)@[a] == pre[x]);
                        assert(final(self)@[b] == pre[y]);
                        assert(id_of(pre[x]) < id_of(pre[y]));
                    }
                }
                return true;
            }
            i = i + 1;
        }
        false
    }

    /// All rows, listed in ascending node id order: exactly the stored
    /// rows (the multisets agree), rearranged by node id.
    pub fn get_all_targets(&self) -> (r: Vec<Target>)
        ensures
            sorted_by_node_id(r@),
            r@.to_multiset() == self@.to_multiset(),
            r@.len() == self@.len(),
    {
        let mut out: Vec<Target> = Vec::new();
        proof {
            assert(self.rows@.subrange(0, 0) =~= Seq::<Target>::empty());
            assert(out@.to_multiset() =~= self.rows@.subrange(0, 0).to_multiset());
        }
        let mut i: usize = 0;
        while i < self.rows.len()
            invariant
                i <= self.rows@.len(),
                out@.len() == i,
                sorted_by_node_id(out@),
                out@.to_multiset() == self.rows@.subrange(0, i as int).to_multiset(),
            decreases self.rows@.len() - i,
        {
            sorted_insert_target(&mut out, self.rows[i]);
            proof {
                assert(self.rows@.subrange(0, i + 1 as int) =~= self.rows@.subrange(0, i as int)
                    .push(self.rows@[i as int]));
                to_multiset_build(self.rows@.subrange(0, i as int), self.rows@[i as int]);
            }
            i = i + 1;
        }
        proof {
            assert(self.rows@.subrange(0, self.rows@.len() as int) =~= self.rows@);
        }
        out
    }
}

/// A stored game: its surrogate id, name, total time, and the windows it
/// owns, in the order they were handed in.
#[derive(Debug)]
pub struct GameRecord {
    pub id: i32,
    pub name: String,
    pub total_time: i32,
    pub windows: Vec<GameTargetInput>,
}

/// Value equality of two game records: same id and fields, same windows.
pub open spec fn rec_eq(a: GameRecord, b: GameRecord) -> bool {
    &&& a.id == b.id
    &&& a.name@ == b.name@
    &&& a.total_time == b.total_time
    &&& a.windows@ == b.windows@
}

/// Row ids strictly increase along the games table.
pub open spec fn game_ids_increasing(s: Seq<GameRecord>) -> bool {
    forall|i: int, j: int| 0 <= i < j < s.len() ==> s[i].id < s[j].id
}

/// A value copy of a window list.
fn copy_windows(windows: &Vec<GameTargetInput>) -> (r: Vec<GameTargetInput>)
    ensures
        r@ == windows@,
{
    let mut out: Vec<GameTargetInput> = Vec::new();
    let mut i: usize = 0;
    while i < windows.len()
        invariant
            i <= windows@.len(),
            out@ == windows@.subrange(0, i as int),
        decreases windows@.len() - i,
    {
        out.push(windows[i]);
        assert(out@ =~= windows@.subrange(0, i + 1 as int));
        i = i + 1;
    }
    proof {
        assert(out@ =~= windows@);
    }
    out
}

/// The games table, in creation order. Each row owns its windows:
/// updating a game replaces them wholesale, deleting a game deletes them
/// with it.
pub struct GameStore {
    games: Vec<GameRecord>,
}

impl View for GameStore {
    type V = Seq<GameRecord>;

    closed spec fn view(&self) -> Seq<GameRecord> {
        self.games@
    }
}

impl GameStore {
    /// Ids are at least 1 and strictly increase, and every stored game
    /// holds its windows in start-offset order.
    pub open spec fn wf(&self) -> bool {
        &&& forall|i: int| 0 <= i < self@.len() ==> self@[i].id >= 1
        &&& game_ids_increasing(self@)
        &&& forall|i: int| 0 <= i < self@.len() ==> inputs_ordered(#[trigger] self@[i].windows@)
    }

    /// An empty table.
    pub fn new() -> (r: GameStore)
        ensures
            r.wf(),
            r@ == Seq::<GameRecord>::empty(),
    {
        GameStore { games: Vec::new() }
    }

    /// Appends a new game with a fresh id (one above the last assigned),
    /// owning exactly the handed-in windows, kept in start-offset order,
    /// and returns it as stored. The id space must not be exhausted.
    pub fn create_game(&mut self, name: String, total_time: i32, targets: Vec<GameTargetInput>)
        -> (r: GameRecord)
        requires
            old(self).wf(),
            old(self)@.len() == 0 || old(self)@[old(self)@.len() - 1].id < i32::MAX,
        ensures
            final(self).wf(),
            final(self)@.len() == old(self)@.len() + 1,
            final(self)@.subrange(0, old(self)@.len() as int) == old(self)@,
            rec_eq(final(self)@[old(self)@.len() as int], r),
            r.id == if old(self)@.len() == 0 {
                1int
            } else {
                old(self)@[old(self)@.len() - 1].id + 1
            },
            r.name@ == name@,
            r.total_time == total_time,
            inputs_ordered(r.windows@),
            r.windows@.to_multiset() == targets@.to_multiset(),
            r.windows@.len() == targets@.len(),
    {
        let id: i32 = if self.games.len() == 0 {
            1
        } else {
            self.games[self.games.len() - 1].id + 1
        };
        let sorted = sort_windows(&targets);
        let stored = GameRecord {
            id,
            name: name.clone(),
            total_time,
            windows: copy_windows(&sorted),
        };
        self.games.push(stored);
        let returned = GameRecord { id, name, total_time, windows: sorted };
        proof {
            assert(final(self)@.subrange(0, old(self)@.len() as int) =~= old(self)@);
            assert forall|i: int, j: int|
                0 <= i < j < final(self)@.len() implies final(self)@[i].id < final(
                self)@[j].id by {
                if j == final(self)@.len() - 1 && i < j {
                    assert(old(self)@[i].id <= old(self)@[old(self)@.len() - 1].id);
                }
            }
            assert forall|i: int|
                0 <= i < final(self)@.len() implies inputs_ordered(
                #[trigger] final(self)@[i].windows@) by {
                if i < old(self)@.len() {
                    assert(final(self)@[i] == old(self)@[i]);
                }
            }
        }
        returned
    }

    /// The game keyed by `id`, as a value copy; nothing when no game has
    /// that id.
    pub fn get_game(&self, id: i32) -> (r: Option<GameRecord>)
        requires
            self.wf(),
        ensures
            r is Some <==> exists|j: int| 0 <= j < self@.len() && self@[j].id == id,
            forall|j: int|
                0 <= j < self@.len() && self@[j].id == id ==> r is Some && rec_eq(
                    r->Some_0,
                    self@[j],
                ),
    {
        let mut i: usize = 0;
        while i < self.games.len()
            invariant
                i <= self.games@.len(),
                self.wf(),
                forall|k: int| 0 <= k < i ==> self.games@[k].id != id,
            decreases self.games@.len() - i,
        {
            if self.games[i].id == id {
                let rec = GameRecord {
                    id,
                    name: self.games[i].name.clone(),
                    total_time: self.games[i].total_time,
                    windows: copy_windows(&self.games[i].windows),
                };
                proof {
                    assert forall|j: int|
                        0 <= j < self@.len() && self@[j].id == id implies j == i as int by {
                        if j < i as int {
                            assert(self.games@[j].id != id);
                        } else if j > i as int {
                            assert(self.games@[i as int].id < self.games@[j].id);
                        }
                    }
                }
                return Some(rec);
            }
            i = i + 1;
        }
        None
    }

    /// Replaces the name, total time and windows of the game keyed by
    /// `id` wholesale, keeping its id, and returns the game as now
    /// stored; returns nothing and changes nothing when no game has that
    /// id.
    pub fn update_game(
        &mut self,
        id: i32,
        name: String,
        total_time: i32,
        targets: Vec<GameTargetInput>,
    ) -> (r: Option<GameRecord>)
        requires
            old(self).wf(),
        ensures
            final(self).wf(),
            r is Some <==> exists|j: int| 0 <= j < old(self)@.len() && old(self)@[j].id == id,
            forall|j: int|
                0 <= j < old(self)@.len() && old(self)@[j].id == id ==> (final(self)@.len() == old(
                    self,
                )@.len() && rec_eq(final(self)@[j], r->Some_0) && (forall|k: int|
                    0 <= k < old(self)@.len() && k != j ==> final(self)@[k] == old(self)@[k])),
            r is Some ==> r->Some_0.id == id && r->Some_0.name@ == name@ && r->Some_0.total_time
                == total_time && inputs_ordered(r->Some_0.windows@) && r->Some_0.windows@
                .to_multiset() == targets@.to_multiset() && r->Some_0.windows@.len()
                == targets@.len(),
            r is None ==> final(self)@ == old(self)@,
    {
        let mut i: usize = 0;
        while i < self.games.len()
            invariant
                i <= self.games@.len(),
                self@ == old(self)@,
                old(self).wf(),
                forall|k: int| 0 <= k < i ==> self.games@[k].id != id,
            decreases self.games@.len() - i,
        {
            if self.games[i].id == id {
                let sorted = sort_windows(&targets);
                let stored = GameRecord {
                    id,
                    name: name.clone(),
                    total_time,
                    windows: copy_windows(&sorted),
                };
                let ghost pre = self.games@;
                self.games[i] = stored;
                proof {
                    assert forall|j: int|
                        0 <= j < pre.len() && pre[j].id == id implies j == i as int by {
                        if j < i as int {
                            assert(pre[j].id != id);
                        } else if j > i as int {
                            assert(pre[i as int].id < pre[j].id);
                        }
                    }
                    assert forall|a: int, b: int|
                        0 <= a < b < final(self)@.len() implies final(self)@[a].id < final(
                        self)@[b].id by {
                        assert(pre[a].id < pre[b].id);
                        assert(final(self)@[a].id == pre[a].id);
                        assert(final(self)@[b].id == pre[b].id);
                    }
                    assert forall|a: int|
                        0 <= a < final(self)@.len() implies inputs_ordered(
                        #[trigger] final(self)@[a].windows@) by {
                        if a != i as int {
                            assert(final(self)@[a] == pre[a]);
                            assert(inputs_ordered(pre[a].windows@));
                        }
                    }
                }
                return Some(GameRecord { id, name, total_time, windows: sorted });
            }
            i = i + 1;
        }
        None
    }

    /// Removes the game keyed by `id` — its windows go with it — and
    /// reports whether one was there; with no such game the table is
    /// unchanged.
    pub fn delete_game(&mut self, id: i32) -> (r: bool)
        requires
            old(self).wf(),
        ensures
            final(self).wf(),
            r <==> exists|j: int| 0 <= j < old(self)@.len() && old(self)@[j].id == id,
            forall|j: int|
                0 <= j < old(self)@.len() && old(self)@[j].id == id ==> final(self)@ == old(
                    self,
                )@.remove(j),
            !r ==> final(self)@ == old(self)@,
    {
        let mut i: usize = 0;
        while i < self.games.len()
            invariant
                i <= self.games@.len(),
                self@ == old(self)@,
                old(self).wf(),
                forall|k: int| 0 <= k < i ==> self.games@[k].id != id,
            decreases self.games@.len() - i,
        {
            if self.games[i].id == id {
                let ghost pre = self.games@;
                self.games.remove(i);
                proof {
                    assert forall|j: int|
                        0 <= j < pre.len() && pre[j].id == id implies j == i as int by {
                        if j < i as int {
                            assert(pre[j].id != id);
                        } else if j > i as int {
                            assert(pre[i as int].id < pre[j].id);
                        }
                    }
                    assert forall|a: int, b: int|
                        0 <= a < b < final(self)@.len() implies final(self)@[a].id < final(
                        self)@[b].id by {
                        let x = if a < i as int { a } else { a + 1 };
                        let y = if b < i as int { b } else { b + 1 };
                        assert(final(self)@[a] == pre[x]);
                        assert(final(self)@[b] == pre[y]);
                        assert(pre[x].id < pre[y].id);
                    }
                    assert forall|a: int|
                        0 <= a < final(self)@.len() implies inputs_ordered(
                        #[trigger] final(self)@[a].windows@) by {
                        let x = if a < i as int { a } else { a + 1 };
                        assert(final(self)@[a] == pre[x]);
                        assert(inputs_ordered(pre[x].windows@));
                    }
                }
                return true;
            }
            i = i + 1;
        }
        false
    }

    /// Value copies of all games, listed in lexicographic name order:
    /// every stored game appears in the listing and everything listed is
    /// a stored game (a bijection, since stored ids are unique), and the
    /// names ascend.
    #[verifier::rlimit(100)]
    pub fn get_all_games(&self) -> (r: Vec<GameRecord>)
        requires
            self.wf(),
        ensures
            r@.len() == self@.len(),
            sorted_by_name(r@),
            forall|i: int| 0 <= i < self@.len() ==> has_copy_in(self@[i], r@),
            forall|j: int| 0 <= j < r@.len() ==> copies_one_of(r@[j], self@),
    {
        let mut out: Vec<GameRecord> = Vec::new();
        let mut i: usize = 0;
        while i < self.games.len()
            invariant
                i <= self.games@.len(),
                self.wf(),
                out@.len() == i,
                sorted_by_name(out@),
                forall|k: int| 0 <= k < i ==> has_copy_in(self.games@[k], out@),
                forall|j: int|
                    0 <= j < out@.len() ==> copies_one_of(
                        out@[j],
                        self.games@.subrange(0, i as int),
                    ),
            decreases self.games@.len() - i,
        {
            let rec = GameRecord {
                id: self.games[i].id,
                name: self.games[i].name.clone(),
                total_time: self.games[i].total_time,
                windows: copy_windows(&self.games[i].windows),
            };
            let ghost pre_out = out@;
            proof {
                assert(rec_eq(rec, self.games@[i as int]));
            }
            insert_game_by_name(&mut out, rec);
            proof {
                let pre_games = self.games@.subrange(0, i as int);
                let cur_games = self.games@.subrange(0, i + 1 as int);
                let p = choose|p: int| 0 <= p <= pre_out.len() && out@ == pre_out.insert(p, rec);
                assert forall|k: int|
                    0 <= k < i + 1 implies has_copy_in(self.games@[k], out@) by {
                    if k == i as int {
                        assert(out@[p] == rec);
                        assert(rec_eq(out@[p], self.games@[k]));
                    } else {
                        let jw = choose|j: int|
                            0 <= j < pre_out.len() && rec_eq(pre_out[j], self.games@[k]);
                        let jn = if jw < p {
                            jw
                        } else {
                            jw + 1
                        };
                        assert(out@[jn] == pre_out[jw]);
                        assert(rec_eq(out@[jn], self.games@[k]));
                    }
                }
                assert forall|j: int|
                    0 <= j < out@.len() implies copies_one_of(out@[j], cur_games) by {
                    if j == p {
                        assert(out@[j] == rec);
                        assert(cur_games[i as int] == self.games@[i as int]);
                        assert(rec_eq(out@[j], cur_games[i as int]));
                    } else {
                        let jo = if j < p {
                            j
                        } else {
                            j - 1
                        };
                        assert(out@[j] == pre_out[jo]);
                        let kw = choose|k: int|
                            0 <= k < pre_games.len() && rec_eq(pre_out[jo], pre_games[k]);
                        assert(cur_games[kw] == pre_games[kw]);
                        assert(rec_eq(out@[j], cur_games[kw]));
                    }
                }
            }
            i = i + 1;
        }
        proof {
            assert(self.games@.subrange(0, self.games@.len() as int) =~= self.games@);
            assert forall|k: int|
                0 <= k < self@.len() implies has_copy_in(self@[k], out@) by {
                assert(self@[k] == self.games@[k]);
                assert(has_copy_in(self.games@[k], out@));
            }
        }
        out
    }
}

/// The inner join of handed-in windows with the target catalog: each
/// window whose target id keys a stored target, paired with that target,
/// in window order; a window referencing no stored target is dropped.
pub open spec fn join_windows(ws: Seq<GameTargetInput>, ts: Seq<Target>) -> Seq<GameTarget>
    decreases ws.len(),
{
    if ws.len() == 0 {
        Seq::empty()
    } else {
        let rest = join_windows(ws.drop_first(), ts);
        if exists|k: int| 0 <= k < ts.len() && ts[k].id == Some(ws[0].target_id) {
            let k = choose|k: int| 0 <= k < ts.len() && ts[k].id == Some(ws[0].target_id);
            seq![
                GameTarget {
                    id: None,
                    target: ts[k],
                    start_time: ws[0].start_time,
                    end_time: ws[0].end_time,
                },
            ] + rest
        } else {
            rest
        }
    }
}

/// Joins `windows` against the catalog.
fn join_game_windows(windows: &Vec<GameTargetInput>, targets: &TargetTable) -> (r: Vec<GameTarget>)
    requires
        targets.wf(),
    ensures
        r@ == join_windows(windows@, targets@),
{
    let mut out: Vec<GameTarget> = Vec::new();
    proof {
        assert(windows@.skip(0) =~= windows@);
        assert(out@ + join_windows(windows@.skip(0), targets@) =~= join_windows(
            windows@,
            targets@,
        ));
    }
    let mut i: usize = 0;
    while i < windows.len()
        invariant
            i <= windows@.len(),
            targets.wf(),
            join_windows(windows@, targets@) == out@ + join_windows(
                windows@.skip(i as int),
                targets@,
            ),
        decreases windows@.len() - i,
    {
        let w = windows[i];
        let ghost pre = out@;
        let found = targets.get_target(w.target_id);
        match found {
            Some(t) => {
                out.push(
                    GameTarget { id: None, target: t, start_time: w.start_time, end_time: w.end_time },
                );
            },
            None => {},
        }
        proof {
            let ts = targets@;
            let tail = windows@.skip(i as int);
            assert(tail[0] == windows@[i as int]);
            assert(tail.drop_first() =~= windows@.skip(i + 1 as int));
            if exists|k: int| 0 <= k < ts.len() && ts[k].id == Some(w.target_id) {
                let k = choose|k: int| 0 <= k < ts.len() && ts[k].id == Some(tail[0].target_id);
                assert(ts[k].id == Some(w.target_id));
                assert(found == Some(ts[k]));
                assert(join_windows(tail, ts) == seq![
                    GameTarget {
                        id: None,
                        target: ts[k],
                        start_time: tail[0].start_time,
                        end_time: tail[0].end_time,
                    },
                ] + join_windows(tail.drop_first(), ts));
                assert(out@ + join_windows(windows@.skip(i + 1 as int), ts) =~= pre
                    + join_windows(tail, ts));
            } else {
                assert(found is None);
                assert(out@ == pre);
                assert(join_windows(tail, ts) == join_windows(tail.drop_first(), ts));
            }
        }
        i = i + 1;
    }
    proof {
        assert(windows@.skip(windows@.len() as int) =~= Seq::<GameTargetInput>::empty());
        assert(out@ + Seq::<GameTarget>::empty() =~= out@);
    }
    out
}

/// The windows of the game keyed by `game_id`, resolved against the
/// target catalog as the storage layer's join resolves them: each window
/// paired with the stored target its id references, windows referencing
/// no stored target dropped, in the game's (start-offset) window order.
/// Nothing when no game has that id.
pub fn get_game_targets(games: &GameStore, targets: &TargetTable, game_id: i32) -> (r: Option<
    Vec<GameTarget>,
>)
    requires
        games.wf(),
        targets.wf(),
    ensures
        r is Some <==> exists|j: int| 0 <= j < games@.len() && games@[j].id == game_id,
        forall|j: int|
            0 <= j < games@.len() && games@[j].id == game_id ==> r is Some && r->Some_0@
                == join_windows(games@[j].windows@, targets@),
{
    match games.get_game(game_id) {
        Some(game) => {
            let joined = join_game_windows(&game.windows, targets);
            proof {
                assert forall|j: int|
                    0 <= j < games@.len() && games@[j].id == game_id implies joined@
                    == join_windows(games@[j].windows@, targets@) by {
                    assert(game.windows@ == games@[j].windows@);
                }
            }
            Some(joined)
        },
        None => None,
    }
}

/// `orig` has a value copy somewhere in `s`.
pub open spec fn has_copy_in(orig: GameRecord, s: Seq<GameRecord>) -> bool {
    exists|j: int| 0 <= j < s.len() && rec_eq(s[j], orig)
}

/// `copy` is a value copy of some record of `s`.
pub open spec fn copies_one_of(copy: GameRecord, s: Seq<GameRecord>) -> bool {
    exists|k: int| 0 <= k < s.len() && rec_eq(copy, s[k])
}

/// Records listed with their names in lexicographic order.
pub open spec fn sorted_by_name(s: Seq<GameRecord>) -> bool {
    forall|i: int, j: int| 0 <= i < j < s.len() ==> lex_le(s[i].name@, s[j].name@)
}

/// Inserts `rec` at its ordered position among records sorted by name.
fn insert_game_by_name(out: &mut Vec<GameRecord>, rec: GameRecord)
    requires
        sorted_by_name(old(out)@),
    ensures
        sorted_by_name(final(out)@),
        final(out)@.len() == old(out)@.len() + 1,
        exists|p: int| 0 <= p <= old(out)@.len() && final(out)@ == old(out)@.insert(p, rec),
{
    let mut i: usize = 0;
    while i < out.len() && str_lex_le(out[i].name.as_str(), rec.name.as_str())
        invariant
            i <= out@.len(),
            out@ == old(out)@,
            forall|k: int| 0 <= k < i ==> lex_le(out@[k].name@, rec.name@),
        decreases out@.len() - i,
    {
        i = i + 1;
    }
    out.insert(i, rec);
    proof {
        let s = old(out)@;
        let t = out@;
        let ii = i as int;
        assert(t == s.insert(ii, rec));
        if ii < s.len() {
            lemma_lex_le_total(s[ii].name@, rec.name@);
        }
        assert forall|a: int, b: int|
            0 <= a < b < t.len() implies lex_le(t[a].name@, t[b].name@) by {
            if a < ii && b < ii {
                assert(t[a] == s[a] && t[b] == s[b]);
            } else if a < ii && b == ii {
                assert(t[a] == s[a] && t[b] == rec);
            } else if a < ii && b > ii {
                assert(t[a] == s[a] && t[b] == s[b - 1]);
            } else if a == ii && b > ii {
                assert(t[a] == rec && t[b] == s[b - 1]);
                assert(b - 1 >= ii);
                assert(lex_le(rec.name@, s[ii].name@));
                if b - 1 > ii {
                    assert(lex_le(s[ii].name@, s[b - 1].name@));
                    lemma_lex_le_trans(rec.name@, s[ii].name@, s[b - 1].name@);
                }
            } else {
                assert(t[a] == s[a - 1] && t[b] == s[b - 1]);
            }
        }
    }
}

} // verus!
