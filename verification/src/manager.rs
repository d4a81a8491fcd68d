//! The reconciliation table: one row per known tile, plus the transient sets
//! of one run (added, missing, deleted) and the allocation cursor.
//!
//! Invariant: tile names are unique and at most one tile occupies a position,
//! so names and occupied positions stay in one-to-one correspondence.
use vstd::prelude::*;

use crate::model::{first_free, lemma_first_free, lemma_max_layer, max_layer, occ_contains};
use crate::pos::{cursor_idx, cursor_pos, cursor_step, cursor_wf, lemma_cursor_step, Cursor,
    TilePos, RING_LIMIT};
use crate::text::{chars_eq, clone_name, legal_name, name_is_legal};

verus! {

/// One known tile: its allocated position and, once the registry has
/// committed it, its persistent registry identifier.
#[derive(Clone, Copy, Debug)]
pub struct Tile {
    pub pos: TilePos,
    pub id: Option<u64>,
}

/// One row of the reconciliation table: a named tile.
pub struct Row {
    pub name: Vec<char>,
    pub tile: Tile,
}

/// The positions column of a table.
pub open spec fn positions(t: Seq<Row>) -> Seq<TilePos> {
    t.map_values(|r: Row| r.tile.pos)
}

/// Whether some row carries this name.
pub open spec fn has_name(t: Seq<Row>, n: Seq<char>) -> bool {
    exists|i: int| 0 <= i < t.len() && t[i].name@ == n
}

/// Names unique, positions unique: the name/position correspondence is
/// one-to-one.
pub open spec fn wf_table(t: Seq<Row>) -> bool {
    forall|i: int, j: int|
        0 <= i < j < t.len() ==> (#[trigger] t[i]).name@ != (#[trigger] t[j]).name@
            && t[i].tile.pos != t[j].tile.pos
}

/// The views of a list of names.
pub open spec fn names_view(v: Seq<Vec<char>>) -> Seq<Seq<char>> {
    v.map_values(|x: Vec<char>| x@)
}

/// The views of a renames list.
pub open spec fn renames_view(v: Seq<(Vec<char>, Vec<char>)>) -> Seq<(Seq<char>, Seq<char>)> {
    v.map_values(|p: (Vec<char>, Vec<char>)| (p.0@, p.1@))
}

/// First rename entry for a stem, if any.
pub open spec fn rename_lookup(rn: Seq<(Seq<char>, Seq<char>)>, stem: Seq<char>) -> Option<
    Seq<char>,
>
    decreases rn.len(),
{
    if rn.len() == 0 {
        None
    } else if rn[0].0 == stem {
        Some(rn[0].1)
    } else {
        rename_lookup(rn.drop_first(), stem)
    }
}

/// The name a local file stem resolves to: its rename if one is recorded,
/// otherwise the stem itself.
pub open spec fn resolve_spec(rn: Seq<(Seq<char>, Seq<char>)>, stem: Seq<char>) -> Seq<char> {
    match rename_lookup(rn, stem) {
        Some(v) => v,
        None => stem,
    }
}

/// A local file stem is ignored when its rename entry maps it to the empty
/// name.
pub open spec fn ignored_spec(rn: Seq<(Seq<char>, Seq<char>)>, stem: Seq<char>) -> bool {
    rename_lookup(rn, stem) == Some(Seq::<char>::empty())
}

/// A list of names with every occurrence of one name struck out.
pub open spec fn strike(s: Seq<Seq<char>>, n: Seq<char>) -> Seq<Seq<char>>
    decreases s.len(),
{
    if s.len() == 0 {
        Seq::empty()
    } else if s.last() == n {
        strike(s.drop_last(), n)
    } else {
        strike(s.drop_last(), n).push(s.last())
    }
}

/// How one local file changed the reconciliation state.
#[derive(Clone, Copy, Debug, PartialEq, Eq, Structural)]
pub enum ScanOutcome {
    /// The renames list maps the stem to the empty name: the file is ignored.
    Skipped,
    /// The resolved name holds a reserved character; nothing was changed and
    /// the run must stop.
    Illegal,
    /// The registry already knows the resolved name.
    Known,
    /// The resolved name is new; it was appended to the additions.
    Added,
}

/// Why a requested deletion was not recorded.
#[derive(Clone, Copy, Debug, PartialEq, Eq, Structural)]
pub enum DeleteError {
    /// No tile of that name exists.
    UnknownTile,
    /// The tile was never committed to the registry, so it has no registry
    /// identifier to delete.
    Uncommitted,
}

/// The reconciliation state of one run.
pub struct Manager {
    /// Known tiles: imported from the registry, then extended by allocation.
    pub table: Vec<Row>,
    /// Stem-to-name substitutions, applied before any other rule.
    pub renames: Vec<(Vec<char>, Vec<char>)>,
    /// Names seen locally but unknown to the registry, in scan order.
    pub added: Vec<Vec<char>>,
    /// Names the registry knows that no local file produced so far.
    pub missing: Vec<Vec<char>>,
    /// Registry identifiers marked for deletion.
    pub deleted: Vec<u64>,
    /// The spiral allocation cursor.
    pub next: Cursor,
}

impl Manager {
    /// The table invariant together with a well-formed cursor.
    pub open spec fn wf(self) -> bool {
        wf_table(self.table@) && cursor_wf(self.next)
    }

    /// A fresh manager: nothing known, cursor at the origin.
    pub fn new(renames: Vec<(Vec<char>, Vec<char>)>) -> (m: Manager)
        ensures
            m.wf(),
            m.table@.len() == 0,
            m.renames == renames,
            m.added@.len() == 0,
            m.missing@.len() == 0,
            m.deleted@.len() == 0,
            m.next == (Cursor { ring: 0, offset: 0, layer: 0 }),
    {
        Manager {
            table: Vec::new(),
            renames,
            added: Vec::new(),
            missing: Vec::new(),
            deleted: Vec::new(),
            next: Cursor { ring: 0, offset: 0, layer: 0 },
        }
    }

    /// Records one tile fetched from the registry and seeds the missing set
    /// with its name. A record whose name or position is already taken is
    /// reported false and changes nothing: the table's one-to-one
    /// correspondence is kept.
    pub fn import_tile(&mut self, name: Vec<char>, pos: TilePos, id: u64) -> (r: bool)
        requires
            old(self).wf(),
        ensures
            final(self).wf(),
            final(self).renames == old(self).renames,
            final(self).added == old(self).added,
            final(self).deleted == old(self).deleted,
            final(self).next == old(self).next,
            r == (!has_name(old(self).table@, name@) && !occ_contains(
                positions(old(self).table@),
                pos,
            )),
            !r ==> final(self).table == old(self).table && final(self).missing == old(self).missing,
            r ==> {
                &&& final(self).table@.len() == old(self).table@.len() + 1
                &&& final(self).table@.subrange(0, old(self).table@.len() as int) == old(self).table@
                &&& final(self).table@.last().name@ == name@
                &&& final(self).table@.last().tile.pos == pos
                &&& final(self).table@.last().tile.id == Some(id)
                &&& names_view(final(self).missing@) == names_view(old(self).missing@).push(name@)
            },
    {
        let taken_name = find_row(&self.table, &name).is_some();
        let taken_pos = pos_taken(&self.table, &pos);
        if taken_name || taken_pos {
            return false;
        }
        let ghost t0 = self.table@;
        let missing_copy = clone_name(&name);
        self.table.push(Row { name, tile: Tile { pos, id: Some(id) } });
        self.missing.push(missing_copy);
        proof {
            assert(self.table@.drop_last() =~= t0);
            assert(self.table@.subrange(0, t0.len() as int) =~= t0);
            assert forall|i: int, j: int| 0 <= i < j < self.table@.len() implies (
            #[trigger] self.table@[i]).name@ != (#[trigger] self.table@[j]).name@
                && self.table@[i].tile.pos != self.table@[j].tile.pos by {
                if j == self.table@.len() - 1 {
                    assert(positions(t0)[i] == t0[i].tile.pos);
                }
            }
            assert(names_view(self.missing@) =~= names_view(old(self).missing@).push(
                self.table@.last().name@,
            ));
        }
        true
    }
    /// Position of a tile: the recorded one for a known name (stability:
    /// re-running allocation for an already-known name returns its existing
    /// position and changes nothing), and for a new name the first free
    /// spiral candidate at or after the cursor, which is committed to the
    /// table at once so no later allocation can return it again.
    pub fn lookup(&mut self, name: Vec<char>) -> (p: TilePos)
        requires
            old(self).wf(),
            max_layer(positions(old(self).table@)) < u32::MAX as int,
        ensures
            final(self).wf(),
            final(self).renames == old(self).renames,
            final(self).added == old(self).added,
            final(self).missing == old(self).missing,
            final(self).deleted == old(self).deleted,
            has_name(old(self).table@, name@) ==> {
                &&& final(self).table == old(self).table
                &&& final(self).next == old(self).next
                &&& forall|i: int|
                    0 <= i < old(self).table@.len() && (#[trigger] old(self).table@[i]).name@
                        == name@ ==> p == old(self).table@[i].tile.pos
            },
            !has_name(old(self).table@, name@) ==> {
                let ff = first_free(positions(old(self).table@), old(self).next);
                &&& final(self).next == ff
                &&& p == cursor_pos(ff)
                &&& !occ_contains(positions(old(self).table@), p)
                &&& final(self).table@.len() == old(self).table@.len() + 1
                &&& final(self).table@.subrange(0, old(self).table@.len() as int) == old(self).table@
                &&& final(self).table@.last().name@ == name@
                &&& final(self).table@.last().tile.pos == p
                &&& final(self).table@.last().tile.id is None
            },
    {
        if let Some(i) = find_row(&self.table, &name) {
            return self.table[i].tile.pos;
        }
        let ghost occ = positions(self.table@);
        let ghost ff = first_free(occ, self.next);
        proof {
            lemma_first_free(occ, self.next);
        }
        loop
            invariant
                self.table == old(self).table,
                self.renames == old(self).renames,
                self.added == old(self).added,
                self.missing == old(self).missing,
                self.deleted == old(self).deleted,
                cursor_wf(self.next),
                max_layer(occ) < u32::MAX as int,
                occ == positions(self.table@),
                ff == first_free(occ, self.next),
                cursor_idx(self.next) <= cursor_idx(ff),
                !has_name(self.table@, name@),
            ensures
                self.table == old(self).table,
                self.renames == old(self).renames,
                self.added == old(self).added,
                self.missing == old(self).missing,
                self.deleted == old(self).deleted,
                self.next == ff,
            decreases cursor_idx(ff) - cursor_idx(self.next),
        {
            let c = self.next;
            let cand = if c.offset < c.ring {
                TilePos { x: c.offset, y: c.ring, z: c.layer }
            } else {
                TilePos { x: c.ring, y: c.offset - c.ring, z: c.layer }
            };
            proof {
                assert(cand == cursor_pos(c));
            }
            if !pos_taken(&self.table, &cand) {
                proof {
                    assert(first_free(occ, c) == c);
                }
                break ;
            }
            proof {
                lemma_max_layer(occ, cand);
                lemma_cursor_step(c);
                assert(first_free(occ, c) == first_free(occ, cursor_step(c)));
                lemma_first_free(occ, cursor_step(c));
            }
            self.next.offset = self.next.offset + 1;
            if self.next.offset > 2 * self.next.ring {
                self.next.ring = self.next.ring + 1;
                self.next.offset = 0;
                if self.next.ring == RING_LIMIT {
                    self.next.ring = 0;
                    self.next.layer = self.next.layer + 1;
                }
            }
            proof {
                assert(self.next == cursor_step(c));
            }
        }
        let c = self.next;
        let p = if c.offset < c.ring {
            TilePos { x: c.offset, y: c.ring, z: c.layer }
        } else {
            TilePos { x: c.ring, y: c.offset - c.ring, z: c.layer }
        };
        let ghost t0 = self.table@;
        self.table.push(Row { name, tile: Tile { pos: p, id: None } });
        proof {
            assert(p == cursor_pos(ff));
            assert(!occ_contains(occ, p));
            assert(self.table@.subrange(0, t0.len() as int) =~= t0);
            assert forall|i: int, j: int| 0 <= i < j < self.table@.len() implies (
            #[trigger] self.table@[i]).name@ != (#[trigger] self.table@[j]).name@
                && self.table@[i].tile.pos != self.table@[j].tile.pos by {
                if j == self.table@.len() - 1 {
                    assert(positions(t0)[i] == t0[i].tile.pos);
                }
            }
        }
        p
    }
    /// Applies one local file stem to the reconciliation sets: resolve it
    /// through the renames list, ignore it when mapped to the empty name,
    /// refuse a resolved name with a reserved character without touching any
    /// state, and otherwise strike the name from the missing set and append
    /// it to the additions when the registry does not know it.
    pub fn observe_local(&mut self, stem: &Vec<char>) -> (r: ScanOutcome)
        requires
            old(self).wf(),
        ensures
            final(self).wf(),
            final(self).table == old(self).table,
            final(self).renames == old(self).renames,
            final(self).deleted == old(self).deleted,
            final(self).next == old(self).next,
            ({
                let rn = renames_view(old(self).renames@);
                let name = resolve_spec(rn, stem@);
                match r {
                    ScanOutcome::Skipped => ignored_spec(rn, stem@) && final(self).added == old(self).added && final(self).missing == old(self).missing,
                    ScanOutcome::Illegal => !ignored_spec(rn, stem@) && !legal_name(name) && final(self).added == old(self).added && final(self).missing == old(self).missing,
                    ScanOutcome::Known => !ignored_spec(rn, stem@) && legal_name(name) && has_name(
                        old(self).table@,
                        name,
                    ) && final(self).added == old(self).added && names_view(final(self).missing@)
                        == strike(names_view(old(self).missing@), name),
                    ScanOutcome::Added => !ignored_spec(rn, stem@) && legal_name(name) && !has_name(
                        old(self).table@,
                        name,
                    ) && names_view(final(self).added@) == names_view(old(self).added@).push(name)
                        && names_view(final(self).missing@) == strike(names_view(old(self).missing@), name),
                }
            }),
    {
        let ghost rn = renames_view(self.renames@);
        let name: Vec<char> = match find_rename(&self.renames, stem) {
            Some(i) => {
                let v = clone_name(&self.renames[i].1);
                if v.len() == 0 {
                    proof {
                        assert(rename_lookup(rn, stem@) == Some(v@));
                        assert(v@ =~= Seq::<char>::empty());
                    }
                    return ScanOutcome::Skipped;
                }
                v
            },
            None => clone_name(stem),
        };
        proof {
            assert(name@ == resolve_spec(rn, stem@));
            assert(!ignored_spec(rn, stem@));
        }
        if !name_is_legal(&name) {
            return ScanOutcome::Illegal;
        }
        let ghost m0 = names_view(self.missing@);
        let mut kept: Vec<Vec<char>> = Vec::new();
        let mut i: usize = 0;
        proof {
            assert(m0.take(0) =~= Seq::<Seq<char>>::empty());
        }
        while i < self.missing.len()
            invariant
                i <= self.missing@.len(),
                m0 == names_view(self.missing@),
                names_view(kept@) == strike(m0.take(i as int), name@),
            decreases self.missing@.len() - i,
        {
            let ghost prev = names_view(kept@);
            proof {
                assert(m0.take(i + 1).drop_last() =~= m0.take(i as int));
                assert(m0.take(i + 1).last() == self.missing@[i as int]@);
            }
            if !chars_eq(&self.missing[i], &name) {
                kept.push(clone_name(&self.missing[i]));
                proof {
                    assert(names_view(kept@) =~= prev.push(self.missing@[i as int]@));
                }
            }
            i = i + 1;
        }
        proof {
            assert(m0.take(self.missing@.len() as int) =~= m0);
        }
        self.missing = kept;
        if find_row(&self.table, &name).is_some() {
            ScanOutcome::Known
        } else {
            let ghost a0 = names_view(self.added@);
            self.added.push(name);
            proof {
                assert(names_view(self.added@) =~= a0.push(resolve_spec(rn, stem@)));
            }
            ScanOutcome::Added
        }
    }

    /// Marks a named tile for deletion: its row leaves the table (freeing its
    /// position) and its registry identifier joins the deletion list. A name
    /// the table does not hold, or one never committed to the registry, is
    /// refused and changes nothing.
    pub fn record_deletion(&mut self, name: &Vec<char>) -> (r: Result<u64, DeleteError>)
        requires
            old(self).wf(),
        ensures
            final(self).wf(),
            final(self).renames == old(self).renames,
            final(self).added == old(self).added,
            final(self).missing == old(self).missing,
            final(self).next == old(self).next,
            match r {
                Result::Err(e) => final(self).table == old(self).table && final(self).deleted
                    == old(self).deleted && (e == DeleteError::UnknownTile ==> !has_name(
                    old(self).table@,
                    name@,
                )) && (e == DeleteError::Uncommitted ==> exists|i: int|
                    0 <= i < old(self).table@.len() && (#[trigger] old(self).table@[i]).name@
                        == name@ && old(self).table@[i].tile.id is None),
                Result::Ok(id) => exists|i: int|
                    0 <= i < old(self).table@.len() && (#[trigger] old(self).table@[i]).name@
                        == name@ && old(self).table@[i].tile.id == Some(id) && final(self).table@
                        == old(self).table@.remove(i) && final(self).deleted@ == old(self).deleted@.push(id),
            },
            r is Err <==> (!has_name(old(self).table@, name@) || exists|i: int|
                0 <= i < old(self).table@.len() && (#[trigger] old(self).table@[i]).name@ == name@
                    && old(self).table@[i].tile.id is None),
    {
        match find_row(&self.table, name) {
            None => Err(DeleteError::UnknownTile),
            Some(i) => {
                match self.table[i].tile.id {
                    None => {
                        proof {
                            assert forall|j: int|
                                0 <= j < self.table@.len() && (#[trigger] self.table@[j]).name@
                                    == name@ implies self.table@[j].tile.id is None by {
                                if j != i as int {
                                    assert(self.table@[j].name@ != self.table@[i as int].name@);
                                }
                            }
                        }
                        Err(DeleteError::Uncommitted)
                    },
                    Some(id) => {
                        let ghost t0 = self.table@;
                        self.table.remove(i);
                        self.deleted.push(id);
                        proof {
                            assert forall|a: int, b: int|
                                0 <= a < b < self.table@.len() implies (
                            #[trigger] self.table@[a]).name@ != (#[trigger] self.table@[b]).name@
                                && self.table@[a].tile.pos != self.table@[b].tile.pos by {
                                let a0: int = if a < i as int {
                                    a
                                } else {
                                    a + 1
                                };
                                let b0: int = if b < i as int {
                                    b
                                } else {
                                    b + 1
                                };
                                assert(self.table@[a] == t0[a0]);
                                assert(self.table@[b] == t0[b0]);
                            }
                        }
                        Ok(id)
                    },
                }
            },
        }
    }
}

/// First rename entry's index for a stem, if any.
pub fn find_rename(renames: &Vec<(Vec<char>, Vec<char>)>, stem: &Vec<char>) -> (r: Option<usize>)
    ensures
        match r {
            Some(i) => i < renames@.len() && renames@[i as int].0@ == stem@ && rename_lookup(
                renames_view(renames@),
                stem@,
            ) == Some(renames@[i as int].1@),
            None => rename_lookup(renames_view(renames@), stem@) is None,
        },
{
    let ghost rn = renames_view(renames@);
    proof {
        assert(rn.skip(0) =~= rn);
    }
    let mut i: usize = 0;
    while i < renames.len()
        invariant
            i <= renames@.len(),
            rn == renames_view(renames@),
            rename_lookup(rn, stem@) == rename_lookup(rn.skip(i as int), stem@),
        decreases renames@.len() - i,
    {
        proof {
            assert(rn.skip(i as int)[0] == rn[i as int]);
        }
        if chars_eq(&renames[i].0, stem) {
            return Some(i);
        }
        proof {
            assert(rn.skip(i as int).drop_first() =~= rn.skip(i as int + 1));
        }
        i = i + 1;
    }
    None
}

/// Index of the row carrying a name, if any.
pub fn find_row(table: &Vec<Row>, name: &Vec<char>) -> (r: Option<usize>)
    ensures
        match r {
            Some(i) => i < table@.len() && table@[i as int].name@ == name@,
            None => !has_name(table@, name@),
        },
{
    let mut i: usize = 0;
    while i < table.len()
        invariant
            i <= table@.len(),
            forall|j: int| 0 <= j < i ==> (#[trigger] table@[j]).name@ != name@,
        decreases table@.len() - i,
    {
        if chars_eq(&table[i].name, name) {
            return Some(i);
        }
        i = i + 1;
    }
    None
}

/// Whether a position is already occupied by some row.
pub fn pos_taken(table: &Vec<Row>, p: &TilePos) -> (r: bool)
    ensures
        r == occ_contains(positions(table@), *p),
{
    let mut i: usize = 0;
    while i < table.len()
        invariant
            i <= table@.len(),
            forall|j: int| 0 <= j < i ==> positions(table@)[j] != *p,
        decreases table@.len() - i,
    {
        if table[i].tile.pos == *p {
            proof {
                assert(positions(table@)[i as int] == *p);
            }
            return true;
        }
        proof {
            assert(positions(table@)[i as int] == table@[i as int].tile.pos);
        }
        i = i + 1;
    }
    false
}

} // verus!
