//! A caller-supplied mapping from pin ids to voltages.

use vstd::prelude::*;
use crate::cell::Cell;
use crate::grid::Grid;

verus! {

/// The mathematical content of a sequence of `(pin, voltage)` entries: a map
/// in which a later entry for the same pin overrides an earlier one.
pub open spec fn map_of(s: Seq<(u16, i32)>) -> Map<u16, i32>
    decreases s.len(),
{
    if s.len() == 0 {
        Map::empty()
    } else {
        map_of(s.drop_last()).insert(s.last().0, s.last().1)
    }
}

/// A pin-to-voltage mapping, supplied by the caller after placement.
pub struct VoltageMap {
    pub entries: Vec<(u16, i32)>,
}

impl VoltageMap {
    /// The map this value denotes.
    pub open spec fn as_map(self) -> Map<u16, i32> {
        map_of(self.entries@)
    }

    /// An empty mapping.
    pub fn new() -> (r: Self)
        ensures
            r.as_map() == Map::<u16, i32>::empty(),
    {
        VoltageMap { entries: Vec::new() }
    }

    /// Sets the voltage for `pin`, overriding any earlier entry for it.
    pub fn set_voltage(&mut self, pin: u16, v: i32)
        ensures
            final(self).as_map() == old(self).as_map().insert(pin, v),
    {
        self.entries.push((pin, v));
        proof {
            assert(self.entries@.drop_last() == old(self).entries@);
        }
    }

    /// Looks up the voltage of `pin`, or `None` if no entry names it.
    pub fn get(&self, pin: u16) -> (r: Option<i32>)
        ensures
            r == if self.as_map().contains_key(pin) {
                Some(self.as_map()[pin])
            } else {
                None::<i32>
            },
    {
        let mut i: usize = self.entries.len();
        while i > 0
            invariant
                i <= self.entries@.len(),
                forall|k: int| i <= k < self.entries@.len() ==> self.entries@[k].0 != pin,
            decreases i,
        {
            i = i - 1;
            let (p, v) = self.entries[i];
            if p == pin {
                proof {
                    lemma_map_of_last_entry(self.entries@, pin, i as int);
                }
                return Some(v);
            }
        }
        proof {
            lemma_map_of_absent(self.entries@, pin);
        }
        None
    }
}

/// If entry `i` names `p` and no later entry does, the map holds entry `i`'s
/// voltage for `p`.
proof fn lemma_map_of_last_entry(s: Seq<(u16, i32)>, p: u16, i: int)
    requires
        0 <= i < s.len(),
        s[i].0 == p,
        forall|k: int| i < k < s.len() ==> s[k].0 != p,
    ensures
        map_of(s).contains_key(p),
        map_of(s)[p] == s[i].1,
    decreases s.len(),
{
    if i == s.len() - 1 {
    } else {
        assert(s.drop_last()[i] == s[i]);
        lemma_map_of_last_entry(s.drop_last(), p, i);
    }
}

/// What voltage assignment makes of one cell: a metal cell whose pin has an
/// entry takes that entry's voltage; a metal cell whose pin has no entry keeps
/// its voltage; a metal cell with no pin at all resets to 0; air is untouched.
pub open spec fn apply_cell(c: Cell, m: Map<u16, i32>) -> Cell {
    match c {
        Cell::Air { .. } => c,
        Cell::Metal { voltage, pin } => match pin {
            Some(p) => if m.contains_key(p) {
                Cell::Metal { voltage: m[p], pin: Some(p) }
            } else {
                c
            },
            None => Cell::Metal { voltage: 0, pin: None },
        },
    }
}

/// Sets every metal cell's voltage from the mapping, per [`apply_cell`]:
/// pins, air cells, the conductor count and the conductor list are untouched.
pub fn apply_voltage_from_pins(input: &mut Grid, voltages: &VoltageMap)
    requires
        old(input).wf(),
    ensures
        final(input).wf(),
        final(input).size == old(input).size,
        final(input).conductor_count == old(input).conductor_count,
        final(input).conductors == old(input).conductors,
        final(input).cells@ == old(input).cells@.map_values(
            |c: Cell| apply_cell(c, voltages.as_map()),
        ),
{
    let n = input.cells.len();
    let mut new_cells: Vec<Cell> = Vec::new();
    let mut m: usize = 0;
    while m < n
        invariant
            m <= n,
            n == input.cells@.len(),
            *input == *old(input),
            new_cells@.len() == m,
            forall|k: int|
                0 <= k < m ==> new_cells@[k] == apply_cell(
                    old(input).cells@[k],
                    voltages.as_map(),
                ),
        decreases n - m,
    {
        let c = input.cells[m];
        let nc = match c {
            Cell::Metal { voltage: _, pin: Some(p) } => match voltages.get(p) {
                Some(nv) => Cell::Metal { voltage: nv, pin: Some(p) },
                None => c,
            },
            Cell::Metal { voltage: _, pin: None } => Cell::Metal { voltage: 0, pin: None },
            Cell::Air { .. } => c,
        };
        new_cells.push(nc);
        m = m + 1;
    }
    input.cells = new_cells;
    proof {
        assert(input.cells@ =~= old(input).cells@.map_values(
            |c: Cell| apply_cell(c, voltages.as_map()),
        ));
    }
}

/// Law: voltage assignment is idempotent. Applying the same mapping twice to a
/// grid's cells yields exactly the cells of applying it once.
pub proof fn lemma_apply_idempotent(cells: Seq<Cell>, m: Map<u16, i32>)
    ensures
        cells.map_values(|c: Cell| apply_cell(c, m)).map_values(|c: Cell| apply_cell(c, m))
            == cells.map_values(|c: Cell| apply_cell(c, m)),
{
    let once = cells.map_values(|c: Cell| apply_cell(c, m));
    assert forall|k: int| 0 <= k < once.len() implies apply_cell(once[k], m) == once[k] by {
        assert(once[k] == apply_cell(cells[k], m));
    }
    assert(once.map_values(|c: Cell| apply_cell(c, m)) =~= once);
}

/// If no entry names `p`, the map has no key `p`.
proof fn lemma_map_of_absent(s: Seq<(u16, i32)>, p: u16)
    requires
        forall|k: int| 0 <= k < s.len() ==> s[k].0 != p,
    ensures
        !map_of(s).contains_key(p),
    decreases s.len(),
{
    if s.len() > 0 {
        lemma_map_of_absent(s.drop_last(), p);
    }
}

} // verus!
