//! The mathematical model of a reactive scope.
//!
//! A scope is modelled as three sequences: equality-checked cells (each a
//! value, a write count, and the observers subscribed to it), derived
//! computations (each a derivation, its previous output, the cell it writes,
//! and the source cell it tracks), and observer run counts.  The spec
//! functions here say exactly what each public operation does to that state;
//! the executable code in [`crate::scope`] and [`crate::memo`] is proved to
//! match them, and the laws in [`crate::laws`] are proved about them.

use crate::derivation::Derivation;
use vstd::prelude::*;

verus! {

/// Model of one equality-checked cell.
#[verifier::ext_equal]
pub ghost struct CellModel<T> {
    /// The cached value.
    pub value: T,
    /// How many times the cell has been written after its initial
    /// population; every such write notifies the cell's observers.
    pub version: nat,
    /// Observers subscribed to the cell, each an index into the scope's run
    /// counts.
    pub obs: Seq<usize>,
}

/// Model of one derived computation: the reactive unit that keeps a memo's
/// cell up to date.
#[verifier::ext_equal]
pub ghost struct CompModel<T, D> {
    /// The user-supplied derivation, including any state it carries.
    pub d: D,
    /// The computation's previous output, fed back into the next run.
    pub prev: Option<T>,
    /// The cell this computation writes.
    pub cell: usize,
    /// The source cell this computation tracks.
    pub src: usize,
}

/// Model of a whole scope.
#[verifier::ext_equal]
pub ghost struct ScopeModel<T, D> {
    pub cells: Seq<CellModel<T>>,
    pub comps: Seq<CompModel<T, D>>,
    pub runs: Seq<nat>,
}

impl<T, D> ScopeModel<T, D> {
    /// Indices are in range, computations write pairwise distinct cells,
    /// no computation tracks a computation-written cell, and each cell's
    /// observer list names existing observers without repetition.
    pub open spec fn wf(self) -> bool {
        &&& forall|j: int|
            0 <= j < self.comps.len() ==> (#[trigger] self.comps[j]).cell < self.cells.len()
        &&& forall|j: int|
            0 <= j < self.comps.len() ==> (#[trigger] self.comps[j]).src < self.cells.len()
        &&& forall|j: int, k: int|
            0 <= j < self.comps.len() && 0 <= k < self.comps.len() && j != k
                ==> (#[trigger] self.comps[j]).cell != (#[trigger] self.comps[k]).cell
        &&& forall|j: int, k: int|
            0 <= j < self.comps.len() && 0 <= k < self.comps.len()
                ==> (#[trigger] self.comps[j]).src != (#[trigger] self.comps[k]).cell
        &&& forall|c: int, i: int|
            0 <= c < self.cells.len() && 0 <= i < self.cells[c].obs.len()
                ==> #[trigger] self.cells[c].obs[i] < self.runs.len()
        &&& forall|c: int, i: int, i2: int|
            0 <= c < self.cells.len() && 0 <= i < i2 < self.cells[c].obs.len()
                ==> #[trigger] self.cells[c].obs[i] != #[trigger] self.cells[c].obs[i2]
    }

    /// Cell `c` is a plain source: no computation writes it, so it may be
    /// updated from outside the scope.
    pub open spec fn is_source(self, c: usize) -> bool {
        forall|j: int| 0 <= j < self.comps.len() ==> (#[trigger] self.comps[j]).cell != c
    }

    /// Room for one more notification round without overflowing a counter.
    pub open spec fn has_counter_room(self) -> bool {
        &&& forall|c: int|
            0 <= c < self.cells.len() ==> (#[trigger] self.cells[c]).version + 1 <= u64::MAX
        &&& forall|k: int|
            0 <= k < self.runs.len()
                ==> (#[trigger] self.runs[k]) + self.comps.len() + 1 <= u64::MAX
    }
}

/// Run counts after one notification: every observer on the list is bumped
/// once.
pub open spec fn bumped(runs: Seq<nat>, obs: Seq<usize>) -> Seq<nat> {
    Seq::new(
        runs.len(),
        |k: int| if obs.contains(k as usize) {
            runs[k] + 1
        } else {
            runs[k]
        },
    )
}

/// Writing value `v` into cell `c` through the cell's normal write path:
/// the value is replaced, the write count grows, and every observer of the
/// cell is notified.
pub open spec fn write_cell<T, D>(m: ScopeModel<T, D>, c: int, v: T) -> ScopeModel<T, D> {
    ScopeModel {
        cells: m.cells.update(
            c,
            CellModel { value: v, version: m.cells[c].version + 1, obs: m.cells[c].obs },
        ),
        comps: m.comps,
        runs: bumped(m.runs, m.cells[c].obs),
    }
}

/// One run of computation `j`: the derivation sees its source's current
/// value and its own previous output; the new value goes into the
/// computation's cell only if it differs from what the cell holds, so an
/// equal value causes no notification.  The new value becomes the previous
/// output for the next round either way.
pub open spec fn step_comp<T, D: Derivation<T>>(m: ScopeModel<T, D>, j: int) -> ScopeModel<
    T,
    D,
> {
    let comp = m.comps[j];
    let input = m.cells[comp.src as int].value;
    let new = comp.d.result(input, comp.prev);
    let written = if new == m.cells[comp.cell as int].value {
        m
    } else {
        write_cell(m, comp.cell as int, new)
    };
    ScopeModel {
        cells: written.cells,
        comps: written.comps.update(
            j,
            CompModel {
                d: comp.d.next_state(input, comp.prev),
                prev: Some(new),
                cell: comp.cell,
                src: comp.src,
            },
        ),
        runs: written.runs,
    }
}

/// Re-runs, in order, every computation from index `j` on that tracks the
/// updated source `s`.
pub open spec fn run_comps_from<T, D: Derivation<T>>(
    m: ScopeModel<T, D>,
    s: usize,
    j: int,
) -> ScopeModel<T, D>
    decreases m.comps.len() - j,
{
    if j < 0 || j >= m.comps.len() {
        m
    } else {
        let m1 = if m.comps[j].src == s {
            step_comp(m, j)
        } else {
            m
        };
        run_comps_from(m1, s, j + 1)
    }
}

/// Updating source `s` to value `v`: the source cell is written (notifying
/// its own observers), then every computation tracking it is re-run.
pub open spec fn update_spec<T, D: Derivation<T>>(m: ScopeModel<T, D>, s: usize, v: T) -> ScopeModel<
    T,
    D,
> {
    run_comps_from(write_cell(m, s as int, v), s, 0)
}

/// Registering observer `o` on cell `c`, as reading through `with` does: a
/// new observer is appended to the cell's list, an already-subscribed one is
/// left alone.
pub open spec fn register<T, D>(m: ScopeModel<T, D>, c: int, o: usize) -> ScopeModel<T, D> {
    if m.cells[c].obs.contains(o) {
        m
    } else {
        ScopeModel {
            cells: m.cells.update(
                c,
                CellModel {
                    value: m.cells[c].value,
                    version: m.cells[c].version,
                    obs: m.cells[c].obs.push(o),
                },
            ),
            comps: m.comps,
            runs: m.runs,
        }
    }
}

/// Creating a memo in interactive mode: the derivation runs once,
/// synchronously, with no previous output; a fresh cell is populated with
/// the result, and a computation tracking `src` is registered whose previous
/// output is that first result.
pub open spec fn create_memo_spec<T, D: Derivation<T>>(
    m: ScopeModel<T, D>,
    src: usize,
    d: D,
) -> ScopeModel<T, D> {
    let input = m.cells[src as int].value;
    let first = d.result(input, None);
    ScopeModel {
        cells: m.cells.push(CellModel { value: first, version: 0, obs: Seq::empty() }),
        comps: m.comps.push(
            CompModel {
                d: d.next_state(input, None),
                prev: Some(first),
                cell: m.cells.len() as usize,
                src,
            },
        ),
        runs: m.runs,
    }
}

/// Creating a memo in snapshot mode: the derivation runs once, synchronously,
/// and the result goes into a fresh cell that is never wired to any
/// computation, so no re-computation path exists.
pub open spec fn create_snapshot_spec<T, D: Derivation<T>>(
    m: ScopeModel<T, D>,
    src: usize,
    d: D,
) -> ScopeModel<T, D> {
    let input = m.cells[src as int].value;
    ScopeModel {
        cells: m.cells.push(
            CellModel { value: d.result(input, None), version: 0, obs: Seq::empty() },
        ),
        comps: m.comps,
        runs: m.runs,
    }
}

/// Writing a cell keeps the scope well formed; it changes no other cell, no
/// computation, no observer list, and bumps each observer of the cell once.
pub proof fn lemma_write_cell_facts<T, D>(m: ScopeModel<T, D>, c: int, v: T)
    requires
        m.wf(),
        0 <= c < m.cells.len(),
    ensures
        write_cell(m, c, v).wf(),
        write_cell(m, c, v).cells.len() == m.cells.len(),
        write_cell(m, c, v).comps == m.comps,
        write_cell(m, c, v).runs.len() == m.runs.len(),
        forall|c2: int|
            0 <= c2 < m.cells.len() && c2 != c ==> write_cell(m, c, v).cells[c2] == m.cells[c2],
        forall|c2: int|
            0 <= c2 < m.cells.len() ==> (#[trigger] write_cell(m, c, v).cells[c2]).obs
                == m.cells[c2].obs,
        write_cell(m, c, v).cells[c].version == m.cells[c].version + 1,
        write_cell(m, c, v).cells[c].value == v,
        forall|k: int|
            0 <= k < m.runs.len() ==> m.runs[k] <= #[trigger] write_cell(m, c, v).runs[k]
                <= m.runs[k] + 1,
        forall|k: int|
            0 <= k < m.runs.len() && m.cells[c].obs.contains(k as usize)
                ==> #[trigger] write_cell(m, c, v).runs[k] == m.runs[k] + 1,
        forall|k: int|
            0 <= k < m.runs.len() && !m.cells[c].obs.contains(k as usize)
                ==> #[trigger] write_cell(m, c, v).runs[k] == m.runs[k],
{
}

/// One computation run keeps the scope well formed; it changes only that
/// computation's own record and possibly its own cell, and it bumps each
/// observer at most once.
pub proof fn lemma_step_comp_facts<T, D: Derivation<T>>(m: ScopeModel<T, D>, j: int)
    requires
        m.wf(),
        0 <= j < m.comps.len(),
    ensures
        step_comp(m, j).wf(),
        step_comp(m, j).cells.len() == m.cells.len(),
        step_comp(m, j).comps.len() == m.comps.len(),
        step_comp(m, j).runs.len() == m.runs.len(),
        forall|jj: int|
            0 <= jj < m.comps.len() && jj != j ==> step_comp(m, j).comps[jj] == m.comps[jj],
        step_comp(m, j).comps[j].cell == m.comps[j].cell,
        step_comp(m, j).comps[j].src == m.comps[j].src,
        forall|c2: int|
            0 <= c2 < m.cells.len() && c2 != m.comps[j].cell
                ==> step_comp(m, j).cells[c2] == m.cells[c2],
        forall|c2: int|
            0 <= c2 < m.cells.len() ==> (#[trigger] step_comp(m, j).cells[c2]).obs
                == m.cells[c2].obs,
        m.cells[m.comps[j].cell as int].version <= step_comp(
            m,
            j,
        ).cells[m.comps[j].cell as int].version <= m.cells[m.comps[j].cell as int].version + 1,
        forall|k: int|
            0 <= k < m.runs.len() ==> m.runs[k] <= #[trigger] step_comp(m, j).runs[k] <= m.runs[k]
                + 1,
{
    let comp = m.comps[j];
    let input = m.cells[comp.src as int].value;
    let new = comp.d.result(input, comp.prev);
    if new == m.cells[comp.cell as int].value {
    } else {
        lemma_write_cell_facts(m, comp.cell as int, new);
    }
}

/// Re-running the computations from index `j` on keeps the scope well
/// formed, preserves every computation's wiring (which cell it writes,
/// which source it tracks), preserves every observer list, and leaves
/// untouched every cell that none of those computations writes.
pub proof fn lemma_run_comps_facts<T, D: Derivation<T>>(m: ScopeModel<T, D>, s: usize, j: int)
    requires
        m.wf(),
        0 <= j,
    ensures
        run_comps_from(m, s, j).wf(),
        run_comps_from(m, s, j).cells.len() == m.cells.len(),
        run_comps_from(m, s, j).comps.len() == m.comps.len(),
        run_comps_from(m, s, j).runs.len() == m.runs.len(),
        forall|jj: int|
            0 <= jj < m.comps.len() ==> (#[trigger] run_comps_from(m, s, j).comps[jj]).cell
                == m.comps[jj].cell,
        forall|jj: int|
            0 <= jj < m.comps.len() ==> (#[trigger] run_comps_from(m, s, j).comps[jj]).src
                == m.comps[jj].src,
        forall|c2: int|
            0 <= c2 < m.cells.len() ==> (#[trigger] run_comps_from(m, s, j).cells[c2]).obs
                == m.cells[c2].obs,
        forall|c2: int|
            0 <= c2 < m.cells.len() && (forall|jj: int|
                j <= jj < m.comps.len() ==> (#[trigger] m.comps[jj]).cell != c2)
                ==> #[trigger] run_comps_from(m, s, j).cells[c2] == m.cells[c2],
        forall|k: int|
            0 <= k < m.runs.len() ==> m.runs[k] <= #[trigger] run_comps_from(m, s, j).runs[k],
    decreases m.comps.len() - j,
{
    if j >= m.comps.len() {
    } else {
        let m1 = if m.comps[j].src == s {
            step_comp(m, j)
        } else {
            m
        };
        if m.comps[j].src == s {
            lemma_step_comp_facts(m, j);
        }
        lemma_run_comps_facts(m1, s, j + 1);
    }
}

/// Registering an observer keeps the scope well formed, subscribes the
/// observer to the cell, and changes nothing else.
pub proof fn lemma_register_facts<T, D>(m: ScopeModel<T, D>, c: int, o: usize)
    requires
        m.wf(),
        0 <= c < m.cells.len(),
        o < m.runs.len(),
    ensures
        register(m, c, o).wf(),
        register(m, c, o).cells.len() == m.cells.len(),
        register(m, c, o).comps == m.comps,
        register(m, c, o).runs == m.runs,
        register(m, c, o).cells[c].obs.contains(o),
        register(m, c, o).cells[c].value == m.cells[c].value,
        register(m, c, o).cells[c].version == m.cells[c].version,
        forall|c2: int|
            0 <= c2 < m.cells.len() && c2 != c ==> register(m, c, o).cells[c2] == m.cells[c2],
{
    if m.cells[c].obs.contains(o) {
    } else {
        let newobs = m.cells[c].obs.push(o);
        assert(newobs[newobs.len() - 1] == o);
        assert(newobs.contains(o));
        assert forall|i: int, i2: int| 0 <= i < i2 < newobs.len() implies newobs[i]
            != newobs[i2] by {
            if i2 == newobs.len() - 1 {
                assert(m.cells[c].obs[i] == newobs[i]);
                if newobs[i] == o {
                    assert(m.cells[c].obs.contains(o));
                }
            }
        }
    }
}

} // verus!
