//! The reactive scope: owner of cells, computations, and observers.
//!
//! A scope is the lifetime context under which signals, memos, and their
//! observers are created and torn down together.  It owns an arena of
//! equality-checked cells, the derived computations that keep memo cells up
//! to date, and run counts for the observers that stand for downstream
//! reactive work.  Handles (`Signal`, `Observer`, and `crate::memo::Memo`)
//! are lightweight copyable indices into that arena, so duplicating a handle
//! duplicates the handle and never the underlying cell.
//!
//! Updating a signal synchronously re-runs, in order, every computation that
//! tracks it; a computation writes its cell (notifying the cell's observers)
//! only when the newly derived value differs from the cached one.
//!
//! The state fields are public so that contracts can speak of them through
//! the scope's model view; every operation requires and preserves the
//! model's well-formedness, which a caller who mutates the fields directly
//! is on their own to re-establish.

use crate::derivation::Derivation;
use crate::model::{
    bumped, lemma_step_comp_facts, lemma_write_cell_facts, run_comps_from, step_comp, update_spec,
    write_cell, CellModel, CompModel, ScopeModel,
};
use crate::value::{dup_opt, CellValue};
use vstd::prelude::*;

verus! {

/// A handle to a mutable source cell.
#[derive(Clone, Copy, PartialEq, Eq, Structural, Debug)]
pub struct Signal {
    pub id: usize,
}

/// A handle to a run-counting observer: a stand-in for a downstream reactive
/// computation, re-run (counted) whenever a cell it subscribed to is written.
#[derive(Clone, Copy, PartialEq, Eq, Structural, Debug)]
pub struct Observer {
    pub id: usize,
}

/// One equality-checked cell.
pub struct CellState<T> {
    pub value: T,
    pub version: u64,
    pub obs: Vec<usize>,
}

/// One derived computation.
pub struct CompState<T, D> {
    pub d: D,
    pub prev: Option<T>,
    pub cell: usize,
    pub src: usize,
}

/// A reactive scope over values of type `T`, whose memos are driven by
/// derivations of type `D`.
pub struct Scope<T, D> {
    pub cells: Vec<CellState<T>>,
    pub comps: Vec<CompState<T, D>>,
    pub runs: Vec<u64>,
}

impl<T> View for CellState<T> {
    type V = CellModel<T>;

    open spec fn view(&self) -> CellModel<T> {
        CellModel { value: self.value, version: self.version as nat, obs: self.obs@ }
    }
}

impl<T, D> View for CompState<T, D> {
    type V = CompModel<T, D>;

    open spec fn view(&self) -> CompModel<T, D> {
        CompModel { d: self.d, prev: self.prev, cell: self.cell, src: self.src }
    }
}

impl<T, D> View for Scope<T, D> {
    type V = ScopeModel<T, D>;

    open spec fn view(&self) -> ScopeModel<T, D> {
        ScopeModel {
            cells: self.cells@.map_values(|c: CellState<T>| c@),
            comps: self.comps@.map_values(|c: CompState<T, D>| c@),
            runs: self.runs@.map_values(|r: u64| r as nat),
        }
    }
}

/// Run counts after the first `i` observers on the list have been notified.
pub(crate) open spec fn bumped_prefix(runs: Seq<nat>, obs: Seq<usize>, i: int) -> Seq<nat> {
    Seq::new(
        runs.len(),
        |k: int| if obs.take(i).contains(k as usize) {
            runs[k] + 1
        } else {
            runs[k]
        },
    )
}

/// Decides membership of an id in a handle list.
pub(crate) fn contains_id(v: &Vec<usize>, x: usize) -> (r: bool)
    ensures
        r == v@.contains(x),
{
    let mut i: usize = 0;
    while i < v.len()
        invariant
            i <= v@.len(),
            forall|k: int| 0 <= k < i ==> v@[k] != x,
        decreases v@.len() - i,
    {
        if v[i] == x {
            assert(v@.contains(x));
            return true;
        }
        i += 1;
    }
    false
}

impl<T: CellValue, D: Derivation<T>> Scope<T, D> {
    /// Creates an empty scope.
    pub fn new() -> (s: Scope<T, D>)
        ensures
            s@.cells.len() == 0,
            s@.comps.len() == 0,
            s@.runs.len() == 0,
            s@.wf(),
    {
        Scope { cells: Vec::new(), comps: Vec::new(), runs: Vec::new() }
    }

    /// Creates a mutable source cell holding `v`.
    pub fn create_signal(&mut self, v: T) -> (s: Signal)
        requires
            old(self)@.wf(),
        ensures
            s.id == old(self)@.cells.len(),
            final(self)@.cells == old(self)@.cells.push(
                CellModel { value: v, version: 0, obs: Seq::empty() },
            ),
            final(self)@.comps == old(self)@.comps,
            final(self)@.runs == old(self)@.runs,
            final(self)@.wf(),
            final(self)@.is_source(s.id),
    {
        let ghost pre = self@;
        let id = self.cells.len();
        self.cells.push(CellState { value: v, version: 0, obs: Vec::new() });
        proof {
            assert(self@.cells =~= pre.cells.push(
                CellModel { value: v, version: 0, obs: Seq::empty() },
            ));
            assert(self@.comps =~= pre.comps);
            assert(self@.runs =~= pre.runs);
        }
        Signal { id }
    }

    /// Creates an observer with a run count of zero.
    pub fn create_observer(&mut self) -> (o: Observer)
        requires
            old(self)@.wf(),
        ensures
            o.id == old(self)@.runs.len(),
            final(self)@.cells == old(self)@.cells,
            final(self)@.comps == old(self)@.comps,
            final(self)@.runs == old(self)@.runs.push(0),
            final(self)@.wf(),
    {
        let ghost pre = self@;
        let id = self.runs.len();
        self.runs.push(0);
        proof {
            assert(self@.cells =~= pre.cells);
            assert(self@.comps =~= pre.comps);
            assert(self@.runs =~= pre.runs.push(0));
        }
        Observer { id }
    }

    /// Reads an observer's run count: how many times the reactive work it
    /// stands for has been re-run by a notification.
    pub fn observer_runs(&self, o: Observer) -> (r: u64)
        requires
            o.id < self@.runs.len(),
        ensures
            r == self@.runs[o.id as int],
    {
        self.runs[o.id]
    }

    /// Writes cell `c` through the cell's normal write path: replaces the
    /// value, counts the write, and notifies every observer of the cell.
    pub(crate) fn write_cell_at(&mut self, c: usize, v: T)
        requires
            old(self)@.wf(),
            c < old(self)@.cells.len(),
            old(self)@.cells[c as int].version + 1 <= u64::MAX,
            forall|k: int|
                0 <= k < old(self)@.runs.len() ==> (#[trigger] old(self)@.runs[k]) + 1
                    <= u64::MAX,
        ensures
            final(self)@ == write_cell(old(self)@, c as int, v),
    {
        let ghost pre = self@;
        let ghost obs = pre.cells[c as int].obs;
        let cell = &mut self.cells[c];
        cell.value = v;
        cell.version = cell.version + 1;
        proof {
            assert(self@.cells =~= write_cell(pre, c as int, v).cells);
            assert(self@.comps =~= pre.comps);
            assert(self@.runs =~= bumped_prefix(pre.runs, obs, 0));
        }
        let n = self.cells[c].obs.len();
        let rl = self.runs.len();
        let mut i: usize = 0;
        while i < n
            invariant
                i <= n,
                pre.wf(),
                c < pre.cells.len(),
                n == obs.len(),
                pre.runs.len() == rl,
                forall|k: int| 0 <= k < pre.runs.len() ==> (#[trigger] pre.runs[k]) + 1
                    <= u64::MAX,
                self@.cells == write_cell(pre, c as int, v).cells,
                self@.comps == pre.comps,
                obs == pre.cells[c as int].obs,
                self@.cells[c as int].obs == obs,
                self@.runs == bumped_prefix(pre.runs, obs, i as int),
                self@.runs.len() == pre.runs.len(),
            decreases n - i,
        {
            let ghost runs0 = self@.runs;
            proof {
                assert(self@.cells.len() == pre.cells.len());
                assert(self.cells@.len() == self@.cells.len());
                assert(self.cells@[c as int]@ == self@.cells[c as int]);
                assert(self.cells@[c as int].obs@ == obs);
            }
            let o = self.cells[c].obs[i];
            proof {
                assert(obs[i as int] == o);
                assert(o < pre.runs.len());
                assert forall|idx: int| 0 <= idx < i implies obs.take(i as int)[idx] != o by {
                    assert(obs.take(i as int)[idx] == obs[idx]);
                }
                assert(!obs.take(i as int).contains(o));
                assert(runs0[o as int] == pre.runs[o as int]);
            }
            let r = &mut self.runs[o];
            *r = *r + 1;
            i += 1;
            proof {
                assert(obs.take(i as int) =~= obs.take(i - 1).push(o));
                assert(self.runs@.len() == pre.runs.len());
                assert(self@.runs.len() == pre.runs.len());
                assert forall|k: int| 0 <= k < pre.runs.len() implies self@.runs[k]
                    == bumped_prefix(pre.runs, obs, i as int)[k] by {
                    assert(self@.runs[k] == self.runs@[k] as nat);
                    assert(bumped_prefix(pre.runs, obs, i as int)[k] == (if obs.take(
                        i as int,
                    ).contains(k as usize) {
                        pre.runs[k] + 1
                    } else {
                        pre.runs[k]
                    }));
                    assert(k <= usize::MAX);
                    if k == o as int {
                        assert(obs.take(i as int)[i - 1] == o);
                        assert(obs.take(i as int).contains(o));
                        assert(self@.runs[k] == pre.runs[k] + 1);
                    } else {
                        assert(k as usize != o);
                        assert(self@.runs[k] == runs0[k]);
                        assert(runs0[k] == (if obs.take(i - 1).contains(k as usize) {
                            pre.runs[k] + 1
                        } else {
                            pre.runs[k]
                        }));
                        if obs.take(i - 1).contains(k as usize) {
                            let idx = choose|idx: int|
                                0 <= idx < obs.take(i - 1).len() && #[trigger] obs.take(
                                    i - 1,
                                )[idx] == k as usize;
                            assert(obs.take(i as int)[idx] == k as usize);
                            assert(obs.take(i as int).contains(k as usize));
                        }
                        if obs.take(i as int).contains(k as usize) {
                            let idx = choose|idx: int|
                                0 <= idx < obs.take(i as int).len() && #[trigger] obs.take(
                                    i as int,
                                )[idx] == k as usize;
                            assert(idx < i - 1 || idx == i - 1);
                            if idx < i - 1 {
                                assert(obs.take(i - 1)[idx] == k as usize);
                                assert(obs.take(i - 1).contains(k as usize));
                            } else {
                                assert(obs.take(i as int)[idx] == o);
                                assert(false);
                            }
                        }
                    }
                }
                assert(self@.runs =~= bumped_prefix(pre.runs, obs, i as int));
            }
        }
        proof {
            assert(obs.take(n as int) =~= obs);
            assert forall|k: int| 0 <= k < pre.runs.len() implies self@.runs[k] == bumped(
                pre.runs,
                obs,
            )[k] by {
                assert(obs.take(n as int) == obs);
            }
            assert(self@.runs =~= bumped(pre.runs, obs));
            assert(self@ =~~= write_cell(pre, c as int, v));
        }
    }

    /// Runs computation `j` once: derives a new value from the tracked
    /// source and the previous output, writes the computation's cell only if
    /// the value actually changed, and feeds the new value back as the next
    /// previous output.
    pub(crate) fn step_comp_at(&mut self, j: usize)
        requires
            old(self)@.wf(),
            j < old(self)@.comps.len(),
            old(self)@.cells[old(self)@.comps[j as int].cell as int].version + 1 <= u64::MAX,
            forall|k: int|
                0 <= k < old(self)@.runs.len() ==> (#[trigger] old(self)@.runs[k]) + 1
                    <= u64::MAX,
        ensures
            final(self)@ == step_comp(old(self)@, j as int),
    {
        let ghost pre = self@;
        let src = self.comps[j].src;
        let cell_id = self.comps[j].cell;
        let input = self.cells[src].value.dup();
        let prev = dup_opt(&self.comps[j].prev);
        let comp = &mut self.comps[j];
        let new = comp.d.derive(&input, prev);
        comp.prev = Some(new.dup());
        let ghost mid = self@;
        proof {
            assert(mid.cells =~= pre.cells);
            assert(mid.runs =~= pre.runs);
            assert(mid.comps =~= pre.comps.update(
                j as int,
                CompModel {
                    d: pre.comps[j as int].d.next_state(
                        pre.cells[pre.comps[j as int].src as int].value,
                        pre.comps[j as int].prev,
                    ),
                    prev: Some(
                        pre.comps[j as int].d.result(
                            pre.cells[pre.comps[j as int].src as int].value,
                            pre.comps[j as int].prev,
                        ),
                    ),
                    cell: pre.comps[j as int].cell,
                    src: pre.comps[j as int].src,
                },
            ));
            assert(mid.wf());
        }
        let changed = !new.eq_val(&self.cells[cell_id].value);
        if changed {
            self.write_cell_at(cell_id, new);
            proof {
                assert(self@ =~~= step_comp(pre, j as int));
            }
        } else {
            proof {
                assert(self@ =~~= step_comp(pre, j as int));
            }
        }
    }

    /// Writes value `v` into source `s` and synchronously re-runs, in order,
    /// every computation that tracks `s`.  The source's own observers are
    /// notified by the write; each re-run computation notifies its cell's
    /// observers only if its derived value actually changed.
    ///
    /// The counters must have room for one more notification round: a write
    /// count or run count cannot grow past `u64::MAX`.
    pub fn update_signal(&mut self, s: Signal, v: T)
        requires
            old(self)@.wf(),
            s.id < old(self)@.cells.len(),
            old(self)@.is_source(s.id),
            old(self)@.has_counter_room(),
        ensures
            final(self)@ == update_spec(old(self)@, s.id, v),
            final(self)@.wf(),
    {
        let ghost pre = self@;
        proof {
            lemma_write_cell_facts(pre, s.id as int, v);
        }
        self.write_cell_at(s.id, v);
        let ghost m0 = self@;
        let n = self.comps.len();
        let mut j: usize = 0;
        while j < n
            invariant
                j <= n,
                n == self@.comps.len(),
                n == m0.comps.len(),
                m0.wf(),
                self@.wf(),
                self@.cells.len() == m0.cells.len(),
                self@.runs.len() == m0.runs.len(),
                run_comps_from(self@, s.id, j as int) == update_spec(pre, s.id, v),
                forall|jj: int|
                    0 <= jj < n ==> (#[trigger] self@.comps[jj]).cell == m0.comps[jj].cell,
                forall|jj: int|
                    j <= jj < n ==> self@.cells[(#[trigger] m0.comps[jj]).cell as int].version
                        == m0.cells[m0.comps[jj].cell as int].version,
                forall|jj: int|
                    0 <= jj < n ==> (#[trigger] m0.comps[jj]).cell < m0.cells.len(),
                forall|jj: int|
                    0 <= jj < n ==> m0.cells[(#[trigger] m0.comps[jj]).cell as int].version + 1
                        <= u64::MAX,
                forall|k: int|
                    0 <= k < self@.runs.len() ==> (#[trigger] self@.runs[k]) + (n - j)
                        <= u64::MAX,
            decreases n - j,
        {
            let ghost cur0 = self@;
            let src_j = self.comps[j].src;
            if src_j == s.id {
                proof {
                    assert(cur0.cells[cur0.comps[j as int].cell as int].version == m0.cells[m0.comps[j as int].cell as int].version);
                    assert forall|k: int| 0 <= k < cur0.runs.len() implies (
                    #[trigger] cur0.runs[k]) + 1 <= u64::MAX by {
                        assert(cur0.runs[k] + (n - j) <= u64::MAX);
                    }
                }
                self.step_comp_at(j);
                proof {
                    lemma_step_comp_facts(cur0, j as int);
                }
            }
            j += 1;
        }
        proof {
            assert(run_comps_from(self@, s.id, n as int) == self@);
        }
    }
}

} // verus!
