//! The memo: a cached, equality-suppressing derived value.
//!
//! A memo composes one equality-checked cell and one derived computation.
//! Construction runs the derivation once, synchronously, so the cell is
//! populated before any caller can observe it; afterwards the computation
//! re-runs whenever the tracked source is updated, and writes the cell (and
//! so notifies the cell's observers) only when the newly derived value
//! differs from the cached one.
//!
//! Two constructors cover the two execution modes.  [`create_memo`] is the
//! interactive mode: the cell stays wired to its computation and tracks the
//! source.  [`create_memo_snapshot`] is the one-shot snapshot mode: the
//! derivation runs once and the cell is never wired to any computation, so
//! no re-computation path exists.  Both expose identical read behaviour.

use crate::derivation::Derivation;
use crate::model::{create_memo_spec, create_snapshot_spec, register, ScopeModel};
use crate::scope::{CellState, CompState, Observer, Scope, Signal};
use crate::value::CellValue;
use vstd::prelude::*;

verus! {

/// A read handle to a memo's cell.  The handle is lightweight and copyable:
/// a copy duplicates the handle, never the cell, so all copies observe the
/// same derived value and the same recomputation.
#[derive(Clone, Copy, PartialEq, Eq, Structural, Debug)]
pub struct Memo {
    pub cell: usize,
}

/// Creates a memo in interactive mode: a fresh cell, kept up to date by a
/// computation that tracks `src` and suppresses writes of equal values.
/// The derivation runs once during construction, with no previous output,
/// so the returned memo is readable immediately.
pub fn create_memo<T: CellValue, D: Derivation<T>>(cx: &mut Scope<T, D>, src: Signal, d: D) -> (m:
    Memo)
    requires
        old(cx)@.wf(),
        src.id < old(cx)@.cells.len(),
        old(cx)@.is_source(src.id),
    ensures
        m.cell == old(cx)@.cells.len(),
        final(cx)@ == create_memo_spec(old(cx)@, src.id, d),
        final(cx)@.wf(),
        final(cx)@.cells[m.cell as int].value == d.result(
            old(cx)@.cells[src.id as int].value,
            None,
        ),
        final(cx)@.cells[m.cell as int].version == 0,
        !final(cx)@.is_source(m.cell),
{
    let ghost pre = cx@;
    let mut dd = d;
    let input = cx.cells[src.id].value.dup();
    let first = dd.derive(&input, None);
    let cell = cx.cells.len();
    let prev = Some(first.dup());
    cx.cells.push(CellState { value: first, version: 0, obs: Vec::new() });
    cx.comps.push(CompState { d: dd, prev, cell, src: src.id });
    proof {
        let post = create_memo_spec(pre, src.id, d);
        assert(cx@.cells =~= post.cells);
        assert(cx@.comps =~= post.comps);
        assert(cx@.runs =~= post.runs);
        assert(cx@ =~~= post);
        assert(pre.cells.len() == cell as int);
        lemma_create_memo_wf(pre, src.id, d);
        assert(post.comps[post.comps.len() - 1].cell == cell);
    }
    Memo { cell }
}

/// Creates a memo in snapshot mode: the derivation runs once, synchronously,
/// reading the source's current value, and the result goes into a cell that
/// is never wired to any computation — no subscription, no re-computation
/// path.  Read behaviour is identical to the interactive mode.
pub fn create_memo_snapshot<T: CellValue, D: Derivation<T>>(
    cx: &mut Scope<T, D>,
    src: Signal,
    d: D,
) -> (m: Memo)
    requires
        old(cx)@.wf(),
        src.id < old(cx)@.cells.len(),
    ensures
        m.cell == old(cx)@.cells.len(),
        final(cx)@ == create_snapshot_spec(old(cx)@, src.id, d),
        final(cx)@.wf(),
        final(cx)@.cells[m.cell as int].value == d.result(
            old(cx)@.cells[src.id as int].value,
            None,
        ),
        final(cx)@.cells[m.cell as int].version == 0,
        final(cx)@.is_source(m.cell),
{
    let ghost pre = cx@;
    let mut dd = d;
    let input = cx.cells[src.id].value.dup();
    let first = dd.derive(&input, None);
    let cell = cx.cells.len();
    cx.cells.push(CellState { value: first, version: 0, obs: Vec::new() });
    proof {
        let post = create_snapshot_spec(pre, src.id, d);
        assert(cx@.cells =~= post.cells);
        assert(cx@.comps =~= post.comps);
        assert(cx@.runs =~= post.runs);
        assert(cx@ =~~= post);
        assert(pre.cells.len() == cell as int);
        lemma_create_snapshot_wf(pre, src.id, d);
    }
    Memo { cell }
}

proof fn lemma_create_memo_wf<T, D: Derivation<T>>(m: ScopeModel<T, D>, src: usize, d: D)
    requires
        m.wf(),
        m.cells.len() <= usize::MAX,
        src < m.cells.len(),
        m.is_source(src),
    ensures
        create_memo_spec(m, src, d).wf(),
        !create_memo_spec(m, src, d).is_source((m.cells.len() as usize)),
{
    let post = create_memo_spec(m, src, d);
    let nc = m.comps.len() as int;
    assert(post.comps[nc].cell == m.cells.len() as usize);
    assert forall|j: int, k: int|
        0 <= j < post.comps.len() && 0 <= k < post.comps.len() && j != k implies (
    #[trigger] post.comps[j]).cell != (#[trigger] post.comps[k]).cell by {
        if j < nc && k < nc {
            assert(post.comps[j] == m.comps[j]);
            assert(post.comps[k] == m.comps[k]);
        } else if j == nc {
            assert(m.comps[k].cell < m.cells.len());
        } else {
            assert(m.comps[j].cell < m.cells.len());
        }
    }
    assert forall|j: int, k: int|
        0 <= j < post.comps.len() && 0 <= k < post.comps.len() implies (
    #[trigger] post.comps[j]).src != (#[trigger] post.comps[k]).cell by {
        if j < nc && k < nc {
            assert(post.comps[j] == m.comps[j]);
            assert(post.comps[k] == m.comps[k]);
        } else if j == nc && k == nc {
            assert(post.comps[j].src == src);
            assert(src < m.cells.len());
        } else if j == nc {
            assert(post.comps[k] == m.comps[k]);
            assert(m.is_source(src));
        } else {
            assert(post.comps[j] == m.comps[j]);
            assert(m.comps[j].src < m.cells.len());
        }
    }
    assert(post.comps[nc].cell == m.cells.len() as usize);
}

proof fn lemma_create_snapshot_wf<T, D: Derivation<T>>(m: ScopeModel<T, D>, src: usize, d: D)
    requires
        m.wf(),
        m.cells.len() <= usize::MAX,
        src < m.cells.len(),
    ensures
        create_snapshot_spec(m, src, d).wf(),
        create_snapshot_spec(m, src, d).is_source((m.cells.len() as usize)),
{
    let post = create_snapshot_spec(m, src, d);
    assert forall|j: int| 0 <= j < post.comps.len() implies (#[trigger] post.comps[j]).cell != (
    m.cells.len() as usize) by {
        assert(m.comps[j].cell < m.cells.len());
    }
}

impl Memo {
    /// Returns a duplicate of the current cached value.  The value is always
    /// present: construction populated the cell synchronously.
    pub fn get<T: CellValue, D: Derivation<T>>(&self, cx: &Scope<T, D>) -> (r: T)
        requires
            self.cell < cx@.cells.len(),
        ensures
            r == cx@.cells[self.cell as int].value,
    {
        cx.cells[self.cell].value.dup()
    }

    /// Applies `f` to a borrowed reference to the cached value, without
    /// duplicating it, and registers `under` — the reactive computation on
    /// whose behalf the read happens — as a dependent of the memo's cell, so
    /// that it is re-run whenever the memo's value actually changes.
    pub fn with<T: CellValue, D: Derivation<T>, U, F: Fn(&T) -> U>(
        &self,
        cx: &mut Scope<T, D>,
        under: Observer,
        f: F,
    ) -> (r: U)
        requires
            old(cx)@.wf(),
            self.cell < old(cx)@.cells.len(),
            under.id < old(cx)@.runs.len(),
            call_requires(f, (&old(cx)@.cells[self.cell as int].value,)),
        ensures
            final(cx)@ == register(old(cx)@, self.cell as int, under.id),
            final(cx)@.wf(),
            final(cx)@.cells[self.cell as int].obs.contains(under.id),
            call_ensures(f, (&old(cx)@.cells[self.cell as int].value,), r),
    {
        let ghost pre = cx@;
        let r = f(&cx.cells[self.cell].value);
        let already = crate::scope::contains_id(&cx.cells[self.cell].obs, under.id);
        if !already {
            let cell = &mut cx.cells[self.cell];
            cell.obs.push(under.id);
        }
        proof {
            assert(cx@.cells =~= register(pre, self.cell as int, under.id).cells);
            assert(cx@ =~~= register(pre, self.cell as int, under.id));
            crate::model::lemma_register_facts(pre, self.cell as int, under.id);
        }
        r
    }

    /// How many times the memo's cell has been written after its initial
    /// population — that is, how many change notifications its observers
    /// have received.
    pub fn write_count<T: CellValue, D: Derivation<T>>(&self, cx: &Scope<T, D>) -> (r: u64)
        requires
            self.cell < cx@.cells.len(),
        ensures
            r == cx@.cells[self.cell as int].version,
    {
        cx.cells[self.cell].version
    }
}

} // verus!
