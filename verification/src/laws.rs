//! The memo's guarantees, stated and proved over the scope model.
//!
//! Each law quantifies over arbitrary scope states, values, and derivations;
//! the configuration hypotheses (a single computation tracking the updated
//! source, an observer subscribed to the memo's cell and not to the raw
//! source) describe exactly the wiring the law speaks about.

use crate::derivation::Derivation;
use crate::memo::Memo;
use crate::model::{
    create_memo_spec, create_snapshot_spec, lemma_register_facts, lemma_run_comps_facts,
    lemma_step_comp_facts, lemma_write_cell_facts, register, run_comps_from, step_comp,
    update_spec, write_cell, ScopeModel,
};
use vstd::prelude::*;

verus! {

/// Synchronous availability: immediately after construction, in either
/// execution mode, the memo's fresh cell holds the derivation's first
/// result, computed from the source's current value and no previous output —
/// so a read returns a value without error before any reactive turn runs.
pub proof fn lemma_synchronous_availability<T, D: Derivation<T>>(
    m: ScopeModel<T, D>,
    src: usize,
    d: D,
)
    requires
        src < m.cells.len(),
    ensures
        create_memo_spec(m, src, d).cells[m.cells.len() as int].value == d.result(
            m.cells[src as int].value,
            None,
        ),
        create_snapshot_spec(m, src, d).cells[m.cells.len() as int].value == d.result(
            m.cells[src as int].value,
            None,
        ),
{
}

/// Equality suppression: when the derivation's next result equals the value
/// the memo's cell already caches, an upstream update writes the source cell
/// but causes no write to the memo's cell — its cached value and write count
/// are untouched — and an observer of the memo that does not watch the raw
/// source receives no notification.
///
/// The remaining conclusions re-establish every hypothesis about the scope's
/// shape for the updated state, with the derivation advanced to its next
/// state and the new source value in place.  So for a derivation that keeps
/// returning a value equal to its previous output, the law applies to each
/// of any number of successive upstream changes in turn: the memo's cell
/// receives zero writes beyond its initial population.
pub proof fn lemma_equality_suppression<T, D: Derivation<T>>(
    m: ScopeModel<T, D>,
    s: usize,
    v: T,
    o: usize,
)
    requires
        m.wf(),
        s < m.cells.len(),
        m.is_source(s),
        m.comps.len() == 1,
        m.comps[0].src == s,
        m.comps[0].d.result(v, m.comps[0].prev) == m.cells[m.comps[0].cell as int].value,
        o < m.runs.len(),
        !m.cells[s as int].obs.contains(o),
    ensures
        update_spec(m, s, v).cells[m.comps[0].cell as int] == m.cells[m.comps[0].cell as int],
        update_spec(m, s, v).runs[o as int] == m.runs[o as int],
        update_spec(m, s, v).wf(),
        update_spec(m, s, v).is_source(s),
        update_spec(m, s, v).cells.len() == m.cells.len(),
        update_spec(m, s, v).runs.len() == m.runs.len(),
        update_spec(m, s, v).comps.len() == 1,
        update_spec(m, s, v).comps[0].cell == m.comps[0].cell,
        update_spec(m, s, v).comps[0].src == s,
        update_spec(m, s, v).comps[0].d == m.comps[0].d.next_state(v, m.comps[0].prev),
        update_spec(m, s, v).comps[0].prev == Some(m.cells[m.comps[0].cell as int].value),
        update_spec(m, s, v).cells[s as int].value == v,
        update_spec(m, s, v).cells[s as int].obs == m.cells[s as int].obs,
        o < update_spec(m, s, v).runs.len(),
{
    let cell = m.comps[0].cell as int;
    let m1 = write_cell(m, s as int, v);
    lemma_write_cell_facts(m, s as int, v);
    assert(cell != s as int);
    assert(m1.cells[cell] == m.cells[cell]);
    assert(m1.cells[s as int].value == v);
    let m2 = step_comp(m1, 0);
    lemma_step_comp_facts(m1, 0);
    assert(m2.cells == m1.cells);
    assert(m2.runs == m1.runs);
    assert(run_comps_from(m1, s, 0) == run_comps_from(m2, s, 1));
    assert(run_comps_from(m2, s, 1) == m2);
    assert(update_spec(m, s, v) == m2);
    assert forall|j: int| 0 <= j < m2.comps.len() implies (#[trigger] m2.comps[j]).cell != s by {
        assert(m.comps[j].cell != s);
    }
}

/// Change propagation: when the derivation's next result differs from the
/// cached value, an upstream update writes the memo's cell exactly once —
/// the cached value becomes that result and the write count grows by one —
/// and an observer of the memo that does not watch the raw source is re-run
/// exactly once.
///
/// The remaining conclusions re-establish every hypothesis about the scope's
/// shape for the updated state, so together with the equality-suppression
/// law the observer's run count over any sequence of upstream updates grows
/// by exactly one per actual change of the derived value, never once per
/// upstream write.
pub proof fn lemma_change_propagation<T, D: Derivation<T>>(
    m: ScopeModel<T, D>,
    s: usize,
    v: T,
    o: usize,
)
    requires
        m.wf(),
        s < m.cells.len(),
        m.is_source(s),
        m.comps.len() == 1,
        m.comps[0].src == s,
        m.comps[0].d.result(v, m.comps[0].prev) != m.cells[m.comps[0].cell as int].value,
        o < m.runs.len(),
        m.cells[m.comps[0].cell as int].obs.contains(o),
        !m.cells[s as int].obs.contains(o),
    ensures
        update_spec(m, s, v).cells[m.comps[0].cell as int].value == m.comps[0].d.result(
            v,
            m.comps[0].prev,
        ),
        update_spec(m, s, v).cells[m.comps[0].cell as int].version == m.cells[m.comps[0].cell as int].version
            + 1,
        update_spec(m, s, v).runs[o as int] == m.runs[o as int] + 1,
        update_spec(m, s, v).wf(),
        update_spec(m, s, v).is_source(s),
        update_spec(m, s, v).cells.len() == m.cells.len(),
        update_spec(m, s, v).runs.len() == m.runs.len(),
        update_spec(m, s, v).comps.len() == 1,
        update_spec(m, s, v).comps[0].cell == m.comps[0].cell,
        update_spec(m, s, v).comps[0].src == s,
        update_spec(m, s, v).comps[0].d == m.comps[0].d.next_state(v, m.comps[0].prev),
        update_spec(m, s, v).comps[0].prev == Some(m.comps[0].d.result(v, m.comps[0].prev)),
        update_spec(m, s, v).cells[s as int].value == v,
        update_spec(m, s, v).cells[s as int].obs == m.cells[s as int].obs,
        update_spec(m, s, v).cells[m.comps[0].cell as int].obs == m.cells[m.comps[0].cell as int].obs,
{
    let cell = m.comps[0].cell as int;
    let new = m.comps[0].d.result(v, m.comps[0].prev);
    let m1 = write_cell(m, s as int, v);
    lemma_write_cell_facts(m, s as int, v);
    assert(cell != s as int);
    assert(m1.cells[cell] == m.cells[cell]);
    assert(m1.cells[s as int].value == v);
    assert(m1.runs[o as int] == m.runs[o as int]);
    lemma_write_cell_facts(m1, cell, new);
    let m2 = step_comp(m1, 0);
    lemma_step_comp_facts(m1, 0);
    assert(m2.cells[cell].value == new);
    assert(m2.cells[cell].version == m.cells[cell].version + 1);
    assert(m2.runs[o as int] == m.runs[o as int] + 1);
    assert(run_comps_from(m1, s, 0) == run_comps_from(m2, s, 1));
    assert(run_comps_from(m2, s, 1) == m2);
    assert(update_spec(m, s, v) == m2);
    assert forall|j: int| 0 <= j < m2.comps.len() implies (#[trigger] m2.comps[j]).cell != s by {
        assert(m.comps[j].cell != s);
    }
}

/// Snapshot immutability: a cell that no computation writes — as the cell of
/// a snapshot-mode memo is, by construction — is left entirely untouched by
/// any update of any other source: same value, same write count, same
/// observers, however many updates fire.
pub proof fn lemma_snapshot_immutability<T, D: Derivation<T>>(
    m: ScopeModel<T, D>,
    s: usize,
    v: T,
    c: usize,
)
    requires
        m.wf(),
        s < m.cells.len(),
        c < m.cells.len(),
        m.is_source(c),
        c != s,
    ensures
        update_spec(m, s, v).cells[c as int] == m.cells[c as int],
{
    let m1 = write_cell(m, s as int, v);
    lemma_write_cell_facts(m, s as int, v);
    assert(m1.cells[c as int] == m.cells[c as int]);
    lemma_run_comps_facts(m1, s, 0);
    assert forall|jj: int| 0 <= jj < m1.comps.len() implies (#[trigger] m1.comps[jj]).cell != (
    c as int) by {
        assert(m.comps[jj].cell != c);
    }
}

/// Duplication semantics: a copy of a memo handle refers to the same
/// underlying cell, so in any scope state — in particular after any number
/// of upstream updates — both copies read the same cached value.
pub proof fn lemma_duplicate_handles_agree<T, D: Derivation<T>>(
    m: ScopeModel<T, D>,
    a: Memo,
    b: Memo,
)
    requires
        a == b,
    ensures
        m.cells[a.cell as int] == m.cells[b.cell as int],
{
}

/// Dependency registration via `with`: after an observer reads the memo
/// through `with` — and is thereby subscribed to the memo's cell — an
/// upstream update re-runs it exactly once if the derived value actually
/// changes, and does not re-run it at all if the newly derived value equals
/// the cached one.
pub proof fn lemma_with_dependency<T, D: Derivation<T>>(
    m: ScopeModel<T, D>,
    s: usize,
    v: T,
    o: usize,
)
    requires
        m.wf(),
        s < m.cells.len(),
        m.is_source(s),
        m.comps.len() == 1,
        m.comps[0].src == s,
        o < m.runs.len(),
        !m.cells[s as int].obs.contains(o),
    ensures
        m.comps[0].d.result(v, m.comps[0].prev) == m.cells[m.comps[0].cell as int].value
            ==> update_spec(register(m, m.comps[0].cell as int, o), s, v).runs[o as int]
            == m.runs[o as int],
        m.comps[0].d.result(v, m.comps[0].prev) != m.cells[m.comps[0].cell as int].value
            ==> update_spec(register(m, m.comps[0].cell as int, o), s, v).runs[o as int]
            == m.runs[o as int] + 1,
{
    let cell = m.comps[0].cell as int;
    assert(0 <= cell < m.cells.len());
    assert(s as int != cell);
    let m1 = register(m, cell, o);
    lemma_register_facts(m, cell, o);
    assert(m1.comps == m.comps);
    assert(m1.is_source(s));
    assert(m1.cells[s as int] == m.cells[s as int]);
    assert(m1.cells[cell].value == m.cells[cell].value);
    if m.comps[0].d.result(v, m.comps[0].prev) == m.cells[cell].value {
        lemma_equality_suppression(m1, s, v, o);
    } else {
        lemma_change_propagation(m1, s, v, o);
    }
}

} // verus!
