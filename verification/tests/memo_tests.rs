//! Behavioural tests for the memo, driven through the public API only.

use reactive_memo::{create_memo, create_memo_snapshot, Derivation, Scope};

/// Derives twice the tracked source's value.
struct Doubler;

impl Derivation<u64> for Doubler {
    fn result(&self, input: u64, _prev: Option<u64>) -> u64 {
        input * 2
    }

    fn next_state(&self, _input: u64, _prev: Option<u64>) -> Doubler {
        Doubler
    }

    fn derive(&mut self, input: &u64, _prev: Option<u64>) -> u64 {
        *input * 2
    }
}

/// Returns the source's value on the first run, then repeats its own
/// previous output forever, whatever the source does.
struct Stable;

impl Derivation<u64> for Stable {
    fn result(&self, input: u64, prev: Option<u64>) -> u64 {
        match prev {
            Some(p) => p,
            None => input,
        }
    }

    fn next_state(&self, _input: u64, _prev: Option<u64>) -> Stable {
        Stable
    }

    fn derive(&mut self, input: &u64, prev: Option<u64>) -> u64 {
        match prev {
            Some(p) => p,
            None => *input,
        }
    }
}

/// Ignores the source and returns an internal counter, bumping it on every
/// invocation — a deliberately impure derivation.
struct Counter {
    n: u64,
}

impl Derivation<u64> for Counter {
    fn result(&self, _input: u64, _prev: Option<u64>) -> u64 {
        self.n
    }

    fn next_state(&self, _input: u64, _prev: Option<u64>) -> Counter {
        Counter { n: self.n.wrapping_add(1) }
    }

    fn derive(&mut self, _input: &u64, _prev: Option<u64>) -> u64 {
        let r = self.n;
        self.n = self.n.wrapping_add(1);
        r
    }
}

/// Negates the tracked source's value; exercises the i64 cell values.
struct Negate;

impl Derivation<i64> for Negate {
    fn result(&self, input: i64, _prev: Option<i64>) -> i64 {
        -input
    }

    fn next_state(&self, _input: i64, _prev: Option<i64>) -> Negate {
        Negate
    }

    fn derive(&mut self, input: &i64, _prev: Option<i64>) -> i64 {
        -*input
    }
}

#[test]
fn memo_is_readable_immediately() {
    let mut cx: Scope<u64, Doubler> = Scope::new();
    let s = cx.create_signal(3);
    let m = create_memo(&mut cx, s, Doubler);
    assert_eq!(m.get(&cx), 6);
    assert_eq!(m.write_count(&cx), 0);
}

#[test]
fn snapshot_memo_is_readable_immediately() {
    let mut cx: Scope<u64, Doubler> = Scope::new();
    let s = cx.create_signal(3);
    let m = create_memo_snapshot(&mut cx, s, Doubler);
    assert_eq!(m.get(&cx), 6);
    assert_eq!(m.write_count(&cx), 0);
}

#[test]
fn equal_values_cause_no_writes_and_no_notifications() {
    let mut cx: Scope<u64, Stable> = Scope::new();
    let s = cx.create_signal(10);
    let m = create_memo(&mut cx, s, Stable);
    let o = cx.create_observer();
    assert_eq!(m.with(&mut cx, o, |v: &u64| *v), 10);
    cx.update_signal(s, 11);
    cx.update_signal(s, 12);
    cx.update_signal(s, 13);
    assert_eq!(m.get(&cx), 10);
    assert_eq!(m.write_count(&cx), 0);
    assert_eq!(cx.observer_runs(o), 0);
}

#[test]
fn changed_value_propagates_and_notifies_once() {
    let mut cx: Scope<u64, Doubler> = Scope::new();
    let s = cx.create_signal(1);
    let m = create_memo(&mut cx, s, Doubler);
    let o = cx.create_observer();
    assert_eq!(m.with(&mut cx, o, |v: &u64| *v), 2);
    cx.update_signal(s, 2);
    assert_eq!(m.get(&cx), 4);
    assert_eq!(m.write_count(&cx), 1);
    assert_eq!(cx.observer_runs(o), 1);
}

#[test]
fn rewriting_the_source_with_an_equal_value_notifies_nobody() {
    let mut cx: Scope<u64, Doubler> = Scope::new();
    let s = cx.create_signal(1);
    let m = create_memo(&mut cx, s, Doubler);
    let o = cx.create_observer();
    m.with(&mut cx, o, |_v: &u64| ());
    cx.update_signal(s, 2);
    assert_eq!(cx.observer_runs(o), 1);
    // The source is written again, but the derived value does not change.
    cx.update_signal(s, 2);
    assert_eq!(m.get(&cx), 4);
    assert_eq!(m.write_count(&cx), 1);
    assert_eq!(cx.observer_runs(o), 1);
}

#[test]
fn snapshot_memo_never_changes() {
    let mut cx: Scope<u64, Counter> = Scope::new();
    let s = cx.create_signal(0);
    let m = create_memo_snapshot(&mut cx, s, Counter { n: 7 });
    let o = cx.create_observer();
    assert_eq!(m.with(&mut cx, o, |v: &u64| *v), 7);
    cx.update_signal(s, 1);
    cx.update_signal(s, 2);
    cx.update_signal(s, 3);
    assert_eq!(m.get(&cx), 7);
    assert_eq!(m.write_count(&cx), 0);
    assert_eq!(cx.observer_runs(o), 0);
}

#[test]
fn duplicated_handles_observe_the_same_cell() {
    let mut cx: Scope<u64, Doubler> = Scope::new();
    let s = cx.create_signal(1);
    let m = create_memo(&mut cx, s, Doubler);
    let m2 = m;
    cx.update_signal(s, 2);
    assert_eq!(m.get(&cx), 4);
    assert_eq!(m2.get(&cx), 4);
    assert_eq!(m, m2);
}

#[test]
fn registering_twice_still_notifies_once_per_change() {
    let mut cx: Scope<u64, Doubler> = Scope::new();
    let s = cx.create_signal(5);
    let m = create_memo(&mut cx, s, Doubler);
    let o = cx.create_observer();
    m.with(&mut cx, o, |_v: &u64| ());
    m.with(&mut cx, o, |_v: &u64| ());
    cx.update_signal(s, 6);
    assert_eq!(cx.observer_runs(o), 1);
}

#[test]
fn signal_observers_see_every_source_write() {
    let mut cx: Scope<u64, Stable> = Scope::new();
    let s = cx.create_signal(10);
    let m = create_memo(&mut cx, s, Stable);
    let o_memo = cx.create_observer();
    m.with(&mut cx, o_memo, |_v: &u64| ());
    cx.update_signal(s, 11);
    cx.update_signal(s, 11);
    // The memo suppressed both rounds; its observer never ran.
    assert_eq!(cx.observer_runs(o_memo), 0);
    assert_eq!(m.get(&cx), 10);
}

#[test]
fn i64_values_flow_through_a_memo() {
    let mut cx: Scope<i64, Negate> = Scope::new();
    let s = cx.create_signal(-4);
    let m = create_memo(&mut cx, s, Negate);
    assert_eq!(m.get(&cx), 4);
    cx.update_signal(s, 9);
    assert_eq!(m.get(&cx), -9);
    assert_eq!(m.write_count(&cx), 1);
}
