use memutils::closures::{Closure, MutClosure, OnceClosure};
use memutils::errors::CapacityError;
use memutils::nulls::{Null, Undefined};
use memutils::systems::{System, Systems};
use std::sync::atomic::{AtomicUsize, Ordering};
use std::sync::Arc;

#[test]
fn capacity_error_hands_the_element_back() {
    let e = CapacityError::new(5);
    assert_eq!(e.element(), 5);
    let f = CapacityError::new("text");
    assert_eq!(f.simplify(), CapacityError::new(()));
    assert_eq!(f.message(), "insufficient capacity");
}

#[test]
fn markers() {
    assert_eq!(Null::new(), Null);
    assert_eq!(Undefined, Undefined);
}

#[test]
fn closure_runs_once() {
    let count = Arc::new(AtomicUsize::new(0));
    let inner = count.clone();
    Closure::call(move || {
        inner.fetch_add(1, Ordering::SeqCst);
    });
    assert_eq!(count.load(Ordering::SeqCst), 1);
}

struct Counter {
    label: String,
    runs: u32,
    cleaned: bool,
}

impl System for Counter {
    fn name(&self) -> String {
        self.label.clone()
    }

    fn run(&mut self) {
        self.runs += 1;
    }

    fn init(&mut self) {
        self.runs = 0;
    }

    fn clean(&mut self) {
        self.cleaned = true;
    }
}

fn counter(label: &str) -> Counter {
    Counter { label: label.to_string(), runs: 0, cleaned: false }
}

#[test]
fn systems_run_and_clean_every_system() {
    let mut systems = Systems::new();
    systems.add(counter("a"));
    systems.add(counter("b"));
    systems.run();
    systems.run();
    assert_eq!(systems.systems[0].runs, 2);
    assert_eq!(systems.systems[1].runs, 2);
    assert!(!systems.systems[0].cleaned);
    systems.clean();
    assert!(systems.systems[0].cleaned);
    assert!(systems.systems[1].cleaned);
    assert_eq!(systems.systems.len(), 2);
}

#[test]
fn systems_get_finds_the_first_by_name() {
    let mut systems = Systems::new();
    systems.add(counter("a"));
    let mut second = counter("b");
    second.runs = 7;
    systems.add(second);
    let mut third = counter("b");
    third.runs = 9;
    systems.add(third);
    match systems.get("b".to_string()) {
        Ok(found) => assert_eq!(found.runs, 7),
        Err(_) => panic!("a system that was added was not found"),
    }
    match systems.get("c".to_string()) {
        Ok(_) => panic!("a system that was never added was found"),
        Err(all) => assert_eq!(all.len(), 3),
    }
}

#[test]
fn closure_traits_run_the_closure() {
    let count = Arc::new(AtomicUsize::new(0));
    let first = count.clone();
    <Closure as OnceClosure>::call(move || {
        first.fetch_add(1, Ordering::SeqCst);
    });
    let second = count.clone();
    let mut seen = 0;
    <Closure as MutClosure>::call(move || {
        seen += 1;
        second.fetch_add(seen, Ordering::SeqCst);
    });
    assert_eq!(count.load(Ordering::SeqCst), 2);
}
