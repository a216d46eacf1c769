use heap_trace::{
    all_trace, filtered_trace, print_all_trace, print_filtered_trace, signature_key, trace,
    AggregationTable, HeapLayout, LiveRegistry, MyAlloc, Status, SENTINEL,
};
use std::cell::RefCell;

const SITE_A: &str = "/src/mace/src/a.rs:10\n";
const SITE_B: &str = "/src/mace/src/b.rs:20\n";
const SITE_C: &str = "/src/mace/src/c.rs:30\n";

fn status(nr_alloc: usize, alloc_size: usize, nr_free: usize, free_size: usize) -> Status {
    Status { nr_alloc, alloc_size, nr_free, free_size }
}

#[test]
fn trace_counts_allocations_and_frees_per_site() {
    let mut table = AggregationTable::new();
    for size in [10usize, 20, 30] {
        assert_eq!(trace(&mut table, SITE_A.to_string(), size, true), Some(SITE_A.to_string()));
    }
    trace(&mut table, SITE_A.to_string(), 5, false);
    trace(&mut table, SITE_B.to_string(), 7, false);
    assert_eq!(table.len(), 2);
    assert_eq!(table.get(&SITE_A.to_string()), Some(status(3, 60, 1, 5)));
    assert_eq!(table.get(&SITE_B.to_string()), Some(status(0, 0, 1, 7)));
    assert_eq!(table.get(&SITE_C.to_string()), None);
}

#[test]
fn trace_ignores_empty_signature() {
    let mut table = AggregationTable::new();
    assert_eq!(trace(&mut table, String::new(), 64, true), None);
    assert_eq!(table.len(), 0);
}

#[test]
fn counters_hold_at_maximum() {
    let mut table = AggregationTable::new();
    trace(&mut table, SITE_A.to_string(), usize::MAX - 1, true);
    trace(&mut table, SITE_A.to_string(), 5, true);
    assert_eq!(table.get(&SITE_A.to_string()), Some(status(2, usize::MAX, 0, 0)));
    let s = status(usize::MAX, 0, 0, 0).bump(1, true);
    assert_eq!(s, status(usize::MAX, 1, 0, 0));
}

#[test]
fn table_keeps_first_seen_order() {
    let mut table = AggregationTable::new();
    trace(&mut table, SITE_B.to_string(), 1, true);
    trace(&mut table, SITE_A.to_string(), 2, false);
    trace(&mut table, SITE_B.to_string(), 3, true);
    let rows = all_trace(&table);
    assert_eq!(
        rows,
        vec![(SITE_B.to_string(), status(2, 4, 0, 0)), (SITE_A.to_string(), status(0, 0, 1, 2))]
    );
    let (sig, st) = table.entry(1);
    assert_eq!(sig, SITE_A);
    assert_eq!(st, status(0, 0, 1, 2));
}

#[test]
fn allocation_count_equals_number_of_calls() {
    let mut table = AggregationTable::new();
    let sites = [SITE_A, SITE_B, SITE_A, SITE_C, SITE_A, SITE_B];
    for (i, s) in sites.iter().enumerate() {
        trace(&mut table, s.to_string(), i + 1, true);
    }
    assert_eq!(table.get(&SITE_A.to_string()), Some(status(3, 1 + 3 + 5, 0, 0)));
    assert_eq!(table.get(&SITE_B.to_string()), Some(status(2, 2 + 6, 0, 0)));
    assert_eq!(table.get(&SITE_C.to_string()), Some(status(1, 4, 0, 0)));
}

#[test]
fn signature_key_depends_on_signature() {
    let a = signature_key(&SITE_A.to_string());
    assert_eq!(a, signature_key(&SITE_A.to_string()));
    assert_ne!(a, signature_key(&SITE_B.to_string()));
}

#[test]
fn signature_key_is_never_sentinel() {
    for s in [SITE_A, SITE_B, SITE_C, "x", "/src/mace/src/lib.rs:1\n"] {
        assert_ne!(signature_key(&s.to_string()), SENTINEL);
    }
}

#[test]
fn register_and_release() {
    let mut reg = LiveRegistry::new();
    let k = reg.register(SITE_A.to_string());
    assert_ne!(k, SENTINEL);
    assert_eq!(k, signature_key(&SITE_A.to_string()));
    assert!(reg.contains_key(k));
    assert!(reg.is_live(&SITE_A.to_string()));
    assert!(!reg.is_live(&SITE_B.to_string()));
    reg.release(k);
    assert!(!reg.contains_key(k));
    assert_eq!(reg.len(), 0);
    reg.release(k);
    assert_eq!(reg.len(), 0);
}

#[test]
fn empty_signature_registers_nothing() {
    let mut reg = LiveRegistry::new();
    assert_eq!(reg.register(String::new()), SENTINEL);
    assert_eq!(reg.len(), 0);
    reg.release(SENTINEL);
    assert_eq!(reg.len(), 0);
}

#[test]
fn alloc_then_free_at_another_site() {
    let mut table = AggregationTable::new();
    let mut reg = LiveRegistry::new();
    let sig = trace(&mut table, SITE_A.to_string(), 100, true);
    let header = reg.register(sig.unwrap());
    assert_ne!(header, SENTINEL);
    trace(&mut table, SITE_B.to_string(), 100, false);
    assert!(MyAlloc::release_needed(header, false));
    reg.release(header);
    assert_eq!(table.len(), 2);
    assert_eq!(table.get(&SITE_A.to_string()), Some(status(1, 100, 0, 0)));
    assert_eq!(table.get(&SITE_B.to_string()), Some(status(0, 0, 1, 100)));
    assert!(!reg.contains_key(header));
}

#[test]
fn allocation_after_stop_is_not_traced() {
    let layout = HeapLayout { size: 32, align: 8 };
    let plan = MyAlloc::plan_block(layout, false, true).unwrap();
    assert!(!plan.capture);
    let mut reg = LiveRegistry::new();
    let header = SENTINEL;
    assert!(!MyAlloc::release_needed(header, false));
    reg.release(header);
    assert_eq!(reg.len(), 0);
    assert!(!MyAlloc::capture_enabled(false, true));
}

#[test]
fn reallocation_overwrites_header_key() {
    let mut table = AggregationTable::new();
    let mut reg = LiveRegistry::new();
    let first = trace(&mut table, SITE_A.to_string(), 16, true).unwrap();
    let old_key = reg.register(first);
    let layout = HeapLayout { size: 16, align: 8 };
    let plan = MyAlloc::plan_resize(layout, 64, false, false).unwrap();
    assert!(plan.block.capture);
    assert_eq!(plan.new_total, 72);
    let second = trace(&mut table, SITE_B.to_string(), layout.size, true).unwrap();
    let new_key = reg.register(second);
    assert_ne!(new_key, old_key);
    assert_eq!(new_key, signature_key(&SITE_B.to_string()));
    // The entry of the old key is not dropped by a reallocation.
    assert!(reg.contains_key(old_key));
    assert!(reg.contains_key(new_key));
}

#[test]
fn suspended_hooks_capture_nothing() {
    let layout = HeapLayout { size: 48, align: 16 };
    let plan = MyAlloc::plan_block(layout, true, false).unwrap();
    assert!(!plan.capture);
    let resize = MyAlloc::plan_resize(layout, 96, true, false).unwrap();
    assert!(!resize.block.capture);
    assert!(!MyAlloc::release_needed(12345, true));
    assert!(MyAlloc::capture_enabled(false, false));
    assert!(!MyAlloc::capture_enabled(true, false));
}

#[test]
fn filtered_report_lists_only_live_sites() {
    let mut table = AggregationTable::new();
    let mut reg = LiveRegistry::new();
    let a = reg.register(trace(&mut table, SITE_A.to_string(), 8, true).unwrap());
    let b = reg.register(trace(&mut table, SITE_B.to_string(), 9, true).unwrap());
    trace(&mut table, SITE_C.to_string(), 8, false);
    reg.release(a);
    let rows = filtered_trace(&table, &reg);
    assert_eq!(rows, vec![(SITE_B.to_string(), status(1, 9, 0, 0))]);
    assert!(reg.contains_key(b));
    let all = all_trace(&table);
    assert_eq!(all.len(), 3);
}

#[test]
fn filtered_report_skips_registered_sites_missing_from_table() {
    let table = AggregationTable::new();
    let mut reg = LiveRegistry::new();
    reg.register(SITE_A.to_string());
    assert!(filtered_trace(&table, &reg).is_empty());
}

#[test]
fn print_functions_visit_rows_in_order() {
    let mut table = AggregationTable::new();
    let mut reg = LiveRegistry::new();
    reg.register(trace(&mut table, SITE_A.to_string(), 1, true).unwrap());
    trace(&mut table, SITE_B.to_string(), 2, false);
    reg.register(trace(&mut table, SITE_C.to_string(), 3, true).unwrap());
    let seen = RefCell::new(Vec::new());
    print_all_trace(&table, |s: &str, st: &Status| seen.borrow_mut().push((s.to_string(), *st)));
    assert_eq!(
        seen.borrow().clone(),
        vec![
            (SITE_A.to_string(), status(1, 1, 0, 0)),
            (SITE_B.to_string(), status(0, 0, 1, 2)),
            (SITE_C.to_string(), status(1, 3, 0, 0)),
        ]
    );
    let live = RefCell::new(Vec::new());
    print_filtered_trace(&table, &reg, |s: &str, _st: &Status| live.borrow_mut().push(s.to_string()));
    assert_eq!(live.borrow().clone(), vec![SITE_A.to_string(), SITE_C.to_string()]);
}
