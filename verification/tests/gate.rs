use journal_rag::gate::IndexingGate;

#[test]
fn second_run_for_an_entry_waits_for_the_first() {
    let mut gate = IndexingGate::new();
    assert!(!gate.is_busy("e-1"));
    assert!(gate.enter("e-1"));
    assert!(gate.is_busy("e-1"));
    assert!(!gate.enter("e-1"));
    assert!(gate.is_busy("e-1"));
    gate.leave("e-1");
    assert!(!gate.is_busy("e-1"));
    assert!(gate.enter("e-1"));
}

#[test]
fn runs_for_different_entries_do_not_wait() {
    let mut gate = IndexingGate::new();
    assert!(gate.enter("e-1"));
    assert!(gate.enter("e-2"));
    assert!(gate.enter("e-3"));
    gate.leave("e-2");
    assert!(gate.is_busy("e-1"));
    assert!(!gate.is_busy("e-2"));
    assert!(gate.is_busy("e-3"));
    assert!(!gate.enter("e-3"));
    assert!(gate.enter("e-2"));
}

#[test]
fn leaving_without_a_run_changes_nothing() {
    let mut gate = IndexingGate::new();
    gate.leave("e-1");
    assert!(gate.enter("e-2"));
    gate.leave("e-1");
    assert!(gate.is_busy("e-2"));
}
