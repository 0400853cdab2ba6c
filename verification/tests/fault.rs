use futility::fault::FaultChain;

fn annotate_prior(s: u64) -> u64 {
    s * 10 + 1
}

fn annotate_newer(s: u64) -> u64 {
    s * 10 + 2
}

#[test]
fn chain_runs_new_hook_first() {
    let slot: FaultChain<u64, fn(u64) -> u64> = FaultChain::new();
    let slot = slot.replace(annotate_prior);
    let slot = slot.chain(annotate_newer);
    assert_eq!(slot.dispatch(0), 21);
}

#[test]
fn replace_discards_prior_hook() {
    let slot: FaultChain<u64, fn(u64) -> u64> = FaultChain::new();
    let slot = slot.replace(annotate_prior);
    let slot = slot.replace(annotate_newer);
    assert_eq!(slot.dispatch(0), 2);
}

#[test]
fn empty_slot_passes_fault_through() {
    let slot: FaultChain<u64, fn(u64) -> u64> = FaultChain::new();
    assert_eq!(slot.dispatch(7), 7);
}

#[test]
fn chain_onto_empty_slot_runs_single_hook() {
    let slot: FaultChain<u64, fn(u64) -> u64> = FaultChain::new();
    let slot = slot.chain(annotate_newer);
    assert_eq!(slot.dispatch(0), 2);
}
