use icicle_benchmarks::{
    Action, HarnessError, Operation, Selector, SweepRun, SweepSpec, Target,
};

fn cuda() -> Target {
    Target { name: "CUDA".to_string(), ordinal: 0, device_memory: true }
}

fn cpu() -> Target {
    Target { name: "CPU".to_string(), ordinal: 0, device_memory: false }
}

#[test]
fn unavailable_target_fails_before_any_measurement() {
    let mut sel = Selector::new();
    assert_eq!(sel.select(cuda(), false), Err(HarnessError::BackendUnavailable));
    assert!(!HarnessError::BackendUnavailable.is_configuration());
    assert!(sel.selected().is_none());
    let spec = SweepSpec::new(vec![16, 256], 20, 1 << 20, 10).unwrap();
    let r = SweepRun::start(&sel, Operation::Msm, "G1".to_string(), &spec);
    assert_eq!(r.err(), Some(HarnessError::NoTargetSelected));
}

#[test]
fn selection_is_not_reentrant() {
    let mut sel = Selector::new();
    assert_eq!(sel.select(cpu(), true), Ok(()));
    assert_eq!(sel.select(cuda(), true), Err(HarnessError::TargetAlreadySelected));
    let t = sel.selected().unwrap();
    assert_eq!(t.name, "CPU");
    assert!(!t.device_memory);
}

#[test]
fn device_target_asks_for_a_transfer() {
    let mut sel = Selector::new();
    sel.select(cuda(), true).unwrap();
    let spec = SweepSpec::new(vec![16], 20, 1 << 20, 10).unwrap();
    let run = SweepRun::start(&sel, Operation::Msm, "G1".to_string(), &spec).unwrap();
    assert_eq!(run.action(), Action::Prepare { size: 16, to_device: true });
}
