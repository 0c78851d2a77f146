use icicle_benchmarks::{
    Action, Event, Operation, Outcome, Selector, SweepRun, SweepSpec, Target,
};

/// A backend whose operation only counts its calls.
struct CountingBackend {
    generations: Vec<u64>,
    calls: u64,
    calls_at_boundary: Vec<u64>,
    unsupported: Vec<u64>,
}

impl CountingBackend {
    fn new() -> Self {
        CountingBackend { generations: vec![], calls: 0, calls_at_boundary: vec![], unsupported: vec![] }
    }
}

fn host_selector() -> Selector {
    let mut sel = Selector::new();
    sel.select(Target { name: "CPU".to_string(), ordinal: 0, device_memory: false }, true)
        .unwrap();
    sel
}

/// Steps a sweep to its end, answering each action with the mock backend;
/// each sample is the value of the call counter after the call.
fn drive(run: &mut SweepRun, backend: &mut CountingBackend) {
    let mut last_outcomes = 0;
    loop {
        let ev = match run.action() {
            Action::Done => break,
            Action::Prepare { size, .. } => {
                if backend.unsupported.contains(&size) {
                    Event::Unsupported
                } else {
                    backend.generations.push(size);
                    backend.calls = 0;
                    Event::Prepared
                }
            }
            Action::Skip { .. } => Event::Unsupported,
            Action::Run { .. } => {
                backend.calls += 1;
                Event::Sample(backend.calls)
            }
        };
        assert!(run.apply(ev));
        if run.outcomes().len() > last_outcomes {
            last_outcomes = run.outcomes().len();
            backend.calls_at_boundary.push(backend.calls);
        }
    }
}

fn measured(o: &Outcome) -> (u64, Vec<u64>) {
    match o {
        Outcome::Measured(r) => (r.size, r.samples.clone()),
        Outcome::Skipped { size } => panic!("size {} was skipped", size),
    }
}

#[test]
fn end_to_end_three_sizes() {
    let sel = host_selector();
    let spec = SweepSpec::new(vec![16, 256, 4096], 20, 1 << 20, 10).unwrap();
    let mut run = SweepRun::start(&sel, Operation::Msm, "mock".to_string(), &spec).unwrap();
    let mut backend = CountingBackend::new();
    drive(&mut run, &mut backend);
    assert!(run.is_done());
    let outcomes = run.into_outcomes();
    assert_eq!(outcomes.len(), 3);
    let expected: Vec<u64> = (1..=20).collect();
    for (o, size) in outcomes.iter().zip([16u64, 256, 4096]) {
        match o {
            Outcome::Measured(r) => {
                assert_eq!(r.operation, Operation::Msm);
                assert_eq!(r.backend, "mock");
                assert_eq!(r.size, size);
                assert_eq!(r.samples, expected);
            }
            Outcome::Skipped { .. } => panic!("unexpected skip"),
        }
    }
    assert_eq!(backend.calls_at_boundary, vec![20, 20, 20]);
    assert_eq!(backend.generations, vec![16, 256, 4096]);
}

#[test]
fn one_generation_and_r_calls_per_size() {
    let sel = host_selector();
    let spec = SweepSpec::new(vec![1 << 10], 37, 1 << 20, 10).unwrap();
    let mut run = SweepRun::start(&sel, Operation::Msm, "mock".to_string(), &spec).unwrap();
    assert_eq!(run.action(), Action::Prepare { size: 1024, to_device: false });
    assert!(run.apply(Event::Prepared));
    let mut calls = 0;
    while let Action::Run { size } = run.action() {
        assert_eq!(size, 1024);
        calls += 1;
        assert!(run.apply(Event::Sample(0)));
    }
    assert_eq!(calls, 37);
    assert_eq!(run.action(), Action::Done);
    let (size, samples) = measured(&run.outcomes()[0]);
    assert_eq!(size, 1024);
    assert_eq!(samples.len(), 37);
}

#[test]
fn n_repetitions_give_n_samples_for_every_operation() {
    let sel = host_selector();
    let spec = SweepSpec::new(vec![4, 8], 12, 1 << 20, 10).unwrap();
    let ops = [
        Operation::FieldAdd,
        Operation::FieldSub,
        Operation::FieldMul,
        Operation::FieldSquare,
        Operation::FieldInv,
        Operation::GroupAdd,
        Operation::GroupSub,
        Operation::GroupDouble,
        Operation::GroupMul,
        Operation::Pairing,
        Operation::Msm,
        Operation::Ntt { max_log_domain: 28 },
    ];
    for op in ops {
        let mut run = SweepRun::start(&sel, op, "mock".to_string(), &spec).unwrap();
        let mut backend = CountingBackend::new();
        drive(&mut run, &mut backend);
        let expected = if op.is_sized() { 2 } else { 1 };
        assert_eq!(run.outcomes().len(), expected);
        for o in run.outcomes() {
            assert_eq!(measured(o).1.len(), 12);
        }
    }
}

#[test]
fn unsized_operations_use_one_representative_input() {
    let sel = host_selector();
    let spec = SweepSpec::new(vec![16, 256], 100, 1 << 20, 10).unwrap();
    let run = SweepRun::start(&sel, Operation::FieldAdd, "ff".to_string(), &spec).unwrap();
    assert_eq!(run.action(), Action::Prepare { size: 2, to_device: false });
    assert_eq!(run.plan().len(), 1);
    let run = SweepRun::start(&sel, Operation::FieldInv, "ff".to_string(), &spec).unwrap();
    assert_eq!(run.action(), Action::Prepare { size: 1, to_device: false });
    assert_eq!(Operation::GroupDouble.operand_count(), 1);
    assert_eq!(Operation::Pairing.operand_count(), 2);
    assert!(!Operation::Pairing.is_sized());
}

#[test]
fn transform_without_domain_is_skipped_and_the_sweep_goes_on() {
    let sel = host_selector();
    let spec = SweepSpec::new(vec![1 << 27, 1 << 30, 1 << 31], 10, 1 << 20, 10).unwrap();
    let op = Operation::Ntt { max_log_domain: 28 };
    assert!(op.supports_size(1 << 28));
    assert!(!op.supports_size(1 << 30));
    let mut run = SweepRun::start(&sel, op, "ntt".to_string(), &spec).unwrap();
    let mut backend = CountingBackend::new();
    drive(&mut run, &mut backend);
    let outcomes = run.outcomes();
    assert_eq!(outcomes.len(), 3);
    assert_eq!(measured(&outcomes[0]).0, 1 << 27);
    assert!(matches!(outcomes[1], Outcome::Skipped { size } if size == 1 << 30));
    assert!(matches!(outcomes[2], Outcome::Skipped { size } if size == 1 << 31));
    assert_eq!(backend.generations, vec![1 << 27]);
}

#[test]
fn reported_unsupported_size_is_skipped_and_the_sweep_goes_on() {
    let sel = host_selector();
    let spec = SweepSpec::new(vec![16, 256, 4096], 10, 1 << 20, 10).unwrap();
    let mut run = SweepRun::start(&sel, Operation::Msm, "mock".to_string(), &spec).unwrap();
    let mut backend = CountingBackend::new();
    backend.unsupported.push(256);
    drive(&mut run, &mut backend);
    let outcomes = run.outcomes();
    assert_eq!(outcomes.len(), 3);
    assert_eq!(measured(&outcomes[0]), (16, (1..=10).collect()));
    assert!(matches!(outcomes[1], Outcome::Skipped { size: 256 }));
    assert_eq!(measured(&outcomes[2]), (4096, (1..=10).collect()));
}

#[test]
fn adaptive_sampling_past_threshold() {
    let sel = host_selector();
    let spec = SweepSpec::new(vec![1 << 4, 1 << 21], 100, 1 << 20, 10).unwrap();
    let mut run = SweepRun::start(&sel, Operation::Msm, "mock".to_string(), &spec).unwrap();
    let mut backend = CountingBackend::new();
    drive(&mut run, &mut backend);
    let outcomes = run.outcomes();
    assert_eq!(measured(&outcomes[0]).1.len(), 100);
    assert_eq!(measured(&outcomes[1]).1.len(), 10);
    assert_eq!(backend.calls_at_boundary, vec![100, 10]);
}

#[test]
fn sizes_are_visited_in_increasing_order() {
    let sel = host_selector();
    let spec = SweepSpec::new(icicle_benchmarks::pow2_sizes(4, 10), 10, 1 << 20, 10).unwrap();
    let mut run = SweepRun::start(&sel, Operation::Msm, "mock".to_string(), &spec).unwrap();
    let mut backend = CountingBackend::new();
    drive(&mut run, &mut backend);
    assert_eq!(backend.generations, vec![16, 32, 64, 128, 256, 512, 1024]);
}

#[test]
fn out_of_turn_events_change_nothing() {
    let sel = host_selector();
    let spec = SweepSpec::new(vec![16], 10, 1 << 20, 10).unwrap();
    let mut run = SweepRun::start(&sel, Operation::Msm, "mock".to_string(), &spec).unwrap();
    assert!(!run.accepts(Event::Sample(5)));
    assert!(!run.apply(Event::Sample(5)));
    assert_eq!(run.action(), Action::Prepare { size: 16, to_device: false });
    assert!(run.apply(Event::Prepared));
    assert!(!run.apply(Event::Prepared));
    assert!(!run.apply(Event::Unsupported));
    assert_eq!(run.action(), Action::Run { size: 16 });
    for _ in 0..10 {
        assert!(run.apply(Event::Sample(0)));
    }
    assert!(run.is_done());
    assert!(!run.apply(Event::Sample(0)));
    assert_eq!(measured(&run.outcomes()[0]).1, vec![0; 10]);
}
