//! End-to-end and stage-level tests of the fold driver, the folding
//! engine, the step circuits and the key cache.

use shuffle_fold::circuit::ConstraintSystem;
use shuffle_fold::circuit::ShuffleChip;
use shuffle_fold::circuit::configure_step_shape;
use shuffle_fold::constraint::count_pair;
use shuffle_fold::constraint::multiset_equal_pairs;
use shuffle_fold::driver::DriverState;
use shuffle_fold::driver::FoldRunConfig;
use shuffle_fold::driver::Stage;
use shuffle_fold::driver::run_fold;
use shuffle_fold::ivc::FoldError;
use shuffle_fold::ivc::InstanceError;
use shuffle_fold::ivc::Ivc;
use shuffle_fold::ivc::ParamsError;
use shuffle_fold::ivc::PublicParams;
use shuffle_fold::ivc::arity_of;
use shuffle_fold::ivc::run_step;
use shuffle_fold::keycache::CachedKeyEntry;
use shuffle_fold::keycache::CurveKind;
use shuffle_fold::keycache::KeyCache;
use shuffle_fold::keycache::KeyCacheError;
use shuffle_fold::keycache::generate_key;
use shuffle_fold::step::ChainedShuffleCircuit;
use shuffle_fold::step::StepCircuit;
use shuffle_fold::step::StepConfig;
use shuffle_fold::step::TrivialCircuit;
use shuffle_fold::step::UnchainedShuffleCircuit;
use shuffle_fold::step::synthesize_chained;
use shuffle_fold::step::synthesize_unchained;
use shuffle_fold::table::AssignedCell;
use shuffle_fold::table::SynthesisError;
use shuffle_fold::table::Table;
use shuffle_fold::table::WitnessValue;

fn known(vals: &[u64]) -> Vec<WitnessValue> {
    vals.iter().map(|v| WitnessValue::Known(*v)).collect()
}

fn shuffle_example() -> UnchainedShuffleCircuit {
    UnchainedShuffleCircuit {
        arity: 1,
        input_0: known(&[1, 2, 4, 1]),
        input_1: vec![10, 20, 40, 10],
        shuffle_0: known(&[4, 1, 1, 2]),
        shuffle_1: known(&[40, 10, 10, 20]),
    }
}

fn configured(c: &StepCircuit) -> (ConstraintSystem, StepConfig) {
    let mut cs = ConstraintSystem::new();
    let cfg = c.configure(&mut cs);
    (cs, cfg)
}

#[test]
fn configure_allocates_distinct_handles() {
    let mut cs = ConstraintSystem::new();
    let cfg = configure_step_shape(&mut cs);
    assert_eq!(cs.num_advice, 3);
    assert_eq!(cs.num_fixed, 1);
    assert_eq!(cs.num_selectors, 2);
    assert_eq!(cs.shuffles.len(), 1);
    assert_ne!(cfg.s_input.index, cfg.s_shuffle.index);
    assert_ne!(cfg.input_0.index, cfg.shuffle_0.index);
    assert_ne!(cfg.input_0.index, cfg.shuffle_1.index);
    assert_ne!(cfg.shuffle_0.index, cfg.shuffle_1.index);
    let chip = ShuffleChip::construct(cfg);
    assert_eq!(chip.config.input_0.index, cfg.input_0.index);
}

#[test]
fn count_pair_exact_values() {
    let v = vec![(1u64, 10u64), (2, 20), (1, 10), (4, 40)];
    assert_eq!(count_pair(&v, (1, 10)), 2);
    assert_eq!(count_pair(&v, (4, 40)), 1);
    assert_eq!(count_pair(&v, (9, 9)), 0);
}

#[test]
fn multiset_equality_ignores_order() {
    let a = vec![(1u64, 10u64), (2, 20), (4, 40), (1, 10)];
    let b = vec![(4u64, 40u64), (1, 10), (1, 10), (2, 20)];
    assert!(multiset_equal_pairs(&a, &b));
    let c = vec![(4u64, 40u64), (1, 10), (1, 10), (1, 10)];
    assert!(!multiset_equal_pairs(&a, &c));
    let short = vec![(1u64, 10u64)];
    assert!(!multiset_equal_pairs(&a, &short));
}

#[test]
fn permuted_pairs_satisfy_the_shuffle() {
    let c = StepCircuit::Unchained(shuffle_example());
    let (cs, cfg) = configured(&c);
    let z = vec![0u64];
    let r = run_step(&c, &cfg, &cs, 17, &z);
    assert_eq!(r, Ok(vec![0u64]));
}

#[test]
fn missing_pair_breaks_the_shuffle() {
    let mut u = shuffle_example();
    // the right side now misses (2, 20) and holds (1, 10) three times
    u.shuffle_0 = known(&[4, 1, 1, 1]);
    u.shuffle_1 = known(&[40, 10, 10, 10]);
    let c = StepCircuit::Unchained(u);
    let (cs, cfg) = configured(&c);
    let r = run_step(&c, &cfg, &cs, 17, &vec![0u64]);
    assert_eq!(r, Err(FoldError::Unsatisfied));
}

#[test]
fn unknown_witness_value_is_rejected() {
    let mut u = shuffle_example();
    u.input_0[2] = WitnessValue::Unknown;
    let c = StepCircuit::Unchained(u);
    let (cs, cfg) = configured(&c);
    let r = run_step(&c, &cfg, &cs, 17, &vec![0u64]);
    assert_eq!(r, Err(FoldError::Unsatisfied));
}

#[test]
fn mismatched_witness_lengths_are_a_synthesis_error() {
    let mut u = shuffle_example();
    u.input_1 = vec![10, 20];
    let c = StepCircuit::Unchained(u);
    let (cs, cfg) = configured(&c);
    let r = run_step(&c, &cfg, &cs, 17, &vec![0u64]);
    assert_eq!(r, Err(FoldError::Synthesis(SynthesisError::WitnessLengthMismatch)));
}

#[test]
fn rows_past_the_capacity_are_a_synthesis_error() {
    let c = StepCircuit::Unchained(shuffle_example());
    let (cs, cfg) = configured(&c);
    let r = run_step(&c, &cfg, &cs, 3, &vec![0u64]);
    assert_eq!(r, Err(FoldError::Synthesis(SynthesisError::RowOutOfCapacity)));
}

#[test]
fn wrong_layout_kind_is_rejected() {
    let shuffle = StepCircuit::Unchained(shuffle_example());
    let (cs, cfg) = configured(&shuffle);
    let trivial = StepCircuit::Trivial(TrivialCircuit { arity: 1 });
    let r = run_step(&trivial, &cfg, &cs, 17, &vec![0u64]);
    assert_eq!(r, Err(FoldError::LayoutMismatch));
}

#[test]
fn chained_synthesis_returns_the_first_right_column_in_row_order() {
    let ch = ChainedShuffleCircuit {
        input_1: vec![10, 20, 40, 10],
        shuffle_0: known(&[4, 1, 1, 2]),
        shuffle_1: known(&[40, 10, 10, 20]),
    };
    let c = StepCircuit::Chained(ch);
    let (cs, cfg) = configured(&c);
    let z = vec![1u64, 2, 4, 1];
    let r = run_step(&c, &cfg, &cs, 17, &z);
    assert_eq!(r, Ok(vec![4u64, 1, 1, 2]));
    assert_eq!(arity_of(&c), 4);
}

#[test]
fn chained_synthesis_copies_the_prior_outputs_and_records_the_wiring() {
    let ch = ChainedShuffleCircuit {
        input_1: vec![10, 20, 40, 10],
        shuffle_0: known(&[4, 1, 1, 2]),
        shuffle_1: known(&[40, 10, 10, 20]),
    };
    let mut cs = ConstraintSystem::new();
    let scfg = configure_step_shape(&mut cs);
    let mut table = Table::new(&cs, 17);
    let z_vals = [1u64, 2, 4, 1];
    let z_cells: Vec<AssignedCell> = z_vals
        .iter()
        .enumerate()
        .map(|(i, v)| AssignedCell {
            column: scfg.shuffle_0,
            row: 8 + i,
            value: WitnessValue::Known(*v),
        })
        .collect();
    let out = synthesize_chained(&ch, scfg, &mut table, &z_cells).unwrap();
    // the returned output cells are exactly the first right column, rows 4..8
    assert_eq!(out.len(), 4);
    for (i, cell) in out.iter().enumerate() {
        assert_eq!(cell.column.index, scfg.shuffle_0.index);
        assert_eq!(cell.row, 4 + i);
        assert_eq!(cell.value, WitnessValue::Known([4u64, 1, 1, 2][i]));
    }
    // the copy wiring ties each prior output cell to its load-region cell,
    // and the copied cells carry exactly the prior outputs' values
    assert_eq!(table.copies.len(), 4);
    for (i, copy) in table.copies.iter().enumerate() {
        assert_eq!(copy.from_column.index, scfg.shuffle_0.index);
        assert_eq!(copy.from_row, 8 + i);
        assert_eq!(copy.to_column.index, scfg.input_0.index);
        assert_eq!(copy.to_row, i);
        assert_eq!(
            table.advice[scfg.input_0.index][i],
            WitnessValue::Known(z_vals[i]),
        );
    }
}

#[test]
fn chained_step_against_a_foreign_vector_is_unsatisfied() {
    let ch = ChainedShuffleCircuit {
        input_1: vec![10, 20, 40, 10],
        shuffle_0: known(&[4, 1, 1, 2]),
        shuffle_1: known(&[40, 10, 10, 20]),
    };
    let c = StepCircuit::Chained(ch);
    let (cs, cfg) = configured(&c);
    let r = run_step(&c, &cfg, &cs, 17, &vec![9u64, 9, 9, 9]);
    assert_eq!(r, Err(FoldError::Unsatisfied));
}

fn example_run_config() -> FoldRunConfig {
    FoldRunConfig {
        fold_steps: 5,
        primary_table_size: 17,
        secondary_table_size: 17,
        primary_key_size: 20,
        secondary_key_size: 20,
        z0_primary: vec![0u64],
        z0_secondary: vec![0u64],
    }
}

#[test]
fn five_step_fold_over_the_example_verifies() {
    let cfg = example_run_config();
    let mut cache = KeyCache::new();
    let c1 = StepCircuit::Unchained(shuffle_example());
    let c2 = StepCircuit::Trivial(TrivialCircuit { arity: 1 });
    let report = run_fold(&cfg, &mut cache, &c1, &c2);
    assert_eq!(report.state, DriverState::Verified);
    assert_eq!(report.steps_folded, 5);
    // both generated keys were filed in the cache
    assert_eq!(cache.entries.len(), 2);
}

#[test]
fn tampering_any_single_right_value_fails_a_fold_step() {
    let good1 = StepCircuit::Unchained(shuffle_example());
    let good2 = StepCircuit::Trivial(TrivialCircuit { arity: 1 });
    let k1 = generate_key(CurveKind::Bn256, 20);
    let k2 = generate_key(CurveKind::Grumpkin, 20);
    let pp = PublicParams::new(17, k1, &good1, 17, k2, &good2).unwrap();
    for row in 0..4usize {
        for col in 0..2usize {
            let mut tampered = shuffle_example();
            if col == 0 {
                let v = match tampered.shuffle_0[row] {
                    WitnessValue::Known(v) => v,
                    WitnessValue::Unknown => unreachable!(),
                };
                tampered.shuffle_0[row] = WitnessValue::Known(v + 1);
            } else {
                let v = match tampered.shuffle_1[row] {
                    WitnessValue::Known(v) => v,
                    WitnessValue::Unknown => unreachable!(),
                };
                tampered.shuffle_1[row] = WitnessValue::Known(v + 1);
            }
            let bad = StepCircuit::Unchained(tampered);
            let mut ivc =
                Ivc::new(&pp, &good1, &vec![0u64], &good2, &vec![0u64], true).unwrap();
            let r = ivc.fold_step(&pp, &bad, &good2);
            assert_eq!(r, Err(FoldError::Unsatisfied));
        }
    }
}

#[test]
fn tampered_first_step_fails_the_whole_run() {
    let cfg = example_run_config();
    let mut cache = KeyCache::new();
    let mut tampered = shuffle_example();
    // (4, 40) becomes (4, 41)
    tampered.shuffle_1[0] = WitnessValue::Known(41);
    let c1 = StepCircuit::Unchained(tampered);
    let c2 = StepCircuit::Trivial(TrivialCircuit { arity: 1 });
    let report = run_fold(&cfg, &mut cache, &c1, &c2);
    assert_eq!(report.state, DriverState::Failed(Stage::Creation));
}

#[test]
fn key_cache_round_trip_returns_the_saved_key() {
    let key = generate_key(CurveKind::Bn256, 20);
    let mut cache = KeyCache::new();
    cache.save(&key);
    let loaded = cache.load(CurveKind::Bn256, 20).unwrap();
    assert_eq!(loaded.curve, CurveKind::Bn256);
    assert_eq!(loaded.size, 20);
    assert_eq!(loaded.material, key.material);
}

#[test]
fn cached_keys_back_a_successful_run() {
    let cfg = example_run_config();
    let mut cache = KeyCache::new();
    // generate and file both keys, then run against the warm cache
    cache.load_or_generate(CurveKind::Bn256, 20).unwrap();
    cache.load_or_generate(CurveKind::Grumpkin, 20).unwrap();
    assert_eq!(cache.entries.len(), 2);
    let c1 = StepCircuit::Unchained(shuffle_example());
    let c2 = StepCircuit::Trivial(TrivialCircuit { arity: 1 });
    let report = run_fold(&cfg, &mut cache, &c1, &c2);
    assert_eq!(report.state, DriverState::Verified);
    // the warm run loaded the filed keys instead of generating new ones
    assert_eq!(cache.entries.len(), 2);
}

#[test]
fn mismatched_size_fails_validation_instead_of_regenerating() {
    let key = generate_key(CurveKind::Bn256, 20);
    let entry = CachedKeyEntry {
        name_curve: CurveKind::Bn256,
        name_size: 20,
        tag: CurveKind::Bn256,
        declared_size: 19,
        material: key.material,
    };
    let mut cache = KeyCache { entries: vec![entry] };
    assert!(matches!(cache.load(CurveKind::Bn256, 20), Err(KeyCacheError::Mismatch)));
    assert!(matches!(
        cache.load_or_generate(CurveKind::Bn256, 20),
        Err(KeyCacheError::Mismatch)
    ));
    // the invalid entry was not silently replaced
    assert_eq!(cache.entries.len(), 1);
    assert_eq!(cache.entries[0].declared_size, 19);
}

#[test]
fn missing_key_is_reported_by_plain_load() {
    let cache = KeyCache::new();
    assert!(matches!(cache.load(CurveKind::Grumpkin, 20), Err(KeyCacheError::Missing)));
}

#[test]
fn corrupt_cache_entry_fails_the_run_at_key_setup() {
    let cfg = example_run_config();
    let key = generate_key(CurveKind::Bn256, 20);
    let entry = CachedKeyEntry {
        name_curve: CurveKind::Bn256,
        name_size: 20,
        tag: CurveKind::Grumpkin,
        declared_size: 20,
        material: key.material,
    };
    let mut cache = KeyCache { entries: vec![entry] };
    let c1 = StepCircuit::Unchained(shuffle_example());
    let c2 = StepCircuit::Trivial(TrivialCircuit { arity: 1 });
    let report = run_fold(&cfg, &mut cache, &c1, &c2);
    assert_eq!(report.state, DriverState::Failed(Stage::KeySetup));
}

#[test]
fn too_small_key_fails_params_construction() {
    let c1 = StepCircuit::Unchained(shuffle_example());
    let c2 = StepCircuit::Trivial(TrivialCircuit { arity: 1 });
    let k1 = generate_key(CurveKind::Bn256, 5);
    let k2 = generate_key(CurveKind::Grumpkin, 20);
    let r = PublicParams::new(17, k1, &c1, 17, k2, &c2);
    assert!(matches!(r, Err(ParamsError::KeyTooSmall)));
}

#[test]
fn swapped_curves_fail_params_construction() {
    let c1 = StepCircuit::Unchained(shuffle_example());
    let c2 = StepCircuit::Trivial(TrivialCircuit { arity: 1 });
    let k1 = generate_key(CurveKind::Grumpkin, 20);
    let k2 = generate_key(CurveKind::Bn256, 20);
    let r = PublicParams::new(17, k1, &c1, 17, k2, &c2);
    assert!(matches!(r, Err(ParamsError::CurveMismatch)));
}

#[test]
fn arity_mismatch_fails_at_creation_not_at_the_first_fold() {
    let c1 = StepCircuit::Unchained(shuffle_example());
    let c2 = StepCircuit::Trivial(TrivialCircuit { arity: 1 });
    let k1 = generate_key(CurveKind::Bn256, 20);
    let k2 = generate_key(CurveKind::Grumpkin, 20);
    let pp = PublicParams::new(17, k1, &c1, 17, k2, &c2).unwrap();
    // the declared arity is 1, but the initial output vector has length 2
    let r = Ivc::new(&pp, &c1, &vec![0u64, 0], &c2, &vec![0u64], true);
    assert!(matches!(r, Err(InstanceError::ArityMismatch)));
    let r2 = Ivc::new(&pp, &c1, &vec![0u64], &c2, &vec![], true);
    assert!(matches!(r2, Err(InstanceError::ArityMismatch)));
}

#[test]
fn verify_rejects_an_instance_that_never_folded() {
    let ivc = Ivc {
        step: 0,
        primary_arity: 1,
        secondary_arity: 1,
        z0_primary: vec![0u64],
        z0_secondary: vec![0u64],
        z_primary: vec![0u64],
        z_secondary: vec![0u64],
    };
    let c1 = StepCircuit::Unchained(shuffle_example());
    let c2 = StepCircuit::Trivial(TrivialCircuit { arity: 1 });
    let k1 = generate_key(CurveKind::Bn256, 20);
    let k2 = generate_key(CurveKind::Grumpkin, 20);
    let pp = PublicParams::new(17, k1, &c1, 17, k2, &c2).unwrap();
    assert!(ivc.verify(&pp).is_err());
}

#[test]
fn without_witnesses_keeps_the_shape_and_drops_the_data() {
    let u = shuffle_example();
    let bare = u.without_witnesses();
    assert_eq!(bare.arity, 1);
    assert!(bare.input_0.is_empty());
    assert!(bare.input_1.is_empty());
    assert!(bare.shuffle_0.is_empty());
    assert!(bare.shuffle_1.is_empty());
}

#[test]
fn generated_key_carries_its_curve_and_size() {
    let key = generate_key(CurveKind::Grumpkin, 20);
    assert_eq!(key.curve, CurveKind::Grumpkin);
    assert_eq!(key.size, 20);
    assert_eq!(key.material.len(), 20);
}

#[test]
fn single_step_run_verifies() {
    let mut cfg = example_run_config();
    cfg.fold_steps = 1;
    let mut cache = KeyCache::new();
    let c1 = StepCircuit::Unchained(shuffle_example());
    let c2 = StepCircuit::Trivial(TrivialCircuit { arity: 1 });
    let report = run_fold(&cfg, &mut cache, &c1, &c2);
    assert_eq!(report.state, DriverState::Verified);
    assert_eq!(report.steps_folded, 1);
}

#[test]
fn unchained_synthesis_loads_both_regions_exactly() {
    let u = shuffle_example();
    let mut cs = ConstraintSystem::new();
    let scfg = configure_step_shape(&mut cs);
    let mut table = Table::new(&cs, 17);
    let z_cells = vec![AssignedCell {
        column: scfg.input_0,
        row: 0,
        value: WitnessValue::Known(0),
    }];
    let out = synthesize_unchained(&u, scfg, &mut table, &z_cells).unwrap();
    assert_eq!(out.len(), 1);
    // region "load inputs": rows 0..4 carry the left pairs, s_input enabled
    for i in 0..4 {
        assert_eq!(
            table.advice[scfg.input_0.index][i],
            WitnessValue::Known([1u64, 2, 4, 1][i]),
        );
        assert_eq!(table.fixed[scfg.input_1.index][i], [10u64, 20, 40, 10][i]);
        assert!(table.selectors[scfg.s_input.index][i]);
        assert!(!table.selectors[scfg.s_shuffle.index][i]);
    }
    // region "load shuffles": rows 4..8 carry the right pairs, s_shuffle enabled
    for i in 0..4 {
        assert_eq!(
            table.advice[scfg.shuffle_0.index][4 + i],
            WitnessValue::Known([4u64, 1, 1, 2][i]),
        );
        assert_eq!(
            table.advice[scfg.shuffle_1.index][4 + i],
            WitnessValue::Known([40u64, 10, 10, 20][i]),
        );
        assert!(table.selectors[scfg.s_shuffle.index][4 + i]);
        assert!(!table.selectors[scfg.s_input.index][4 + i]);
    }
    // no selector and no cell is touched past the two regions
    for row in 8..17 {
        assert_eq!(table.advice[scfg.input_0.index][row], WitnessValue::Unknown);
        assert_eq!(table.advice[scfg.shuffle_0.index][row], WitnessValue::Unknown);
        assert!(!table.selectors[scfg.s_input.index][row]);
        assert!(!table.selectors[scfg.s_shuffle.index][row]);
    }
    assert_eq!(table.rows_used, 8);
    assert!(table.copies.is_empty());
}

#[test]
fn failed_first_region_never_enters_the_shuffle_region() {
    let u = shuffle_example();
    let mut cs = ConstraintSystem::new();
    let scfg = configure_step_shape(&mut cs);
    // capacity below the left row count: the first region overflows
    let mut table = Table::new(&cs, 2);
    let z_cells = vec![AssignedCell {
        column: scfg.input_0,
        row: 0,
        value: WitnessValue::Known(0),
    }];
    let r = synthesize_unchained(&u, scfg, &mut table, &z_cells);
    assert_eq!(r, Err(SynthesisError::RowOutOfCapacity));
    // the left prefix up to the capacity was loaded before the failure
    assert_eq!(table.advice[scfg.input_0.index][0], WitnessValue::Known(1));
    assert_eq!(table.advice[scfg.input_0.index][1], WitnessValue::Known(2));
    assert!(table.selectors[scfg.s_input.index][0]);
    assert!(table.selectors[scfg.s_input.index][1]);
    // the shuffle region was never entered
    for row in 0..2 {
        assert_eq!(table.advice[scfg.shuffle_0.index][row], WitnessValue::Unknown);
        assert_eq!(table.advice[scfg.shuffle_1.index][row], WitnessValue::Unknown);
        assert!(!table.selectors[scfg.s_shuffle.index][row]);
    }
    assert!(table.copies.is_empty());
}
