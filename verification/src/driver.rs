//! The fold driver: sequential orchestration of a whole run.
//!
//! The driver acquires the two commitment keys from the cache, builds the
//! public parameters, creates the folding instance, advances it one fold at
//! a time for the configured step count, and verifies the accumulated
//! instance. Every stage is fatal on error: the run moves only forward
//! through `Uninitialized`, `KeysReady`, `ParamsReady`, `Created`,
//! `Folding`, and ends in `Verified` or `Failed` with the stage that broke.

use vstd::prelude::*;
use crate::FieldElem;
use crate::ivc::Ivc;
use crate::ivc::PublicParams;
use crate::ivc::rows_needed;
use crate::keycache::CachedKeyEntry;
use crate::keycache::CurveKind;
use crate::keycache::KeyCache;
use crate::keycache::lemma_lookup_props;
use crate::keycache::lemma_lookup_push_other;
use crate::keycache::lookup;
use crate::step::StepCircuit;
use crate::step::circuit_accepts;
use crate::step::step_output;

verus! {

/// The stage a failed run broke in.
#[derive(Clone, Copy, PartialEq, Eq, Structural, Debug)]
pub enum Stage {
    KeySetup,
    Params,
    Creation,
    Fold,
    Verification,
}

/// The driver's state machine. No transition goes backward, and `Verified`
/// and `Failed` are terminal.
#[derive(Clone, Copy, PartialEq, Eq, Structural, Debug)]
pub enum DriverState {
    Uninitialized,
    KeysReady,
    ParamsReady,
    Created,
    Folding(usize),
    Verified,
    Failed(Stage),
}

/// The process-wide run configuration, passed in explicitly: step count,
/// table sizes, key sizes, and the two initial output vectors.
pub struct FoldRunConfig {
    /// Total configured step count; the zeroth fold happens at creation
    /// and the driver advances the instance the rest of the way.
    pub fold_steps: usize,
    pub primary_table_size: usize,
    pub secondary_table_size: usize,
    pub primary_key_size: usize,
    pub secondary_key_size: usize,
    pub z0_primary: Vec<FieldElem>,
    pub z0_secondary: Vec<FieldElem>,
}

/// What a run ended in, and how many folds completed.
pub struct RunReport {
    pub state: DriverState,
    pub steps_folded: usize,
}

/// The running output vector after `n` folds of one circuit.
pub open spec fn z_at(c: StepCircuit, z0: Seq<FieldElem>, n: nat) -> Seq<FieldElem>
    decreases n,
{
    if n == 0 {
        z0
    } else {
        step_output(c, z_at(c, z0, (n - 1) as nat))
    }
}

/// Every one of the first `n` folds of the circuit is accepted against the
/// output vector it consumes.
pub open spec fn steps_accept(c: StepCircuit, z0: Seq<FieldElem>, cap: nat, n: int) -> bool {
    forall|k: nat| k < n ==> circuit_accepts(c, #[trigger] z_at(c, z0, k), cap)
}

/// A key acquisition succeeds: either nothing is cached for the pair (a
/// fresh key is generated) or the cached entry passes validation.
pub open spec fn key_stage_ok(
    entries: Seq<CachedKeyEntry>,
    curve: CurveKind,
    size: usize,
) -> bool {
    match lookup(entries, curve, size) {
        Option::Some(i) => entries[i].valid(),
        Option::None => true,
    }
}

/// Everything a whole run needs: both key acquisitions, key sizes covering
/// the table sizes, initial vectors of the circuits' arities, well-formed
/// step data that fits the tables, and every fold's shuffle relation
/// accepted along the chain of output vectors.
pub open spec fn run_succeeds(
    cfg: FoldRunConfig,
    entries: Seq<CachedKeyEntry>,
    c1: StepCircuit,
    c2: StepCircuit,
) -> bool {
    &&& key_stage_ok(entries, CurveKind::Bn256, cfg.primary_key_size)
    &&& key_stage_ok(entries, CurveKind::Grumpkin, cfg.secondary_key_size)
    &&& cfg.primary_key_size >= cfg.primary_table_size
    &&& cfg.secondary_key_size >= cfg.secondary_table_size
    &&& cfg.z0_primary@.len() == c1.arity()
    &&& cfg.z0_secondary@.len() == c2.arity()
    &&& c1.wf()
    &&& c2.wf()
    &&& rows_needed(c1) <= cfg.primary_table_size
    &&& rows_needed(c2) <= cfg.secondary_table_size
    &&& steps_accept(c1, cfg.z0_primary@, cfg.primary_table_size as nat, cfg.fold_steps as int)
    &&& steps_accept(c2, cfg.z0_secondary@, cfg.secondary_table_size as nat, cfg.fold_steps as int)
}

/// Run the whole fold sequentially: keys, parameters, creation, the
/// remaining folds, final verification. The run ends `Verified` exactly
/// when every stage's conditions hold of the configuration, the cache and
/// the two circuits.
#[verifier::rlimit(60)]
pub fn run_fold(
    cfg: &FoldRunConfig,
    cache: &mut KeyCache,
    c1: &StepCircuit,
    c2: &StepCircuit,
) -> (r: RunReport)
    requires
        cfg.fold_steps >= 1,
    ensures
        (r.state == DriverState::Verified) <==> run_succeeds(
            *cfg,
            old(cache).entries@,
            *c1,
            *c2,
        ),
        r.state == DriverState::Verified ==> r.steps_folded == cfg.fold_steps,
{
    let ghost entries0 = cache.entries@;
    let key1 = match cache.load_or_generate(CurveKind::Bn256, cfg.primary_key_size) {
        Ok(k) => k,
        Err(_) => {
            return RunReport { state: DriverState::Failed(Stage::KeySetup), steps_folded: 0 };
        },
    };
    let ghost entries1 = cache.entries@;
    proof {
        assert(key_stage_ok(entries0, CurveKind::Bn256, cfg.primary_key_size));
        assert(key_stage_ok(entries1, CurveKind::Grumpkin, cfg.secondary_key_size)
            == key_stage_ok(entries0, CurveKind::Grumpkin, cfg.secondary_key_size)) by {
            match lookup(entries0, CurveKind::Bn256, cfg.primary_key_size) {
                Option::Some(_) => {},
                Option::None => {
                    let e = entries1.last();
                    assert(entries1 =~= entries0.push(e));
                    lemma_lookup_push_other(
                        entries0,
                        e,
                        CurveKind::Grumpkin,
                        cfg.secondary_key_size,
                    );
                    match lookup(entries0, CurveKind::Grumpkin, cfg.secondary_key_size) {
                        Option::Some(i) => {
                            lemma_lookup_props(
                                entries0,
                                CurveKind::Grumpkin,
                                cfg.secondary_key_size,
                            );
                            assert(entries1[i] == entries0.subrange(0, entries0.len() as int)[i]);
                        },
                        Option::None => {},
                    }
                },
            }
        }
    }
    let key2 = match cache.load_or_generate(CurveKind::Grumpkin, cfg.secondary_key_size) {
        Ok(k) => k,
        Err(_) => {
            proof {
                assert(!key_stage_ok(entries1, CurveKind::Grumpkin, cfg.secondary_key_size));
            }
            return RunReport { state: DriverState::Failed(Stage::KeySetup), steps_folded: 0 };
        },
    };
    let pp = match PublicParams::new(
        cfg.secondary_table_size,
        key1,
        c1,
        cfg.primary_table_size,
        key2,
        c2,
    ) {
        Ok(pp) => pp,
        Err(_) => {
            return RunReport { state: DriverState::Failed(Stage::Params), steps_folded: 0 };
        },
    };
    let mut ivc = match Ivc::new(&pp, c1, &cfg.z0_primary, c2, &cfg.z0_secondary, true) {
        Ok(i) => i,
        Err(_) => {
            proof {
                if run_succeeds(*cfg, entries0, *c1, *c2) {
                    assert(circuit_accepts(
                        *c1,
                        z_at(*c1, cfg.z0_primary@, 0),
                        cfg.primary_table_size as nat,
                    ));
                    assert(circuit_accepts(
                        *c2,
                        z_at(*c2, cfg.z0_secondary@, 0),
                        cfg.secondary_table_size as nat,
                    ));
                    assert(false);
                }
            }
            return RunReport { state: DriverState::Failed(Stage::Creation), steps_folded: 0 };
        },
    };
    proof {
        assert(z_at(*c1, cfg.z0_primary@, 1) == step_output(*c1, z_at(*c1, cfg.z0_primary@, 0)));
        assert(z_at(*c1, cfg.z0_primary@, 0) == cfg.z0_primary@);
        assert(z_at(*c2, cfg.z0_secondary@, 1) == step_output(*c2, z_at(*c2, cfg.z0_secondary@, 0)));
        assert(z_at(*c2, cfg.z0_secondary@, 0) == cfg.z0_secondary@);
        assert forall|k: nat| k < 1 implies circuit_accepts(
            *c1,
            #[trigger] z_at(*c1, cfg.z0_primary@, k),
            cfg.primary_table_size as nat,
        ) by {
            assert(z_at(*c1, cfg.z0_primary@, 0) == cfg.z0_primary@);
        }
        assert forall|k: nat| k < 1 implies circuit_accepts(
            *c2,
            #[trigger] z_at(*c2, cfg.z0_secondary@, k),
            cfg.secondary_table_size as nat,
        ) by {
            assert(z_at(*c2, cfg.z0_secondary@, 0) == cfg.z0_secondary@);
        }
    }
    let mut step: usize = 1;
    while step < cfg.fold_steps
        invariant
            cfg.fold_steps >= 1,
            1 <= step <= cfg.fold_steps,
            pp.wf(),
            ivc.wf(),
            ivc.step == step,
            pp.primary_table_size == cfg.primary_table_size,
            pp.secondary_table_size == cfg.secondary_table_size,
            ivc.primary_arity == c1.arity(),
            ivc.secondary_arity == c2.arity(),
            cfg.z0_primary@.len() == c1.arity(),
            cfg.z0_secondary@.len() == c2.arity(),
            c1.wf(),
            c2.wf(),
            rows_needed(*c1) <= cfg.primary_table_size,
            rows_needed(*c2) <= cfg.secondary_table_size,
            c1.config_matches(pp.primary_cfg),
            c2.config_matches(pp.secondary_cfg),
            key_stage_ok(entries0, CurveKind::Bn256, cfg.primary_key_size),
            key_stage_ok(entries0, CurveKind::Grumpkin, cfg.secondary_key_size),
            cfg.primary_key_size >= cfg.primary_table_size,
            cfg.secondary_key_size >= cfg.secondary_table_size,
            ivc.z_primary@ == z_at(*c1, cfg.z0_primary@, step as nat),
            ivc.z_secondary@ == z_at(*c2, cfg.z0_secondary@, step as nat),
            steps_accept(*c1, cfg.z0_primary@, cfg.primary_table_size as nat, step as int),
            steps_accept(*c2, cfg.z0_secondary@, cfg.secondary_table_size as nat, step as int),
        decreases cfg.fold_steps - step,
    {
        let ghost z1_before = ivc.z_primary@;
        let ghost z2_before = ivc.z_secondary@;
        match ivc.fold_step(&pp, c1, c2) {
            Ok(_) => {},
            Err(_) => {
                proof {
                    if run_succeeds(*cfg, entries0, *c1, *c2) {
                        assert(circuit_accepts(
                            *c1,
                            z_at(*c1, cfg.z0_primary@, step as nat),
                            cfg.primary_table_size as nat,
                        ));
                        assert(circuit_accepts(
                            *c2,
                            z_at(*c2, cfg.z0_secondary@, step as nat),
                            cfg.secondary_table_size as nat,
                        ));
                        assert(false);
                    }
                }
                return RunReport { state: DriverState::Failed(Stage::Fold), steps_folded: step };
            },
        }
        proof {
            assert(z_at(*c1, cfg.z0_primary@, (step + 1) as nat) == step_output(*c1, z1_before));
            assert(z_at(*c2, cfg.z0_secondary@, (step + 1) as nat) == step_output(*c2, z2_before));
            assert forall|k: nat| k < step + 1 implies circuit_accepts(
                *c1,
                #[trigger] z_at(*c1, cfg.z0_primary@, k),
                cfg.primary_table_size as nat,
            ) by {
                if k == step {
                    assert(z_at(*c1, cfg.z0_primary@, k) == z1_before);
                }
            }
            assert forall|k: nat| k < step + 1 implies circuit_accepts(
                *c2,
                #[trigger] z_at(*c2, cfg.z0_secondary@, k),
                cfg.secondary_table_size as nat,
            ) by {
                if k == step {
                    assert(z_at(*c2, cfg.z0_secondary@, k) == z2_before);
                }
            }
        }
        step = step + 1;
    }
    match ivc.verify(&pp) {
        Ok(_) => {},
        Err(_) => {
            return RunReport { state: DriverState::Failed(Stage::Verification), steps_folded: step };
        },
    }
    proof {
        assert(run_succeeds(*cfg, entries0, *c1, *c2));
    }
    RunReport { state: DriverState::Verified, steps_folded: step }
}

} // verus!
