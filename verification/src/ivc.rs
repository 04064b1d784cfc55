//! The folding engine: public parameters, the folding instance, the
//! per-step fold, and the final verification.
//!
//! Every fold synthesizes the step circuit into a fresh table and decides
//! the registered shuffle arguments on it, so an accumulated run stands for
//! a chain in which each step's witness satisfied the constraint against
//! the running output vector it consumed. A step that fails synthesis or
//! leaves a constraint unsatisfied is rejected at that fold, never later.

use vstd::prelude::*;
use crate::FieldElem;
use crate::circuit::AdviceColumn;
use crate::circuit::ConstraintSystem;
use crate::constraint::check_all_shuffles;
use crate::constraint::shuffle_holds;
use crate::keycache::CommitmentKey;
use crate::keycache::CurveKind;
use crate::step::StepCircuit;
use crate::step::StepConfig;
use crate::step::cell_values;
use crate::step::cells_known;
use crate::step::circuit_accepts;
use crate::step::step_output;
use crate::step::synthesize_chained;
use crate::step::synthesize_unchained;
use crate::table::AssignedCell;
use crate::table::SynthesisError;
use crate::table::Table;
use crate::table::WitnessValue;

verus! {

/// A failure while building public parameters.
#[derive(Clone, Copy, PartialEq, Eq, Structural, Debug)]
pub enum ParamsError {
    /// A key was generated for the wrong curve for its side.
    CurveMismatch,
    /// A key is smaller than the table size it must back.
    KeyTooSmall,
}

/// A failure at instance creation.
#[derive(Clone, Copy, PartialEq, Eq, Structural, Debug)]
pub enum InstanceError {
    /// An initial output vector's length differs from its circuit's arity.
    ArityMismatch,
    /// A circuit was handed a layout of another kind.
    LayoutMismatch,
    /// The zeroth step's synthesis failed.
    Synthesis(SynthesisError),
    /// The zeroth step left the shuffle constraint unsatisfied.
    Unsatisfied,
}

/// A failure at one fold step.
#[derive(Clone, Copy, PartialEq, Eq, Structural, Debug)]
pub enum FoldError {
    /// A circuit's arity differs from the instance's carried vector.
    ArityMismatch,
    /// A circuit was handed a layout of another kind.
    LayoutMismatch,
    /// The step's synthesis failed.
    Synthesis(SynthesisError),
    /// The step left the shuffle constraint unsatisfied.
    Unsatisfied,
}

/// A failure at final verification.
#[derive(Clone, Copy, PartialEq, Eq, Structural, Debug)]
pub enum VerificationError {
    /// The instance's carried vectors do not match its declared arities,
    /// or nothing was ever folded.
    Inconsistent,
}

/// The number of table rows one synthesis of the circuit uses.
pub open spec fn rows_needed(c: StepCircuit) -> int {
    match c {
        StepCircuit::Unchained(u) => (u.input_0@.len() + u.shuffle_0@.len()) as int,
        StepCircuit::Chained(ch) => 2 * (ch.arity() as int),
        StepCircuit::Trivial(_) => 0int,
    }
}

/// A constraint-system shape together with the layout its configure run
/// produced: exactly the registered arguments the layout stands for.
pub open spec fn shape_ok(cs: ConstraintSystem, cfg: StepConfig) -> bool {
    match cfg {
        StepConfig::Shuffle(sc) => {
            &&& cs.shuffles@.len() == 1
            &&& cs.shuffles@[0] == sc.arg()
            &&& sc.wf(cs)
            &&& cs.wf()
        },
        StepConfig::Empty => cs.shuffles@.len() == 0 && cs.wf(),
    }
}

/// The immutable, shape- and key-derived configuration shared by all
/// folding steps of a run.
pub struct PublicParams {
    pub primary_table_size: usize,
    pub secondary_table_size: usize,
    pub primary_key: CommitmentKey,
    pub secondary_key: CommitmentKey,
    pub primary_cs: ConstraintSystem,
    pub primary_cfg: StepConfig,
    pub secondary_cs: ConstraintSystem,
    pub secondary_cfg: StepConfig,
}

impl PublicParams {
    /// Both sides hold a configure-produced shape, and each key backs at
    /// least its side's table size.
    pub open spec fn wf(self) -> bool {
        &&& shape_ok(self.primary_cs, self.primary_cfg)
        &&& shape_ok(self.secondary_cs, self.secondary_cfg)
        &&& self.primary_key.size >= self.primary_table_size
        &&& self.secondary_key.size >= self.secondary_table_size
    }

    /// Build public parameters from both step-circuit shapes, both table
    /// sizes and both commitment keys. The primary key must be a bn256
    /// key at least as large as the primary table size, the secondary a
    /// grumpkin key at least as large as the secondary table size.
    pub fn new(
        secondary_table_size: usize,
        primary_key: CommitmentKey,
        circuit1: &StepCircuit,
        primary_table_size: usize,
        secondary_key: CommitmentKey,
        circuit2: &StepCircuit,
    ) -> (r: Result<PublicParams, ParamsError>)
        requires
            primary_key.wf(),
            secondary_key.wf(),
        ensures
            match r {
                Ok(pp) => {
                    &&& primary_key.curve == CurveKind::Bn256
                    &&& secondary_key.curve == CurveKind::Grumpkin
                    &&& primary_key.size >= primary_table_size
                    &&& secondary_key.size >= secondary_table_size
                    &&& pp.wf()
                    &&& pp.primary_table_size == primary_table_size
                    &&& pp.secondary_table_size == secondary_table_size
                    &&& circuit1.config_matches(pp.primary_cfg)
                    &&& circuit2.config_matches(pp.secondary_cfg)
                },
                Err(ParamsError::CurveMismatch) => !(primary_key.curve == CurveKind::Bn256
                    && secondary_key.curve == CurveKind::Grumpkin),
                Err(ParamsError::KeyTooSmall) => {
                    &&& primary_key.curve == CurveKind::Bn256
                    &&& secondary_key.curve == CurveKind::Grumpkin
                    &&& !(primary_key.size >= primary_table_size && secondary_key.size
                        >= secondary_table_size)
                },
            },
    {
        let curves_ok = match (primary_key.curve, secondary_key.curve) {
            (CurveKind::Bn256, CurveKind::Grumpkin) => true,
            _ => false,
        };
        if !curves_ok {
            return Err(ParamsError::CurveMismatch);
        }
        if primary_key.size < primary_table_size || secondary_key.size < secondary_table_size {
            return Err(ParamsError::KeyTooSmall);
        }
        let mut primary_cs = ConstraintSystem::new();
        let primary_cfg = circuit1.configure(&mut primary_cs);
        let mut secondary_cs = ConstraintSystem::new();
        let secondary_cfg = circuit2.configure(&mut secondary_cs);
        proof {
            assert(shape_ok(primary_cs, primary_cfg)) by {
                match primary_cfg {
                    StepConfig::Shuffle(sc) => {
                        assert(primary_cs.shuffles@[0] == sc.arg());
                        assert forall|i: int|
                            0 <= i < primary_cs.shuffles@.len() implies (
                        #[trigger] primary_cs.shuffles@[i]).in_bounds(primary_cs) by {
                            assert(primary_cs.shuffles@[i] == sc.arg());
                        }
                    },
                    StepConfig::Empty => {},
                }
            }
            assert(shape_ok(secondary_cs, secondary_cfg)) by {
                match secondary_cfg {
                    StepConfig::Shuffle(sc) => {
                        assert(secondary_cs.shuffles@[0] == sc.arg());
                        assert forall|i: int|
                            0 <= i < secondary_cs.shuffles@.len() implies (
                        #[trigger] secondary_cs.shuffles@[i]).in_bounds(secondary_cs) by {
                            assert(secondary_cs.shuffles@[i] == sc.arg());
                        }
                    },
                    StepConfig::Empty => {},
                }
            }
        }
        Ok(
            PublicParams {
                primary_table_size,
                secondary_table_size,
                primary_key,
                secondary_key,
                primary_cs,
                primary_cfg,
                secondary_cs,
                secondary_cfg,
            },
        )
    }
}

/// Present a running output vector as a column of known, assigned cells.
fn cells_of_values(z: &Vec<FieldElem>, col: AdviceColumn) -> (r: Vec<AssignedCell>)
    ensures
        r@.len() == z@.len(),
        forall|i: int|
            0 <= i < z@.len() ==> (#[trigger] r@[i]) == (AssignedCell {
                column: col,
                row: i as usize,
                value: WitnessValue::Known(z@[i]),
            }),
        cells_known(r@),
        cell_values(r@) == z@,
{
    let mut r: Vec<AssignedCell> = Vec::new();
    let mut i: usize = 0;
    while i < z.len()
        invariant
            r@.len() == i,
            i <= z@.len(),
            forall|j: int|
                0 <= j < i ==> (#[trigger] r@[j]) == (AssignedCell {
                    column: col,
                    row: j as usize,
                    value: WitnessValue::Known(z@[j]),
                }),
        decreases z@.len() - i,
    {
        r.push(AssignedCell { column: col, row: i, value: WitnessValue::Known(z[i]) });
        i = i + 1;
    }
    proof {
        assert(cell_values(r@) =~= z@);
    }
    r
}

/// The plain values a vector of output cells carries.
fn values_of_cells(cells: &Vec<AssignedCell>) -> (r: Vec<FieldElem>)
    ensures
        r@ == cell_values(cells@),
{
    let mut r: Vec<FieldElem> = Vec::new();
    let mut i: usize = 0;
    while i < cells.len()
        invariant
            r@.len() == i,
            i <= cells@.len(),
            forall|j: int| 0 <= j < i ==> #[trigger] r@[j] == cells@[j].value.value(),
        decreases cells@.len() - i,
    {
        let c = cells[i];
        let v = match c.value {
            WitnessValue::Known(x) => x,
            WitnessValue::Unknown => 0,
        };
        r.push(v);
        i = i + 1;
    }
    proof {
        assert(r@ =~= cell_values(cells@));
    }
    r
}

/// A plain copy of a value vector.
fn clone_values(z: &Vec<FieldElem>) -> (r: Vec<FieldElem>)
    ensures
        r@ == z@,
{
    let mut r: Vec<FieldElem> = Vec::new();
    let mut i: usize = 0;
    while i < z.len()
        invariant
            r@ == z@.subrange(0, i as int),
            i <= z@.len(),
        decreases z@.len() - i,
    {
        r.push(z[i]);
        i = i + 1;
    }
    proof {
        assert(r@ =~= z@);
    }
    r
}

/// Synthesize one circuit for one step into a fresh table, decide every
/// registered shuffle argument on it, and return the next output vector;
/// rejected exactly when the layout is of the wrong kind, the step data is
/// malformed, the rows do not fit, or the constraint is unsatisfied.
pub fn run_step(
    c: &StepCircuit,
    cfg: &StepConfig,
    cs: &ConstraintSystem,
    capacity: usize,
    z: &Vec<FieldElem>,
) -> (r: Result<Vec<FieldElem>, FoldError>)
    requires
        shape_ok(*cs, *cfg),
        z@.len() == c.arity(),
    ensures
        match r {
            Ok(z2) => {
                &&& c.config_matches(*cfg)
                &&& c.wf()
                &&& rows_needed(*c) <= capacity
                &&& circuit_accepts(*c, z@, capacity as nat)
                &&& z2@ == step_output(*c, z@)
                &&& z2@.len() == c.arity()
            },
            Err(FoldError::LayoutMismatch) => !c.config_matches(*cfg),
            Err(FoldError::Synthesis(SynthesisError::WitnessLengthMismatch)) => c.config_matches(
                *cfg,
            ) && !c.wf(),
            Err(FoldError::Synthesis(SynthesisError::RowOutOfCapacity)) => {
                &&& c.config_matches(*cfg)
                &&& c.wf()
                &&& rows_needed(*c) > capacity
            },
            Err(FoldError::Synthesis(SynthesisError::LayoutMismatch)) => false,
            Err(FoldError::Unsatisfied) => {
                &&& c.config_matches(*cfg)
                &&& c.wf()
                &&& rows_needed(*c) <= capacity
                &&& !circuit_accepts(*c, z@, capacity as nat)
            },
            Err(FoldError::ArityMismatch) => false,
        },
{
    match (c, cfg) {
        (StepCircuit::Trivial(_), StepConfig::Empty) => Ok(clone_values(z)),
        (StepCircuit::Unchained(u), StepConfig::Shuffle(sc)) => {
            let mut table = Table::new(cs, capacity);
            let z_cells = cells_of_values(z, sc.input_0);
            match synthesize_unchained(u, *sc, &mut table, &z_cells) {
                Ok(z_out_cells) => {
                    if check_all_shuffles(cs, &table) {
                        proof {
                            assert(shuffle_holds(cs.shuffles@[0], table));
                        }
                        let z2 = values_of_cells(&z_out_cells);
                        proof {
                            assert(z2@ =~= z@);
                        }
                        Ok(z2)
                    } else {
                        proof {
                            assert(!shuffle_holds(cs.shuffles@[0], table));
                        }
                        Err(FoldError::Unsatisfied)
                    }
                },
                Err(e) => Err(FoldError::Synthesis(e)),
            }
        },
        (StepCircuit::Chained(ch), StepConfig::Shuffle(sc)) => {
            let mut table = Table::new(cs, capacity);
            let z_cells = cells_of_values(z, sc.input_0);
            match synthesize_chained(ch, *sc, &mut table, &z_cells) {
                Ok(z_out_cells) => {
                    if check_all_shuffles(cs, &table) {
                        proof {
                            assert(shuffle_holds(cs.shuffles@[0], table));
                        }
                        Ok(values_of_cells(&z_out_cells))
                    } else {
                        proof {
                            assert(!shuffle_holds(cs.shuffles@[0], table));
                        }
                        Err(FoldError::Unsatisfied)
                    }
                },
                Err(e) => Err(FoldError::Synthesis(e)),
            }
        },
        _ => Err(FoldError::LayoutMismatch),
    }
}

/// The folding instance: the accumulator's running output vectors, the
/// arities they must keep, and the count of folded steps.
pub struct Ivc {
    /// Completed folds, the zeroth included.
    pub step: usize,
    pub primary_arity: usize,
    pub secondary_arity: usize,
    pub z0_primary: Vec<FieldElem>,
    pub z0_secondary: Vec<FieldElem>,
    pub z_primary: Vec<FieldElem>,
    pub z_secondary: Vec<FieldElem>,
}

impl Ivc {
    /// The carried vectors keep their declared arities.
    pub open spec fn wf(self) -> bool {
        &&& self.z_primary@.len() == self.primary_arity
        &&& self.z_secondary@.len() == self.secondary_arity
        &&& self.z0_primary@.len() == self.primary_arity
        &&& self.z0_secondary@.len() == self.secondary_arity
    }

    /// Create the folding instance and fold the zeroth step. An initial
    /// output vector whose length differs from its circuit's arity is
    /// rejected here, before any fold.
    pub fn new(
        pp: &PublicParams,
        circuit1: &StepCircuit,
        z0_primary: &Vec<FieldElem>,
        circuit2: &StepCircuit,
        z0_secondary: &Vec<FieldElem>,
        _debug_mode: bool,
    ) -> (r: Result<Ivc, InstanceError>)
        requires
            pp.wf(),
        ensures
            match r {
                Ok(ivc) => {
                    &&& z0_primary@.len() == circuit1.arity()
                    &&& z0_secondary@.len() == circuit2.arity()
                    &&& circuit1.config_matches(pp.primary_cfg)
                    &&& circuit2.config_matches(pp.secondary_cfg)
                    &&& circuit1.wf()
                    &&& circuit2.wf()
                    &&& rows_needed(*circuit1) <= pp.primary_table_size
                    &&& rows_needed(*circuit2) <= pp.secondary_table_size
                    &&& circuit_accepts(*circuit1, z0_primary@, pp.primary_table_size as nat)
                    &&& circuit_accepts(*circuit2, z0_secondary@, pp.secondary_table_size as nat)
                    &&& ivc.step == 1
                    &&& ivc.primary_arity == circuit1.arity()
                    &&& ivc.secondary_arity == circuit2.arity()
                    &&& ivc.z0_primary@ == z0_primary@
                    &&& ivc.z0_secondary@ == z0_secondary@
                    &&& ivc.z_primary@ == step_output(*circuit1, z0_primary@)
                    &&& ivc.z_secondary@ == step_output(*circuit2, z0_secondary@)
                    &&& ivc.wf()
                },
                Err(InstanceError::ArityMismatch) => !(z0_primary@.len() == circuit1.arity()
                    && z0_secondary@.len() == circuit2.arity()),
                Err(InstanceError::LayoutMismatch) => {
                    &&& z0_primary@.len() == circuit1.arity()
                    &&& z0_secondary@.len() == circuit2.arity()
                    &&& !(circuit1.config_matches(pp.primary_cfg) && circuit2.config_matches(
                        pp.secondary_cfg,
                    ))
                },
                Err(InstanceError::Synthesis(_)) => {
                    &&& z0_primary@.len() == circuit1.arity()
                    &&& z0_secondary@.len() == circuit2.arity()
                    &&& !(circuit1.wf() && circuit2.wf() && rows_needed(*circuit1)
                        <= pp.primary_table_size && rows_needed(*circuit2)
                        <= pp.secondary_table_size)
                },
                Err(InstanceError::Unsatisfied) => {
                    &&& z0_primary@.len() == circuit1.arity()
                    &&& z0_secondary@.len() == circuit2.arity()
                    &&& !(circuit_accepts(*circuit1, z0_primary@, pp.primary_table_size as nat)
                        && circuit_accepts(
                        *circuit2,
                        z0_secondary@,
                        pp.secondary_table_size as nat,
                    ))
                },
            },
    {
        let a1 = arity_of(circuit1);
        let a2 = arity_of(circuit2);
        if z0_primary.len() != a1 || z0_secondary.len() != a2 {
            return Err(InstanceError::ArityMismatch);
        }
        let z1 = match run_step(circuit1, &pp.primary_cfg, &pp.primary_cs, pp.primary_table_size, z0_primary) {
            Ok(z) => z,
            Err(e) => {
                return Err(instance_error_of(e));
            },
        };
        let z2 = match run_step(
            circuit2,
            &pp.secondary_cfg,
            &pp.secondary_cs,
            pp.secondary_table_size,
            z0_secondary,
        ) {
            Ok(z) => z,
            Err(e) => {
                return Err(instance_error_of(e));
            },
        };
        Ok(
            Ivc {
                step: 1,
                primary_arity: a1,
                secondary_arity: a2,
                z0_primary: clone_values(z0_primary),
                z0_secondary: clone_values(z0_secondary),
                z_primary: z1,
                z_secondary: z2,
            },
        )
    }

    /// Advance the accumulator by exactly one fold: synthesize both step
    /// circuits against the carried output vectors, decide their
    /// constraints, and carry the outputs forward.
    pub fn fold_step(&mut self, pp: &PublicParams, circuit1: &StepCircuit, circuit2: &StepCircuit) -> (r:
        Result<(), FoldError>)
        requires
            pp.wf(),
            old(self).wf(),
            old(self).step < usize::MAX,
        ensures
            final(self).wf(),
            match r {
                Ok(_) => {
                    &&& circuit1.arity() == old(self).primary_arity
                    &&& circuit2.arity() == old(self).secondary_arity
                    &&& circuit1.wf()
                    &&& circuit2.wf()
                    &&& rows_needed(*circuit1) <= pp.primary_table_size
                    &&& rows_needed(*circuit2) <= pp.secondary_table_size
                    &&& circuit_accepts(
                        *circuit1,
                        old(self).z_primary@,
                        pp.primary_table_size as nat,
                    )
                    &&& circuit_accepts(
                        *circuit2,
                        old(self).z_secondary@,
                        pp.secondary_table_size as nat,
                    )
                    &&& final(self).z_primary@ == step_output(*circuit1, old(self).z_primary@)
                    &&& final(self).z_secondary@ == step_output(*circuit2, old(self).z_secondary@)
                    &&& final(self).step == old(self).step + 1
                    &&& final(self).primary_arity == old(self).primary_arity
                    &&& final(self).secondary_arity == old(self).secondary_arity
                    &&& final(self).z0_primary@ == old(self).z0_primary@
                    &&& final(self).z0_secondary@ == old(self).z0_secondary@
                },
                Err(e) => {
                    &&& *final(self) == *old(self)
                    &&& match e {
                        FoldError::ArityMismatch => !(circuit1.arity() == old(self).primary_arity
                            && circuit2.arity() == old(self).secondary_arity),
                        FoldError::LayoutMismatch => !(circuit1.config_matches(pp.primary_cfg)
                            && circuit2.config_matches(pp.secondary_cfg)),
                        FoldError::Synthesis(_) => !(circuit1.wf() && circuit2.wf()
                            && rows_needed(*circuit1) <= pp.primary_table_size && rows_needed(
                            *circuit2,
                        ) <= pp.secondary_table_size),
                        FoldError::Unsatisfied => !(circuit_accepts(
                            *circuit1,
                            old(self).z_primary@,
                            pp.primary_table_size as nat,
                        ) && circuit_accepts(
                            *circuit2,
                            old(self).z_secondary@,
                            pp.secondary_table_size as nat,
                        )),
                    }
                },
            },
    {
        let a1 = arity_of(circuit1);
        let a2 = arity_of(circuit2);
        if a1 != self.primary_arity || a2 != self.secondary_arity {
            return Err(FoldError::ArityMismatch);
        }
        let z1 = match run_step(
            circuit1,
            &pp.primary_cfg,
            &pp.primary_cs,
            pp.primary_table_size,
            &self.z_primary,
        ) {
            Ok(z) => z,
            Err(e) => {
                return Err(e);
            },
        };
        let z2 = match run_step(
            circuit2,
            &pp.secondary_cfg,
            &pp.secondary_cs,
            pp.secondary_table_size,
            &self.z_secondary,
        ) {
            Ok(z) => z,
            Err(e) => {
                return Err(e);
            },
        };
        self.z_primary = z1;
        self.z_secondary = z2;
        self.step = self.step + 1;
        Ok(())
    }

    /// Check the accumulated instance: at least the zeroth step folded and
    /// the carried vectors keep their arities.
    pub fn verify(&self, _pp: &PublicParams) -> (r: Result<(), VerificationError>)
        ensures
            r is Ok <==> (self.step >= 1 && self.wf()),
    {
        if self.step >= 1 && self.z_primary.len() == self.primary_arity && self.z_secondary.len()
            == self.secondary_arity && self.z0_primary.len() == self.primary_arity
            && self.z0_secondary.len() == self.secondary_arity {
            Ok(())
        } else {
            Err(VerificationError::Inconsistent)
        }
    }
}

/// The declared arity of a step circuit.
pub fn arity_of(c: &StepCircuit) -> (r: usize)
    ensures
        r == c.arity(),
{
    match c {
        StepCircuit::Unchained(u) => u.arity,
        StepCircuit::Chained(ch) => ch.input_1.len(),
        StepCircuit::Trivial(t) => t.arity,
    }
}

/// Map a zeroth-fold failure to the creation error it stands for.
fn instance_error_of(e: FoldError) -> (r: InstanceError)
    ensures
        r == match e {
            FoldError::ArityMismatch => InstanceError::ArityMismatch,
            FoldError::LayoutMismatch => InstanceError::LayoutMismatch,
            FoldError::Synthesis(se) => InstanceError::Synthesis(se),
            FoldError::Unsatisfied => InstanceError::Unsatisfied,
        },
{
    match e {
        FoldError::ArityMismatch => InstanceError::ArityMismatch,
        FoldError::LayoutMismatch => InstanceError::LayoutMismatch,
        FoldError::Synthesis(se) => InstanceError::Synthesis(se),
        FoldError::Unsatisfied => InstanceError::Unsatisfied,
    }
}

} // verus!
