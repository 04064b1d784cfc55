//! Step circuits: the per-round units the folding loop consumes.
//!
//! Three kinds stand behind one interface. The unchained shuffle circuit
//! carries its whole left pair sequence as step data and passes the running
//! output vector through untouched. The chained shuffle circuit instead
//! copies the prior step's output cells into its left witness column, pairs
//! them with its constants, and returns the first right-side column as the
//! next output vector. The trivial circuit assigns nothing and echoes its
//! input.

use vstd::prelude::*;
use crate::FieldElem;
use crate::circuit::ConstraintSystem;
use crate::circuit::ShuffleConfig;
use crate::circuit::configure_step_shape;
use crate::constraint::Pair;
use crate::constraint::arg_fits;
use crate::constraint::lemma_holds_iff_padded;
use crate::constraint::lemma_pair_count_is_multiset_count;
use crate::constraint::lemma_padded_count;
use crate::constraint::lemma_padded_eq_of_pairs_eq;
use crate::constraint::lemma_reorder_same_multiset;
use crate::constraint::is_permutation;
use crate::constraint::padded;
use crate::constraint::pair_count;
use crate::constraint::paired_vals;
use crate::constraint::paired_with_consts;
use crate::constraint::shuffle_holds;
use crate::constraint::vals_known;
use crate::constraint::zero_pair;
use crate::table::AssignedCell;
use crate::table::CopyConstraint;
use crate::table::SynthesisError;
use crate::table::Table;
use crate::table::WitnessValue;

verus! {

/// Pairs of a plain value vector and a constant column, row by row.
pub open spec fn const_pairs(z: Seq<FieldElem>, b: Seq<FieldElem>) -> Seq<Pair> {
    Seq::new(z.len(), |i: int| (z[i], b[i]))
}

/// Variant A: the unchained shuffle step. Left pairs come straight from the
/// step data; the running output vector is not derived from the assigned
/// cells and passes through unchanged.
#[derive(Clone, Debug)]
pub struct UnchainedShuffleCircuit {
    /// Output-vector length the step declares, independent of the row count.
    pub arity: usize,
    /// Left witness column values.
    pub input_0: Vec<WitnessValue>,
    /// Left fixed column constants.
    pub input_1: Vec<FieldElem>,
    /// Right first witness column values.
    pub shuffle_0: Vec<WitnessValue>,
    /// Right second witness column values.
    pub shuffle_1: Vec<WitnessValue>,
}

impl UnchainedShuffleCircuit {
    /// Left and right sides each zip two equally long columns.
    pub open spec fn wf(self) -> bool {
        &&& self.input_0@.len() == self.input_1@.len()
        &&& self.shuffle_0@.len() == self.shuffle_1@.len()
    }

    /// The circuit's shape without any witness data: empty columns.
    pub fn without_witnesses(&self) -> (r: UnchainedShuffleCircuit)
        ensures
            r.arity == self.arity,
            r.input_0@.len() == 0,
            r.input_1@.len() == 0,
            r.shuffle_0@.len() == 0,
            r.shuffle_1@.len() == 0,
    {
        UnchainedShuffleCircuit {
            arity: self.arity,
            input_0: Vec::new(),
            input_1: Vec::new(),
            shuffle_0: Vec::new(),
            shuffle_1: Vec::new(),
        }
    }
}

/// Variant B: the chained shuffle step. Length is the arity itself; the
/// left witness column is copied from the prior step's output cells.
#[derive(Clone, Debug)]
pub struct ChainedShuffleCircuit {
    /// Left fixed column constants; their number is the arity.
    pub input_1: Vec<FieldElem>,
    /// Right first witness column values; these become the next output.
    pub shuffle_0: Vec<WitnessValue>,
    /// Right second witness column values.
    pub shuffle_1: Vec<WitnessValue>,
}

impl ChainedShuffleCircuit {
    /// Output-vector length: one output cell per row.
    pub open spec fn arity(self) -> nat {
        self.input_1@.len()
    }

    /// All three columns have the arity's length.
    pub open spec fn wf(self) -> bool {
        &&& self.shuffle_0@.len() == self.input_1@.len()
        &&& self.shuffle_1@.len() == self.input_1@.len()
    }
}

/// The trivial companion circuit: no columns, no constraints, output echoes
/// input.
#[derive(Clone, Copy, Debug)]
pub struct TrivialCircuit {
    pub arity: usize,
}

/// The closed set of step-circuit kinds behind one interface.
#[derive(Clone, Debug)]
pub enum StepCircuit {
    Unchained(UnchainedShuffleCircuit),
    Chained(ChainedShuffleCircuit),
    Trivial(TrivialCircuit),
}

/// The layout a step circuit's configure step produces.
#[derive(Clone, Copy, PartialEq, Eq, Structural, Debug)]
pub enum StepConfig {
    Shuffle(ShuffleConfig),
    Empty,
}

impl StepCircuit {
    /// The declared output-vector length.
    pub open spec fn arity(self) -> nat {
        match self {
            StepCircuit::Unchained(u) => u.arity as nat,
            StepCircuit::Chained(c) => c.arity(),
            StepCircuit::Trivial(t) => t.arity as nat,
        }
    }

    /// The step data is internally consistent.
    pub open spec fn wf(self) -> bool {
        match self {
            StepCircuit::Unchained(u) => u.wf(),
            StepCircuit::Chained(c) => c.wf(),
            StepCircuit::Trivial(_) => true,
        }
    }

    /// Whether a layout fits this circuit kind.
    pub open spec fn config_matches(self, cfg: StepConfig) -> bool {
        match self {
            StepCircuit::Unchained(_) => cfg is Shuffle,
            StepCircuit::Chained(_) => cfg is Shuffle,
            StepCircuit::Trivial(_) => cfg is Empty,
        }
    }

    /// Build the circuit's shape: the shuffle kinds allocate their four
    /// columns and register the shuffle argument, the trivial kind touches
    /// nothing.
    pub fn configure(&self, meta: &mut ConstraintSystem) -> (r: StepConfig)
        requires
            old(meta).num_advice + 3 <= usize::MAX,
            old(meta).num_fixed < usize::MAX,
            old(meta).num_selectors + 2 <= usize::MAX,
        ensures
            self.config_matches(r),
            match r {
                StepConfig::Shuffle(cfg) => {
                    &&& cfg.wf(*final(meta))
                    &&& final(meta).shuffles@ == old(meta).shuffles@.push(cfg.arg())
                    &&& final(meta).num_advice == old(meta).num_advice + 3
                    &&& final(meta).num_fixed == old(meta).num_fixed + 1
                    &&& final(meta).num_selectors == old(meta).num_selectors + 2
                },
                StepConfig::Empty => *final(meta) == *old(meta),
            },
    {
        match self {
            StepCircuit::Unchained(_) => StepConfig::Shuffle(configure_step_shape(meta)),
            StepCircuit::Chained(_) => StepConfig::Shuffle(configure_step_shape(meta)),
            StepCircuit::Trivial(_) => StepConfig::Empty,
        }
    }
}

/// Load the "load inputs" region from supplied witness values: left witness
/// cell, left constant, and the input selector, row by row.
#[verifier::rlimit(100)]
#[verifier::spinoff_prover]
fn load_inputs_values(
    t: &mut Table,
    cfg: ShuffleConfig,
    vals: &Vec<WitnessValue>,
    consts: &Vec<FieldElem>,
) -> (r: Result<(), SynthesisError>)
    requires
        old(t).wf(),
        arg_fits(cfg.arg(), *old(t)),
        cfg.arg().columns_distinct(),
        vals@.len() == consts@.len(),
    ensures
        final(t).wf(),
        final(t).capacity == old(t).capacity,
        final(t).advice@.len() == old(t).advice@.len(),
        final(t).fixed@.len() == old(t).fixed@.len(),
        final(t).selectors@.len() == old(t).selectors@.len(),
        final(t).copies@ == old(t).copies@,
        forall|row: int|
            0 <= row < old(t).capacity ==> final(t).advice_at(cfg.input_0, row) == (
            if old(t).rows_used <= row < old(t).rows_used + vals@.len() {
                vals@[row - old(t).rows_used]
            } else {
                old(t).advice_at(cfg.input_0, row)
            }),
        forall|row: int|
            0 <= row < old(t).capacity ==> final(t).fixed_at(cfg.input_1, row) == (
            if old(t).rows_used <= row < old(t).rows_used + vals@.len() {
                consts@[row - old(t).rows_used]
            } else {
                old(t).fixed_at(cfg.input_1, row)
            }),
        forall|row: int|
            0 <= row < old(t).capacity ==> final(t).selector_at(cfg.s_input, row) == (
            old(t).selector_at(cfg.s_input, row) || (old(t).rows_used <= row < old(
                t,
            ).rows_used + vals@.len())),
        forall|c: int|
            0 <= c < old(t).advice@.len() && c != cfg.input_0.index
                ==> #[trigger] final(t).advice@[c] == old(t).advice@[c],
        forall|c: int|
            0 <= c < old(t).fixed@.len() && c != cfg.input_1.index
                ==> #[trigger] final(t).fixed@[c] == old(t).fixed@[c],
        forall|c: int|
            0 <= c < old(t).selectors@.len() && c != cfg.s_input.index
                ==> #[trigger] final(t).selectors@[c] == old(t).selectors@[c],
        match r {
            Ok(_) => {
                &&& old(t).rows_used + vals@.len() <= old(t).capacity
                &&& final(t).rows_used == old(t).rows_used + vals@.len()
            },
            Err(e) => {
                &&& e == SynthesisError::RowOutOfCapacity
                &&& old(t).rows_used + vals@.len() > old(t).capacity
            },
        },
{
    let region = t.open_region();
    let ghost t0 = *t;
    let mut i: usize = 0;
    while i < vals.len()
        invariant
            t.wf(),
            arg_fits(cfg.arg(), *t),
            cfg.arg().columns_distinct(),
            vals@.len() == consts@.len(),
            i <= vals@.len(),
            t0 == *old(t),
            region.start == t0.rows_used,
            t.capacity == t0.capacity,
            t.advice@.len() == t0.advice@.len(),
            t.fixed@.len() == t0.fixed@.len(),
            t.selectors@.len() == t0.selectors@.len(),
            t.copies@ == t0.copies@,
            region.start + i <= t.capacity,
            t.rows_used == if i == 0 {
                t0.rows_used as int
            } else {
                region.start + i
            },
            forall|row: int|
                #![trigger t.advice_at(cfg.input_0, row)]
                #![trigger t0.advice_at(cfg.input_0, row)]
                0 <= row < t0.capacity ==> t.advice_at(cfg.input_0, row) == (
                if region.start <= row < region.start + i {
                    vals@[row - region.start]
                } else {
                    t0.advice_at(cfg.input_0, row)
                }),
            forall|row: int|
                #![trigger t.fixed_at(cfg.input_1, row)]
                #![trigger t0.fixed_at(cfg.input_1, row)]
                0 <= row < t0.capacity ==> t.fixed_at(cfg.input_1, row) == (
                if region.start <= row < region.start + i {
                    consts@[row - region.start]
                } else {
                    t0.fixed_at(cfg.input_1, row)
                }),
            forall|row: int|
                #![trigger t.selector_at(cfg.s_input, row)]
                #![trigger t0.selector_at(cfg.s_input, row)]
                0 <= row < t0.capacity ==> t.selector_at(cfg.s_input, row) == (t0.selector_at(
                    cfg.s_input,
                    row,
                ) || (region.start <= row < region.start + i)),
            forall|c: int|
                0 <= c < t0.advice@.len() && c != cfg.input_0.index ==> #[trigger] t.advice@[c]
                    == t0.advice@[c],
            forall|c: int|
                0 <= c < t0.fixed@.len() && c != cfg.input_1.index ==> #[trigger] t.fixed@[c]
                    == t0.fixed@[c],
            forall|c: int|
                0 <= c < t0.selectors@.len() && c != cfg.s_input.index ==> #[trigger] t.selectors@[c]
                    == t0.selectors@[c],
        decreases vals@.len() - i,
    {
        let v = vals[i];
        let ghost t_a = *t;
        t.assign_advice(region, cfg.input_0, i, v)?;
        let k = consts[i];
        t.assign_fixed(region, cfg.input_1, i, k)?;
        t.enable_selector(region, cfg.s_input, i)?;
        i = i + 1;
        proof {
            assert forall|row: int|
                0 <= row < t0.capacity implies t.advice_at(cfg.input_0, row) == (
                if region.start <= row < region.start + i {
                    vals@[row - region.start]
                } else {
                    t0.advice_at(cfg.input_0, row)
                }) by {
                if row == region.start + (i - 1) {
                    assert(t.advice_at(cfg.input_0, row) == v);
                } else {
                    assert(t.advice_at(cfg.input_0, row) == t_a.advice_at(cfg.input_0, row));
                }
            }
            assert forall|row: int|
                0 <= row < t0.capacity implies t.fixed_at(cfg.input_1, row) == (
                if region.start <= row < region.start + i {
                    consts@[row - region.start]
                } else {
                    t0.fixed_at(cfg.input_1, row)
                }) by {
                if row == region.start + (i - 1) {
                    assert(t.fixed_at(cfg.input_1, row) == k);
                } else {
                    assert(t.fixed_at(cfg.input_1, row) == t_a.fixed_at(cfg.input_1, row));
                }
            }
            assert forall|row: int|
                0 <= row < t0.capacity implies t.selector_at(cfg.s_input, row) == (t0.selector_at(
                    cfg.s_input,
                    row,
                ) || (region.start <= row < region.start + i)) by {
                if row == region.start + (i - 1) {
                    assert(t.selector_at(cfg.s_input, row));
                } else {
                    assert(t.selector_at(cfg.s_input, row) == t_a.selector_at(cfg.s_input, row));
                    assert(t_a.selector_at(cfg.s_input, row) == (t0.selector_at(cfg.s_input, row)
                        || (region.start <= row < region.start + (i - 1))));
                }
            }
        }
    }
    Ok(())
}

/// Load the "load inputs" region by copying the prior step's output cells
/// into the left witness column, pairing each with its constant and the
/// input selector. The copy records an equality constraint per row.
#[verifier::rlimit(100)]
#[verifier::spinoff_prover]
fn load_inputs_copies(
    t: &mut Table,
    cfg: ShuffleConfig,
    z_i: &Vec<AssignedCell>,
    consts: &Vec<FieldElem>,
) -> (r: Result<(), SynthesisError>)
    requires
        old(t).wf(),
        arg_fits(cfg.arg(), *old(t)),
        cfg.arg().columns_distinct(),
        z_i@.len() == consts@.len(),
    ensures
        final(t).wf(),
        final(t).capacity == old(t).capacity,
        final(t).advice@.len() == old(t).advice@.len(),
        final(t).fixed@.len() == old(t).fixed@.len(),
        final(t).selectors@.len() == old(t).selectors@.len(),
        forall|row: int|
            0 <= row < old(t).capacity ==> final(t).advice_at(cfg.input_0, row) == (
            if old(t).rows_used <= row < old(t).rows_used + z_i@.len() {
                z_i@[row - old(t).rows_used].value
            } else {
                old(t).advice_at(cfg.input_0, row)
            }),
        forall|row: int|
            0 <= row < old(t).capacity ==> final(t).fixed_at(cfg.input_1, row) == (
            if old(t).rows_used <= row < old(t).rows_used + z_i@.len() {
                consts@[row - old(t).rows_used]
            } else {
                old(t).fixed_at(cfg.input_1, row)
            }),
        forall|row: int|
            0 <= row < old(t).capacity ==> final(t).selector_at(cfg.s_input, row) == (
            old(t).selector_at(cfg.s_input, row) || (old(t).rows_used <= row < old(
                t,
            ).rows_used + z_i@.len())),
        forall|c: int|
            0 <= c < old(t).advice@.len() && c != cfg.input_0.index
                ==> #[trigger] final(t).advice@[c] == old(t).advice@[c],
        forall|c: int|
            0 <= c < old(t).fixed@.len() && c != cfg.input_1.index
                ==> #[trigger] final(t).fixed@[c] == old(t).fixed@[c],
        forall|c: int|
            0 <= c < old(t).selectors@.len() && c != cfg.s_input.index
                ==> #[trigger] final(t).selectors@[c] == old(t).selectors@[c],
        match r {
            Ok(_) => {
                &&& old(t).rows_used + z_i@.len() <= old(t).capacity
                &&& final(t).copies@ == old(t).copies@ + Seq::new(
                    z_i@.len(),
                    |j: int|
                        CopyConstraint {
                            from_column: z_i@[j].column,
                            from_row: z_i@[j].row,
                            to_column: cfg.input_0,
                            to_row: (old(t).rows_used + j) as usize,
                        },
                )
                &&& final(t).rows_used == old(t).rows_used + z_i@.len()
            },
            Err(e) => {
                &&& e == SynthesisError::RowOutOfCapacity
                &&& old(t).rows_used + z_i@.len() > old(t).capacity
                &&& final(t).copies@ == old(t).copies@ + Seq::new(
                    (old(t).capacity - old(t).rows_used) as nat,
                    |j: int|
                        CopyConstraint {
                            from_column: z_i@[j].column,
                            from_row: z_i@[j].row,
                            to_column: cfg.input_0,
                            to_row: (old(t).rows_used + j) as usize,
                        },
                )
            },
        },
{
    let region = t.open_region();
    let ghost t0 = *t;
    let mut i: usize = 0;
    while i < z_i.len()
        invariant
            t.wf(),
            arg_fits(cfg.arg(), *t),
            cfg.arg().columns_distinct(),
            z_i@.len() == consts@.len(),
            i <= z_i@.len(),
            t0 == *old(t),
            region.start == t0.rows_used,
            t.capacity == t0.capacity,
            t.advice@.len() == t0.advice@.len(),
            t.fixed@.len() == t0.fixed@.len(),
            t.selectors@.len() == t0.selectors@.len(),
            region.start + i <= t.capacity,
            t.rows_used == if i == 0 {
                t0.rows_used as int
            } else {
                region.start + i
            },
            t.copies@ == t0.copies@ + Seq::new(
                i as nat,
                |j: int|
                    CopyConstraint {
                        from_column: z_i@[j].column,
                        from_row: z_i@[j].row,
                        to_column: cfg.input_0,
                        to_row: (region.start + j) as usize,
                    },
            ),
            forall|row: int|
                #![trigger t.advice_at(cfg.input_0, row)]
                #![trigger t0.advice_at(cfg.input_0, row)]
                0 <= row < t0.capacity ==> t.advice_at(cfg.input_0, row) == (
                if region.start <= row < region.start + i {
                    z_i@[row - region.start].value
                } else {
                    t0.advice_at(cfg.input_0, row)
                }),
            forall|row: int|
                #![trigger t.fixed_at(cfg.input_1, row)]
                #![trigger t0.fixed_at(cfg.input_1, row)]
                0 <= row < t0.capacity ==> t.fixed_at(cfg.input_1, row) == (
                if region.start <= row < region.start + i {
                    consts@[row - region.start]
                } else {
                    t0.fixed_at(cfg.input_1, row)
                }),
            forall|row: int|
                #![trigger t.selector_at(cfg.s_input, row)]
                #![trigger t0.selector_at(cfg.s_input, row)]
                0 <= row < t0.capacity ==> t.selector_at(cfg.s_input, row) == (t0.selector_at(
                    cfg.s_input,
                    row,
                ) || (region.start <= row < region.start + i)),
            forall|c: int|
                0 <= c < t0.advice@.len() && c != cfg.input_0.index ==> #[trigger] t.advice@[c]
                    == t0.advice@[c],
            forall|c: int|
                0 <= c < t0.fixed@.len() && c != cfg.input_1.index ==> #[trigger] t.fixed@[c]
                    == t0.fixed@[c],
            forall|c: int|
                0 <= c < t0.selectors@.len() && c != cfg.s_input.index ==> #[trigger] t.selectors@[c]
                    == t0.selectors@[c],
        decreases z_i@.len() - i,
    {
        let cell = z_i[i];
        let ghost t_a = *t;
        t.copy_advice(region, &cell, cfg.input_0, i)?;
        let k = consts[i];
        t.assign_fixed(region, cfg.input_1, i, k)?;
        t.enable_selector(region, cfg.s_input, i)?;
        i = i + 1;
        proof {
            assert(t.copies@ =~= t0.copies@ + Seq::new(
                i as nat,
                |j: int|
                    CopyConstraint {
                        from_column: z_i@[j].column,
                        from_row: z_i@[j].row,
                        to_column: cfg.input_0,
                        to_row: (region.start + j) as usize,
                    },
            ));
            assert forall|row: int|
                0 <= row < t0.capacity implies t.advice_at(cfg.input_0, row) == (
                if region.start <= row < region.start + i {
                    z_i@[row - region.start].value
                } else {
                    t0.advice_at(cfg.input_0, row)
                }) by {
                if row == region.start + (i - 1) {
                    assert(t.advice_at(cfg.input_0, row) == cell.value);
                } else {
                    assert(t.advice_at(cfg.input_0, row) == t_a.advice_at(cfg.input_0, row));
                }
            }
            assert forall|row: int|
                0 <= row < t0.capacity implies t.fixed_at(cfg.input_1, row) == (
                if region.start <= row < region.start + i {
                    consts@[row - region.start]
                } else {
                    t0.fixed_at(cfg.input_1, row)
                }) by {
                if row == region.start + (i - 1) {
                    assert(t.fixed_at(cfg.input_1, row) == k);
                } else {
                    assert(t.fixed_at(cfg.input_1, row) == t_a.fixed_at(cfg.input_1, row));
                }
            }
            assert forall|row: int|
                0 <= row < t0.capacity implies t.selector_at(cfg.s_input, row) == (t0.selector_at(
                    cfg.s_input,
                    row,
                ) || (region.start <= row < region.start + i)) by {
                if row == region.start + (i - 1) {
                    assert(t.selector_at(cfg.s_input, row));
                } else {
                    assert(t.selector_at(cfg.s_input, row) == t_a.selector_at(cfg.s_input, row));
                    assert(t_a.selector_at(cfg.s_input, row) == (t0.selector_at(cfg.s_input, row)
                        || (region.start <= row < region.start + (i - 1))));
                }
            }
        }
    }
    Ok(())
}

/// Load the "load shuffles" region: both right witness cells and the
/// shuffle selector, row by row; collect the first column's cells.
#[verifier::rlimit(100)]
#[verifier::spinoff_prover]
fn load_shuffles_region(
    t: &mut Table,
    cfg: ShuffleConfig,
    s0: &Vec<WitnessValue>,
    s1: &Vec<WitnessValue>,
) -> (r: Result<Vec<AssignedCell>, SynthesisError>)
    requires
        old(t).wf(),
        arg_fits(cfg.arg(), *old(t)),
        cfg.arg().columns_distinct(),
        s0@.len() == s1@.len(),
    ensures
        final(t).wf(),
        final(t).capacity == old(t).capacity,
        final(t).advice@.len() == old(t).advice@.len(),
        final(t).fixed@ == old(t).fixed@,
        final(t).selectors@.len() == old(t).selectors@.len(),
        final(t).copies@ == old(t).copies@,
        forall|row: int|
            0 <= row < old(t).capacity ==> final(t).advice_at(cfg.shuffle_0, row) == (
            if old(t).rows_used <= row < old(t).rows_used + s0@.len() {
                s0@[row - old(t).rows_used]
            } else {
                old(t).advice_at(cfg.shuffle_0, row)
            }),
        forall|row: int|
            0 <= row < old(t).capacity ==> final(t).advice_at(cfg.shuffle_1, row) == (
            if old(t).rows_used <= row < old(t).rows_used + s0@.len() {
                s1@[row - old(t).rows_used]
            } else {
                old(t).advice_at(cfg.shuffle_1, row)
            }),
        forall|row: int|
            0 <= row < old(t).capacity ==> final(t).selector_at(cfg.s_shuffle, row) == (
            old(t).selector_at(cfg.s_shuffle, row) || (old(t).rows_used <= row < old(
                t,
            ).rows_used + s0@.len())),
        forall|c: int|
            0 <= c < old(t).advice@.len() && c != cfg.shuffle_0.index && c != cfg.shuffle_1.index
                ==> #[trigger] final(t).advice@[c] == old(t).advice@[c],
        forall|c: int|
            0 <= c < old(t).selectors@.len() && c != cfg.s_shuffle.index
                ==> #[trigger] final(t).selectors@[c] == old(t).selectors@[c],
        match r {
            Ok(cells) => {
                &&& old(t).rows_used + s0@.len() <= old(t).capacity
                &&& cells@.len() == s0@.len()
                &&& forall|j: int|
                    0 <= j < s0@.len() ==> (#[trigger] cells@[j]) == (AssignedCell {
                        column: cfg.shuffle_0,
                        row: (old(t).rows_used + j) as usize,
                        value: s0@[j],
                    })
                &&& final(t).rows_used == old(t).rows_used + s0@.len()
            },
            Err(e) => {
                &&& e == SynthesisError::RowOutOfCapacity
                &&& old(t).rows_used + s0@.len() > old(t).capacity
            },
        },
{
    let region = t.open_region();
    let ghost t0 = *t;
    let mut cells: Vec<AssignedCell> = Vec::new();
    let mut i: usize = 0;
    while i < s0.len()
        invariant
            t.wf(),
            arg_fits(cfg.arg(), *t),
            cfg.arg().columns_distinct(),
            s0@.len() == s1@.len(),
            i <= s0@.len(),
            t0 == *old(t),
            region.start == t0.rows_used,
            t.capacity == t0.capacity,
            t.advice@.len() == t0.advice@.len(),
            t.fixed@ == t0.fixed@,
            t.selectors@.len() == t0.selectors@.len(),
            t.copies@ == t0.copies@,
            region.start + i <= t.capacity,
            t.rows_used == if i == 0 {
                t0.rows_used as int
            } else {
                region.start + i
            },
            cells@.len() == i,
            forall|j: int|
                0 <= j < i ==> (#[trigger] cells@[j]) == (AssignedCell {
                    column: cfg.shuffle_0,
                    row: (region.start + j) as usize,
                    value: s0@[j],
                }),
            forall|row: int|
                #![trigger t.advice_at(cfg.shuffle_0, row)]
                #![trigger t0.advice_at(cfg.shuffle_0, row)]
                0 <= row < t0.capacity ==> t.advice_at(cfg.shuffle_0, row) == (
                if region.start <= row < region.start + i {
                    s0@[row - region.start]
                } else {
                    t0.advice_at(cfg.shuffle_0, row)
                }),
            forall|row: int|
                #![trigger t.advice_at(cfg.shuffle_1, row)]
                #![trigger t0.advice_at(cfg.shuffle_1, row)]
                0 <= row < t0.capacity ==> t.advice_at(cfg.shuffle_1, row) == (
                if region.start <= row < region.start + i {
                    s1@[row - region.start]
                } else {
                    t0.advice_at(cfg.shuffle_1, row)
                }),
            forall|row: int|
                #![trigger t.selector_at(cfg.s_shuffle, row)]
                #![trigger t0.selector_at(cfg.s_shuffle, row)]
                0 <= row < t0.capacity ==> t.selector_at(cfg.s_shuffle, row) == (t0.selector_at(
                    cfg.s_shuffle,
                    row,
                ) || (region.start <= row < region.start + i)),
            forall|c: int|
                0 <= c < t0.advice@.len() && c != cfg.shuffle_0.index && c != cfg.shuffle_1.index
                    ==> #[trigger] t.advice@[c] == t0.advice@[c],
            forall|c: int|
                0 <= c < t0.selectors@.len() && c != cfg.s_shuffle.index
                    ==> #[trigger] t.selectors@[c] == t0.selectors@[c],
        decreases s0@.len() - i,
    {
        let v0 = s0[i];
        let ghost t_a = *t;
        let cell = t.assign_advice(region, cfg.shuffle_0, i, v0)?;
        let v1 = s1[i];
        t.assign_advice(region, cfg.shuffle_1, i, v1)?;
        t.enable_selector(region, cfg.s_shuffle, i)?;
        cells.push(cell);
        i = i + 1;
        proof {
            assert forall|row: int|
                0 <= row < t0.capacity implies t.advice_at(cfg.shuffle_0, row) == (
                if region.start <= row < region.start + i {
                    s0@[row - region.start]
                } else {
                    t0.advice_at(cfg.shuffle_0, row)
                }) by {
                if row == region.start + (i - 1) {
                    assert(t.advice_at(cfg.shuffle_0, row) == v0);
                } else {
                    assert(t.advice_at(cfg.shuffle_0, row) == t_a.advice_at(cfg.shuffle_0, row));
                }
            }
            assert forall|row: int|
                0 <= row < t0.capacity implies t.advice_at(cfg.shuffle_1, row) == (
                if region.start <= row < region.start + i {
                    s1@[row - region.start]
                } else {
                    t0.advice_at(cfg.shuffle_1, row)
                }) by {
                if row == region.start + (i - 1) {
                    assert(t.advice_at(cfg.shuffle_1, row) == v1);
                } else {
                    assert(t.advice_at(cfg.shuffle_1, row) == t_a.advice_at(cfg.shuffle_1, row));
                }
            }
            assert forall|row: int|
                0 <= row < t0.capacity implies t.selector_at(cfg.s_shuffle, row) == (t0.selector_at(
                    cfg.s_shuffle,
                    row,
                ) || (region.start <= row < region.start + i)) by {
                if row == region.start + (i - 1) {
                    assert(t.selector_at(cfg.s_shuffle, row));
                } else {
                    assert(t.selector_at(cfg.s_shuffle, row) == t_a.selector_at(cfg.s_shuffle, row));
                    assert(t_a.selector_at(cfg.s_shuffle, row) == (t0.selector_at(
                        cfg.s_shuffle,
                        row,
                    ) || (region.start <= row < region.start + (i - 1))));
                }
            }
        }
    }
    Ok(cells)
}

/// The plain field values a vector of output cells carries.
pub open spec fn cell_values(cells: Seq<AssignedCell>) -> Seq<FieldElem> {
    Seq::new(cells.len(), |i: int| cells[i].value.value())
}

/// The witness values a vector of output cells carries.
pub open spec fn cell_witness_vals(cells: Seq<AssignedCell>) -> Seq<WitnessValue> {
    Seq::new(cells.len(), |i: int| cells[i].value)
}

/// Every output cell carries a concrete value.
pub open spec fn cells_known(cells: Seq<AssignedCell>) -> bool {
    forall|i: int| 0 <= i < cells.len() ==> (#[trigger] cells[i]).value.is_known()
}

/// Whether a step's witness satisfies the shuffle relation its synthesized
/// table would be checked against: every loaded witness cell known, and the
/// left pair sequence multiset-equal to the right pair sequence once both
/// are padded with the zero pair to the table's row capacity.
pub open spec fn circuit_accepts(c: StepCircuit, z: Seq<FieldElem>, cap: nat) -> bool {
    match c {
        StepCircuit::Unchained(u) => {
            &&& vals_known(u.input_0@)
            &&& vals_known(u.shuffle_0@)
            &&& vals_known(u.shuffle_1@)
            &&& padded(paired_with_consts(u.input_0@, u.input_1@), cap).to_multiset() == padded(
                paired_vals(u.shuffle_0@, u.shuffle_1@),
                cap,
            ).to_multiset()
        },
        StepCircuit::Chained(ch) => {
            &&& vals_known(ch.shuffle_0@)
            &&& vals_known(ch.shuffle_1@)
            &&& padded(const_pairs(z, ch.input_1@), cap).to_multiset() == padded(
                paired_vals(ch.shuffle_0@, ch.shuffle_1@),
                cap,
            ).to_multiset()
        },
        StepCircuit::Trivial(_) => true,
    }
}

/// What a step hands on as the next running output vector: the unchained
/// and trivial kinds echo their input, the chained kind returns its first
/// right-side column in row order.
pub open spec fn step_output(c: StepCircuit, z: Seq<FieldElem>) -> Seq<FieldElem> {
    match c {
        StepCircuit::Unchained(_) => z,
        StepCircuit::Chained(ch) => Seq::new(ch.arity(), |i: int| ch.shuffle_0@[i].value()),
        StepCircuit::Trivial(_) => z,
    }
}

/// Synthesize the unchained shuffle step into a fresh table: both regions
/// loaded from the step's own data; the output cells echo the prior step's.
/// The contract fixes the whole table — each region's cells row by row, the
/// selectors at exactly the loaded rows, every other column untouched, and
/// the loaded prefix on a capacity failure — and the table satisfies the
/// registered shuffle argument exactly when the step's witness is accepted.
#[verifier::rlimit(60)]
pub fn synthesize_unchained(
    u: &UnchainedShuffleCircuit,
    cfg: ShuffleConfig,
    t: &mut Table,
    z_i: &Vec<AssignedCell>,
) -> (r: Result<Vec<AssignedCell>, SynthesisError>)
    requires
        old(t).wf(),
        old(t).fresh(),
        arg_fits(cfg.arg(), *old(t)),
        cfg.arg().columns_distinct(),
    ensures
        final(t).wf(),
        final(t).capacity == old(t).capacity,
        final(t).advice@.len() == old(t).advice@.len(),
        final(t).fixed@.len() == old(t).fixed@.len(),
        final(t).selectors@.len() == old(t).selectors@.len(),
        final(t).copies@ == old(t).copies@,
        match r {
            Ok(z_out) => {
                &&& u.wf()
                &&& u.input_0@.len() + u.shuffle_0@.len() <= old(t).capacity
                &&& z_out@ == z_i@
                &&& loaded_table_shape(
                    cfg,
                    *old(t),
                    *final(t),
                    u.input_0@,
                    u.input_1@,
                    u.shuffle_0@,
                    u.shuffle_1@,
                )
                &&& final(t).rows_used == u.input_0@.len() + u.shuffle_0@.len()
                &&& (shuffle_holds(cfg.arg(), *final(t)) <==> circuit_accepts(
                    StepCircuit::Unchained(*u),
                    cell_values(z_i@),
                    old(t).capacity as nat,
                ))
            },
            Err(e) => match e {
                SynthesisError::WitnessLengthMismatch => !u.wf() && *final(t) == *old(t),
                SynthesisError::RowOutOfCapacity => {
                    &&& u.wf()
                    &&& u.input_0@.len() + u.shuffle_0@.len() > old(t).capacity
                    &&& loaded_table_shape(
                        cfg,
                        *old(t),
                        *final(t),
                        u.input_0@,
                        u.input_1@,
                        u.shuffle_0@,
                        u.shuffle_1@,
                    )
                },
                SynthesisError::LayoutMismatch => false,
            },
        },
{
    if u.input_0.len() != u.input_1.len() || u.shuffle_0.len() != u.shuffle_1.len() {
        return Err(SynthesisError::WitnessLengthMismatch);
    }
    let ghost t0 = *t;
    match load_inputs_values(t, cfg, &u.input_0, &u.input_1) {
        Ok(_) => {},
        Err(e) => {
            proof {
                lemma_region1_failed_shape(
                    cfg,
                    t0,
                    *t,
                    u.input_0@,
                    u.input_1@,
                    u.shuffle_0@,
                    u.shuffle_1@,
                );
            }
            return Err(e);
        },
    }
    let ghost t1 = *t;
    match load_shuffles_region(t, cfg, &u.shuffle_0, &u.shuffle_1) {
        Ok(_) => {},
        Err(e) => {
            proof {
                lemma_loaded_shape(
                    cfg,
                    t0,
                    t1,
                    *t,
                    u.input_0@,
                    u.input_1@,
                    u.shuffle_0@,
                    u.shuffle_1@,
                );
            }
            return Err(e);
        },
    }
    proof {
        lemma_loaded_shape(cfg, t0, t1, *t, u.input_0@, u.input_1@, u.shuffle_0@, u.shuffle_1@);
        lemma_two_regions_bridge(cfg, t0, t1, *t, u.input_0@, u.input_1@, u.shuffle_0@, u.shuffle_1@);
    }
    let mut z_out: Vec<AssignedCell> = Vec::new();
    let mut i: usize = 0;
    while i < z_i.len()
        invariant
            z_out@ == z_i@.subrange(0, i as int),
            i <= z_i@.len(),
        decreases z_i@.len() - i,
    {
        z_out.push(z_i[i]);
        i = i + 1;
    }
    proof {
        assert(z_out@ =~= z_i@);
    }
    Ok(z_out)
}

/// Synthesize the chained shuffle step into a fresh table: the prior
/// step's output cells are copied into the left witness column and paired
/// with the constants, the right side is loaded from the step's witness,
/// and the collected first right-column cells are the next output vector.
/// The contract fixes the whole table — each region's cells row by row, the
/// selectors at exactly the loaded rows, every other column untouched, the
/// recorded copy wiring, and the loaded prefix on a capacity failure.
#[verifier::rlimit(60)]
pub fn synthesize_chained(
    ch: &ChainedShuffleCircuit,
    cfg: ShuffleConfig,
    t: &mut Table,
    z_i: &Vec<AssignedCell>,
) -> (r: Result<Vec<AssignedCell>, SynthesisError>)
    requires
        old(t).wf(),
        old(t).fresh(),
        arg_fits(cfg.arg(), *old(t)),
        cfg.arg().columns_distinct(),
        z_i@.len() == ch.arity(),
    ensures
        final(t).wf(),
        final(t).capacity == old(t).capacity,
        final(t).advice@.len() == old(t).advice@.len(),
        final(t).fixed@.len() == old(t).fixed@.len(),
        final(t).selectors@.len() == old(t).selectors@.len(),
        match r {
            Ok(z_out) => {
                &&& ch.wf()
                &&& 2 * ch.arity() <= old(t).capacity
                &&& z_out@.len() == ch.arity()
                &&& forall|j: int|
                    0 <= j < ch.arity() ==> (#[trigger] z_out@[j]) == (AssignedCell {
                        column: cfg.shuffle_0,
                        row: (ch.arity() + j) as usize,
                        value: ch.shuffle_0@[j],
                    })
                &&& cell_values(z_out@) == step_output(StepCircuit::Chained(*ch), cell_values(z_i@))
                &&& forall|j: int|
                    0 <= j < ch.arity() ==> final(t).advice_at(cfg.input_0, j) == (
                    #[trigger] z_i@[j]).value
                &&& loaded_table_shape(
                    cfg,
                    *old(t),
                    *final(t),
                    cell_witness_vals(z_i@),
                    ch.input_1@,
                    ch.shuffle_0@,
                    ch.shuffle_1@,
                )
                &&& final(t).rows_used == 2 * ch.arity()
                &&& final(t).copies@ == old(t).copies@ + Seq::new(
                    ch.arity(),
                    |j: int|
                        CopyConstraint {
                            from_column: z_i@[j].column,
                            from_row: z_i@[j].row,
                            to_column: cfg.input_0,
                            to_row: j as usize,
                        },
                )
                &&& (shuffle_holds(cfg.arg(), *final(t)) <==> (cells_known(z_i@)
                    && circuit_accepts(
                    StepCircuit::Chained(*ch),
                    cell_values(z_i@),
                    old(t).capacity as nat,
                )))
            },
            Err(e) => match e {
                SynthesisError::WitnessLengthMismatch => !ch.wf() && *final(t) == *old(t),
                SynthesisError::RowOutOfCapacity => {
                    &&& ch.wf()
                    &&& 2 * ch.arity() > old(t).capacity
                    &&& loaded_table_shape(
                        cfg,
                        *old(t),
                        *final(t),
                        cell_witness_vals(z_i@),
                        ch.input_1@,
                        ch.shuffle_0@,
                        ch.shuffle_1@,
                    )
                    &&& final(t).copies@ == old(t).copies@ + Seq::new(
                        if ch.arity() <= old(t).capacity {
                            ch.arity()
                        } else {
                            old(t).capacity as nat
                        },
                        |j: int|
                            CopyConstraint {
                                from_column: z_i@[j].column,
                                from_row: z_i@[j].row,
                                to_column: cfg.input_0,
                                to_row: j as usize,
                            },
                    )
                },
                SynthesisError::LayoutMismatch => false,
            },
        },
{
    if ch.shuffle_0.len() != ch.input_1.len() || ch.shuffle_1.len() != ch.input_1.len() {
        return Err(SynthesisError::WitnessLengthMismatch);
    }
    let ghost t0 = *t;
    match load_inputs_copies(t, cfg, z_i, &ch.input_1) {
        Ok(_) => {},
        Err(e) => {
            proof {
                assert(cell_witness_vals(z_i@).len() == z_i@.len());
                assert forall|row: int|
                    0 <= row < t0.capacity implies t.advice_at(cfg.input_0, row) == (
                    if t0.rows_used <= row < t0.rows_used + cell_witness_vals(z_i@).len() {
                        cell_witness_vals(z_i@)[row - t0.rows_used]
                    } else {
                        t0.advice_at(cfg.input_0, row)
                    }) by {
                    if t0.rows_used <= row < t0.rows_used + z_i@.len() {
                        assert(cell_witness_vals(z_i@)[row - t0.rows_used] == z_i@[row
                            - t0.rows_used].value);
                    }
                }
                lemma_region1_failed_shape(
                    cfg,
                    t0,
                    *t,
                    cell_witness_vals(z_i@),
                    ch.input_1@,
                    ch.shuffle_0@,
                    ch.shuffle_1@,
                );
                assert(t.copies@ =~= t0.copies@ + Seq::new(
                    if ch.arity() <= t0.capacity {
                        ch.arity()
                    } else {
                        t0.capacity as nat
                    },
                    |j: int|
                        CopyConstraint {
                            from_column: z_i@[j].column,
                            from_row: z_i@[j].row,
                            to_column: cfg.input_0,
                            to_row: j as usize,
                        },
                ));
            }
            return Err(e);
        },
    }
    let ghost t1 = *t;
    proof {
        assert(cell_witness_vals(z_i@).len() == z_i@.len());
        assert forall|row: int| 0 <= row < t0.capacity implies t1.advice_at(cfg.input_0, row) == (
        if t0.rows_used <= row < t0.rows_used + cell_witness_vals(z_i@).len() {
            cell_witness_vals(z_i@)[row - t0.rows_used]
        } else {
            t0.advice_at(cfg.input_0, row)
        }) by {
            if t0.rows_used <= row < t0.rows_used + z_i@.len() {
                assert(cell_witness_vals(z_i@)[row - t0.rows_used] == z_i@[row
                    - t0.rows_used].value);
            }
        }
    }
    let cells = match load_shuffles_region(t, cfg, &ch.shuffle_0, &ch.shuffle_1) {
        Ok(c) => c,
        Err(e) => {
            proof {
                lemma_loaded_shape(
                    cfg,
                    t0,
                    t1,
                    *t,
                    cell_witness_vals(z_i@),
                    ch.input_1@,
                    ch.shuffle_0@,
                    ch.shuffle_1@,
                );
                assert(t.copies@ =~= t0.copies@ + Seq::new(
                    if ch.arity() <= t0.capacity {
                        ch.arity()
                    } else {
                        t0.capacity as nat
                    },
                    |j: int|
                        CopyConstraint {
                            from_column: z_i@[j].column,
                            from_row: z_i@[j].row,
                            to_column: cfg.input_0,
                            to_row: j as usize,
                        },
                ));
            }
            return Err(e);
        },
    };
    proof {
        lemma_loaded_shape(
            cfg,
            t0,
            t1,
            *t,
            cell_witness_vals(z_i@),
            ch.input_1@,
            ch.shuffle_0@,
            ch.shuffle_1@,
        );
        lemma_two_regions_bridge(
            cfg,
            t0,
            t1,
            *t,
            cell_witness_vals(z_i@),
            ch.input_1@,
            ch.shuffle_0@,
            ch.shuffle_1@,
        );
        assert(paired_with_consts(cell_witness_vals(z_i@), ch.input_1@) =~= const_pairs(
            cell_values(z_i@),
            ch.input_1@,
        ));
        assert(vals_known(cell_witness_vals(z_i@)) == cells_known(z_i@)) by {
            if vals_known(cell_witness_vals(z_i@)) {
                assert forall|j: int| 0 <= j < z_i@.len() implies (
                #[trigger] z_i@[j]).value.is_known() by {
                    assert(cell_witness_vals(z_i@)[j].is_known());
                }
            }
            if cells_known(z_i@) {
                assert forall|j: int|
                    0 <= j < cell_witness_vals(z_i@).len() implies (#[trigger] cell_witness_vals(
                    z_i@,
                )[j]).is_known() by {
                    assert(z_i@[j].value.is_known());
                }
            }
        }
        assert(cell_values(cells@) =~= step_output(StepCircuit::Chained(*ch), cell_values(z_i@)));
        assert forall|j: int| 0 <= j < ch.arity() implies t.advice_at(cfg.input_0, j) == (
        #[trigger] z_i@[j]).value by {
            assert(t.advice@[cfg.input_0.index as int] == t1.advice@[cfg.input_0.index as int]);
            assert(t1.advice_at(cfg.input_0, j) == z_i@[j].value);
        }
        assert(t.copies@ =~= t0.copies@ + Seq::new(
            ch.arity(),
            |j: int|
                CopyConstraint {
                    from_column: z_i@[j].column,
                    from_row: z_i@[j].row,
                    to_column: cfg.input_0,
                    to_row: j as usize,
                },
        ));
        assert forall|j: int| 0 <= j < ch.arity() implies (#[trigger] cells@[j]) == (AssignedCell {
            column: cfg.shuffle_0,
            row: (ch.arity() + j) as usize,
            value: ch.shuffle_0@[j],
        }) by {
            assert(cells@[j] == AssignedCell {
                column: cfg.shuffle_0,
                row: (t1.rows_used + j) as usize,
                value: ch.shuffle_0@[j],
            });
            assert(t1.rows_used == ch.arity());
        }
    }
    Ok(cells)
}

/// Synthesize the trivial step: nothing is assigned and the prior step's
/// output cells pass through unchanged.
pub fn synthesize_trivial(t_c: &TrivialCircuit, z_i: &Vec<AssignedCell>) -> (r: Vec<AssignedCell>)
    ensures
        r@ == z_i@,
{
    let mut z_out: Vec<AssignedCell> = Vec::new();
    let mut i: usize = 0;
    while i < z_i.len()
        invariant
            z_out@ == z_i@.subrange(0, i as int),
            i <= z_i@.len(),
        decreases z_i@.len() - i,
    {
        z_out.push(z_i[i]);
        i = i + 1;
    }
    proof {
        assert(z_out@ =~= z_i@);
    }
    z_out
}

/// The full table state one step's synthesis leaves behind, relative to
/// the fresh table it started from: the left witness values and constants
/// stand on the leading rows paired with the input selector enabled there
/// and nowhere else, the right witness pair stands on the rows right after
/// with the shuffle selector enabled there and nowhere else, every cell
/// outside the six configured columns is untouched, and rows past the
/// capacity are never written. On a capacity failure the same clauses
/// describe the loaded prefix: assignment stops at the first failing row
/// and a later region is never entered.
pub open spec fn loaded_table_shape(
    cfg: ShuffleConfig,
    t0: Table,
    t: Table,
    lvals: Seq<WitnessValue>,
    lconsts: Seq<FieldElem>,
    r0vals: Seq<WitnessValue>,
    r1vals: Seq<WitnessValue>,
) -> bool {
    &&& forall|row: int|
        #![trigger t.advice_at(cfg.input_0, row)]
        0 <= row < t0.capacity ==> t.advice_at(cfg.input_0, row) == (
        if 0 <= row < lvals.len() {
            lvals[row]
        } else {
            t0.advice_at(cfg.input_0, row)
        })
    &&& forall|row: int|
        #![trigger t.fixed_at(cfg.input_1, row)]
        0 <= row < t0.capacity ==> t.fixed_at(cfg.input_1, row) == (
        if 0 <= row < lconsts.len() {
            lconsts[row]
        } else {
            t0.fixed_at(cfg.input_1, row)
        })
    &&& forall|row: int|
        #![trigger t.advice_at(cfg.shuffle_0, row)]
        0 <= row < t0.capacity ==> t.advice_at(cfg.shuffle_0, row) == (
        if lvals.len() <= row < lvals.len() + r0vals.len() {
            r0vals[row - lvals.len()]
        } else {
            t0.advice_at(cfg.shuffle_0, row)
        })
    &&& forall|row: int|
        #![trigger t.advice_at(cfg.shuffle_1, row)]
        0 <= row < t0.capacity ==> t.advice_at(cfg.shuffle_1, row) == (
        if lvals.len() <= row < lvals.len() + r1vals.len() {
            r1vals[row - lvals.len()]
        } else {
            t0.advice_at(cfg.shuffle_1, row)
        })
    &&& forall|row: int|
        #![trigger t.selector_at(cfg.s_input, row)]
        0 <= row < t0.capacity ==> t.selector_at(cfg.s_input, row) == (0 <= row < lvals.len())
    &&& forall|row: int|
        #![trigger t.selector_at(cfg.s_shuffle, row)]
        0 <= row < t0.capacity ==> t.selector_at(cfg.s_shuffle, row) == (lvals.len() <= row
            < lvals.len() + r0vals.len())
    &&& forall|c: int|
        0 <= c < t0.advice@.len() && c != cfg.input_0.index && c != cfg.shuffle_0.index && c
            != cfg.shuffle_1.index ==> #[trigger] t.advice@[c] == t0.advice@[c]
    &&& forall|c: int|
        0 <= c < t0.fixed@.len() && c != cfg.input_1.index ==> #[trigger] t.fixed@[c]
            == t0.fixed@[c]
    &&& forall|c: int|
        0 <= c < t0.selectors@.len() && c != cfg.s_input.index && c != cfg.s_shuffle.index
            ==> #[trigger] t.selectors@[c] == t0.selectors@[c]
}

/// Lift the two region postconditions over a fresh table to the public
/// table-shape statement.
proof fn lemma_loaded_shape(
    cfg: ShuffleConfig,
    t0: Table,
    t1: Table,
    t2: Table,
    lvals: Seq<WitnessValue>,
    lconsts: Seq<FieldElem>,
    r0vals: Seq<WitnessValue>,
    r1vals: Seq<WitnessValue>,
)
    requires
        t0.wf(),
        t0.fresh(),
        arg_fits(cfg.arg(), t0),
        cfg.arg().columns_distinct(),
        lvals.len() == lconsts.len(),
        r0vals.len() == r1vals.len(),
        t1.wf(),
        t1.capacity == t0.capacity,
        t1.advice@.len() == t0.advice@.len(),
        t1.fixed@.len() == t0.fixed@.len(),
        t1.selectors@.len() == t0.selectors@.len(),
        t1.rows_used == lvals.len(),
        forall|row: int|
            0 <= row < t0.capacity ==> t1.advice_at(cfg.input_0, row) == (
            if t0.rows_used <= row < t0.rows_used + lvals.len() {
                lvals[row - t0.rows_used]
            } else {
                t0.advice_at(cfg.input_0, row)
            }),
        forall|row: int|
            0 <= row < t0.capacity ==> t1.fixed_at(cfg.input_1, row) == (
            if t0.rows_used <= row < t0.rows_used + lconsts.len() {
                lconsts[row - t0.rows_used]
            } else {
                t0.fixed_at(cfg.input_1, row)
            }),
        forall|row: int|
            0 <= row < t0.capacity ==> t1.selector_at(cfg.s_input, row) == (t0.selector_at(
                cfg.s_input,
                row,
            ) || (t0.rows_used <= row < t0.rows_used + lvals.len())),
        forall|c: int|
            0 <= c < t0.advice@.len() && c != cfg.input_0.index ==> #[trigger] t1.advice@[c]
                == t0.advice@[c],
        forall|c: int|
            0 <= c < t0.fixed@.len() && c != cfg.input_1.index ==> #[trigger] t1.fixed@[c]
                == t0.fixed@[c],
        forall|c: int|
            0 <= c < t0.selectors@.len() && c != cfg.s_input.index ==> #[trigger] t1.selectors@[c]
                == t0.selectors@[c],
        t2.wf(),
        t2.capacity == t1.capacity,
        t2.advice@.len() == t1.advice@.len(),
        t2.fixed@ == t1.fixed@,
        t2.selectors@.len() == t1.selectors@.len(),
        forall|row: int|
            0 <= row < t1.capacity ==> t2.advice_at(cfg.shuffle_0, row) == (
            if t1.rows_used <= row < t1.rows_used + r0vals.len() {
                r0vals[row - t1.rows_used]
            } else {
                t1.advice_at(cfg.shuffle_0, row)
            }),
        forall|row: int|
            0 <= row < t1.capacity ==> t2.advice_at(cfg.shuffle_1, row) == (
            if t1.rows_used <= row < t1.rows_used + r0vals.len() {
                r1vals[row - t1.rows_used]
            } else {
                t1.advice_at(cfg.shuffle_1, row)
            }),
        forall|row: int|
            0 <= row < t1.capacity ==> t2.selector_at(cfg.s_shuffle, row) == (t1.selector_at(
                cfg.s_shuffle,
                row,
            ) || (t1.rows_used <= row < t1.rows_used + r0vals.len())),
        forall|c: int|
            0 <= c < t1.advice@.len() && c != cfg.shuffle_0.index && c != cfg.shuffle_1.index
                ==> #[trigger] t2.advice@[c] == t1.advice@[c],
        forall|c: int|
            0 <= c < t1.selectors@.len() && c != cfg.s_shuffle.index ==> #[trigger] t2.selectors@[c]
                == t1.selectors@[c],
    ensures
        loaded_table_shape(cfg, t0, t2, lvals, lconsts, r0vals, r1vals),
{
    let ll = lvals.len() as int;
    let lr = r0vals.len() as int;
    assert forall|row: int| 0 <= row < t0.capacity implies t2.advice_at(cfg.input_0, row) == (
    if 0 <= row < ll {
        lvals[row]
    } else {
        t0.advice_at(cfg.input_0, row)
    }) by {
        assert(t2.advice@[cfg.input_0.index as int] == t1.advice@[cfg.input_0.index as int]);
        assert(t1.advice_at(cfg.input_0, row) == (if 0 <= row < ll {
            lvals[row]
        } else {
            t0.advice_at(cfg.input_0, row)
        }));
    }
    assert forall|row: int| 0 <= row < t0.capacity implies t2.fixed_at(cfg.input_1, row) == (
    if 0 <= row < lconsts.len() {
        lconsts[row]
    } else {
        t0.fixed_at(cfg.input_1, row)
    }) by {
        assert(t2.fixed@[cfg.input_1.index as int] == t1.fixed@[cfg.input_1.index as int]);
        assert(t1.fixed_at(cfg.input_1, row) == (if 0 <= row < lconsts.len() {
            lconsts[row]
        } else {
            t0.fixed_at(cfg.input_1, row)
        }));
    }
    assert forall|row: int| 0 <= row < t0.capacity implies t2.advice_at(cfg.shuffle_0, row) == (
    if ll <= row < ll + lr {
        r0vals[row - ll]
    } else {
        t0.advice_at(cfg.shuffle_0, row)
    }) by {
        if !(ll <= row < ll + lr) {
            assert(t2.advice_at(cfg.shuffle_0, row) == t1.advice_at(cfg.shuffle_0, row));
            assert(t1.advice@[cfg.shuffle_0.index as int] == t0.advice@[cfg.shuffle_0.index as int]);
        }
    }
    assert forall|row: int| 0 <= row < t0.capacity implies t2.advice_at(cfg.shuffle_1, row) == (
    if ll <= row < ll + r1vals.len() {
        r1vals[row - ll]
    } else {
        t0.advice_at(cfg.shuffle_1, row)
    }) by {
        if !(ll <= row < ll + lr) {
            assert(t2.advice_at(cfg.shuffle_1, row) == t1.advice_at(cfg.shuffle_1, row));
            assert(t1.advice@[cfg.shuffle_1.index as int] == t0.advice@[cfg.shuffle_1.index as int]);
        }
    }
    assert forall|row: int| 0 <= row < t0.capacity implies t2.selector_at(cfg.s_input, row) == (0
        <= row < ll) by {
        assert(t2.selectors@[cfg.s_input.index as int] == t1.selectors@[cfg.s_input.index as int]);
        assert(t1.selector_at(cfg.s_input, row) == (t0.selector_at(cfg.s_input, row) || (0 <= row
            < ll)));
        assert(t0.selectors@[cfg.s_input.index as int]@[row] == false);
    }
    assert forall|row: int| 0 <= row < t0.capacity implies t2.selector_at(cfg.s_shuffle, row) == (
    ll <= row < ll + lr) by {
        assert(t2.selector_at(cfg.s_shuffle, row) == (t1.selector_at(cfg.s_shuffle, row) || (ll
            <= row < ll + lr)));
        assert(t1.selectors@[cfg.s_shuffle.index as int] == t0.selectors@[cfg.s_shuffle.index as int]);
        assert(t0.selectors@[cfg.s_shuffle.index as int]@[row] == false);
    }
    assert forall|c: int|
        0 <= c < t0.advice@.len() && c != cfg.input_0.index && c != cfg.shuffle_0.index && c
            != cfg.shuffle_1.index implies #[trigger] t2.advice@[c] == t0.advice@[c] by {
        assert(t2.advice@[c] == t1.advice@[c]);
    }
    assert forall|c: int|
        0 <= c < t0.fixed@.len() && c != cfg.input_1.index implies #[trigger] t2.fixed@[c]
            == t0.fixed@[c] by {
        assert(t2.fixed@[c] == t1.fixed@[c]);
    }
    assert forall|c: int|
        0 <= c < t0.selectors@.len() && c != cfg.s_input.index && c != cfg.s_shuffle.index
            implies #[trigger] t2.selectors@[c] == t0.selectors@[c] by {
        assert(t2.selectors@[c] == t1.selectors@[c]);
    }
}

/// Lift a first-region capacity failure to the public table-shape
/// statement: the left prefix up to the capacity is loaded and the shuffle
/// region is never entered.
proof fn lemma_region1_failed_shape(
    cfg: ShuffleConfig,
    t0: Table,
    t: Table,
    lvals: Seq<WitnessValue>,
    lconsts: Seq<FieldElem>,
    r0vals: Seq<WitnessValue>,
    r1vals: Seq<WitnessValue>,
)
    requires
        t0.wf(),
        t0.fresh(),
        arg_fits(cfg.arg(), t0),
        cfg.arg().columns_distinct(),
        lvals.len() == lconsts.len(),
        lvals.len() > t0.capacity,
        t.wf(),
        t.capacity == t0.capacity,
        t.advice@.len() == t0.advice@.len(),
        t.fixed@.len() == t0.fixed@.len(),
        t.selectors@.len() == t0.selectors@.len(),
        forall|row: int|
            0 <= row < t0.capacity ==> t.advice_at(cfg.input_0, row) == (
            if t0.rows_used <= row < t0.rows_used + lvals.len() {
                lvals[row - t0.rows_used]
            } else {
                t0.advice_at(cfg.input_0, row)
            }),
        forall|row: int|
            0 <= row < t0.capacity ==> t.fixed_at(cfg.input_1, row) == (
            if t0.rows_used <= row < t0.rows_used + lconsts.len() {
                lconsts[row - t0.rows_used]
            } else {
                t0.fixed_at(cfg.input_1, row)
            }),
        forall|row: int|
            0 <= row < t0.capacity ==> t.selector_at(cfg.s_input, row) == (t0.selector_at(
                cfg.s_input,
                row,
            ) || (t0.rows_used <= row < t0.rows_used + lvals.len())),
        forall|c: int|
            0 <= c < t0.advice@.len() && c != cfg.input_0.index ==> #[trigger] t.advice@[c]
                == t0.advice@[c],
        forall|c: int|
            0 <= c < t0.fixed@.len() && c != cfg.input_1.index ==> #[trigger] t.fixed@[c]
                == t0.fixed@[c],
        forall|c: int|
            0 <= c < t0.selectors@.len() && c != cfg.s_input.index ==> #[trigger] t.selectors@[c]
                == t0.selectors@[c],
    ensures
        loaded_table_shape(cfg, t0, t, lvals, lconsts, r0vals, r1vals),
{
    let ll = lvals.len() as int;
    let lr = r0vals.len() as int;
    assert forall|row: int| 0 <= row < t0.capacity implies t.advice_at(cfg.input_0, row) == (
    if 0 <= row < ll {
        lvals[row]
    } else {
        t0.advice_at(cfg.input_0, row)
    }) by {
        assert(t.advice_at(cfg.input_0, row) == lvals[row]);
    }
    assert forall|row: int| 0 <= row < t0.capacity implies t.fixed_at(cfg.input_1, row) == (
    if 0 <= row < lconsts.len() {
        lconsts[row]
    } else {
        t0.fixed_at(cfg.input_1, row)
    }) by {
        assert(t.fixed_at(cfg.input_1, row) == lconsts[row]);
    }
    assert forall|row: int| 0 <= row < t0.capacity implies t.advice_at(cfg.shuffle_0, row) == (
    if ll <= row < ll + lr {
        r0vals[row - ll]
    } else {
        t0.advice_at(cfg.shuffle_0, row)
    }) by {
        assert(t.advice@[cfg.shuffle_0.index as int] == t0.advice@[cfg.shuffle_0.index as int]);
    }
    assert forall|row: int| 0 <= row < t0.capacity implies t.advice_at(cfg.shuffle_1, row) == (
    if ll <= row < ll + r1vals.len() {
        r1vals[row - ll]
    } else {
        t0.advice_at(cfg.shuffle_1, row)
    }) by {
        assert(t.advice@[cfg.shuffle_1.index as int] == t0.advice@[cfg.shuffle_1.index as int]);
    }
    assert forall|row: int| 0 <= row < t0.capacity implies t.selector_at(cfg.s_input, row) == (0
        <= row < ll) by {
        assert(t0.selectors@[cfg.s_input.index as int]@[row] == false);
    }
    assert forall|row: int| 0 <= row < t0.capacity implies t.selector_at(cfg.s_shuffle, row) == (
    ll <= row < ll + lr) by {
        assert(t.selectors@[cfg.s_shuffle.index as int] == t0.selectors@[cfg.s_shuffle.index as int]);
        assert(t0.selectors@[cfg.s_shuffle.index as int]@[row] == false);
    }
}

/// Combine the two region postconditions over a fresh table into the
/// premises of the padded-stream reduction, and apply it.
proof fn lemma_two_regions_bridge(
    cfg: ShuffleConfig,
    t0: Table,
    t1: Table,
    t2: Table,
    lvals: Seq<WitnessValue>,
    lconsts: Seq<FieldElem>,
    r0vals: Seq<WitnessValue>,
    r1vals: Seq<WitnessValue>,
)
    requires
        t0.wf(),
        t0.fresh(),
        arg_fits(cfg.arg(), t0),
        cfg.arg().columns_distinct(),
        lvals.len() == lconsts.len(),
        r0vals.len() == r1vals.len(),
        t1.wf(),
        t1.capacity == t0.capacity,
        t1.advice@.len() == t0.advice@.len(),
        t1.fixed@.len() == t0.fixed@.len(),
        t1.selectors@.len() == t0.selectors@.len(),
        lvals.len() <= t0.capacity,
        forall|row: int|
            0 <= row < t0.capacity ==> t1.advice_at(cfg.input_0, row) == (
            if 0 <= row < lvals.len() {
                lvals[row]
            } else {
                t0.advice_at(cfg.input_0, row)
            }),
        forall|row: int|
            0 <= row < t0.capacity ==> t1.fixed_at(cfg.input_1, row) == (
            if 0 <= row < lvals.len() {
                lconsts[row]
            } else {
                t0.fixed_at(cfg.input_1, row)
            }),
        forall|row: int|
            0 <= row < t0.capacity ==> t1.selector_at(cfg.s_input, row) == (t0.selector_at(
                cfg.s_input,
                row,
            ) || (0 <= row < lvals.len())),
        forall|c: int|
            0 <= c < t0.selectors@.len() && c != cfg.s_input.index ==> #[trigger] t1.selectors@[c]
                == t0.selectors@[c],
        t1.rows_used == lvals.len(),
        t2.wf(),
        t2.capacity == t1.capacity,
        t2.advice@.len() == t1.advice@.len(),
        t2.fixed@ == t1.fixed@,
        t2.selectors@.len() == t1.selectors@.len(),
        lvals.len() + r0vals.len() <= t1.capacity,
        forall|row: int|
            0 <= row < t1.capacity ==> t2.advice_at(cfg.shuffle_0, row) == (
            if lvals.len() <= row < lvals.len() + r0vals.len() {
                r0vals[row - lvals.len()]
            } else {
                t1.advice_at(cfg.shuffle_0, row)
            }),
        forall|row: int|
            0 <= row < t1.capacity ==> t2.advice_at(cfg.shuffle_1, row) == (
            if lvals.len() <= row < lvals.len() + r0vals.len() {
                r1vals[row - lvals.len()]
            } else {
                t1.advice_at(cfg.shuffle_1, row)
            }),
        forall|row: int|
            0 <= row < t1.capacity ==> t2.selector_at(cfg.s_shuffle, row) == (t1.selector_at(
                cfg.s_shuffle,
                row,
            ) || (lvals.len() <= row < lvals.len() + r0vals.len())),
        forall|c: int|
            0 <= c < t1.advice@.len() && c != cfg.shuffle_0.index && c != cfg.shuffle_1.index
                ==> #[trigger] t2.advice@[c] == t1.advice@[c],
        forall|c: int|
            0 <= c < t1.selectors@.len() && c != cfg.s_shuffle.index ==> #[trigger] t2.selectors@[c]
                == t1.selectors@[c],
    ensures
        shuffle_holds(cfg.arg(), t2) <==> {
            &&& vals_known(lvals)
            &&& vals_known(r0vals)
            &&& vals_known(r1vals)
            &&& padded(paired_with_consts(lvals, lconsts), t2.capacity as nat).to_multiset()
                == padded(paired_vals(r0vals, r1vals), t2.capacity as nat).to_multiset()
        },
{
    let arg = cfg.arg();
    let ll = lvals.len() as int;
    let lr = r0vals.len() as int;
    assert forall|row: int| 0 <= row < t2.capacity implies t2.selector_at(arg.s_input, row) == (0
        <= row < ll) by {
        assert(t2.selectors@[cfg.s_input.index as int] == t1.selectors@[cfg.s_input.index as int]);
        assert(t1.selector_at(cfg.s_input, row) == (t0.selector_at(cfg.s_input, row) || (0 <= row
            < ll)));
        assert(t0.selectors@[cfg.s_input.index as int]@[row] == false);
    }
    assert forall|row: int| 0 <= row < t2.capacity implies t2.selector_at(arg.s_shuffle, row) == (
    ll <= row < ll + lr) by {
        assert(t2.selector_at(cfg.s_shuffle, row) == (t1.selector_at(cfg.s_shuffle, row) || (ll
            <= row < ll + lr)));
        assert(t1.selectors@[cfg.s_shuffle.index as int] == t0.selectors@[cfg.s_shuffle.index as int]);
        assert(t0.selectors@[cfg.s_shuffle.index as int]@[row] == false);
    }
    assert forall|i: int| 0 <= i < lvals.len() implies t2.advice_at(arg.input_0, i) == lvals[i] by {
        assert(t2.advice@[cfg.input_0.index as int] == t1.advice@[cfg.input_0.index as int]);
        assert(t1.advice_at(cfg.input_0, i) == lvals[i]);
    }
    assert forall|i: int| 0 <= i < lconsts.len() implies t2.fixed_at(arg.input_1, i)
        == lconsts[i] by {
        assert(t1.fixed_at(cfg.input_1, i) == lconsts[i]);
    }
    assert forall|i: int| 0 <= i < r0vals.len() implies t2.advice_at(arg.shuffle_0, lvals.len() + i)
        == r0vals[i] by {
        assert(0 <= ll + i < t1.capacity);
        assert(t2.advice_at(cfg.shuffle_0, ll + i) == r0vals[ll + i - lvals.len()]);
    }
    assert forall|i: int| 0 <= i < r1vals.len() implies t2.advice_at(arg.shuffle_1, lvals.len() + i)
        == r1vals[i] by {
        assert(0 <= ll + i < t1.capacity);
        assert(t2.advice_at(cfg.shuffle_1, ll + i) == r1vals[ll + i - lvals.len()]);
    }
    lemma_holds_iff_padded(arg, t2, lvals, lconsts, r0vals, r1vals);
}

/// Completeness: an unchained shuffle step whose right-side pairs are its
/// left-side pairs reordered by any permutation of the rows is accepted.
pub proof fn lemma_unchained_completeness(
    u: UnchainedShuffleCircuit,
    z: Seq<FieldElem>,
    cap: nat,
    perm: Seq<int>,
)
    requires
        u.wf(),
        vals_known(u.input_0@),
        vals_known(u.shuffle_0@),
        vals_known(u.shuffle_1@),
        u.input_0@.len() <= cap,
        u.shuffle_0@.len() == u.input_0@.len(),
        is_permutation(perm, u.input_0@.len()),
        forall|i: int|
            0 <= i < u.shuffle_0@.len() ==> #[trigger] paired_vals(u.shuffle_0@, u.shuffle_1@)[i]
                == paired_with_consts(u.input_0@, u.input_1@)[perm[i]],
    ensures
        circuit_accepts(StepCircuit::Unchained(u), z, cap),
{
    let lp = paired_with_consts(u.input_0@, u.input_1@);
    let rp = paired_vals(u.shuffle_0@, u.shuffle_1@);
    lemma_reorder_same_multiset(lp, rp, perm);
    lemma_padded_eq_of_pairs_eq(lp, rp, cap);
}

/// Soundness: if some pair occurs more often among the left-side pairs
/// than among the right-side pairs — the right side misses a left pair by
/// multiplicity — the unchained step is rejected. The one exception left
/// out is a missing zero pair on sides of different lengths, where the
/// disabled rows' zero padding can stand in for it.
pub proof fn lemma_unchained_soundness(
    u: UnchainedShuffleCircuit,
    z: Seq<FieldElem>,
    cap: nat,
    p: Pair,
)
    requires
        u.wf(),
        u.input_0@.len() <= cap,
        u.shuffle_0@.len() <= cap,
        pair_count(paired_vals(u.shuffle_0@, u.shuffle_1@), p) < pair_count(
            paired_with_consts(u.input_0@, u.input_1@),
            p,
        ),
        p != zero_pair() || u.shuffle_0@.len() == u.input_0@.len(),
    ensures
        !circuit_accepts(StepCircuit::Unchained(u), z, cap),
{
    let lp = paired_with_consts(u.input_0@, u.input_1@);
    let rp = paired_vals(u.shuffle_0@, u.shuffle_1@);
    lemma_padded_count(lp, cap, p);
    lemma_padded_count(rp, cap, p);
    lemma_pair_count_is_multiset_count(padded(lp, cap), p);
    lemma_pair_count_is_multiset_count(padded(rp, cap), p);
}

/// Completeness for the chained step: a right-side witness that is the
/// running output vector's pair sequence reordered by any permutation of
/// the rows is accepted.
pub proof fn lemma_chained_completeness(
    ch: ChainedShuffleCircuit,
    z: Seq<FieldElem>,
    cap: nat,
    perm: Seq<int>,
)
    requires
        ch.wf(),
        z.len() == ch.arity(),
        vals_known(ch.shuffle_0@),
        vals_known(ch.shuffle_1@),
        ch.arity() <= cap,
        is_permutation(perm, z.len()),
        forall|i: int|
            0 <= i < ch.arity() ==> #[trigger] paired_vals(ch.shuffle_0@, ch.shuffle_1@)[i]
                == const_pairs(z, ch.input_1@)[perm[i]],
    ensures
        circuit_accepts(StepCircuit::Chained(ch), z, cap),
{
    let lp = const_pairs(z, ch.input_1@);
    let rp = paired_vals(ch.shuffle_0@, ch.shuffle_1@);
    lemma_reorder_same_multiset(lp, rp, perm);
    lemma_padded_eq_of_pairs_eq(lp, rp, cap);
}

/// Soundness for the chained step: a pair of the running output vector and
/// its constant that the right-side witness under-supplies is rejected.
pub proof fn lemma_chained_soundness(
    ch: ChainedShuffleCircuit,
    z: Seq<FieldElem>,
    cap: nat,
    p: Pair,
)
    requires
        ch.wf(),
        z.len() == ch.arity(),
        ch.arity() <= cap,
        pair_count(paired_vals(ch.shuffle_0@, ch.shuffle_1@), p) < pair_count(
            const_pairs(z, ch.input_1@),
            p,
        ),
    ensures
        !circuit_accepts(StepCircuit::Chained(ch), z, cap),
{
    let lp = const_pairs(z, ch.input_1@);
    let rp = paired_vals(ch.shuffle_0@, ch.shuffle_1@);
    lemma_padded_count(lp, cap, p);
    lemma_padded_count(rp, cap, p);
    lemma_pair_count_is_multiset_count(padded(lp, cap), p);
    lemma_pair_count_is_multiset_count(padded(rp, cap), p);
}

} // verus!
