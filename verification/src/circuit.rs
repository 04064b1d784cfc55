//! Column handles, the constraint-system shape, and the shuffle gate layout.
//!
//! A constraint system records how many columns of each kind a circuit shape
//! has allocated and which shuffle arguments were registered over them. The
//! shuffle chip allocates its two enable selectors and registers the one
//! shuffle argument tying the left (input) pair stream to the right (shuffle)
//! pair stream.

use vstd::prelude::*;

verus! {

/// Handle of a mutable witness (advice) column.
#[derive(Clone, Copy, PartialEq, Eq, Structural, Debug)]
pub struct AdviceColumn {
    pub index: usize,
}

/// Handle of a fixed (public, circuit-baked) column.
#[derive(Clone, Copy, PartialEq, Eq, Structural, Debug)]
pub struct FixedColumn {
    pub index: usize,
}

/// Handle of a boolean per-row enable flag column.
#[derive(Clone, Copy, PartialEq, Eq, Structural, Debug)]
pub struct Selector {
    pub index: usize,
}

/// One registered shuffle argument: for every row, the pair
/// `(s_input * input_0, s_input * input_1)` must belong, as a multiset over
/// all rows, to `{(s_shuffle * shuffle_0, s_shuffle * shuffle_1)}`.
#[derive(Clone, Copy, PartialEq, Eq, Structural, Debug)]
pub struct ShuffleArgument {
    pub s_input: Selector,
    pub input_0: AdviceColumn,
    pub input_1: FixedColumn,
    pub s_shuffle: Selector,
    pub shuffle_0: AdviceColumn,
    pub shuffle_1: AdviceColumn,
}

/// The shape of a circuit: column counts per kind and the registered shuffle
/// arguments. Immutable once a layout has been configured from it.
pub struct ConstraintSystem {
    pub num_advice: usize,
    pub num_fixed: usize,
    pub num_selectors: usize,
    pub shuffles: Vec<ShuffleArgument>,
}

impl ShuffleArgument {
    /// Every column and selector handle of the argument lies inside the shape.
    pub open spec fn in_bounds(self, cs: ConstraintSystem) -> bool {
        &&& self.input_0.index < cs.num_advice
        &&& self.shuffle_0.index < cs.num_advice
        &&& self.shuffle_1.index < cs.num_advice
        &&& self.input_1.index < cs.num_fixed
        &&& self.s_input.index < cs.num_selectors
        &&& self.s_shuffle.index < cs.num_selectors
    }

    /// The three witness columns and the two selectors are pairwise distinct,
    /// so that assigning one stream never overwrites another.
    pub open spec fn columns_distinct(self) -> bool {
        &&& self.input_0.index != self.shuffle_0.index
        &&& self.input_0.index != self.shuffle_1.index
        &&& self.shuffle_0.index != self.shuffle_1.index
        &&& self.s_input.index != self.s_shuffle.index
    }
}

impl ConstraintSystem {
    /// Every registered shuffle argument fits the shape.
    pub open spec fn wf(self) -> bool {
        forall|i: int|
            0 <= i < self.shuffles@.len() ==> (#[trigger] self.shuffles@[i]).in_bounds(self)
    }

    /// An empty shape: no columns, no selectors, no constraints.
    pub fn new() -> (r: ConstraintSystem)
        ensures
            r.num_advice == 0,
            r.num_fixed == 0,
            r.num_selectors == 0,
            r.shuffles@ =~= Seq::<ShuffleArgument>::empty(),
            r.wf(),
    {
        ConstraintSystem { num_advice: 0, num_fixed: 0, num_selectors: 0, shuffles: Vec::new() }
    }

    /// Allocate a fresh mutable witness column.
    pub fn advice_column(&mut self) -> (r: AdviceColumn)
        requires
            old(self).num_advice < usize::MAX,
        ensures
            r.index == old(self).num_advice,
            final(self).num_advice == old(self).num_advice + 1,
            final(self).num_fixed == old(self).num_fixed,
            final(self).num_selectors == old(self).num_selectors,
            final(self).shuffles@ == old(self).shuffles@,
    {
        let r = AdviceColumn { index: self.num_advice };
        self.num_advice = self.num_advice + 1;
        r
    }

    /// Allocate a fresh fixed column.
    pub fn fixed_column(&mut self) -> (r: FixedColumn)
        requires
            old(self).num_fixed < usize::MAX,
        ensures
            r.index == old(self).num_fixed,
            final(self).num_fixed == old(self).num_fixed + 1,
            final(self).num_advice == old(self).num_advice,
            final(self).num_selectors == old(self).num_selectors,
            final(self).shuffles@ == old(self).shuffles@,
    {
        let r = FixedColumn { index: self.num_fixed };
        self.num_fixed = self.num_fixed + 1;
        r
    }

    /// Allocate a fresh enable selector that may take part in a shuffle
    /// argument.
    pub fn complex_selector(&mut self) -> (r: Selector)
        requires
            old(self).num_selectors < usize::MAX,
        ensures
            r.index == old(self).num_selectors,
            final(self).num_selectors == old(self).num_selectors + 1,
            final(self).num_advice == old(self).num_advice,
            final(self).num_fixed == old(self).num_fixed,
            final(self).shuffles@ == old(self).shuffles@,
    {
        let r = Selector { index: self.num_selectors };
        self.num_selectors = self.num_selectors + 1;
        r
    }

    /// Register a shuffle argument over already-allocated columns.
    pub fn add_shuffle(&mut self, arg: ShuffleArgument)
        requires
            arg.in_bounds(*old(self)),
        ensures
            final(self).num_advice == old(self).num_advice,
            final(self).num_fixed == old(self).num_fixed,
            final(self).num_selectors == old(self).num_selectors,
            final(self).shuffles@ == old(self).shuffles@.push(arg),
    {
        self.shuffles.push(arg);
    }
}

/// The layout of the shuffle gate: the four value columns and the two enable
/// selectors, produced once per circuit shape and shared by all steps.
#[derive(Clone, Copy, PartialEq, Eq, Structural, Debug)]
pub struct ShuffleConfig {
    pub input_0: AdviceColumn,
    pub input_1: FixedColumn,
    pub shuffle_0: AdviceColumn,
    pub shuffle_1: AdviceColumn,
    pub s_input: Selector,
    pub s_shuffle: Selector,
}

impl ShuffleConfig {
    /// The shuffle argument this layout stands for.
    pub open spec fn arg(self) -> ShuffleArgument {
        ShuffleArgument {
            s_input: self.s_input,
            input_0: self.input_0,
            input_1: self.input_1,
            s_shuffle: self.s_shuffle,
            shuffle_0: self.shuffle_0,
            shuffle_1: self.shuffle_1,
        }
    }

    /// A layout is well formed for a shape when its argument fits the shape
    /// and its columns are pairwise distinct.
    pub open spec fn wf(self, cs: ConstraintSystem) -> bool {
        self.arg().in_bounds(cs) && self.arg().columns_distinct()
    }
}

/// The shuffle gate bound to a layout.
pub struct ShuffleChip {
    pub config: ShuffleConfig,
}

impl ShuffleChip {
    /// Bind the chip to an existing layout.
    pub fn construct(config: ShuffleConfig) -> (r: ShuffleChip)
        ensures
            r.config == config,
    {
        ShuffleChip { config }
    }

    /// Allocate the two enable selectors and register the one shuffle
    /// argument over the four given columns; returns the layout.
    pub fn configure(
        meta: &mut ConstraintSystem,
        input_0: AdviceColumn,
        input_1: FixedColumn,
        shuffle_0: AdviceColumn,
        shuffle_1: AdviceColumn,
    ) -> (r: ShuffleConfig)
        requires
            input_0.index < old(meta).num_advice,
            shuffle_0.index < old(meta).num_advice,
            shuffle_1.index < old(meta).num_advice,
            input_1.index < old(meta).num_fixed,
            old(meta).num_selectors + 2 <= usize::MAX,
        ensures
            r.input_0 == input_0,
            r.input_1 == input_1,
            r.shuffle_0 == shuffle_0,
            r.shuffle_1 == shuffle_1,
            r.s_shuffle.index == old(meta).num_selectors,
            r.s_input.index == old(meta).num_selectors + 1,
            final(meta).num_advice == old(meta).num_advice,
            final(meta).num_fixed == old(meta).num_fixed,
            final(meta).num_selectors == old(meta).num_selectors + 2,
            final(meta).shuffles@ == old(meta).shuffles@.push(r.arg()),
            r.arg().in_bounds(*final(meta)),
    {
        let s_shuffle = meta.complex_selector();
        let s_input = meta.complex_selector();
        let r = ShuffleConfig { input_0, input_1, shuffle_0, shuffle_1, s_input, s_shuffle };
        let arg = ShuffleArgument { s_input, input_0, input_1, s_shuffle, shuffle_0, shuffle_1 };
        meta.add_shuffle(arg);
        r
    }
}

/// Configure the step circuit's shape: one mutable witness column and one
/// fixed column for the left pair, two mutable witness columns for the right
/// pair, then the shuffle gate over them.
pub fn configure_step_shape(meta: &mut ConstraintSystem) -> (r: ShuffleConfig)
    requires
        old(meta).num_advice + 3 <= usize::MAX,
        old(meta).num_fixed < usize::MAX,
        old(meta).num_selectors + 2 <= usize::MAX,
    ensures
        r.wf(*final(meta)),
        final(meta).num_advice == old(meta).num_advice + 3,
        final(meta).num_fixed == old(meta).num_fixed + 1,
        final(meta).num_selectors == old(meta).num_selectors + 2,
        final(meta).shuffles@ == old(meta).shuffles@.push(r.arg()),
{
    let input_0 = meta.advice_column();
    let input_1 = meta.fixed_column();
    let shuffle_0 = meta.advice_column();
    let shuffle_1 = meta.advice_column();
    ShuffleChip::configure(meta, input_0, input_1, shuffle_0, shuffle_1)
}

} // verus!
