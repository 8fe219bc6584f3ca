use vstd::prelude::*;

verus! {

/// A storage slot handle: local mutable bindings (parameters and declared
/// variables) are addressable slots owned by their function, so reassignment
/// and loop-carried mutation are representable before any promotion pass.
pub type SlotId = usize;

/// A value number: each instruction and phi defines exactly one value;
/// function parameters take the first numbers.
pub type ValueId = usize;

/// A basic block handle: an index into the function's block list.
pub type BlockId = usize;

/// One straight-line instruction. Every value is a numeric scalar; a
/// constant carries its literal text, with the boolean literals lowered to
/// `1` and `0`.
#[derive(Debug, PartialEq)]
pub enum Inst {
    Const { dest: ValueId, literal: String },
    Load { dest: ValueId, slot: SlotId },
    Store { slot: SlotId, value: ValueId },
    Add { dest: ValueId, lhs: ValueId, rhs: ValueId },
    Sub { dest: ValueId, lhs: ValueId, rhs: ValueId },
    /// 1 when the left operand is less than the right one, else 0.
    CmpLt { dest: ValueId, lhs: ValueId, rhs: ValueId },
    /// 1 when the left operand is greater than the right one, else 0.
    CmpGt { dest: ValueId, lhs: ValueId, rhs: ValueId },
    /// 1 when the operands differ, else 0: the nonzero test behind branching.
    CmpNe { dest: ValueId, lhs: ValueId, rhs: ValueId },
}

/// A join-point value: selects among block-tagged incoming values the one
/// whose tag names the predecessor that transferred control. Phis stand only
/// at the start of a merge block.
#[derive(Debug, PartialEq)]
pub struct Phi {
    pub dest: ValueId,
    pub incoming: Vec<(BlockId, ValueId)>,
}

/// The single terminator of a basic block: no block falls through.
#[derive(Debug, PartialEq)]
pub enum Terminator {
    Branch(BlockId),
    CondBranch { cond: ValueId, then_block: BlockId, else_block: BlockId },
    Return(ValueId),
}

/// An ordered instruction list ending in exactly one terminator; a block
/// still under construction has no terminator yet.
#[derive(Debug, PartialEq)]
pub struct Block {
    pub phis: Vec<Phi>,
    pub insts: Vec<Inst>,
    pub term: Option<Terminator>,
}

/// The control-flow-graph form of one function: a name, one numeric
/// parameter per declared parameter, a slot arena, a value-number budget and
/// the basic blocks. A function with no blocks is an external declaration.
#[derive(Debug, PartialEq)]
pub struct IrFunction {
    pub name: String,
    pub params: Vec<String>,
    pub slots: usize,
    pub value_count: usize,
    pub blocks: Vec<Block>,
}

// ---------------------------------------------------------------------------
// Mathematical values of the IR: text payloads as character sequences.
// ---------------------------------------------------------------------------

/// The mathematical value of an [`Inst`].
#[verifier::ext_equal]
pub enum SpecInst {
    Const { dest: ValueId, literal: Seq<char> },
    Load { dest: ValueId, slot: SlotId },
    Store { slot: SlotId, value: ValueId },
    Add { dest: ValueId, lhs: ValueId, rhs: ValueId },
    Sub { dest: ValueId, lhs: ValueId, rhs: ValueId },
    CmpLt { dest: ValueId, lhs: ValueId, rhs: ValueId },
    CmpGt { dest: ValueId, lhs: ValueId, rhs: ValueId },
    CmpNe { dest: ValueId, lhs: ValueId, rhs: ValueId },
}

/// The mathematical value of a [`Phi`].
#[verifier::ext_equal]
pub struct SpecPhi {
    pub dest: ValueId,
    pub incoming: Seq<(BlockId, ValueId)>,
}

/// The mathematical value of a [`Block`].
#[verifier::ext_equal]
pub struct SpecBlock {
    pub phis: Seq<SpecPhi>,
    pub insts: Seq<SpecInst>,
    pub term: Option<Terminator>,
}

/// The mathematical value of an [`IrFunction`].
#[verifier::ext_equal]
pub struct SpecIr {
    pub name: Seq<char>,
    pub params: Seq<Seq<char>>,
    pub slots: SlotId,
    pub value_count: ValueId,
    pub blocks: Seq<SpecBlock>,
}

impl View for Inst {
    type V = SpecInst;

    open spec fn view(&self) -> SpecInst {
        match self {
            Inst::Const { dest, literal } => SpecInst::Const { dest: *dest, literal: literal@ },
            Inst::Load { dest, slot } => SpecInst::Load { dest: *dest, slot: *slot },
            Inst::Store { slot, value } => SpecInst::Store { slot: *slot, value: *value },
            Inst::Add { dest, lhs, rhs } => SpecInst::Add { dest: *dest, lhs: *lhs, rhs: *rhs },
            Inst::Sub { dest, lhs, rhs } => SpecInst::Sub { dest: *dest, lhs: *lhs, rhs: *rhs },
            Inst::CmpLt { dest, lhs, rhs } => SpecInst::CmpLt {
                dest: *dest,
                lhs: *lhs,
                rhs: *rhs,
            },
            Inst::CmpGt { dest, lhs, rhs } => SpecInst::CmpGt {
                dest: *dest,
                lhs: *lhs,
                rhs: *rhs,
            },
            Inst::CmpNe { dest, lhs, rhs } => SpecInst::CmpNe {
                dest: *dest,
                lhs: *lhs,
                rhs: *rhs,
            },
        }
    }
}

impl View for Phi {
    type V = SpecPhi;

    open spec fn view(&self) -> SpecPhi {
        SpecPhi { dest: self.dest, incoming: self.incoming@ }
    }
}

impl View for Block {
    type V = SpecBlock;

    open spec fn view(&self) -> SpecBlock {
        SpecBlock {
            phis: self.phis@.map_values(|p: Phi| p@),
            insts: self.insts@.map_values(|i: Inst| i@),
            term: self.term,
        }
    }
}

impl View for IrFunction {
    type V = SpecIr;

    open spec fn view(&self) -> SpecIr {
        SpecIr {
            name: self.name@,
            params: self.params@.map_values(|s: String| s@),
            slots: self.slots,
            value_count: self.value_count,
            blocks: self.blocks@.map_values(|b: Block| b@),
        }
    }
}

// ---------------------------------------------------------------------------
// Structural well-formedness.
// ---------------------------------------------------------------------------

/// Whether block `j` transfers control to block `k`.
pub open spec fn spec_is_pred(blocks: Seq<SpecBlock>, j: int, k: BlockId) -> bool {
    0 <= j < blocks.len() && match blocks[j].term {
        Some(Terminator::Branch(t)) => t == k,
        Some(Terminator::CondBranch { cond: _, then_block, else_block }) => then_block == k
            || else_block == k,
        Some(Terminator::Return(_)) => false,
        None => false,
    }
}

/// The value an instruction defines, if any: a store defines none.
pub open spec fn spec_inst_dest(inst: SpecInst) -> Option<ValueId> {
    match inst {
        SpecInst::Const { dest, literal: _ } => Some(dest),
        SpecInst::Load { dest, slot: _ } => Some(dest),
        SpecInst::Store { slot: _, value: _ } => None,
        SpecInst::Add { dest, lhs: _, rhs: _ } => Some(dest),
        SpecInst::Sub { dest, lhs: _, rhs: _ } => Some(dest),
        SpecInst::CmpLt { dest, lhs: _, rhs: _ } => Some(dest),
        SpecInst::CmpGt { dest, lhs: _, rhs: _ } => Some(dest),
        SpecInst::CmpNe { dest, lhs: _, rhs: _ } => Some(dest),
    }
}

/// Whether value `v` is available in block `b` before instruction position
/// `upto`: defined by one of the block's phis, by an earlier instruction of
/// the block, or — in the entry block — an incoming parameter. This
/// discipline puts every definition on every path before its uses, so each
/// use is dominated by its definition.
pub open spec fn spec_defined_before(
    b: SpecBlock,
    upto: int,
    n_params: int,
    is_entry: bool,
    v: ValueId,
) -> bool {
    ||| (is_entry && (v as int) < n_params)
    ||| (exists|x: int| 0 <= x < b.phis.len() && (#[trigger] b.phis[x]).dest == v)
    ||| (exists|x: int|
        0 <= x < upto && x < b.insts.len() && spec_inst_dest(#[trigger] b.insts[x]) == Some(v))
}

/// An instruction's destination and slot are in range.
pub open spec fn spec_inst_ranges_ok(inst: SpecInst, value_count: ValueId, slots: SlotId) -> bool {
    match inst {
        SpecInst::Const { dest, literal: _ } => dest < value_count,
        SpecInst::Load { dest, slot } => dest < value_count && slot < slots,
        SpecInst::Store { slot, value } => slot < slots && value < value_count,
        SpecInst::Add { dest, lhs, rhs } => dest < value_count && lhs < value_count && rhs
            < value_count,
        SpecInst::Sub { dest, lhs, rhs } => dest < value_count && lhs < value_count && rhs
            < value_count,
        SpecInst::CmpLt { dest, lhs, rhs } => dest < value_count && lhs < value_count && rhs
            < value_count,
        SpecInst::CmpGt { dest, lhs, rhs } => dest < value_count && lhs < value_count && rhs
            < value_count,
        SpecInst::CmpNe { dest, lhs, rhs } => dest < value_count && lhs < value_count && rhs
            < value_count,
    }
}

/// Every value the instruction at position `i` of block `b` reads is
/// available at that position.
pub open spec fn spec_inst_operands_ok(b: SpecBlock, i: int, n_params: int, is_entry: bool) -> bool {
    match b.insts[i] {
        SpecInst::Const { dest: _, literal: _ } => true,
        SpecInst::Load { dest: _, slot: _ } => true,
        SpecInst::Store { slot: _, value } => spec_defined_before(b, i, n_params, is_entry, value),
        SpecInst::Add { dest: _, lhs, rhs } => spec_defined_before(b, i, n_params, is_entry, lhs)
            && spec_defined_before(b, i, n_params, is_entry, rhs),
        SpecInst::Sub { dest: _, lhs, rhs } => spec_defined_before(b, i, n_params, is_entry, lhs)
            && spec_defined_before(b, i, n_params, is_entry, rhs),
        SpecInst::CmpLt { dest: _, lhs, rhs } => spec_defined_before(b, i, n_params, is_entry, lhs)
            && spec_defined_before(b, i, n_params, is_entry, rhs),
        SpecInst::CmpGt { dest: _, lhs, rhs } => spec_defined_before(b, i, n_params, is_entry, lhs)
            && spec_defined_before(b, i, n_params, is_entry, rhs),
        SpecInst::CmpNe { dest: _, lhs, rhs } => spec_defined_before(b, i, n_params, is_entry, lhs)
            && spec_defined_before(b, i, n_params, is_entry, rhs),
    }
}

/// A terminator's targets exist, and the value it reads is available at the
/// end of its block.
pub open spec fn spec_term_ok(
    b: SpecBlock,
    t: Terminator,
    value_count: ValueId,
    n_blocks: int,
    n_params: int,
    is_entry: bool,
) -> bool {
    match t {
        Terminator::Branch(target) => target < n_blocks,
        Terminator::CondBranch { cond, then_block, else_block } => cond < value_count && then_block
            < n_blocks && else_block < n_blocks && spec_defined_before(
            b,
            b.insts.len() as int,
            n_params,
            is_entry,
            cond,
        ),
        Terminator::Return(v) => v < value_count && spec_defined_before(
            b,
            b.insts.len() as int,
            n_params,
            is_entry,
            v,
        ),
    }
}

/// A phi at the start of block `k` is well formed when it has at least one
/// incoming pair, every pair is tagged with an actual predecessor of `k` and
/// carries a value available at that predecessor's exit, no predecessor is
/// tagged twice, and every actual predecessor of `k` is tagged: the incoming
/// set is in 1:1 correspondence with the block's predecessors.
pub open spec fn spec_phi_ok(
    p: SpecPhi,
    blocks: Seq<SpecBlock>,
    k: BlockId,
    value_count: ValueId,
    n_params: int,
) -> bool {
    &&& p.dest < value_count
    &&& p.incoming.len() >= 1
    &&& forall|x: int|
        #![trigger p.incoming[x]]
        0 <= x < p.incoming.len() ==> spec_is_pred(blocks, p.incoming[x].0 as int, k)
            && p.incoming[x].1 < value_count && spec_defined_before(
            blocks[p.incoming[x].0 as int],
            blocks[p.incoming[x].0 as int].insts.len() as int,
            n_params,
            p.incoming[x].0 == 0,
            p.incoming[x].1,
        )
    &&& forall|x: int, y: int|
        #![trigger p.incoming[x], p.incoming[y]]
        0 <= x < y < p.incoming.len() ==> p.incoming[x].0 != p.incoming[y].0
    &&& forall|j: int|
        0 <= j < blocks.len() && #[trigger] spec_is_pred(blocks, j, k) ==> exists|x: int|
            0 <= x < p.incoming.len() && (#[trigger] p.incoming[x]).0 == j
}

/// A block of a function is well formed when it ends in exactly one
/// terminator and its phis and instructions are well formed.
pub open spec fn spec_block_ok(f: SpecIr, k: BlockId) -> bool {
    let b = f.blocks[k as int];
    let n_params = f.params.len() as int;
    let is_entry = k == 0;
    &&& b.term is Some
    &&& spec_term_ok(b, b.term->0, f.value_count, f.blocks.len() as int, n_params, is_entry)
    &&& forall|x: int|
        0 <= x < b.insts.len() ==> spec_inst_ranges_ok(#[trigger] b.insts[x], f.value_count, f.slots)
    &&& forall|x: int| 0 <= x < b.insts.len() ==> #[trigger] spec_inst_operands_ok(b, x, n_params, is_entry)
    &&& forall|x: int|
        0 <= x < b.phis.len() ==> spec_phi_ok(
            #[trigger] b.phis[x],
            f.blocks,
            k,
            f.value_count,
            n_params,
        )
}

/// Structural well-formedness of a lowered function: an external declaration
/// has no blocks; a defined function has every block terminated, every
/// reference in range, every referenced value available where it is read
/// (definition before use on every path), and every phi's incoming set in
/// 1:1 correspondence with its block's actual predecessors.
pub open spec fn spec_wf(f: SpecIr) -> bool {
    f.blocks.len() == 0 || (forall|k: BlockId| k < f.blocks.len() ==> #[trigger] spec_block_ok(f, k))
}

/// The value a phi selects when control arrives from predecessor `pred`: the
/// first value tagged with `pred`, if one is listed.
pub open spec fn spec_phi_selects(incoming: Seq<(BlockId, ValueId)>, pred: BlockId) -> Option<
    ValueId,
>
    decreases incoming.len(),
{
    if incoming.len() == 0 {
        None
    } else if incoming[0].0 == pred {
        Some(incoming[0].1)
    } else {
        spec_phi_selects(incoming.drop_first(), pred)
    }
}

/// A two-way phi whose tags differ selects the then-exit value when control
/// arrives from the then exit, and the else-exit value when control arrives
/// from the else exit.
pub proof fn lemma_phi_two_way(tb: BlockId, tv: ValueId, eb: BlockId, ev: ValueId)
    requires
        tb != eb,
    ensures
        spec_phi_selects(seq![(tb, tv), (eb, ev)], tb) == Some(tv),
        spec_phi_selects(seq![(tb, tv), (eb, ev)], eb) == Some(ev),
{
    reveal_with_fuel(spec_phi_selects, 3);
    assert(seq![(tb, tv), (eb, ev)].drop_first() =~= seq![(eb, ev)]);
    assert(spec_phi_selects(seq![(eb, ev)], eb) == Some(ev));
}

/// Verification is a function of the function value alone, and it borrows
/// the function without altering it: verifying an already verified,
/// unmodified function a second time succeeds as well.
pub proof fn lemma_verify_idempotent(f1: SpecIr, f2: SpecIr)
    requires
        f1 == f2,
        spec_wf(f1),
    ensures
        spec_wf(f2),
{
}

// ---------------------------------------------------------------------------
// The executable structural verifier.
// ---------------------------------------------------------------------------

fn inst_dest(inst: &Inst) -> (r: Option<ValueId>)
    ensures
        r == spec_inst_dest(inst@),
{
    match inst {
        Inst::Const { dest, literal: _ } => Some(*dest),
        Inst::Load { dest, slot: _ } => Some(*dest),
        Inst::Store { slot: _, value: _ } => None,
        Inst::Add { dest, lhs: _, rhs: _ } => Some(*dest),
        Inst::Sub { dest, lhs: _, rhs: _ } => Some(*dest),
        Inst::CmpLt { dest, lhs: _, rhs: _ } => Some(*dest),
        Inst::CmpGt { dest, lhs: _, rhs: _ } => Some(*dest),
        Inst::CmpNe { dest, lhs: _, rhs: _ } => Some(*dest),
    }
}

#[verifier::spinoff_prover]
fn defined_before(b: &Block, upto: usize, n_params: usize, is_entry: bool, v: usize) -> (r: bool)
    requires
        upto <= b.insts@.len(),
    ensures
        r == spec_defined_before(b@, upto as int, n_params as int, is_entry, v),
{
    if is_entry && v < n_params {
        return true;
    }
    let np = b.phis.len();
    let mut x: usize = 0;
    while x < np
        invariant
            np == b.phis@.len(),
            x <= np,
            forall|i: int| 0 <= i < x ==> (#[trigger] b@.phis[i]).dest != v,
        decreases np - x,
    {
        if b.phis[x].dest == v {
            proof {
                assert(b@.phis[x as int].dest == v);
            }
            return true;
        }
        x = x + 1;
    }
    let mut x: usize = 0;
    while x < upto
        invariant
            upto <= b.insts@.len(),
            x <= upto,
            forall|i: int| 0 <= i < x ==> spec_inst_dest(#[trigger] b@.insts[i]) != Some(v),
        decreases upto - x,
    {
        match inst_dest(&b.insts[x]) {
            Some(d) => {
                if d == v {
                    proof {
                        assert(spec_inst_dest(b@.insts[x as int]) == Some(v));
                    }
                    return true;
                }
            },
            None => (),
        }
        x = x + 1;
    }
    false
}

#[verifier::spinoff_prover]
fn inst_ranges_ok(inst: &Inst, value_count: usize, slots: usize) -> (r: bool)
    ensures
        r == spec_inst_ranges_ok(inst@, value_count, slots),
{
    match inst {
        Inst::Const { dest, literal: _ } => *dest < value_count,
        Inst::Load { dest, slot } => *dest < value_count && *slot < slots,
        Inst::Store { slot, value } => *slot < slots && *value < value_count,
        Inst::Add { dest, lhs, rhs } => *dest < value_count && *lhs < value_count && *rhs
            < value_count,
        Inst::Sub { dest, lhs, rhs } => *dest < value_count && *lhs < value_count && *rhs
            < value_count,
        Inst::CmpLt { dest, lhs, rhs } => *dest < value_count && *lhs < value_count && *rhs
            < value_count,
        Inst::CmpGt { dest, lhs, rhs } => *dest < value_count && *lhs < value_count && *rhs
            < value_count,
        Inst::CmpNe { dest, lhs, rhs } => *dest < value_count && *lhs < value_count && *rhs
            < value_count,
    }
}

#[verifier::spinoff_prover]
fn inst_operands_ok(b: &Block, i: usize, n_params: usize, is_entry: bool) -> (r: bool)
    requires
        i < b.insts@.len(),
    ensures
        r == spec_inst_operands_ok(b@, i as int, n_params as int, is_entry),
{
    match &b.insts[i] {
        Inst::Const { dest: _, literal: _ } => true,
        Inst::Load { dest: _, slot: _ } => true,
        Inst::Store { slot: _, value } => defined_before(b, i, n_params, is_entry, *value),
        Inst::Add { dest: _, lhs, rhs } => defined_before(b, i, n_params, is_entry, *lhs)
            && defined_before(b, i, n_params, is_entry, *rhs),
        Inst::Sub { dest: _, lhs, rhs } => defined_before(b, i, n_params, is_entry, *lhs)
            && defined_before(b, i, n_params, is_entry, *rhs),
        Inst::CmpLt { dest: _, lhs, rhs } => defined_before(b, i, n_params, is_entry, *lhs)
            && defined_before(b, i, n_params, is_entry, *rhs),
        Inst::CmpGt { dest: _, lhs, rhs } => defined_before(b, i, n_params, is_entry, *lhs)
            && defined_before(b, i, n_params, is_entry, *rhs),
        Inst::CmpNe { dest: _, lhs, rhs } => defined_before(b, i, n_params, is_entry, *lhs)
            && defined_before(b, i, n_params, is_entry, *rhs),
    }
}

#[verifier::spinoff_prover]
fn term_ok(b: &Block, t: &Terminator, value_count: usize, n_blocks: usize, n_params: usize, is_entry: bool) -> (r:
    bool)
    ensures
        r == spec_term_ok(b@, *t, value_count, n_blocks as int, n_params as int, is_entry),
{
    match t {
        Terminator::Branch(target) => *target < n_blocks,
        Terminator::CondBranch { cond, then_block, else_block } => *cond < value_count
            && *then_block < n_blocks && *else_block < n_blocks && defined_before(
            b,
            b.insts.len(),
            n_params,
            is_entry,
            *cond,
        ),
        Terminator::Return(v) => *v < value_count && defined_before(
            b,
            b.insts.len(),
            n_params,
            is_entry,
            *v,
        ),
    }
}

fn is_pred(blocks: &Vec<Block>, j: usize, k: usize) -> (r: bool)
    requires
        j < blocks@.len(),
    ensures
        r == spec_is_pred(blocks@.map_values(|b: Block| b@), j as int, k),
{
    match &blocks[j].term {
        Some(Terminator::Branch(t)) => *t == k,
        Some(Terminator::CondBranch { cond: _, then_block, else_block }) => *then_block == k
            || *else_block == k,
        Some(Terminator::Return(_)) => false,
        None => false,
    }
}

/// Whether the phi lists an incoming pair tagged with block `j`.
#[verifier::spinoff_prover]
fn incoming_has(p: &Phi, j: usize) -> (r: bool)
    ensures
        r == exists|x: int| 0 <= x < p@.incoming.len() && (#[trigger] p@.incoming[x]).0 == j,
{
    let n = p.incoming.len();
    let mut x: usize = 0;
    while x < n
        invariant
            n == p.incoming@.len(),
            x <= n,
            forall|i: int| 0 <= i < x ==> (#[trigger] p@.incoming[i]).0 != j,
        decreases n - x,
    {
        if p.incoming[x].0 == j {
            proof {
                assert(p@.incoming[x as int].0 == j);
            }
            return true;
        }
        x = x + 1;
    }
    false
}

#[verifier::spinoff_prover]
fn phi_ok(p: &Phi, blocks: &Vec<Block>, k: usize, value_count: usize, n_params: usize) -> (r: bool)
    ensures
        r == spec_phi_ok(p@, blocks@.map_values(|b: Block| b@), k, value_count, n_params as int),
    decreases blocks@.len(),
{
    let ghost bv = blocks@.map_values(|b: Block| b@);
    if p.dest >= value_count {
        return false;
    }
    let n = p.incoming.len();
    if n == 0 {
        return false;
    }
    let mut x: usize = 0;
    while x < n
        invariant
            n == p.incoming@.len(),
            bv == blocks@.map_values(|b: Block| b@),
            x <= n,
            forall|i: int|
                #![trigger p@.incoming[i]]
                0 <= i < x ==> spec_is_pred(bv, p@.incoming[i].0 as int, k) && p@.incoming[i].1
                    < value_count && spec_defined_before(
                    bv[p@.incoming[i].0 as int],
                    bv[p@.incoming[i].0 as int].insts.len() as int,
                    n_params as int,
                    p@.incoming[i].0 == 0,
                    p@.incoming[i].1,
                ),
        decreases n - x,
    {
        let (b, v) = p.incoming[x];
        if b >= blocks.len() {
            return false;
        }
        if !is_pred(blocks, b, k) {
            return false;
        }
        if v >= value_count {
            return false;
        }
        let src = &blocks[b];
        proof {
            assert(src@ == bv[b as int]);
        }
        if !defined_before(src, src.insts.len(), n_params, b == 0, v) {
            return false;
        }
        x = x + 1;
    }
    let mut x: usize = 0;
    while x < n
        invariant
            n == p.incoming@.len(),
            x <= n,
            forall|i: int, j: int|
                #![trigger p@.incoming[i], p@.incoming[j]]
                0 <= i < j < n && i < x ==> p@.incoming[i].0 != p@.incoming[j].0,
        decreases n - x,
    {
        let mut y: usize = x + 1;
        while y < n
            invariant
                n == p.incoming@.len(),
                x < n,
                x < y <= n,
                forall|j: int|
                    #![trigger p@.incoming[j]]
                    x < j < y ==> p@.incoming[x as int].0 != p@.incoming[j].0,
            decreases n - y,
        {
            if p.incoming[x].0 == p.incoming[y].0 {
                return false;
            }
            y = y + 1;
        }
        x = x + 1;
    }
    let nb = blocks.len();
    let mut j: usize = 0;
    while j < nb
        invariant
            nb == blocks@.len(),
            bv == blocks@.map_values(|b: Block| b@),
            j <= nb,
            forall|jj: int|
                0 <= jj < j && #[trigger] spec_is_pred(bv, jj, k) ==> exists|x: int|
                    0 <= x < p@.incoming.len() && (#[trigger] p@.incoming[x]).0 == jj,
        decreases nb - j,
    {
        if is_pred(blocks, j, k) {
            if !incoming_has(p, j) {
                return false;
            }
        }
        j = j + 1;
    }
    true
}

#[verifier::spinoff_prover]
fn block_ok(f: &IrFunction, k: usize) -> (r: bool)
    requires
        k < f.blocks@.len(),
    ensures
        r == spec_block_ok(f@, k),
{
    let b = &f.blocks[k];
    let n_params = f.params.len();
    let is_entry = k == 0;
    proof {
        assert(b@ == f@.blocks[k as int]);
        assert(f@.params.len() == f.params@.len());
    }
    match &b.term {
        None => {
            return false;
        },
        Some(t) => {
            if !term_ok(b, t, f.value_count, f.blocks.len(), n_params, is_entry) {
                return false;
            }
        },
    }
    let ni = b.insts.len();
    let mut x: usize = 0;
    while x < ni
        invariant
            ni == b.insts@.len(),
            b == &f.blocks@[k as int],
            k < f.blocks@.len(),
            n_params == f.params@.len(),
            is_entry == (k == 0),
            x <= ni,
            forall|i: int|
                0 <= i < x ==> spec_inst_ranges_ok(#[trigger] b@.insts[i], f.value_count, f.slots),
            forall|i: int|
                0 <= i < x ==> #[trigger] spec_inst_operands_ok(
                    b@,
                    i,
                    n_params as int,
                    is_entry,
                ),
        decreases ni - x,
    {
        if !inst_ranges_ok(&b.insts[x], f.value_count, f.slots) {
            proof {
                assert(b@.insts[x as int] == b.insts@[x as int]@);
            }
            return false;
        }
        if !inst_operands_ok(b, x, n_params, is_entry) {
            return false;
        }
        x = x + 1;
    }
    let np = b.phis.len();
    let mut x: usize = 0;
    while x < np
        invariant
            np == b.phis@.len(),
            b == &f.blocks@[k as int],
            k < f.blocks@.len(),
            n_params == f.params@.len(),
            x <= np,
            forall|i: int|
                0 <= i < x ==> spec_phi_ok(
                    #[trigger] b@.phis[i],
                    f@.blocks,
                    k,
                    f.value_count,
                    n_params as int,
                ),
        decreases np - x,
    {
        if !phi_ok(&b.phis[x], &f.blocks, k, f.value_count, n_params) {
            proof {
                assert(b@.phis[x as int] == b.phis@[x as int]@);
            }
            return false;
        }
        x = x + 1;
    }
    true
}

/// Structural verification of a lowered function, run before it is handed
/// on: decides exactly the well-formedness that [`spec_wf`] states, and
/// borrows the function without altering it.
#[verifier::spinoff_prover]
pub fn verify(f: &IrFunction) -> (r: bool)
    ensures
        r == spec_wf(f@),
{
    let nb = f.blocks.len();
    if nb == 0 {
        return true;
    }
    let mut k: usize = 0;
    while k < nb
        invariant
            nb == f.blocks@.len(),
            k <= nb,
            forall|x: BlockId| x < k ==> #[trigger] spec_block_ok(f@, x),
        decreases nb - k,
    {
        if !block_ok(f, k) {
            return false;
        }
        k = k + 1;
    }
    true
}

} // verus!
