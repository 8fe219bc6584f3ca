use vstd::prelude::*;

use crate::ast::{lemma_stmts_view_index, lemma_stmts_view_len, stmts_view, Expr, SpecExpr, SpecStmt, Stmt};
use crate::ir::{
    spec_wf, verify, Block, BlockId, Inst, IrFunction, Phi, SlotId, SpecBlock, SpecInst, SpecIr,
    SpecPhi, Terminator, ValueId,
};
use crate::lexer::is_digit;
use crate::token::{SpecToken, Token};
use vstd::string::StrSliceExecFns;
use vstd::string::StringExecFns;

verus! {

/// A failure of the lowering stage: a named, recoverable diagnostic; the
/// partially built function is discarded and nothing is registered.
#[derive(Debug, PartialEq, Eq, Structural)]
pub enum TranslateError {
    /// The statement handed to lowering was not a function declaration with
    /// bare identifiers for its name and parameters.
    NotAFunction,
    /// A literal's text is neither a boolean literal nor well-formed numeric
    /// text; such text must never reach a constant.
    MalformedLiteral,
    /// An identifier does not resolve to a storage slot declared earlier.
    VariableNotFound,
    /// A binary operator outside the supported set.
    UnsupportedOperator,
    /// An expression form that lowering does not handle.
    UnsupportedExpression,
    /// A statement form that lowering does not handle.
    UnsupportedStatement,
    /// An `if` whose else branch is absent cannot produce a merge value.
    MissingElseBranch,
    /// A branch ended in its own return and does not join the merge block.
    BranchDoesNotJoin,
    /// The function exhausted slot or value numbers.
    FunctionTooLarge,
    /// The built function failed structural verification and was discarded.
    InvalidGeneratedFunction,
}

/// The build session: lowered functions are registered here, one per
/// lowering call.
#[derive(Debug)]
pub struct IrModule {
    pub functions: Vec<IrFunction>,
}

impl IrModule {
    /// An empty build session.
    pub fn new() -> (r: IrModule)
        ensures
            r.functions@.len() == 0,
    {
        IrModule { functions: Vec::new() }
    }
}

/// Well-formed numeric literal text: at least one digit, digits and at most
/// one dot and nothing else.
pub open spec fn spec_numeric_text(s: Seq<char>) -> bool {
    &&& exists|i: int| 0 <= i < s.len() && is_digit(#[trigger] s[i])
    &&& forall|i: int| 0 <= i < s.len() ==> is_digit(#[trigger] s[i]) || s[i] == '.'
    &&& forall|i: int, j: int|
        0 <= i < j < s.len() && #[trigger] s[i] == '.' && #[trigger] s[j] == '.' ==> false
}

/// Decides [`spec_numeric_text`].
#[verifier::spinoff_prover]
pub fn numeric_text(s: &str) -> (r: bool)
    ensures
        r == spec_numeric_text(s@),
{
    let n = s.unicode_len();
    let mut saw_digit = false;
    let mut saw_dot = false;
    let mut i: usize = 0;
    while i < n
        invariant
            n == s@.len(),
            i <= n,
            saw_digit == exists|k: int| 0 <= k < i && is_digit(#[trigger] s@[k]),
            saw_dot == exists|k: int| 0 <= k < i && #[trigger] s@[k] == '.',
            forall|k: int| 0 <= k < i ==> is_digit(#[trigger] s@[k]) || s@[k] == '.',
            forall|k: int, l: int|
                0 <= k < l < i && #[trigger] s@[k] == '.' && #[trigger] s@[l] == '.' ==> false,
        decreases n - i,
    {
        let c = s.get_char(i);
        if '0' <= c && c <= '9' {
            saw_digit = true;
        } else if c == '.' {
            if saw_dot {
                proof {
                    let k = choose|k: int| 0 <= k < i && #[trigger] s@[k] == '.';
                    assert(s@[k] == '.' && s@[i as int] == '.');
                }
                return false;
            }
            saw_dot = true;
        } else {
            return false;
        }
        i = i + 1;
    }
    saw_digit
}

// ---------------------------------------------------------------------------
// Lowering as a mathematical function: a state of environment, blocks,
// cursor and counters is threaded through mirror functions of each step.
// ---------------------------------------------------------------------------

/// The mathematical value of a variable environment.
pub open spec fn env_view(vars: Seq<(String, SlotId)>) -> Seq<(Seq<char>, SlotId)> {
    vars.map_values(|p: (String, SlotId)| (p.0@, p.1))
}

/// The latest slot bound to `name`, if any: bindings later in the
/// environment shadow earlier ones.
pub open spec fn spec_lookup(env: Seq<(Seq<char>, SlotId)>, name: Seq<char>) -> Option<SlotId>
    decreases env.len(),
{
    if env.len() == 0 {
        None
    } else if env.last().0 == name {
        Some(env.last().1)
    } else {
        spec_lookup(env.drop_last(), name)
    }
}

/// The lowering state: the variable environment, the blocks built so far,
/// the block under construction, and the slot and value counters.
#[verifier::ext_equal]
pub struct LowerState {
    pub env: Seq<(Seq<char>, SlotId)>,
    pub blocks: Seq<SpecBlock>,
    pub cur: BlockId,
    pub slots: SlotId,
    pub values: ValueId,
}

/// The state every lowering starts from: one empty, unterminated entry block.
pub open spec fn spec_initial_state() -> LowerState {
    LowerState {
        env: Seq::empty(),
        blocks: seq![SpecBlock { phis: Seq::empty(), insts: Seq::empty(), term: None }],
        cur: 0,
        slots: 0,
        values: 0,
    }
}

/// The next value number, or failure when the numbers are exhausted.
pub open spec fn spec_fresh(st: LowerState) -> Result<(LowerState, ValueId), TranslateError> {
    if st.values == usize::MAX {
        Err(TranslateError::FunctionTooLarge)
    } else {
        Ok((LowerState { values: (st.values + 1) as usize, ..st }, st.values))
    }
}

/// The next storage slot, or failure when the slots are exhausted.
pub open spec fn spec_alloc(st: LowerState) -> Result<(LowerState, SlotId), TranslateError> {
    if st.slots == usize::MAX {
        Err(TranslateError::FunctionTooLarge)
    } else {
        Ok((LowerState { slots: (st.slots + 1) as usize, ..st }, st.slots))
    }
}

/// Appends one instruction to the block under construction.
pub open spec fn spec_emit(st: LowerState, inst: SpecInst) -> LowerState {
    let b = st.blocks[st.cur as int];
    LowerState {
        blocks: st.blocks.update(
            st.cur as int,
            SpecBlock { phis: b.phis, insts: b.insts.push(inst), term: b.term },
        ),
        ..st
    }
}

/// Terminates the block under construction unless it already ends in a
/// terminator: the first terminator of a block wins. The flag reports
/// whether the terminator was placed.
pub open spec fn spec_set_term(st: LowerState, t: Terminator) -> (LowerState, bool) {
    let b = st.blocks[st.cur as int];
    if b.term is Some {
        (st, false)
    } else {
        (
            LowerState {
                blocks: st.blocks.update(
                    st.cur as int,
                    SpecBlock { phis: b.phis, insts: b.insts, term: Some(t) },
                ),
                ..st
            },
            true,
        )
    }
}

/// Opens a new, empty, unterminated block; the cursor stays where it was.
pub open spec fn spec_append_block(st: LowerState) -> (LowerState, BlockId) {
    (
        LowerState {
            blocks: st.blocks.push(
                SpecBlock { phis: Seq::empty(), insts: Seq::empty(), term: None },
            ),
            ..st
        },
        st.blocks.len() as usize,
    )
}

/// Moves construction to block `k`.
pub open spec fn spec_position_at(st: LowerState, k: BlockId) -> LowerState {
    LowerState { cur: k, ..st }
}

/// The constant text a literal lowers to: the boolean literals become `1`
/// and `0`, well-formed numeric text stands as it is, and any other text is
/// the malformed-literal failure.
pub open spec fn spec_literal_text(v: Seq<char>) -> Result<Seq<char>, TranslateError> {
    if v == "true"@ {
        Ok("1"@)
    } else if v == "false"@ {
        Ok("0"@)
    } else if spec_numeric_text(v) {
        Ok(v)
    } else {
        Err(TranslateError::MalformedLiteral)
    }
}

/// Lowering of one expression into the block under construction: the state
/// after it and the value it denotes. A literal appends the constant that
/// carries its text; a variable appends a load of its bound slot, failing as
/// unresolved when no binding exists; a supported binary operator lowers its
/// left operand, then its right operand, then appends the operation over the
/// two operand values; everything else is a named failure.
#[verifier::opaque]
pub open spec fn spec_lower_expr(st: LowerState, e: SpecExpr) -> Result<
    (LowerState, ValueId),
    TranslateError,
>
    decreases e,
{
    match e {
        SpecExpr::Literal { value } => match spec_literal_text(value) {
            Err(er) => Err(er),
            Ok(lit) => match spec_fresh(st) {
                Err(er) => Err(er),
                Ok((st1, dest)) => Ok(
                    (spec_emit(st1, SpecInst::Const { dest, literal: lit }), dest),
                ),
            },
        },
        SpecExpr::Variable { name } => match name {
            SpecToken::Ident(id) => match spec_lookup(st.env, id) {
                Some(slot) => match spec_fresh(st) {
                    Err(er) => Err(er),
                    Ok((st1, dest)) => Ok(
                        (spec_emit(st1, SpecInst::Load { dest, slot }), dest),
                    ),
                },
                None => Err(TranslateError::VariableNotFound),
            },
            _ => Err(TranslateError::UnsupportedExpression),
        },
        SpecExpr::Binary { op, left, right } => match spec_lower_expr(st, *left) {
            Err(er) => Err(er),
            Ok((st1, lhs)) => match spec_lower_expr(st1, *right) {
                Err(er) => Err(er),
                Ok((st2, rhs)) => match spec_fresh(st2) {
                    Err(er) => Err(er),
                    Ok((st3, dest)) => match op {
                        SpecToken::Plus => Ok(
                            (spec_emit(st3, SpecInst::Add { dest, lhs, rhs }), dest),
                        ),
                        SpecToken::Minus => Ok(
                            (spec_emit(st3, SpecInst::Sub { dest, lhs, rhs }), dest),
                        ),
                        SpecToken::Less => Ok(
                            (spec_emit(st3, SpecInst::CmpLt { dest, lhs, rhs }), dest),
                        ),
                        SpecToken::Greater => Ok(
                            (spec_emit(st3, SpecInst::CmpGt { dest, lhs, rhs }), dest),
                        ),
                        _ => Err(TranslateError::UnsupportedOperator),
                    },
                },
            },
        },
        _ => Err(TranslateError::UnsupportedExpression),
    }
}

/// Lowering of one statement: the state after it and the statement's value
/// under the tail-expression convention. An expression statement lowers its
/// expression; a return lowers its value (an absent value lowers to the zero
/// constant) and terminates the block under construction with a return of
/// it; a block lowers every statement in sequence; an `if` lowers as
/// [`spec_lower_conditional`] says; a variable declaration lowers its
/// initializer, allocates a slot, appends a store of the value into it and
/// binds the name; everything else is a named failure.
#[verifier::opaque]
pub open spec fn spec_lower_stmt(st: LowerState, s: SpecStmt) -> Result<
    (LowerState, ValueId),
    TranslateError,
>
    decreases s, 3int, 0int,
{
    match s {
        SpecStmt::Expr(e) => spec_lower_expr(st, e),
        SpecStmt::Return { keyword: _, value } => {
            let vr: Result<(LowerState, ValueId), TranslateError> = match value {
                Some(e) => spec_lower_expr(st, e),
                None => match spec_fresh(st) {
                    Err(er) => Err(er),
                    Ok((st1, dest)) => Ok(
                        (spec_emit(st1, SpecInst::Const { dest, literal: "0"@ }), dest),
                    ),
                },
            };
            match vr {
                Err(er) => Err(er),
                Ok((st1, v)) => Ok((spec_set_term(st1, Terminator::Return(v)).0, v)),
            }
        },
        SpecStmt::Block(ss) => spec_lower_stmts(st, ss, 0),
        SpecStmt::If { cond: _, then_branch: _, else_branch: _ } => spec_lower_conditional(st, s),
        SpecStmt::Var { name, initializer } => match name {
            SpecToken::Ident(id) => match spec_lower_expr(st, initializer) {
                Err(er) => Err(er),
                Ok((st1, v)) => match spec_alloc(st1) {
                    Err(er) => Err(er),
                    Ok((st2, slot)) => {
                        let st3 = spec_emit(st2, SpecInst::Store { slot, value: v });
                        Ok((LowerState { env: st3.env.push((id, slot)), ..st3 }, v))
                    },
                },
            },
            _ => Err(TranslateError::UnsupportedStatement),
        },
        _ => Err(TranslateError::UnsupportedStatement),
    }
}

/// Lowering of the statements of a block from `idx` on, in sequence, each
/// threading the state of the one before it; the block's value is its last
/// statement's value, and an empty tail lowers to the zero constant.
#[verifier::opaque]
pub open spec fn spec_lower_stmts(st: LowerState, ss: Seq<SpecStmt>, idx: int) -> Result<
    (LowerState, ValueId),
    TranslateError,
>
    decreases ss, 2int, ss.len() - idx
        when 0 <= idx <= ss.len()
{
    if idx == ss.len() {
        match spec_fresh(st) {
            Err(er) => Err(er),
            Ok((st1, dest)) => Ok((spec_emit(st1, SpecInst::Const { dest, literal: "0"@ }), dest)),
        }
    } else {
        match spec_lower_stmt(st, ss[idx]) {
            Err(er) => Err(er),
            Ok((st1, v)) => {
                if idx + 1 == ss.len() {
                    Ok((st1, v))
                } else {
                    spec_lower_stmts(st1, ss, idx + 1)
                }
            },
        }
    }
}

/// Lowering of an `if` with both branches. The condition is lowered and
/// compared for inequality against a zero constant; three blocks open (then,
/// else, merge) and the block under construction ends in a conditional
/// branch on that test. Each branch lowers into its own block and must join
/// the merge block (a branch that already ended in its own return fails as
/// not joining, as do branches that end in the same block). The merge block
/// receives one phi whose incoming pairs are exactly the then-branch value
/// tagged with the then-exit block and the else-branch value tagged with the
/// else-exit block, and that phi's value is the statement's value.
#[verifier::opaque]
pub open spec fn spec_lower_conditional(st: LowerState, s: SpecStmt) -> Result<
    (LowerState, ValueId),
    TranslateError,
>
    decreases s, 1int, 0int,
{
    match s {
        SpecStmt::If { cond, then_branch, else_branch } => match else_branch {
            None => Err(TranslateError::MissingElseBranch),
            Some(eb) => match spec_lower_expr(st, cond) {
                Err(er) => Err(er),
                Ok((st1, c)) => match spec_fresh(st1) {
                    Err(er) => Err(er),
                    Ok((st2, zero)) => {
                        let st3 = spec_emit(st2, SpecInst::Const { dest: zero, literal: "0"@ });
                        match spec_fresh(st3) {
                            Err(er) => Err(er),
                            Ok((st4, ne)) => {
                                let st5 = spec_emit(
                                    st4,
                                    SpecInst::CmpNe { dest: ne, lhs: c, rhs: zero },
                                );
                                let r6 = spec_append_block(st5);
                                let r7 = spec_append_block(r6.0);
                                let r8 = spec_append_block(r7.0);
                                let then_block = r6.1;
                                let else_block = r7.1;
                                let merge_block = r8.1;
                                let st9 = spec_set_term(
                                    r8.0,
                                    Terminator::CondBranch { cond: ne, then_block, else_block },
                                ).0;
                                let st10 = spec_position_at(st9, then_block);
                                match spec_lower_stmt(st10, *then_branch) {
                                    Err(er) => Err(er),
                                    Ok((st11, then_val)) => {
                                        let then_exit = st11.cur;
                                        let r12 = spec_set_term(
                                            st11,
                                            Terminator::Branch(merge_block),
                                        );
                                        if !r12.1 {
                                            Err(TranslateError::BranchDoesNotJoin)
                                        } else {
                                            let st13 = spec_position_at(r12.0, else_block);
                                            match spec_lower_stmt(st13, *eb) {
                                                Err(er) => Err(er),
                                                Ok((st14, else_val)) => {
                                                    let else_exit = st14.cur;
                                                    let r15 = spec_set_term(
                                                        st14,
                                                        Terminator::Branch(merge_block),
                                                    );
                                                    if !r15.1 {
                                                        Err(TranslateError::BranchDoesNotJoin)
                                                    } else if then_exit == else_exit {
                                                        Err(TranslateError::BranchDoesNotJoin)
                                                    } else {
                                                        let st16 = spec_position_at(
                                                            r15.0,
                                                            merge_block,
                                                        );
                                                        match spec_fresh(st16) {
                                                            Err(er) => Err(er),
                                                            Ok((st17, dest)) => {
                                                                let b = st17.blocks[st17.cur as int];
                                                                let phi = SpecPhi {
                                                                    dest,
                                                                    incoming: seq![
                                                                        (then_exit, then_val),
                                                                        (else_exit, else_val),
                                                                    ],
                                                                };
                                                                let st18 = LowerState {
                                                                    blocks: st17.blocks.update(
                                                                        st17.cur as int,
                                                                        SpecBlock {
                                                                            phis: b.phis.push(phi),
                                                                            insts: b.insts,
                                                                            term: b.term,
                                                                        },
                                                                    ),
                                                                    ..st17
                                                                };
                                                                Ok((st18, dest))
                                                            },
                                                        }
                                                    }
                                                },
                                            }
                                        }
                                    },
                                }
                            },
                        }
                    },
                },
            },
        },
        _ => Err(TranslateError::UnsupportedStatement),
    }
}

/// The signature a function declaration lowers to: its name and the ordered
/// parameter spellings, no storage, one value number per parameter and no
/// blocks. It exists exactly when the declaration is a function whose name
/// and parameters are all bare identifiers.
pub open spec fn spec_lower_sig(fun: SpecStmt) -> Result<SpecIr, TranslateError> {
    match fun {
        SpecStmt::Function { name, params, body: _ } => match name {
            SpecToken::Ident(n) => {
                if forall|i: int| 0 <= i < params.len() ==> (#[trigger] params[i]) is Ident {
                    Ok(
                        SpecIr {
                            name: n,
                            params: Seq::new(params.len(), |i: int| params[i]->Ident_0),
                            slots: 0,
                            value_count: params.len() as usize,
                            blocks: Seq::empty(),
                        },
                    )
                } else {
                    Err(TranslateError::NotAFunction)
                }
            },
            _ => Err(TranslateError::NotAFunction),
        },
        _ => Err(TranslateError::NotAFunction),
    }
}

/// The entry-block setup for the declared parameters from `idx` on: for the
/// i-th parameter, one storage slot is allocated, the i-th incoming
/// parameter value is stored into it, and the parameter's name is bound to
/// the slot.
#[verifier::opaque]
pub open spec fn spec_store_params(st: LowerState, params: Seq<SpecToken>, idx: int) -> Result<
    LowerState,
    TranslateError,
>
    decreases params.len() - idx
        when 0 <= idx <= params.len()
{
    if idx == params.len() {
        Ok(st)
    } else {
        match params[idx] {
            SpecToken::Ident(x) => match spec_alloc(st) {
                Err(er) => Err(er),
                Ok((st1, slot)) => {
                    let st2 = spec_emit(st1, SpecInst::Store { slot, value: idx as usize });
                    spec_store_params(
                        LowerState { env: st2.env.push((x, slot)), ..st2 },
                        params,
                        idx + 1,
                    )
                },
            },
            _ => Err(TranslateError::NotAFunction),
        }
    }
}

/// The function a declaration lowers to, before structural verification: the
/// signature alone when the body is empty (an external declaration), else
/// the signature around a fresh context whose entry block stores every
/// parameter into its own slot, the body statements lowered in sequence, and
/// a final return of the body's value.
pub open spec fn spec_lower_function(fun: SpecStmt) -> Result<SpecIr, TranslateError> {
    match spec_lower_sig(fun) {
        Err(er) => Err(er),
        Ok(sig) => {
            let body = fun->Function_body;
            if body.len() == 0 {
                Ok(sig)
            } else {
                let st0 = LowerState { values: sig.value_count, ..spec_initial_state() };
                match spec_store_params(st0, fun->Function_params, 0) {
                    Err(er) => Err(er),
                    Ok(st1) => match spec_lower_stmts(st1, body, 0) {
                        Err(er) => Err(er),
                        Ok((st2, v)) => {
                            let st3 = spec_set_term(st2, Terminator::Return(v)).0;
                            Ok(
                                SpecIr {
                                    name: sig.name,
                                    params: sig.params,
                                    slots: st3.slots,
                                    value_count: st3.values,
                                    blocks: st3.blocks,
                                },
                            )
                        },
                    },
                }
            }
        },
    }
}

/// Decides [`spec_lookup`] on the executable environment.
#[verifier::spinoff_prover]
fn lookup_slot(vars: &Vec<(String, SlotId)>, name: &String) -> (r: Option<SlotId>)
    ensures
        r == spec_lookup(env_view(vars@), name@),
{
    let n = vars.len();
    proof {
        assert(env_view(vars@.subrange(0, n as int)) =~= env_view(vars@));
    }
    let mut i: usize = n;
    loop
        invariant
            n == vars@.len(),
            i <= n,
            spec_lookup(env_view(vars@), name@) == spec_lookup(
                env_view(vars@.subrange(0, i as int)),
                name@,
            ),
        ensures
            ({
                let r = spec_lookup(env_view(vars@), name@);
                (i == 0 && r == None::<SlotId>) || (0 < i <= n && vars@[i - 1].0@ == name@ && r
                    == Some(vars@[i - 1].1))
            }),
        decreases i,
    {
        if i == 0 {
            proof {
                assert(env_view(vars@.subrange(0, 0)) =~= Seq::<(Seq<char>, SlotId)>::empty());
            }
            break;
        }
        let ghost pre = env_view(vars@.subrange(0, i as int));
        proof {
            assert(pre.last() == (vars@[i - 1].0@, vars@[i - 1].1));
            assert(pre.drop_last() =~= env_view(vars@.subrange(0, i - 1)));
        }
        if vars[i - 1].0.eq(name) {
            break;
        }
        i = i - 1;
    }
    if i == 0 {
        None
    } else {
        Some(vars[i - 1].1)
    }
}

/// Lowers one function declaration into control-flow-graph form: signature
/// first, then an entry block whose storage slots hold the parameters, then
/// the body, then structural verification. The variable environment and the
/// current-block position are scoped to one function's lowering.
#[derive(Debug)]
pub struct Translator {
    pub variables: Vec<(String, SlotId)>,
    blocks: Vec<Block>,
    current: usize,
    slots: usize,
    value_count: usize,
}

impl Translator {
    /// The block under construction exists.
    pub closed spec fn st_wf(&self) -> bool {
        self.current < self.blocks@.len()
    }

    /// How many blocks the function under construction has.
    pub closed spec fn n_blocks(&self) -> int {
        self.blocks@.len() as int
    }

    /// The index of the block under construction.
    pub closed spec fn cur(&self) -> int {
        self.current as int
    }

    /// The lowering state this translator is in.
    pub closed spec fn lstate(&self) -> LowerState {
        LowerState {
            env: env_view(self.variables@),
            blocks: self.blocks@.map_values(|b: Block| b@),
            cur: self.current,
            slots: self.slots,
            values: self.value_count,
        }
    }

    fn new() -> (r: Translator)
        ensures
            r.st_wf(),
            r.n_blocks() == 1,
            r.cur() == 0,
            r.lstate() == spec_initial_state(),
    {
        let mut blocks: Vec<Block> = Vec::new();
        blocks.push(Block { phis: Vec::new(), insts: Vec::new(), term: None });
        let r = Translator { variables: Vec::new(), blocks, current: 0, slots: 0, value_count: 0 };
        proof {
            assert(r.lstate().env =~= spec_initial_state().env);
            assert(r.lstate().blocks =~~= spec_initial_state().blocks);
        }
        r
    }

    /// The next value number.
    fn fresh_value(&mut self) -> (r: Result<ValueId, TranslateError>)
        requires
            old(self).st_wf(),
        ensures
            final(self).st_wf(),
            final(self).n_blocks() == old(self).n_blocks(),
            final(self).cur() == old(self).cur(),
            match r {
                Ok(v) => spec_fresh(old(self).lstate()) == Ok::<
                    (LowerState, ValueId),
                    TranslateError,
                >((final(self).lstate(), v)),
                Err(e) => spec_fresh(old(self).lstate()) == Err::<
                    (LowerState, ValueId),
                    TranslateError,
                >(e) && final(self).lstate() == old(self).lstate(),
            },
    {
        if self.value_count == usize::MAX {
            return Err(TranslateError::FunctionTooLarge);
        }
        let v = self.value_count;
        self.value_count = self.value_count + 1;
        Ok(v)
    }

    /// Builds a new storage slot in the function's slot arena.
    fn create_stack_alloc(&mut self) -> (r: Result<SlotId, TranslateError>)
        requires
            old(self).st_wf(),
        ensures
            final(self).st_wf(),
            final(self).n_blocks() == old(self).n_blocks(),
            final(self).cur() == old(self).cur(),
            match r {
                Ok(s) => spec_alloc(old(self).lstate()) == Ok::<
                    (LowerState, SlotId),
                    TranslateError,
                >((final(self).lstate(), s)),
                Err(e) => spec_alloc(old(self).lstate()) == Err::<
                    (LowerState, SlotId),
                    TranslateError,
                >(e) && final(self).lstate() == old(self).lstate(),
            },
    {
        if self.slots == usize::MAX {
            return Err(TranslateError::FunctionTooLarge);
        }
        let s = self.slots;
        self.slots = self.slots + 1;
        Ok(s)
    }

    /// Appends one instruction to the block under construction.
    fn emit(&mut self, inst: Inst)
        requires
            old(self).st_wf(),
        ensures
            final(self).st_wf(),
            final(self).n_blocks() == old(self).n_blocks(),
            final(self).cur() == old(self).cur(),
            final(self).lstate() == spec_emit(old(self).lstate(), inst@),
    {
        let ghost iv = inst@;
        let k = self.current;
        self.blocks[k].insts.push(inst);
        proof {
            assert(self.lstate().blocks =~~= spec_emit(old(self).lstate(), iv).blocks);
            assert(self.lstate() == spec_emit(old(self).lstate(), iv));
        }
    }

    /// Terminates the block under construction, unless it already ends in a
    /// terminator: the first terminator of a block wins. Reports whether the
    /// terminator was placed.
    fn set_term(&mut self, t: Terminator) -> (r: bool)
        requires
            old(self).st_wf(),
        ensures
            final(self).st_wf(),
            final(self).n_blocks() == old(self).n_blocks(),
            final(self).cur() == old(self).cur(),
            ({
                let (st1, placed) = spec_set_term(old(self).lstate(), t);
                final(self).lstate() == st1 && r == placed
            }),
    {
        let k = self.current;
        match &self.blocks[k].term {
            Some(_) => {
                proof {
                    assert(old(self).lstate().blocks[k as int].term is Some);
                }
                false
            },
            None => {
                self.blocks[k].term = Some(t);
                proof {
                    assert(self.lstate().blocks =~~= spec_set_term(old(self).lstate(), t).0.blocks);
                    assert(self.lstate() == spec_set_term(old(self).lstate(), t).0);
                }
                true
            },
        }
    }

    /// Opens a new, unterminated basic block and returns its handle; the
    /// cursor stays where it was.
    fn append_block(&mut self) -> (r: usize)
        requires
            old(self).st_wf(),
        ensures
            final(self).st_wf(),
            final(self).n_blocks() == old(self).n_blocks() + 1,
            final(self).cur() == old(self).cur(),
            r as int == old(self).n_blocks(),
            ({
                let (st1, b) = spec_append_block(old(self).lstate());
                final(self).lstate() == st1 && r == b
            }),
    {
        let r = self.blocks.len();
        self.blocks.push(Block { phis: Vec::new(), insts: Vec::new(), term: None });
        proof {
            assert(self.lstate().blocks =~~= spec_append_block(old(self).lstate()).0.blocks);
            assert(self.lstate() == spec_append_block(old(self).lstate()).0);
        }
        r
    }

    /// Moves construction to block `k`.
    fn position_at(&mut self, k: usize)
        requires
            old(self).st_wf(),
            k < old(self).n_blocks(),
        ensures
            final(self).st_wf(),
            final(self).n_blocks() == old(self).n_blocks(),
            final(self).cur() == k as int,
            final(self).lstate() == spec_position_at(old(self).lstate(), k),
    {
        self.current = k;
    }

    /// The handle of the block under construction.
    fn current_block(&self) -> (r: usize)
        requires
            self.st_wf(),
        ensures
            r as int == self.cur(),
            r < self.n_blocks(),
            r == self.lstate().cur,
    {
        self.current
    }

    /// Lowers one expression into the block under construction and returns
    /// the value it denotes, exactly as [`spec_lower_expr`] says. Expression
    /// lowering never moves the cursor and never removes blocks.
    #[verifier::spinoff_prover]
    pub fn translate_expr(&mut self, expr: &Expr) -> (r: Result<ValueId, TranslateError>)
        requires
            old(self).st_wf(),
        ensures
            final(self).st_wf(),
            final(self).n_blocks() == old(self).n_blocks(),
            final(self).cur() == old(self).cur(),
            match r {
                Ok(v) => spec_lower_expr(old(self).lstate(), expr@) == Ok::<
                    (LowerState, ValueId),
                    TranslateError,
                >((final(self).lstate(), v)),
                Err(e) => spec_lower_expr(old(self).lstate(), expr@) == Err::<
                    (LowerState, ValueId),
                    TranslateError,
                >(e),
            },
        decreases *expr,
    {
        reveal_with_fuel(spec_lower_expr, 1);
        let ghost st0 = self.lstate();
        match expr {
            Expr::Literal { value } => {
                let lit: String = if value.eq(&String::from_str("true")) {
                    String::from_str("1")
                } else if value.eq(&String::from_str("false")) {
                    String::from_str("0")
                } else {
                    if !numeric_text(value.as_str()) {
                        proof {
                            assert(spec_lower_expr(st0, expr@) == Err::<
                                (LowerState, ValueId),
                                TranslateError,
                            >(TranslateError::MalformedLiteral));
                        }
                        return Err(TranslateError::MalformedLiteral);
                    }
                    value.clone()
                };
                proof {
                    assert(spec_literal_text(expr@->Literal_value) == Ok::<
                        Seq<char>,
                        TranslateError,
                    >(lit@));
                }
                let dest = match self.fresh_value() {
                    Ok(v) => v,
                    Err(e) => {
                        return Err(e);
                    },
                };
                self.emit(Inst::Const { dest, literal: lit });
                Ok(dest)
            },
            Expr::Variable { name } => match name {
                Token::Ident(id) => match lookup_slot(&self.variables, id) {
                    Some(slot) => {
                        let dest = match self.fresh_value() {
                            Ok(v) => v,
                            Err(e) => {
                                return Err(e);
                            },
                        };
                        self.emit(Inst::Load { dest, slot });
                        Ok(dest)
                    },
                    None => Err(TranslateError::VariableNotFound),
                },
                _ => Err(TranslateError::UnsupportedExpression),
            },
            Expr::BinaryExpr { op, left, right } => {
                let lhs = match self.translate_expr(left) {
                    Ok(v) => v,
                    Err(e) => {
                        return Err(e);
                    },
                };
                let rhs = match self.translate_expr(right) {
                    Ok(v) => v,
                    Err(e) => {
                        return Err(e);
                    },
                };
                let dest = match self.fresh_value() {
                    Ok(v) => v,
                    Err(e) => {
                        return Err(e);
                    },
                };
                match op {
                    Token::Plus => {
                        self.emit(Inst::Add { dest, lhs, rhs });
                        Ok(dest)
                    },
                    Token::Minus => {
                        self.emit(Inst::Sub { dest, lhs, rhs });
                        Ok(dest)
                    },
                    Token::Less => {
                        self.emit(Inst::CmpLt { dest, lhs, rhs });
                        Ok(dest)
                    },
                    Token::Greater => {
                        self.emit(Inst::CmpGt { dest, lhs, rhs });
                        Ok(dest)
                    },
                    _ => Err(TranslateError::UnsupportedOperator),
                }
            },
            _ => Err(TranslateError::UnsupportedExpression),
        }
    }

    /// Lowers one statement and returns its value under the tail-expression
    /// convention, exactly as [`spec_lower_stmt`] says. The cursor only
    /// stays put or moves to blocks opened during this lowering, and no
    /// block is removed.
    #[verifier::spinoff_prover]
    fn translate_stmt(&mut self, stmt: &Stmt) -> (r: Result<ValueId, TranslateError>)
        requires
            old(self).st_wf(),
        ensures
            final(self).st_wf(),
            final(self).n_blocks() >= old(self).n_blocks(),
            final(self).cur() == old(self).cur() || final(self).cur() >= old(self).n_blocks(),
            match r {
                Ok(v) => spec_lower_stmt(old(self).lstate(), stmt@) == Ok::<
                    (LowerState, ValueId),
                    TranslateError,
                >((final(self).lstate(), v)),
                Err(e) => spec_lower_stmt(old(self).lstate(), stmt@) == Err::<
                    (LowerState, ValueId),
                    TranslateError,
                >(e),
            },
        decreases *stmt, 3int, 0int,
    {
        reveal_with_fuel(spec_lower_stmt, 1);
        let ghost st0 = self.lstate();
        match stmt {
            Stmt::Expr(e) => self.translate_expr(e),
            Stmt::Return { keyword: _, value } => {
                let v = match value {
                    Some(e) => {
                        match self.translate_expr(e) {
                            Ok(v) => v,
                            Err(e) => {
                                return Err(e);
                            },
                        }
                    },
                    None => {
                        let dest = match self.fresh_value() {
                            Ok(v) => v,
                            Err(e) => {
                                return Err(e);
                            },
                        };
                        self.emit(Inst::Const { dest, literal: String::from_str("0") });
                        dest
                    },
                };
                self.set_term(Terminator::Return(v));
                Ok(v)
            },
            Stmt::Block(stmts) => self.translate_block(stmts, 0),
            Stmt::If { cond: _, then_branch: _, else_branch: _ } => self.translate_conditional(
                stmt,
            ),
            Stmt::Var { name, initializer } => match name {
                Token::Ident(id) => {
                    let v = match self.translate_expr(initializer) {
                        Ok(v) => v,
                        Err(e) => {
                            return Err(e);
                        },
                    };
                    let slot = match self.create_stack_alloc() {
                        Ok(s) => s,
                        Err(e) => {
                            return Err(e);
                        },
                    };
                    self.emit(Inst::Store { slot, value: v });
                    let ghost st3 = self.lstate();
                    let xc = id.clone();
                    self.variables.push((xc, slot));
                    proof {
                        assert(self.lstate().env =~= st3.env.push((id@, slot)));
                        assert(self.lstate() == LowerState { env: st3.env.push((id@, slot)), ..st3 });
                    }
                    Ok(v)
                },
                _ => Err(TranslateError::UnsupportedStatement),
            },
            _ => Err(TranslateError::UnsupportedStatement),
        }
    }

    /// Lowers the statements of a block from `idx` on, in sequence,
    /// threading control through each, and yields the last statement's value
    /// (an empty tail yields the zero constant), exactly as
    /// [`spec_lower_stmts`] says.
    #[verifier::spinoff_prover]
    fn translate_block(&mut self, stmts: &Vec<Box<Stmt>>, idx: usize) -> (r: Result<
        ValueId,
        TranslateError,
    >)
        requires
            old(self).st_wf(),
            idx <= stmts@.len(),
        ensures
            final(self).st_wf(),
            final(self).n_blocks() >= old(self).n_blocks(),
            final(self).cur() == old(self).cur() || final(self).cur() >= old(self).n_blocks(),
            match r {
                Ok(v) => spec_lower_stmts(old(self).lstate(), stmts_view(stmts@), idx as int)
                    == Ok::<(LowerState, ValueId), TranslateError>((final(self).lstate(), v)),
                Err(e) => spec_lower_stmts(old(self).lstate(), stmts_view(stmts@), idx as int)
                    == Err::<(LowerState, ValueId), TranslateError>(e),
            },
        decreases *stmts, 2int, stmts@.len() - idx,
    {
        reveal_with_fuel(spec_lower_stmts, 1);
        let ghost st0 = self.lstate();
        proof {
            lemma_stmts_view_len(stmts@);
        }
        if idx == stmts.len() {
            let dest = match self.fresh_value() {
                Ok(v) => v,
                Err(e) => {
                    return Err(e);
                },
            };
            self.emit(Inst::Const { dest, literal: String::from_str("0") });
            return Ok(dest);
        }
        let v = match self.translate_stmt(&stmts[idx]) {
            Ok(v) => v,
            Err(e) => {
                proof {
                    lemma_stmts_view_index(stmts@, idx as int);
                }
                return Err(e);
            },
        };
        proof {
            lemma_stmts_view_index(stmts@, idx as int);
        }
        if idx + 1 == stmts.len() {
            Ok(v)
        } else {
            self.translate_block(stmts, idx + 1)
        }
    }

    /// Lowers an `if` with both branches exactly as
    /// [`spec_lower_conditional`] says: the condition is compared against a
    /// zero constant for inequality, control branches to fresh then and else
    /// blocks, each branch lowers into its block and joins a fresh merge
    /// block, and the statement's value is a phi listing exactly the two
    /// branch-exit values tagged with their distinct branch-exit blocks. A
    /// branch that ends in its own return does not join, and the lowering
    /// fails rather than leave the phi short.
    #[verifier::spinoff_prover]
    pub fn translate_conditional(&mut self, if_stmt: &Stmt) -> (r: Result<
        ValueId,
        TranslateError,
    >)
        requires
            old(self).st_wf(),
        ensures
            final(self).st_wf(),
            final(self).n_blocks() >= old(self).n_blocks(),
            final(self).cur() == old(self).cur() || final(self).cur() >= old(self).n_blocks(),
            match r {
                Ok(v) => spec_lower_conditional(old(self).lstate(), if_stmt@) == Ok::<
                    (LowerState, ValueId),
                    TranslateError,
                >((final(self).lstate(), v)),
                Err(e) => spec_lower_conditional(old(self).lstate(), if_stmt@) == Err::<
                    (LowerState, ValueId),
                    TranslateError,
                >(e),
            },
        decreases *if_stmt, 1int, 0int,
    {
        reveal_with_fuel(spec_lower_conditional, 1);
        let ghost st0 = self.lstate();
        let (cond, then_branch, else_stmt): (&Expr, &Stmt, &Stmt) = match if_stmt {
            Stmt::If { cond, then_branch, else_branch } => {
                match else_branch {
                    Some(b) => (cond, then_branch, b),
                    None => {
                        return Err(TranslateError::MissingElseBranch);
                    },
                }
            },
            _ => {
                return Err(TranslateError::UnsupportedStatement);
            },
        };
        let c = match self.translate_expr(cond) {
            Ok(v) => v,
            Err(e) => {
                return Err(e);
            },
        };
        let zero = match self.fresh_value() {
            Ok(v) => v,
            Err(e) => {
                return Err(e);
            },
        };
        self.emit(Inst::Const { dest: zero, literal: String::from_str("0") });
        let ne = match self.fresh_value() {
            Ok(v) => v,
            Err(e) => {
                return Err(e);
            },
        };
        self.emit(Inst::CmpNe { dest: ne, lhs: c, rhs: zero });
        let then_block = self.append_block();
        let else_block = self.append_block();
        let merge_block = self.append_block();
        self.set_term(Terminator::CondBranch { cond: ne, then_block, else_block });

        self.position_at(then_block);
        let then_val = match self.translate_stmt(then_branch) {
            Ok(v) => v,
            Err(e) => {
                return Err(e);
            },
        };
        let then_exit = self.current_block();
        if !self.set_term(Terminator::Branch(merge_block)) {
            return Err(TranslateError::BranchDoesNotJoin);
        }

        self.position_at(else_block);
        let else_val = match self.translate_stmt(else_stmt) {
            Ok(v) => v,
            Err(e) => {
                return Err(e);
            },
        };
        let else_exit = self.current_block();
        if !self.set_term(Terminator::Branch(merge_block)) {
            return Err(TranslateError::BranchDoesNotJoin);
        }
        if then_exit == else_exit {
            return Err(TranslateError::BranchDoesNotJoin);
        }

        self.position_at(merge_block);
        let dest = match self.fresh_value() {
            Ok(v) => v,
            Err(e) => {
                return Err(e);
            },
        };
        let ghost st17 = self.lstate();
        let mut incoming: Vec<(usize, ValueId)> = Vec::new();
        incoming.push((then_exit, then_val));
        incoming.push((else_exit, else_val));
        let k = self.current_block();
        let ghost phiv = SpecPhi {
            dest,
            incoming: seq![(then_exit, then_val), (else_exit, else_val)],
        };
        proof {
            assert(incoming@ =~= phiv.incoming);
        }
        self.push_phi(Phi { dest, incoming });
        proof {
            let b = st17.blocks[st17.cur as int];
            assert(self.lstate() == LowerState {
                blocks: st17.blocks.update(
                    st17.cur as int,
                    SpecBlock { phis: b.phis.push(phiv), insts: b.insts, term: b.term },
                ),
                ..st17
            });
        }
        Ok(dest)
    }

    /// Appends one phi to the block under construction.
    fn push_phi(&mut self, p: Phi)
        requires
            old(self).st_wf(),
        ensures
            final(self).st_wf(),
            final(self).n_blocks() == old(self).n_blocks(),
            final(self).cur() == old(self).cur(),
            ({
                let st = old(self).lstate();
                let b = st.blocks[st.cur as int];
                final(self).lstate() == LowerState {
                    blocks: st.blocks.update(
                        st.cur as int,
                        SpecBlock { phis: b.phis.push(p@), insts: b.insts, term: b.term },
                    ),
                    ..st
                }
            }),
    {
        let ghost pv = p@;
        let k = self.current;
        self.blocks[k].phis.push(p);
        proof {
            let st = old(self).lstate();
            let b = st.blocks[st.cur as int];
            assert(self.lstate().blocks =~~= st.blocks.update(
                st.cur as int,
                SpecBlock { phis: b.phis.push(pv), insts: b.insts, term: b.term },
            ));
        }
    }

    /// Builds the function signature alone, exactly as [`spec_lower_sig`]
    /// says: the name, the ordered parameter spellings and no blocks (an
    /// external declaration); it exists exactly when the declaration is a
    /// function whose name and parameters are bare identifiers.
    #[verifier::spinoff_prover]
    pub fn translate_function_sig(&self, fun: &Stmt) -> (r: Result<IrFunction, TranslateError>)
        ensures
            match spec_lower_sig(fun@) {
                Ok(sv) => (match r {
                    Ok(f) => f@ == sv,
                    Err(_) => false,
                }),
                Err(e0) => r == Err::<IrFunction, TranslateError>(e0),
            },
    {
        match fun {
            Stmt::Function { name, params, body: _ } => {
                let ghost pv = params@.map_values(|t: Token| t@);
                proof {
                    assert(pv =~= fun@->Function_params);
                }
                let fname = match name {
                    Token::Ident(x) => x.clone(),
                    _ => {
                        return Err(TranslateError::NotAFunction);
                    },
                };
                let np = params.len();
                let mut ps: Vec<String> = Vec::new();
                let mut i: usize = 0;
                while i < np
                    invariant
                        np == params@.len(),
                        pv == params@.map_values(|t: Token| t@),
                        fun@ is Function,
                        fun@->Function_name is Ident,
                        fun@->Function_params == pv,
                        i <= np,
                        ps@.len() == i as int,
                        forall|x: int| 0 <= x < i ==> (#[trigger] pv[x]) is Ident,
                        forall|x: int| 0 <= x < i ==> (#[trigger] ps@[x])@ == pv[x]->Ident_0,
                    decreases np - i,
                {
                    match &params[i] {
                        Token::Ident(x) => {
                            ps.push(x.clone());
                        },
                        _ => {
                            proof {
                                assert(pv[i as int] == params@[i as int]@);
                                assert(!((fun@->Function_params)[i as int] is Ident));
                                assert(spec_lower_sig(fun@) == Err::<SpecIr, TranslateError>(
                                    TranslateError::NotAFunction,
                                ));
                            }
                            return Err(TranslateError::NotAFunction);
                        },
                    }
                    i = i + 1;
                }
                let f = IrFunction {
                    name: fname,
                    params: ps,
                    slots: 0,
                    value_count: np,
                    blocks: Vec::new(),
                };
                proof {
                    assert(forall|x: int| 0 <= x < pv.len() ==> (#[trigger] pv[x]) is Ident);
                    assert(f@.params =~= Seq::new(pv.len(), |x: int| pv[x]->Ident_0));
                    assert(f@.blocks =~= Seq::<SpecBlock>::empty());
                    assert(f@ == spec_lower_sig(fun@)->Ok_0);
                }
                Ok(f)
            },
            _ => Err(TranslateError::NotAFunction),
        }
    }

    /// Lowers one function declaration exactly as [`spec_lower_function`]
    /// says — the signature, an entry block that stores each incoming
    /// parameter into its own storage slot, every body statement in
    /// sequence, and a final return of the body's value — and then verifies
    /// the built function structurally: the result is returned exactly when
    /// it is well formed, and discarded as invalid otherwise. An empty body
    /// yields the signature alone. Lowering begins from a fresh per-function
    /// context.
    #[verifier::spinoff_prover]
    pub fn translate_function(&mut self, fun: &Stmt) -> (r: Result<IrFunction, TranslateError>)
        ensures
            final(self).st_wf(),
            match spec_lower_function(fun@) {
                Err(e0) => r == Err::<IrFunction, TranslateError>(e0),
                Ok(fv) => match r {
                    Ok(f) => f@ == fv && spec_wf(fv),
                    Err(e) => e == TranslateError::InvalidGeneratedFunction && !spec_wf(fv),
                },
            },
    {
        let mut tr = Translator::new();
        core::mem::swap(self, &mut tr);
        let sig = match self.translate_function_sig(fun) {
            Ok(s) => s,
            Err(e) => {
                return Err(e);
            },
        };
        let (params, body) = match fun {
            Stmt::Function { name: _, params, body } => (params, body),
            _ => {
                proof {
                    assert(false);
                }
                return Err(TranslateError::NotAFunction);
            },
        };
        let ghost pv = params@.map_values(|t: Token| t@);
        proof {
            assert(pv =~= fun@->Function_params);
            assert(fun@->Function_body == stmts_view(body@));
            lemma_stmts_view_len(body@);
        }
        if body.len() == 0 {
            return Ok(sig);
        }
        self.value_count = params.len();
        let ghost st0 = self.lstate();
        proof {
            assert(st0 == LowerState { values: pv.len() as usize, ..spec_initial_state() });
            assert(st0 == LowerState {
                values: spec_lower_sig(fun@)->Ok_0.value_count,
                ..spec_initial_state()
            });
        }
        let np = params.len();
        let mut i: usize = 0;
        while i < np
            invariant
                np == params@.len(),
                pv == params@.map_values(|t: Token| t@),
                fun@ is Function,
                fun@->Function_params == pv,
                fun@->Function_body == stmts_view(body@),
                body@.len() != 0,
                spec_lower_sig(fun@) == Ok::<SpecIr, TranslateError>(sig@),
                st0 == (LowerState {
                    values: spec_lower_sig(fun@)->Ok_0.value_count,
                    ..spec_initial_state()
                }),
                forall|x: int| 0 <= x < pv.len() ==> (#[trigger] pv[x]) is Ident,
                i <= np,
                self.st_wf(),
                spec_store_params(st0, pv, 0) == spec_store_params(self.lstate(), pv, i as int),
            decreases np - i,
        {
            reveal_with_fuel(spec_store_params, 1);
            let ghost sti = self.lstate();
            match &params[i] {
                Token::Ident(x) => {
                    let slot = match self.create_stack_alloc() {
                        Ok(s) => s,
                        Err(e) => {
                            proof {
                                assert(spec_store_params(st0, pv, 0) == Err::<
                                    LowerState,
                                    TranslateError,
                                >(e));
                                assert(spec_store_params(st0, fun@->Function_params, 0) == Err::<
                                    LowerState,
                                    TranslateError,
                                >(e));
                                assert(spec_lower_function(fun@) == Err::<SpecIr, TranslateError>(
                                    e,
                                ));
                            }
                            return Err(e);
                        },
                    };
                    self.emit(Inst::Store { slot, value: i });
                    let ghost st2 = self.lstate();
                    let xc = x.clone();
                    self.variables.push((xc, slot));
                    proof {
                        assert(self.lstate().env =~= st2.env.push((x@, slot)));
                        assert(self.lstate() == LowerState {
                            env: st2.env.push((x@, slot)),
                            ..st2
                        });
                        assert(spec_store_params(sti, pv, i as int) == spec_store_params(
                            self.lstate(),
                            pv,
                            i + 1,
                        ));
                    }
                },
                _ => {
                    proof {
                        assert(false);
                    }
                    return Err(TranslateError::NotAFunction);
                },
            }
            i = i + 1;
        }
        proof {
            reveal_with_fuel(spec_store_params, 1);
            assert(spec_store_params(st0, pv, 0) == Ok::<LowerState, TranslateError>(
                self.lstate(),
            ));
        }
        let v = match self.translate_block(body, 0) {
            Ok(v) => v,
            Err(e) => {
                return Err(e);
            },
        };
        self.set_term(Terminator::Return(v));
        let ghost stf = self.lstate();
        let mut blocks: Vec<Block> = Vec::new();
        core::mem::swap(&mut blocks, &mut self.blocks);
        let f = IrFunction {
            name: sig.name,
            params: sig.params,
            slots: self.slots,
            value_count: self.value_count,
            blocks,
        };
        let mut fresh = Translator::new();
        core::mem::swap(self, &mut fresh);
        proof {
            assert(f@.blocks == stf.blocks);
            assert(f@ == spec_lower_function(fun@)->Ok_0);
        }
        if verify(&f) {
            Ok(f)
        } else {
            Err(TranslateError::InvalidGeneratedFunction)
        }
    }

    /// Lowers one function declaration into the build session: exactly when
    /// [`spec_lower_function`] yields a well-formed function, that function
    /// is registered and its handle returned; otherwise the named failure
    /// comes back and nothing is registered.
    #[verifier::spinoff_prover]
    pub fn translate(module: &mut IrModule, stmt: &Stmt) -> (r: Result<usize, TranslateError>)
        ensures
            match spec_lower_function(stmt@) {
                Err(e0) => r == Err::<usize, TranslateError>(e0) && final(module).functions == old(module).functions,
                Ok(fv) => ({
                    if spec_wf(fv) {
                        match r {
                            Ok(ix) => ix as int == old(module).functions@.len() && final(module).functions@.len() == old(module).functions@.len() + 1 && final(module).functions@[ix as int]@ == fv && (forall|k: int|
                                0 <= k < old(module).functions@.len() ==> final(module).functions@[k] == #[trigger] old(module).functions@[k]),
                            Err(_) => false,
                        }
                    } else {
                        r == Err::<usize, TranslateError>(TranslateError::InvalidGeneratedFunction)
                            && final(module).functions == old(module).functions
                    }
                }),
            },
    {
        let mut tr = Translator::new();
        let f = match tr.translate_function(stmt) {
            Ok(f) => f,
            Err(e) => {
                return Err(e);
            },
        };
        let ix = module.functions.len();
        module.functions.push(f);
        Ok(ix)
    }
}

} // verus!
