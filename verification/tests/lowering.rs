use mai::ast::Stmt;
use mai::ir::{verify, Block, Inst, IrFunction, Phi, Terminator};
use mai::lexer::TokenLexer;
use mai::parser::Parser;
use mai::translator::{IrModule, TranslateError, Translator};

fn parse_one(src: &str) -> Box<Stmt> {
    let tokens = TokenLexer::new(src).tokens().expect("input lexes");
    let mut stmts = Parser::new(tokens).parse().expect("input parses");
    assert_eq!(stmts.len(), 1);
    stmts.remove(0)
}

#[test]
fn lowering_a_one_parameter_function() {
    let f = parse_one("fun f(x) { return x + 1; }");
    let mut m = IrModule::new();
    let ix = Translator::translate(&mut m, &f).expect("function lowers");
    let fun = &m.functions[ix];
    assert_eq!(fun.name, "f");
    assert_eq!(fun.params, vec!["x".to_string()]);
    assert_eq!(fun.slots, 1);
    assert!(verify(fun));
    assert_eq!(fun.blocks.len(), 1);
    let entry = &fun.blocks[0];
    assert_eq!(entry.insts[0], Inst::Store { slot: 0, value: 0 });
    assert_eq!(entry.insts[1], Inst::Load { dest: 1, slot: 0 });
    assert_eq!(
        entry.insts[2],
        Inst::Const {
            dest: 2,
            literal: "1".to_string(),
        }
    );
    assert_eq!(entry.insts[3], Inst::Add { dest: 3, lhs: 1, rhs: 2 });
    assert_eq!(entry.term, Some(Terminator::Return(3)));
}

#[test]
fn lowered_conditional_merges_through_a_two_way_phi() {
    let f = parse_one("fun pick() { var x = 3; if (x < 5) { x; } else { 0; } }");
    let mut m = IrModule::new();
    let ix = Translator::translate(&mut m, &f).expect("function lowers");
    let fun = &m.functions[ix];
    assert!(verify(fun));
    assert_eq!(fun.blocks.len(), 4);
    match fun.blocks[0].term {
        Some(Terminator::CondBranch {
            then_block: 1,
            else_block: 2,
            ..
        }) => {}
        ref t => panic!("unexpected entry terminator: {:?}", t),
    }
    // Both branch exits jump to the merge block.
    assert_eq!(fun.blocks[1].term, Some(Terminator::Branch(3)));
    assert_eq!(fun.blocks[2].term, Some(Terminator::Branch(3)));
    // The merge phi lists exactly the two branch-exit values, tagged with
    // the two distinct branch-exit blocks; the then tag selects the
    // then-branch value (the load of x), the else tag the else value.
    let merge = &fun.blocks[3];
    assert_eq!(merge.phis.len(), 1);
    let phi = &merge.phis[0];
    assert_eq!(phi.incoming.len(), 2);
    assert_eq!(phi.incoming[0].0, 1);
    assert_eq!(phi.incoming[1].0, 2);
    assert_ne!(phi.incoming[0].0, phi.incoming[1].0);
    assert_eq!(fun.blocks[1].insts.len(), 1);
    match fun.blocks[1].insts[0] {
        Inst::Load { dest, slot: 0 } => assert_eq!(phi.incoming[0].1, dest),
        ref i => panic!("unexpected then instruction: {:?}", i),
    }
    match fun.blocks[2].insts[0] {
        Inst::Const { dest, ref literal } => {
            assert_eq!(literal, "0");
            assert_eq!(phi.incoming[1].1, dest);
        }
        ref i => panic!("unexpected else instruction: {:?}", i),
    }
    // The function returns the phi's value.
    assert_eq!(merge.term, Some(Terminator::Return(phi.dest)));
}

#[test]
fn verifying_a_verified_function_again_succeeds_unchanged() {
    let f = parse_one("fun f(x) { return x + 1; }");
    let mut m = IrModule::new();
    let ix = Translator::translate(&mut m, &f).expect("function lowers");
    let fun = &m.functions[ix];
    let name_before = fun.name.clone();
    let first = verify(fun);
    let second = verify(fun);
    assert!(first);
    assert!(second);
    assert_eq!(fun.name, name_before);
}

#[test]
fn boolean_literals_lower_to_one_and_zero() {
    let f = parse_one("fun t() { return true; }");
    let mut m = IrModule::new();
    let ix = Translator::translate(&mut m, &f).expect("function lowers");
    let fun = &m.functions[ix];
    assert_eq!(
        fun.blocks[0].insts[0],
        Inst::Const {
            dest: 0,
            literal: "1".to_string(),
        }
    );
}

#[test]
fn an_empty_body_yields_the_signature_alone() {
    let f = parse_one("fun ext(a, b) {}");
    let mut m = IrModule::new();
    let ix = Translator::translate(&mut m, &f).expect("signature lowers");
    let fun = &m.functions[ix];
    assert_eq!(fun.name, "ext");
    assert_eq!(fun.params.len(), 2);
    assert!(fun.blocks.is_empty());
    assert!(verify(fun));
}

#[test]
fn lowering_failures_are_named_and_register_nothing() {
    let mut m = IrModule::new();
    let f = parse_one("fun f() { return y; }");
    assert_eq!(
        Translator::translate(&mut m, &f),
        Err(TranslateError::VariableNotFound)
    );
    let f = parse_one("fun f(x) { return x / x; }");
    assert_eq!(
        Translator::translate(&mut m, &f),
        Err(TranslateError::UnsupportedOperator)
    );
    let f = parse_one("fun f() { return 1.2.3; }");
    assert_eq!(
        Translator::translate(&mut m, &f),
        Err(TranslateError::MalformedLiteral)
    );
    let f = parse_one("fun f(x) { if (x) { x; } }");
    assert_eq!(
        Translator::translate(&mut m, &f),
        Err(TranslateError::MissingElseBranch)
    );
    let f = parse_one("fun f(x) { while (x) { x; } }");
    assert_eq!(
        Translator::translate(&mut m, &f),
        Err(TranslateError::UnsupportedStatement)
    );
    let f = parse_one("x;");
    assert_eq!(
        Translator::translate(&mut m, &f),
        Err(TranslateError::NotAFunction)
    );
    assert!(m.functions.is_empty());
}

#[test]
fn the_verifier_rejects_an_unterminated_block() {
    let f = IrFunction {
        name: "broken".to_string(),
        params: vec![],
        slots: 0,
        value_count: 0,
        blocks: vec![Block {
            phis: vec![],
            insts: vec![],
            term: None,
        }],
    };
    assert!(!verify(&f));
}

#[test]
fn the_verifier_rejects_a_use_before_definition() {
    let f = IrFunction {
        name: "broken".to_string(),
        params: vec![],
        slots: 0,
        value_count: 1,
        blocks: vec![Block {
            phis: vec![],
            insts: vec![Inst::Add {
                dest: 0,
                lhs: 0,
                rhs: 0,
            }],
            term: Some(Terminator::Return(0)),
        }],
    };
    assert!(!verify(&f));
}

#[test]
fn the_verifier_rejects_a_phi_tagged_with_a_non_predecessor() {
    // The only block ends in a return, so it is no predecessor of itself.
    let f = IrFunction {
        name: "broken".to_string(),
        params: vec![],
        slots: 0,
        value_count: 2,
        blocks: vec![Block {
            phis: vec![Phi {
                dest: 1,
                incoming: vec![(0, 0)],
            }],
            insts: vec![Inst::Const {
                dest: 0,
                literal: "0".to_string(),
            }],
            term: Some(Terminator::Return(0)),
        }],
    };
    assert!(!verify(&f));
}

#[test]
fn the_verifier_rejects_a_phi_missing_a_predecessor() {
    // Blocks 0 and 1 both branch to block 2, but the phi tags only block 0:
    // the incoming set is not in 1:1 correspondence with the predecessors.
    let f = IrFunction {
        name: "broken".to_string(),
        params: vec![],
        slots: 0,
        value_count: 2,
        blocks: vec![
            Block {
                phis: vec![],
                insts: vec![Inst::Const {
                    dest: 0,
                    literal: "0".to_string(),
                }],
                term: Some(Terminator::Branch(2)),
            },
            Block {
                phis: vec![],
                insts: vec![],
                term: Some(Terminator::Branch(2)),
            },
            Block {
                phis: vec![Phi {
                    dest: 1,
                    incoming: vec![(0, 0)],
                }],
                insts: vec![],
                term: Some(Terminator::Return(1)),
            },
        ],
    };
    assert!(!verify(&f));
}
