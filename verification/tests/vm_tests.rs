use cino::ir::{
    IrExpr, IrExprKind, IrFunction, IrMatchArm, IrParam, IrPattern, IrPatternField, IrPatternKind,
    IrProgram, IrType, SourceLoc,
};
use cino::syntax::{BinaryOp, FnKind};
use cino::vm::{IrVmProgram, VmErrorCode, VmLimits, VmProgram, VmValue};

fn loc() -> SourceLoc {
    SourceLoc { line: 1, column: 1 }
}

#[test]
fn ir_vm_executes_minimum_update_and_query() {
    let update = IrFunction {
        kind: FnKind::Update,
        name: "update".to_string(),
        params: vec![
            IrParam {
                name: "state".to_string(),
                ty: IrType::Int,
                span: loc(),
            },
            IrParam {
                name: "event".to_string(),
                ty: IrType::Named {
                    name: "Event".to_string(),
                    args: vec![],
                },
                span: loc(),
            },
        ],
        return_type: IrType::Tuple(vec![
            IrType::Int,
            IrType::Named {
                name: "List".to_string(),
                args: vec![IrType::Named {
                    name: "Action".to_string(),
                    args: vec![],
                }],
            },
        ]),
        body: IrExpr {
            kind: IrExprKind::Match {
                subject: Box::new(IrExpr {
                    kind: IrExprKind::LocalRef {
                        name: "event".to_string(),
                    },
                    ty: IrType::Named {
                        name: "Event".to_string(),
                        args: vec![],
                    },
                    span: loc(),
                }),
                arms: vec![IrMatchArm {
                    pattern: IrPattern {
                        kind: IrPatternKind::Variant {
                            name: "Add".to_string(),
                            fields: vec![
                                IrPatternField {
                                    name: "delta".to_string(),
                                    pattern: IrPattern {
                                        kind: IrPatternKind::Binding {
                                            name: "delta".to_string(),
                                        },
                                        ty: IrType::Int,
                                        span: loc(),
                                    },
                                    span: loc(),
                                },
                                IrPatternField {
                                    name: "actions".to_string(),
                                    pattern: IrPattern {
                                        kind: IrPatternKind::Binding {
                                            name: "actions".to_string(),
                                        },
                                        ty: IrType::Named {
                                            name: "List".to_string(),
                                            args: vec![IrType::Named {
                                                name: "Action".to_string(),
                                                args: vec![],
                                            }],
                                        },
                                        span: loc(),
                                    },
                                    span: loc(),
                                },
                            ],
                        },
                        ty: IrType::Named {
                            name: "Event".to_string(),
                            args: vec![],
                        },
                        span: loc(),
                    },
                    body: IrExpr {
                        kind: IrExprKind::Tuple(vec![
                            IrExpr {
                                kind: IrExprKind::Binary {
                                    lhs: Box::new(IrExpr {
                                        kind: IrExprKind::LocalRef {
                                            name: "state".to_string(),
                                        },
                                        ty: IrType::Int,
                                        span: loc(),
                                    }),
                                    op: BinaryOp::Add,
                                    rhs: Box::new(IrExpr {
                                        kind: IrExprKind::LocalRef {
                                            name: "delta".to_string(),
                                        },
                                        ty: IrType::Int,
                                        span: loc(),
                                    }),
                                },
                                ty: IrType::Int,
                                span: loc(),
                            },
                            IrExpr {
                                kind: IrExprKind::LocalRef {
                                    name: "actions".to_string(),
                                },
                                ty: IrType::Named {
                                    name: "List".to_string(),
                                    args: vec![IrType::Named {
                                        name: "Action".to_string(),
                                        args: vec![],
                                    }],
                                },
                                span: loc(),
                            },
                        ]),
                        ty: IrType::Tuple(vec![
                            IrType::Int,
                            IrType::Named {
                                name: "List".to_string(),
                                args: vec![IrType::Named {
                                    name: "Action".to_string(),
                                    args: vec![],
                                }],
                            },
                        ]),
                        span: loc(),
                    },
                    span: loc(),
                }],
            },
            ty: IrType::Tuple(vec![
                IrType::Int,
                IrType::Named {
                    name: "List".to_string(),
                    args: vec![IrType::Named {
                        name: "Action".to_string(),
                        args: vec![],
                    }],
                },
            ]),
            span: loc(),
        },
        span: loc(),
    };

    let query = IrFunction {
        kind: FnKind::Query,
        name: "query".to_string(),
        params: vec![
            IrParam {
                name: "state".to_string(),
                ty: IrType::Int,
                span: loc(),
            },
            IrParam {
                name: "q".to_string(),
                ty: IrType::Named {
                    name: "Query".to_string(),
                    args: vec![],
                },
                span: loc(),
            },
        ],
        return_type: IrType::Int,
        body: IrExpr {
            kind: IrExprKind::LocalRef {
                name: "state".to_string(),
            },
            ty: IrType::Int,
            span: loc(),
        },
        span: loc(),
    };

    let vm = IrVmProgram::from_ir(IrProgram {
        functions: vec![update, query],
    })
    .expect("build vm from ir");

    let fields = vec![
        (
            "actions".to_string(),
            VmValue::List(vec![VmValue::String("notify".to_string())]),
        ),
        ("delta".to_string(), VmValue::Int(7)),
    ];

    let event = VmValue::Enum {
        tag: "Add".to_string(),
        fields,
    };

    let (next_state, actions) = vm
        .update(&VmValue::Int(10), &event, &VmLimits::default())
        .expect("update should succeed");
    assert_eq!(next_state, VmValue::Int(17));
    assert_eq!(actions, vec![VmValue::String("notify".to_string())]);

    let queried = vm
        .query(&next_state, &VmValue::Unit, &VmLimits::default())
        .expect("query should succeed");
    assert_eq!(queried, VmValue::Int(17));
}

#[test]
fn ir_vm_returns_structured_error_on_step_limit() {
    let recurse = IrFunction {
        kind: FnKind::User,
        name: "loop_forever".to_string(),
        params: vec![IrParam {
            name: "x".to_string(),
            ty: IrType::Int,
            span: loc(),
        }],
        return_type: IrType::Int,
        body: IrExpr {
            kind: IrExprKind::Call {
                callee: "loop_forever".to_string(),
                args: vec![IrExpr {
                    kind: IrExprKind::LocalRef {
                        name: "x".to_string(),
                    },
                    ty: IrType::Int,
                    span: loc(),
                }],
            },
            ty: IrType::Int,
            span: loc(),
        },
        span: loc(),
    };

    let update = IrFunction {
        kind: FnKind::Update,
        name: "update".to_string(),
        params: vec![
            IrParam {
                name: "state".to_string(),
                ty: IrType::Int,
                span: loc(),
            },
            IrParam {
                name: "event".to_string(),
                ty: IrType::Named {
                    name: "List".to_string(),
                    args: vec![IrType::Named {
                        name: "Action".to_string(),
                        args: vec![],
                    }],
                },
                span: loc(),
            },
        ],
        return_type: IrType::Tuple(vec![
            IrType::Int,
            IrType::Named {
                name: "List".to_string(),
                args: vec![IrType::Named {
                    name: "Action".to_string(),
                    args: vec![],
                }],
            },
        ]),
        body: IrExpr {
            kind: IrExprKind::Tuple(vec![
                IrExpr {
                    kind: IrExprKind::LocalRef {
                        name: "state".to_string(),
                    },
                    ty: IrType::Int,
                    span: loc(),
                },
                IrExpr {
                    kind: IrExprKind::LocalRef {
                        name: "event".to_string(),
                    },
                    ty: IrType::Named {
                        name: "List".to_string(),
                        args: vec![IrType::Named {
                            name: "Action".to_string(),
                            args: vec![],
                        }],
                    },
                    span: loc(),
                },
            ]),
            ty: IrType::Tuple(vec![
                IrType::Int,
                IrType::Named {
                    name: "List".to_string(),
                    args: vec![IrType::Named {
                        name: "Action".to_string(),
                        args: vec![],
                    }],
                },
            ]),
            span: loc(),
        },
        span: loc(),
    };

    let query = IrFunction {
        kind: FnKind::Query,
        name: "query".to_string(),
        params: vec![
            IrParam {
                name: "state".to_string(),
                ty: IrType::Int,
                span: loc(),
            },
            IrParam {
                name: "q".to_string(),
                ty: IrType::Named {
                    name: "Query".to_string(),
                    args: vec![],
                },
                span: loc(),
            },
        ],
        return_type: IrType::Int,
        body: IrExpr {
            kind: IrExprKind::Call {
                callee: "loop_forever".to_string(),
                args: vec![IrExpr {
                    kind: IrExprKind::LocalRef {
                        name: "state".to_string(),
                    },
                    ty: IrType::Int,
                    span: loc(),
                }],
            },
            ty: IrType::Int,
            span: loc(),
        },
        span: loc(),
    };

    let vm = IrVmProgram::from_ir(IrProgram {
        functions: vec![recurse, update, query],
    })
    .expect("build vm from ir");

    let error = vm
        .query(
            &VmValue::Int(1),
            &VmValue::Unit,
            &VmLimits {
                max_steps: 32,
                max_memory_bytes: 1_000_000,
                max_recursion_depth: 10_000,
            },
        )
        .expect_err("query must fail on step limit");

    assert_eq!(error.code, VmErrorCode::StepLimitExceeded);
}

#[test]
fn ir_vm_is_deterministic_for_same_input() {
    let update = IrFunction {
        kind: FnKind::Update,
        name: "update".to_string(),
        params: vec![
            IrParam {
                name: "state".to_string(),
                ty: IrType::Int,
                span: loc(),
            },
            IrParam {
                name: "event".to_string(),
                ty: IrType::Named {
                    name: "List".to_string(),
                    args: vec![IrType::Named {
                        name: "Action".to_string(),
                        args: vec![],
                    }],
                },
                span: loc(),
            },
        ],
        return_type: IrType::Tuple(vec![
            IrType::Int,
            IrType::Named {
                name: "List".to_string(),
                args: vec![IrType::Named {
                    name: "Action".to_string(),
                    args: vec![],
                }],
            },
        ]),
        body: IrExpr {
            kind: IrExprKind::Tuple(vec![
                IrExpr {
                    kind: IrExprKind::LocalRef {
                        name: "state".to_string(),
                    },
                    ty: IrType::Int,
                    span: loc(),
                },
                IrExpr {
                    kind: IrExprKind::LocalRef {
                        name: "event".to_string(),
                    },
                    ty: IrType::Named {
                        name: "List".to_string(),
                        args: vec![IrType::Named {
                            name: "Action".to_string(),
                            args: vec![],
                        }],
                    },
                    span: loc(),
                },
            ]),
            ty: IrType::Tuple(vec![
                IrType::Int,
                IrType::Named {
                    name: "List".to_string(),
                    args: vec![IrType::Named {
                        name: "Action".to_string(),
                        args: vec![],
                    }],
                },
            ]),
            span: loc(),
        },
        span: loc(),
    };

    let query = IrFunction {
        kind: FnKind::Query,
        name: "query".to_string(),
        params: vec![
            IrParam {
                name: "state".to_string(),
                ty: IrType::Int,
                span: loc(),
            },
            IrParam {
                name: "q".to_string(),
                ty: IrType::Named {
                    name: "Query".to_string(),
                    args: vec![],
                },
                span: loc(),
            },
        ],
        return_type: IrType::Int,
        body: IrExpr {
            kind: IrExprKind::LocalRef {
                name: "state".to_string(),
            },
            ty: IrType::Int,
            span: loc(),
        },
        span: loc(),
    };

    let vm = IrVmProgram::from_ir(IrProgram {
        functions: vec![update, query],
    })
    .expect("build vm from ir");

    let event = VmValue::List(vec![VmValue::String("same".to_string())]);
    let limits = VmLimits::default();

    let first = vm
        .update(&VmValue::Int(42), &event, &limits)
        .expect("first update should succeed");
    let second = vm
        .update(&VmValue::Int(42), &event, &limits)
        .expect("second update should succeed");

    assert_eq!(first, second);
}

fn entry(kind: FnKind, name: &str, body: IrExpr) -> IrFunction {
    IrFunction {
        kind,
        name: name.to_string(),
        params: vec![
            IrParam { name: "s".to_string(), ty: IrType::Int, span: loc() },
            IrParam { name: "x".to_string(), ty: IrType::Unknown, span: loc() },
        ],
        return_type: IrType::Unknown,
        body,
        span: loc(),
    }
}

fn lit(v: i64) -> IrExpr {
    IrExpr { kind: IrExprKind::Int(v), ty: IrType::Int, span: loc() }
}

#[test]
fn ir_vm_errors_carry_their_messages() {
    let div = IrExpr {
        kind: IrExprKind::Binary { lhs: Box::new(lit(1)), op: BinaryOp::Div, rhs: Box::new(lit(0)) },
        ty: IrType::Int,
        span: loc(),
    };
    let call = IrExpr {
        kind: IrExprKind::Call { callee: "query".to_string(), args: vec![lit(1)] },
        ty: IrType::Int,
        span: loc(),
    };
    let program = IrProgram {
        functions: vec![entry(FnKind::Update, "update", div), entry(FnKind::Query, "query", call)],
    };
    let vm = IrVmProgram::from_ir(program).expect("vm");
    let err = vm.update(&VmValue::Int(0), &VmValue::Unit, &VmLimits::default()).expect_err("traps");
    assert_eq!(err.code, VmErrorCode::Trap);
    assert_eq!(err.message, "division by zero");
    let err = vm.query(&VmValue::Int(0), &VmValue::Unit, &VmLimits::default()).expect_err("traps");
    assert_eq!(err.code, VmErrorCode::Trap);
    assert_eq!(err.message, "arity mismatch for `query`: expected 2, got 1");
}

#[test]
fn ir_vm_refuses_programs_without_entry_points() {
    let only_query = IrProgram { functions: vec![entry(FnKind::Query, "q", lit(1))] };
    let err = IrVmProgram::from_ir(only_query).err().expect("refused");
    assert_eq!(err.code, VmErrorCode::InvalidInput);
    assert_eq!(err.message, "IR program is missing update function");
    let twice = IrProgram {
        functions: vec![entry(FnKind::Update, "u", lit(1)), entry(FnKind::User, "u", lit(2))],
    };
    let err = IrVmProgram::from_ir(twice).err().expect("refused");
    assert_eq!(err.message, "duplicate function `u` in IR program");
}

#[test]
fn ir_vm_needs_exactly_one_update_and_one_query() {
    let good = IrProgram {
        functions: vec![
            entry(FnKind::User, "helper", lit(0)),
            entry(FnKind::Query, "q", lit(1)),
            entry(FnKind::Update, "u", lit(2)),
        ],
    };
    assert!(IrVmProgram::from_ir(good).is_ok());
    let two_queries = IrProgram {
        functions: vec![
            entry(FnKind::Update, "u", lit(1)),
            entry(FnKind::Query, "q1", lit(1)),
            entry(FnKind::Query, "q2", lit(1)),
        ],
    };
    let err = IrVmProgram::from_ir(two_queries).err().expect("refused");
    assert_eq!(err.message, "IR program must contain exactly one query function");
}

#[test]
fn ir_vm_arithmetic_is_checked_and_truncates_division() {
    let run = |a: i64, op: BinaryOp, b: i64| {
        let body = IrExpr {
            kind: IrExprKind::Binary { lhs: Box::new(lit(a)), op, rhs: Box::new(lit(b)) },
            ty: IrType::Int,
            span: loc(),
        };
        let program = IrProgram {
            functions: vec![entry(FnKind::Update, "update", lit(0)), entry(FnKind::Query, "query", body)],
        };
        let vm = IrVmProgram::from_ir(program).expect("vm");
        vm.query(&VmValue::Int(0), &VmValue::Unit, &VmLimits::default())
    };
    assert_eq!(run(-7, BinaryOp::Div, 2), Ok(VmValue::Int(-3)));
    assert_eq!(run(7, BinaryOp::Div, -2), Ok(VmValue::Int(-3)));
    assert_eq!(run(-7, BinaryOp::Sub, 2), Ok(VmValue::Int(-9)));
    let err = run(1, BinaryOp::Div, 0).expect_err("traps");
    assert_eq!((err.code, err.message.as_str()), (VmErrorCode::Trap, "division by zero"));
    let err = run(i64::MIN, BinaryOp::Div, -1).expect_err("traps");
    assert_eq!((err.code, err.message.as_str()), (VmErrorCode::Trap, "integer arithmetic overflow"));
    let err = run(i64::MAX, BinaryOp::Add, 1).expect_err("traps");
    assert_eq!(err.code, VmErrorCode::Trap);
    let err = run(i64::MAX, BinaryOp::Mul, 2).expect_err("traps");
    assert_eq!(err.code, VmErrorCode::Trap);
}
