use hayroll::db::HayrollMacroDB;
use hayroll::inv::{HayrollMacroCluster, HayrollMacroInv, MacroArg};
use hayroll::pipeline::{plan_cluster, ClusterPlan};
use hayroll::region::{ExprSite, StmtKind, StmtNode, TagSite};
use hayroll::seed::HayrollSeed;
use hayroll::synth::{check_body, peel_text, raw_seed_text, render_raw, BodySegment};
use hayroll::tag::{AstKind, HayrollTag, SeedType, TagPayload};

fn payload(
    ast_kind: AstKind,
    loc: &str,
    name: &str,
    is_arg: bool,
    loc_ref: &str,
    arg_names: Vec<String>,
    can_be_fn: bool,
    is_lvalue: bool,
) -> TagPayload {
    TagPayload {
        seed_type: SeedType::Invocation,
        is_arg,
        name: String::from(name),
        arg_names,
        loc_begin: String::from(loc),
        loc_end: String::from(loc),
        cu_ln_col_begin: String::from("1:1"),
        cu_ln_col_end: String::from("2:1"),
        loc_ref_begin: String::from(loc_ref),
        can_be_fn,
        is_lvalue,
        ast_kind,
        begin: true,
        is_placeholder: false,
        premise: String::new(),
        merged_variants: Vec::new(),
    }
}

fn expr_occurrence(name_text: &str, base: &str, lvalue: bool) -> HayrollSeed {
    HayrollSeed::Expr(HayrollTag {
        tag: payload(AstKind::Expr, "occ", "x", true, "inv", Vec::new(), true, lvalue),
        file_id: 0,
        site: TagSite::Expr(ExprSite {
            cond_text: String::from("c"),
            live_text: format!("{{ {} }}", name_text),
            fallback_text: String::from("{ 0 }"),
            ptr_type_text: format!("*mut {}", base),
            base_type_text: String::from(base),
            is_else_if_branch: false,
        }),
    })
}

fn stmt_occurrence() -> HayrollSeed {
    let stmts = vec![
        StmtNode {
            text: String::from("beg();"),
            kind: StmtKind::ExprStmt,
            can_have_attrs: false,
            is_return: false,
            is_tag_marker: true,
        },
        StmtNode {
            text: String::from("do_it();"),
            kind: StmtKind::ExprStmt,
            can_have_attrs: false,
            is_return: false,
            is_tag_marker: false,
        },
        StmtNode {
            text: String::from("end();"),
            kind: StmtKind::ExprStmt,
            can_have_attrs: false,
            is_return: false,
            is_tag_marker: true,
        },
    ];
    let begin = HayrollTag {
        tag: payload(AstKind::Stmt, "socc", "x", true, "inv", Vec::new(), true, false),
        file_id: 0,
        site: TagSite::Stmt { stmts: stmts.clone(), idx: 0 },
    };
    let mut end_tag_payload = payload(AstKind::Stmt, "socc", "x", true, "inv", Vec::new(), true, false);
    end_tag_payload.begin = false;
    let end = HayrollTag {
        tag: end_tag_payload,
        file_id: 0,
        site: TagSite::Stmt { stmts, idx: 2 },
    };
    HayrollSeed::Stmts(begin, end)
}

/// An invocation of `M(x)` whose live content is exactly its argument
/// occurrence, typed `base`.
fn call_site(loc: &str, base: &str, can_be_fn: bool) -> (HayrollMacroInv, Vec<BodySegment>) {
    let occ = expr_occurrence("x", base, false);
    let occ_raw = raw_seed_text(&occ);
    let inv_seed = HayrollSeed::Expr(HayrollTag {
        tag: payload(
            AstKind::Expr,
            loc,
            "M",
            false,
            "decl",
            vec![String::from("x")],
            can_be_fn,
            false,
        ),
        file_id: 0,
        site: TagSite::Expr(ExprSite {
            cond_text: String::from("c"),
            live_text: format!("{{ {} + 1 }}", occ_raw),
            fallback_text: String::from("{ 0 }"),
            ptr_type_text: format!("*mut {}", base),
            base_type_text: String::from(base),
            is_else_if_branch: false,
        }),
    });
    let inv = HayrollMacroInv {
        seed: inv_seed,
        args: vec![MacroArg { name: String::from("x"), seeds: vec![occ] }],
    };
    let body = vec![
        BodySegment::Lit(String::from("{ ")),
        BodySegment::Arg { slot: 0, occ: 0 },
        BodySegment::Lit(String::from(" + 1 }")),
    ];
    (inv, body)
}

#[test]
fn seed_compatibility_lattice() {
    let a = expr_occurrence("x", "f32", false);
    let b = expr_occurrence("y", "f32", false);
    let c = expr_occurrence("z", "f64", false);
    let s = stmt_occurrence();
    // identical types: type compatible, hence structurally compatible
    assert!(a.is_type_compatible_with(&b));
    assert!(a.is_structurally_compatible_with(&b));
    // differing base types: structurally but not type compatible
    assert!(a.is_structurally_compatible_with(&c));
    assert!(!a.is_type_compatible_with(&c));
    // statement against expression shape: not even structurally compatible
    assert!(!s.is_structurally_compatible_with(&a));
    assert!(!s.is_type_compatible_with(&a));
}

#[test]
fn inv_compatibility_follows_argument_shapes() {
    let (a, _) = call_site("site1", "f32", true);
    let (b, _) = call_site("site2", "f32", true);
    assert!(a.is_type_compatible_with(&b));
    assert!(a.is_structurally_compatible_with(&b));
    // an argument slot differing in statement against expression shape
    // breaks structural compatibility
    let mut c = HayrollMacroInv { seed: b.seed, args: b.args };
    c.args[0].seeds = vec![stmt_occurrence()];
    assert!(!a.is_structurally_compatible_with(&c));
}

#[test]
fn peel_unpeel_round_trip() {
    let (inv, body) = call_site("site1", "f32", true);
    // the segmentation is faithful to the live content
    assert!(check_body(&inv, &body));
    // substituting the original bound regions back into the holes
    // reproduces the peeled raw region, textually
    let back = render_raw(&inv, &body);
    assert_eq!(back, peel_text(&inv.seed, false));
}

#[test]
fn template_and_callable_texts() {
    let (inv, body) = call_site("site1", "f32", true);
    let reqs = vec![false];
    assert_eq!(inv.signature(), "f32_f32");
    assert_eq!(inv.name_with_signature(), "M_f32_f32");
    let mac = inv.macro_rules(&body);
    assert_eq!(
        mac,
        "macro_rules! M_f32_f32\n{\n    ($x:expr) => {\n    { $x + 1 }\n    }\n}"
    );
    let f = inv.fn_(&reqs, &body);
    assert_eq!(f, "unsafe fn M_f32_f32(x: f32) -> f32 {\n    { x + 1 }\n}");
    let call = inv.call_expr(&reqs);
    assert_eq!(call, "M_f32_f32({ x })");
    let mcall = inv.macro_call();
    assert_eq!(mcall, "M_f32_f32!({ x })");
}

#[test]
fn lvalue_arguments_pass_by_pointer() {
    let occ = expr_occurrence("x", "i32", true);
    let inv_seed = HayrollSeed::Expr(HayrollTag {
        tag: payload(AstKind::Expr, "s", "SET", false, "decl", vec![String::from("p")], true, false),
        file_id: 0,
        site: TagSite::Expr(ExprSite {
            cond_text: String::from("c"),
            live_text: format!("{{ {} = 0 }}", raw_seed_text(&occ)),
            fallback_text: String::from("{ () }"),
            ptr_type_text: String::from("*mut i32"),
            base_type_text: String::from("i32"),
            is_else_if_branch: false,
        }),
    });
    let inv = HayrollMacroInv {
        seed: inv_seed,
        args: vec![MacroArg { name: String::from("p"), seeds: vec![occ] }],
    };
    let reqs = inv.args_require_lvalue();
    assert_eq!(reqs, vec![true]);
    let body = vec![
        BodySegment::Lit(String::from("{ ")),
        BodySegment::Arg { slot: 0, occ: 0 },
        BodySegment::Lit(String::from(" = 0 }")),
    ];
    let f = inv.fn_(&reqs, &body);
    assert_eq!(f, "unsafe fn SET_i32_i32(p: *mut i32) -> i32 {\n    { *(p) = 0 }\n}");
    // the call passes the peeled lvalue without its dereference
    let call = inv.call_expr(&reqs);
    assert_eq!(call, "SET_i32_i32({ x })");
}

#[test]
fn same_typed_call_sites_form_one_callable_cluster() {
    // two call sites of M(x), both with a four-byte floating value argument
    let (a, body) = call_site("site1", "f32", true);
    let (b, _) = call_site("site2", "f32", true);
    let invs = vec![a, b];
    let db = HayrollMacroDB::from_hayroll_macro_invs(&invs);
    assert_eq!(db.map.len(), 1);
    let cluster = &db.map[0].cluster;
    assert_eq!(cluster.invocations.len(), 2);
    assert!(cluster.can_be_fn());
    match plan_cluster(cluster, &body) {
        ClusterPlan::Fn { definition, calls, warnings } => {
            assert!(definition.starts_with("unsafe fn M_f32_f32(x: f32) -> f32"));
            assert_eq!(calls.len(), 2);
            assert_eq!(calls[0], "M_f32_f32({ x })");
            assert_eq!(calls[1], "M_f32_f32({ x })");
            assert!(warnings.is_empty());
        },
        _ => panic!("expected a callable plan"),
    }
}

#[test]
fn differently_typed_call_sites_split_by_signature() {
    // the same macro once with a four-byte and once with an eight-byte
    // floating argument: two clusters, each with its own suffixed callable
    let (a, body_a) = call_site("site1", "f32", true);
    let (b, body_b) = call_site("site2", "f64", true);
    let invs = vec![a, b];
    let db = HayrollMacroDB::from_hayroll_macro_invs(&invs);
    assert_eq!(db.map.len(), 2);
    assert_eq!(db.map[0].signature, "f32_f32");
    assert_eq!(db.map[1].signature, "f64_f64");
    match plan_cluster(&db.map[0].cluster, &body_a) {
        ClusterPlan::Fn { definition, .. } => {
            assert!(definition.starts_with("unsafe fn M_f32_f32"));
        },
        _ => panic!("expected a callable plan"),
    }
    match plan_cluster(&db.map[1].cluster, &body_b) {
        ClusterPlan::Fn { definition, .. } => {
            assert!(definition.starts_with("unsafe fn M_f64_f64"));
        },
        _ => panic!("expected a callable plan"),
    }
}

#[test]
fn hint_disallowed_cluster_becomes_template() {
    let (a, body) = call_site("site1", "f32", false);
    let (b, _) = call_site("site2", "f32", false);
    let invs = vec![a, b];
    let db = HayrollMacroDB::from_hayroll_macro_invs(&invs);
    assert_eq!(db.map.len(), 1);
    let cluster = &db.map[0].cluster;
    assert!(!cluster.can_be_fn());
    assert!(cluster.invs_internally_structurally_compatible());
    match plan_cluster(cluster, &body) {
        ClusterPlan::Template { definition, calls } => {
            assert!(definition.starts_with("macro_rules! M_f32_f32"));
            assert_eq!(calls.len(), 2);
            assert_eq!(calls[0], "M_f32_f32!({ x })");
        },
        _ => panic!("expected a template plan"),
    }
}

#[test]
fn irreconcilable_cluster_is_skipped_with_diagnostic() {
    // one call site whose argument slot mixes statement- and
    // expression-shaped occurrences: internally incompatible
    let (mut a, body) = call_site("site1", "f32", false);
    a.args[0].seeds.push(stmt_occurrence());
    let invs = vec![a];
    let db = HayrollMacroDB::from_hayroll_macro_invs(&invs);
    assert_eq!(db.map.len(), 1);
    match plan_cluster(&db.map[0].cluster, &body) {
        ClusterPlan::Skip { loc } => {
            assert_eq!(loc, "site1");
        },
        _ => panic!("expected a skip"),
    }
}

#[test]
fn cluster_args_require_lvalue_is_conjunction() {
    let occ_lv = expr_occurrence("x", "i32", true);
    let occ_rv = expr_occurrence("y", "i32", false);
    let mk = |occ: HayrollSeed, loc: &str| {
        let raw = raw_seed_text(&occ);
        HayrollMacroInv {
            seed: HayrollSeed::Expr(HayrollTag {
                tag: payload(
                    AstKind::Expr,
                    loc,
                    "M",
                    false,
                    "decl",
                    vec![String::from("x")],
                    true,
                    false,
                ),
                file_id: 0,
                site: TagSite::Expr(ExprSite {
                    cond_text: String::from("c"),
                    live_text: format!("{{ {} }}", raw),
                    fallback_text: String::from("{ 0 }"),
                    ptr_type_text: String::from("*mut i32"),
                    base_type_text: String::from("i32"),
                    is_else_if_branch: false,
                }),
            }),
            args: vec![MacroArg { name: String::from("x"), seeds: vec![occ] }],
        }
    };
    let cluster = HayrollMacroCluster { invocations: vec![mk(occ_lv, "s1"), mk(occ_rv, "s2")] };
    // one call site binds an rvalue, so the slot cannot stay by pointer
    assert_eq!(cluster.args_require_lvalue(), vec![false]);
}

#[test]
fn statement_shaped_call_sites_get_call_statements() {
    let occ = expr_occurrence("v", "i32", false);
    let occ_raw = raw_seed_text(&occ);
    let stmts = vec![
        StmtNode {
            text: String::from("beg();"),
            kind: StmtKind::ExprStmt,
            can_have_attrs: false,
            is_return: false,
            is_tag_marker: true,
        },
        StmtNode {
            text: format!("consume({});", occ_raw),
            kind: StmtKind::ExprStmt,
            can_have_attrs: false,
            is_return: false,
            is_tag_marker: false,
        },
        StmtNode {
            text: String::from("end();"),
            kind: StmtKind::ExprStmt,
            can_have_attrs: false,
            is_return: false,
            is_tag_marker: true,
        },
    ];
    let begin = HayrollTag {
        tag: payload(AstKind::Stmts, "span1", "DOIT", false, "decl", vec![String::from("x")], true, false),
        file_id: 0,
        site: TagSite::Stmt { stmts: stmts.clone(), idx: 0 },
    };
    let mut endp = payload(AstKind::Stmts, "span1", "DOIT", false, "decl", vec![String::from("x")], true, false);
    endp.begin = false;
    let end = HayrollTag { tag: endp, file_id: 0, site: TagSite::Stmt { stmts, idx: 2 } };
    let inv = HayrollMacroInv {
        seed: HayrollSeed::Stmts(begin, end),
        args: vec![MacroArg { name: String::from("x"), seeds: vec![occ] }],
    };
    let body = vec![
        BodySegment::Lit(String::from("consume(")),
        BodySegment::Arg { slot: 0, occ: 0 },
        BodySegment::Lit(String::from(");")),
    ];
    assert!(check_body(&inv, &body));
    // statement spans have no value type: the signature covers only the
    // argument slots, and the call becomes a statement
    assert_eq!(inv.signature(), "i32");
    let call = inv.call_expr_or_stmt(&vec![false]);
    assert_eq!(call, "DOIT_i32({ v });");
    let mcall = inv.macro_call();
    assert_eq!(mcall, "DOIT_i32!({ v });");
    let f = inv.fn_(&vec![false], &body);
    assert_eq!(f, "unsafe fn DOIT_i32(x: i32) {\n    consume(x);\n}");
}

#[test]
fn omitted_arguments_are_reported_never_dropped() {
    // a call site that never references its declared argument: the call
    // omits it and the plan carries the warning
    let inv_seed = HayrollSeed::Expr(HayrollTag {
        tag: payload(AstKind::Expr, "s1", "K", false, "decl", vec![String::from("x")], true, false),
        file_id: 0,
        site: TagSite::Expr(ExprSite {
            cond_text: String::from("c"),
            live_text: String::from("{ 42 }"),
            fallback_text: String::from("{ 0 }"),
            ptr_type_text: String::from("*mut f32"),
            base_type_text: String::from("f32"),
            is_else_if_branch: false,
        }),
    });
    let inv = HayrollMacroInv {
        seed: inv_seed,
        args: vec![MacroArg { name: String::from("x"), seeds: Vec::new() }],
    };
    let body = vec![BodySegment::Lit(String::from("{ 42 }"))];
    assert!(check_body(&inv, &body));
    let db = HayrollMacroDB::from_hayroll_macro_invs(&vec![inv]);
    assert_eq!(db.map.len(), 1);
    match plan_cluster(&db.map[0].cluster, &body) {
        ClusterPlan::Fn { calls, warnings, .. } => {
            assert_eq!(calls, vec![String::from("K_f32_()")]);
            assert_eq!(
                warnings,
                vec![String::from("K_f32_: argument x is never used at this call site")]
            );
        },
        _ => panic!("expected a callable plan"),
    }
}
