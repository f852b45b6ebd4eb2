use hayroll::extract::{
    extract_hayroll_seeds_from_syntax_roots, extract_hayroll_seeds_from_syntax_roots_impl,
    extract_unmatched_hayroll_tags_from_syntax_roots, ExtractError,
};
use hayroll::inv::{extract_hayroll_macro_invs_from_seeds, InvError};
use hayroll::pipeline::{plan_repair, RepairError};
use hayroll::region::{ExprSite, StmtKind, StmtNode, TagSite};
use hayroll::seed::HayrollSeed;
use hayroll::tag::{AstKind, HayrollTag, SeedType, TagPayload};

fn payload(
    seed_type: SeedType,
    ast_kind: AstKind,
    begin: bool,
    loc: &str,
    name: &str,
    is_arg: bool,
    loc_ref: &str,
    arg_names: Vec<String>,
) -> TagPayload {
    TagPayload {
        seed_type,
        is_arg,
        name: String::from(name),
        arg_names,
        loc_begin: String::from(loc),
        loc_end: String::from(loc),
        cu_ln_col_begin: String::from("1:1"),
        cu_ln_col_end: String::from("2:1"),
        loc_ref_begin: String::from(loc_ref),
        can_be_fn: true,
        is_lvalue: false,
        ast_kind,
        begin,
        is_placeholder: false,
        premise: String::new(),
        merged_variants: Vec::new(),
    }
}

fn stmt(text: &str, is_return: bool, is_tag: bool) -> StmtNode {
    StmtNode {
        text: String::from(text),
        kind: StmtKind::ExprStmt,
        can_have_attrs: false,
        is_return,
        is_tag_marker: is_tag,
    }
}

fn stmt_list() -> Vec<StmtNode> {
    vec![
        stmt("beg_marker();", false, true),
        stmt("let x = 1;", false, false),
        stmt("return x;", true, false),
        stmt("end_marker();", false, true),
    ]
}

fn stmt_tag(loc: &str, begin: bool, idx: usize) -> HayrollTag {
    HayrollTag {
        tag: payload(SeedType::Invocation, AstKind::Stmts, begin, loc, "M", false, "", Vec::new()),
        file_id: 0,
        site: TagSite::Stmt { stmts: stmt_list(), idx },
    }
}

fn expr_tag(loc: &str, begin: bool) -> HayrollTag {
    HayrollTag {
        tag: payload(SeedType::Invocation, AstKind::Expr, begin, loc, "E", false, "", Vec::new()),
        file_id: 0,
        site: TagSite::Expr(ExprSite {
            cond_text: String::from("cond"),
            live_text: String::from("{ 1 }"),
            fallback_text: String::from("{ 0 }"),
            ptr_type_text: String::from("*mut i32"),
            base_type_text: String::from("i32"),
            is_else_if_branch: false,
        }),
    }
}

#[test]
fn well_formed_streams_pair_up() {
    // two spans, nested by location, plus an expression seed in between
    let tags = vec![
        stmt_tag("s1", true, 0),
        expr_tag("e1", true),
        stmt_tag("s2", true, 0),
        stmt_tag("s2", false, 3),
        stmt_tag("s1", false, 3),
    ];
    let seeds = extract_hayroll_seeds_from_syntax_roots(&tags).expect("matched stream");
    assert_eq!(seeds.len(), 3);
    // the pairing invariant: begin tag begins, end tag does not, both share
    // region location and seed type
    for seed in &seeds {
        if let HayrollSeed::Stmts(b, e) = seed {
            assert!(b.tag.begin);
            assert!(!e.tag.begin);
            assert_eq!(b.tag.loc_begin, e.tag.loc_begin);
            assert_eq!(b.tag.seed_type, e.tag.seed_type);
        }
    }
    match (&seeds[0], &seeds[2]) {
        (HayrollSeed::Stmts(b1, _), HayrollSeed::Stmts(b2, _)) => {
            assert_eq!(b1.tag.loc_begin, "s1");
            assert_eq!(b2.tag.loc_begin, "s2");
        },
        _ => panic!("expected two statement spans"),
    }
}

#[test]
fn end_tags_bind_most_recent_open_span() {
    // two spans at distinct locations closed in reverse order
    let tags = vec![
        stmt_tag("outer", true, 0),
        stmt_tag("inner", true, 1),
        stmt_tag("inner", false, 2),
        stmt_tag("outer", false, 3),
    ];
    let seeds = extract_hayroll_seeds_from_syntax_roots(&tags).expect("matched stream");
    assert_eq!(seeds.len(), 2);
}

#[test]
fn unmatched_end_tag_is_fatal() {
    let tags = vec![stmt_tag("s1", true, 0), stmt_tag("zzz", false, 3)];
    let r = extract_hayroll_seeds_from_syntax_roots_impl(&tags);
    assert!(matches!(r, Err(ExtractError::UnmatchedEndTag)));
}

#[test]
fn expr_end_tag_is_fatal() {
    let tags = vec![expr_tag("e1", false)];
    let r = extract_hayroll_seeds_from_syntax_roots_impl(&tags);
    assert!(matches!(r, Err(ExtractError::BeginFlagMissing)));
}

#[test]
fn unmatched_begin_tags_are_reported() {
    let tags = vec![stmt_tag("s1", true, 0), stmt_tag("s2", true, 1), stmt_tag("s2", false, 3)];
    let unmatched = extract_unmatched_hayroll_tags_from_syntax_roots(&tags).expect("no hard error");
    assert_eq!(unmatched.len(), 1);
    assert_eq!(unmatched[0].tag.loc_begin, "s1");
    // the strict extraction refuses the same stream
    let strict = extract_hayroll_seeds_from_syntax_roots(&tags);
    assert!(matches!(strict, Err(ExtractError::UnmatchedBeginTag)));
}

#[test]
fn pairing_over_many_interleavings() {
    // streams of spans at three locations, in several interleavings: all
    // well formed, so extraction pairs every one
    let combos: Vec<Vec<(&str, bool)>> = vec![
        vec![("a", true), ("a", false), ("b", true), ("b", false)],
        vec![("a", true), ("b", true), ("b", false), ("a", false)],
        vec![("a", true), ("b", true), ("a", false), ("b", false)],
        vec![("a", true), ("b", true), ("c", true), ("c", false), ("b", false), ("a", false)],
    ];
    for combo in combos {
        let tags: Vec<HayrollTag> =
            combo.iter().map(|(loc, begin)| stmt_tag(loc, *begin, if *begin { 0 } else { 3 })).collect();
        let seeds = extract_hayroll_seeds_from_syntax_roots(&tags).expect("matched stream");
        for seed in &seeds {
            if let HayrollSeed::Stmts(b, e) = seed {
                assert!(b.tag.begin && !e.tag.begin);
                assert_eq!(b.tag.loc_begin, e.tag.loc_begin);
            }
        }
    }
    // deliberately unmatched streams raise the fatal condition
    let bad: Vec<HayrollTag> = vec![stmt_tag("a", true, 0), stmt_tag("b", false, 3)];
    assert!(extract_hayroll_seeds_from_syntax_roots_impl(&bad).is_err());
}

fn arg_tag(loc: &str, name: &str, loc_ref: &str) -> HayrollTag {
    HayrollTag {
        tag: payload(SeedType::Invocation, AstKind::Expr, true, loc, name, true, loc_ref, Vec::new()),
        file_id: 0,
        site: TagSite::Expr(ExprSite {
            cond_text: String::from("cond"),
            live_text: String::from("{ x }"),
            fallback_text: String::from("{ 0 }"),
            ptr_type_text: String::from("*mut i32"),
            base_type_text: String::from("i32"),
            is_else_if_branch: false,
        }),
    }
}

fn root_tag(loc: &str, name: &str, args: &[&str]) -> HayrollTag {
    HayrollTag {
        tag: payload(
            SeedType::Invocation,
            AstKind::Expr,
            true,
            loc,
            name,
            false,
            "",
            args.iter().map(|a| String::from(*a)).collect(),
        ),
        file_id: 0,
        site: TagSite::Expr(ExprSite {
            cond_text: String::from("cond"),
            live_text: String::from("{ x + 1 }"),
            fallback_text: String::from("{ 0 }"),
            ptr_type_text: String::from("*mut i32"),
            base_type_text: String::from("i32"),
            is_else_if_branch: false,
        }),
    }
}

#[test]
fn argument_seeds_bind_to_their_invocation() {
    let tags = vec![root_tag("m1", "MAC", &["x", "y"]), arg_tag("a1", "x", "m1"), arg_tag(
        "a2",
        "x",
        "m1",
    ), arg_tag("a3", "y", "m1")];
    let seeds = extract_hayroll_seeds_from_syntax_roots(&tags).expect("stream");
    let invs = extract_hayroll_macro_invs_from_seeds(&seeds).expect("binding");
    assert_eq!(invs.len(), 1);
    assert_eq!(invs[0].args.len(), 2);
    assert_eq!(invs[0].args[0].name, "x");
    assert_eq!(invs[0].args[0].seeds.len(), 2);
    assert_eq!(invs[0].args[1].name, "y");
    assert_eq!(invs[0].args[1].seeds.len(), 1);
}

#[test]
fn unresolved_argument_is_fatal() {
    let tags = vec![root_tag("m1", "MAC", &["x"]), arg_tag("a1", "x", "other")];
    let seeds = extract_hayroll_seeds_from_syntax_roots(&tags).expect("stream");
    let r = extract_hayroll_macro_invs_from_seeds(&seeds);
    assert!(matches!(r, Err(InvError::UnresolvedArgument)));
}

#[test]
fn unknown_argument_name_is_fatal() {
    let tags = vec![root_tag("m1", "MAC", &["x"]), arg_tag("a1", "zz", "m1")];
    let seeds = extract_hayroll_seeds_from_syntax_roots(&tags).expect("stream");
    let r = extract_hayroll_macro_invs_from_seeds(&seeds);
    assert!(matches!(r, Err(InvError::UnknownArgumentName)));
}

#[test]
fn repair_inserts_end_marker_after_first_return() {
    let tags = vec![stmt_tag("s1", true, 0)];
    let unmatched = extract_unmatched_hayroll_tags_from_syntax_roots(&tags).expect("scan");
    assert_eq!(unmatched.len(), 1);
    let edits = plan_repair(&unmatched).expect("span has a return");
    assert_eq!(edits.len(), 1);
    assert_eq!(edits[0].begin_idx, 0);
    assert_eq!(edits[0].after_idx, 2);
    assert!(!edits[0].end_tag.begin);
    assert_eq!(edits[0].end_tag.loc_begin, "s1");
}

#[test]
fn repair_without_return_is_fatal() {
    let mut tag = stmt_tag("s1", true, 0);
    if let TagSite::Stmt { ref mut stmts, .. } = tag.site {
        for s in stmts.iter_mut() {
            s.is_return = false;
        }
    }
    let r = plan_repair(&vec![tag]);
    assert!(matches!(r, Err(RepairError::NoReturnInSpan)));
}

#[test]
fn tag_free_workspace_is_a_fixed_point() {
    // after a completed reconstruction no tags remain, so a second run
    // extracts nothing and plans nothing
    let tags: Vec<HayrollTag> = Vec::new();
    let (seeds, unmatched) =
        extract_hayroll_seeds_from_syntax_roots_impl(&tags).expect("empty stream");
    assert!(seeds.is_empty());
    assert!(unmatched.is_empty());
    let invs = extract_hayroll_macro_invs_from_seeds(&seeds).expect("no seeds to bind");
    assert!(invs.is_empty());
    let repair = plan_repair(&unmatched).expect("nothing to repair");
    assert!(repair.is_empty());
    let db = hayroll::db::HayrollMacroDB::from_hayroll_macro_invs(&invs);
    assert!(db.map.is_empty());
}
