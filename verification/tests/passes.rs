use hayroll::cond::{CfgEdit, HayrollConditionalMacro};
use hayroll::loc::{LnCol, LnColRange};
use hayroll::merge::{
    chain_text, merge_action, merge_guard_chains, plan_item_merge, GuardArm, GuardChain,
    ItemMergeEdit, MergeAction,
};
use hayroll::inv::HayrollMacroInv;
use hayroll::pipeline::{cleanup_edits, order_indices_by_offset_desc, plan_residual_cleanup, seed_indices_of_file, CleanupEdit, ItemCleanupEdit};
use hayroll::region::CodeRegion;
use hayroll::region::{
    find_items_in_range, AttrInfo, DeclItem, ExprSite, StmtKind, StmtNode, TagSite,
};
use hayroll::seed::HayrollSeed;
use hayroll::tag::{AstKind, HayrollTag, SeedType, TagPayload};

fn cond_payload(ast_kind: AstKind, loc: &str, premise: &str, placeholder: bool) -> TagPayload {
    TagPayload {
        seed_type: SeedType::Conditional,
        is_arg: false,
        name: String::from("COND"),
        arg_names: Vec::new(),
        loc_begin: String::from(loc),
        loc_end: String::from(loc),
        cu_ln_col_begin: String::from("1:1"),
        cu_ln_col_end: String::from("9:1"),
        loc_ref_begin: String::from("cond_decl"),
        can_be_fn: false,
        is_lvalue: false,
        ast_kind,
        begin: true,
        is_placeholder: placeholder,
        premise: String::from(premise),
        merged_variants: Vec::new(),
    }
}

fn cond_expr(loc: &str, premise: &str, placeholder: bool) -> HayrollConditionalMacro {
    HayrollConditionalMacro {
        seed: HayrollSeed::Expr(HayrollTag {
            tag: cond_payload(AstKind::Expr, loc, premise, placeholder),
            file_id: 0,
            site: TagSite::Expr(ExprSite {
                cond_text: String::from("c"),
                live_text: String::from("{ 10 }"),
                fallback_text: String::from("{ 0 }"),
                ptr_type_text: String::from("*mut i32"),
                base_type_text: String::from("i32"),
                is_else_if_branch: false,
            }),
        }),
    }
}

fn gated_span(premise: &str) -> HayrollConditionalMacro {
    let stmts = vec![
        StmtNode {
            text: String::from("beg();"),
            kind: StmtKind::ExprStmt,
            can_have_attrs: false,
            is_return: false,
            is_tag_marker: true,
        },
        StmtNode {
            text: String::from("let a = 1;"),
            kind: StmtKind::LetStmt,
            can_have_attrs: true,
            is_return: false,
            is_tag_marker: false,
        },
        StmtNode {
            text: String::from("touch(a);"),
            kind: StmtKind::ExprStmt,
            can_have_attrs: false,
            is_return: false,
            is_tag_marker: false,
        },
        StmtNode {
            text: String::from("end();"),
            kind: StmtKind::ExprStmt,
            can_have_attrs: false,
            is_return: false,
            is_tag_marker: true,
        },
    ];
    let begin = HayrollTag {
        tag: cond_payload(AstKind::Stmts, "span", premise, false),
        file_id: 0,
        site: TagSite::Stmt { stmts: stmts.clone(), idx: 0 },
    };
    let mut end_payload = cond_payload(AstKind::Stmts, "span", premise, false);
    end_payload.begin = false;
    let end = HayrollTag { tag: end_payload, file_id: 0, site: TagSite::Stmt { stmts, idx: 3 } };
    HayrollConditionalMacro { seed: HayrollSeed::Stmts(begin, end) }
}

#[test]
fn conditional_expression_gains_gated_choice() {
    let c = cond_expr("e1", "FOO", false);
    let edits = c.attach_cfg_teds();
    assert_eq!(edits.len(), 1);
    match &edits[0] {
        CfgEdit::ReplaceThenBranch { new_text } => {
            assert_eq!(new_text, "{ if cfg!(FOO) { 10 } else { 0 } }");
        },
        _ => panic!("expected a then-branch replacement"),
    }
}

#[test]
fn placeholder_expression_needs_no_gate() {
    let c = cond_expr("e1", "FOO", true);
    assert!(c.attach_cfg_teds().is_empty());
}

#[test]
fn gated_span_attaches_cfg_to_every_statement() {
    // both gated statements end up behind the configuration flag: the let
    // directly, the bare call through a wrapper shape
    let c = gated_span("FOO");
    let edits = c.attach_cfg_teds();
    assert_eq!(edits.len(), 2);
    match &edits[0] {
        CfgEdit::AttachAttrToStmt { idx, attr_text } => {
            assert_eq!(*idx, 1);
            assert_eq!(attr_text, "#[cfg(FOO)]");
        },
        _ => panic!("expected a direct attribute"),
    }
    match &edits[1] {
        CfgEdit::WrapStmtWithParen { idx, attr_text } => {
            assert_eq!(*idx, 2);
            assert_eq!(attr_text, "#[cfg(FOO)]");
        },
        _ => panic!("expected a wrapping attribute"),
    }
}

#[test]
fn merge_decision_matrix() {
    let concrete = cond_expr("base", "A", false);
    let placeholder = cond_expr("base", "A", true);
    let patch_concrete = cond_expr("patch", "B", false);
    let patch_placeholder = cond_expr("patch", "B", true);
    assert_eq!(merge_action(&concrete, &patch_placeholder), MergeAction::KeepBase);
    assert_eq!(merge_action(&placeholder, &patch_concrete), MergeAction::ReplaceWithPatch);
    assert_eq!(merge_action(&placeholder, &patch_placeholder), MergeAction::NoOp);
    assert_eq!(merge_action(&concrete, &patch_concrete), MergeAction::AppendVariant);
}

#[test]
fn merge_is_idempotent_through_merged_variants() {
    let base = cond_expr("base", "A", false);
    let patch = cond_expr("patch", "B", false);
    assert_eq!(merge_action(&base, &patch), MergeAction::AppendVariant);
    // a merge records the patch identifier in the base tag; deciding the
    // same pair again skips
    let mut merged = cond_expr("base", "A", false);
    if let HayrollSeed::Expr(ref mut t) = merged.seed {
        t.tag = t.tag.with_appended_merged_variants("patch");
    }
    assert_eq!(merge_action(&merged, &patch), MergeAction::AlreadyMerged);
    // and a second application plans the same output as the first: no
    // further variant is appended
    assert_eq!(merge_action(&merged, &patch), MergeAction::AlreadyMerged);
}

#[test]
fn guard_chains_merge_by_appending_arms() {
    let base = GuardChain {
        arms: vec![GuardArm {
            premise: String::from("A"),
            body_text: String::from("{ 1 }"),
        }],
        fallback_text: String::from("{ 0 }"),
    };
    let patch = GuardChain {
        arms: vec![GuardArm {
            premise: String::from("B"),
            body_text: String::from("{ 2 }"),
        }],
        fallback_text: String::from("{ 0 }"),
    };
    let merged = merge_guard_chains(&base, &patch);
    assert_eq!(
        chain_text(&merged),
        "if cfg!(A) { 1 } else if cfg!(B) { 2 } else { 0 }"
    );
}

fn item(name: &str, body: &str, attrs: Vec<AttrInfo>, is_macro_def: bool) -> DeclItem {
    DeclItem {
        attrs,
        body_text: String::from(body),
        name: Some(String::from(name)),
        in_extern_c: false,
        is_macro_def,
        is_tag_marker: false,
    }
}

fn src_loc_attr(line: u32, col: u32) -> AttrInfo {
    AttrInfo {
        text: format!("#[c2rust::src_loc = \"{}:{}\"]", line, col),
        src_loc: Some(LnCol::new(line, col)),
    }
}

#[test]
fn item_merge_inserts_only_missing_items() {
    let base = vec![item("shared", "fn shared() {}", Vec::new(), false)];
    let patch = vec![
        item("shared", "fn shared() {}", Vec::new(), false),
        item("fresh_macro", "macro_rules! fresh_macro { () => {} }", Vec::new(), true),
        item("fresh_fn", "fn fresh_fn() {}", Vec::new(), false),
    ];
    let plan = plan_item_merge(&base, &patch);
    assert_eq!(plan.len(), 2);
    match &plan[0] {
        ItemMergeEdit::InsertTop { text } => {
            assert_eq!(text, "macro_rules! fresh_macro { () => {} }");
        },
        _ => panic!("a template definition goes to the top"),
    }
    match &plan[1] {
        ItemMergeEdit::InsertBottom { text } => {
            assert_eq!(text, "fn fresh_fn() {}");
        },
        _ => panic!("other items go to the bottom"),
    }
}

#[test]
fn item_merge_signature_ignores_attribute_order() {
    let a1 = AttrInfo { text: String::from("#[no_mangle]"), src_loc: None };
    let a2 = AttrInfo { text: String::from("#[inline]"), src_loc: None };
    let base = vec![item("f", "fn f() {}", vec![a1.duplicate(), a2.duplicate()], false)];
    let patch = vec![item("f", "fn f() {}", vec![a2.duplicate(), a1.duplicate()], false)];
    let plan = plan_item_merge(&base, &patch);
    assert!(plan.is_empty());
}

#[test]
fn cleanup_collapses_expression_seeds() {
    let c = cond_expr("e1", "FOO", false);
    let edits = cleanup_edits(&c.seed);
    assert_eq!(edits.len(), 1);
    match &edits[0] {
        CleanupEdit::ReplaceExpr { text } => {
            assert_eq!(text, "{ 10 }");
        },
        _ => panic!("expected a replacement"),
    }
}

#[test]
fn cleanup_deletes_span_markers() {
    let c = gated_span("FOO");
    let edits = cleanup_edits(&c.seed);
    assert_eq!(edits.len(), 2);
    assert!(matches!(edits[0], CleanupEdit::DeleteStmt { idx: 0 }));
    assert!(matches!(edits[1], CleanupEdit::DeleteStmt { idx: 3 }));
}

#[test]
fn residual_sweep_deletes_markers_and_strips_locations() {
    let marker = DeclItem {
        attrs: Vec::new(),
        body_text: String::from("static HAYROLL_TAG_FOR_X: u8 = 0;"),
        name: Some(String::from("HAYROLL_TAG_FOR_X")),
        in_extern_c: false,
        is_macro_def: false,
        is_tag_marker: true,
    };
    let located = item(
        "f",
        "fn f() {}",
        vec![src_loc_attr(3, 1), AttrInfo { text: String::from("#[inline]"), src_loc: None }],
        false,
    );
    let plain = item("g", "fn g() {}", Vec::new(), false);
    let items = vec![marker, located, plain];
    let plan = plan_residual_cleanup(&items);
    assert_eq!(plan.len(), 2);
    assert!(matches!(plan[0], ItemCleanupEdit::Delete { idx: 0 }));
    match &plan[1] {
        ItemCleanupEdit::Replace { idx, text } => {
            assert_eq!(*idx, 1);
            assert_eq!(text, "#[inline]\nfn f() {}");
        },
        _ => panic!("expected a replacement"),
    }
}

#[test]
fn declaration_regions_locate_by_recorded_position() {
    let inside = item("a", "fn a() {}", vec![src_loc_attr(2, 1)], false);
    let outside = item("b", "fn b() {}", vec![src_loc_attr(20, 1)], false);
    let unlocated = item("c", "fn c() {}", Vec::new(), false);
    let items = vec![inside, outside, unlocated];
    let range = LnColRange { start: LnCol::new(1, 1), end: LnCol::new(9, 1) };
    let found = find_items_in_range(&items, &range);
    assert_eq!(found.len(), 1);
    assert_eq!(found[0].name, Some(String::from("a")));
}

#[test]
fn individualize_rewraps_foreign_linkage_items() {
    let mut d = item("ext_fn", "fn ext_fn();", Vec::new(), false);
    d.in_extern_c = true;
    let wrapped = d.individualize();
    assert_eq!(wrapped.body_text, "extern \"C\" {\n    fn ext_fn();\n}");
    assert!(!wrapped.in_extern_c);
    // an ordinary item passes through unchanged
    let plain = item("g", "fn g() {}", Vec::new(), false);
    assert_eq!(plain.individualize().body_text, "fn g() {}");
}

#[test]
fn declaration_invocations_become_item_templates() {
    let mut marker = item("HAYROLL_TAG_FOR_DECLS", "static T: u8 = 0;", Vec::new(), false);
    marker.is_tag_marker = true;
    let mut ext = item("ext_fn", "fn ext_fn();", vec![src_loc_attr(2, 1)], false);
    ext.in_extern_c = true;
    let plain = item("helper", "fn helper() {}", vec![src_loc_attr(3, 1)], false);
    let far = item("far", "fn far() {}", vec![src_loc_attr(50, 1)], false);
    let items = vec![marker, ext, plain, far];
    let seed = HayrollSeed::Decls(HayrollTag {
        tag: cond_payload_decls(),
        file_id: 0,
        site: TagSite::Decl { items, tag_idx: 0 },
    });
    // the raw region locates exactly the items inside the recorded bounds
    let region = seed.get_raw_code_region(false);
    match &region {
        CodeRegion::Decls(found) => {
            assert_eq!(found.len(), 2);
            assert_eq!(found[0].name, Some(String::from("ext_fn")));
            assert_eq!(found[1].name, Some(String::from("helper")));
        },
        _ => panic!("expected a declaration region"),
    }
    assert!(!region.is_empty());
    // the template body strips locations and gives linkage items their own
    // blocks
    let inv = HayrollMacroInv { seed, args: Vec::new() };
    let mac = inv.macro_rules(&Vec::new());
    let expected = String::from(
        "macro_rules! DECLS\n{\n    () => {\n    static T: u8 = 0;\nextern \"C\" {\n    fn ext_fn();\n}\nfn helper() {}\nfn far() {}\n    }\n}",
    );
    assert_eq!(mac, expected);
}

fn cond_payload_decls() -> TagPayload {
    TagPayload {
        seed_type: SeedType::Invocation,
        is_arg: false,
        name: String::from("DECLS"),
        arg_names: Vec::new(),
        loc_begin: String::from("d1"),
        loc_end: String::from("d1"),
        cu_ln_col_begin: String::from("1:1"),
        cu_ln_col_end: String::from("9:1"),
        loc_ref_begin: String::from("decl"),
        can_be_fn: false,
        is_lvalue: false,
        ast_kind: AstKind::Decls,
        begin: true,
        is_placeholder: false,
        premise: String::new(),
        merged_variants: Vec::new(),
    }
}

#[test]
fn any_location_attribute_can_place_an_item() {
    // the first location attribute lies outside the range, a later one
    // inside: the item still belongs to the region
    let d = item(
        "twice_located",
        "fn twice_located() {}",
        vec![src_loc_attr(50, 1), src_loc_attr(3, 1)],
        false,
    );
    let items = vec![d];
    let range = LnColRange { start: LnCol::new(1, 1), end: LnCol::new(9, 1) };
    let found = find_items_in_range(&items, &range);
    assert_eq!(found.len(), 1);
    assert_eq!(found[0].name, Some(String::from("twice_located")));
}

#[test]
fn base_patch_conditionals_pair_by_declaring_location() {
    // two base branches of one declaration (deduplicated), one unmatched
    let mut b0 = cond_expr("b0", "A", false);
    set_ref_loc(&mut b0, "decl_one");
    let mut b1 = cond_expr("b1", "A", false);
    set_ref_loc(&mut b1, "decl_one");
    let mut b2 = cond_expr("b2", "B", false);
    set_ref_loc(&mut b2, "decl_two");
    let mut p0 = cond_expr("p0", "C", false);
    set_ref_loc(&mut p0, "decl_two");
    let mut p1 = cond_expr("p1", "C", false);
    set_ref_loc(&mut p1, "decl_one");
    let base = vec![b0, b1, b2];
    let patch = vec![p0, p1];
    let pairs = hayroll::merge::plan_conditional_pairs(&base, &patch);
    // the first base occurrence of each location pairs with the first
    // matching patch conditional
    assert_eq!(pairs, vec![(0, 1), (2, 0)]);
}

fn set_ref_loc(c: &mut HayrollConditionalMacro, loc: &str) {
    if let HayrollSeed::Expr(ref mut t) = c.seed {
        t.tag.loc_ref_begin = String::from(loc);
    }
}

#[test]
fn cleanup_application_order_is_position_descending() {
    let mut s0 = cond_expr("s0", "A", false);
    let mut s1 = cond_expr("s1", "A", false);
    let s2 = cond_expr("s2", "A", false);
    if let HayrollSeed::Expr(ref mut t) = s0.seed {
        t.file_id = 4;
    }
    if let HayrollSeed::Expr(ref mut t) = s1.seed {
        t.file_id = 9;
    }
    let seeds = vec![s0.seed, s1.seed, s2.seed];
    let in_file_zero = seed_indices_of_file(&seeds, 0);
    assert_eq!(in_file_zero, vec![2]);
    let in_file_nine = seed_indices_of_file(&seeds, 9);
    assert_eq!(in_file_nine, vec![1]);
    // ordering by text position, last first
    let idxs = vec![0, 1, 2];
    let offsets = vec![120u32, 45u32, 300u32];
    let ordered = order_indices_by_offset_desc(&idxs, &offsets);
    assert_eq!(ordered, vec![2, 0, 1]);
}

#[test]
fn placeholder_declarations_need_no_gate_either() {
    let d = item("a", "fn a() {}", vec![src_loc_attr(2, 1)], false);
    let c = HayrollConditionalMacro {
        seed: HayrollSeed::Decls(HayrollTag {
            tag: cond_payload(AstKind::Decls, "d1", "FOO", true),
            file_id: 0,
            site: TagSite::Decl { items: vec![d], tag_idx: 0 },
        }),
    };
    assert!(c.attach_cfg_teds().is_empty());
}
