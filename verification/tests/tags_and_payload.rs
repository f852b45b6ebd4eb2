use hayroll::extract::extract_hayroll_seeds_from_syntax_roots;
use hayroll::loc::{LnCol, LnColRange};
use hayroll::payload::{parse_tag_payload, payload_text};
use hayroll::tag::{AstKind, HasHayrollTag, HayrollMeta, HayrollTag, SeedType, TagPayload};
use hayroll::region::{ExprSite, TagSite};

fn sample_payload() -> TagPayload {
    TagPayload {
        seed_type: SeedType::Invocation,
        is_arg: false,
        name: String::from("MIN"),
        arg_names: vec![String::from("a"), String::from("b")],
        loc_begin: String::from("/ws/app.c:10:5"),
        loc_end: String::from("/ws/app.c:10:20"),
        cu_ln_col_begin: String::from("10:5"),
        cu_ln_col_end: String::from("10:20"),
        loc_ref_begin: String::from("/ws/min.h:3:9"),
        can_be_fn: true,
        is_lvalue: false,
        ast_kind: AstKind::Expr,
        begin: true,
        is_placeholder: false,
        premise: String::new(),
        merged_variants: Vec::new(),
    }
}

fn expr_site(base: &str) -> TagSite {
    TagSite::Expr(ExprSite {
        cond_text: String::from("(*tag_lit as i32 != 0)"),
        live_text: String::from("{ a + b }"),
        fallback_text: String::from("{ *(0 as *mut i32) }"),
        ptr_type_text: format!("*mut {}", base),
        base_type_text: String::from(base),
        is_else_if_branch: false,
    })
}

#[test]
fn parse_ln_col_accepts_well_formed() {
    let p = LnCol::parse_cu_ln_col("12:34").unwrap();
    assert_eq!(p.line, 12);
    assert_eq!(p.col, 34);
}

#[test]
fn parse_ln_col_rejects_malformed() {
    assert!(LnCol::parse_cu_ln_col("").is_none());
    assert!(LnCol::parse_cu_ln_col("12").is_none());
    assert!(LnCol::parse_cu_ln_col(":5").is_none());
    assert!(LnCol::parse_cu_ln_col("12:").is_none());
    assert!(LnCol::parse_cu_ln_col("a:5").is_none());
    assert!(LnCol::parse_cu_ln_col("12:5x").is_none());
    // more than nine digits cannot fit the position type
    assert!(LnCol::parse_cu_ln_col("1234567890:5").is_none());
}

#[test]
fn is_within_uses_line_column_containment() {
    let range = LnColRange { start: LnCol::new(10, 5), end: LnCol::new(12, 8) };
    assert!(LnCol::new(10, 5).is_within(&range));
    assert!(LnCol::new(11, 1).is_within(&range));
    assert!(LnCol::new(12, 8).is_within(&range));
    assert!(!LnCol::new(10, 4).is_within(&range));
    assert!(!LnCol::new(12, 9).is_within(&range));
    assert!(!LnCol::new(9, 99).is_within(&range));
    assert!(!LnCol::new(13, 0).is_within(&range));
}

#[test]
fn payload_serializes_canonically() {
    let t = sample_payload();
    let text = payload_text(&t);
    let expected = String::from("{\"argNames\":[\"a\",\"b\"],\"astKind\":\"Expr\",\"begin\":true,\"canBeFn\":true,\"cuLnColBegin\":\"10:5\",\"cuLnColEnd\":\"10:20\",\"hayroll\":true,\"isArg\":false,\"isLvalue\":false,\"isPlaceholder\":false,\"locBegin\":\"/ws/app.c:10:5\",\"locEnd\":\"/ws/app.c:10:20\",\"locRefBegin\":\"/ws/min.h:3:9\",\"mergedVariants\":[],\"name\":\"MIN\",\"premise\":\"\",\"seedType\":\"invocation\"}");
    assert_eq!(text, expected);
}

#[test]
fn payload_round_trips() {
    let mut t = sample_payload();
    t.premise = String::from("FOO && !BAR");
    t.merged_variants = vec![String::from("/ws/a.c:1:1")];
    t.name = String::from("weird \"name\" with \\ and \n tab\t");
    let text = payload_text(&t);
    let back = parse_tag_payload(&text).expect("canonical payload must parse");
    assert_eq!(payload_text(&back), text);
    assert_eq!(back.name, t.name);
    assert_eq!(back.arg_names, t.arg_names);
    assert_eq!(back.premise, t.premise);
    assert_eq!(back.merged_variants, t.merged_variants);
    assert_eq!(back.begin, t.begin);
    assert_eq!(back.ast_kind, t.ast_kind);
    assert_eq!(back.seed_type, t.seed_type);
}

#[test]
fn parse_rejects_non_tags() {
    assert!(parse_tag_payload("not json at all").is_none());
    assert!(parse_tag_payload("{\"hayroll\":true}").is_none());
    assert!(parse_tag_payload("").is_none());
    // a near-canonical payload with one key missing is refused
    let t = sample_payload();
    let text = payload_text(&t);
    let truncated = &text[..text.len() - 2];
    assert!(parse_tag_payload(truncated).is_none());
}

#[test]
fn with_updated_begin_flips_only_begin() {
    let t = sample_payload();
    let e = t.with_updated_begin(false);
    assert!(!e.begin);
    assert_eq!(e.name, t.name);
    assert_eq!(e.loc_begin, t.loc_begin);
    assert_eq!(e.seed_type, t.seed_type);
    assert_eq!(e.arg_names, t.arg_names);
}

#[test]
fn with_appended_merged_variants_appends() {
    let t = sample_payload();
    let m = t.with_appended_merged_variants("/ws/b.c:2:2");
    assert_eq!(m.merged_variants, vec![String::from("/ws/b.c:2:2")]);
    let m2 = m.with_appended_merged_variants("/ws/c.c:3:3");
    assert_eq!(
        m2.merged_variants,
        vec![String::from("/ws/b.c:2:2"), String::from("/ws/c.c:3:3")]
    );
    assert_eq!(m2.name, t.name);
}

#[test]
fn meta_accessors_read_through() {
    let tag = HayrollTag { tag: sample_payload(), file_id: 7, site: expr_site("i32") };
    assert_eq!(tag.name(), "MIN");
    assert!(tag.is_invocation());
    assert!(!tag.is_conditional());
    assert!(!tag.is_arg());
    assert!(tag.can_be_fn());
    assert_eq!(tag.file_id(), 7);
    assert_eq!(tag.ast_kind(), AstKind::Expr);
    assert!(tag.begin());
    assert_eq!(tag.loc_ref_begin(), "/ws/min.h:3:9");
    assert_eq!(tag.arg_names(), vec![String::from("a"), String::from("b")]);
    assert_eq!(tag.hayroll_tag().file_id, 7);
}

#[test]
fn payloads_flow_from_text_to_seeds() {
    // two wire payloads as an instrumented file would embed them
    let mut begin = sample_payload();
    begin.ast_kind = AstKind::Stmts;
    begin.loc_begin = String::from("/ws/app.c:30:1");
    let mut end = begin.with_updated_begin(false);
    end.loc_end = String::from("/ws/app.c:33:1");
    let texts = vec![payload_text(&begin), payload_text(&end)];
    let mut tags: Vec<HayrollTag> = Vec::new();
    for (i, text) in texts.iter().enumerate() {
        let parsed = parse_tag_payload(text).expect("canonical payload");
        let stmts = vec![
            hayroll::region::StmtNode {
                text: String::from("beg();"),
                kind: hayroll::region::StmtKind::ExprStmt,
                can_have_attrs: false,
                is_return: false,
                is_tag_marker: true,
            },
            hayroll::region::StmtNode {
                text: String::from("work();"),
                kind: hayroll::region::StmtKind::ExprStmt,
                can_have_attrs: false,
                is_return: false,
                is_tag_marker: false,
            },
            hayroll::region::StmtNode {
                text: String::from("end();"),
                kind: hayroll::region::StmtKind::ExprStmt,
                can_have_attrs: false,
                is_return: false,
                is_tag_marker: true,
            },
        ];
        tags.push(HayrollTag {
            tag: parsed,
            file_id: 0,
            site: TagSite::Stmt { stmts, idx: if i == 0 { 0 } else { 2 } },
        });
    }
    let seeds = extract_hayroll_seeds_from_syntax_roots(&tags).expect("one matched span");
    assert_eq!(seeds.len(), 1);
}
