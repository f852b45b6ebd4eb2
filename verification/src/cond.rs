//! Conditional reconstruction: turning a conditional-type seed's
//! dead-branch-guarded region into a configuration-gated equivalent.
//!
//! All edits are planned against the pre-edit region and returned as a
//! list; the driver applies them in one batch, so no edit can invalidate a
//! sibling's position.

use vstd::prelude::*;
use crate::region::{StmtKind, StmtNodeV, TagSite, stmts_view, decls_view, decl_in_range};
use crate::seed::HayrollSeed;
use crate::tag::{HayrollTag, HayrollTagV, HasHayrollTag};
use crate::text::clone_string;

verus! {

/// A conditional-type seed: one branch of an original preprocessor
/// conditional.
pub struct HayrollConditionalMacro {
    pub seed: HayrollSeed,
}

impl HasHayrollTag for HayrollConditionalMacro {
    open spec fn spec_tag(&self) -> HayrollTagV {
        self.seed.spec_first_tag()
    }

    fn hayroll_tag(&self) -> (t: &HayrollTag) {
        self.seed.first_tag()
    }
}

/// One planned configuration-gate edit, in terms of the pre-edit region.
pub enum CfgEdit {
    /// Replace the guard's then-branch with a configuration-gated choice
    /// carrying this text.
    ReplaceThenBranch { new_text: String },
    /// Attach the attribute text directly to statement `idx` of the span's
    /// statement list.
    AttachAttrToStmt { idx: usize, attr_text: String },
    /// Wrap the expression statement at `idx` in a parenthesis shape that
    /// carries the attribute.
    WrapStmtWithParen { idx: usize, attr_text: String },
    /// Attach the attribute to item `item_idx` of the seed's file.
    AttachAttrToDecl { item_idx: usize, attr_text: String },
}

pub enum CfgEditV {
    ReplaceThenBranch { new_text: Seq<char> },
    AttachAttrToStmt { idx: int, attr_text: Seq<char> },
    WrapStmtWithParen { idx: int, attr_text: Seq<char> },
    AttachAttrToDecl { item_idx: int, attr_text: Seq<char> },
}

impl View for CfgEdit {
    type V = CfgEditV;

    open spec fn view(&self) -> CfgEditV {
        match self {
            CfgEdit::ReplaceThenBranch { new_text } => CfgEditV::ReplaceThenBranch {
                new_text: new_text@,
            },
            CfgEdit::AttachAttrToStmt { idx, attr_text } => CfgEditV::AttachAttrToStmt {
                idx: *idx as int,
                attr_text: attr_text@,
            },
            CfgEdit::WrapStmtWithParen { idx, attr_text } => CfgEditV::WrapStmtWithParen {
                idx: *idx as int,
                attr_text: attr_text@,
            },
            CfgEdit::AttachAttrToDecl { item_idx, attr_text } => CfgEditV::AttachAttrToDecl {
                item_idx: *item_idx as int,
                attr_text: attr_text@,
            },
        }
    }
}

pub open spec fn edits_view(s: Seq<CfgEdit>) -> Seq<CfgEditV> {
    s.map_values(|e: CfgEdit| e@)
}

/// The attribute text gating on a premise.
pub open spec fn spec_cfg_attr(premise: Seq<char>) -> Seq<char> {
    "#[cfg("@ + premise + ")]"@
}

/// The gated choice text replacing a guard's then-branch: the same two
/// arms under the real configuration predicate.
pub open spec fn spec_cfg_if_text(premise: Seq<char>, live: Seq<char>, fallback: Seq<char>) -> Seq<
    char,
> {
    "{ if cfg!("@ + premise + ") "@ + live + " else "@ + fallback + " }"@
}

/// What the plan does to one statement of a gated span: a `let` or item
/// statement takes the attribute directly; an expression statement that is
/// itself a marker is left alone; one whose shape carries attributes takes
/// it directly; any other is wrapped.
pub open spec fn spec_stmt_gate_edits(s: StmtNodeV, idx: int, premise: Seq<char>) -> Seq<CfgEditV> {
    match s.kind {
        StmtKind::LetStmt => seq![
            CfgEditV::AttachAttrToStmt { idx, attr_text: spec_cfg_attr(premise) },
        ],
        StmtKind::ItemStmt => seq![
            CfgEditV::AttachAttrToStmt { idx, attr_text: spec_cfg_attr(premise) },
        ],
        StmtKind::ExprStmt => if s.is_tag_marker {
            Seq::empty()
        } else if s.can_have_attrs {
            seq![CfgEditV::AttachAttrToStmt { idx, attr_text: spec_cfg_attr(premise) }]
        } else {
            seq![CfgEditV::WrapStmtWithParen { idx, attr_text: spec_cfg_attr(premise) }]
        },
    }
}

/// The edits for statements `from ..= to` of the span, in order.
pub open spec fn spec_stmts_gate_plan(
    stmts: Seq<StmtNodeV>,
    from: int,
    to: int,
    premise: Seq<char>,
) -> Seq<CfgEditV>
    decreases to - from + 1,
{
    if from > to || from < 0 || to >= stmts.len() {
        Seq::empty()
    } else {
        spec_stmts_gate_plan(stmts, from, to - 1, premise) + spec_stmt_gate_edits(
            stmts[to],
            to,
            premise,
        )
    }
}

/// The edits for a declaration region: one attribute per located item.
pub open spec fn spec_decls_gate_plan(
    items: Seq<crate::region::DeclItemV>,
    n: int,
    range: crate::loc::LnColRange,
    premise: Seq<char>,
) -> Seq<CfgEditV>
    decreases n,
{
    if n <= 0 {
        Seq::empty()
    } else {
        let prev = spec_decls_gate_plan(items, n - 1, range, premise);
        if decl_in_range(items[n - 1], range) {
            prev.push(
                CfgEditV::AttachAttrToDecl { item_idx: n - 1, attr_text: spec_cfg_attr(premise) },
            )
        } else {
            prev
        }
    }
}

/// The whole gating plan of a conditional seed.  A placeholder branch is
/// an empty stand-in and needs no reconstruction: its plan is empty.
pub open spec fn spec_cfg_plan(c: HayrollConditionalMacro) -> Seq<CfgEditV> {
    let tag = c.seed.spec_first_tag().tag;
    if tag.is_placeholder {
        Seq::empty()
    } else {
        match c.seed {
            HayrollSeed::Expr(t) => match t.site {
                TagSite::Expr(site) => seq![
                    CfgEditV::ReplaceThenBranch {
                        new_text: spec_cfg_if_text(
                            tag.premise,
                            site.live_text@,
                            site.fallback_text@,
                        ),
                    },
                ],
                _ => Seq::empty(),
            },
            HayrollSeed::Stmts(b, e) => match (b.site, e.site) {
                (TagSite::Stmt { stmts, idx: bi }, TagSite::Stmt { idx: ei, .. }) => {
                    spec_stmts_gate_plan(stmts_view(stmts@), bi + 1, ei - 1, tag.premise)
                },
                _ => Seq::empty(),
            },
            HayrollSeed::Decls(t) => match t.site {
                TagSite::Decl { items, .. } => spec_decls_gate_plan(
                    decls_view(items@),
                    items@.len() as int,
                    c.seed.spec_cu_range(),
                    tag.premise,
                ),
                _ => Seq::empty(),
            },
        }
    }
}

impl HayrollConditionalMacro {
    /// Plans the configuration-gate edits for this conditional seed: a
    /// gated choice over the guard's two arms for an expression region, a
    /// gate attribute per statement of a span (markers left untouched,
    /// shapes that cannot carry attributes wrapped first), and a gate
    /// attribute per located declaration.  A placeholder branch needs no
    /// gate.
    pub fn attach_cfg_teds(&self) -> (r: Vec<CfgEdit>)
        requires
            self.seed.wf(),
            self.seed matches HayrollSeed::Stmts(b, e) ==> b.site matches TagSite::Stmt {
                idx: bi,
                ..
            } && e.site matches TagSite::Stmt { idx: ei, .. } && bi < ei,
        ensures
            edits_view(r@) == spec_cfg_plan(*self),
    {
        let tag = &self.seed.first_tag().tag;
        if tag.is_placeholder {
            let r: Vec<CfgEdit> = Vec::new();
            proof {
                assert(edits_view(r@) =~= spec_cfg_plan(*self));
            }
            return r;
        }
        let premise = clone_string(&tag.premise);
        let mut attr = String::new();
        attr.append("#[cfg(");
        attr.append(premise.as_str());
        attr.append(")]");
        proof {
            assert(attr@ =~= spec_cfg_attr(tag.premise@));
        }
        match &self.seed {
            HayrollSeed::Expr(t) => {
                let site = match &t.site {
                    TagSite::Expr(site) => site,
                    _ => unreached(),
                };
                let mut new_text = String::new();
                new_text.append("{ if cfg!(");
                new_text.append(premise.as_str());
                new_text.append(") ");
                new_text.append(site.live_text.as_str());
                new_text.append(" else ");
                new_text.append(site.fallback_text.as_str());
                new_text.append(" }");
                proof {
                    assert(new_text@ =~= spec_cfg_if_text(
                        tag.premise@,
                        site.live_text@,
                        site.fallback_text@,
                    ));
                }
                let mut r: Vec<CfgEdit> = Vec::new();
                r.push(CfgEdit::ReplaceThenBranch { new_text });
                proof {
                    assert(edits_view(r@) =~= spec_cfg_plan(*self));
                }
                r
            },
            HayrollSeed::Stmts(b, e) => {
                let (bs, bi) = match &b.site {
                    TagSite::Stmt { stmts, idx } => (stmts, *idx),
                    _ => unreached(),
                };
                let ei = match &e.site {
                    TagSite::Stmt { idx, .. } => *idx,
                    _ => unreached(),
                };
                let mut r: Vec<CfgEdit> = Vec::new();
                let mut i = bi + 1;
                let ghost sv = stmts_view(bs@);
                proof {
                    assert(spec_stmts_gate_plan(sv, bi + 1, bi as int, tag.premise@)
                        =~= Seq::<CfgEditV>::empty());
                }
                while i <= ei - 1
                    invariant
                        bi + 1 <= i <= ei,
                        ei < bs@.len(),
                        sv == stmts_view(bs@),
                        edits_view(r@) == spec_stmts_gate_plan(
                            sv,
                            bi + 1,
                            i - 1,
                            tag.premise@,
                        ),
                        attr@ == spec_cfg_attr(tag.premise@),
                    decreases ei - i,
                {
                    let stmt = &bs[i];
                    let ghost pre = r@;
                    match stmt.kind {
                        StmtKind::LetStmt => {
                            r.push(
                                CfgEdit::AttachAttrToStmt {
                                    idx: i,
                                    attr_text: clone_string(&attr),
                                },
                            );
                        },
                        StmtKind::ItemStmt => {
                            r.push(
                                CfgEdit::AttachAttrToStmt {
                                    idx: i,
                                    attr_text: clone_string(&attr),
                                },
                            );
                        },
                        StmtKind::ExprStmt => {
                            if stmt.is_tag_marker {
                                // a residual marker: leave it untouched
                            } else if stmt.can_have_attrs {
                                r.push(
                                    CfgEdit::AttachAttrToStmt {
                                        idx: i,
                                        attr_text: clone_string(&attr),
                                    },
                                );
                            } else {
                                r.push(
                                    CfgEdit::WrapStmtWithParen {
                                        idx: i,
                                        attr_text: clone_string(&attr),
                                    },
                                );
                            }
                        },
                    }
                    proof {
                        assert(sv[i as int] == bs@[i as int]@);
                        assert(edits_view(r@) =~= spec_stmts_gate_plan(
                            sv,
                            bi + 1,
                            i as int,
                            tag.premise@,
                        ));
                    }
                    i = i + 1;
                }
                r
            },
            HayrollSeed::Decls(t) => {
                let items = match &t.site {
                    TagSite::Decl { items, .. } => items,
                    _ => unreached(),
                };
                let begin = match crate::loc::LnCol::parse_cu_ln_col(
                    tag.cu_ln_col_begin.as_str(),
                ) {
                    Some(p) => p,
                    None => unreached(),
                };
                let end = match crate::loc::LnCol::parse_cu_ln_col(tag.cu_ln_col_end.as_str()) {
                    Some(p) => p,
                    None => unreached(),
                };
                let range = crate::loc::LnColRange { start: begin, end };
                proof {
                    assert(range == self.seed.spec_cu_range());
                }
                let mut r: Vec<CfgEdit> = Vec::new();
                let mut i: usize = 0;
                let ghost dv = decls_view(items@);
                while i < items.len()
                    invariant
                        i <= items@.len(),
                        dv == decls_view(items@),
                        range == self.seed.spec_cu_range(),
                        edits_view(r@) == spec_decls_gate_plan(
                            dv,
                            i as int,
                            range,
                            tag.premise@,
                        ),
                        attr@ == spec_cfg_attr(tag.premise@),
                    decreases items@.len() - i,
                {
                    let included = items[i].has_loc_in_range(&range);
                    proof {
                        assert(dv[i as int] == items@[i as int]@);
                        assert(included == decl_in_range(dv[i as int], range));
                    }
                    if included {
                        r.push(
                            CfgEdit::AttachAttrToDecl {
                                item_idx: i,
                                attr_text: clone_string(&attr),
                            },
                        );
                    }
                    proof {
                        assert(edits_view(r@) =~= spec_decls_gate_plan(
                            dv,
                            i + 1,
                            range,
                            tag.premise@,
                        ));
                    }
                    i = i + 1;
                }
                r
            },
        }
    }
}

} // verus!
