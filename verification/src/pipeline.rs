//! The pipeline passes, as planners: every pass computes its full list of
//! edits against one immutable snapshot before anything is applied, and a
//! driver applies each pass's list as a single transaction per file before
//! the next pass re-extracts.

use vstd::prelude::*;
use crate::cond::{CfgEdit, HayrollConditionalMacro, edits_view, spec_cfg_plan};
use crate::extract::{seed_first_tags, spec_unmatched_tags, starters, tag_views};
use crate::inv::{
    HayrollMacroCluster, cluster_sites_wf, cluster_wf, spec_can_be_fn,
    spec_invs_internally_struct_compat,
};
use crate::region::{DeclItem, TagSite, decls_view, stmts_view};
use crate::seed::HayrollSeed;
use crate::synth::{
    BodySegment, body_matches, spec_call_expr_text, spec_fn_text, spec_macro_call_text,
    spec_macro_rules_text, spec_peel_text, spec_synthesis_defined,
    spec_callable_cluster_defined,
};
use crate::tag::{HayrollTag, TagPayload, TagPayloadV, HasHayrollTag};
use crate::text::clone_string;

verus! {

/// The repair pass failed: an unmatched span held no `return` statement,
/// so the dropped end marker cannot be re-synthesized.
#[derive(Clone, Copy, PartialEq, Eq, Structural, Debug)]
pub enum RepairError {
    NoReturnInSpan,
}

/// One planned repair: clone the begin marker statement, give it the end
/// payload, and insert it right after the span's first `return`.
pub struct RepairEdit {
    /// The marker statement to clone.
    pub begin_idx: usize,
    /// Insert the new end marker after this statement.
    pub after_idx: usize,
    /// The payload of the new end marker: the begin payload, begin flag
    /// cleared.
    pub end_tag: TagPayload,
}

/// The first `return` statement at or after `from`, or -1.
pub open spec fn spec_first_return(stmts: Seq<crate::region::StmtNodeV>, from: int) -> int
    decreases stmts.len() - from,
{
    if from < 0 || from >= stmts.len() {
        -1
    } else if stmts[from].is_return {
        from
    } else {
        spec_first_return(stmts, from + 1)
    }
}

/// Plans the repair of the spans whose end markers the translator dropped
/// after unreachable code: each gains a fresh end marker right after the
/// first `return` in its span.  A span with no `return` is a fatal
/// condition.
pub fn plan_repair(unmatched: &Vec<HayrollTag>) -> (r: Result<Vec<RepairEdit>, RepairError>)
    requires
        forall|i: int|
            0 <= i < unmatched@.len() ==> ((#[trigger] unmatched@[i]).site matches TagSite::Stmt {
                stmts,
                idx,
            } && idx < stmts@.len()),
    ensures
        match r {
            Ok(edits) => {
                &&& edits@.len() == unmatched@.len()
                &&& forall|i: int|
                    0 <= i < edits@.len()
                        ==> ((#[trigger] unmatched@[i]).site matches TagSite::Stmt {
                        stmts,
                        idx,
                    } && edits@[i].begin_idx == idx && edits@[i].after_idx == spec_first_return(
                        stmts_view(stmts@),
                        idx as int,
                    ) && edits@[i].end_tag@ == (TagPayloadV {
                        begin: false,
                        ..unmatched@[i].tag@
                    }))
            },
            Err(_) => exists|i: int|
                0 <= i < unmatched@.len() && ((#[trigger] unmatched@[i]).site matches TagSite::Stmt {
                    stmts,
                    idx,
                } && spec_first_return(stmts_view(stmts@), idx as int) == -1),
        },
{
    let mut edits: Vec<RepairEdit> = Vec::new();
    let mut i: usize = 0;
    while i < unmatched.len()
        invariant
            i <= unmatched@.len(),
            forall|k: int|
                0 <= k < unmatched@.len() ==> ((#[trigger] unmatched@[k]).site
                    matches TagSite::Stmt { stmts, idx } && idx < stmts@.len()),
            edits@.len() == i,
            forall|k: int|
                0 <= k < i ==> ((#[trigger] unmatched@[k]).site matches TagSite::Stmt {
                    stmts,
                    idx,
                } && edits@[k].begin_idx == idx && edits@[k].after_idx == spec_first_return(
                    stmts_view(stmts@),
                    idx as int,
                ) && edits@[k].end_tag@ == (TagPayloadV { begin: false, ..unmatched@[k].tag@ })),
        decreases unmatched@.len() - i,
    {
        let tag = &unmatched[i];
        let (stmts, idx) = match &tag.site {
            TagSite::Stmt { stmts, idx } => (stmts, *idx),
            _ => unreached(),
        };
        // find the first return statement in the span
        let mut j = idx;
        let ghost sv = stmts_view(stmts@);
        while j < stmts.len() && !stmts[j].is_return
            invariant
                idx <= j <= stmts@.len(),
                sv == stmts_view(stmts@),
                spec_first_return(sv, idx as int) == spec_first_return(sv, j as int),
                forall|m: int| idx <= m < j ==> !(#[trigger] sv[m]).is_return,
            decreases stmts@.len() - j,
        {
            proof {
                assert(sv[j as int] == stmts@[j as int]@);
            }
            j = j + 1;
        }
        if j >= stmts.len() {
            proof {
                assert(spec_first_return(sv, j as int) == -1);
            }
            return Err(RepairError::NoReturnInSpan);
        }
        proof {
            assert(sv[j as int] == stmts@[j as int]@);
            assert(spec_first_return(sv, j as int) == j as int);
        }
        edits.push(
            RepairEdit {
                begin_idx: idx,
                after_idx: j,
                end_tag: tag.tag.with_updated_begin(false),
            },
        );
        i = i + 1;
    }
    Ok(edits)
}

/// What the invocation pass does with one cluster.
pub enum ClusterPlan {
    /// A typed callable: its definition goes at the bottom of the
    /// declaring file, each call site is replaced by its call text, and
    /// every declared-but-unreferenced argument is reported, never
    /// silently dropped.
    Fn { definition: String, calls: Vec<String>, warnings: Vec<String> },
    /// A pattern template: its definition goes at the top of the declaring
    /// file, and each call site is replaced by its invocation text.
    Template { definition: String, calls: Vec<String> },
    /// Irreconcilable call sites: leave them instrumented and report the
    /// first invocation's location.
    Skip { loc: String },
}

/// The report for one declared argument a call site never references: the
/// parameter is omitted from that call.
pub open spec fn spec_omitted_warning(inv: crate::inv::HayrollMacroInv, name: Seq<char>) -> Seq<
    char,
> {
    crate::inv::spec_name_with_signature(inv) + ": argument "@ + name
        + " is never used at this call site"@
}

/// The warnings one invocation contributes: one per empty slot among its
/// first `n`.
pub open spec fn spec_inv_warnings(inv: crate::inv::HayrollMacroInv, n: int) -> Seq<Seq<char>>
    decreases n,
{
    if n <= 0 {
        Seq::empty()
    } else {
        let prev = spec_inv_warnings(inv, n - 1);
        if inv.args@[n - 1].seeds@.len() == 0 {
            prev.push(spec_omitted_warning(inv, inv.args@[n - 1].name@))
        } else {
            prev
        }
    }
}

/// The warnings of the first `n` invocations of a cluster, in order.
pub open spec fn spec_cluster_warnings(invs: Seq<crate::inv::HayrollMacroInv>, n: int) -> Seq<
    Seq<char>,
>
    decreases n,
{
    if n <= 0 {
        Seq::empty()
    } else {
        spec_cluster_warnings(invs, n - 1) + spec_inv_warnings(
            invs[n - 1],
            invs[n - 1].args@.len() as int,
        )
    }
}

/// Decides and synthesizes for one cluster: a callable when the cluster is
/// type compatible and every invocation carries the callable hint, a
/// template when it is at least structurally compatible, and a reported
/// skip otherwise.  The supplied segmentation must be faithful to the
/// first invocation's live content.
pub fn plan_cluster(cluster: &HayrollMacroCluster, body0: &Vec<BodySegment>) -> (r: ClusterPlan)
    requires
        cluster_wf(*cluster),
        cluster_sites_wf(*cluster),
        forall|v: int|
            0 <= v < cluster.invocations@.len() ==> spec_callable_cluster_defined(
                #[trigger] cluster.invocations@[v],
            ) && cluster.invocations@[v].args@.len() == cluster.invocations@[0].args@.len(),
        !spec_can_be_fn(*cluster) ==> forall|v: int|
            0 <= v < cluster.invocations@.len() ==> spec_synthesis_defined(
                #[trigger] cluster.invocations@[v],
            ),
        body_matches(cluster.invocations@[0], body0@),
    ensures
        match r {
            ClusterPlan::Fn { definition, calls, warnings } => {
                &&& spec_can_be_fn(*cluster)
                &&& calls@.len() == cluster.invocations@.len()
                &&& warnings.deep_view() == spec_cluster_warnings(
                    cluster.invocations@,
                    cluster.invocations@.len() as int,
                )
                &&& exists|reqs: Seq<bool>|
                    reqs.len() == cluster.invocations@[0].args@.len() && definition@
                        == spec_fn_text(cluster.invocations@[0], reqs, body0@) && forall|v: int|
                        0 <= v < calls@.len() ==> (#[trigger] calls@[v])@ == (
                        if cluster.invocations@[v].seed.spec_first_tag().tag.ast_kind is Expr {
                            spec_call_expr_text(cluster.invocations@[v], reqs)
                        } else {
                            spec_call_expr_text(cluster.invocations@[v], reqs).push(';')
                        })
            },
            ClusterPlan::Template { definition, calls } => {
                &&& !spec_can_be_fn(*cluster)
                &&& spec_invs_internally_struct_compat(*cluster)
                &&& definition@ == spec_macro_rules_text(cluster.invocations@[0], body0@)
                &&& calls@.len() == cluster.invocations@.len()
                &&& forall|v: int|
                    0 <= v < calls@.len() ==> (#[trigger] calls@[v])@ == spec_macro_call_text(
                        cluster.invocations@[v],
                    )
            },
            ClusterPlan::Skip { loc } => {
                &&& !spec_can_be_fn(*cluster)
                &&& !spec_invs_internally_struct_compat(*cluster)
                &&& loc@ == cluster.invocations@[0].seed.spec_first_tag().tag.loc_begin
            },
        },
{
    if cluster.can_be_fn() {
        let reqs = cluster.args_require_lvalue();
        let definition = cluster.invocations[0].fn_(&reqs, body0);
        let mut calls: Vec<String> = Vec::new();
        let mut v: usize = 0;
        while v < cluster.invocations.len()
            invariant
                v <= cluster.invocations@.len(),
                reqs@.len() == cluster.invocations@[0].args@.len(),
                forall|w: int|
                    0 <= w < cluster.invocations@.len() ==> spec_callable_cluster_defined(
                        #[trigger] cluster.invocations@[w],
                    ) && cluster.invocations@[w].args@.len()
                        == cluster.invocations@[0].args@.len(),
                calls@.len() == v,
                forall|w: int|
                    0 <= w < v ==> (#[trigger] calls@[w])@ == (
                    if cluster.invocations@[w].seed.spec_first_tag().tag.ast_kind is Expr {
                        spec_call_expr_text(cluster.invocations@[w], reqs@)
                    } else {
                        spec_call_expr_text(cluster.invocations@[w], reqs@).push(';')
                    }),
            decreases cluster.invocations@.len() - v,
        {
            calls.push(cluster.invocations[v].call_expr_or_stmt(&reqs));
            v = v + 1;
        }
        // report every declared argument a call site never references
        let mut warnings: Vec<String> = Vec::new();
        let mut w: usize = 0;
        while w < cluster.invocations.len()
            invariant
                w <= cluster.invocations@.len(),
                forall|x: int|
                    0 <= x < cluster.invocations@.len() ==> spec_callable_cluster_defined(
                        #[trigger] cluster.invocations@[x],
                    ),
                warnings.deep_view() == spec_cluster_warnings(cluster.invocations@, w as int),
            decreases cluster.invocations@.len() - w,
        {
            let inv = &cluster.invocations[w];
            let name = inv.name_with_signature();
            let ghost base = warnings.deep_view();
            let mut si: usize = 0;
            while si < inv.args.len()
                invariant
                    si <= inv.args@.len(),
                    inv == cluster.invocations@[w as int],
                    w < cluster.invocations@.len(),
                    spec_callable_cluster_defined(*inv),
                    name@ == crate::inv::spec_name_with_signature(*inv),
                    warnings.deep_view() == base + spec_inv_warnings(*inv, si as int),
                decreases inv.args@.len() - si,
            {
                if inv.args[si].seeds.len() == 0 {
                    let mut text = clone_string(&name);
                    text.append(": argument ");
                    text.append(inv.args[si].name.as_str());
                    text.append(" is never used at this call site");
                    proof {
                        assert(text@ =~= spec_omitted_warning(*inv, inv.args@[si as int].name@));
                    }
                    let ghost dvold = warnings.deep_view();
                    warnings.push(text);
                    proof {
                        assert(warnings.deep_view() =~= dvold.push(warnings@.last()@));
                        assert(warnings.deep_view() =~= base + spec_inv_warnings(
                            *inv,
                            si + 1,
                        ));
                    }
                }
                si = si + 1;
            }
            proof {
                assert(warnings.deep_view() =~= spec_cluster_warnings(
                    cluster.invocations@,
                    w + 1,
                ));
            }
            w = w + 1;
        }
        ClusterPlan::Fn { definition, calls, warnings }
    } else if cluster.invs_internally_structurally_compatible() {
        let definition = cluster.invocations[0].macro_rules(body0);
        let mut calls: Vec<String> = Vec::new();
        let mut v: usize = 0;
        while v < cluster.invocations.len()
            invariant
                v <= cluster.invocations@.len(),
                forall|w: int|
                    0 <= w < cluster.invocations@.len() ==> spec_synthesis_defined(
                        #[trigger] cluster.invocations@[w],
                    ),
                calls@.len() == v,
                forall|w: int|
                    0 <= w < v ==> (#[trigger] calls@[w])@ == spec_macro_call_text(
                        cluster.invocations@[w],
                    ),
            decreases cluster.invocations@.len() - v,
        {
            calls.push(cluster.invocations[v].macro_call());
            v = v + 1;
        }
        ClusterPlan::Template { definition, calls }
    } else {
        ClusterPlan::Skip {
            loc: clone_string(&cluster.invocations[0].seed.first_tag().tag.loc_begin),
        }
    }
}

/// One planned cleanup edit on a seed's region.
pub enum CleanupEdit {
    /// Replace the whole instrumented expression region with this text.
    ReplaceExpr { text: String },
    /// Delete the marker statement at this index of the span's list.
    DeleteStmt { idx: usize },
}

pub enum CleanupEditV {
    ReplaceExpr { text: Seq<char> },
    DeleteStmt { idx: int },
}

impl View for CleanupEdit {
    type V = CleanupEditV;

    open spec fn view(&self) -> CleanupEditV {
        match self {
            CleanupEdit::ReplaceExpr { text } => CleanupEditV::ReplaceExpr { text: text@ },
            CleanupEdit::DeleteStmt { idx } => CleanupEditV::DeleteStmt { idx: *idx as int },
        }
    }
}

/// The cleanup edits for one residual seed: an expression region collapses
/// to its peeled text; a span loses its two marker statements;
/// declarations are handled by the residual item sweep.
pub open spec fn spec_cleanup_edits(s: HayrollSeed) -> Seq<CleanupEditV> {
    match s {
        HayrollSeed::Expr(_) => seq![
            CleanupEditV::ReplaceExpr { text: spec_peel_text(s, true) },
        ],
        HayrollSeed::Stmts(b, e) => match (b.site, e.site) {
            (TagSite::Stmt { idx: bi, .. }, TagSite::Stmt { idx: ei, .. }) => seq![
                CleanupEditV::DeleteStmt { idx: bi as int },
                CleanupEditV::DeleteStmt { idx: ei as int },
            ],
            _ => Seq::empty(),
        },
        HayrollSeed::Decls(_) => Seq::empty(),
    }
}

pub fn cleanup_edits(seed: &HayrollSeed) -> (r: Vec<CleanupEdit>)
    requires
        seed.wf(),
    ensures
        r@.map_values(|e: CleanupEdit| e@) == spec_cleanup_edits(*seed),
{
    let mut r: Vec<CleanupEdit> = Vec::new();
    match seed {
        HayrollSeed::Expr(_) => {
            r.push(CleanupEdit::ReplaceExpr { text: crate::synth::peel_text(seed, true) });
        },
        HayrollSeed::Stmts(b, e) => {
            let bi = match &b.site {
                TagSite::Stmt { idx, .. } => *idx,
                _ => unreached(),
            };
            let ei = match &e.site {
                TagSite::Stmt { idx, .. } => *idx,
                _ => unreached(),
            };
            r.push(CleanupEdit::DeleteStmt { idx: bi });
            r.push(CleanupEdit::DeleteStmt { idx: ei });
        },
        HayrollSeed::Decls(_) => {},
    }
    proof {
        assert(r@.map_values(|e: CleanupEdit| e@) =~= spec_cleanup_edits(*seed));
    }
    r
}

/// One planned edit of the residual item sweep.
pub enum ItemCleanupEdit {
    /// Delete the marker item at this index.
    Delete { idx: usize },
    /// Replace the item at this index with its location-stripped text.
    Replace { idx: usize, text: String },
}

pub enum ItemCleanupEditV {
    Delete { idx: int },
    Replace { idx: int, text: Seq<char> },
}

impl View for ItemCleanupEdit {
    type V = ItemCleanupEditV;

    open spec fn view(&self) -> ItemCleanupEditV {
        match self {
            ItemCleanupEdit::Delete { idx } => ItemCleanupEditV::Delete { idx: *idx as int },
            ItemCleanupEdit::Replace { idx, text } => ItemCleanupEditV::Replace {
                idx: *idx as int,
                text: text@,
            },
        }
    }
}

/// The residual sweep over the first `n` items: marker items are deleted;
/// items still carrying a location attribute are replaced by their
/// stripped text; all others are untouched.
pub open spec fn spec_residual_plan(items: Seq<crate::region::DeclItemV>, n: int) -> Seq<
    ItemCleanupEditV,
>
    decreases n,
{
    if n <= 0 {
        Seq::empty()
    } else {
        let prev = spec_residual_plan(items, n - 1);
        let d = items[n - 1];
        if d.is_tag_marker {
            prev.push(ItemCleanupEditV::Delete { idx: n - 1 })
        } else if !(crate::region::DeclItem::spec_src_loc_of(d.attrs) is None) {
            prev.push(
                ItemCleanupEditV::Replace {
                    idx: n - 1,
                    text: crate::region::spec_decl_text(crate::region::spec_peel_src_locs(d)),
                },
            )
        } else {
            prev
        }
    }
}

/// Plans the residual sweep of a file's items: delete every marker item
/// and strip every remaining location-tracking attribute.
pub fn plan_residual_cleanup(items: &Vec<DeclItem>) -> (r: Vec<ItemCleanupEdit>)
    ensures
        r@.map_values(|e: ItemCleanupEdit| e@) == spec_residual_plan(
            decls_view(items@),
            items@.len() as int,
        ),
{
    let mut r: Vec<ItemCleanupEdit> = Vec::new();
    let mut i: usize = 0;
    let ghost dv = decls_view(items@);
    while i < items.len()
        invariant
            i <= items@.len(),
            dv == decls_view(items@),
            r@.map_values(|e: ItemCleanupEdit| e@) == spec_residual_plan(dv, i as int),
        decreases items@.len() - i,
    {
        let d = &items[i];
        proof {
            assert(dv[i as int] == items@[i as int]@);
        }
        if d.is_tag_marker {
            r.push(ItemCleanupEdit::Delete { idx: i });
        } else {
            let has_loc = d.src_loc().is_some();
            if has_loc {
                let cleaned = d.peel_src_locs();
                r.push(ItemCleanupEdit::Replace { idx: i, text: cleaned.render_text() });
            }
        }
        proof {
            assert(r@.map_values(|e: ItemCleanupEdit| e@) =~= spec_residual_plan(dv, i + 1));
        }
        i = i + 1;
    }
    r
}

/// A workspace without seed tags is a fixed point of the pipeline: the
/// extraction of an empty tag stream yields no seeds and reports nothing
/// unmatched, so every pass, each a fold over the extracted seeds, plans
/// no edits.  This is what makes a second reconstruction run after a
/// completed one produce no further changes.
pub proof fn lemma_clean_workspace_quiescent(
    tags: Seq<HayrollTag>,
    seeds: Seq<HayrollSeed>,
    conds: Seq<HayrollConditionalMacro>,
)
    requires
        tags.len() == 0,
        seed_first_tags(seeds) == starters(tag_views(tags)),
        forall|i: int|
            0 <= i < conds.len() ==> seeds.contains((#[trigger] conds[i]).seed),
    ensures
        seeds.len() == 0,
        spec_unmatched_tags(seeds).len() == 0,
        conds.len() == 0,
{
    reveal(Seq::filter);
    assert(tag_views(tags).len() == 0);
    assert(tag_views(tags) =~= Seq::<crate::tag::HayrollTagV>::empty());
    assert(starters(tag_views(tags)).len() == 0);
    assert(seed_first_tags(seeds).len() == seeds.len());
    assert(seeds.filter(|s: HayrollSeed| crate::extract::is_self_paired(s)).len() <= seeds.len())
        by {
        seeds.lemma_filter_len(|s: HayrollSeed| crate::extract::is_self_paired(s));
    }
    if conds.len() > 0 {
        assert(seeds.contains(conds[0].seed));
    }
}


/// A replacement that lands where the guard stood as the else-branch of an
/// enclosing conditional must be re-braced to stay a block.
pub fn maybe_wrap_else_branch(is_else_if_branch: bool, replacement: &String) -> (r: String)
    ensures
        is_else_if_branch ==> r@ == "{ "@ + replacement@ + " }"@,
        !is_else_if_branch ==> r@ == replacement@,
{
    if is_else_if_branch {
        let mut r = String::new();
        r.append("{ ");
        r.append(replacement.as_str());
        r.append(" }");
        proof {
            assert(r@ =~= "{ "@ + replacement@ + " }"@);
        }
        r
    } else {
        clone_string(replacement)
    }
}


/// The indices of the seeds anchored in the given file, in stream order.
pub fn seed_indices_of_file(seeds: &Vec<HayrollSeed>, file_id: u32) -> (r: Vec<usize>)
    ensures
        forall|x: int|
            0 <= x < r@.len() ==> (#[trigger] r@[x]) < seeds@.len() && seeds@[
                r@[x] as int
            ].spec_first_tag().file_id == file_id,
        forall|a: int, b: int| 0 <= a < b < r@.len() ==> r@[a] < r@[b],
        forall|k: int|
            0 <= k < seeds@.len() && (#[trigger] seeds@[k]).spec_first_tag().file_id == file_id
                ==> exists|x: int| 0 <= x < r@.len() && #[trigger] r@[x] == k,
{
    let mut r: Vec<usize> = Vec::new();
    let mut i: usize = 0;
    while i < seeds.len()
        invariant
            i <= seeds@.len(),
            forall|x: int|
                0 <= x < r@.len() ==> (#[trigger] r@[x]) < i && seeds@[
                    r@[x] as int
                ].spec_first_tag().file_id == file_id,
            forall|a: int, b: int| 0 <= a < b < r@.len() ==> r@[a] < r@[b],
            forall|k: int|
                0 <= k < i && (#[trigger] seeds@[k]).spec_first_tag().file_id == file_id
                    ==> exists|x: int| 0 <= x < r@.len() && #[trigger] r@[x] == k,
        decreases seeds@.len() - i,
    {
        let ghost old_r = r@;
        let hit = seeds[i].first_tag().file_id == file_id;
        if hit {
            r.push(i);
        }
        proof {
            assert forall|k: int|
                0 <= k < i + 1 && (#[trigger] seeds@[k]).spec_first_tag().file_id == file_id
                    implies exists|x: int| 0 <= x < r@.len() && #[trigger] r@[x] == k by {
                if k < i as int {
                    let x = choose|x: int| 0 <= x < old_r.len() && #[trigger] old_r[x] == k;
                    assert(r@[x] == old_r[x]);
                } else {
                    assert(hit);
                    assert(r@[r@.len() - 1] == i);
                }
            }
        }
        i = i + 1;
    }
    r
}

/// Reorders region indices by their text position, last first: the
/// application order under which a driver's eager edits cannot shift a
/// later target.  The result holds exactly the given indices.
pub fn order_indices_by_offset_desc(idxs: &Vec<usize>, offsets: &Vec<u32>) -> (r: Vec<usize>)
    requires
        forall|k: int| 0 <= k < idxs@.len() ==> (#[trigger] idxs@[k]) < offsets@.len(),
    ensures
        r@.len() == idxs@.len(),
        r@.to_multiset() == idxs@.to_multiset(),
        forall|k: int| 0 <= k < r@.len() ==> (#[trigger] r@[k]) < offsets@.len(),
        forall|a: int, b: int|
            0 <= a < b < r@.len() ==> offsets@[(#[trigger] r@[a]) as int] >= offsets@[(
            #[trigger] r@[b]) as int],
{
    broadcast use vstd::seq_lib::group_to_multiset_ensures;
    broadcast use vstd::multiset::group_multiset_axioms;
    broadcast use vstd::multiset::lemma_multiset_empty_len;

    let mut rest: Vec<usize> = Vec::new();
    let mut c: usize = 0;
    while c < idxs.len()
        invariant
            c <= idxs@.len(),
            rest@ == idxs@.take(c as int),
        decreases idxs@.len() - c,
    {
        rest.push(idxs[c]);
        proof {
            assert(rest@ =~= idxs@.take(c + 1));
        }
        c = c + 1;
    }
    proof {
        assert(idxs@.take(idxs@.len() as int) =~= idxs@);
    }
    let mut r: Vec<usize> = Vec::new();
    while rest.len() > 0
        invariant
            forall|k: int| 0 <= k < idxs@.len() ==> (#[trigger] idxs@[k]) < offsets@.len(),
            forall|k: int| 0 <= k < rest@.len() ==> (#[trigger] rest@[k]) < offsets@.len(),
            forall|k: int| 0 <= k < r@.len() ==> (#[trigger] r@[k]) < offsets@.len(),
            r@.len() + rest@.len() == idxs@.len(),
            r@.to_multiset().add(rest@.to_multiset()) == idxs@.to_multiset(),
            forall|a: int, b: int|
                0 <= a < b < r@.len() ==> offsets@[(#[trigger] r@[a]) as int] >= offsets@[(
                #[trigger] r@[b]) as int],
            r@.len() > 0 ==> forall|m: int|
                0 <= m < rest@.len() ==> offsets@[(#[trigger] rest@[m]) as int] <= offsets@[
                    r@[r@.len() - 1] as int
                ],
        decreases rest@.len(),
    {
        // the position of the maximum remaining offset
        let mut p: usize = 0;
        let mut m: usize = 1;
        while m < rest.len()
            invariant
                rest@.len() > 0,
                p < rest@.len(),
                m <= rest@.len(),
                forall|k: int| 0 <= k < rest@.len() ==> (#[trigger] rest@[k]) < offsets@.len(),
                forall|q: int|
                    0 <= q < m ==> offsets@[(#[trigger] rest@[q]) as int] <= offsets@[rest@[
                        p as int
                    ] as int],
            decreases rest@.len() - m,
        {
            if offsets[rest[m]] > offsets[rest[p]] {
                p = m;
            }
            m = m + 1;
        }
        let ghost old_rest = rest@;
        let ghost old_r = r@;
        let x = rest.remove(p);
        proof {
            assert(x == old_rest[p as int]);
            assert(rest@ == old_rest.remove(p as int));
            // every remaining element is an old element other than position p
            assert forall|k: int|
                0 <= k < rest@.len() implies (#[trigger] rest@[k]) < offsets@.len() && offsets@[
                rest@[k] as int
            ] <= offsets@[x as int] by {
                if k < p as int {
                    assert(rest@[k] == old_rest[k]);
                } else {
                    assert(rest@[k] == old_rest[k + 1]);
                }
            }
        }
        r.push(x);
        proof {
            assert(r@ == old_r.push(x));
            vstd::seq_lib::to_multiset_build(old_r, x);
            assert(r@.to_multiset() == old_r.to_multiset().insert(x));
            vstd::seq_lib::to_multiset_remove(old_rest, p as int);
            assert(rest@.to_multiset() == old_rest.to_multiset().remove(x));
            vstd::seq_lib::to_multiset_contains(old_rest, x);
            assert(old_rest.contains(x)) by {
                assert(old_rest[p as int] == x);
            }
            assert(old_rest.to_multiset().count(x) > 0);
            assert(r@.to_multiset().add(rest@.to_multiset()) =~= old_r.to_multiset().add(
                old_rest.to_multiset(),
            ));
            // descending order extends: the pick was maximal
            assert forall|a: int, b: int|
                0 <= a < b < r@.len() implies offsets@[(#[trigger] r@[a]) as int] >= offsets@[(
                #[trigger] r@[b]) as int] by {
                if b < r@.len() - 1 {
                    assert(r@[a] == old_r[a] && r@[b] == old_r[b]);
                } else {
                    assert(r@[b] == x);
                    if a < r@.len() - 1 {
                        assert(r@[a] == old_r[a]);
                        if old_r.len() > 0 {
                            assert(offsets@[old_r[a] as int] >= offsets@[old_r[old_r.len()
                                - 1] as int]);
                            assert(offsets@[old_rest[p as int] as int] <= offsets@[old_r[old_r.len()
                                - 1] as int]);
                        }
                    }
                }
            }
        }
    }
    proof {
        vstd::seq_lib::to_multiset_len(rest@);
        assert(rest@.to_multiset() =~= vstd::multiset::Multiset::<usize>::empty());
        assert(r@.to_multiset().add(rest@.to_multiset()) =~= r@.to_multiset());
    }
    r
}

} // verus!
