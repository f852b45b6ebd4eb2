//! The synthesis engine: given a cluster, generate the replacement callable
//! or template construct and the call-site substitutions.
//!
//! An invocation's live body is modeled as a sequence of segments: literal
//! text interleaved with argument-occurrence holes.  The driver derives the
//! segmentation from the tree; a verified check ties it to the seed's
//! peeled text, and every rendering below is specified exactly over it.

use vstd::prelude::*;
use crate::inv::{HayrollMacroInv, inv_sites_wf, spec_name_with_signature, spec_signature_defined};
use crate::region::{ExprSite, TagSite, stmts_view, StmtNodeV};
use crate::seed::HayrollSeed;
use crate::text::{clone_string, push_char, spec_join};

verus! {

/// One piece of an invocation's live body: literal text, or the
/// occurrence `occ` of argument slot `slot` (the occurrence's full region,
/// dereference wrapper included for lvalues).
pub enum BodySegment {
    Lit(String),
    Arg { slot: usize, occ: usize },
}

/// Every hole of the body names an existing occurrence.
pub open spec fn body_in_bounds(inv: HayrollMacroInv, body: Seq<BodySegment>) -> bool {
    forall|i: int|
        0 <= i < body.len() ==> ((#[trigger] body[i]) matches BodySegment::Arg { slot, occ }
            ==> slot < inv.args@.len() && occ < inv.args@[slot as int].seeds@.len())
}

/// The raw (still instrumented) text of an expression seed's region: the
/// guard conditional, wrapped in the dereference for an lvalue when asked.
pub open spec fn spec_raw_expr_text(site: ExprSite, deref: bool) -> Seq<char> {
    let guard = "if "@ + site.cond_text@ + " "@ + site.live_text@ + " else "@ + site.fallback_text@;
    if deref {
        "*("@ + guard + ")"@
    } else {
        guard
    }
}

/// The raw text of any seed's region, dereference included.
pub open spec fn spec_raw_seed_text(s: HayrollSeed) -> Seq<char> {
    match s {
        HayrollSeed::Expr(t) => match t.site {
            TagSite::Expr(site) => spec_raw_expr_text(site, t.tag.is_lvalue),
            _ => Seq::empty(),
        },
        HayrollSeed::Stmts(b, e) => match (b.site, e.site) {
            (TagSite::Stmt { stmts, idx: bi }, TagSite::Stmt { idx: ei, .. }) => spec_stmt_texts(
                stmts_view(stmts@),
                bi as int,
                ei as int,
            ),
            _ => Seq::empty(),
        },
        HayrollSeed::Decls(_) => Seq::empty(),
    }
}

/// The newline-joined texts of statements `from ..= to` of a list.
pub open spec fn spec_stmt_texts(stmts: Seq<StmtNodeV>, from: int, to: int) -> Seq<char>
    decreases to - from + 1,
{
    if from > to || from < 0 || to >= stmts.len() {
        Seq::empty()
    } else if from == to {
        stmts[from].text
    } else {
        spec_stmt_texts(stmts, from, to - 1).push('\n') + stmts[to].text
    }
}

/// The peeled text of a seed's region: the live code with all translator
/// scaffolding removed, re-wrapped in the dereference when asked.
pub open spec fn spec_peel_text(s: HayrollSeed, with_deref: bool) -> Seq<char> {
    match s {
        HayrollSeed::Expr(t) => match t.site {
            TagSite::Expr(site) => if with_deref && t.tag.is_lvalue {
                "*("@ + site.live_text@ + ")"@
            } else {
                site.live_text@
            },
            _ => Seq::empty(),
        },
        HayrollSeed::Stmts(b, e) => match (b.site, e.site) {
            (TagSite::Stmt { stmts, idx: bi }, TagSite::Stmt { idx: ei, .. }) => spec_stmt_texts(
                stmts_view(stmts@),
                bi + 1,
                ei - 1,
            ),
            _ => Seq::empty(),
        },
        HayrollSeed::Decls(_) => Seq::empty(),
    }
}

/// The body rendered with every hole replaced by its occurrence's raw
/// text: this must reproduce the seed's live content, which is what ties a
/// segmentation to its invocation.
pub open spec fn spec_render_raw(inv: HayrollMacroInv, body: Seq<BodySegment>) -> Seq<char>
    decreases body.len(),
{
    if body.len() == 0 {
        Seq::empty()
    } else {
        spec_render_raw(inv, body.drop_last()) + (match body.last() {
            BodySegment::Lit(s) => s@,
            BodySegment::Arg { slot, occ } => spec_raw_seed_text(
                inv.args@[slot as int].seeds@[occ as int],
            ),
        })
    }
}

/// The body rendered with every hole replaced by a hygienic template
/// parameter reference `$name`.
pub open spec fn spec_render_template(inv: HayrollMacroInv, body: Seq<BodySegment>) -> Seq<char>
    decreases body.len(),
{
    if body.len() == 0 {
        Seq::empty()
    } else {
        spec_render_template(inv, body.drop_last()) + (match body.last() {
            BodySegment::Lit(s) => s@,
            BodySegment::Arg { slot, .. } => seq!['$'] + inv.args@[slot as int].name@,
        })
    }
}

/// What one hole becomes in a callable body: the bare parameter name, or a
/// dereference of it when the occurrence is an lvalue passed by pointer.
pub open spec fn spec_param_subst(inv: HayrollMacroInv, reqs: Seq<bool>, slot: int, occ: int) -> Seq<
    char,
> {
    let name = inv.args@[slot].name@;
    if inv.args@[slot].seeds@[occ].spec_first_tag().tag.is_lvalue && reqs[slot] {
        "*("@ + name + ")"@
    } else {
        name
    }
}

/// The body rendered as a callable body: holes become parameter
/// references under the cluster's calling convention.
pub open spec fn spec_render_params(
    inv: HayrollMacroInv,
    reqs: Seq<bool>,
    body: Seq<BodySegment>,
) -> Seq<char>
    decreases body.len(),
{
    if body.len() == 0 {
        Seq::empty()
    } else {
        spec_render_params(inv, reqs, body.drop_last()) + (match body.last() {
            BodySegment::Lit(s) => s@,
            BodySegment::Arg { slot, occ } => spec_param_subst(inv, reqs, slot as int, occ as int),
        })
    }
}

/// A faithful segmentation: holes in bounds, and rendering them with the
/// occurrences' raw texts reproduces the live content of the invocation's
/// own region (the then-branch of its guard, or the span inside its
/// markers).
pub open spec fn body_matches(inv: HayrollMacroInv, body: Seq<BodySegment>) -> bool {
    &&& body_in_bounds(inv, body)
    &&& spec_render_raw(inv, body) == spec_live_content(inv.seed)
}

/// The live content of a seed's region, before any dereference wrapping.
pub open spec fn spec_live_content(s: HayrollSeed) -> Seq<char> {
    spec_peel_text(s, false)
}

/// Renders the body with raw occurrence texts; used to check a
/// segmentation against the tree-provided live content.
pub fn render_raw(inv: &HayrollMacroInv, body: &Vec<BodySegment>) -> (r: String)
    requires
        body_in_bounds(*inv, body@),
        inv_sites_wf(*inv),
    ensures
        r@ == spec_render_raw(*inv, body@),
{
    let mut acc = String::new();
    let mut i: usize = 0;
    while i < body.len()
        invariant
            i <= body@.len(),
            body_in_bounds(*inv, body@),
            inv_sites_wf(*inv),
            acc@ == spec_render_raw(*inv, body@.take(i as int)),
        decreases body@.len() - i,
    {
        proof {
            assert(body@.take(i + 1).drop_last() =~= body@.take(i as int));
            assert(body@.take(i + 1).last() == body@[i as int]);
        }
        match &body[i] {
            BodySegment::Lit(s) => {
                acc.append(s.as_str());
            },
            BodySegment::Arg { slot, occ } => {
                let seed = &inv.args[*slot].seeds[*occ];
                let t = raw_seed_text(seed);
                acc.append(t.as_str());
            },
        }
        i = i + 1;
    }
    proof {
        assert(body@.take(body@.len() as int) =~= body@);
    }
    acc
}

/// The raw text of a seed's region, dereference wrapper included.
pub fn raw_seed_text(s: &HayrollSeed) -> (r: String)
    requires
        s.wf(),
    ensures
        r@ == spec_raw_seed_text(*s),
{
    match s {
        HayrollSeed::Expr(t) => {
            let site = match &t.site {
                TagSite::Expr(site) => site,
                _ => unreached(),
            };
            let mut r = String::new();
            if t.tag.is_lvalue {
                r.append("*(");
            }
            r.append("if ");
            r.append(site.cond_text.as_str());
            r.append(" ");
            r.append(site.live_text.as_str());
            r.append(" else ");
            r.append(site.fallback_text.as_str());
            if t.tag.is_lvalue {
                r.append(")");
            }
            proof {
                assert(r@ =~= spec_raw_seed_text(*s));
            }
            r
        },
        HayrollSeed::Stmts(b, e) => {
            let (bs, bi) = match &b.site {
                TagSite::Stmt { stmts, idx } => (stmts, *idx),
                _ => unreached(),
            };
            let ei = match &e.site {
                TagSite::Stmt { idx, .. } => *idx,
                _ => unreached(),
            };
            stmt_texts(bs, bi, ei)
        },
        HayrollSeed::Decls(_) => String::new(),
    }
}

/// The newline-joined texts of statements `from ..= to`.
pub fn stmt_texts(stmts: &Vec<crate::region::StmtNode>, from: usize, to: usize) -> (r: String)
    requires
        to < stmts@.len(),
    ensures
        r@ == spec_stmt_texts(stmts_view(stmts@), from as int, to as int),
{
    let mut acc = String::new();
    if from > to {
        return acc;
    }
    let n = stmts.len();
    let mut i = from;
    while i <= to
        invariant
            from <= i <= to + 1,
            to < n,
            n == stmts@.len(),
            i > from ==> acc@ == spec_stmt_texts(stmts_view(stmts@), from as int, i - 1),
            i == from ==> acc@ == Seq::<char>::empty(),
        decreases to + 1 - i,
    {
        if i > from {
            push_char(&mut acc, '\n');
        }
        acc.append(stmts[i].text.as_str());
        proof {
            assert(stmts_view(stmts@)[i as int] == stmts@[i as int]@);
        }
        i = i + 1;
    }
    acc
}

/// The peeled text of a seed's region.
pub fn peel_text(s: &HayrollSeed, with_deref: bool) -> (r: String)
    requires
        s.wf(),
    ensures
        r@ == spec_peel_text(*s, with_deref),
{
    match s {
        HayrollSeed::Expr(t) => {
            let site = match &t.site {
                TagSite::Expr(site) => site,
                _ => unreached(),
            };
            if with_deref && t.tag.is_lvalue {
                let mut r = String::new();
                r.append("*(");
                r.append(site.live_text.as_str());
                r.append(")");
                proof {
                    assert(r@ =~= spec_peel_text(*s, with_deref));
                }
                r
            } else {
                clone_string(&site.live_text)
            }
        },
        HayrollSeed::Stmts(b, e) => {
            let (bs, bi) = match &b.site {
                TagSite::Stmt { stmts, idx } => (stmts, *idx),
                _ => unreached(),
            };
            let ei = match &e.site {
                TagSite::Stmt { idx, .. } => *idx,
                _ => unreached(),
            };
            if ei == 0 {
                proof {
                    assert(spec_stmt_texts(stmts_view(bs@), bi + 1, -1) == Seq::<char>::empty());
                }
                return String::new();
            }
            stmt_texts(bs, bi + 1, ei - 1)
        },
        HayrollSeed::Decls(_) => String::new(),
    }
}

/// Checks that a driver-provided segmentation is faithful to the seed's
/// live content; only a body that passes may feed synthesis.
pub fn check_body(inv: &HayrollMacroInv, body: &Vec<BodySegment>) -> (r: bool)
    requires
        inv_sites_wf(*inv),
    ensures
        r == body_matches(*inv, body@),
{
    let mut i: usize = 0;
    while i < body.len()
        invariant
            i <= body@.len(),
            forall|j: int|
                0 <= j < i ==> ((#[trigger] body@[j]) matches BodySegment::Arg { slot, occ }
                    ==> slot < inv.args@.len() && occ < inv.args@[slot as int].seeds@.len()),
        decreases body@.len() - i,
    {
        match &body[i] {
            BodySegment::Lit(_) => {},
            BodySegment::Arg { slot, occ } => {
                if *slot >= inv.args.len() {
                    return false;
                }
                if *occ >= inv.args[*slot].seeds.len() {
                    return false;
                }
            },
        }
        i = i + 1;
    }
    let rendered = render_raw(inv, body);
    let live = peel_text(&inv.seed, false);
    rendered.eq(&live)
}

/// Substituting the original bound regions back into a faithful
/// segmentation reproduces exactly the peeled region: the raw rendering is
/// the live content, and re-wrapping the dereference yields the peeled
/// text of the raw region taken with its dereference.
pub proof fn lemma_peel_unpeel_inverse(inv: HayrollMacroInv, body: Seq<BodySegment>)
    requires
        body_matches(inv, body),
    ensures
        spec_render_raw(inv, body) == spec_peel_text(inv.seed, false),
        inv.seed matches HayrollSeed::Expr(t) && t.site matches TagSite::Expr(site)
            && t.tag.is_lvalue ==> spec_peel_text(inv.seed, true) == "*("@ + spec_render_raw(
            inv,
            body,
        ) + ")"@,
        !(inv.seed matches HayrollSeed::Expr(t) && t.tag.is_lvalue) ==> spec_peel_text(
            inv.seed,
            true,
        ) == spec_render_raw(inv, body),
{
}


/// The template parameter declaration one slot contributes: `$name:expr`
/// or `$name:stmt`, by the shape of the slot's first occurrence.
pub open spec fn spec_macro_arg_sig(a: crate::inv::MacroArg) -> Seq<char> {
    seq!['$'] + a.name@ + seq![':'] + (if a.seeds@[0] is Stmts {
        "stmt"@
    } else {
        "expr"@
    })
}

pub open spec fn spec_macro_args_sig_list(args: Seq<crate::inv::MacroArg>) -> Seq<Seq<char>> {
    args.map_values(|a: crate::inv::MacroArg| spec_macro_arg_sig(a))
}

/// The template body: the live content with holes as `$name`, re-wrapped
/// in the dereference an lvalue expression region carries.
pub open spec fn spec_template_body(inv: HayrollMacroInv, body: Seq<BodySegment>) -> Seq<char> {
    if inv.seed matches HayrollSeed::Expr(t) && t.tag.is_lvalue {
        "*("@ + spec_render_template(inv, body) + ")"@
    } else {
        spec_render_template(inv, body)
    }
}

/// The template body of a declaration-shaped invocation: its items,
/// location attributes stripped, each re-wrapped in its own linkage block,
/// joined on fresh lines.
pub open spec fn spec_decls_body(items: Seq<crate::region::DeclItemV>) -> Seq<char> {
    spec_join(
        items.map_values(
            |d: crate::region::DeclItemV|
                crate::region::spec_decl_text(
                    crate::region::spec_individualize(crate::region::spec_peel_src_locs(d)),
                ),
        ),
        seq!['\n'],
    )
}

/// What the synthesis of each construct needs of an invocation: argument
/// slots populated, shapes carrying their sites, and a computable name.
pub open spec fn spec_synthesis_defined(inv: HayrollMacroInv) -> bool {
    &&& inv_sites_wf(inv)
    &&& spec_signature_defined(inv)
    &&& (inv.seed.spec_first_tag().tag.ast_kind is Decl || inv.seed.spec_first_tag().tag.ast_kind
        is Decls ==> inv.seed is Decls)
    &&& forall|si: int|
        0 <= si < inv.args@.len() ==> ((#[trigger] inv.args@[si]).seeds@.len() > 0 && (
        inv.args@[si].seeds@[0] is Expr || inv.args@[si].seeds@[0] is Stmts))
}

/// The full pattern-template definition text for an invocation.
pub open spec fn spec_macro_rules_text(inv: HayrollMacroInv, body: Seq<BodySegment>) -> Seq<char> {
    let kind = inv.seed.spec_first_tag().tag.ast_kind;
    let mbody = if kind is Decl || kind is Decls {
        match inv.seed {
            HayrollSeed::Decls(t) => match t.site {
                TagSite::Decl { items, .. } => spec_decls_body(crate::region::decls_view(items@)),
                _ => Seq::empty(),
            },
            _ => Seq::empty(),
        }
    } else {
        spec_template_body(inv, body)
    };
    "macro_rules! "@ + spec_name_with_signature(inv) + "\n{\n    ("@ + spec_join(
        spec_macro_args_sig_list(inv.args@),
        seq![',', ' '],
    ) + ") => {\n    "@ + mbody + "\n    }\n}"@
}

impl HayrollMacroInv {
    /// The pattern-template definition replacing this invocation's macro:
    /// one case whose parameters are typed expression or statement per
    /// slot, and whose body is the live content with each argument
    /// occurrence replaced by a hygienic parameter reference.
    pub fn macro_rules(&self, body: &Vec<BodySegment>) -> (r: String)
        requires
            spec_synthesis_defined(*self),
            body_in_bounds(*self, body@),
        ensures
            r@ == spec_macro_rules_text(*self, body@),
    {
        let name = self.name_with_signature();
        // parameter declarations, slot by slot
        let mut parts: Vec<String> = Vec::new();
        let mut si: usize = 0;
        while si < self.args.len()
            invariant
                si <= self.args@.len(),
                spec_synthesis_defined(*self),
                parts.deep_view() == spec_macro_args_sig_list(self.args@.take(si as int)),
            decreases self.args@.len() - si,
        {
            let slot = &self.args[si];
            let mut p = String::new();
            push_char(&mut p, '$');
            p.append(slot.name.as_str());
            push_char(&mut p, ':');
            let is_stmts_shaped = match &slot.seeds[0] {
                HayrollSeed::Stmts(_, _) => true,
                _ => false,
            };
            if is_stmts_shaped {
                p.append("stmt");
            } else {
                p.append("expr");
            }
            proof {
                assert(p@ == spec_macro_arg_sig(self.args@[si as int]));
            }
            let ghost dvold = parts.deep_view();
            parts.push(p);
            proof {
                let dv = parts.deep_view();
                let goal = spec_macro_args_sig_list(self.args@.take(si + 1));
                let prevgoal = spec_macro_args_sig_list(self.args@.take(si as int));
                assert(prevgoal.len() == si);
                assert(dvold.len() == si);
                assert(parts@.len() == si + 1);
                assert(dv.len() == si + 1);
                assert(goal.len() == si + 1);
                assert forall|j: int| 0 <= j < dv.len() implies dv[j] == goal[j] by {
                    assert(dv[j] == parts@[j]@);
                    assert(goal[j] == spec_macro_arg_sig(self.args@.take(si + 1)[j]));
                    assert(self.args@.take(si + 1)[j] == self.args@[j]);
                    if j < si {
                        assert(dvold[j] == prevgoal[j]);
                        assert(prevgoal[j] == spec_macro_arg_sig(self.args@.take(si as int)[j]));
                        assert(self.args@.take(si as int)[j] == self.args@[j]);
                    }
                }
                assert(dv =~= goal);
            }
            si = si + 1;
        }
        proof {
            assert(self.args@.take(self.args@.len() as int) =~= self.args@);
            reveal_strlit(", ");
            assert(", "@ =~= seq![',', ' ']);
        }
        let args_sig = crate::text::join_with(&parts, ", ");
        // the body
        let ft = self.seed.first_tag();
        let mbody = if ft.tag.is_decl() || ft.tag.is_decls() {
            let items = match &self.seed {
                HayrollSeed::Decls(t) => match &t.site {
                    TagSite::Decl { items, .. } => items,
                    _ => unreached(),
                },
                _ => unreached(),
            };
            decls_body(items)
        } else {
            let rendered = self.render_template_body(body);
            let lvalue_expr = match &self.seed {
                HayrollSeed::Expr(t) => t.tag.is_lvalue,
                _ => false,
            };
            if lvalue_expr {
                let mut b = String::new();
                b.append("*(");
                b.append(rendered.as_str());
                b.append(")");
                proof {
                    assert(b@ =~= spec_template_body(*self, body@));
                }
                b
            } else {
                rendered
            }
        };
        let mut r = String::new();
        r.append("macro_rules! ");
        r.append(name.as_str());
        r.append("\n{\n    (");
        r.append(args_sig.as_str());
        r.append(") => {\n    ");
        r.append(mbody.as_str());
        r.append("\n    }\n}");
        proof {
            assert(r@ =~= spec_macro_rules_text(*self, body@));
        }
        r
    }

    /// The template body rendered with `$name` parameter references.
    pub fn render_template_body(&self, body: &Vec<BodySegment>) -> (r: String)
        requires
            body_in_bounds(*self, body@),
        ensures
            r@ == spec_render_template(*self, body@),
    {
        let mut acc = String::new();
        let mut i: usize = 0;
        while i < body.len()
            invariant
                i <= body@.len(),
                body_in_bounds(*self, body@),
                acc@ == spec_render_template(*self, body@.take(i as int)),
            decreases body@.len() - i,
        {
            proof {
                assert(body@.take(i + 1).drop_last() =~= body@.take(i as int));
                assert(body@.take(i + 1).last() == body@[i as int]);
            }
            match &body[i] {
                BodySegment::Lit(s) => {
                    acc.append(s.as_str());
                },
                BodySegment::Arg { slot, occ: _ } => {
                    push_char(&mut acc, '$');
                    acc.append(self.args[*slot].name.as_str());
                },
            }
            i = i + 1;
        }
        proof {
            assert(body@.take(body@.len() as int) =~= body@);
        }
        acc
    }

    /// The callable body rendered with parameter references under the
    /// cluster's calling convention.
    pub fn render_params_body(&self, reqs: &Vec<bool>, body: &Vec<BodySegment>) -> (r: String)
        requires
            body_in_bounds(*self, body@),
            reqs@.len() == self.args@.len(),
        ensures
            r@ == spec_render_params(*self, reqs@, body@),
    {
        let mut acc = String::new();
        let mut i: usize = 0;
        while i < body.len()
            invariant
                i <= body@.len(),
                body_in_bounds(*self, body@),
                reqs@.len() == self.args@.len(),
                acc@ == spec_render_params(*self, reqs@, body@.take(i as int)),
            decreases body@.len() - i,
        {
            proof {
                assert(body@.take(i + 1).drop_last() =~= body@.take(i as int));
                assert(body@.take(i + 1).last() == body@[i as int]);
            }
            match &body[i] {
                BodySegment::Lit(s) => {
                    acc.append(s.as_str());
                },
                BodySegment::Arg { slot, occ } => {
                    let is_lv = self.args[*slot].seeds[*occ].first_tag().tag.is_lvalue;
                    if is_lv && reqs[*slot] {
                        acc.append("*(");
                        acc.append(self.args[*slot].name.as_str());
                        acc.append(")");
                        proof {
                            assert(acc@ =~= spec_render_params(
                                *self,
                                reqs@,
                                body@.take(i + 1),
                            ));
                        }
                    } else {
                        acc.append(self.args[*slot].name.as_str());
                    }
                },
            }
            i = i + 1;
        }
        proof {
            assert(body@.take(body@.len() as int) =~= body@);
        }
        acc
    }
}

/// The declaration-shaped template body: every item location-stripped and
/// individually wrapped, joined on fresh lines.
pub fn decls_body(items: &Vec<crate::region::DeclItem>) -> (r: String)
    ensures
        r@ == spec_decls_body(crate::region::decls_view(items@)),
{
    let mut parts: Vec<String> = Vec::new();
    let mut i: usize = 0;
    let ghost f = |d: crate::region::DeclItemV|
        crate::region::spec_decl_text(
            crate::region::spec_individualize(crate::region::spec_peel_src_locs(d)),
        );
    while i < items.len()
        invariant
            i <= items@.len(),
            f == (|d: crate::region::DeclItemV|
                crate::region::spec_decl_text(
                    crate::region::spec_individualize(crate::region::spec_peel_src_locs(d)),
                )),
            parts.deep_view() == crate::region::decls_view(items@).take(i as int).map_values(f),
        decreases items@.len() - i,
    {
        let cleaned = items[i].peel_src_locs();
        let wrapped = cleaned.individualize();
        let text = wrapped.render_text();
        let ghost dvold = parts.deep_view();
        parts.push(text);
        proof {
            let m = crate::region::decls_view(items@);
            let dv = parts.deep_view();
            let goal = m.take(i + 1).map_values(f);
            let prevgoal = m.take(i as int).map_values(f);
            assert(m.len() == items@.len());
            assert(prevgoal.len() == i);
            assert(dvold.len() == i);
            assert(parts@.len() == i + 1);
            assert(dv.len() == i + 1);
            assert(goal.len() == i + 1);
            assert forall|j: int| 0 <= j < dv.len() implies dv[j] == goal[j] by {
                assert(dv[j] == parts@[j]@);
                assert(goal[j] == f(m.take(i + 1)[j]));
                assert(m.take(i + 1)[j] == m[j]);
                assert(m[j] == items@[j]@);
                if j < i {
                    assert(dvold[j] == prevgoal[j]);
                    assert(prevgoal[j] == f(m.take(i as int)[j]));
                    assert(m.take(i as int)[j] == m[j]);
                }
            }
            assert(dv =~= goal);
        }
        i = i + 1;
    }
    proof {
        assert(crate::region::decls_view(items@).take(items@.len() as int)
            =~= crate::region::decls_view(items@));
        reveal_strlit("\n");
        assert("\n"@ =~= seq!['\n']);
    }
    crate::text::join_with(&parts, "\n")
}


/// The pointer type an lvalue expression seed's guard documents.
pub open spec fn spec_seed_ptr_type(s: HayrollSeed) -> Seq<char> {
    match s {
        HayrollSeed::Expr(t) => match t.site {
            TagSite::Expr(site) => site.ptr_type_text@,
            _ => Seq::empty(),
        },
        _ => Seq::empty(),
    }
}

/// The type of one callable parameter: the documented pointer type when
/// the slot passes an lvalue by pointer, else the base type.
pub open spec fn spec_fn_param_type(inv: HayrollMacroInv, reqs: Seq<bool>, si: int) -> Seq<char> {
    let occ0 = inv.args@[si].seeds@[0];
    if reqs[si] && crate::inv::spec_first_tag_v(occ0@).tag.is_lvalue {
        spec_seed_ptr_type(occ0)
    } else {
        crate::inv::spec_seed_base_type(occ0)
    }
}

/// The callable's parameter declarations for the first `n` slots, empty
/// slots omitted.
pub open spec fn spec_fn_params_list(inv: HayrollMacroInv, reqs: Seq<bool>, n: int) -> Seq<
    Seq<char>,
>
    decreases n,
{
    if n <= 0 {
        Seq::empty()
    } else {
        let prev = spec_fn_params_list(inv, reqs, n - 1);
        if inv.args@[n - 1].seeds@.len() == 0 {
            prev
        } else {
            prev.push(inv.args@[n - 1].name@ + ": "@ + spec_fn_param_type(inv, reqs, n - 1))
        }
    }
}

/// The callable's return type text: the documented value type of an
/// expression region, nothing for a statement span.
pub open spec fn spec_fn_ret(inv: HayrollMacroInv) -> Seq<char> {
    match inv.seed {
        HayrollSeed::Expr(t) => match t.site {
            TagSite::Expr(site) => " -> "@ + (if t.tag.is_lvalue {
                site.ptr_type_text@
            } else {
                site.base_type_text@
            }),
            _ => Seq::empty(),
        },
        _ => Seq::empty(),
    }
}

/// The full callable definition text for an invocation.
pub open spec fn spec_fn_text(inv: HayrollMacroInv, reqs: Seq<bool>, body: Seq<BodySegment>) -> Seq<
    char,
> {
    "unsafe fn "@ + spec_name_with_signature(inv) + "("@ + spec_join(
        spec_fn_params_list(inv, reqs, inv.args@.len() as int),
        seq![',', ' '],
    ) + ")"@ + spec_fn_ret(inv) + " {\n    "@ + spec_render_params(inv, reqs, body) + "\n}"@
}

/// What callable synthesis needs: sites and name computable, and every
/// referenced occurrence expression shaped.
pub open spec fn spec_fn_synthesis_defined(inv: HayrollMacroInv, reqs: Seq<bool>) -> bool {
    &&& inv_sites_wf(inv)
    &&& spec_signature_defined(inv)
    &&& reqs.len() == inv.args@.len()
    &&& forall|si: int|
        0 <= si < inv.args@.len() ==> ((#[trigger] inv.args@[si]).seeds@.len() > 0
            ==> inv.args@[si].seeds@[0] is Expr)
}

/// The argument spellings of a call, empty slots omitted: each slot's
/// first occurrence, peeled, with the dereference kept exactly when the
/// convention passes by value.
pub open spec fn spec_call_args_list(inv: HayrollMacroInv, reqs: Seq<bool>, n: int) -> Seq<
    Seq<char>,
>
    decreases n,
{
    if n <= 0 {
        Seq::empty()
    } else {
        let prev = spec_call_args_list(inv, reqs, n - 1);
        if inv.args@[n - 1].seeds@.len() == 0 {
            prev
        } else {
            prev.push(spec_peel_text(inv.args@[n - 1].seeds@[0], !reqs[n - 1]))
        }
    }
}

/// The call-expression text replacing one call site of a callable.
pub open spec fn spec_call_expr_text(inv: HayrollMacroInv, reqs: Seq<bool>) -> Seq<char> {
    let call = spec_name_with_signature(inv) + "("@ + spec_join(
        spec_call_args_list(inv, reqs, inv.args@.len() as int),
        seq![',', ' '],
    ) + ")"@;
    if inv.seed.spec_first_tag().tag.is_lvalue {
        seq!['*'] + call
    } else {
        call
    }
}

/// The template-call argument spellings: every slot's first occurrence,
/// peeled with its dereference.
pub open spec fn spec_macro_call_args_list(inv: HayrollMacroInv, n: int) -> Seq<Seq<char>>
    decreases n,
{
    if n <= 0 {
        Seq::empty()
    } else {
        spec_macro_call_args_list(inv, n - 1).push(
            spec_peel_text(inv.args@[n - 1].seeds@[0], true),
        )
    }
}

/// The template-invocation text replacing one call site, a statement when
/// the region is statement shaped.
pub open spec fn spec_macro_call_text(inv: HayrollMacroInv) -> Seq<char> {
    let call = spec_name_with_signature(inv) + "!("@ + spec_join(
        spec_macro_call_args_list(inv, inv.args@.len() as int),
        seq![',', ' '],
    ) + ")"@;
    if inv.seed.spec_first_tag().tag.ast_kind is Expr {
        call
    } else {
        call + seq![';']
    }
}

impl HayrollMacroInv {
    /// The callable definition replacing this invocation's macro: one
    /// parameter per referenced slot, pointer typed when the convention
    /// passes an lvalue, and the live body with occurrences replaced by
    /// parameter references.
    pub fn fn_(&self, args_require_lvalue: &Vec<bool>, body: &Vec<BodySegment>) -> (r: String)
        requires
            spec_fn_synthesis_defined(*self, args_require_lvalue@),
            body_in_bounds(*self, body@),
        ensures
            r@ == spec_fn_text(*self, args_require_lvalue@, body@),
    {
        let name = self.name_with_signature();
        let mut parts: Vec<String> = Vec::new();
        let mut si: usize = 0;
        while si < self.args.len()
            invariant
                si <= self.args@.len(),
                spec_fn_synthesis_defined(*self, args_require_lvalue@),
                parts.deep_view() == spec_fn_params_list(*self, args_require_lvalue@, si as int),
            decreases self.args@.len() - si,
        {
            let slot = &self.args[si];
            if slot.seeds.len() > 0 {
                let occ0 = &slot.seeds[0];
                let ty = if args_require_lvalue[si] && occ0.first_tag().tag.is_lvalue {
                    match occ0.ptr_or_base_type() {
                        Some(t) => t,
                        None => unreached(),
                    }
                } else {
                    match occ0.base_type() {
                        Some(t) => t,
                        None => unreached(),
                    }
                };
                let mut p = clone_string(&slot.name);
                p.append(": ");
                p.append(ty.as_str());
                proof {
                    assert(p@ =~= self.args@[si as int].name@ + ": "@ + spec_fn_param_type(
                        *self,
                        args_require_lvalue@,
                        si as int,
                    ));
                }
                let ghost dvold = parts.deep_view();
                parts.push(p);
                proof {
                    assert(parts.deep_view() =~= dvold.push(parts@.last()@));
                }
            }
            si = si + 1;
        }
        proof {
            reveal_strlit(", ");
            assert(", "@ =~= seq![',', ' ']);
        }
        let params = crate::text::join_with(&parts, ", ");
        let ret = match self.ptr_or_base_type_of_seed() {
            Some(t) => {
                let mut s = String::new();
                s.append(" -> ");
                s.append(t.as_str());
                s
            },
            None => String::new(),
        };
        proof {
            assert(ret@ =~= spec_fn_ret(*self));
        }
        let rendered = self.render_params_body(args_require_lvalue, body);
        let mut r = String::new();
        r.append("unsafe fn ");
        r.append(name.as_str());
        r.append("(");
        r.append(params.as_str());
        r.append(")");
        r.append(ret.as_str());
        r.append(" {\n    ");
        r.append(rendered.as_str());
        r.append("\n}");
        proof {
            assert(r@ =~= spec_fn_text(*self, args_require_lvalue@, body@));
        }
        r
    }

    /// The documented value type of the invocation's own region.
    pub fn ptr_or_base_type_of_seed(&self) -> (r: Option<String>)
        requires
            inv_sites_wf(*self),
        ensures
            match self.seed {
                HayrollSeed::Expr(t) => t.site matches TagSite::Expr(site) && r matches Some(ty)
                    && ty@ == (if t.tag.is_lvalue {
                    site.ptr_type_text@
                } else {
                    site.base_type_text@
                }),
                _ => r is None,
            },
    {
        self.seed.ptr_or_base_type()
    }

    /// The call expression replacing one call site of the callable.
    pub fn call_expr(&self, args_require_lvalue: &Vec<bool>) -> (r: String)
        requires
            spec_fn_synthesis_defined(*self, args_require_lvalue@),
        ensures
            r@ == spec_call_expr_text(*self, args_require_lvalue@),
    {
        let name = self.name_with_signature();
        let mut parts: Vec<String> = Vec::new();
        let mut si: usize = 0;
        while si < self.args.len()
            invariant
                si <= self.args@.len(),
                spec_fn_synthesis_defined(*self, args_require_lvalue@),
                parts.deep_view() == spec_call_args_list(*self, args_require_lvalue@, si as int),
            decreases self.args@.len() - si,
        {
            let slot = &self.args[si];
            if slot.seeds.len() > 0 {
                let spelled = peel_text(&slot.seeds[0], !args_require_lvalue[si]);
                let ghost dvold = parts.deep_view();
                parts.push(spelled);
                proof {
                    assert(parts.deep_view() =~= dvold.push(parts@.last()@));
                }
            }
            si = si + 1;
        }
        proof {
            reveal_strlit(", ");
            assert(", "@ =~= seq![',', ' ']);
        }
        let args = crate::text::join_with(&parts, ", ");
        let mut r = String::new();
        if self.seed.first_tag().tag.is_lvalue {
            push_char(&mut r, '*');
        }
        r.append(name.as_str());
        r.append("(");
        r.append(args.as_str());
        r.append(")");
        proof {
            assert(r@ =~= spec_call_expr_text(*self, args_require_lvalue@));
        }
        r
    }

    /// The call, as an expression or as a statement, matching the shape of
    /// the region it replaces.
    pub fn call_expr_or_stmt(&self, args_require_lvalue: &Vec<bool>) -> (r: String)
        requires
            spec_fn_synthesis_defined(*self, args_require_lvalue@),
        ensures
            self.seed.spec_first_tag().tag.ast_kind is Expr ==> r@ == spec_call_expr_text(
                *self,
                args_require_lvalue@,
            ),
            !(self.seed.spec_first_tag().tag.ast_kind is Expr) ==> r@ == spec_call_expr_text(
                *self,
                args_require_lvalue@,
            ).push(';'),
    {
        let mut r = self.call_expr(args_require_lvalue);
        if !self.seed.first_tag().tag.is_expr() {
            push_char(&mut r, ';');
        }
        r
    }

    /// The template invocation replacing one call site.
    pub fn macro_call(&self) -> (r: String)
        requires
            spec_synthesis_defined(*self),
        ensures
            r@ == spec_macro_call_text(*self),
    {
        let name = self.name_with_signature();
        let mut parts: Vec<String> = Vec::new();
        let mut si: usize = 0;
        while si < self.args.len()
            invariant
                si <= self.args@.len(),
                spec_synthesis_defined(*self),
                parts.deep_view() == spec_macro_call_args_list(*self, si as int),
            decreases self.args@.len() - si,
        {
            let spelled = peel_text(&self.args[si].seeds[0], true);
            let ghost dvold = parts.deep_view();
            parts.push(spelled);
            proof {
                assert(parts.deep_view() =~= dvold.push(parts@.last()@));
            }
            si = si + 1;
        }
        proof {
            reveal_strlit(", ");
            assert(", "@ =~= seq![',', ' ']);
        }
        let args = crate::text::join_with(&parts, ", ");
        let mut r = clone_string(&name);
        r.append("!(");
        r.append(args.as_str());
        r.append(")");
        if !self.seed.first_tag().tag.is_expr() {
            push_char(&mut r, ';');
        }
        proof {
            assert(r@ =~= spec_macro_call_text(*self));
        }
        r
    }
}

impl crate::inv::HayrollMacroCluster {
    /// The template definition for the whole cluster: synthesized from its
    /// first invocation, which cluster-wide structural compatibility makes
    /// representative.
    pub fn macro_rules(&self, body: &Vec<BodySegment>) -> (r: String)
        requires
            crate::inv::cluster_wf(*self),
            crate::inv::spec_invs_internally_struct_compat(*self),
            spec_synthesis_defined(self.invocations@[0]),
            body_in_bounds(self.invocations@[0], body@),
        ensures
            r@ == spec_macro_rules_text(self.invocations@[0], body@),
    {
        self.invocations[0].macro_rules(body)
    }

    /// The callable definition for the whole cluster, under the
    /// cluster-wide calling convention.
    pub fn fn_(&self, body: &Vec<BodySegment>) -> (r: String)
        requires
            crate::inv::cluster_wf(*self),
            crate::inv::spec_invs_internally_type_compat(*self),
            forall|v: int|
                0 <= v < self.invocations@.len() ==> (#[trigger] self.invocations@[v]).args@.len()
                    == self.invocations@[0].args@.len(),
            spec_callable_cluster_defined(self.invocations@[0]),
            body_in_bounds(self.invocations@[0], body@),
        ensures
            exists|reqs: Seq<bool>|
                reqs.len() == self.invocations@[0].args@.len() && r@ == spec_fn_text(
                    self.invocations@[0],
                    reqs,
                    body@,
                ) && (forall|si: int|
                    0 <= si < reqs.len() ==> reqs[si] == (forall|v: int|
                        0 <= v < self.invocations@.len() ==> crate::inv::slot_requires_lvalue(
                            (#[trigger] self.invocations@[v]).args@[si],
                        ))),
    {
        let reqs = self.args_require_lvalue();
        let r = self.invocations[0].fn_(&reqs, body);
        proof {
            let w = reqs@;
            assert(w.len() == self.invocations@[0].args@.len() && r@ == spec_fn_text(
                self.invocations@[0],
                w,
                body@,
            ));
        }
        r
    }
}

/// Callable synthesis requirements that do not mention the convention
/// vector (the cluster computes its own).
pub open spec fn spec_callable_cluster_defined(inv: HayrollMacroInv) -> bool {
    &&& inv_sites_wf(inv)
    &&& spec_signature_defined(inv)
    &&& forall|si: int|
        0 <= si < inv.args@.len() ==> ((#[trigger] inv.args@[si]).seeds@.len() > 0
            ==> inv.args@[si].seeds@[0] is Expr)
}

} // verus!
