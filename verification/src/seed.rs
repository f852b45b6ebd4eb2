//! Seeds: tagged regions recovered from one or two marker tags, and the
//! region operations derived from them.

use vstd::prelude::*;
use crate::loc::{LnCol, LnColRange, spec_ln_col_text_ok, spec_ln_col_of};
use crate::region::{
    CodeRegion, ExprRegion, TagSite, decls_view, stmts_view, decl_in_range, find_items_in_range,
    clone_stmts,
};
use crate::tag::{HayrollTag, HayrollTagV, HasHayrollTag};

verus! {

/// A tagged region: a single expression, a contiguous statement span with
/// begin and end markers, or a scattered set of top-level declarations.
pub enum HayrollSeed {
    Expr(HayrollTag),
    Stmts(HayrollTag, HayrollTag),
    Decls(HayrollTag),
}

pub enum HayrollSeedV {
    Expr(HayrollTagV),
    Stmts(HayrollTagV, HayrollTagV),
    Decls(HayrollTagV),
}

impl View for HayrollSeed {
    type V = HayrollSeedV;

    open spec fn view(&self) -> HayrollSeedV {
        match self {
            HayrollSeed::Expr(t) => HayrollSeedV::Expr(t@),
            HayrollSeed::Stmts(b, e) => HayrollSeedV::Stmts(b@, e@),
            HayrollSeed::Decls(t) => HayrollSeedV::Decls(t@),
        }
    }
}

impl HasHayrollTag for HayrollSeed {
    open spec fn spec_tag(&self) -> HayrollTagV {
        self.spec_first_tag()
    }

    fn hayroll_tag(&self) -> (t: &HayrollTag) {
        self.first_tag()
    }
}

impl HayrollSeed {
    /// The tag that opens the seed: its only tag, or the begin marker of a
    /// statement span.
    pub open spec fn spec_first_tag(&self) -> HayrollTagV {
        match self {
            HayrollSeed::Expr(t) => t@,
            HayrollSeed::Stmts(b, _) => b@,
            HayrollSeed::Decls(t) => t@,
        }
    }

    pub fn first_tag(&self) -> (t: &HayrollTag)
        ensures
            t@ == self.spec_first_tag(),
    {
        match self {
            HayrollSeed::Expr(t) => t,
            HayrollSeed::Stmts(b, _) => b,
            HayrollSeed::Decls(t) => t,
        }
    }

    pub fn duplicate(&self) -> (r: HayrollSeed)
        ensures
            r@ == self@,
    {
        match self {
            HayrollSeed::Expr(t) => HayrollSeed::Expr(t.duplicate()),
            HayrollSeed::Stmts(b, e) => HayrollSeed::Stmts(b.duplicate(), e.duplicate()),
            HayrollSeed::Decls(t) => HayrollSeed::Decls(t.duplicate()),
        }
    }

    /// A seed whose tags sit where its shape expects them: an expression
    /// seed's tag in a guard conditional, a span's two tags in the same
    /// statement list, a declaration seed's tag in a file's item list with
    /// parseable compilation-unit bounds.
    pub open spec fn wf(self) -> bool {
        match self {
            HayrollSeed::Expr(t) => t.site is Expr,
            HayrollSeed::Stmts(b, e) => b.site matches TagSite::Stmt { stmts: bs, idx: bi }
                && e.site matches TagSite::Stmt { stmts: es, idx: ei }
                && stmts_view(bs@) == stmts_view(es@) && bi <= ei && ei < bs.len(),
            HayrollSeed::Decls(t) => t.site matches TagSite::Decl { items, tag_idx }
                && tag_idx < items.len() && spec_ln_col_text_ok(t.tag.cu_ln_col_begin@)
                && spec_ln_col_text_ok(t.tag.cu_ln_col_end@),
        }
    }

    /// What the raw region of a seed must be: the guard conditional (with
    /// the lvalue dereference included exactly when asked for), the
    /// inclusive marker-to-marker statement span, or every item whose
    /// recorded location falls within the seed's compilation-unit bounds.
    pub open spec fn spec_raw_region_ok(self, with_deref: bool, r: CodeRegion) -> bool {
        match self {
            HayrollSeed::Expr(t) => t.site matches TagSite::Expr(site) && r matches CodeRegion::Expr(
                ExprRegion::Guard { site: rsite, deref },
            ) && rsite@ == site@ && deref == (with_deref && t.tag.is_lvalue),
            HayrollSeed::Stmts(b, e) => b.site matches TagSite::Stmt { stmts: bs, idx: bi }
                && e.site matches TagSite::Stmt { idx: ei, .. } && r matches CodeRegion::Stmts {
                stmts: rs,
                start,
                end,
            } && stmts_view(rs@) == stmts_view(bs@) && start == bi && end == ei,
            HayrollSeed::Decls(t) => t.site matches TagSite::Decl { items, .. }
                && r matches CodeRegion::Decls(sel) && decls_view(sel@) == decls_view(
                items@,
            ).filter(|d| decl_in_range(d, self.spec_cu_range())),
        }
    }

    /// The compilation-unit range a declaration seed covers.
    pub open spec fn spec_cu_range(self) -> LnColRange {
        LnColRange {
            start: spec_ln_col_of(self.spec_first_tag().tag.cu_ln_col_begin),
            end: spec_ln_col_of(self.spec_first_tag().tag.cu_ln_col_end),
        }
    }

    /// Locates the seed's raw region: for an expression seed the guard
    /// conditional, including the lvalue dereference wrapper exactly when
    /// `with_deref` asks for it; for a span the inclusive marker-to-marker
    /// index range; for declarations the items inside the seed's
    /// compilation-unit bounds.
    pub fn get_raw_code_region(&self, with_deref: bool) -> (r: CodeRegion)
        requires
            self.wf(),
        ensures
            self.spec_raw_region_ok(with_deref, r),
            r.wf(),
    {
        match self {
            HayrollSeed::Expr(t) => {
                let site = match &t.site {
                    TagSite::Expr(site) => site.duplicate(),
                    _ => unreached(),
                };
                CodeRegion::Expr(ExprRegion::Guard {
                    site,
                    deref: with_deref && t.tag.is_lvalue,
                })
            },
            HayrollSeed::Stmts(b, e) => {
                let (bs, bi) = match &b.site {
                    TagSite::Stmt { stmts, idx } => (stmts, *idx),
                    _ => unreached(),
                };
                let ei = match &e.site {
                    TagSite::Stmt { idx, .. } => *idx,
                    _ => unreached(),
                };
                let rs = clone_stmts(bs);
                proof {
                    assert(stmts_view(rs@).len() == stmts_view(bs@).len());
                    assert(rs@.len() == bs@.len());
                }
                CodeRegion::Stmts { stmts: rs, start: bi, end: ei }
            },
            HayrollSeed::Decls(t) => {
                let (items, _) = match &t.site {
                    TagSite::Decl { items, tag_idx } => (items, *tag_idx),
                    _ => unreached(),
                };
                let begin = match LnCol::parse_cu_ln_col(t.tag.cu_ln_col_begin.as_str()) {
                    Some(p) => p,
                    None => {
                        proof {
                            assert(false);
                        }
                        unreached()
                    },
                };
                let end = match LnCol::parse_cu_ln_col(t.tag.cu_ln_col_end.as_str()) {
                    Some(p) => p,
                    None => {
                        proof {
                            assert(false);
                        }
                        unreached()
                    },
                };
                let range = LnColRange { start: begin, end };
                CodeRegion::Decls(find_items_in_range(items, &range))
            },
        }
    }

    /// The region inside the tag markers: the guard's live branch for an
    /// expression, the span without its two marker statements, and the
    /// declaration region unchanged.
    pub fn get_raw_code_region_inside_tag(&self) -> (r: CodeRegion)
        requires
            self.wf(),
            self matches HayrollSeed::Stmts(b, e) ==> b.site matches TagSite::Stmt {
                idx: bi,
                ..
            } && e.site matches TagSite::Stmt { idx: ei, .. } && bi < ei,
        ensures
            match self {
                HayrollSeed::Expr(t) => t.site matches TagSite::Expr(site)
                    && r matches CodeRegion::Expr(ExprRegion::Plain { text })
                    && text@ == site.live_text@,
                HayrollSeed::Stmts(b, e) => b.site matches TagSite::Stmt { stmts: bs, idx: bi }
                    && e.site matches TagSite::Stmt { idx: ei, .. }
                    && r matches CodeRegion::Stmts { stmts: rs, start, end } && stmts_view(rs@)
                    == stmts_view(bs@) && start == bi + 1 && end == ei - 1,
                HayrollSeed::Decls(_) => self.spec_raw_region_ok(false, r),
            },
            r.wf(),
    {
        match self {
            HayrollSeed::Expr(t) => {
                let site = match &t.site {
                    TagSite::Expr(site) => site,
                    _ => unreached(),
                };
                CodeRegion::Expr(ExprRegion::Plain {
                    text: crate::text::clone_string(&site.live_text),
                })
            },
            HayrollSeed::Stmts(_, _) => {
                let region = self.get_raw_code_region(false);
                match region {
                    CodeRegion::Stmts { stmts, start, end } => CodeRegion::Stmts {
                        stmts,
                        start: start + 1,
                        end: end - 1,
                    },
                    _ => unreached(),
                }
            },
            HayrollSeed::Decls(_) => self.get_raw_code_region(false),
        }
    }

    /// The type the guard's dead branch documents: the pointer type itself
    /// for an lvalue, its pointee for an rvalue; nothing for statement or
    /// declaration seeds.
    pub fn ptr_or_base_type(&self) -> (r: Option<String>)
        requires
            self.wf(),
        ensures
            match self {
                HayrollSeed::Expr(t) => t.site matches TagSite::Expr(site) && r matches Some(ty)
                    && ty@ == (if t.tag.is_lvalue {
                    site.ptr_type_text@
                } else {
                    site.base_type_text@
                }),
                _ => r is None,
            },
    {
        match self {
            HayrollSeed::Expr(t) => {
                let site = match &t.site {
                    TagSite::Expr(site) => site,
                    _ => unreached(),
                };
                if t.tag.is_lvalue {
                    Some(crate::text::clone_string(&site.ptr_type_text))
                } else {
                    Some(crate::text::clone_string(&site.base_type_text))
                }
            },
            _ => None,
        }
    }

    /// The base (pointee) type of an expression seed's value.
    pub fn base_type(&self) -> (r: Option<String>)
        requires
            self.wf(),
        ensures
            match self {
                HayrollSeed::Expr(t) => t.site matches TagSite::Expr(site) && r matches Some(ty)
                    && ty@ == site.base_type_text@,
                _ => r is None,
            },
    {
        match self {
            HayrollSeed::Expr(t) => {
                let site = match &t.site {
                    TagSite::Expr(site) => site,
                    _ => unreached(),
                };
                Some(crate::text::clone_string(&site.base_type_text))
            },
            _ => None,
        }
    }

    /// Two seeds are structurally compatible when they have the same shape.
    pub open spec fn spec_structurally_compatible(self, other: HayrollSeed) -> bool {
        match (self, other) {
            (HayrollSeed::Expr(_), HayrollSeed::Expr(_)) => true,
            (HayrollSeed::Stmts(_, _), HayrollSeed::Stmts(_, _)) => true,
            (HayrollSeed::Decls(_), HayrollSeed::Decls(_)) => true,
            _ => false,
        }
    }

    /// Two seeds are type compatible when they are structurally compatible
    /// and, for expression seeds, their textual base types agree.
    pub open spec fn spec_type_compatible(self, other: HayrollSeed) -> bool {
        &&& self.spec_structurally_compatible(other)
        &&& match (self, other) {
            (HayrollSeed::Expr(a), HayrollSeed::Expr(b)) => a.site matches TagSite::Expr(sa)
                && b.site matches TagSite::Expr(sb) && sa.base_type_text@ == sb.base_type_text@,
            _ => true,
        }
    }

    pub fn is_structurally_compatible_with(&self, other: &Self) -> (r: bool)
        ensures
            r == self.spec_structurally_compatible(*other),
    {
        match (self, other) {
            (HayrollSeed::Expr(_), HayrollSeed::Expr(_)) => true,
            (HayrollSeed::Stmts(_, _), HayrollSeed::Stmts(_, _)) => true,
            (HayrollSeed::Decls(_), HayrollSeed::Decls(_)) => true,
            _ => false,
        }
    }

    pub fn is_type_compatible_with(&self, other: &Self) -> (r: bool)
        requires
            self.wf(),
            other.wf(),
        ensures
            r == self.spec_type_compatible(*other),
    {
        if !self.is_structurally_compatible_with(other) {
            return false;
        }
        match (self, other) {
            (HayrollSeed::Expr(a), HayrollSeed::Expr(b)) => {
                let sa = match &a.site {
                    TagSite::Expr(site) => site,
                    _ => unreached(),
                };
                let sb = match &b.site {
                    TagSite::Expr(site) => site,
                    _ => unreached(),
                };
                sa.base_type_text.eq(&sb.base_type_text)
            },
            _ => true,
        }
    }
}

/// The views of a sequence of seeds.
pub open spec fn seeds_view(s: Seq<HayrollSeed>) -> Seq<HayrollSeedV> {
    s.map_values(|x: HayrollSeed| x@)
}

pub fn clone_seeds(v: &Vec<HayrollSeed>) -> (r: Vec<HayrollSeed>)
    ensures
        seeds_view(r@) == seeds_view(v@),
{
    let mut r: Vec<HayrollSeed> = Vec::new();
    let mut i: usize = 0;
    while i < v.len()
        invariant
            i <= v.len(),
            r@.len() == i,
            forall|j: int| 0 <= j < i ==> #[trigger] r@[j]@ == v@[j]@,
        decreases v.len() - i,
    {
        r.push(v[i].duplicate());
        i = i + 1;
    }
    proof {
        assert forall|j: int| 0 <= j < v@.len() implies seeds_view(r@)[j] == seeds_view(v@)[j] by {
            assert(r@[j]@ == v@[j]@);
        }
        assert(seeds_view(r@) =~= seeds_view(v@));
    }
    r
}


impl HayrollSeed {
    /// The marker item that carries a declaration seed's tag.
    pub fn get_raw_decls_tag_item(&self) -> (r: crate::region::DeclItem)
        requires
            self.wf(),
            self is Decls,
        ensures
            self matches HayrollSeed::Decls(t) && t.site matches TagSite::Decl {
                items,
                tag_idx,
            } && r@ == items@[tag_idx as int]@,
    {
        match self {
            HayrollSeed::Decls(t) => match &t.site {
                TagSite::Decl { items, tag_idx } => items[*tag_idx].duplicate(),
                _ => unreached(),
            },
            _ => unreached(),
        }
    }
}

} // verus!
