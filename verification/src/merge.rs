//! The variant merge: reconciling conditional branches and top-level
//! declarations between two differently-configured builds of one source.
//!
//! The library decides; the driver splices.  Idempotence comes from the
//! merged-variant record a successful merge appends to the base tag.

use vstd::prelude::*;
use crate::cond::HayrollConditionalMacro;
use crate::region::{DeclItem, decls_view, DeclItemV};
use crate::tag::{TagPayload, TagPayloadV, HasHayrollTag};
use crate::text::clone_string;

verus! {

/// What the merge pass does with one base/patch pair of conditional seeds.
#[derive(Clone, Copy, PartialEq, Eq, Structural, Debug)]
pub enum MergeAction {
    /// Base concrete, patch a placeholder: the base stands.
    KeepBase,
    /// Base a placeholder, patch concrete: splice the patch region over
    /// the base region.
    ReplaceWithPatch,
    /// Both concrete, the patch variant already recorded: skip.
    AlreadyMerged,
    /// Both concrete: append the patch's live branch as a new alternative
    /// and record the variant in the base tag.
    AppendVariant,
    /// Both placeholders: nothing to reconcile.
    NoOp,
}

/// The merge decision, from the two placeholder flags, the base's
/// merged-variant record, and the patch's identifier.
pub open spec fn spec_merge_action(base: TagPayloadV, patch: TagPayloadV) -> MergeAction {
    match (base.is_placeholder, patch.is_placeholder) {
        (false, true) => MergeAction::KeepBase,
        (true, false) => MergeAction::ReplaceWithPatch,
        (false, false) => if base.merged_variants.contains(patch.loc_begin) {
            MergeAction::AlreadyMerged
        } else {
            MergeAction::AppendVariant
        },
        (true, true) => MergeAction::NoOp,
    }
}

/// Decides how to reconcile one base/patch pair.
pub fn merge_action(base: &HayrollConditionalMacro, patch: &HayrollConditionalMacro) -> (r:
    MergeAction)
    ensures
        r == spec_merge_action(base.spec_tag().tag, patch.spec_tag().tag),
{
    let bt = &base.hayroll_tag().tag;
    let pt = &patch.hayroll_tag().tag;
    match (bt.is_placeholder, pt.is_placeholder) {
        (false, true) => MergeAction::KeepBase,
        (true, false) => MergeAction::ReplaceWithPatch,
        (false, false) => {
            if bt.has_merged_variant(&pt.loc_begin) {
                MergeAction::AlreadyMerged
            } else {
                MergeAction::AppendVariant
            }
        },
        (true, true) => MergeAction::NoOp,
    }
}

/// Merging is idempotent: once a merge has recorded the patch variant in
/// the base tag, deciding the same pair again skips it.
pub proof fn lemma_merge_idempotent(base: TagPayloadV, patch: TagPayloadV)
    requires
        !base.is_placeholder,
        !patch.is_placeholder,
    ensures
        spec_merge_action(
            TagPayloadV { merged_variants: base.merged_variants.push(patch.loc_begin), ..base },
            patch,
        ) == MergeAction::AlreadyMerged,
{
    let appended = base.merged_variants.push(patch.loc_begin);
    assert(appended[appended.len() - 1] == patch.loc_begin);
    assert(appended.contains(patch.loc_begin));
}

/// One alternative arm of a configuration-gated choice.
pub struct GuardArm {
    pub premise: String,
    pub body_text: String,
}

pub struct GuardArmV {
    pub premise: Seq<char>,
    pub body_text: Seq<char>,
}

impl View for GuardArm {
    type V = GuardArmV;

    open spec fn view(&self) -> GuardArmV {
        GuardArmV { premise: self.premise@, body_text: self.body_text@ }
    }
}

/// A linear configuration-gated choice: gated arms, then a fallback.
pub struct GuardChain {
    pub arms: Vec<GuardArm>,
    pub fallback_text: String,
}

pub open spec fn arms_view(s: Seq<GuardArm>) -> Seq<GuardArmV> {
    s.map_values(|a: GuardArm| a@)
}

/// Appends the patch chain's arms to the base chain, keeping the base
/// fallback: the merged choice tries every base configuration first, then
/// every patch configuration.
pub fn merge_guard_chains(base: &GuardChain, patch: &GuardChain) -> (r: GuardChain)
    ensures
        arms_view(r.arms@) == arms_view(base.arms@) + arms_view(patch.arms@),
        r.fallback_text@ == base.fallback_text@,
{
    let mut arms: Vec<GuardArm> = Vec::new();
    let mut i: usize = 0;
    while i < base.arms.len()
        invariant
            i <= base.arms@.len(),
            arms@.len() == i,
            forall|j: int| 0 <= j < i ==> #[trigger] arms@[j]@ == base.arms@[j]@,
        decreases base.arms@.len() - i,
    {
        arms.push(
            GuardArm {
                premise: clone_string(&base.arms[i].premise),
                body_text: clone_string(&base.arms[i].body_text),
            },
        );
        i = i + 1;
    }
    let base_len = arms.len();
    let mut k: usize = 0;
    while k < patch.arms.len()
        invariant
            k <= patch.arms@.len(),
            base_len == base.arms@.len(),
            arms@.len() == base_len + k,
            forall|j: int| 0 <= j < base_len ==> #[trigger] arms@[j]@ == base.arms@[j]@,
            forall|j: int|
                0 <= j < k ==> #[trigger] arms@[base_len + j]@ == patch.arms@[j]@,
        decreases patch.arms@.len() - k,
    {
        arms.push(
            GuardArm {
                premise: clone_string(&patch.arms[k].premise),
                body_text: clone_string(&patch.arms[k].body_text),
            },
        );
        k = k + 1;
    }
    let r = GuardChain { arms, fallback_text: clone_string(&base.fallback_text) };
    proof {
        let bl = base.arms@.len() as int;
        let got = arms_view(r.arms@);
        let goal = arms_view(base.arms@) + arms_view(patch.arms@);
        assert forall|j: int| 0 <= j < got.len() implies got[j] == goal[j] by {
            if j < bl {
                assert(r.arms@[j]@ == base.arms@[j]@);
            } else {
                assert(r.arms@[bl + (j - bl)]@ == patch.arms@[j - bl]@);
                assert(r.arms@[j]@ == patch.arms@[j - bl]@);
            }
        }
        assert(got =~= goal);
    }
    r
}

/// The gated-choice text of a chain:
/// `if cfg!(p) b else if ... else fallback`.
pub open spec fn spec_chain_text(arms: Seq<GuardArmV>, fallback: Seq<char>) -> Seq<char>
    decreases arms.len(),
{
    if arms.len() == 0 {
        fallback
    } else {
        "if cfg!("@ + arms[0].premise + ") "@ + arms[0].body_text + " else "@ + spec_chain_text(
            arms.skip(1),
            fallback,
        )
    }
}

pub fn chain_text(chain: &GuardChain) -> (r: String)
    ensures
        r@ == spec_chain_text(arms_view(chain.arms@), chain.fallback_text@),
{
    let mut acc = String::new();
    let mut i: usize = 0;
    let ghost av = arms_view(chain.arms@);
    proof {
        assert(av.skip(0) =~= av);
        assert(acc@ + spec_chain_text(av, chain.fallback_text@) =~= spec_chain_text(
            av,
            chain.fallback_text@,
        ));
    }
    while i < chain.arms.len()
        invariant
            i <= chain.arms@.len(),
            av == arms_view(chain.arms@),
            spec_chain_text(av, chain.fallback_text@) == acc@ + spec_chain_text(
                av.skip(i as int),
                chain.fallback_text@,
            ),
        decreases chain.arms@.len() - i,
    {
        acc.append("if cfg!(");
        acc.append(chain.arms[i].premise.as_str());
        acc.append(") ");
        acc.append(chain.arms[i].body_text.as_str());
        acc.append(" else ");
        proof {
            assert(av.skip(i as int)[0] == chain.arms@[i as int]@);
            assert(av.skip(i as int).skip(1) =~= av.skip(i + 1));
            assert(spec_chain_text(av.skip(i as int), chain.fallback_text@) == "if cfg!("@
                + av.skip(i as int)[0].premise + ") "@ + av.skip(i as int)[0].body_text + " else "@
                + spec_chain_text(av.skip(i + 1), chain.fallback_text@));
            assert(spec_chain_text(av, chain.fallback_text@) =~= acc@ + spec_chain_text(
                av.skip(i + 1),
                chain.fallback_text@,
            ));
        }
        i = i + 1;
    }
    proof {
        assert(av.skip(av.len() as int) =~= Seq::<GuardArmV>::empty());
    }
    acc.append(chain.fallback_text.as_str());
    proof {
        assert(acc@ =~= spec_chain_text(av, chain.fallback_text@));
    }
    acc
}

/// Where the merge inserts one missing top-level item of the patch.
pub enum ItemMergeEdit {
    /// A template definition: insert at the top of the base file.
    InsertTop { text: String },
    /// Any other item: insert at the bottom of the base file.
    InsertBottom { text: String },
}

pub enum ItemMergeEditV {
    InsertTop { text: Seq<char> },
    InsertBottom { text: Seq<char> },
}

impl View for ItemMergeEdit {
    type V = ItemMergeEditV;

    open spec fn view(&self) -> ItemMergeEditV {
        match self {
            ItemMergeEdit::InsertTop { text } => ItemMergeEditV::InsertTop { text: text@ },
            ItemMergeEdit::InsertBottom { text } => ItemMergeEditV::InsertBottom { text: text@ },
        }
    }
}

pub open spec fn item_edits_view(s: Seq<ItemMergeEdit>) -> Seq<ItemMergeEditV> {
    s.map_values(|e: ItemMergeEdit| e@)
}

/// An item's merge signature: its name with the set of its attribute
/// texts, order ignored.
pub open spec fn spec_item_sig(d: DeclItemV) -> (Option<Seq<char>>, Set<Seq<char>>) {
    (d.name, d.attrs.map_values(|a: crate::region::AttrInfoV| a.text).to_set())
}

/// A patch item is merged when no base item bears its signature; named
/// items only.
pub open spec fn spec_item_missing(base: Seq<DeclItemV>, d: DeclItemV) -> bool {
    &&& d.name is Some
    &&& forall|j: int| 0 <= j < base.len() ==> spec_item_sig(#[trigger] base[j]) != spec_item_sig(d)
}

/// The planned inserts for the patch items missing from the base, in
/// order: template definitions at the top, everything else at the bottom.
pub open spec fn spec_item_merge_plan(base: Seq<DeclItemV>, patch: Seq<DeclItemV>, n: int) -> Seq<
    ItemMergeEditV,
>
    decreases n,
{
    if n <= 0 {
        Seq::empty()
    } else {
        let prev = spec_item_merge_plan(base, patch, n - 1);
        let d = patch[n - 1];
        if spec_item_missing(base, d) {
            if d.is_macro_def {
                prev.push(ItemMergeEditV::InsertTop { text: crate::region::spec_decl_text(d) })
            } else {
                prev.push(ItemMergeEditV::InsertBottom { text: crate::region::spec_decl_text(d) })
            }
        } else {
            prev
        }
    }
}

/// Whether two items bear the same merge signature.
fn same_item_sig(a: &DeclItem, b: &DeclItem) -> (r: bool)
    ensures
        r == (spec_item_sig(a@) == spec_item_sig(b@)),
{
    let name_eq = match (&a.name, &b.name) {
        (Some(x), Some(y)) => x.eq(y),
        (None, None) => true,
        _ => false,
    };
    if !name_eq {
        proof {
            assert(spec_item_sig(a@).0 != spec_item_sig(b@).0);
        }
        return false;
    }
    let fwd = attr_set_subset(&a.attrs, &b.attrs);
    let bwd = attr_set_subset(&b.attrs, &a.attrs);
    proof {
        let sa = spec_item_sig(a@).1;
        let sb = spec_item_sig(b@).1;
        if fwd && bwd {
            assert(sa =~= sb);
            assert(spec_item_sig(a@).0 == spec_item_sig(b@).0);
            assert(spec_item_sig(a@) == spec_item_sig(b@));
        } else {
            if !fwd {
                assert(sa != sb);
            } else {
                assert(sa != sb);
            }
        }
    }
    fwd && bwd
}

/// Whether every attribute text of `xs` occurs among those of `ys`.
fn attr_set_subset(xs: &Vec<crate::region::AttrInfo>, ys: &Vec<crate::region::AttrInfo>) -> (r:
    bool)
    ensures
        r == attr_text_set(xs@).subset_of(attr_text_set(ys@)),
{
    let mut i: usize = 0;
    while i < xs.len()
        invariant
            i <= xs@.len(),
            forall|j: int|
                0 <= j < i ==> attr_text_set(ys@).contains(#[trigger] xs@[j]@.text),
        decreases xs@.len() - i,
    {
        let mut found = false;
        let mut j: usize = 0;
        while j < ys.len() && !found
            invariant
                j <= ys@.len(),
                i < xs@.len(),
                found ==> attr_text_set(ys@).contains(xs@[i as int]@.text),
                !found ==> forall|m: int| 0 <= m < j ==> #[trigger] ys@[m]@.text != xs@[i as int]@.text,
            decreases ys@.len() - j + (if found { 0int } else { 1int }),
        {
            if ys[j].text.eq(&xs[i].text) {
                found = true;
                proof {
                    let tv = crate::region::attrs_view(ys@).map_values(
                        |a: crate::region::AttrInfoV| a.text,
                    );
                    assert(tv[j as int] == ys@[j as int]@.text);
                    assert(tv.contains(ys@[j as int]@.text));
                }
            } else {
                j = j + 1;
            }
        }
        if !found {
            proof {
                let s = attr_text_set(xs@);
                assert(s.contains(xs@[i as int]@.text)) by {
                    let tv = crate::region::attrs_view(xs@).map_values(
                        |a: crate::region::AttrInfoV| a.text,
                    );
                    assert(tv[i as int] == xs@[i as int]@.text);
                    assert(tv.contains(xs@[i as int]@.text));
                }
                if attr_text_set(ys@).contains(xs@[i as int]@.text) {
                    let tv = crate::region::attrs_view(ys@).map_values(
                        |a: crate::region::AttrInfoV| a.text,
                    );
                    let m = choose|m: int| 0 <= m < tv.len() && tv[m] == xs@[i as int]@.text;
                    assert(ys@[m]@.text == xs@[i as int]@.text);
                }
            }
            return false;
        }
        i = i + 1;
    }
    proof {
        let sx = attr_text_set(xs@);
        let sy = attr_text_set(ys@);
        assert forall|t: Seq<char>| sx.contains(t) implies sy.contains(t) by {
            let tv = crate::region::attrs_view(xs@).map_values(
                |a: crate::region::AttrInfoV| a.text,
            );
            let j = choose|j: int| 0 <= j < tv.len() && tv[j] == t;
            assert(xs@[j]@.text == t);
            assert(sy.contains(xs@[j]@.text));
        }
    }
    true
}

/// The set of an item's attribute texts.
pub open spec fn attr_text_set(attrs: Seq<crate::region::AttrInfo>) -> Set<Seq<char>> {
    crate::region::attrs_view(attrs).map_values(|a: crate::region::AttrInfoV| a.text).to_set()
}

/// Plans the top-level item merge: every named patch item whose signature
/// the base lacks is inserted, template definitions at the file top and
/// all others at the file bottom.
pub fn plan_item_merge(base: &Vec<DeclItem>, patch: &Vec<DeclItem>) -> (r: Vec<ItemMergeEdit>)
    ensures
        item_edits_view(r@) == spec_item_merge_plan(
            decls_view(base@),
            decls_view(patch@),
            patch@.len() as int,
        ),
{
    let mut r: Vec<ItemMergeEdit> = Vec::new();
    let mut i: usize = 0;
    let ghost bv = decls_view(base@);
    let ghost pv = decls_view(patch@);
    while i < patch.len()
        invariant
            i <= patch@.len(),
            bv == decls_view(base@),
            pv == decls_view(patch@),
            item_edits_view(r@) == spec_item_merge_plan(bv, pv, i as int),
        decreases patch@.len() - i,
    {
        let d = &patch[i];
        let named = d.name.is_some();
        let mut missing = named;
        if named {
            let mut j: usize = 0;
            while j < base.len() && missing
                invariant
                    j <= base@.len(),
                    i < patch@.len(),
                    bv == decls_view(base@),
                    pv == decls_view(patch@),
                    d == patch@[i as int],
                    missing ==> forall|m: int|
                        0 <= m < j ==> spec_item_sig(#[trigger] bv[m]) != spec_item_sig(
                            pv[i as int],
                        ),
                    !missing ==> exists|m: int|
                        0 <= m < base@.len() && spec_item_sig(#[trigger] bv[m]) == spec_item_sig(
                            pv[i as int],
                        ),
                decreases base@.len() - j + (if missing { 1int } else { 0int }),
            {
                if same_item_sig(&base[j], d) {
                    missing = false;
                    proof {
                        assert(bv[j as int] == base@[j as int]@);
                        assert(pv[i as int] == patch@[i as int]@);
                    }
                } else {
                    proof {
                        assert(bv[j as int] == base@[j as int]@);
                        assert(pv[i as int] == patch@[i as int]@);
                    }
                    j = j + 1;
                }
            }
        }
        proof {
            assert(pv[i as int] == patch@[i as int]@);
            assert(missing == spec_item_missing(bv, pv[i as int]));
        }
        if missing {
            let text = d.render_text();
            if d.is_macro_def {
                r.push(ItemMergeEdit::InsertTop { text });
            } else {
                r.push(ItemMergeEdit::InsertBottom { text });
            }
        }
        proof {
            assert(item_edits_view(r@) =~= spec_item_merge_plan(bv, pv, i + 1));
        }
        i = i + 1;
    }
    r
}


/// The first index at or after `i` whose location equals `loc`, or -1.
pub open spec fn spec_first_with(locs: Seq<Seq<char>>, loc: Seq<char>, i: int) -> int
    decreases locs.len() - i,
{
    if i < 0 || i >= locs.len() {
        -1
    } else if locs[i] == loc {
        i
    } else {
        spec_first_with(locs, loc, i + 1)
    }
}

/// The base/patch pairing of the first `n` base conditionals: each
/// declaring location is taken at its first base occurrence only, and
/// pairs with the first patch conditional declaring the same location;
/// locations absent from the patch contribute nothing.
pub open spec fn spec_pair_plan(base: Seq<Seq<char>>, patch: Seq<Seq<char>>, n: int) -> Seq<
    (int, int),
>
    decreases n,
{
    if n <= 0 {
        Seq::empty()
    } else {
        let prev = spec_pair_plan(base, patch, n - 1);
        if spec_first_with(base, base[n - 1], 0) < n - 1 {
            prev
        } else {
            let p = spec_first_with(patch, base[n - 1], 0);
            if p < 0 {
                prev
            } else {
                prev.push((n - 1, p))
            }
        }
    }
}

proof fn lemma_first_with_from(locs: Seq<Seq<char>>, loc: Seq<char>, i: int, at: int)
    requires
        0 <= i <= at < locs.len(),
        locs[at] == loc,
        forall|m: int| i <= m < at ==> #[trigger] locs[m] != loc,
    ensures
        spec_first_with(locs, loc, i) == at,
    decreases at - i,
{
    if i < at {
        lemma_first_with_from(locs, loc, i + 1, at);
    }
}

proof fn lemma_first_with_absent(locs: Seq<Seq<char>>, loc: Seq<char>, i: int)
    requires
        0 <= i,
        forall|m: int| i <= m < locs.len() ==> #[trigger] locs[m] != loc,
    ensures
        spec_first_with(locs, loc, i) == -1,
    decreases locs.len() - i,
{
    if i < locs.len() {
        lemma_first_with_absent(locs, loc, i + 1);
    }
}

/// The declaring locations of a run of conditionals.
pub open spec fn cond_ref_locs(cs: Seq<HayrollConditionalMacro>) -> Seq<Seq<char>> {
    cs.map_values(|c: HayrollConditionalMacro| c.seed.spec_first_tag().tag.loc_ref_begin)
}

/// Plans the base/patch pairing: index pairs, in base order, of each
/// first-occurrence base conditional with the first patch conditional
/// declaring the same location.
pub fn plan_conditional_pairs(
    base: &Vec<HayrollConditionalMacro>,
    patch: &Vec<HayrollConditionalMacro>,
) -> (r: Vec<(usize, usize)>)
    ensures
        r@.map_values(|p: (usize, usize)| (p.0 as int, p.1 as int)) == spec_pair_plan(
            cond_ref_locs(base@),
            cond_ref_locs(patch@),
            base@.len() as int,
        ),
{
    let ghost bl = cond_ref_locs(base@);
    let ghost pl = cond_ref_locs(patch@);
    let mut r: Vec<(usize, usize)> = Vec::new();
    let mut i: usize = 0;
    while i < base.len()
        invariant
            i <= base@.len(),
            bl == cond_ref_locs(base@),
            pl == cond_ref_locs(patch@),
            r@.map_values(|p: (usize, usize)| (p.0 as int, p.1 as int)) == spec_pair_plan(
                bl,
                pl,
                i as int,
            ),
        decreases base@.len() - i,
    {
        let loc = &base[i].seed.first_tag().tag.loc_ref_begin;
        proof {
            assert(bl[i as int] == base@[i as int].seed.spec_first_tag().tag.loc_ref_begin);
        }
        // keep only the first base occurrence of this location
        let mut dup = false;
        let mut k: usize = 0;
        while k < i && !dup
            invariant
                k <= i,
                i < base@.len(),
                bl == cond_ref_locs(base@),
                loc@ == bl[i as int],
                dup ==> exists|m: int| 0 <= m < i && #[trigger] bl[m] == bl[i as int],
                !dup ==> forall|m: int| 0 <= m < k ==> #[trigger] bl[m] != bl[i as int],
            decreases i - k + (if dup { 0int } else { 1int }),
        {
            if base[k].seed.first_tag().tag.loc_ref_begin.eq(loc) {
                proof {
                    assert(bl[k as int] == base@[k as int].seed.spec_first_tag().tag.loc_ref_begin);
                }
                dup = true;
            } else {
                proof {
                    assert(bl[k as int] == base@[k as int].seed.spec_first_tag().tag.loc_ref_begin);
                }
                k = k + 1;
            }
        }
        if !dup {
            proof {
                lemma_first_with_from(bl, bl[i as int], 0, i as int);
            }
            // the first matching patch conditional, if any
            let mut p: usize = 0;
            let mut hit = false;
            while p < patch.len() && !hit
                invariant
                    p <= patch@.len(),
                    i < base@.len(),
                    pl == cond_ref_locs(patch@),
                    loc@ == bl[i as int],
                    hit ==> p < patch@.len() && pl[p as int] == bl[i as int] && forall|m: int|
                        0 <= m < p ==> #[trigger] pl[m] != bl[i as int],
                    !hit ==> forall|m: int| 0 <= m < p ==> #[trigger] pl[m] != bl[i as int],
                decreases patch@.len() - p + (if hit { 0int } else { 1int }),
            {
                if patch[p].seed.first_tag().tag.loc_ref_begin.eq(loc) {
                    proof {
                        assert(pl[p as int]
                            == patch@[p as int].seed.spec_first_tag().tag.loc_ref_begin);
                    }
                    hit = true;
                } else {
                    proof {
                        assert(pl[p as int]
                            == patch@[p as int].seed.spec_first_tag().tag.loc_ref_begin);
                    }
                    p = p + 1;
                }
            }
            if hit {
                proof {
                    lemma_first_with_from(pl, bl[i as int], 0, p as int);
                }
                let ghost dvold = r@.map_values(|q: (usize, usize)| (q.0 as int, q.1 as int));
                r.push((i, p));
                proof {
                    let dv = r@.map_values(|q: (usize, usize)| (q.0 as int, q.1 as int));
                    assert(dv =~= dvold.push((i as int, p as int)));
                }
            } else {
                proof {
                    lemma_first_with_absent(pl, bl[i as int], 0);
                }
            }
        } else {
            proof {
                let m = choose|m: int| 0 <= m < i && #[trigger] bl[m] == bl[i as int];
                assert(spec_first_with(bl, bl[i as int], 0) < i as int) by {
                    let f = spec_first_with(bl, bl[i as int], 0);
                    lemma_first_with_bound(bl, bl[i as int], m);
                }
            }
        }
        i = i + 1;
    }
    r
}

/// A location borne at `at` is first borne no later than `at`.
proof fn lemma_first_with_bound(locs: Seq<Seq<char>>, loc: Seq<char>, at: int)
    requires
        0 <= at < locs.len(),
        locs[at] == loc,
    ensures
        0 <= spec_first_with(locs, loc, 0) <= at,
{
    lemma_first_with_bound_from(locs, loc, 0, at);
}

proof fn lemma_first_with_bound_from(locs: Seq<Seq<char>>, loc: Seq<char>, i: int, at: int)
    requires
        0 <= i <= at < locs.len(),
        locs[at] == loc,
    ensures
        i <= spec_first_with(locs, loc, i) <= at,
    decreases at - i,
{
    if locs[i] != loc {
        lemma_first_with_bound_from(locs, loc, i + 1, at);
    }
}

} // verus!
