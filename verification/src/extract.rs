//! Seed extraction: folding a file-ordered stream of tags into seeds,
//! pairing each span's begin marker with its end marker.
//!
//! A begin tag opens a new seed.  An end tag closes the most recently
//! built span whose begin marker shares its region location and seed type,
//! searched backwards through the seeds built so far; `spec_pair_tags` is
//! the definitive statement of that fold.  Because each begin marker's
//! region location identifies it uniquely, at most one span ever matches,
//! so the backward search meets the most-recent-open-first discipline.  An
//! end tag of expression or declaration shape, or one that closes nothing,
//! is a fatal extraction error: the translator's invariants were violated
//! and no sound recovery exists.

use vstd::prelude::*;
use crate::seed::{HayrollSeed, HayrollSeedV, seeds_view};
use crate::tag::{HayrollTag, HayrollTagV, SeedType};

verus! {

/// A fatal extraction failure.
#[derive(Clone, Copy, PartialEq, Eq, Structural, Debug)]
pub enum ExtractError {
    /// A tag of expression or declaration shape arrived with its begin
    /// flag cleared; such tags have no end markers.
    BeginFlagMissing,
    /// An end marker closed no open span.
    UnmatchedEndTag,
    /// A span's begin marker never received an end marker.
    UnmatchedBeginTag,
}

pub open spec fn tag_views(s: Seq<HayrollTag>) -> Seq<HayrollTagV> {
    s.map_values(|t: HayrollTag| t@)
}

/// The tags that open a seed: exactly the begin markers.
pub open spec fn starters(s: Seq<HayrollTagV>) -> Seq<HayrollTagV> {
    s.filter(|t: HayrollTagV| t.tag.begin)
}

pub open spec fn seed_first_tags(s: Seq<HayrollSeed>) -> Seq<HayrollTagV> {
    s.map_values(|x: HayrollSeed| x.spec_first_tag())
}

/// The pairing invariant: a seed's begin tag begins and matches its shape;
/// a span's end tag shares the begin tag's region location and seed type,
/// and a span whose end tag still begins is the unclosed self-paired
/// placeholder, equal to its begin tag.
pub open spec fn seed_pairing_ok(s: HayrollSeed) -> bool {
    match s {
        HayrollSeed::Expr(t) => t.tag.begin && t.tag.ast_kind is Expr,
        HayrollSeed::Stmts(b, e) => {
            &&& b.tag.begin
            &&& (b.tag.ast_kind is Stmt || b.tag.ast_kind is Stmts)
            &&& e.tag.loc_begin@ == b.tag.loc_begin@
            &&& e.tag.seed_type == b.tag.seed_type
            &&& (e.tag.begin ==> e@ == b@)
            &&& (!e.tag.begin ==> (e.tag.ast_kind is Stmt || e.tag.ast_kind is Stmts))
        },
        HayrollSeed::Decls(t) => t.tag.begin && (t.tag.ast_kind is Decl || t.tag.ast_kind
            is Decls),
    }
}

/// A span seed still waiting for its end marker.
pub open spec fn is_self_paired(s: HayrollSeed) -> bool {
    s matches HayrollSeed::Stmts(_, e) && e.tag.begin
}

/// The begin tags of the spans that never closed.
pub open spec fn spec_unmatched_tags(seeds: Seq<HayrollSeed>) -> Seq<HayrollTagV> {
    seed_first_tags(seeds.filter(|s: HayrollSeed| is_self_paired(s)))
}


/// Whether a built seed is a span whose begin marker bears the given
/// region location and seed type: the test an end marker binds by.
pub open spec fn spec_span_match(v: HayrollSeedV, loc: Seq<char>, st: SeedType) -> bool {
    v matches HayrollSeedV::Stmts(b, _) && b.tag.loc_begin == loc && b.tag.seed_type == st
}

/// The most recently built span matching the location and seed type, or
/// -1: end markers bind backwards through the seeds built so far.
pub open spec fn spec_find_span(acc: Seq<HayrollSeedV>, loc: Seq<char>, st: SeedType) -> int
    decreases acc.len(),
{
    if acc.len() == 0 {
        -1
    } else if spec_span_match(acc.last(), loc, st) {
        acc.len() - 1
    } else {
        spec_find_span(acc.drop_last(), loc, st)
    }
}

/// One step of the pairing fold: a begin tag opens a seed of its shape; an
/// end tag of expression or declaration shape is fatal; any other end tag
/// closes the most recently built matching span, fatally if none exists.
pub open spec fn spec_pair_step(acc: Seq<HayrollSeedV>, tv: HayrollTagV) -> Result<
    Seq<HayrollSeedV>,
    ExtractError,
> {
    if tv.tag.begin {
        if tv.tag.ast_kind is Expr {
            Ok(acc.push(HayrollSeedV::Expr(tv)))
        } else if tv.tag.ast_kind is Stmt || tv.tag.ast_kind is Stmts {
            Ok(acc.push(HayrollSeedV::Stmts(tv, tv)))
        } else {
            Ok(acc.push(HayrollSeedV::Decls(tv)))
        }
    } else if tv.tag.ast_kind is Expr || tv.tag.ast_kind is Decl || tv.tag.ast_kind is Decls {
        Err(ExtractError::BeginFlagMissing)
    } else {
        let j = spec_find_span(acc, tv.tag.loc_begin, tv.tag.seed_type);
        if j < 0 {
            Err(ExtractError::UnmatchedEndTag)
        } else {
            match acc[j] {
                HayrollSeedV::Stmts(b, _) => Ok(acc.update(j, HayrollSeedV::Stmts(b, tv))),
                _ => Err(ExtractError::UnmatchedEndTag),
            }
        }
    }
}

/// The whole pairing fold, tag by tag in stream order: the definitive
/// meaning of seed extraction, consuming each end marker exactly once.
pub open spec fn spec_pair_tags(tags: Seq<HayrollTag>) -> Result<Seq<HayrollSeedV>, ExtractError>
    decreases tags.len(),
{
    if tags.len() == 0 {
        Ok(Seq::empty())
    } else {
        match spec_pair_tags(tags.drop_last()) {
            Err(e) => Err(e),
            Ok(acc) => spec_pair_step(acc, tags.last()@),
        }
    }
}

proof fn lemma_find_span_located(acc: Seq<HayrollSeedV>, loc: Seq<char>, st: SeedType, j: int)
    requires
        0 <= j < acc.len(),
        spec_span_match(acc[j], loc, st),
        forall|k: int| j < k < acc.len() ==> !spec_span_match(#[trigger] acc[k], loc, st),
    ensures
        spec_find_span(acc, loc, st) == j,
    decreases acc.len(),
{
    if j < acc.len() - 1 {
        assert(acc.drop_last()[j] == acc[j]);
        assert forall|k: int|
            j < k < acc.drop_last().len() implies !spec_span_match(
            #[trigger] acc.drop_last()[k],
            loc,
            st,
        ) by {
            assert(acc.drop_last()[k] == acc[k]);
        }
        lemma_find_span_located(acc.drop_last(), loc, st, j);
    }
}

proof fn lemma_find_span_absent(acc: Seq<HayrollSeedV>, loc: Seq<char>, st: SeedType)
    requires
        forall|k: int| 0 <= k < acc.len() ==> !spec_span_match(#[trigger] acc[k], loc, st),
    ensures
        spec_find_span(acc, loc, st) == -1,
    decreases acc.len(),
{
    if acc.len() > 0 {
        assert forall|k: int|
            0 <= k < acc.drop_last().len() implies !spec_span_match(
            #[trigger] acc.drop_last()[k],
            loc,
            st,
        ) by {
            assert(acc.drop_last()[k] == acc[k]);
        }
        lemma_find_span_absent(acc.drop_last(), loc, st);
        assert(acc.last() == acc[acc.len() - 1]);
    }
}

/// Once the fold fails, every longer prefix fails the same way.
proof fn lemma_pair_err_persists(tags: Seq<HayrollTag>, k: int, m: int, e: ExtractError)
    requires
        0 <= k <= m <= tags.len(),
        spec_pair_tags(tags.take(k)) == Err::<Seq<HayrollSeedV>, ExtractError>(e),
    ensures
        spec_pair_tags(tags.take(m)) == Err::<Seq<HayrollSeedV>, ExtractError>(e),
    decreases m - k,
{
    if k < m {
        assert(tags.take(k + 1).drop_last() =~= tags.take(k));
        lemma_pair_err_persists(tags, k + 1, m, e);
    }
}

/// Folds a tag stream into seeds and reports the spans that never closed.
///
/// On success, the seeds correspond one to one, in order, to the begin
/// markers of the stream, every seed satisfies the pairing invariant, and
/// the reported unmatched tags are exactly the begin markers of the
/// still-open spans.
pub fn extract_hayroll_seeds_from_syntax_roots_impl(tags: &Vec<HayrollTag>) -> (r: Result<
    (Vec<HayrollSeed>, Vec<HayrollTag>),
    ExtractError,
>)
    ensures
        match r {
            Ok(p) => {
                &&& spec_pair_tags(tags@) == Ok::<Seq<HayrollSeedV>, ExtractError>(
                    seeds_view(p.0@),
                )
                &&& seed_first_tags(p.0@) == starters(tag_views(tags@))
                &&& forall|k: int| 0 <= k < p.0@.len() ==> seed_pairing_ok(#[trigger] p.0@[k])
                &&& tag_views(p.1@) == spec_unmatched_tags(p.0@)
            },
            Err(e) => {
                &&& spec_pair_tags(tags@) == Err::<Seq<HayrollSeedV>, ExtractError>(e)
                &&& e != ExtractError::UnmatchedBeginTag
                &&& exists|i: int|
                    0 <= i < tags@.len() && !(#[trigger] tags@[i]).tag.begin && (
                    e is BeginFlagMissing ==> !(tags@[i].tag.ast_kind is Stmt
                        || tags@[i].tag.ast_kind is Stmts)) && (e is UnmatchedEndTag ==> (
                    tags@[i].tag.ast_kind is Stmt || tags@[i].tag.ast_kind is Stmts))
            },
        },
        (forall|i: int| 0 <= i < tags@.len() ==> (#[trigger] tags@[i]).tag.begin) ==> r is Ok,
{
    let mut acc: Vec<HayrollSeed> = Vec::new();
    let mut i: usize = 0;
    proof {
        assert(seeds_view(acc@) =~= Seq::<HayrollSeedV>::empty());
        assert(spec_pair_tags(tags@.take(0)) == Ok::<Seq<HayrollSeedV>, ExtractError>(
            seeds_view(acc@),
        ));
    }
    while i < tags.len()
        invariant
            i <= tags.len(),
            seed_first_tags(acc@) == starters(tag_views(tags@.take(i as int))),
            forall|k: int| 0 <= k < acc@.len() ==> seed_pairing_ok(#[trigger] acc@[k]),
            spec_pair_tags(tags@.take(i as int)) == Ok::<Seq<HayrollSeedV>, ExtractError>(
                seeds_view(acc@),
            ),
        decreases tags.len() - i,
    {
        let t = &tags[i];
        proof {
            reveal(Seq::filter);
            let tv_next = tag_views(tags@.take(i + 1));
            let tv_cur = tag_views(tags@.take(i as int));
            assert(tv_next.drop_last() =~= tv_cur);
            assert(tv_next.last() == tags@[i as int]@);
            assert(tags@.take(i + 1).drop_last() =~= tags@.take(i as int));
            assert(tags@.take(i + 1).last() == tags@[i as int]);
        }
        if t.tag.begin {
            let ghost pre = acc@;
            let seed = if t.tag.is_expr() {
                HayrollSeed::Expr(t.duplicate())
            } else if t.tag.is_stmt() || t.tag.is_stmts() {
                HayrollSeed::Stmts(t.duplicate(), t.duplicate())
            } else {
                HayrollSeed::Decls(t.duplicate())
            };
            acc.push(seed);
            proof {
                let fts = seed_first_tags(acc@);
                let goal = starters(tag_views(tags@.take(i + 1)));
                assert forall|k: int| 0 <= k < fts.len() implies fts[k] == goal[k] by {
                    assert(fts[k] == acc@[k].spec_first_tag());
                }
                assert(fts =~= goal);
                // the fold takes the same step
                let tv = tags@[i as int]@;
                let stepped = if tv.tag.ast_kind is Expr {
                    seeds_view(pre).push(HayrollSeedV::Expr(tv))
                } else if tv.tag.ast_kind is Stmt || tv.tag.ast_kind is Stmts {
                    seeds_view(pre).push(HayrollSeedV::Stmts(tv, tv))
                } else {
                    seeds_view(pre).push(HayrollSeedV::Decls(tv))
                };
                assert(spec_pair_step(seeds_view(pre), tv) == Ok::<
                    Seq<HayrollSeedV>,
                    ExtractError,
                >(stepped));
                assert forall|k: int|
                    0 <= k < seeds_view(acc@).len() implies seeds_view(acc@)[k] == stepped[k] by {
                    assert(seeds_view(acc@)[k] == acc@[k]@);
                    if k < pre.len() {
                        assert(seeds_view(pre)[k] == pre[k]@);
                    }
                }
                assert(seeds_view(acc@) =~= stepped);
            }
        } else {
            if t.tag.is_expr() || t.tag.is_decl() || t.tag.is_decls() {
                proof {
                    assert(spec_pair_tags(tags@.take(i + 1))
                        == Err::<Seq<HayrollSeedV>, ExtractError>(ExtractError::BeginFlagMissing));
                    lemma_pair_err_persists(
                        tags@,
                        i + 1,
                        tags@.len() as int,
                        ExtractError::BeginFlagMissing,
                    );
                    assert(tags@.take(tags@.len() as int) =~= tags@);
                    assert(tags@.take(tags@.len() as int) == tags@);
                }
                return Err(ExtractError::BeginFlagMissing);
            }
            // an end marker: close the most recently opened matching span
            let mut j = acc.len();
            let mut found = false;
            while j > 0 && !found
                invariant
                    j <= acc.len(),
                    i < tags@.len(),
                    forall|k: int| 0 <= k < acc@.len() ==> seed_pairing_ok(#[trigger] acc@[k]),
                    seed_first_tags(acc@) == starters(tag_views(tags@.take(i as int))),
                    found ==> seed_pairing_ok(acc@[j as int]) && acc@[j as int].spec_first_tag()
                        == old_first_tag_at(acc@, j as int),
                    t.tag.ast_kind is Stmt || t.tag.ast_kind is Stmts,
                    !t.tag.begin,
                    t@ == tags@[i as int]@,
                    !found ==> spec_pair_tags(tags@.take(i as int)) == Ok::<
                        Seq<HayrollSeedV>,
                        ExtractError,
                    >(seeds_view(acc@)),
                    !found ==> forall|k: int|
                        j <= k < acc@.len() ==> !spec_span_match(
                            #[trigger] seeds_view(acc@)[k],
                            t.tag.loc_begin@,
                            t.tag.seed_type,
                        ),
                    found ==> spec_pair_tags(tags@.take(i + 1)) == Ok::<
                        Seq<HayrollSeedV>,
                        ExtractError,
                    >(seeds_view(acc@)),
                decreases j,
            {
                j = j - 1;
                let matches_here = match &acc[j] {
                    HayrollSeed::Stmts(b, _) => b.tag.loc_begin.eq(&t.tag.loc_begin)
                        && b.tag.seed_type == t.tag.seed_type,
                    _ => false,
                };
                if matches_here {
                    let ghost pre = acc@;
                    let new_seed = match &acc[j] {
                        HayrollSeed::Stmts(b, _) => HayrollSeed::Stmts(
                            b.duplicate(),
                            t.duplicate(),
                        ),
                        _ => unreached(),
                    };
                    acc.set(j, new_seed);
                    found = true;
                    proof {
                        assert(seed_pairing_ok(acc@[j as int]));
                        let fts = seed_first_tags(acc@);
                        let pre_fts = seed_first_tags(pre);
                        assert forall|k: int| 0 <= k < fts.len() implies fts[k] == pre_fts[k] by {
                            assert(fts[k] == acc@[k].spec_first_tag());
                            assert(pre_fts[k] == pre[k].spec_first_tag());
                            if k != j {
                                assert(acc@[k] == pre[k]);
                            }
                        }
                        assert(fts =~= pre_fts);
                        // the fold binds the same span
                        assert(tags@.take(i + 1).drop_last() =~= tags@.take(i as int));
                        assert(tags@.take(i + 1).last() == tags@[i as int]);
                        let tv = tags@[i as int]@;
                        let pv = seeds_view(pre);
                        assert(spec_span_match(pv[j as int], tv.tag.loc_begin, tv.tag.seed_type));
                        lemma_find_span_located(pv, tv.tag.loc_begin, tv.tag.seed_type, j as int);
                        let bv = match pv[j as int] {
                            HayrollSeedV::Stmts(b, _) => b,
                            _ => pv[j as int]->Stmts_0,
                        };
                        assert(spec_pair_step(pv, tv) == Ok::<Seq<HayrollSeedV>, ExtractError>(
                            pv.update(j as int, HayrollSeedV::Stmts(bv, tv)),
                        ));
                        assert forall|k: int|
                            0 <= k < seeds_view(acc@).len() implies seeds_view(acc@)[k]
                            == pv.update(j as int, HayrollSeedV::Stmts(bv, tv))[k] by {
                            assert(seeds_view(acc@)[k] == acc@[k]@);
                            if k != j {
                                assert(acc@[k] == pre[k]);
                                assert(pv[k] == pre[k]@);
                            }
                        }
                        assert(seeds_view(acc@) =~= pv.update(
                            j as int,
                            HayrollSeedV::Stmts(bv, tv),
                        ));
                        assert(spec_pair_tags(tags@.take(i + 1)) == Ok::<
                            Seq<HayrollSeedV>,
                            ExtractError,
                        >(seeds_view(acc@)));
                    }
                }
            }
            if !found {
                proof {
                    assert(tags@.take(i + 1).drop_last() =~= tags@.take(i as int));
                    assert(tags@.take(i + 1).last() == tags@[i as int]);
                    let tv = tags@[i as int]@;
                    lemma_find_span_absent(seeds_view(acc@), tv.tag.loc_begin, tv.tag.seed_type);
                    assert(spec_pair_tags(tags@.take(i + 1))
                        == Err::<Seq<HayrollSeedV>, ExtractError>(ExtractError::UnmatchedEndTag));
                    lemma_pair_err_persists(
                        tags@,
                        i + 1,
                        tags@.len() as int,
                        ExtractError::UnmatchedEndTag,
                    );
                    assert(tags@.take(tags@.len() as int) =~= tags@);
                    assert(tags@.take(tags@.len() as int) == tags@);
                }
                return Err(ExtractError::UnmatchedEndTag);
            }
            proof {
                let tv_next = tag_views(tags@.take(i + 1));
                assert(starters(tv_next) =~= starters(tag_views(tags@.take(i as int))));
            }
        }
        i = i + 1;
    }
    proof {
        assert(tags@.take(tags@.len() as int) =~= tags@);
        assert(tags@.take(tags@.len() as int) == tags@);
        assert(tag_views(tags@.take(tags@.len() as int)) =~= tag_views(tags@));
    }
    // collect the begin markers of the spans that never closed
    let mut unmatched: Vec<HayrollTag> = Vec::new();
    let mut k: usize = 0;
    let ghost pred = |s: HayrollSeed| is_self_paired(s);
    while k < acc.len()
        invariant
            k <= acc.len(),
            pred == (|s: HayrollSeed| is_self_paired(s)),
            unmatched@.len() == acc@.take(k as int).filter(pred).len(),
            forall|m: int|
                0 <= m < unmatched@.len() ==> #[trigger] unmatched@[m]@ == acc@.take(
                    k as int,
                ).filter(pred)[m].spec_first_tag(),
        decreases acc.len() - k,
    {
        let self_paired = match &acc[k] {
            HayrollSeed::Stmts(_, e) => e.tag.begin,
            _ => false,
        };
        proof {
            reveal(Seq::filter);
            assert(acc@.take(k + 1).drop_last() =~= acc@.take(k as int));
            assert(acc@.take(k + 1).last() == acc@[k as int]);
            assert(self_paired == pred(acc@[k as int]));
        }
        if self_paired {
            let b = match &acc[k] {
                HayrollSeed::Stmts(b, _) => b.duplicate(),
                _ => unreached(),
            };
            unmatched.push(b);
        }
        k = k + 1;
    }
    proof {
        assert(acc@.take(acc@.len() as int) =~= acc@);
        let uv = tag_views(unmatched@);
        let goal = spec_unmatched_tags(acc@);
        assert forall|m: int| 0 <= m < uv.len() implies uv[m] == goal[m] by {
            assert(uv[m] == unmatched@[m]@);
            assert(goal[m] == acc@.filter(pred)[m].spec_first_tag());
        }
        assert(uv =~= goal);
    }
    Ok((acc, unmatched))
}

/// Helper naming a seed's first tag before an update, for the binding
/// loop's bookkeeping.
pub open spec fn old_first_tag_at(seeds: Seq<HayrollSeed>, j: int) -> HayrollTagV {
    seeds[j].spec_first_tag()
}

/// A member of a filtered sequence is a member of the sequence.
proof fn lemma_filter_elem<A>(s: Seq<A>, pred: spec_fn(A) -> bool, j: int)
    requires
        0 <= j < s.filter(pred).len(),
    ensures
        exists|i: int| 0 <= i < s.len() && #[trigger] s[i] == s.filter(pred)[j],
    decreases s.len(),
{
    reveal(Seq::filter);
    if s.len() > 0 {
        if pred(s.last()) && j == s.filter(pred).len() - 1 {
            assert(s[s.len() - 1] == s.filter(pred)[j]);
        } else {
            lemma_filter_elem(s.drop_last(), pred, j);
            let i = choose|i: int|
                0 <= i < s.drop_last().len() && #[trigger] s.drop_last()[i] == s.drop_last().filter(
                    pred,
                )[j];
            assert(s[i] == s.filter(pred)[j]);
        }
    }
}

/// A sequence none of whose members satisfies the test filters to nothing.
proof fn lemma_filter_none<A>(s: Seq<A>, pred: spec_fn(A) -> bool)
    requires
        forall|i: int| 0 <= i < s.len() ==> !pred(#[trigger] s[i]),
    ensures
        s.filter(pred).len() == 0,
    decreases s.len(),
{
    reveal(Seq::filter);
    if s.len() > 0 {
        assert forall|i: int| 0 <= i < s.drop_last().len() implies !pred(
            #[trigger] s.drop_last()[i],
        ) by {
            assert(s.drop_last()[i] == s[i]);
        }
        lemma_filter_none(s.drop_last(), pred);
        assert(!pred(s[s.len() - 1]));
    }
}

/// A span-free, begin-only tag stream leaves nothing unmatched.
proof fn lemma_no_span_tags_no_unmatched(tags: Seq<HayrollTag>, seeds: Seq<HayrollSeed>)
    requires
        forall|i: int|
            0 <= i < tags.len() ==> !((#[trigger] tags[i]).tag.ast_kind is Stmt
                || tags[i].tag.ast_kind is Stmts),
        seed_first_tags(seeds) == starters(tag_views(tags)),
        forall|k: int| 0 <= k < seeds.len() ==> seed_pairing_ok(#[trigger] seeds[k]),
    ensures
        spec_unmatched_tags(seeds).len() == 0,
{
    let pred = |s: HayrollSeed| is_self_paired(s);
    assert forall|k: int| 0 <= k < seeds.len() implies !pred(#[trigger] seeds[k]) by {
        if pred(seeds[k]) {
            // a self-paired seed is a span, so its begin tag has span shape,
            // yet every starter comes from a span-free stream
            assert(seed_first_tags(seeds)[k] == seeds[k].spec_first_tag());
            assert(seeds[k].spec_first_tag().tag.ast_kind is Stmt
                || seeds[k].spec_first_tag().tag.ast_kind is Stmts);
            let sv = tag_views(tags);
            let bpred = |t: HayrollTagV| t.tag.begin;
            lemma_filter_elem(sv, bpred, k);
            let i = choose|i: int| 0 <= i < sv.len() && #[trigger] sv[i] == sv.filter(bpred)[k];
            assert(sv[i] == tags[i]@);
        }
    }
    lemma_filter_none(seeds, pred);
    assert(spec_unmatched_tags(seeds).len() == seeds.filter(pred).len());
}

/// Extraction that demands every span closed: an unmatched begin marker is
/// the fatal condition the repair pass exists to prevent.
pub fn extract_hayroll_seeds_from_syntax_roots(tags: &Vec<HayrollTag>) -> (r: Result<
    Vec<HayrollSeed>,
    ExtractError,
>)
    ensures
        match r {
            Ok(seeds) => {
                &&& spec_pair_tags(tags@) == Ok::<Seq<HayrollSeedV>, ExtractError>(
                    seeds_view(seeds@),
                )
                &&& seed_first_tags(seeds@) == starters(tag_views(tags@))
                &&& forall|k: int|
                    0 <= k < seeds@.len() ==> seed_pairing_ok(#[trigger] seeds@[k])
                        && !is_self_paired(seeds@[k])
            },
            Err(e) => match e {
                ExtractError::UnmatchedBeginTag => exists|seeds: Seq<HayrollSeed>|
                    (#[trigger] seed_first_tags(seeds)) == starters(tag_views(tags@)) && (forall|
                        k: int,
                    |
                        0 <= k < seeds.len() ==> seed_pairing_ok(#[trigger] seeds[k]))
                        && spec_unmatched_tags(seeds).len() > 0,
                _ => exists|i: int|
                    0 <= i < tags@.len() && !(#[trigger] tags@[i]).tag.begin && (
                    e is BeginFlagMissing ==> !(tags@[i].tag.ast_kind is Stmt
                        || tags@[i].tag.ast_kind is Stmts)) && (e is UnmatchedEndTag ==> (
                    tags@[i].tag.ast_kind is Stmt || tags@[i].tag.ast_kind is Stmts)),
            },
        },
        (forall|i: int|
            0 <= i < tags@.len() ==> (#[trigger] tags@[i]).tag.begin && !(tags@[i].tag.ast_kind
                is Stmt || tags@[i].tag.ast_kind is Stmts)) ==> r is Ok,
{
    match extract_hayroll_seeds_from_syntax_roots_impl(tags) {
        Ok((seeds, unmatched)) => {
            if unmatched.len() > 0 {
                proof {
                    assert(tag_views(unmatched@).len() == unmatched@.len());
                    assert(spec_unmatched_tags(seeds@).len() > 0);
                    if forall|i: int|
                        0 <= i < tags@.len() ==> (#[trigger] tags@[i]).tag.begin && !(
                        tags@[i].tag.ast_kind is Stmt || tags@[i].tag.ast_kind is Stmts) {
                        lemma_no_span_tags_no_unmatched(tags@, seeds@);
                    }
                }
                return Err(ExtractError::UnmatchedBeginTag);
            }
            proof {
                assert forall|k: int|
                    0 <= k < seeds@.len() implies !is_self_paired(#[trigger] seeds@[k]) by {
                    if is_self_paired(seeds@[k]) {
                        reveal(Seq::filter);
                        seeds@.lemma_filter_contains(
                            |s: HayrollSeed| is_self_paired(s),
                            k,
                        );
                        let flt = seeds@.filter(|s: HayrollSeed| is_self_paired(s));
                        assert(flt.len() > 0);
                        assert(spec_unmatched_tags(seeds@).len() == flt.len());
                    }
                }
            }
            Ok(seeds)
        },
        Err(e) => Err(e),
    }
}

/// The begin markers of spans that never closed, for the repair pass.
pub fn extract_unmatched_hayroll_tags_from_syntax_roots(tags: &Vec<HayrollTag>) -> (r: Result<
    Vec<HayrollTag>,
    ExtractError,
>)
    ensures
        match r {
            Ok(unmatched) => exists|seeds: Seq<HayrollSeed>|
                (#[trigger] seed_first_tags(seeds)) == starters(tag_views(tags@))
                    && spec_pair_tags(tags@) == Ok::<Seq<HayrollSeedV>, ExtractError>(
                    seeds_view(seeds),
                ) && tag_views(unmatched@) == spec_unmatched_tags(seeds) && forall|k: int|
                    0 <= k < seeds.len() ==> seed_pairing_ok(#[trigger] seeds[k]),
            Err(e) => {
                &&& e != ExtractError::UnmatchedBeginTag
                &&& exists|i: int|
                    0 <= i < tags@.len() && !(#[trigger] tags@[i]).tag.begin && (
                    e is BeginFlagMissing ==> !(tags@[i].tag.ast_kind is Stmt
                        || tags@[i].tag.ast_kind is Stmts)) && (e is UnmatchedEndTag ==> (
                    tags@[i].tag.ast_kind is Stmt || tags@[i].tag.ast_kind is Stmts))
            },
        },
        (forall|i: int| 0 <= i < tags@.len() ==> (#[trigger] tags@[i]).tag.begin) ==> r is Ok,
{
    match extract_hayroll_seeds_from_syntax_roots_impl(tags) {
        Ok((seeds, unmatched)) => {
            proof {
                let s = seeds@;
                assert(seed_first_tags(s) == starters(tag_views(tags@)) && spec_pair_tags(tags@)
                    == Ok::<Seq<HayrollSeedV>, ExtractError>(seeds_view(s)) && tag_views(
                    unmatched@,
                ) == spec_unmatched_tags(s));
            }
            Ok(unmatched)
        },
        Err(e) => Err(e),
    }
}

} // verus!
