//! Macro invocations: call-site seeds with their bound argument seeds,
//! argument binding, and the compatibility analysis that decides whether a
//! cluster of call sites can become one construct.

use vstd::prelude::*;
use crate::seed::{HayrollSeed, HayrollSeedV, clone_seeds, seeds_view};
use crate::tag::{HayrollTag, HayrollTagV, HasHayrollTag};
use crate::text::clone_string;

verus! {

/// A fatal failure while binding argument seeds to their invocations.
#[derive(Clone, Copy, PartialEq, Eq, Structural, Debug)]
pub enum InvError {
    /// An argument seed referred to no invocation built so far.
    UnresolvedArgument,
    /// An argument seed named an argument its invocation never declared.
    UnknownArgumentName,
}

/// One argument slot of an invocation: the declared name and every seed
/// bound to it.  An empty slot is a declared argument the call site never
/// references.
pub struct MacroArg {
    pub name: String,
    pub seeds: Vec<HayrollSeed>,
}

impl MacroArg {
    pub fn duplicate(&self) -> (r: MacroArg)
        ensures
            r.name@ == self.name@,
            seeds_view(r.seeds@) == seeds_view(self.seeds@),
    {
        MacroArg { name: clone_string(&self.name), seeds: clone_seeds(&self.seeds) }
    }
}

/// A macro invocation: the call site's own seed plus one slot per declared
/// argument, in declaration order.
pub struct HayrollMacroInv {
    pub seed: HayrollSeed,
    pub args: Vec<MacroArg>,
}

impl HasHayrollTag for HayrollMacroInv {
    open spec fn spec_tag(&self) -> HayrollTagV {
        self.seed.spec_first_tag()
    }

    fn hayroll_tag(&self) -> (t: &HayrollTag) {
        self.seed.first_tag()
    }
}

/// An invocation-site seed that roots an invocation (not an argument).
pub open spec fn is_inv_root_seed(s: HayrollSeed) -> bool {
    s.spec_first_tag().tag.seed_type is Invocation && !s.spec_first_tag().tag.is_arg
}

/// An argument-occurrence seed.
pub open spec fn is_arg_seed(s: HayrollSeed) -> bool {
    s.spec_first_tag().tag.seed_type is Invocation && s.spec_first_tag().tag.is_arg
}

/// The first tag of a seed view.
pub open spec fn spec_first_tag_v(v: HayrollSeedV) -> HayrollTagV {
    match v {
        HayrollSeedV::Expr(t) => t,
        HayrollSeedV::Stmts(b, _) => b,
        HayrollSeedV::Decls(t) => t,
    }
}

/// An invocation-root seed, at the view level.
pub open spec fn is_inv_root_v(v: HayrollSeedV) -> bool {
    spec_first_tag_v(v).tag.seed_type is Invocation && !spec_first_tag_v(v).tag.is_arg
}

pub open spec fn inv_seed_views(invs: Seq<HayrollMacroInv>) -> Seq<HayrollSeedV> {
    invs.map_values(|iv: HayrollMacroInv| iv.seed@)
}

pub open spec fn root_seed_views(seeds: Seq<HayrollSeed>) -> Seq<HayrollSeedV> {
    seeds_view(seeds).filter(|v: HayrollSeedV| is_inv_root_v(v))
}

/// A seed bound into an argument slot must be an argument occurrence of
/// that name whose declaring reference matches the invocation's region
/// location.
pub open spec fn arg_seed_bound_ok(root: HayrollSeed, name: Seq<char>, s: HayrollSeed) -> bool {
    &&& s.spec_first_tag().tag.seed_type is Invocation
    &&& s.spec_first_tag().tag.is_arg
    &&& s.spec_first_tag().tag.name == name
    &&& s.spec_first_tag().tag.loc_ref_begin == root.spec_first_tag().tag.loc_begin
}

/// A well-formed invocation: one slot per declared argument name, in
/// order, and every bound seed belongs to its slot.
pub open spec fn inv_wf(inv: HayrollMacroInv) -> bool {
    &&& inv.args@.len() == inv.seed.spec_first_tag().tag.arg_names.len()
    &&& forall|si: int|
        0 <= si < inv.args@.len() ==> (#[trigger] inv.args@[si]).name@
            == inv.seed.spec_first_tag().tag.arg_names[si]
    &&& forall|si: int, k: int|
        0 <= si < inv.args@.len() && 0 <= k < inv.args@[si].seeds@.len() ==> arg_seed_bound_ok(
            inv.seed,
            inv.args@[si].name@,
            #[trigger] inv.args@[si].seeds@[k],
        )
}

impl HayrollMacroInv {
    pub fn duplicate(&self) -> (r: HayrollMacroInv)
        ensures
            r.seed@ == self.seed@,
            r.args@.len() == self.args@.len(),
            forall|si: int|
                0 <= si < self.args@.len() ==> (#[trigger] r.args@[si]).name@
                    == self.args@[si].name@ && seeds_view(r.args@[si].seeds@) == seeds_view(
                    self.args@[si].seeds@,
                ),
            inv_wf(*self) ==> inv_wf(r),
    {
        let mut args: Vec<MacroArg> = Vec::new();
        let mut si: usize = 0;
        while si < self.args.len()
            invariant
                si <= self.args.len(),
                args@.len() == si,
                forall|j: int|
                    0 <= j < si ==> (#[trigger] args@[j]).name@ == self.args@[j].name@
                        && seeds_view(args@[j].seeds@) == seeds_view(self.args@[j].seeds@),
            decreases self.args.len() - si,
        {
            args.push(self.args[si].duplicate());
            si = si + 1;
        }
        let r = HayrollMacroInv { seed: self.seed.duplicate(), args };
        proof {
            if inv_wf(*self) {
                assert forall|si2: int, k: int|
                    0 <= si2 < r.args@.len() && 0 <= k < r.args@[si2].seeds@.len()
                        implies arg_seed_bound_ok(
                        r.seed,
                        r.args@[si2].name@,
                        #[trigger] r.args@[si2].seeds@[k],
                    ) by {
                    assert(seeds_view(r.args@[si2].seeds@)[k] == seeds_view(
                        self.args@[si2].seeds@,
                    )[k]);
                    assert(r.args@[si2].seeds@[k]@ == self.args@[si2].seeds@[k]@);
                    let a = r.args@[si2].seeds@[k];
                    let b = self.args@[si2].seeds@[k];
                    assert(a.spec_first_tag() == b.spec_first_tag());
                    assert(arg_seed_bound_ok(
                        self.seed,
                        self.args@[si2].name@,
                        self.args@[si2].seeds@[k],
                    ));
                }
            }
        }
        r
    }
}


/// The argument slots a fresh invocation opens: one empty slot per
/// declared name, in order.
pub open spec fn spec_fresh_slots(names: Seq<Seq<char>>) -> Seq<(Seq<char>, Seq<HayrollSeedV>)> {
    names.map_values(|n: Seq<char>| (n, Seq::<HayrollSeedV>::empty()))
}

/// The most recently created invocation whose region location the
/// argument's declaring reference names, or -1.
pub open spec fn spec_find_root(
    acc: Seq<(HayrollSeedV, Seq<(Seq<char>, Seq<HayrollSeedV>)>)>,
    loc: Seq<char>,
) -> int
    decreases acc.len(),
{
    if acc.len() == 0 {
        -1
    } else if spec_first_tag_v(acc.last().0).tag.loc_begin == loc {
        acc.len() - 1
    } else {
        spec_find_root(acc.drop_last(), loc)
    }
}

/// The first slot bearing the name, scanning from `i`, or -1.
pub open spec fn spec_find_slot(
    args: Seq<(Seq<char>, Seq<HayrollSeedV>)>,
    name: Seq<char>,
    i: int,
) -> int
    decreases args.len() - i,
{
    if i < 0 || i >= args.len() {
        -1
    } else if args[i].0 == name {
        i
    } else {
        spec_find_slot(args, name, i + 1)
    }
}

/// One step of the binding fold: a non-invocation seed passes through; a
/// root seed opens an invocation with fresh slots; an argument seed is
/// appended to the named slot of the most recent matching root, fatally if
/// no root matches or the root never declared the name.
pub open spec fn spec_bind_step(
    acc: Seq<(HayrollSeedV, Seq<(Seq<char>, Seq<HayrollSeedV>)>)>,
    s: HayrollSeed,
) -> Result<Seq<(HayrollSeedV, Seq<(Seq<char>, Seq<HayrollSeedV>)>)>, InvError> {
    let tv = s.spec_first_tag();
    if !(tv.tag.seed_type is Invocation) {
        Ok(acc)
    } else if !tv.tag.is_arg {
        Ok(acc.push((s@, spec_fresh_slots(tv.tag.arg_names))))
    } else {
        let j = spec_find_root(acc, tv.tag.loc_ref_begin);
        if j < 0 {
            Err(InvError::UnresolvedArgument)
        } else {
            let si = spec_find_slot(acc[j].1, tv.tag.name, 0);
            if si < 0 {
                Err(InvError::UnknownArgumentName)
            } else {
                Ok(
                    acc.update(
                        j,
                        (
                            acc[j].0,
                            acc[j].1.update(si, (acc[j].1[si].0, acc[j].1[si].1.push(s@))),
                        ),
                    ),
                )
            }
        }
    }
}

/// The whole binding fold, seed by seed in stream order: the definitive
/// meaning of invocation extraction, consuming each argument seed exactly
/// once.
pub open spec fn spec_bind_invs(seeds: Seq<HayrollSeed>) -> Result<
    Seq<(HayrollSeedV, Seq<(Seq<char>, Seq<HayrollSeedV>)>)>,
    InvError,
>
    decreases seeds.len(),
{
    if seeds.len() == 0 {
        Ok(Seq::empty())
    } else {
        match spec_bind_invs(seeds.drop_last()) {
            Err(e) => Err(e),
            Ok(acc) => spec_bind_step(acc, seeds.last()),
        }
    }
}

/// A seed's first tag is read the same way on the view.
proof fn lemma_first_tag_view(s: HayrollSeed)
    ensures
        spec_first_tag_v(s@) == s.spec_first_tag(),
{
}

proof fn lemma_find_root_located(
    acc: Seq<(HayrollSeedV, Seq<(Seq<char>, Seq<HayrollSeedV>)>)>,
    loc: Seq<char>,
    j: int,
)
    requires
        0 <= j < acc.len(),
        spec_first_tag_v(acc[j].0).tag.loc_begin == loc,
        forall|k: int|
            j < k < acc.len() ==> spec_first_tag_v((#[trigger] acc[k]).0).tag.loc_begin != loc,
    ensures
        spec_find_root(acc, loc) == j,
    decreases acc.len(),
{
    if j < acc.len() - 1 {
        assert(acc.drop_last()[j] == acc[j]);
        assert forall|k: int|
            j < k < acc.drop_last().len() implies spec_first_tag_v(
            (#[trigger] acc.drop_last()[k]).0,
        ).tag.loc_begin != loc by {
            assert(acc.drop_last()[k] == acc[k]);
        }
        lemma_find_root_located(acc.drop_last(), loc, j);
    }
}

proof fn lemma_find_root_absent(
    acc: Seq<(HayrollSeedV, Seq<(Seq<char>, Seq<HayrollSeedV>)>)>,
    loc: Seq<char>,
)
    requires
        forall|k: int|
            0 <= k < acc.len() ==> spec_first_tag_v((#[trigger] acc[k]).0).tag.loc_begin != loc,
    ensures
        spec_find_root(acc, loc) == -1,
    decreases acc.len(),
{
    if acc.len() > 0 {
        assert forall|k: int|
            0 <= k < acc.drop_last().len() implies spec_first_tag_v(
            (#[trigger] acc.drop_last()[k]).0,
        ).tag.loc_begin != loc by {
            assert(acc.drop_last()[k] == acc[k]);
        }
        lemma_find_root_absent(acc.drop_last(), loc);
        assert(acc.last() == acc[acc.len() - 1]);
    }
}

proof fn lemma_find_slot_from(
    args: Seq<(Seq<char>, Seq<HayrollSeedV>)>,
    name: Seq<char>,
    i: int,
    si: int,
)
    requires
        0 <= i <= si < args.len(),
        args[si].0 == name,
        forall|m: int| i <= m < si ==> (#[trigger] args[m]).0 != name,
    ensures
        spec_find_slot(args, name, i) == si,
    decreases si - i,
{
    if i < si {
        lemma_find_slot_from(args, name, i + 1, si);
    }
}

proof fn lemma_find_slot_absent(args: Seq<(Seq<char>, Seq<HayrollSeedV>)>, name: Seq<char>, i: int)
    requires
        0 <= i,
        forall|m: int| i <= m < args.len() ==> (#[trigger] args[m]).0 != name,
    ensures
        spec_find_slot(args, name, i) == -1,
    decreases args.len() - i,
{
    if i < args.len() {
        lemma_find_slot_absent(args, name, i + 1);
    }
}

/// Once the binding fold fails, every longer prefix fails the same way.
proof fn lemma_bind_err_persists(seeds: Seq<HayrollSeed>, k: int, m: int, e: InvError)
    requires
        0 <= k <= m <= seeds.len(),
        spec_bind_invs(seeds.take(k)) == Err::<
            Seq<(HayrollSeedV, Seq<(Seq<char>, Seq<HayrollSeedV>)>)>,
            InvError,
        >(e),
    ensures
        spec_bind_invs(seeds.take(m)) == Err::<
            Seq<(HayrollSeedV, Seq<(Seq<char>, Seq<HayrollSeedV>)>)>,
            InvError,
        >(e),
    decreases m - k,
{
    if k < m {
        assert(seeds.take(k + 1).drop_last() =~= seeds.take(k));
        lemma_bind_err_persists(seeds, k + 1, m, e);
    }
}

/// Builds invocations from an ordered seed stream: a non-argument
/// invocation seed opens a new invocation with one empty slot per declared
/// argument; an argument seed binds to the most recent invocation whose
/// region location its declaring reference names, in the slot carrying its
/// name.
pub fn extract_hayroll_macro_invs_from_seeds(seeds: &Vec<HayrollSeed>) -> (r: Result<
    Vec<HayrollMacroInv>,
    InvError,
>)
    ensures
        match r {
            Ok(invs) => {
                &&& spec_bind_invs(seeds@) == Ok::<
                    Seq<(HayrollSeedV, Seq<(Seq<char>, Seq<HayrollSeedV>)>)>,
                    InvError,
                >(inv_views(invs@))
                &&& inv_seed_views(invs@) == root_seed_views(seeds@)
                &&& forall|k: int| 0 <= k < invs@.len() ==> inv_wf(#[trigger] invs@[k])
            },
            Err(e) => {
                &&& spec_bind_invs(seeds@) == Err::<
                    Seq<(HayrollSeedV, Seq<(Seq<char>, Seq<HayrollSeedV>)>)>,
                    InvError,
                >(e)
                &&& exists|i: int| 0 <= i < seeds@.len() && is_arg_seed(#[trigger] seeds@[i])
            },
        },
        (forall|i: int| 0 <= i < seeds@.len() ==> !is_arg_seed(#[trigger] seeds@[i])) ==> r is Ok,
{
    let mut acc: Vec<HayrollMacroInv> = Vec::new();
    let mut i: usize = 0;
    proof {
        assert(inv_views(acc@) =~= Seq::<
            (HayrollSeedV, Seq<(Seq<char>, Seq<HayrollSeedV>)>),
        >::empty());
        assert(spec_bind_invs(seeds@.take(0)) == Ok::<
            Seq<(HayrollSeedV, Seq<(Seq<char>, Seq<HayrollSeedV>)>)>,
            InvError,
        >(inv_views(acc@)));
    }
    while i < seeds.len()
        invariant
            i <= seeds.len(),
            inv_seed_views(acc@) == root_seed_views(seeds@.take(i as int)),
            forall|k: int| 0 <= k < acc@.len() ==> inv_wf(#[trigger] acc@[k]),
            spec_bind_invs(seeds@.take(i as int)) == Ok::<
                Seq<(HayrollSeedV, Seq<(Seq<char>, Seq<HayrollSeedV>)>)>,
                InvError,
            >(inv_views(acc@)),
        decreases seeds.len() - i,
    {
        let s = &seeds[i];
        let ft = s.first_tag();
        proof {
            reveal(Seq::filter);
            let sv_next = seeds_view(seeds@.take(i + 1));
            let sv_cur = seeds_view(seeds@.take(i as int));
            assert(sv_next.drop_last() =~= sv_cur);
            assert(sv_next.last() == seeds@[i as int]@);
            assert(seeds@.take(i + 1).drop_last() =~= seeds@.take(i as int));
            assert(seeds@.take(i + 1).last() == seeds@[i as int]);
            assert(*s == seeds@[i as int]);
        }
        if ft.tag.is_invocation() {
            if !ft.tag.is_arg {
                proof {
                    assert(is_inv_root_v(seeds@[i as int]@));
                }
                // a new invocation root with one empty slot per declared name
                let mut args: Vec<MacroArg> = Vec::new();
                let names = &ft.tag.arg_names;
                let mut ni: usize = 0;
                while ni < names.len()
                    invariant
                        ni <= names.len(),
                        args@.len() == ni,
                        forall|j: int|
                            0 <= j < ni ==> (#[trigger] args@[j]).name@ == names.deep_view()[j]
                                && args@[j].seeds@.len() == 0,
                    decreases names.len() - ni,
                {
                    args.push(MacroArg { name: clone_string(&names[ni]), seeds: Vec::new() });
                    ni = ni + 1;
                }
                let ghost pre = acc@;
                let inv = HayrollMacroInv { seed: s.duplicate(), args };
                assert(inv_wf(inv));
                acc.push(inv);
                proof {
                    reveal(Seq::filter);
                    let got = inv_seed_views(acc@);
                    let goal = root_seed_views(seeds@.take(i + 1));
                    assert forall|k: int| 0 <= k < got.len() implies got[k] == goal[k] by {
                        assert(got[k] == acc@[k].seed@);
                    }
                    assert(got =~= goal);
                    // the fold opens the same invocation
                    let sv = seeds@[i as int];
                    let fresh = spec_fresh_slots(sv.spec_first_tag().tag.arg_names);
                    assert(args_view(inv.args@) =~= fresh) by {
                        assert(args_view(inv.args@).len() == inv.args@.len());
                        assert forall|m: int|
                            0 <= m < inv.args@.len() implies args_view(inv.args@)[m]
                            == fresh[m] by {
                            assert(args_view(inv.args@)[m] == (
                                inv.args@[m].name@,
                                seeds_view(inv.args@[m].seeds@),
                            ));
                            assert(inv.args@[m].name@ == ft.tag.arg_names.deep_view()[m]);
                            assert(ft@ == sv.spec_first_tag());
                            assert(seeds_view(inv.args@[m].seeds@)
                                =~= Seq::<HayrollSeedV>::empty());
                        }
                    }
                    assert(spec_bind_step(inv_views(pre), sv) == Ok::<
                        Seq<(HayrollSeedV, Seq<(Seq<char>, Seq<HayrollSeedV>)>)>,
                        InvError,
                    >(inv_views(pre).push((sv@, fresh))));
                    assert forall|k: int|
                        0 <= k < inv_views(acc@).len() implies inv_views(acc@)[k] == inv_views(
                        pre,
                    ).push((sv@, fresh))[k] by {
                        assert(inv_views(acc@)[k] == inv_view(acc@[k]));
                        if k < pre.len() {
                            assert(acc@[k] == pre[k]);
                            assert(inv_views(pre)[k] == inv_view(pre[k]));
                        } else {
                            assert(inv_view(acc@[k]) == (inv.seed@, args_view(inv.args@)));
                        }
                    }
                    assert(inv_views(acc@) =~= inv_views(pre).push((sv@, fresh)));
                    assert(spec_bind_invs(seeds@.take(i + 1)) == Ok::<
                        Seq<(HayrollSeedV, Seq<(Seq<char>, Seq<HayrollSeedV>)>)>,
                        InvError,
                    >(inv_views(acc@)));
                }
            } else {
                proof {
                    assert(is_arg_seed(seeds@[i as int]));
                }
                // bind the argument occurrence to its invocation
                let mut j = acc.len();
                let mut found = false;
                while j > 0 && !found
                    invariant
                        j <= acc.len(),
                        i < seeds@.len(),
                        inv_seed_views(acc@) == root_seed_views(seeds@.take(i as int)),
                        forall|k: int| 0 <= k < acc@.len() ==> inv_wf(#[trigger] acc@[k]),
                        is_arg_seed(seeds@[i as int]),
                        *s == seeds@[i as int],
                        s@ == seeds@[i as int]@,
                        ft@ == s.spec_first_tag(),
                        !found ==> spec_bind_invs(seeds@.take(i as int)) == Ok::<
                            Seq<(HayrollSeedV, Seq<(Seq<char>, Seq<HayrollSeedV>)>)>,
                            InvError,
                        >(inv_views(acc@)),
                        !found ==> forall|k: int|
                            j <= k < acc@.len() ==> spec_first_tag_v(
                                (#[trigger] inv_views(acc@)[k]).0,
                            ).tag.loc_begin != s.spec_first_tag().tag.loc_ref_begin,
                        found ==> spec_bind_invs(seeds@.take(i + 1)) == Ok::<
                            Seq<(HayrollSeedV, Seq<(Seq<char>, Seq<HayrollSeedV>)>)>,
                            InvError,
                        >(inv_views(acc@)),
                    decreases j,
                {
                    j = j - 1;
                    let root_loc_matches = acc[j].seed.first_tag().tag.loc_begin.eq(
                        &ft.tag.loc_ref_begin,
                    );
                    proof {
                        lemma_first_tag_view(acc@[j as int].seed);
                        assert(inv_views(acc@)[j as int].0 == acc@[j as int].seed@);
                        assert(root_loc_matches == (spec_first_tag_v(
                            inv_views(acc@)[j as int].0,
                        ).tag.loc_begin == s.spec_first_tag().tag.loc_ref_begin));
                    }
                    if root_loc_matches {
                        let ghost pre = acc@;
                        // the slot must exist: find it by name
                        let mut si: usize = 0;
                        let mut slot: usize = 0;
                        let mut slot_found = false;
                        while si < acc[j].args.len()
                            invariant
                                j < acc@.len(),
                                i < seeds@.len(),
                                is_arg_seed(seeds@[i as int]),
                                si <= acc@[j as int].args@.len(),
                                slot_found ==> slot < si && acc@[j as int].args@[slot as int].name@
                                    == ft.tag.name@ && forall|m: int|
                                    0 <= m < slot ==> (
                                    #[trigger] acc@[j as int].args@[m]).name@ != ft.tag.name@,
                                !slot_found ==> forall|m: int|
                                    0 <= m < si ==> (#[trigger] acc@[j as int].args@[m]).name@
                                        != ft.tag.name@,
                                ft@ == s.spec_first_tag(),
                            decreases acc@[j as int].args@.len() - si,
                        {
                            if !slot_found && acc[j].args[si].name.eq(&ft.tag.name) {
                                slot = si;
                                slot_found = true;
                            }
                            si = si + 1;
                        }
                        proof {
                            let av = args_view(acc@[j as int].args@);
                            let nm = s.spec_first_tag().tag.name;
                            assert(av.len() == acc@[j as int].args@.len());
                            if slot_found {
                                assert forall|m: int|
                                    0 <= m < slot as int implies (#[trigger] av[m]).0 != nm by {
                                    assert(av[m].0 == acc@[j as int].args@[m].name@);
                                }
                                assert(av[slot as int].0 == nm);
                                lemma_find_slot_from(av, nm, 0, slot as int);
                            } else {
                                assert forall|m: int| 0 <= m < av.len() implies (
                                    #[trigger] av[m]).0 != nm by {
                                    assert(av[m].0 == acc@[j as int].args@[m].name@);
                                }
                                lemma_find_slot_absent(av, nm, 0);
                            }
                            // the fold looks at the same root
                            assert forall|k: int|
                                (j as int) < k < acc@.len() implies spec_first_tag_v(
                                (#[trigger] inv_views(acc@)[k]).0,
                            ).tag.loc_begin != s.spec_first_tag().tag.loc_ref_begin by {}
                            lemma_find_root_located(
                                inv_views(acc@),
                                s.spec_first_tag().tag.loc_ref_begin,
                                j as int,
                            );
                            assert(inv_views(acc@)[j as int].1 == args_view(
                                acc@[j as int].args@,
                            ));
                            assert(pre == acc@);
                            assert(spec_find_root(
                                inv_views(pre),
                                s.spec_first_tag().tag.loc_ref_begin,
                            ) == j as int);
                            if slot_found {
                                assert(spec_find_slot(
                                    args_view(pre[j as int].args@),
                                    s.spec_first_tag().tag.name,
                                    0,
                                ) == slot as int);
                            } else {
                                assert(spec_find_slot(
                                    args_view(pre[j as int].args@),
                                    s.spec_first_tag().tag.name,
                                    0,
                                ) == -1);
                            }
                        }
                        if !slot_found {
                            proof {
                                assert(spec_bind_step(inv_views(acc@), seeds@[i as int]) == Err::<
                                    Seq<(HayrollSeedV, Seq<(Seq<char>, Seq<HayrollSeedV>)>)>,
                                    InvError,
                                >(InvError::UnknownArgumentName));
                                assert(seeds@.take(i + 1).drop_last() =~= seeds@.take(i as int));
                                assert(seeds@.take(i + 1).last() == seeds@[i as int]);
                                assert(spec_bind_invs(seeds@.take(i + 1)) == Err::<
                                    Seq<(HayrollSeedV, Seq<(Seq<char>, Seq<HayrollSeedV>)>)>,
                                    InvError,
                                >(InvError::UnknownArgumentName));
                                lemma_bind_err_persists(
                                    seeds@,
                                    i + 1,
                                    seeds@.len() as int,
                                    InvError::UnknownArgumentName,
                                );
                                assert(seeds@.take(seeds@.len() as int) =~= seeds@);
                                assert(seeds@.take(seeds@.len() as int) == seeds@);
                            }
                            return Err(InvError::UnknownArgumentName);
                        }
                        // rebuild the invocation with the seed appended to its slot
                        let old_inv = &acc[j];
                        let mut new_inv = old_inv.duplicate();
                        let mut slot_seeds = clone_seeds(&old_inv.args[slot].seeds);
                        let ghost cl = slot_seeds@;
                        slot_seeds.push(s.duplicate());
                        let slot_arg = MacroArg {
                            name: clone_string(&old_inv.args[slot].name),
                            seeds: slot_seeds,
                        };
                        let ghost dupargs = new_inv.args@;
                        new_inv.args.set(slot, slot_arg);
                        proof {
                            assert(inv_wf(pre[j as int]));
                            let root = pre[j as int];
                            let rootslot = root.args@[slot as int].seeds@;
                            assert(new_inv.seed@ == root.seed@);
                            assert(new_inv.seed.spec_first_tag() == root.seed.spec_first_tag());
                            assert(seeds_view(cl).len() == cl.len());
                            assert(seeds_view(rootslot).len() == rootslot.len());
                            assert(cl.len() == rootslot.len());
                            assert forall|k: int| 0 <= k < cl.len() implies cl[k]@
                                == rootslot[k]@ by {
                                assert(seeds_view(cl)[k] == seeds_view(rootslot)[k]);
                            }
                            let ns = new_inv.args@[slot as int].seeds@;
                            assert(ns == cl.push(ns.last()));
                            assert(ns.last()@ == seeds@[i as int]@);
                            assert forall|si2: int, k: int|
                                0 <= si2 < new_inv.args@.len() && 0 <= k
                                    < new_inv.args@[si2].seeds@.len() implies arg_seed_bound_ok(
                                new_inv.seed,
                                new_inv.args@[si2].name@,
                                #[trigger] new_inv.args@[si2].seeds@[k],
                            ) by {
                                if si2 == slot as int {
                                    if k < ns.len() - 1 {
                                        assert(ns[k] == cl[k]);
                                        assert(cl[k]@ == rootslot[k]@);
                                        assert(arg_seed_bound_ok(
                                            root.seed,
                                            root.args@[si2].name@,
                                            root.args@[si2].seeds@[k],
                                        ));
                                        assert(ns[k].spec_first_tag() == rootslot[
                                            k
                                        ].spec_first_tag());
                                    } else {
                                        assert(ns[k]@ == seeds@[i as int]@);
                                        assert(ns[k].spec_first_tag() == s.spec_first_tag());
                                    }
                                } else {
                                    assert(new_inv.args@[si2] == dupargs[si2]);
                                    assert(seeds_view(dupargs[si2].seeds@) == seeds_view(
                                        root.args@[si2].seeds@,
                                    ));
                                    assert(seeds_view(dupargs[si2].seeds@).len()
                                        == dupargs[si2].seeds@.len());
                                    assert(seeds_view(root.args@[si2].seeds@).len()
                                        == root.args@[si2].seeds@.len());
                                    assert(seeds_view(dupargs[si2].seeds@)[k] == seeds_view(
                                        root.args@[si2].seeds@,
                                    )[k]);
                                    assert(new_inv.args@[si2].seeds@[k]@
                                        == root.args@[si2].seeds@[k]@);
                                    assert(arg_seed_bound_ok(
                                        root.seed,
                                        root.args@[si2].name@,
                                        root.args@[si2].seeds@[k],
                                    ));
                                }
                            }
                            assert(inv_wf(new_inv));
                        }
                        acc.set(j, new_inv);
                        found = true;
                        proof {
                            let got = inv_seed_views(acc@);
                            let prev = inv_seed_views(pre);
                            assert forall|k: int| 0 <= k < got.len() implies got[k] == prev[k] by {
                                assert(got[k] == acc@[k].seed@);
                                assert(prev[k] == pre[k].seed@);
                                if k != j {
                                    assert(acc@[k] == pre[k]);
                                }
                            }
                            assert(got =~= prev);
                            // the fold appends the same occurrence to the same slot
                            let pv = inv_views(pre);
                            let sv = seeds@[i as int];
                            let root2 = pre[j as int];
                            assert(pv[j as int] == inv_view(root2));
                            assert(pv[j as int].1 == args_view(root2.args@));
                            let updated_slot = (
                                pv[j as int].1[slot as int].0,
                                pv[j as int].1[slot as int].1.push(sv@),
                            );
                            let stepped = pv.update(
                                j as int,
                                (pv[j as int].0, pv[j as int].1.update(slot as int, updated_slot)),
                            );
                            assert(spec_bind_step(pv, sv) == Ok::<
                                Seq<(HayrollSeedV, Seq<(Seq<char>, Seq<HayrollSeedV>)>)>,
                                InvError,
                            >(stepped));
                            let ns2 = new_inv.args@[slot as int].seeds@;
                            assert(seeds_view(ns2) =~= pv[j as int].1[slot as int].1.push(sv@))
                                by {
                                let goalseq = pv[j as int].1[slot as int].1.push(sv@);
                                assert(pv[j as int].1[slot as int] == (
                                    root2.args@[slot as int].name@,
                                    seeds_view(root2.args@[slot as int].seeds@),
                                ));
                                assert forall|k: int|
                                    0 <= k < seeds_view(ns2).len() implies seeds_view(ns2)[k]
                                    == goalseq[k] by {
                                    assert(seeds_view(ns2)[k] == ns2[k]@);
                                    if k < ns2.len() - 1 {
                                        assert(ns2[k] == cl[k]);
                                        assert(cl[k]@ == root2.args@[slot as int].seeds@[k]@);
                                        assert(seeds_view(root2.args@[slot as int].seeds@)[k]
                                            == root2.args@[slot as int].seeds@[k]@);
                                    } else {
                                        assert(ns2[k]@ == sv@);
                                    }
                                }
                            }
                            assert(args_view(new_inv.args@) =~= pv[j as int].1.update(
                                slot as int,
                                updated_slot,
                            )) by {
                                let goalargs = pv[j as int].1.update(slot as int, updated_slot);
                                assert forall|m: int|
                                    0 <= m < args_view(new_inv.args@).len() implies args_view(
                                    new_inv.args@,
                                )[m] == goalargs[m] by {
                                    assert(args_view(new_inv.args@)[m] == (
                                        new_inv.args@[m].name@,
                                        seeds_view(new_inv.args@[m].seeds@),
                                    ));
                                    assert(args_view(root2.args@)[m] == (
                                        root2.args@[m].name@,
                                        seeds_view(root2.args@[m].seeds@),
                                    ));
                                    if m == slot as int {
                                        assert(new_inv.args@[m].name@
                                            == root2.args@[slot as int].name@);
                                        assert(seeds_view(new_inv.args@[m].seeds@) == pv[
                                            j as int
                                        ].1[slot as int].1.push(sv@));
                                    } else {
                                        assert(new_inv.args@[m] == dupargs[m]);
                                        assert(dupargs[m].name@ == root2.args@[m].name@);
                                        assert(seeds_view(dupargs[m].seeds@) == seeds_view(
                                            root2.args@[m].seeds@,
                                        ));
                                    }
                                }
                            }
                            assert(inv_view(new_inv) == (
                                pv[j as int].0,
                                pv[j as int].1.update(slot as int, updated_slot),
                            ));
                            assert forall|k: int|
                                0 <= k < inv_views(acc@).len() implies inv_views(acc@)[k]
                                == stepped[k] by {
                                assert(inv_views(acc@)[k] == inv_view(acc@[k]));
                                if k != j {
                                    assert(acc@[k] == pre[k]);
                                    assert(pv[k] == inv_view(pre[k]));
                                }
                            }
                            assert(inv_views(acc@) =~= stepped);
                            assert(seeds@.take(i + 1).drop_last() =~= seeds@.take(i as int));
                            assert(seeds@.take(i + 1).last() == seeds@[i as int]);
                            assert(spec_bind_invs(seeds@.take(i + 1)) == Ok::<
                                Seq<(HayrollSeedV, Seq<(Seq<char>, Seq<HayrollSeedV>)>)>,
                                InvError,
                            >(inv_views(acc@)));
                        }
                    }
                }
                if !found {
                    proof {
                        lemma_find_root_absent(
                            inv_views(acc@),
                            s.spec_first_tag().tag.loc_ref_begin,
                        );
                        assert(spec_bind_step(inv_views(acc@), seeds@[i as int]) == Err::<
                            Seq<(HayrollSeedV, Seq<(Seq<char>, Seq<HayrollSeedV>)>)>,
                            InvError,
                        >(InvError::UnresolvedArgument));
                        assert(seeds@.take(i + 1).drop_last() =~= seeds@.take(i as int));
                        assert(seeds@.take(i + 1).last() == seeds@[i as int]);
                        assert(spec_bind_invs(seeds@.take(i + 1)) == Err::<
                            Seq<(HayrollSeedV, Seq<(Seq<char>, Seq<HayrollSeedV>)>)>,
                            InvError,
                        >(InvError::UnresolvedArgument));
                        lemma_bind_err_persists(
                            seeds@,
                            i + 1,
                            seeds@.len() as int,
                            InvError::UnresolvedArgument,
                        );
                        assert(seeds@.take(seeds@.len() as int) =~= seeds@);
                        assert(seeds@.take(seeds@.len() as int) == seeds@);
                    }
                    return Err(InvError::UnresolvedArgument);
                }
                proof {
                    reveal(Seq::filter);
                    assert(root_seed_views(seeds@.take(i + 1)) =~= root_seed_views(
                        seeds@.take(i as int),
                    ));
                }
            }
        } else {
            proof {
                reveal(Seq::filter);
                assert(root_seed_views(seeds@.take(i + 1)) =~= root_seed_views(
                    seeds@.take(i as int),
                ));
                assert(spec_bind_step(inv_views(acc@), seeds@[i as int]) == Ok::<
                    Seq<(HayrollSeedV, Seq<(Seq<char>, Seq<HayrollSeedV>)>)>,
                    InvError,
                >(inv_views(acc@)));
            }
        }
        i = i + 1;
    }
    proof {
        assert(seeds@.take(seeds@.len() as int) =~= seeds@);
        assert(seeds@.take(seeds@.len() as int) == seeds@);
        assert(seeds_view(seeds@.take(seeds@.len() as int)) =~= seeds_view(seeds@));
    }
    Ok(acc)
}


/// Every seed of one slot is structurally compatible with the slot's first
/// seed; an empty slot is a wildcard.
pub open spec fn slot_internally_struct_compat(a: MacroArg) -> bool {
    forall|k: int|
        0 <= k < a.seeds@.len() ==> (#[trigger] a.seeds@[k]).spec_structurally_compatible(
            a.seeds@[0],
        )
}

/// Every seed of one slot is type compatible with the slot's first seed.
pub open spec fn slot_internally_type_compat(a: MacroArg) -> bool {
    forall|k: int|
        0 <= k < a.seeds@.len() ==> (#[trigger] a.seeds@[k]).spec_type_compatible(a.seeds@[0])
}

pub open spec fn spec_args_internally_struct_compat(inv: HayrollMacroInv) -> bool {
    forall|si: int|
        0 <= si < inv.args@.len() ==> slot_internally_struct_compat(#[trigger] inv.args@[si])
}

pub open spec fn spec_args_internally_type_compat(inv: HayrollMacroInv) -> bool {
    forall|si: int|
        0 <= si < inv.args@.len() ==> slot_internally_type_compat(#[trigger] inv.args@[si])
}

/// Slot-against-slot structural compatibility: both empty is compatible, a
/// lone empty slot is not, and otherwise the first seeds decide.
pub open spec fn slot_pair_struct_compat(x: MacroArg, y: MacroArg) -> bool {
    if x.seeds@.len() == 0 && y.seeds@.len() == 0 {
        true
    } else if (x.seeds@.len() == 0) != (y.seeds@.len() == 0) {
        false
    } else {
        x.seeds@[0].spec_structurally_compatible(y.seeds@[0])
    }
}

pub open spec fn slot_pair_type_compat(x: MacroArg, y: MacroArg) -> bool {
    if x.seeds@.len() == 0 && y.seeds@.len() == 0 {
        true
    } else if (x.seeds@.len() == 0) != (y.seeds@.len() == 0) {
        false
    } else {
        x.seeds@[0].spec_type_compatible(y.seeds@[0])
    }
}

/// Invocation-level structural compatibility: same body shape, internally
/// consistent argument slots on both sides, and slot-by-slot compatibility.
pub open spec fn spec_inv_struct_compat(a: HayrollMacroInv, b: HayrollMacroInv) -> bool {
    &&& a.seed.spec_structurally_compatible(b.seed)
    &&& spec_args_internally_struct_compat(a)
    &&& spec_args_internally_struct_compat(b)
    &&& a.args@.len() == b.args@.len()
    &&& forall|si: int|
        0 <= si < a.args@.len() ==> slot_pair_struct_compat(
            #[trigger] a.args@[si],
            b.args@[si],
        )
}

pub open spec fn spec_inv_type_compat(a: HayrollMacroInv, b: HayrollMacroInv) -> bool {
    &&& a.seed.spec_type_compatible(b.seed)
    &&& spec_args_internally_type_compat(a)
    &&& spec_args_internally_type_compat(b)
    &&& a.args@.len() == b.args@.len()
    &&& forall|si: int|
        0 <= si < a.args@.len() ==> slot_pair_type_compat(#[trigger] a.args@[si], b.args@[si])
}

/// All region sites an invocation refers to are well-formed, so the typed
/// operations on its seeds are defined.
pub open spec fn inv_sites_wf(inv: HayrollMacroInv) -> bool {
    &&& inv.seed.wf()
    &&& forall|si: int, k: int|
        0 <= si < inv.args@.len() && 0 <= k < inv.args@[si].seeds@.len() ==> (#[trigger] inv.args@[
            si
        ].seeds@[k]).wf()
}

/// Whether a slot's calling convention must pass an lvalue: it must when
/// the slot is empty or every bound occurrence is an lvalue.
pub open spec fn slot_requires_lvalue(a: MacroArg) -> bool {
    a.seeds@.len() == 0 || forall|k: int|
        0 <= k < a.seeds@.len() ==> (#[trigger] a.seeds@[k]).spec_first_tag().tag.is_lvalue
}

impl HayrollMacroInv {
    pub fn args_internally_structurally_compatible(&self) -> (r: bool)
        ensures
            r == spec_args_internally_struct_compat(*self),
    {
        let mut si: usize = 0;
        while si < self.args.len()
            invariant
                si <= self.args@.len(),
                forall|j: int|
                    0 <= j < si ==> slot_internally_struct_compat(#[trigger] self.args@[j]),
            decreases self.args@.len() - si,
        {
            let slot = &self.args[si];
            let mut k: usize = 0;
            while k < slot.seeds.len()
                invariant
                    si < self.args@.len(),
                    slot == self.args@[si as int],
                    k <= slot.seeds@.len(),
                    forall|m: int|
                        0 <= m < k ==> (#[trigger] slot.seeds@[m]).spec_structurally_compatible(
                            slot.seeds@[0],
                        ),
                decreases slot.seeds@.len() - k,
            {
                if !slot.seeds[k].is_structurally_compatible_with(&slot.seeds[0]) {
                    return false;
                }
                k = k + 1;
            }
            si = si + 1;
        }
        true
    }

    pub fn args_internally_type_compatible(&self) -> (r: bool)
        requires
            inv_sites_wf(*self),
        ensures
            r == spec_args_internally_type_compat(*self),
    {
        let mut si: usize = 0;
        while si < self.args.len()
            invariant
                inv_sites_wf(*self),
                si <= self.args@.len(),
                forall|j: int|
                    0 <= j < si ==> slot_internally_type_compat(#[trigger] self.args@[j]),
            decreases self.args@.len() - si,
        {
            let slot = &self.args[si];
            let mut k: usize = 0;
            while k < slot.seeds.len()
                invariant
                    inv_sites_wf(*self),
                    si < self.args@.len(),
                    slot == self.args@[si as int],
                    k <= slot.seeds@.len(),
                    forall|m: int|
                        0 <= m < k ==> (#[trigger] slot.seeds@[m]).spec_type_compatible(
                            slot.seeds@[0],
                        ),
                decreases slot.seeds@.len() - k,
            {
                if !slot.seeds[k].is_type_compatible_with(&slot.seeds[0]) {
                    return false;
                }
                k = k + 1;
            }
            si = si + 1;
        }
        true
    }

    pub fn is_structurally_compatible_with(&self, other: &Self) -> (r: bool)
        ensures
            r == spec_inv_struct_compat(*self, *other),
    {
        if !self.seed.is_structurally_compatible_with(&other.seed) {
            return false;
        }
        if !self.args_internally_structurally_compatible() {
            return false;
        }
        if !other.args_internally_structurally_compatible() {
            return false;
        }
        if self.args.len() != other.args.len() {
            return false;
        }
        let mut si: usize = 0;
        while si < self.args.len()
            invariant
                si <= self.args@.len(),
                self.args@.len() == other.args@.len(),
                spec_args_internally_struct_compat(*self),
                spec_args_internally_struct_compat(*other),
                self.seed.spec_structurally_compatible(other.seed),
                forall|j: int|
                    0 <= j < si ==> slot_pair_struct_compat(
                        #[trigger] self.args@[j],
                        other.args@[j],
                    ),
            decreases self.args@.len() - si,
        {
            let x = &self.args[si];
            let y = &other.args[si];
            let xe = x.seeds.len() == 0;
            let ye = y.seeds.len() == 0;
            if xe && ye {
                // both unused: wildcard
            } else if xe != ye {
                return false;
            } else {
                if !x.seeds[0].is_structurally_compatible_with(&y.seeds[0]) {
                    return false;
                }
            }
            si = si + 1;
        }
        true
    }

    pub fn is_type_compatible_with(&self, other: &Self) -> (r: bool)
        requires
            inv_sites_wf(*self),
            inv_sites_wf(*other),
        ensures
            r == spec_inv_type_compat(*self, *other),
    {
        if !self.seed.is_type_compatible_with(&other.seed) {
            return false;
        }
        if !self.args_internally_type_compatible() {
            return false;
        }
        if !other.args_internally_type_compatible() {
            return false;
        }
        if self.args.len() != other.args.len() {
            return false;
        }
        let mut si: usize = 0;
        while si < self.args.len()
            invariant
                inv_sites_wf(*self),
                inv_sites_wf(*other),
                si <= self.args@.len(),
                self.args@.len() == other.args@.len(),
                spec_args_internally_type_compat(*self),
                spec_args_internally_type_compat(*other),
                self.seed.spec_type_compatible(other.seed),
                forall|j: int|
                    0 <= j < si ==> slot_pair_type_compat(#[trigger] self.args@[j], other.args@[j]),
            decreases self.args@.len() - si,
        {
            let x = &self.args[si];
            let y = &other.args[si];
            let xe = x.seeds.len() == 0;
            let ye = y.seeds.len() == 0;
            if xe && ye {
                // both unused: wildcard
            } else if xe != ye {
                return false;
            } else {
                if !x.seeds[0].is_type_compatible_with(&y.seeds[0]) {
                    return false;
                }
            }
            si = si + 1;
        }
        true
    }

    /// The per-slot calling convention: pass by pointer exactly when the
    /// slot is empty or every bound occurrence is an lvalue.
    pub fn args_require_lvalue(&self) -> (r: Vec<bool>)
        ensures
            r@.len() == self.args@.len(),
            forall|si: int|
                0 <= si < self.args@.len() ==> r@[si] == slot_requires_lvalue(
                    #[trigger] self.args@[si],
                ),
    {
        let mut r: Vec<bool> = Vec::new();
        let mut si: usize = 0;
        while si < self.args.len()
            invariant
                si <= self.args@.len(),
                r@.len() == si,
                forall|j: int|
                    0 <= j < si ==> r@[j] == slot_requires_lvalue(#[trigger] self.args@[j]),
            decreases self.args@.len() - si,
        {
            let slot = &self.args[si];
            let mut all_lvalue = true;
            let mut k: usize = 0;
            while k < slot.seeds.len()
                invariant
                    k <= slot.seeds@.len(),
                    all_lvalue == (forall|m: int|
                        0 <= m < k ==> (#[trigger] slot.seeds@[m]).spec_first_tag().tag.is_lvalue),
                decreases slot.seeds@.len() - k,
            {
                if !slot.seeds[k].first_tag().tag.is_lvalue {
                    all_lvalue = false;
                }
                k = k + 1;
            }
            r.push(slot.seeds.len() == 0 || all_lvalue);
            si = si + 1;
        }
        r
    }
}


/// An identifier character: ASCII alphanumeric or underscore.
pub open spec fn spec_is_ident_char(c: char) -> bool {
    ||| 'a' as int <= c as int <= 'z' as int
    ||| 'A' as int <= c as int <= 'Z' as int
    ||| '0' as int <= c as int <= '9' as int
    ||| c == '_'
}

/// The start of the path segment after the last `::` before position `i`.
pub open spec fn spec_seg_start(s: Seq<char>, i: int) -> int
    decreases i,
{
    if i < 2 {
        0
    } else if s[i - 1] == ':' && s[i - 2] == ':' {
        i
    } else {
        spec_seg_start(s, i - 1)
    }
}

/// A type text reduced to an identifier fragment: the last path segment,
/// keeping only identifier characters.
pub open spec fn spec_sanitize(s: Seq<char>) -> Seq<char> {
    s.skip(spec_seg_start(s, s.len() as int)).filter(|c: char| spec_is_ident_char(c))
}

/// Sanitizes a raw type text for use inside a synthesized name.
pub fn sanitize_type_text(s: &String) -> (r: String)
    ensures
        r@ == spec_sanitize(s@),
{
    let n = s.as_str().unicode_len();
    let mut p: usize = n;
    while p >= 2 && !(s.as_str().get_char(p - 1) == ':' && s.as_str().get_char(p - 2) == ':')
        invariant
            0 <= p <= n,
            n == s@.len(),
            spec_seg_start(s@, n as int) == spec_seg_start(s@, p as int),
        decreases p,
    {
        p = p - 1;
    }
    if p < 2 {
        proof {
            assert(spec_seg_start(s@, p as int) == 0);
        }
        p = 0;
    }
    proof {
        if p >= 2 {
            assert(spec_seg_start(s@, p as int) == p as int);
        }
        assert(spec_seg_start(s@, n as int) == p as int);
    }
    let mut acc = String::new();
    let mut i: usize = p;
    let ghost tail = s@.skip(p as int);
    let ghost pred = |c: char| spec_is_ident_char(c);
    while i < n
        invariant
            p <= i <= n,
            n == s@.len(),
            tail == s@.skip(p as int),
            pred == (|c: char| spec_is_ident_char(c)),
            acc@ == tail.take(i - p).filter(pred),
        decreases n - i,
    {
        let c = s.as_str().get_char(i);
        let cu = c as u32;
        let is_ident = (cu >= 97 && cu <= 122) || (cu >= 65 && cu <= 90) || (cu >= 48 && cu <= 57)
            || cu == 95;
        proof {
            reveal(Seq::filter);
            assert(tail.take(i - p + 1).drop_last() =~= tail.take(i - p));
            assert(tail.take(i - p + 1).last() == s@[i as int]);
            assert(is_ident == pred(s@[i as int]));
        }
        if is_ident {
            crate::text::push_char(&mut acc, c);
        }
        i = i + 1;
    }
    proof {
        assert(tail.take(n - p) =~= tail);
    }
    acc
}

/// Whether some occurrence bound to the slot is statement shaped.
pub open spec fn slot_has_stmt(a: MacroArg) -> bool {
    exists|k: int|
        0 <= k < a.seeds@.len() && (#[trigger] a.seeds@[k]).spec_first_tag().tag.ast_kind is Stmt
}

/// The base type text an expression seed's guard documents.
pub open spec fn spec_seed_base_type(s: HayrollSeed) -> Seq<char> {
    match s {
        HayrollSeed::Expr(t) => match t.site {
            crate::region::TagSite::Expr(site) => site.base_type_text@,
            _ => Seq::empty(),
        },
        _ => Seq::empty(),
    }
}

/// The signature fragment one argument slot contributes: the statement
/// marker when any bound occurrence is statement shaped, else the slot's
/// first occurrence's sanitized base type.
pub open spec fn spec_arg_sig_part(a: MacroArg) -> Seq<char> {
    if slot_has_stmt(a) {
        "stmt"@
    } else if a.seeds@.len() == 0 {
        Seq::empty()
    } else {
        spec_sanitize(spec_seed_base_type(a.seeds@[0]))
    }
}

/// The inputs the signature computation reads must exist: no empty slots,
/// and expression shapes must carry their guard sites.
pub open spec fn spec_signature_defined(inv: HayrollMacroInv) -> bool {
    &&& (inv.seed.spec_first_tag().tag.ast_kind is Expr ==> inv.seed is Expr)
    &&& forall|si: int|
        0 <= si < inv.args@.len() ==> ((#[trigger] inv.args@[si]).seeds@.len() > 0
            && !slot_has_stmt(inv.args@[si]) ==> inv.args@[si].seeds@[0] is Expr)
}

/// The type-mangled signature of an invocation: empty for declaration
/// shapes; otherwise the sanitized base type of the invocation's own value
/// (for expression shapes) followed by one fragment per argument slot, all
/// joined by underscores.
pub open spec fn spec_signature(inv: HayrollMacroInv) -> Seq<char> {
    let kind = inv.seed.spec_first_tag().tag.ast_kind;
    if kind is Decl || kind is Decls {
        Seq::empty()
    } else {
        let argparts = inv.args@.map_values(|a: MacroArg| spec_arg_sig_part(a));
        let parts = if kind is Expr {
            seq![spec_sanitize(spec_seed_base_type(inv.seed))] + argparts
        } else {
            argparts
        };
        crate::text::spec_join(parts, seq!['_'])
    }
}

/// The synthesized construct's name: the macro name, suffixed by the
/// signature when there is one.
pub open spec fn spec_name_with_signature(inv: HayrollMacroInv) -> Seq<char> {
    if spec_signature(inv).len() == 0 {
        inv.seed.spec_first_tag().tag.name
    } else {
        inv.seed.spec_first_tag().tag.name.push('_') + spec_signature(inv)
    }
}

impl HayrollMacroInv {
    /// The type-mangled signature used to key clusters and disambiguate
    /// overloads.
    pub fn signature(&self) -> (r: String)
        requires
            inv_sites_wf(*self),
            spec_signature_defined(*self),
        ensures
            r@ == spec_signature(*self),
    {
        let ft = self.seed.first_tag();
        if ft.tag.is_decl() || ft.tag.is_decls() {
            return String::new();
        }
        let mut parts: Vec<String> = Vec::new();
        if ft.tag.is_expr() {
            let base = match self.seed.base_type() {
                Some(t) => t,
                None => unreached(),
            };
            parts.push(sanitize_type_text(&base));
            proof {
                assert(parts@[0]@ == spec_sanitize(spec_seed_base_type(self.seed)));
            }
        }
        let ghost head: Seq<Seq<char>> = parts.deep_view();
        let mut si: usize = 0;
        while si < self.args.len()
            invariant
                si <= self.args@.len(),
                inv_sites_wf(*self),
                spec_signature_defined(*self),
                parts.deep_view() == head + self.args@.take(si as int).map_values(
                    |a: MacroArg| spec_arg_sig_part(a),
                ),
            decreases self.args@.len() - si,
        {
            let slot = &self.args[si];
            let mut any_stmt = false;
            let mut k: usize = 0;
            while k < slot.seeds.len()
                invariant
                    k <= slot.seeds@.len(),
                    any_stmt == (exists|m: int|
                        0 <= m < k && (#[trigger] slot.seeds@[m]).spec_first_tag().tag.ast_kind
                            is Stmt),
                decreases slot.seeds@.len() - k,
            {
                if slot.seeds[k].first_tag().tag.is_stmt() {
                    any_stmt = true;
                }
                k = k + 1;
            }
            proof {
                assert(any_stmt == slot_has_stmt(self.args@[si as int]));
            }
            let part = if any_stmt {
                String::from_str("stmt")
            } else if slot.seeds.len() == 0 {
                String::new()
            } else {
                let first = &slot.seeds[0];
                let base = match first.base_type() {
                    Some(t) => t,
                    None => unreached(),
                };
                sanitize_type_text(&base)
            };
            proof {
                assert(part@ == spec_arg_sig_part(self.args@[si as int]));
            }
            let ghost dvold = parts.deep_view();
            parts.push(part);
            proof {
                let f = |a: MacroArg| spec_arg_sig_part(a);
                let dv = parts.deep_view();
                let goal = head + self.args@.take(si + 1).map_values(f);
                let prevgoal = head + self.args@.take(si as int).map_values(f);
                assert(dv.len() == parts@.len());
                assert(dvold.len() == prevgoal.len());
                assert forall|j: int| 0 <= j < dv.len() implies dv[j] == goal[j] by {
                    assert(dv[j] == parts@[j]@);
                    if j < head.len() {
                        assert(goal[j] == head[j]);
                        assert(dvold[j] == prevgoal[j]);
                        assert(prevgoal[j] == head[j]);
                    } else {
                        let jj = j - head.len();
                        assert(goal[j] == self.args@.take(si + 1).map_values(f)[jj]);
                        assert(self.args@.take(si + 1).map_values(f)[jj] == f(
                            self.args@.take(si + 1)[jj],
                        ));
                        assert(self.args@.take(si + 1)[jj] == self.args@[jj]);
                        if jj < si {
                            assert(dvold[j] == prevgoal[j]);
                            assert(prevgoal[j] == self.args@.take(si as int).map_values(f)[jj]);
                            assert(self.args@.take(si as int).map_values(f)[jj] == f(
                                self.args@.take(si as int)[jj],
                            ));
                        } else {
                            assert(parts@[j]@ == part@);
                        }
                    }
                }
                assert(dv =~= goal);
            }
            si = si + 1;
        }
        proof {
            assert(self.args@.take(self.args@.len() as int) =~= self.args@);
            let f = |a: MacroArg| spec_arg_sig_part(a);
            let argparts = self.args@.map_values(f);
            let kind = self.seed.spec_first_tag().tag.ast_kind;
            if kind is Expr {
                assert(head =~= seq![spec_sanitize(spec_seed_base_type(self.seed))]);
                assert(head + argparts =~= seq![
                    spec_sanitize(spec_seed_base_type(self.seed)),
                ] + argparts);
            } else {
                assert(head =~= Seq::<Seq<char>>::empty());
                assert(head + argparts =~= argparts);
            }
            reveal_strlit("_");
            assert("_"@ =~= seq!['_']);
        }
        crate::text::join_with(&parts, "_")
    }

    /// The macro name, suffixed by the signature when there is one.
    pub fn name_with_signature(&self) -> (r: String)
        requires
            inv_sites_wf(*self),
            spec_signature_defined(*self),
        ensures
            r@ == spec_name_with_signature(*self),
    {
        let sig = self.signature();
        let mut r = clone_string(&self.seed.first_tag().tag.name);
        if sig.as_str().unicode_len() > 0 {
            crate::text::push_char(&mut r, '_');
            r.append(sig.as_str());
        }
        r
    }
}


/// The invocation's "model": what identifies it up to duplication.
pub open spec fn args_view(args: Seq<MacroArg>) -> Seq<(Seq<char>, Seq<HayrollSeedV>)> {
    args.map_values(|a: MacroArg| (a.name@, seeds_view(a.seeds@)))
}

pub open spec fn inv_view(iv: HayrollMacroInv) -> (HayrollSeedV, Seq<(Seq<char>, Seq<HayrollSeedV>)>) {
    (iv.seed@, args_view(iv.args@))
}

pub open spec fn inv_views(s: Seq<HayrollMacroInv>) -> Seq<(HayrollSeedV, Seq<(Seq<char>, Seq<HayrollSeedV>)>)> {
    s.map_values(|iv: HayrollMacroInv| inv_view(iv))
}

/// A cluster: every invocation believed to come from one macro declaration
/// under one argument-type instantiation.
pub struct HayrollMacroCluster {
    pub invocations: Vec<HayrollMacroInv>,
}

/// A cluster holds at least one invocation.
pub open spec fn cluster_wf(c: HayrollMacroCluster) -> bool {
    c.invocations@.len() > 0
}

pub open spec fn cluster_sites_wf(c: HayrollMacroCluster) -> bool {
    forall|v: int|
        0 <= v < c.invocations@.len() ==> inv_sites_wf(#[trigger] c.invocations@[v])
}

/// Cluster-wide structural compatibility: every invocation against the
/// first.
pub open spec fn spec_invs_internally_struct_compat(c: HayrollMacroCluster) -> bool {
    forall|v: int|
        0 <= v < c.invocations@.len() ==> spec_inv_struct_compat(
            #[trigger] c.invocations@[v],
            c.invocations@[0],
        )
}

pub open spec fn spec_invs_internally_type_compat(c: HayrollMacroCluster) -> bool {
    forall|v: int|
        0 <= v < c.invocations@.len() ==> spec_inv_type_compat(
            #[trigger] c.invocations@[v],
            c.invocations@[0],
        )
}

/// A cluster can become a plain callable exactly when it is type
/// compatible throughout and every invocation carries the translator's
/// callable hint.
pub open spec fn spec_can_be_fn(c: HayrollMacroCluster) -> bool {
    &&& spec_invs_internally_type_compat(c)
    &&& forall|v: int|
        0 <= v < c.invocations@.len() ==> (#[trigger] c.invocations@[v]).seed.spec_first_tag(
        ).tag.can_be_fn
}

impl HayrollMacroCluster {
    /// The tag of the cluster's first invocation stands for the cluster.
    pub fn hayroll_tag(&self) -> (t: &HayrollTag)
        requires
            cluster_wf(*self),
        ensures
            t@ == self.invocations@[0].seed.spec_first_tag(),
    {
        self.invocations[0].seed.first_tag()
    }

    pub fn invs_internally_structurally_compatible(&self) -> (r: bool)
        requires
            cluster_wf(*self),
        ensures
            r == spec_invs_internally_struct_compat(*self),
    {
        let mut v: usize = 0;
        while v < self.invocations.len()
            invariant
                v <= self.invocations@.len(),
                self.invocations@.len() > 0,
                forall|m: int|
                    0 <= m < v ==> spec_inv_struct_compat(
                        #[trigger] self.invocations@[m],
                        self.invocations@[0],
                    ),
            decreases self.invocations@.len() - v,
        {
            if !self.invocations[v].is_structurally_compatible_with(&self.invocations[0]) {
                return false;
            }
            v = v + 1;
        }
        true
    }

    pub fn invs_internally_type_compatible(&self) -> (r: bool)
        requires
            cluster_wf(*self),
            cluster_sites_wf(*self),
        ensures
            r == spec_invs_internally_type_compat(*self),
    {
        let mut v: usize = 0;
        while v < self.invocations.len()
            invariant
                v <= self.invocations@.len(),
                self.invocations@.len() > 0,
                cluster_sites_wf(*self),
                forall|m: int|
                    0 <= m < v ==> spec_inv_type_compat(
                        #[trigger] self.invocations@[m],
                        self.invocations@[0],
                    ),
            decreases self.invocations@.len() - v,
        {
            if !self.invocations[v].is_type_compatible_with(&self.invocations[0]) {
                return false;
            }
            v = v + 1;
        }
        true
    }

    pub fn can_be_fn(&self) -> (r: bool)
        requires
            cluster_wf(*self),
            cluster_sites_wf(*self),
        ensures
            r == spec_can_be_fn(*self),
    {
        if !self.invs_internally_type_compatible() {
            return false;
        }
        let mut v: usize = 0;
        while v < self.invocations.len()
            invariant
                v <= self.invocations@.len(),
                self.invocations@.len() > 0,
                spec_invs_internally_type_compat(*self),
                forall|m: int|
                    0 <= m < v ==> (#[trigger] self.invocations@[m]).seed.spec_first_tag(
                    ).tag.can_be_fn,
            decreases self.invocations@.len() - v,
        {
            if !self.invocations[v].seed.first_tag().tag.can_be_fn {
                return false;
            }
            v = v + 1;
        }
        true
    }

    /// The cluster-wide calling convention: a slot passes an lvalue only
    /// when every invocation's own convention does.
    pub fn args_require_lvalue(&self) -> (r: Vec<bool>)
        requires
            cluster_wf(*self),
            forall|v: int|
                0 <= v < self.invocations@.len() ==> (#[trigger] self.invocations@[v]).args@.len()
                    == self.invocations@[0].args@.len(),
        ensures
            r@.len() == self.invocations@[0].args@.len(),
            forall|si: int|
                0 <= si < r@.len() ==> r@[si] == (forall|v: int|
                    0 <= v < self.invocations@.len() ==> slot_requires_lvalue(
                        (#[trigger] self.invocations@[v]).args@[si],
                    )),
    {
        let n = self.invocations[0].args.len();
        let mut r: Vec<bool> = Vec::new();
        let mut si: usize = 0;
        while si < n
            invariant
                si <= n,
                n == self.invocations@[0].args@.len(),
                self.invocations@.len() > 0,
                forall|v: int|
                    0 <= v < self.invocations@.len()
                        ==> (#[trigger] self.invocations@[v]).args@.len() == n,
                r@.len() == si,
                forall|j: int|
                    0 <= j < si ==> r@[j] == (forall|v: int|
                        0 <= v < self.invocations@.len() ==> slot_requires_lvalue(
                            (#[trigger] self.invocations@[v]).args@[j],
                        )),
            decreases n - si,
        {
            let mut all = true;
            let mut v: usize = 0;
            while v < self.invocations.len()
                invariant
                    v <= self.invocations@.len(),
                    si < n,
                    forall|w: int|
                        0 <= w < self.invocations@.len()
                            ==> (#[trigger] self.invocations@[w]).args@.len() == n,
                    all == (forall|w: int|
                        0 <= w < v ==> slot_requires_lvalue(
                            (#[trigger] self.invocations@[w]).args@[si as int],
                        )),
                decreases self.invocations@.len() - v,
            {
                let inv = &self.invocations[v];
                let slot = &inv.args[si];
                let mut all_lvalue = true;
                let mut k: usize = 0;
                while k < slot.seeds.len()
                    invariant
                        k <= slot.seeds@.len(),
                        all_lvalue == (forall|m: int|
                            0 <= m < k ==> (
                            #[trigger] slot.seeds@[m]).spec_first_tag().tag.is_lvalue),
                    decreases slot.seeds@.len() - k,
                {
                    if !slot.seeds[k].first_tag().tag.is_lvalue {
                        all_lvalue = false;
                    }
                    k = k + 1;
                }
                let this_req = slot.seeds.len() == 0 || all_lvalue;
                proof {
                    assert(this_req == slot_requires_lvalue(
                        self.invocations@[v as int].args@[si as int],
                    ));
                }
                if !this_req {
                    all = false;
                }
                v = v + 1;
            }
            r.push(all);
            si = si + 1;
        }
        r
    }
}

} // verus!
