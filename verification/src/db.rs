//! The invocation database: call sites grouped into clusters keyed by
//! declaring location and type signature.
//!
//! The key map is an association list rather than a hash map: keys are
//! unique and clusters appear in the order their keys first occur, which
//! keeps synthesis deterministic.

use vstd::prelude::*;
use crate::inv::{
    HayrollMacroCluster, HayrollMacroInv, inv_sites_wf, inv_view, inv_views, spec_signature,
    spec_signature_defined,
};
use crate::text::clone_string;

verus! {

/// One cluster with its key.
pub struct MacroDbEntry {
    pub loc_ref: String,
    pub signature: String,
    pub cluster: HayrollMacroCluster,
}

/// The database of clusters, keyed by (declaring location, signature).
pub struct HayrollMacroDB {
    pub map: Vec<MacroDbEntry>,
}

/// An invocation's cluster key: its declaring reference and signature.
pub open spec fn inv_key(iv: HayrollMacroInv) -> (Seq<char>, Seq<char>) {
    (iv.seed.spec_first_tag().tag.loc_ref_begin, spec_signature(iv))
}

pub open spec fn entry_key(e: MacroDbEntry) -> (Seq<char>, Seq<char>) {
    (e.loc_ref@, e.signature@)
}

/// The invocations of `invs` bearing `key`, in order.
pub open spec fn group_of(invs: Seq<HayrollMacroInv>, key: (Seq<char>, Seq<char>)) -> Seq<
    HayrollMacroInv,
> {
    invs.filter(|iv: HayrollMacroInv| inv_key(iv) == key)
}

/// The database groups exactly: unique keys, and each entry's cluster
/// holds, in order, exactly the input invocations bearing its key.
pub open spec fn db_groups(db: HayrollMacroDB, invs: Seq<HayrollMacroInv>) -> bool {
    &&& forall|a: int, b: int|
        0 <= a < b < db.map@.len() ==> entry_key(#[trigger] db.map@[a]) != entry_key(
            #[trigger] db.map@[b],
        )
    &&& forall|e: int|
        0 <= e < db.map@.len() ==> inv_views(
            (#[trigger] db.map@[e]).cluster.invocations@,
        ) == inv_views(group_of(invs, entry_key(db.map@[e])))
    &&& forall|m: int|
        0 <= m < invs.len() ==> exists|e: int|
            0 <= e < db.map@.len() && entry_key(#[trigger] db.map@[e]) == inv_key(
                #[trigger] invs[m],
            )
    &&& forall|e: int|
        0 <= e < db.map@.len() ==> exists|m: int|
            0 <= m < invs.len() && inv_key(#[trigger] invs[m]) == entry_key(#[trigger] db.map@[e])
}

/// Appending one invocation extends exactly its own key's group.
proof fn lemma_group_push(invs: Seq<HayrollMacroInv>, x: HayrollMacroInv, key: (
    Seq<char>,
    Seq<char>,
))
    ensures
        inv_key(x) == key ==> group_of(invs.push(x), key) == group_of(invs, key).push(x),
        inv_key(x) != key ==> group_of(invs.push(x), key) == group_of(invs, key),
{
    reveal(Seq::filter);
    assert(invs.push(x).drop_last() =~= invs);
    assert(invs.push(x).last() == x);
}

/// A key borne by no invocation has an empty group.
proof fn lemma_group_absent(invs: Seq<HayrollMacroInv>, key: (Seq<char>, Seq<char>))
    requires
        forall|m: int| 0 <= m < invs.len() ==> inv_key(#[trigger] invs[m]) != key,
    ensures
        group_of(invs, key).len() == 0,
    decreases invs.len(),
{
    reveal(Seq::filter);
    if invs.len() > 0 {
        assert forall|m: int|
            0 <= m < invs.drop_last().len() implies inv_key(#[trigger] invs.drop_last()[m])
                != key by {
            assert(invs.drop_last()[m] == invs[m]);
        }
        lemma_group_absent(invs.drop_last(), key);
        assert(invs.last() == invs[invs.len() - 1]);
    }
}

pub fn clone_invs(v: &Vec<HayrollMacroInv>) -> (r: Vec<HayrollMacroInv>)
    ensures
        r@.len() == v@.len(),
        forall|j: int| 0 <= j < v@.len() ==> inv_view(#[trigger] r@[j]) == inv_view(v@[j]),
{
    let mut r: Vec<HayrollMacroInv> = Vec::new();
    let mut i: usize = 0;
    while i < v.len()
        invariant
            i <= v.len(),
            r@.len() == i,
            forall|j: int| 0 <= j < i ==> inv_view(#[trigger] r@[j]) == inv_view(v@[j]),
        decreases v.len() - i,
    {
        let d = v[i].duplicate();
        proof {
            lemma_duplicate_inv_view(v@[i as int], d);
        }
        r.push(d);
        i = i + 1;
    }
    r
}

/// A duplicated invocation has the same model.
proof fn lemma_duplicate_inv_view(a: HayrollMacroInv, b: HayrollMacroInv)
    requires
        b.seed@ == a.seed@,
        b.args@.len() == a.args@.len(),
        forall|si: int|
            0 <= si < a.args@.len() ==> (#[trigger] b.args@[si]).name@ == a.args@[si].name@
                && crate::seed::seeds_view(b.args@[si].seeds@) == crate::seed::seeds_view(
                a.args@[si].seeds@,
            ),
    ensures
        inv_view(b) == inv_view(a),
{
    let fa = crate::inv::args_view(a.args@);
    let fb = crate::inv::args_view(b.args@);
    assert forall|si: int| 0 <= si < fa.len() implies fb[si] == fa[si] by {
        assert(b.args@[si].name@ == a.args@[si].name@);
    }
    assert(fb =~= fa);
}

impl HayrollMacroDB {
    pub fn new() -> (r: Self)
        ensures
            r.map@.len() == 0,
    {
        HayrollMacroDB { map: Vec::new() }
    }

    /// Groups invocations by (declaring location, signature).
    #[verifier::rlimit(100)]
    pub fn from_hayroll_macro_invs(hayroll_macros: &Vec<HayrollMacroInv>) -> (r: Self)
        requires
            forall|m: int|
                0 <= m < hayroll_macros@.len() ==> inv_sites_wf(#[trigger] hayroll_macros@[m])
                    && spec_signature_defined(hayroll_macros@[m]),
        ensures
            db_groups(r, hayroll_macros@),
    {
        let mut db = HayrollMacroDB::new();
        let mut i: usize = 0;
        while i < hayroll_macros.len()
            invariant
                i <= hayroll_macros@.len(),
                forall|m: int|
                    0 <= m < hayroll_macros@.len() ==> inv_sites_wf(#[trigger] hayroll_macros@[m])
                        && spec_signature_defined(hayroll_macros@[m]),
                db_groups(db, hayroll_macros@.take(i as int)),
            decreases hayroll_macros.len() - i,
        {
            let mac = &hayroll_macros[i];
            let loc_decl = clone_string(&mac.seed.first_tag().tag.loc_ref_begin);
            let signature = mac.signature();
            let ghost key = (loc_decl@, signature@);
            proof {
                assert(key == inv_key(hayroll_macros@[i as int]));
            }
            // find the entry with this key, if one exists
            let mut e: usize = 0;
            let mut found = false;
            while e < db.map.len() && !found
                invariant
                    e <= db.map@.len(),
                    key == (loc_decl@, signature@),
                    found ==> e < db.map@.len() && entry_key(db.map@[e as int]) == key,
                    !found ==> forall|x: int|
                        0 <= x < e ==> entry_key(#[trigger] db.map@[x]) != key,
                decreases db.map@.len() - e + (if found { 0int } else { 1int }),
            {
                if db.map[e].loc_ref.eq(&loc_decl) && db.map[e].signature.eq(&signature) {
                    found = true;
                } else {
                    e = e + 1;
                }
            }
            let ghost pre = db.map@;
            let ghost taken = hayroll_macros@.take(i as int);
            let ghost taken1 = hayroll_macros@.take(i + 1);
            proof {
                assert(taken1 =~= taken.push(hayroll_macros@[i as int]));
            }
            if found {
                let old_entry = &db.map[e];
                let mut invocations = clone_invs(&old_entry.cluster.invocations);
                let dup = mac.duplicate();
                proof {
                    lemma_duplicate_inv_view(*mac, dup);
                }
                invocations.push(dup);
                let new_entry = MacroDbEntry {
                    loc_ref: clone_string(&old_entry.loc_ref),
                    signature: clone_string(&old_entry.signature),
                    cluster: HayrollMacroCluster { invocations },
                };
                db.map.set(e, new_entry);
                proof {
                    assert(db.map@.len() == pre.len());
                    assert(entry_key(db.map@[e as int]) == entry_key(pre[e as int]));
                    assert forall|a: int, b: int|
                        0 <= a < b < db.map@.len() implies entry_key(#[trigger] db.map@[a])
                            != entry_key(#[trigger] db.map@[b]) by {
                        assert(entry_key(db.map@[a]) == entry_key(pre[a]));
                        assert(entry_key(db.map@[b]) == entry_key(pre[b]));
                    }
                    assert forall|x: int|
                        0 <= x < db.map@.len() implies inv_views(
                            (#[trigger] db.map@[x]).cluster.invocations@,
                        ) == inv_views(group_of(taken1, entry_key(db.map@[x]))) by {
                        let k = entry_key(db.map@[x]);
                        lemma_group_push(taken, hayroll_macros@[i as int], k);
                        assert(entry_key(db.map@[x]) == entry_key(pre[x]));
                        if x == e {
                            assert(k == key);
                            assert(group_of(taken1, k) == group_of(taken, k).push(
                                hayroll_macros@[i as int],
                            ));
                            let oldinvs = pre[x].cluster.invocations@;
                            let newinvs = db.map@[x].cluster.invocations@;
                            let g = group_of(taken, k);
                            let g1 = group_of(taken1, k);
                            assert(inv_views(oldinvs) == inv_views(g));
                            assert(inv_views(oldinvs).len() == oldinvs.len());
                            assert(inv_views(g).len() == g.len());
                            assert(oldinvs.len() == g.len());
                            assert(newinvs.len() == oldinvs.len() + 1);
                            assert(g1.len() == g.len() + 1);
                            assert forall|j: int|
                                0 <= j < inv_views(newinvs).len() implies inv_views(newinvs)[j]
                                    == inv_views(g1)[j] by {
                                assert(inv_views(newinvs)[j] == inv_view(newinvs[j]));
                                assert(inv_views(g1)[j] == inv_view(g1[j]));
                                if j < newinvs.len() - 1 {
                                    assert(inv_views(oldinvs)[j] == inv_view(oldinvs[j]));
                                    assert(inv_view(newinvs[j]) == inv_view(oldinvs[j]));
                                    assert(inv_views(g)[j] == inv_view(g[j]));
                                    assert(g1[j] == g[j]);
                                } else {
                                    assert(inv_view(newinvs[j]) == inv_view(
                                        hayroll_macros@[i as int],
                                    ));
                                    assert(g1[j] == hayroll_macros@[i as int]);
                                }
                            }
                            assert(inv_views(newinvs) =~= inv_views(g1));
                        } else {
                            assert(db.map@[x] == pre[x]);
                            assert(k != key);
                            assert(group_of(taken1, k) == group_of(taken, k));
                        }
                    }
                    assert forall|m: int| 0 <= m < taken1.len() implies exists|x: int|
                        0 <= x < db.map@.len() && entry_key(#[trigger] db.map@[x]) == inv_key(
                            #[trigger] taken1[m],
                        ) by {
                        if m < taken.len() {
                            assert(taken1[m] == taken[m]);
                            let x = choose|x: int|
                                0 <= x < pre.len() && entry_key(#[trigger] pre[x]) == inv_key(
                                    taken[m],
                                );
                            assert(entry_key(db.map@[x]) == entry_key(pre[x]));
                        } else {
                            assert(taken1[m] == hayroll_macros@[i as int]);
                            assert(entry_key(db.map@[e as int]) == inv_key(taken1[m]));
                        }
                    }
                    assert forall|x: int| 0 <= x < db.map@.len() implies exists|m: int|
                        0 <= m < taken1.len() && inv_key(#[trigger] taken1[m]) == entry_key(
                            #[trigger] db.map@[x],
                        ) by {
                        let m = choose|m: int|
                            0 <= m < taken.len() && inv_key(#[trigger] taken[m]) == entry_key(
                                pre[x],
                            );
                        assert(taken1[m] == taken[m]);
                        assert(entry_key(db.map@[x]) == entry_key(pre[x]));
                    }
                }
            } else {
                let mut invocations: Vec<HayrollMacroInv> = Vec::new();
                let dup = mac.duplicate();
                proof {
                    lemma_duplicate_inv_view(*mac, dup);
                }
                invocations.push(dup);
                let new_entry = MacroDbEntry { loc_ref: loc_decl, signature, cluster:
                    HayrollMacroCluster { invocations } };
                db.map.push(new_entry);
                proof {
                    assert(entry_key(db.map@[pre.len() as int]) == key);
                    assert forall|a: int, b: int|
                        0 <= a < b < db.map@.len() implies entry_key(#[trigger] db.map@[a])
                            != entry_key(#[trigger] db.map@[b]) by {
                        if b == pre.len() {
                            assert(entry_key(db.map@[a]) == entry_key(pre[a]));
                            assert(entry_key(pre[a]) != key);
                        } else {
                            assert(entry_key(db.map@[a]) == entry_key(pre[a]));
                            assert(entry_key(db.map@[b]) == entry_key(pre[b]));
                        }
                    }
                    assert forall|x: int|
                        0 <= x < db.map@.len() implies inv_views(
                            (#[trigger] db.map@[x]).cluster.invocations@,
                        ) == inv_views(group_of(taken1, entry_key(db.map@[x]))) by {
                        let k = entry_key(db.map@[x]);
                        lemma_group_push(taken, hayroll_macros@[i as int], k);
                        if x < pre.len() {
                            assert(db.map@[x] == pre[x]);
                            assert(k != key);
                            assert(group_of(taken1, k) == group_of(taken, k));
                        } else {
                            assert(k == key);
                            assert forall|m: int|
                                0 <= m < taken.len() implies inv_key(#[trigger] taken[m])
                                    != key by {
                                if inv_key(taken[m]) == key {
                                    let y = choose|y: int|
                                        0 <= y < pre.len() && entry_key(#[trigger] pre[y])
                                            == inv_key(taken[m]);
                                    assert(entry_key(pre[y]) != key);
                                }
                            }
                            lemma_group_absent(taken, key);
                            assert(group_of(taken1, k) == group_of(taken, k).push(
                                hayroll_macros@[i as int],
                            ));
                            let newinvs = db.map@[x].cluster.invocations@;
                            assert(newinvs.len() == 1);
                            assert(inv_views(newinvs)[0] == inv_view(newinvs[0]));
                            assert(inv_view(newinvs[0]) == inv_view(hayroll_macros@[i as int]));
                            assert(inv_views(newinvs) =~= inv_views(group_of(taken1, k)));
                        }
                    }
                    assert forall|m: int| 0 <= m < taken1.len() implies exists|x: int|
                        0 <= x < db.map@.len() && entry_key(#[trigger] db.map@[x]) == inv_key(
                            #[trigger] taken1[m],
                        ) by {
                        if m < taken.len() {
                            assert(taken1[m] == taken[m]);
                            let x = choose|x: int|
                                0 <= x < pre.len() && entry_key(#[trigger] pre[x]) == inv_key(
                                    taken[m],
                                );
                            assert(entry_key(db.map@[x]) == entry_key(pre[x]));
                        } else {
                            assert(taken1[m] == hayroll_macros@[i as int]);
                            assert(entry_key(db.map@[pre.len() as int]) == inv_key(taken1[m]));
                        }
                    }
                    assert forall|x: int| 0 <= x < db.map@.len() implies exists|m: int|
                        0 <= m < taken1.len() && inv_key(#[trigger] taken1[m]) == entry_key(
                            #[trigger] db.map@[x],
                        ) by {
                        if x < pre.len() {
                            let m = choose|m: int|
                                0 <= m < taken.len() && inv_key(#[trigger] taken[m]) == entry_key(
                                    pre[x],
                                );
                            assert(taken1[m] == taken[m]);
                            assert(entry_key(db.map@[x]) == entry_key(pre[x]));
                        } else {
                            assert(taken1[taken.len() as int] == hayroll_macros@[i as int]);
                            assert(inv_key(taken1[taken.len() as int]) == entry_key(db.map@[x]));
                        }
                    }
                }
            }
            i = i + 1;
        }
        proof {
            assert(hayroll_macros@.take(hayroll_macros@.len() as int) =~= hayroll_macros@);
        }
        db
    }
}

} // verus!
