//! The library's stated laws, proved once and for all over the
//! compatibility lattice.

use vstd::prelude::*;
use crate::inv::{
    HayrollMacroCluster, HayrollMacroInv, slot_pair_struct_compat, slot_pair_type_compat,
    slot_internally_struct_compat, slot_internally_type_compat, spec_args_internally_struct_compat,
    spec_args_internally_type_compat, spec_inv_struct_compat, spec_inv_type_compat,
    spec_invs_internally_struct_compat, spec_invs_internally_type_compat,
};
use crate::seed::HayrollSeed;

verus! {

/// Type compatibility refines structural compatibility, seed by seed.
pub proof fn lemma_seed_type_compat_refines_struct(a: HayrollSeed, b: HayrollSeed)
    requires
        a.spec_type_compatible(b),
    ensures
        a.spec_structurally_compatible(b),
{
}

/// Two expression seeds carrying the same textual base type are type
/// compatible: identical argument type signatures make call sites
/// reconcilable.
pub proof fn lemma_equal_base_types_compatible(a: HayrollSeed, b: HayrollSeed)
    requires
        a matches HayrollSeed::Expr(ta) && ta.site matches crate::region::TagSite::Expr(sa)
            && b matches HayrollSeed::Expr(tb) && tb.site matches crate::region::TagSite::Expr(sb)
            && sa.base_type_text@ == sb.base_type_text@,
    ensures
        a.spec_type_compatible(b),
{
}

/// A statement-shaped seed is never structurally compatible with an
/// expression-shaped one: a statement-shaped argument breaks
/// compatibility with an expression-shaped argument.
pub proof fn lemma_shape_mismatch_incompatible(a: HayrollSeed, b: HayrollSeed)
    requires
        a is Stmts,
        b is Expr,
    ensures
        !a.spec_structurally_compatible(b),
        !a.spec_type_compatible(b),
{
}

/// Type compatibility refines structural compatibility, invocation by
/// invocation.
pub proof fn lemma_inv_type_compat_refines_struct(a: HayrollMacroInv, b: HayrollMacroInv)
    requires
        spec_inv_type_compat(a, b),
    ensures
        spec_inv_struct_compat(a, b),
{
    assert forall|si: int|
        0 <= si < a.args@.len() implies slot_internally_struct_compat(#[trigger] a.args@[si]) by {
        assert(slot_internally_type_compat(a.args@[si]));
        assert forall|k: int|
            0 <= k < a.args@[si].seeds@.len() implies (
            #[trigger] a.args@[si].seeds@[k]).spec_structurally_compatible(
                a.args@[si].seeds@[0],
            ) by {
            assert(a.args@[si].seeds@[k].spec_type_compatible(a.args@[si].seeds@[0]));
        }
    }
    assert forall|si: int|
        0 <= si < b.args@.len() implies slot_internally_struct_compat(#[trigger] b.args@[si]) by {
        assert(slot_internally_type_compat(b.args@[si]));
        assert forall|k: int|
            0 <= k < b.args@[si].seeds@.len() implies (
            #[trigger] b.args@[si].seeds@[k]).spec_structurally_compatible(
                b.args@[si].seeds@[0],
            ) by {
            assert(b.args@[si].seeds@[k].spec_type_compatible(b.args@[si].seeds@[0]));
        }
    }
    assert forall|si: int|
        0 <= si < a.args@.len() implies slot_pair_struct_compat(
        #[trigger] a.args@[si],
        b.args@[si],
    ) by {
        assert(slot_pair_type_compat(a.args@[si], b.args@[si]));
    }
}

/// Type compatibility refines structural compatibility, cluster wide.
pub proof fn lemma_cluster_type_compat_refines_struct(c: HayrollMacroCluster)
    requires
        spec_invs_internally_type_compat(c),
    ensures
        spec_invs_internally_struct_compat(c),
{
    assert forall|v: int|
        0 <= v < c.invocations@.len() implies spec_inv_struct_compat(
        #[trigger] c.invocations@[v],
        c.invocations@[0],
    ) by {
        lemma_inv_type_compat_refines_struct(c.invocations@[v], c.invocations@[0]);
    }
}

/// Call sites with identical value and argument types are type
/// compatible: equal shapes and equal textual base types slot by slot,
/// with empty slots as wildcards, satisfy the whole lattice.
pub proof fn lemma_equal_typed_invocations_compatible(a: HayrollMacroInv, b: HayrollMacroInv)
    requires
        a.seed.spec_type_compatible(b.seed),
        spec_args_internally_type_compat(a),
        spec_args_internally_type_compat(b),
        a.args@.len() == b.args@.len(),
        forall|si: int|
            0 <= si < a.args@.len() ==> slot_pair_type_compat(#[trigger] a.args@[si], b.args@[si]),
    ensures
        spec_inv_type_compat(a, b),
        spec_inv_struct_compat(a, b),
{
    lemma_inv_type_compat_refines_struct(a, b);
}

} // verus!
