//! The tag model: the metadata payload a seed tag literal carries, and the
//! tag value that anchors it to a place in a file.

use vstd::prelude::*;
use crate::region::TagSite;
use crate::text::{clone_string, clone_string_vec};

verus! {

/// What kind of construct a seed records: a macro invocation site or one
/// branch of a preprocessor conditional.
#[derive(Clone, Copy, PartialEq, Eq, Structural, Debug)]
pub enum SeedType {
    Invocation,
    Conditional,
}

/// The syntactic shape of a tagged region.
#[derive(Clone, Copy, PartialEq, Eq, Structural, Debug)]
pub enum AstKind {
    Expr,
    Stmt,
    Stmts,
    Decl,
    Decls,
}

/// The parsed fields of a seed tag payload.
pub struct TagPayload {
    pub seed_type: SeedType,
    /// Whether this tag marks an argument occurrence rather than a whole
    /// invocation or conditional.
    pub is_arg: bool,
    /// The macro or argument name.
    pub name: String,
    /// The declared argument names, in order.
    pub arg_names: Vec<String>,
    /// The source location identifying this tag's region; unique per tag.
    pub loc_begin: String,
    pub loc_end: String,
    /// Compilation-unit `line:col` bounds, used by declaration regions.
    pub cu_ln_col_begin: String,
    pub cu_ln_col_end: String,
    /// The location of the declaring macro this tag refers to.
    pub loc_ref_begin: String,
    /// Translator's hint that a plain callable suffices.
    pub can_be_fn: bool,
    pub is_lvalue: bool,
    pub ast_kind: AstKind,
    /// True on a begin marker, false on an end marker.
    pub begin: bool,
    /// True when a conditional branch's body is an empty stand-in.
    pub is_placeholder: bool,
    /// The reconstructed configuration predicate of a conditional branch.
    pub premise: String,
    /// Identifiers of variants already merged into this branch.
    pub merged_variants: Vec<String>,
}

pub struct TagPayloadV {
    pub seed_type: SeedType,
    pub is_arg: bool,
    pub name: Seq<char>,
    pub arg_names: Seq<Seq<char>>,
    pub loc_begin: Seq<char>,
    pub loc_end: Seq<char>,
    pub cu_ln_col_begin: Seq<char>,
    pub cu_ln_col_end: Seq<char>,
    pub loc_ref_begin: Seq<char>,
    pub can_be_fn: bool,
    pub is_lvalue: bool,
    pub ast_kind: AstKind,
    pub begin: bool,
    pub is_placeholder: bool,
    pub premise: Seq<char>,
    pub merged_variants: Seq<Seq<char>>,
}

impl View for TagPayload {
    type V = TagPayloadV;

    open spec fn view(&self) -> TagPayloadV {
        TagPayloadV {
            seed_type: self.seed_type,
            is_arg: self.is_arg,
            name: self.name@,
            arg_names: self.arg_names.deep_view(),
            loc_begin: self.loc_begin@,
            loc_end: self.loc_end@,
            cu_ln_col_begin: self.cu_ln_col_begin@,
            cu_ln_col_end: self.cu_ln_col_end@,
            loc_ref_begin: self.loc_ref_begin@,
            can_be_fn: self.can_be_fn,
            is_lvalue: self.is_lvalue,
            ast_kind: self.ast_kind,
            begin: self.begin,
            is_placeholder: self.is_placeholder,
            premise: self.premise@,
            merged_variants: self.merged_variants.deep_view(),
        }
    }
}

impl TagPayload {
    pub fn duplicate(&self) -> (r: TagPayload)
        ensures
            r@ == self@,
    {
        let r = TagPayload {
            seed_type: self.seed_type,
            is_arg: self.is_arg,
            name: clone_string(&self.name),
            arg_names: clone_string_vec(&self.arg_names),
            loc_begin: clone_string(&self.loc_begin),
            loc_end: clone_string(&self.loc_end),
            cu_ln_col_begin: clone_string(&self.cu_ln_col_begin),
            cu_ln_col_end: clone_string(&self.cu_ln_col_end),
            loc_ref_begin: clone_string(&self.loc_ref_begin),
            can_be_fn: self.can_be_fn,
            is_lvalue: self.is_lvalue,
            ast_kind: self.ast_kind,
            begin: self.begin,
            is_placeholder: self.is_placeholder,
            premise: clone_string(&self.premise),
            merged_variants: clone_string_vec(&self.merged_variants),
        };
        assert(r@ =~= self@);
        r
    }

    pub open spec fn spec_is_invocation(self) -> bool {
        self.seed_type is Invocation
    }

    pub open spec fn spec_is_conditional(self) -> bool {
        self.seed_type is Conditional
    }

    pub fn is_invocation(&self) -> (r: bool)
        ensures
            r == self.spec_is_invocation(),
    {
        match self.seed_type {
            SeedType::Invocation => true,
            SeedType::Conditional => false,
        }
    }

    pub fn is_conditional(&self) -> (r: bool)
        ensures
            r == self.spec_is_conditional(),
    {
        match self.seed_type {
            SeedType::Invocation => false,
            SeedType::Conditional => true,
        }
    }

    pub fn is_expr(&self) -> (r: bool)
        ensures
            r == (self.ast_kind is Expr),
    {
        matches!(self.ast_kind, AstKind::Expr)
    }

    pub fn is_stmt(&self) -> (r: bool)
        ensures
            r == (self.ast_kind is Stmt),
    {
        matches!(self.ast_kind, AstKind::Stmt)
    }

    pub fn is_stmts(&self) -> (r: bool)
        ensures
            r == (self.ast_kind is Stmts),
    {
        matches!(self.ast_kind, AstKind::Stmts)
    }

    pub fn is_decl(&self) -> (r: bool)
        ensures
            r == (self.ast_kind is Decl),
    {
        matches!(self.ast_kind, AstKind::Decl)
    }

    pub fn is_decls(&self) -> (r: bool)
        ensures
            r == (self.ast_kind is Decls),
    {
        matches!(self.ast_kind, AstKind::Decls)
    }

    /// The same payload with `begin` replaced.  This is how the repair pass
    /// synthesizes an end marker from an unmatched begin marker.
    pub fn with_updated_begin(&self, new_begin: bool) -> (r: TagPayload)
        ensures
            r@ == (TagPayloadV { begin: new_begin, ..self@ }),
    {
        let mut r = self.duplicate();
        r.begin = new_begin;
        assert(r@ =~= (TagPayloadV { begin: new_begin, ..self@ }));
        r
    }

    /// The same payload with one more merged-variant identifier appended.
    /// The merge pass records a reconciled variant here, which is what makes
    /// merging idempotent.
    pub fn with_appended_merged_variants(&self, new_variant: &str) -> (r: TagPayload)
        ensures
            r@ == (TagPayloadV {
                merged_variants: self@.merged_variants.push(new_variant@),
                ..self@
            }),
    {
        let mut r = self.duplicate();
        r.merged_variants.push(new_variant.to_owned());
        proof {
            assert(r.merged_variants.deep_view() =~= self@.merged_variants.push(new_variant@))
                by {
                let dv = r.merged_variants.deep_view();
                let goal = self@.merged_variants.push(new_variant@);
                assert forall|j: int| 0 <= j < dv.len() implies dv[j] == goal[j] by {
                    assert(dv[j] == r.merged_variants@[j]@);
                }
            }
            assert(r@ =~= (TagPayloadV {
                merged_variants: self@.merged_variants.push(new_variant@),
                ..self@
            }));
        }
        r
    }

    /// Whether `variant` is already recorded as merged.
    pub fn has_merged_variant(&self, variant: &String) -> (r: bool)
        ensures
            r == self@.merged_variants.contains(variant@),
    {
        let mut i: usize = 0;
        while i < self.merged_variants.len()
            invariant
                i <= self.merged_variants.len(),
                forall|j: int| 0 <= j < i ==> #[trigger] self@.merged_variants[j] != variant@,
            decreases self.merged_variants.len() - i,
        {
            if self.merged_variants[i].eq(variant) {
                assert(self@.merged_variants[i as int] == variant@);
                return true;
            }
            assert(self@.merged_variants[i as int] == self.merged_variants@[i as int]@);
            i = i + 1;
        }
        false
    }
}

/// A seed tag: a payload anchored at a place in a file.
pub struct HayrollTag {
    pub tag: TagPayload,
    pub file_id: u32,
    pub site: TagSite,
}

pub struct HayrollTagV {
    pub tag: TagPayloadV,
    pub file_id: u32,
    pub site: <TagSite as View>::V,
}

impl View for HayrollTag {
    type V = HayrollTagV;

    open spec fn view(&self) -> HayrollTagV {
        HayrollTagV { tag: self.tag@, file_id: self.file_id, site: self.site@ }
    }
}

impl HayrollTag {
    pub fn duplicate(&self) -> (r: HayrollTag)
        ensures
            r@ == self@,
    {
        HayrollTag {
            tag: self.tag.duplicate(),
            file_id: self.file_id,
            site: self.site.duplicate(),
        }
    }
}

/// Anything that exposes an underlying seed tag.
pub trait HasHayrollTag {
    spec fn spec_tag(&self) -> HayrollTagV;

    fn hayroll_tag(&self) -> (t: &HayrollTag)
        ensures
            t@ == self.spec_tag(),
    ;
}

impl HasHayrollTag for HayrollTag {
    open spec fn spec_tag(&self) -> HayrollTagV {
        self@
    }

    fn hayroll_tag(&self) -> (t: &HayrollTag) {
        self
    }
}


/// Typed accessors for the metadata a tag carries, available on anything
/// that exposes a tag.
pub trait HayrollMeta: HasHayrollTag {
    fn seed_type(&self) -> (r: SeedType)
        ensures
            r == self.spec_tag().tag.seed_type,
    ;

    fn is_invocation(&self) -> (r: bool)
        ensures
            r == (self.spec_tag().tag.seed_type is Invocation),
    ;

    fn is_conditional(&self) -> (r: bool)
        ensures
            r == (self.spec_tag().tag.seed_type is Conditional),
    ;

    fn is_arg(&self) -> (r: bool)
        ensures
            r == self.spec_tag().tag.is_arg,
    ;

    fn name(&self) -> (r: String)
        ensures
            r@ == self.spec_tag().tag.name,
    ;

    fn arg_names(&self) -> (r: Vec<String>)
        ensures
            r.deep_view() == self.spec_tag().tag.arg_names,
    ;

    fn loc_begin(&self) -> (r: String)
        ensures
            r@ == self.spec_tag().tag.loc_begin,
    ;

    fn loc_end(&self) -> (r: String)
        ensures
            r@ == self.spec_tag().tag.loc_end,
    ;

    fn cu_ln_col_begin(&self) -> (r: String)
        ensures
            r@ == self.spec_tag().tag.cu_ln_col_begin,
    ;

    fn cu_ln_col_end(&self) -> (r: String)
        ensures
            r@ == self.spec_tag().tag.cu_ln_col_end,
    ;

    fn loc_ref_begin(&self) -> (r: String)
        ensures
            r@ == self.spec_tag().tag.loc_ref_begin,
    ;

    fn can_be_fn(&self) -> (r: bool)
        ensures
            r == self.spec_tag().tag.can_be_fn,
    ;

    fn file_id(&self) -> (r: u32)
        ensures
            r == self.spec_tag().file_id,
    ;

    fn is_lvalue(&self) -> (r: bool)
        ensures
            r == self.spec_tag().tag.is_lvalue,
    ;

    fn ast_kind(&self) -> (r: AstKind)
        ensures
            r == self.spec_tag().tag.ast_kind,
    ;

    fn begin(&self) -> (r: bool)
        ensures
            r == self.spec_tag().tag.begin,
    ;

    fn is_placeholder(&self) -> (r: bool)
        ensures
            r == self.spec_tag().tag.is_placeholder,
    ;

    fn premise(&self) -> (r: String)
        ensures
            r@ == self.spec_tag().tag.premise,
    ;

    fn merged_variants(&self) -> (r: Vec<String>)
        ensures
            r.deep_view() == self.spec_tag().tag.merged_variants,
    ;
}

impl<T: HasHayrollTag> HayrollMeta for T {
    fn seed_type(&self) -> (r: SeedType) {
        self.hayroll_tag().tag.seed_type
    }

    fn is_invocation(&self) -> (r: bool) {
        self.hayroll_tag().tag.is_invocation()
    }

    fn is_conditional(&self) -> (r: bool) {
        self.hayroll_tag().tag.is_conditional()
    }

    fn is_arg(&self) -> (r: bool) {
        self.hayroll_tag().tag.is_arg
    }

    fn name(&self) -> (r: String) {
        clone_string(&self.hayroll_tag().tag.name)
    }

    fn arg_names(&self) -> (r: Vec<String>) {
        clone_string_vec(&self.hayroll_tag().tag.arg_names)
    }

    fn loc_begin(&self) -> (r: String) {
        clone_string(&self.hayroll_tag().tag.loc_begin)
    }

    fn loc_end(&self) -> (r: String) {
        clone_string(&self.hayroll_tag().tag.loc_end)
    }

    fn cu_ln_col_begin(&self) -> (r: String) {
        clone_string(&self.hayroll_tag().tag.cu_ln_col_begin)
    }

    fn cu_ln_col_end(&self) -> (r: String) {
        clone_string(&self.hayroll_tag().tag.cu_ln_col_end)
    }

    fn loc_ref_begin(&self) -> (r: String) {
        clone_string(&self.hayroll_tag().tag.loc_ref_begin)
    }

    fn can_be_fn(&self) -> (r: bool) {
        self.hayroll_tag().tag.can_be_fn
    }

    fn file_id(&self) -> (r: u32) {
        self.hayroll_tag().file_id
    }

    fn is_lvalue(&self) -> (r: bool) {
        self.hayroll_tag().tag.is_lvalue
    }

    fn ast_kind(&self) -> (r: AstKind) {
        self.hayroll_tag().tag.ast_kind
    }

    fn begin(&self) -> (r: bool) {
        self.hayroll_tag().tag.begin
    }

    fn is_placeholder(&self) -> (r: bool) {
        self.hayroll_tag().tag.is_placeholder
    }

    fn premise(&self) -> (r: String) {
        clone_string(&self.hayroll_tag().tag.premise)
    }

    fn merged_variants(&self) -> (r: Vec<String>) {
        clone_string_vec(&self.hayroll_tag().tag.merged_variants)
    }
}

} // verus!
