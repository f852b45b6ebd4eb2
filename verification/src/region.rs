//! The region algebra: plain-value projections of the tree regions that a
//! seed tag marks, and the operations that peel translator scaffolding from
//! them.
//!
//! The concrete syntax tree belongs to the external toolkit.  A driver
//! projects each tagged region into the values the logic reads: the guard
//! conditional's branch texts for an expression region, the surrounding
//! statement list for a statement span, the file's top-level items for a
//! declaration set.  All decisions and all replacement text are computed
//! here, over those projections.

use vstd::prelude::*;
use crate::loc::{LnCol, LnColRange};
use crate::text::clone_string;

verus! {

/// The views of a sequence of attributes.
pub open spec fn attrs_view(s: Seq<AttrInfo>) -> Seq<AttrInfoV> {
    s.map_values(|a: AttrInfo| a@)
}

/// The views of a sequence of statements.
pub open spec fn stmts_view(s: Seq<StmtNode>) -> Seq<StmtNodeV> {
    s.map_values(|x: StmtNode| x@)
}

/// The views of a sequence of items.
pub open spec fn decls_view(s: Seq<DeclItem>) -> Seq<DeclItemV> {
    s.map_values(|d: DeclItem| d@)
}

/// The syntactic class of a statement, as far as conditional-gate
/// reconstruction cares: a `let` statement, an item statement, or an
/// expression statement.
#[derive(Clone, Copy, PartialEq, Eq, Structural, Debug)]
pub enum StmtKind {
    LetStmt,
    ItemStmt,
    ExprStmt,
}

/// One statement of a statement list, projected to what the logic reads.
#[derive(Clone)]
pub struct StmtNode {
    /// The statement's full text.
    pub text: String,
    /// Which class of statement this is.
    pub kind: StmtKind,
    /// For an expression statement: whether the expression's shape can carry
    /// an attribute directly.
    pub can_have_attrs: bool,
    /// Whether this statement is a `return` statement.
    pub is_return: bool,
    /// Whether this statement is itself an instrumentation marker (it holds
    /// a seed tag literal).
    pub is_tag_marker: bool,
}

pub struct StmtNodeV {
    pub text: Seq<char>,
    pub kind: StmtKind,
    pub can_have_attrs: bool,
    pub is_return: bool,
    pub is_tag_marker: bool,
}

impl View for StmtNode {
    type V = StmtNodeV;

    open spec fn view(&self) -> StmtNodeV {
        StmtNodeV {
            text: self.text@,
            kind: self.kind,
            can_have_attrs: self.can_have_attrs,
            is_return: self.is_return,
            is_tag_marker: self.is_tag_marker,
        }
    }
}

impl StmtNode {
    pub fn duplicate(&self) -> (r: StmtNode)
        ensures
            r@ == self@,
    {
        StmtNode {
            text: clone_string(&self.text),
            kind: self.kind,
            can_have_attrs: self.can_have_attrs,
            is_return: self.is_return,
            is_tag_marker: self.is_tag_marker,
        }
    }
}

/// An attribute carried by a top-level item.  `src_loc` is the position a
/// location-tracking attribute records; it is `None` for every other
/// attribute.
pub struct AttrInfo {
    pub text: String,
    pub src_loc: Option<LnCol>,
}

pub struct AttrInfoV {
    pub text: Seq<char>,
    pub src_loc: Option<LnCol>,
}

impl View for AttrInfo {
    type V = AttrInfoV;

    open spec fn view(&self) -> AttrInfoV {
        AttrInfoV { text: self.text@, src_loc: self.src_loc }
    }
}

impl AttrInfo {
    pub fn duplicate(&self) -> (r: AttrInfo)
        ensures
            r@ == self@,
    {
        AttrInfo { text: clone_string(&self.text), src_loc: self.src_loc }
    }
}

/// A top-level item of a file, projected to what the logic reads.
pub struct DeclItem {
    /// The item's attributes, in order.
    pub attrs: Vec<AttrInfo>,
    /// The item's text without its attributes.
    pub body_text: String,
    /// The item's declared name, when it has one.
    pub name: Option<String>,
    /// Whether the item sits inside a shared foreign-linkage block.
    pub in_extern_c: bool,
    /// Whether the item is a pattern-template definition.
    pub is_macro_def: bool,
    /// Whether the item is itself an instrumentation marker.
    pub is_tag_marker: bool,
}

pub struct DeclItemV {
    pub attrs: Seq<AttrInfoV>,
    pub body_text: Seq<char>,
    pub name: Option<Seq<char>>,
    pub in_extern_c: bool,
    pub is_macro_def: bool,
    pub is_tag_marker: bool,
}

impl View for DeclItem {
    type V = DeclItemV;

    open spec fn view(&self) -> DeclItemV {
        DeclItemV {
            attrs: attrs_view(self.attrs@),
            body_text: self.body_text@,
            name: match self.name {
                Some(ref n) => Some(n@),
                None => None,
            },
            in_extern_c: self.in_extern_c,
            is_macro_def: self.is_macro_def,
            is_tag_marker: self.is_tag_marker,
        }
    }
}

impl DeclItem {
    pub fn duplicate(&self) -> (r: DeclItem)
        ensures
            r@ == self@,
    {
        let mut attrs: Vec<AttrInfo> = Vec::new();
        let mut i: usize = 0;
        while i < self.attrs.len()
            invariant
                i <= self.attrs.len(),
                attrs@.len() == i,
                forall|j: int| 0 <= j < i ==> #[trigger] attrs@[j]@ == self.attrs@[j]@,
            decreases self.attrs.len() - i,
        {
            attrs.push(self.attrs[i].duplicate());
            i = i + 1;
        }
        proof {
            assert forall|j: int|
                0 <= j < self.attrs@.len() implies attrs_view(attrs@)[j]
                == attrs_view(self.attrs@)[j] by {
                assert(attrs@[j]@ == self.attrs@[j]@);
            }
            assert(attrs_view(attrs@) =~= attrs_view(self.attrs@));
        }
        let r = DeclItem {
            attrs,
            body_text: clone_string(&self.body_text),
            name: match self.name {
                Some(ref n) => Some(clone_string(n)),
                None => None,
            },
            in_extern_c: self.in_extern_c,
            is_macro_def: self.is_macro_def,
            is_tag_marker: self.is_tag_marker,
        };
        assert(r@ =~= self@);
        r
    }

    /// The position recorded by the item's location-tracking attribute, if
    /// any: the first attribute that carries one.
    pub open spec fn spec_src_loc(self) -> Option<LnCol> {
        Self::spec_src_loc_of(self@.attrs)
    }

    pub open spec fn spec_src_loc_of(attrs: Seq<AttrInfoV>) -> Option<LnCol>
        decreases attrs.len(),
    {
        if attrs.len() == 0 {
            None
        } else if attrs[0].src_loc is Some {
            attrs[0].src_loc
        } else {
            Self::spec_src_loc_of(attrs.skip(1))
        }
    }

    /// Whether any location-tracking attribute of this item records a
    /// position within `range`.
    pub fn has_loc_in_range(&self, range: &LnColRange) -> (r: bool)
        ensures
            r == decl_in_range(self@, *range),
    {
        let mut i: usize = 0;
        while i < self.attrs.len()
            invariant
                i <= self.attrs@.len(),
                forall|j: int|
                    0 <= j < i ==> !((#[trigger] self@.attrs[j]).src_loc matches Some(loc)
                        && loc.spec_is_within(*range)),
            decreases self.attrs@.len() - i,
        {
            let hit = match self.attrs[i].src_loc {
                Some(loc) => loc.is_within(range),
                None => false,
            };
            proof {
                assert(self@.attrs[i as int] == self.attrs@[i as int]@);
            }
            if hit {
                return true;
            }
            i = i + 1;
        }
        false
    }

    pub fn src_loc(&self) -> (r: Option<LnCol>)
        ensures
            r == self.spec_src_loc(),
    {
        let mut i: usize = 0;
        proof {
            assert(self@.attrs.skip(0) =~= self@.attrs);
        }
        while i < self.attrs.len()
            invariant
                i <= self.attrs.len(),
                forall|j: int| 0 <= j < i ==> #[trigger] self.attrs@[j].src_loc is None,
                Self::spec_src_loc_of(self@.attrs) == Self::spec_src_loc_of(
                    self@.attrs.skip(i as int),
                ),
            decreases self.attrs.len() - i,
        {
            if self.attrs[i].src_loc.is_some() {
                return self.attrs[i].src_loc;
            }
            proof {
                assert(self@.attrs.skip(i as int).skip(1) =~= self@.attrs.skip(i + 1));
            }
            i = i + 1;
        }
        None
    }
}

/// The guard-conditional projection of an expression-shaped region: the
/// translator wraps the live expression in a dead-branch conditional whose
/// condition holds the tag literal, and wraps an lvalue in one further
/// dereference.
pub struct ExprSite {
    /// The guard condition's text (it holds the tag literal).
    pub cond_text: String,
    /// The then-branch text: the live code, braces included.
    pub live_text: String,
    /// The else-branch text: the dead fallback, braces included.
    pub fallback_text: String,
    /// The pointer type found in the dead branch (`*mut T` or `*const T`).
    pub ptr_type_text: String,
    /// The pointee type of that pointer.
    pub base_type_text: String,
    /// Whether the guard stands as the else-branch of an enclosing
    /// conditional (replacement there must add braces).
    pub is_else_if_branch: bool,
}

pub struct ExprSiteV {
    pub cond_text: Seq<char>,
    pub live_text: Seq<char>,
    pub fallback_text: Seq<char>,
    pub ptr_type_text: Seq<char>,
    pub base_type_text: Seq<char>,
    pub is_else_if_branch: bool,
}

impl View for ExprSite {
    type V = ExprSiteV;

    open spec fn view(&self) -> ExprSiteV {
        ExprSiteV {
            cond_text: self.cond_text@,
            live_text: self.live_text@,
            fallback_text: self.fallback_text@,
            ptr_type_text: self.ptr_type_text@,
            base_type_text: self.base_type_text@,
            is_else_if_branch: self.is_else_if_branch,
        }
    }
}

impl ExprRegion {
    pub fn duplicate(&self) -> (r: ExprRegion)
        ensures
            match (self, &r) {
                (ExprRegion::Guard { site: a, deref: da }, ExprRegion::Guard {
                    site: b,
                    deref: db,
                }) => a@ == b@ && da == db,
                (ExprRegion::Plain { text: a }, ExprRegion::Plain { text: b }) => a@ == b@,
                _ => false,
            },
    {
        match self {
            ExprRegion::Guard { site, deref } => ExprRegion::Guard {
                site: site.duplicate(),
                deref: *deref,
            },
            ExprRegion::Plain { text } => ExprRegion::Plain { text: clone_string(text) },
        }
    }
}

impl ExprSite {
    pub fn duplicate(&self) -> (r: ExprSite)
        ensures
            r@ == self@,
    {
        ExprSite {
            cond_text: clone_string(&self.cond_text),
            live_text: clone_string(&self.live_text),
            fallback_text: clone_string(&self.fallback_text),
            ptr_type_text: clone_string(&self.ptr_type_text),
            base_type_text: clone_string(&self.base_type_text),
            is_else_if_branch: self.is_else_if_branch,
        }
    }
}

/// Where a tag literal physically sits, projected for the region algebra.
pub enum TagSite {
    /// In the guard condition of an expression-shaped region.
    Expr(ExprSite),
    /// In the marker statement at index `idx` of a statement list.
    Stmt { stmts: Vec<StmtNode>, idx: usize },
    /// In a marker item at index `tag_idx` of a file's item list.
    Decl { items: Vec<DeclItem>, tag_idx: usize },
}

pub enum TagSiteV {
    Expr(ExprSiteV),
    Stmt { stmts: Seq<StmtNodeV>, idx: int },
    Decl { items: Seq<DeclItemV>, tag_idx: int },
}

impl View for TagSite {
    type V = TagSiteV;

    open spec fn view(&self) -> TagSiteV {
        match self {
            TagSite::Expr(site) => TagSiteV::Expr(site@),
            TagSite::Stmt { stmts, idx } => TagSiteV::Stmt {
                stmts: stmts_view(stmts@),
                idx: *idx as int,
            },
            TagSite::Decl { items, tag_idx } => TagSiteV::Decl {
                items: decls_view(items@),
                tag_idx: *tag_idx as int,
            },
        }
    }
}

impl TagSite {
    pub fn duplicate(&self) -> (r: TagSite)
        ensures
            r@ == self@,
    {
        match self {
            TagSite::Expr(site) => TagSite::Expr(site.duplicate()),
            TagSite::Stmt { stmts, idx } => {
                let r = TagSite::Stmt { stmts: clone_stmts(stmts), idx: *idx };
                assert(r@ =~= self@);
                r
            },
            TagSite::Decl { items, tag_idx } => {
                let r = TagSite::Decl { items: clone_decls(items), tag_idx: *tag_idx };
                assert(r@ =~= self@);
                r
            },
        }
    }
}

pub fn clone_stmts(v: &Vec<StmtNode>) -> (r: Vec<StmtNode>)
    ensures
        stmts_view(r@) == stmts_view(v@),
{
    let mut r: Vec<StmtNode> = Vec::new();
    let mut i: usize = 0;
    while i < v.len()
        invariant
            i <= v.len(),
            r@.len() == i,
            forall|j: int| 0 <= j < i ==> #[trigger] r@[j]@ == v@[j]@,
        decreases v.len() - i,
    {
        r.push(v[i].duplicate());
        i = i + 1;
    }
    proof {
        assert forall|j: int|
            0 <= j < v@.len() implies stmts_view(r@)[j] == stmts_view(v@)[j] by {
            assert(r@[j]@ == v@[j]@);
        }
        assert(stmts_view(r@) =~= stmts_view(v@));
    }
    r
}

pub fn clone_decls(v: &Vec<DeclItem>) -> (r: Vec<DeclItem>)
    ensures
        decls_view(r@) == decls_view(v@),
{
    let mut r: Vec<DeclItem> = Vec::new();
    let mut i: usize = 0;
    while i < v.len()
        invariant
            i <= v.len(),
            r@.len() == i,
            forall|j: int| 0 <= j < i ==> #[trigger] r@[j]@ == v@[j]@,
        decreases v.len() - i,
    {
        r.push(v[i].duplicate());
        i = i + 1;
    }
    proof {
        assert forall|j: int|
            0 <= j < v@.len() implies decls_view(r@)[j] == decls_view(v@)[j] by {
            assert(r@[j]@ == v@[j]@);
        }
        assert(decls_view(r@) =~= decls_view(v@));
    }
    r
}

/// Every item of `items` whose location-tracking attribute falls within
/// `range`.  This is how a declaration-shaped seed locates its scattered
/// region.
pub fn find_items_in_range(items: &Vec<DeclItem>, range: &LnColRange) -> (r: Vec<DeclItem>)
    ensures
        decls_view(r@) == decls_view(items@).filter(
            |d: DeclItemV| decl_in_range(d, *range),
        ),
{
    let mut r: Vec<DeclItem> = Vec::new();
    let mut i: usize = 0;
    let ghost pred = |d: DeclItemV| decl_in_range(d, *range);
    let ghost m = decls_view(items@);
    while i < items.len()
        invariant
            i <= items.len(),
            m == decls_view(items@),
            pred == (|d: DeclItemV| decl_in_range(d, *range)),
            r@.len() == m.take(i as int).filter(pred).len(),
            forall|j: int|
                0 <= j < r@.len() ==> #[trigger] r@[j]@ == m.take(i as int).filter(pred)[j],
        decreases items.len() - i,
    {
        let item = &items[i];
        let included = item.has_loc_in_range(range);
        proof {
            reveal(Seq::filter);
            assert(m.take(i + 1).drop_last() =~= m.take(i as int));
            assert(m.take(i + 1).last() == items@[i as int]@);
            assert(included == pred(items@[i as int]@));
            if included {
                assert(m.take(i + 1).filter(pred) == m.take(i as int).filter(pred).push(
                    items@[i as int]@,
                ));
            } else {
                assert(m.take(i + 1).filter(pred) == m.take(i as int).filter(pred));
            }
        }
        if included {
            r.push(item.duplicate());
        }
        i = i + 1;
    }
    proof {
        assert(m.take(items@.len() as int) =~= m);
        let flt = m.filter(pred);
        assert forall|j: int| 0 <= j < r@.len() implies decls_view(r@)[j]
            == flt[j] by {
            assert(r@[j]@ == flt[j]);
        }
        assert(decls_view(r@) =~= flt);
    }
    r
}

/// Whether any of an item's location-tracking attributes records a
/// position within `range`.
pub open spec fn decl_in_range(d: DeclItemV, range: LnColRange) -> bool {
    exists|i: int|
        0 <= i < d.attrs.len() && ((#[trigger] d.attrs[i]).src_loc matches Some(loc)
            && loc.spec_is_within(range))
}

/// An expression region: either the instrumented guard conditional itself,
/// or a plain expression (what peeling produces).
pub enum ExprRegion {
    Guard { site: ExprSite, deref: bool },
    Plain { text: String },
}

/// A region of code: a single expression, an inclusive span of a statement
/// list, or a scattered list of top-level items.
pub enum CodeRegion {
    Expr(ExprRegion),
    Stmts { stmts: Vec<StmtNode>, start: usize, end: usize },
    Decls(Vec<DeclItem>),
}

impl CodeRegion {
    /// A statement span's bounds must index into its list; `start` may
    /// exceed `end` by one, denoting an empty span.
    pub open spec fn wf(self) -> bool {
        match self {
            CodeRegion::Expr(_) => true,
            CodeRegion::Stmts { stmts, start, end } => end < stmts.len() && start <= end + 1,
            CodeRegion::Decls(_) => true,
        }
    }

    /// Only a declaration region can be empty: one that matched no items.
    pub fn is_empty(&self) -> (r: bool)
        ensures
            r == match self {
                CodeRegion::Expr(_) => false,
                CodeRegion::Stmts { .. } => false,
                CodeRegion::Decls(decls) => decls@.len() == 0,
            },
    {
        match self {
            CodeRegion::Expr(_) => false,
            CodeRegion::Stmts { .. } => false,
            CodeRegion::Decls(decls) => decls.len() == 0,
        }
    }
}


/// The text of an item: its attributes, each on its own line, then the
/// body.
pub open spec fn spec_decl_text(d: DeclItemV) -> Seq<char> {
    spec_attrs_text(d.attrs) + d.body_text
}

pub open spec fn spec_attrs_text(attrs: Seq<AttrInfoV>) -> Seq<char>
    decreases attrs.len(),
{
    if attrs.len() == 0 {
        Seq::empty()
    } else {
        spec_attrs_text(attrs.drop_last()) + attrs.last().text.push('\n')
    }
}

/// An item re-wrapped in a foreign-linkage block of its own, so that later
/// insertion elsewhere cannot drag unrelated siblings along.  Items outside
/// such blocks are unchanged.
pub open spec fn spec_individualize(d: DeclItemV) -> DeclItemV {
    if d.in_extern_c {
        DeclItemV {
            attrs: Seq::empty(),
            body_text: "extern \"C\" {\n    "@ + spec_decl_text(d) + "\n}"@,
            name: d.name,
            in_extern_c: false,
            is_macro_def: d.is_macro_def,
            is_tag_marker: d.is_tag_marker,
        }
    } else {
        d
    }
}

/// An item with its location-tracking attributes removed.
pub open spec fn spec_peel_src_locs(d: DeclItemV) -> DeclItemV {
    DeclItemV { attrs: d.attrs.filter(|a: AttrInfoV| a.src_loc is None), ..d }
}

impl DeclItem {
    /// The item's full text, attributes included.
    pub fn render_text(&self) -> (r: String)
        ensures
            r@ == spec_decl_text(self@),
    {
        let mut acc = String::new();
        let mut i: usize = 0;
        while i < self.attrs.len()
            invariant
                i <= self.attrs@.len(),
                acc@ == spec_attrs_text(attrs_view(self.attrs@).take(i as int)),
            decreases self.attrs@.len() - i,
        {
            acc.append(self.attrs[i].text.as_str());
            crate::text::push_char(&mut acc, '\n');
            proof {
                let av = attrs_view(self.attrs@);
                assert(av.take(i + 1).drop_last() =~= av.take(i as int));
                assert(av.take(i + 1).last() == self.attrs@[i as int]@);
            }
            i = i + 1;
        }
        proof {
            assert(attrs_view(self.attrs@).take(self.attrs@.len() as int) =~= attrs_view(
                self.attrs@,
            ));
            assert(self@.attrs == attrs_view(self.attrs@));
        }
        acc.append(self.body_text.as_str());
        acc
    }

    /// This item re-wrapped in its own foreign-linkage block when it lives
    /// in a shared one.
    pub fn individualize(&self) -> (r: DeclItem)
        ensures
            r@ == spec_individualize(self@),
    {
        if self.in_extern_c {
            let mut body = String::new();
            body.append("extern \"C\" {\n    ");
            let inner = self.render_text();
            body.append(inner.as_str());
            body.append("\n}");
            let r = DeclItem {
                attrs: Vec::new(),
                body_text: body,
                name: match self.name {
                    Some(ref n) => Some(clone_string(n)),
                    None => None,
                },
                in_extern_c: false,
                is_macro_def: self.is_macro_def,
                is_tag_marker: self.is_tag_marker,
            };
            proof {
                assert(r@.attrs =~= Seq::<AttrInfoV>::empty());
                assert(r@.body_text =~= spec_individualize(self@).body_text);
                assert(r@ =~= spec_individualize(self@));
            }
            r
        } else {
            self.duplicate()
        }
    }

    /// This item with its location-tracking attributes removed.
    pub fn peel_src_locs(&self) -> (r: DeclItem)
        ensures
            r@ == spec_peel_src_locs(self@),
    {
        let mut attrs: Vec<AttrInfo> = Vec::new();
        let mut i: usize = 0;
        let ghost pred = |a: AttrInfoV| a.src_loc is None;
        let ghost av = attrs_view(self.attrs@);
        while i < self.attrs.len()
            invariant
                i <= self.attrs@.len(),
                av == attrs_view(self.attrs@),
                pred == (|a: AttrInfoV| a.src_loc is None),
                attrs@.len() == av.take(i as int).filter(pred).len(),
                forall|j: int|
                    0 <= j < attrs@.len() ==> #[trigger] attrs@[j]@ == av.take(i as int).filter(
                        pred,
                    )[j],
            decreases self.attrs@.len() - i,
        {
            let keep = self.attrs[i].src_loc.is_none();
            proof {
                reveal(Seq::filter);
                assert(av.take(i + 1).drop_last() =~= av.take(i as int));
                assert(av.take(i + 1).last() == self.attrs@[i as int]@);
                assert(keep == pred(self.attrs@[i as int]@));
            }
            if keep {
                attrs.push(self.attrs[i].duplicate());
            }
            i = i + 1;
        }
        proof {
            assert(av.take(self.attrs@.len() as int) =~= av);
        }
        let r = DeclItem {
            attrs,
            body_text: clone_string(&self.body_text),
            name: match self.name {
                Some(ref n) => Some(clone_string(n)),
                None => None,
            },
            in_extern_c: self.in_extern_c,
            is_macro_def: self.is_macro_def,
            is_tag_marker: self.is_tag_marker,
        };
        proof {
            let flt = av.filter(pred);
            assert forall|j: int| 0 <= j < r.attrs@.len() implies attrs_view(r.attrs@)[j]
                == flt[j] by {
                assert(r.attrs@[j]@ == flt[j]);
            }
            assert(attrs_view(r.attrs@) =~= flt);
            assert(r@ =~= spec_peel_src_locs(self@));
        }
        r
    }
}

impl CodeRegion {
    pub fn duplicate(&self) -> (r: CodeRegion)
        ensures
            self.region_view() == r.region_view(),
    {
        match self {
            CodeRegion::Expr(e) => CodeRegion::Expr(e.duplicate()),
            CodeRegion::Stmts { stmts, start, end } => CodeRegion::Stmts {
                stmts: clone_stmts(stmts),
                start: *start,
                end: *end,
            },
            CodeRegion::Decls(items) => CodeRegion::Decls(clone_decls(items)),
        }
    }

    /// A shape-faithful view of the region for contracts.
    pub open spec fn region_view(self) -> CodeRegionV {
        match self {
            CodeRegion::Expr(ExprRegion::Guard { site, deref }) => CodeRegionV::ExprGuard {
                site: site@,
                deref,
            },
            CodeRegion::Expr(ExprRegion::Plain { text }) => CodeRegionV::ExprPlain { text: text@ },
            CodeRegion::Stmts { stmts, start, end } => CodeRegionV::Stmts {
                stmts: stmts_view(stmts@),
                start: start as int,
                end: end as int,
            },
            CodeRegion::Decls(items) => CodeRegionV::Decls { items: decls_view(items@) },
        }
    }

    /// Peels the translator scaffolding: a guard collapses to its live
    /// branch (re-wrapped in the dereference it carried), a span drops its
    /// two marker statements, declarations pass through unchanged.
    pub fn peel_tag(&self) -> (r: CodeRegion)
        requires
            self.wf(),
            self matches CodeRegion::Expr(e) ==> e is Guard,
            self matches CodeRegion::Stmts { start, end, .. } ==> *start <= *end,
        ensures
            match self {
                CodeRegion::Expr(ExprRegion::Guard { site, deref }) => r.region_view()
                    == (CodeRegionV::ExprPlain {
                    text: (if *deref {
                        "*("@ + site.live_text@ + ")"@
                    } else {
                        site.live_text@
                    }),
                }),
                CodeRegion::Expr(ExprRegion::Plain { .. }) => false,
                CodeRegion::Stmts { stmts, start, end } => r.region_view()
                    == (CodeRegionV::Stmts {
                    stmts: stmts_view(stmts@),
                    start: (if start == end {
                        *start as int
                    } else {
                        *start + 1
                    }),
                    end: (if *end == 0 {
                        0
                    } else {
                        *end - 1
                    }),
                }),
                CodeRegion::Decls(items) => r.region_view() == (CodeRegionV::Decls {
                    items: decls_view(items@),
                }),
            },
            r.wf(),
    {
        match self {
            CodeRegion::Expr(e) => {
                let (site, deref) = match e {
                    ExprRegion::Guard { site, deref } => (site, *deref),
                    ExprRegion::Plain { .. } => unreached(),
                };
                let mut text = String::new();
                if deref {
                    text.append("*(");
                }
                text.append(site.live_text.as_str());
                if deref {
                    text.append(")");
                }
                proof {
                    if deref {
                        assert(text@ =~= "*("@ + site.live_text@ + ")"@);
                    }
                }
                CodeRegion::Expr(ExprRegion::Plain { text })
            },
            CodeRegion::Stmts { stmts, start, end } => {
                let new_start = if *start == *end {
                    *start
                } else {
                    *start + 1
                };
                let new_end = if *end == 0 {
                    0
                } else {
                    *end - 1
                };
                let rs = clone_stmts(stmts);
                proof {
                    assert(stmts_view(rs@).len() == stmts_view(stmts@).len());
                    assert(rs@.len() == stmts@.len());
                }
                CodeRegion::Stmts { stmts: rs, start: new_start, end: new_end }
            },
            CodeRegion::Decls(items) => CodeRegion::Decls(clone_decls(items)),
        }
    }

    /// Every item re-wrapped in a foreign-linkage block of its own;
    /// expression and statement regions pass through unchanged.
    pub fn individualize_decls(&self) -> (r: CodeRegion)
        ensures
            match self {
                CodeRegion::Decls(items) => r.region_view() == (CodeRegionV::Decls {
                    items: decls_view(items@).map_values(|d: DeclItemV| spec_individualize(d)),
                }),
                _ => r.region_view() == self.region_view(),
            },
    {
        match self {
            CodeRegion::Decls(items) => {
                let mut out: Vec<DeclItem> = Vec::new();
                let mut i: usize = 0;
                while i < items.len()
                    invariant
                        i <= items@.len(),
                        out@.len() == i,
                        forall|j: int|
                            0 <= j < i ==> #[trigger] out@[j]@ == spec_individualize(
                                items@[j]@,
                            ),
                    decreases items@.len() - i,
                {
                    out.push(items[i].individualize());
                    i = i + 1;
                }
                proof {
                    let goal = decls_view(items@).map_values(|d: DeclItemV| spec_individualize(d));
                    assert forall|j: int| 0 <= j < out@.len() implies decls_view(out@)[j]
                        == goal[j] by {
                        assert(out@[j]@ == spec_individualize(items@[j]@));
                        assert(decls_view(items@)[j] == items@[j]@);
                    }
                    assert(decls_view(out@) =~= goal);
                }
                CodeRegion::Decls(out)
            },
            _ => self.duplicate(),
        }
    }

    /// Every item with its location-tracking attributes removed;
    /// expression and statement regions pass through unchanged.
    pub fn peel_c2rust_src_locs(&self) -> (r: CodeRegion)
        ensures
            match self {
                CodeRegion::Decls(items) => r.region_view() == (CodeRegionV::Decls {
                    items: decls_view(items@).map_values(|d: DeclItemV| spec_peel_src_locs(d)),
                }),
                _ => r.region_view() == self.region_view(),
            },
    {
        match self {
            CodeRegion::Decls(items) => {
                let mut out: Vec<DeclItem> = Vec::new();
                let mut i: usize = 0;
                while i < items.len()
                    invariant
                        i <= items@.len(),
                        out@.len() == i,
                        forall|j: int|
                            0 <= j < i ==> #[trigger] out@[j]@ == spec_peel_src_locs(items@[j]@),
                    decreases items@.len() - i,
                {
                    out.push(items[i].peel_src_locs());
                    i = i + 1;
                }
                proof {
                    let goal = decls_view(items@).map_values(|d: DeclItemV| spec_peel_src_locs(d));
                    assert forall|j: int| 0 <= j < out@.len() implies decls_view(out@)[j]
                        == goal[j] by {
                        assert(out@[j]@ == spec_peel_src_locs(items@[j]@));
                        assert(decls_view(items@)[j] == items@[j]@);
                    }
                    assert(decls_view(out@) =~= goal);
                }
                CodeRegion::Decls(out)
            },
            _ => self.duplicate(),
        }
    }
}

/// A value-level view of a region.
pub enum CodeRegionV {
    ExprGuard { site: ExprSiteV, deref: bool },
    ExprPlain { text: Seq<char> },
    Stmts { stmts: Seq<StmtNodeV>, start: int, end: int },
    Decls { items: Seq<DeclItemV> },
}


/// Whether a statement is itself an instrumentation marker.
pub fn stmt_is_hayroll_tag(stmt: &StmtNode) -> (r: bool)
    ensures
        r == stmt@.is_tag_marker,
{
    stmt.is_tag_marker
}


/// The texts of a region's parts, in order.
pub open spec fn spec_region_texts(region: CodeRegion) -> Seq<Seq<char>> {
    match region {
        CodeRegion::Expr(ExprRegion::Guard { site, deref }) => seq![
            crate::synth::spec_raw_expr_text(site, deref),
        ],
        CodeRegion::Expr(ExprRegion::Plain { text }) => seq![text@],
        CodeRegion::Stmts { stmts, start, end } => stmts_view(stmts@).subrange(
            start as int,
            end + 1,
        ).map_values(|s: StmtNodeV| s.text),
        CodeRegion::Decls(items) => decls_view(items@).map_values(
            |d: DeclItemV| spec_decl_text(d),
        ),
    }
}

impl CodeRegion {
    /// The texts of the region's parts, in order: the one expression, the
    /// statements of the span, or the located items.
    pub fn texts(&self) -> (r: Vec<String>)
        requires
            self.wf(),
        ensures
            r.deep_view() == spec_region_texts(*self),
    {
        match self {
            CodeRegion::Expr(ExprRegion::Guard { site, deref }) => {
                let mut t = String::new();
                if *deref {
                    t.append("*(");
                }
                t.append("if ");
                t.append(site.cond_text.as_str());
                t.append(" ");
                t.append(site.live_text.as_str());
                t.append(" else ");
                t.append(site.fallback_text.as_str());
                if *deref {
                    t.append(")");
                }
                proof {
                    assert(t@ =~= crate::synth::spec_raw_expr_text(*site, *deref));
                }
                let mut r: Vec<String> = Vec::new();
                r.push(t);
                proof {
                    assert(r.deep_view() =~= seq![crate::synth::spec_raw_expr_text(*site, *deref)]);
                }
                r
            },
            CodeRegion::Expr(ExprRegion::Plain { text }) => {
                let mut r: Vec<String> = Vec::new();
                r.push(clone_string(text));
                proof {
                    assert(r.deep_view() =~= seq![text@]);
                }
                r
            },
            CodeRegion::Stmts { stmts, start, end } => {
                let mut r: Vec<String> = Vec::new();
                let mut i = *start;
                let ghost goal = stmts_view(stmts@).subrange(*start as int, *end + 1).map_values(
                    |s: StmtNodeV| s.text,
                );
                if *start > *end {
                    proof {
                        assert(r.deep_view() =~= goal);
                    }
                    return r;
                }
                let n = stmts.len();
                while i <= *end
                    invariant
                        *start <= i <= *end + 1,
                        n == stmts@.len(),
                        *end < n,
                        goal == stmts_view(stmts@).subrange(*start as int, *end + 1).map_values(
                            |s: StmtNodeV| s.text,
                        ),
                        r@.len() == i - *start,
                        forall|j: int| 0 <= j < r@.len() ==> #[trigger] r@[j]@ == goal[j],
                    decreases *end + 1 - i,
                {
                    r.push(clone_string(&stmts[i].text));
                    proof {
                        let k = (i - *start) as int;
                        assert(stmts_view(stmts@)[i as int] == stmts@[i as int]@);
                        assert(stmts_view(stmts@).subrange(*start as int, *end + 1)[k]
                            == stmts_view(stmts@)[i as int]);
                        assert(goal[k] == stmts@[i as int]@.text);
                    }
                    i = i + 1;
                }
                proof {
                    assert forall|j: int| 0 <= j < r@.len() implies r.deep_view()[j] == goal[j] by {
                        assert(r@[j]@ == goal[j]);
                    }
                    assert(r.deep_view() =~= goal);
                }
                r
            },
            CodeRegion::Decls(items) => {
                let mut r: Vec<String> = Vec::new();
                let mut i: usize = 0;
                let ghost goal = decls_view(items@).map_values(|d: DeclItemV| spec_decl_text(d));
                while i < items.len()
                    invariant
                        i <= items@.len(),
                        goal == decls_view(items@).map_values(|d: DeclItemV| spec_decl_text(d)),
                        r@.len() == i,
                        forall|j: int| 0 <= j < i ==> #[trigger] r@[j]@ == goal[j],
                    decreases items@.len() - i,
                {
                    r.push(items[i].render_text());
                    proof {
                        assert(decls_view(items@)[i as int] == items@[i as int]@);
                        assert(goal[i as int] == spec_decl_text(items@[i as int]@));
                    }
                    i = i + 1;
                }
                proof {
                    assert forall|j: int| 0 <= j < r@.len() implies r.deep_view()[j] == goal[j] by {
                        assert(r@[j]@ == goal[j]);
                    }
                    assert(r.deep_view() =~= goal);
                }
                r
            },
        }
    }

    /// The region's whole text: its parts joined on fresh lines.
    pub fn to_text(&self) -> (r: String)
        requires
            self.wf(),
        ensures
            r@ == crate::text::spec_join(spec_region_texts(*self), seq!['\n']),
    {
        let parts = self.texts();
        proof {
            reveal_strlit("\n");
            assert("\n"@ =~= seq!['\n']);
        }
        crate::text::join_with(&parts, "\n")
    }
}

} // verus!
