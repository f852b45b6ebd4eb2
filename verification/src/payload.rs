//! The seed tag wire format: a flat object embedded as a NUL-terminated
//! payload inside a byte-string literal.
//!
//! The wire format is this system's own grammar, and it is canonical: one
//! spelling per tag, with the keys in fixed alphabetical order, compact
//! separators, and a minimal escape set — exactly the compact form the
//! upstream translator emits and `spec_payload_of` defines.  Committing to
//! the canonical spelling is what lets the parser be checked against the
//! serializer: a permissively parsed payload would have many spellings and
//! no such anchor.  A byte string in any other spelling is treated as not
//! a seed tag, the same degradation every non-tag literal receives.
//!
//! The serializer is specified exactly.  The parser scans a candidate
//! payload and then re-serializes what it read: it answers only when the
//! round trip reproduces the input, so whatever it accepts is by
//! construction the canonical text of the tag it returns.

use vstd::prelude::*;
use crate::tag::{AstKind, SeedType, TagPayload, TagPayloadV};
use crate::text::{push_char, spec_join};

verus! {

/// The escape of one character inside a serialized string.
pub open spec fn spec_esc_char(c: char) -> Seq<char> {
    if c == '"' {
        seq!['\\', '"']
    } else if c == '\\' {
        seq!['\\', '\\']
    } else if c == '\n' {
        seq!['\\', 'n']
    } else if c == '\t' {
        seq!['\\', 't']
    } else {
        seq![c]
    }
}

pub open spec fn spec_esc(s: Seq<char>) -> Seq<char>
    decreases s.len(),
{
    if s.len() == 0 {
        Seq::empty()
    } else {
        spec_esc(s.drop_last()) + spec_esc_char(s.last())
    }
}

/// A serialized string value: quoted and escaped.
pub open spec fn spec_json_string(s: Seq<char>) -> Seq<char> {
    seq!['"'] + spec_esc(s) + seq!['"']
}

pub open spec fn spec_json_bool(b: bool) -> Seq<char> {
    if b {
        "true"@
    } else {
        "false"@
    }
}

/// A serialized array of strings.
pub open spec fn spec_json_str_array(xs: Seq<Seq<char>>) -> Seq<char> {
    seq!['['] + spec_join(xs.map_values(|x: Seq<char>| spec_json_string(x)), seq![',']) + seq![']']
}

pub open spec fn spec_kind_word(k: AstKind) -> Seq<char> {
    match k {
        AstKind::Expr => "Expr"@,
        AstKind::Stmt => "Stmt"@,
        AstKind::Stmts => "Stmts"@,
        AstKind::Decl => "Decl"@,
        AstKind::Decls => "Decls"@,
    }
}

pub open spec fn spec_seed_type_word(t: SeedType) -> Seq<char> {
    match t {
        SeedType::Invocation => "invocation"@,
        SeedType::Conditional => "conditional"@,
    }
}

/// The canonical payload text of a tag: one flat object, keys in fixed
/// order, compact separators, the discriminator field set.
pub open spec fn spec_payload_of(t: TagPayloadV) -> Seq<char> {
    "{\"argNames\":"@ + spec_json_str_array(t.arg_names) + ",\"astKind\":"@ + spec_json_string(
        spec_kind_word(t.ast_kind),
    ) + ",\"begin\":"@ + spec_json_bool(t.begin) + ",\"canBeFn\":"@ + spec_json_bool(t.can_be_fn)
        + ",\"cuLnColBegin\":"@ + spec_json_string(t.cu_ln_col_begin) + ",\"cuLnColEnd\":"@
        + spec_json_string(t.cu_ln_col_end) + ",\"hayroll\":true,\"isArg\":"@ + spec_json_bool(
        t.is_arg,
    ) + ",\"isLvalue\":"@ + spec_json_bool(t.is_lvalue) + ",\"isPlaceholder\":"@ + spec_json_bool(
        t.is_placeholder,
    ) + ",\"locBegin\":"@ + spec_json_string(t.loc_begin) + ",\"locEnd\":"@ + spec_json_string(
        t.loc_end,
    ) + ",\"locRefBegin\":"@ + spec_json_string(t.loc_ref_begin) + ",\"mergedVariants\":"@
        + spec_json_str_array(t.merged_variants) + ",\"name\":"@ + spec_json_string(t.name)
        + ",\"premise\":"@ + spec_json_string(t.premise) + ",\"seedType\":"@ + spec_json_string(
        spec_seed_type_word(t.seed_type),
    ) + "}"@
}

/// Appends the escaped form of `s`.
fn append_escaped(acc: &mut String, s: &String)
    ensures
        final(acc)@ == old(acc)@ + spec_esc(s@),
{
    let n = s.as_str().unicode_len();
    let mut i: usize = 0;
    proof {
        assert(old(acc)@ + spec_esc(s@.take(0)) =~= old(acc)@);
    }
    while i < n
        invariant
            i <= n,
            n == s@.len(),
            acc@ == old(acc)@ + spec_esc(s@.take(i as int)),
        decreases n - i,
    {
        let c = s.as_str().get_char(i);
        proof {
            assert(s@.take(i + 1).drop_last() =~= s@.take(i as int));
            assert(s@.take(i + 1).last() == s@[i as int]);
        }
        if c == '"' {
            push_char(acc, '\\');
            push_char(acc, '"');
        } else if c == '\\' {
            push_char(acc, '\\');
            push_char(acc, '\\');
        } else if c == '\n' {
            push_char(acc, '\\');
            push_char(acc, 'n');
        } else if c == '\t' {
            push_char(acc, '\\');
            push_char(acc, 't');
        } else {
            push_char(acc, c);
        }
        proof {
            assert(acc@ =~= old(acc)@ + spec_esc(s@.take(i + 1)));
        }
        i = i + 1;
    }
    proof {
        assert(s@.take(n as int) =~= s@);
    }
}

/// Appends a serialized string value.
fn append_json_string(acc: &mut String, s: &String)
    ensures
        final(acc)@ == old(acc)@ + spec_json_string(s@),
{
    push_char(acc, '"');
    append_escaped(acc, s);
    push_char(acc, '"');
    proof {
        assert(acc@ =~= old(acc)@ + spec_json_string(s@));
    }
}

fn append_json_bool(acc: &mut String, b: bool)
    ensures
        final(acc)@ == old(acc)@ + spec_json_bool(b),
{
    if b {
        acc.append("true");
    } else {
        acc.append("false");
    }
}

/// Appends a serialized array of strings.
fn append_json_str_array(acc: &mut String, xs: &Vec<String>)
    ensures
        final(acc)@ == old(acc)@ + spec_json_str_array(xs.deep_view()),
{
    push_char(acc, '[');
    let ghost base = acc@;
    let mut i: usize = 0;
    proof {
        let m = xs.deep_view().take(0).map_values(|x: Seq<char>| spec_json_string(x));
        assert(m =~= Seq::<Seq<char>>::empty());
        assert(base + spec_join(m, seq![',']) =~= base);
    }
    while i < xs.len()
        invariant
            i <= xs@.len(),
            acc@ == base + spec_join(
                xs.deep_view().take(i as int).map_values(|x: Seq<char>| spec_json_string(x)),
                seq![','],
            ),
        decreases xs@.len() - i,
    {
        if i > 0 {
            push_char(acc, ',');
        }
        append_json_string(acc, &xs[i]);
        proof {
            let f = |x: Seq<char>| spec_json_string(x);
            let dv = xs.deep_view();
            let m1 = dv.take(i + 1).map_values(f);
            let m0 = dv.take(i as int).map_values(f);
            assert(m1.drop_last() =~= m0);
            assert(m1.last() == f(dv[i as int]));
            assert(dv[i as int] == xs@[i as int]@);
            if i == 0 {
                assert(spec_join(m1, seq![',']) == m1[0]);
            }
            assert(acc@ =~= base + spec_join(m1, seq![',']));
        }
        i = i + 1;
    }
    push_char(acc, ']');
    proof {
        assert(xs.deep_view().take(xs@.len() as int) =~= xs.deep_view());
        assert(acc@ =~= old(acc)@ + spec_json_str_array(xs.deep_view()));
    }
}

/// The canonical payload text of a tag.
#[verifier::rlimit(100)]
pub fn payload_text(t: &TagPayload) -> (r: String)
    ensures
        r@ == spec_payload_of(t@),
{
    let mut acc = String::new();
    acc.append("{\"argNames\":");
    append_json_str_array(&mut acc, &t.arg_names);
    let ghost g1 = "{\"argNames\":"@ + spec_json_str_array(t@.arg_names);
    proof {
        assert(acc@ =~= g1);
    }
    acc.append(",\"astKind\":");
    let kind_word = match t.ast_kind {
        AstKind::Expr => "Expr",
        AstKind::Stmt => "Stmt",
        AstKind::Stmts => "Stmts",
        AstKind::Decl => "Decl",
        AstKind::Decls => "Decls",
    };
    push_char(&mut acc, '"');
    acc.append(kind_word);
    push_char(&mut acc, '"');
    let ghost g2 = g1 + ",\"astKind\":"@ + spec_json_string(spec_kind_word(t.ast_kind));
    proof {
        reveal_strlit("Expr");
        reveal_strlit("Stmt");
        reveal_strlit("Stmts");
        reveal_strlit("Decl");
        reveal_strlit("Decls");
        lemma_esc_plain(spec_kind_word(t.ast_kind));
        assert(acc@ =~= g2);
    }
    acc.append(",\"begin\":");
    append_json_bool(&mut acc, t.begin);
    let ghost g3 = g2 + ",\"begin\":"@ + spec_json_bool(t.begin);
    proof {
        assert(acc@ =~= g3);
    }
    acc.append(",\"canBeFn\":");
    append_json_bool(&mut acc, t.can_be_fn);
    let ghost g4 = g3 + ",\"canBeFn\":"@ + spec_json_bool(t.can_be_fn);
    proof {
        assert(acc@ =~= g4);
    }
    acc.append(",\"cuLnColBegin\":");
    append_json_string(&mut acc, &t.cu_ln_col_begin);
    let ghost g5 = g4 + ",\"cuLnColBegin\":"@ + spec_json_string(t@.cu_ln_col_begin);
    proof {
        assert(acc@ =~= g5);
    }
    acc.append(",\"cuLnColEnd\":");
    append_json_string(&mut acc, &t.cu_ln_col_end);
    let ghost g6 = g5 + ",\"cuLnColEnd\":"@ + spec_json_string(t@.cu_ln_col_end);
    proof {
        assert(acc@ =~= g6);
    }
    acc.append(",\"hayroll\":true,\"isArg\":");
    append_json_bool(&mut acc, t.is_arg);
    let ghost g7 = g6 + ",\"hayroll\":true,\"isArg\":"@ + spec_json_bool(t.is_arg);
    proof {
        assert(acc@ =~= g7);
    }
    acc.append(",\"isLvalue\":");
    append_json_bool(&mut acc, t.is_lvalue);
    let ghost g8 = g7 + ",\"isLvalue\":"@ + spec_json_bool(t.is_lvalue);
    proof {
        assert(acc@ =~= g8);
    }
    acc.append(",\"isPlaceholder\":");
    append_json_bool(&mut acc, t.is_placeholder);
    let ghost g9 = g8 + ",\"isPlaceholder\":"@ + spec_json_bool(t.is_placeholder);
    proof {
        assert(acc@ =~= g9);
    }
    acc.append(",\"locBegin\":");
    append_json_string(&mut acc, &t.loc_begin);
    let ghost g10 = g9 + ",\"locBegin\":"@ + spec_json_string(t@.loc_begin);
    proof {
        assert(acc@ =~= g10);
    }
    acc.append(",\"locEnd\":");
    append_json_string(&mut acc, &t.loc_end);
    let ghost g11 = g10 + ",\"locEnd\":"@ + spec_json_string(t@.loc_end);
    proof {
        assert(acc@ =~= g11);
    }
    acc.append(",\"locRefBegin\":");
    append_json_string(&mut acc, &t.loc_ref_begin);
    let ghost g12 = g11 + ",\"locRefBegin\":"@ + spec_json_string(t@.loc_ref_begin);
    proof {
        assert(acc@ =~= g12);
    }
    acc.append(",\"mergedVariants\":");
    append_json_str_array(&mut acc, &t.merged_variants);
    let ghost g13 = g12 + ",\"mergedVariants\":"@ + spec_json_str_array(t@.merged_variants);
    proof {
        assert(acc@ =~= g13);
    }
    acc.append(",\"name\":");
    append_json_string(&mut acc, &t.name);
    let ghost g14 = g13 + ",\"name\":"@ + spec_json_string(t@.name);
    proof {
        assert(acc@ =~= g14);
    }
    acc.append(",\"premise\":");
    append_json_string(&mut acc, &t.premise);
    let ghost g15 = g14 + ",\"premise\":"@ + spec_json_string(t@.premise);
    proof {
        assert(acc@ =~= g15);
    }
    acc.append(",\"seedType\":");
    let type_word = match t.seed_type {
        SeedType::Invocation => "invocation",
        SeedType::Conditional => "conditional",
    };
    push_char(&mut acc, '"');
    acc.append(type_word);
    push_char(&mut acc, '"');
    let ghost g16 = g15 + ",\"seedType\":"@ + spec_json_string(spec_seed_type_word(t.seed_type));
    proof {
        reveal_strlit("invocation");
        reveal_strlit("conditional");
        lemma_esc_plain(spec_seed_type_word(t.seed_type));
        assert(acc@ =~= g16);
    }
    acc.append("}");
    proof {
        assert(acc@ =~= g16 + "}"@);
        assert(g16 + "}"@ =~= spec_payload_of(t@));
    }
    acc
}

/// Escaping leaves a string of plain characters unchanged.
proof fn lemma_esc_plain(s: Seq<char>)
    requires
        forall|i: int|
            0 <= i < s.len() ==> #[trigger] s[i] != '"' && s[i] != '\\' && s[i] != '\n' && s[i]
                != '\t',
    ensures
        spec_esc(s) =~= s,
    decreases s.len(),
{
    if s.len() > 0 {
        assert forall|i: int|
            0 <= i < s.drop_last().len() implies #[trigger] s.drop_last()[i] != '"'
                && s.drop_last()[i] != '\\' && s.drop_last()[i] != '\n' && s.drop_last()[i]
                != '\t' by {
            assert(s.drop_last()[i] == s[i]);
        }
        lemma_esc_plain(s.drop_last());
        assert(s.last() == s[s.len() - 1]);
        assert(spec_esc_char(s.last()) =~= seq![s.last()]);
        assert(spec_esc(s) =~= s.drop_last() + seq![s.last()]);
        assert(s.drop_last() + seq![s.last()] =~= s);
    }
}

/// A cursor-driven best-effort scan of a candidate payload.  Its result is
/// trusted nowhere: `parse_tag_payload` re-serializes it and compares.
fn scan_payload(chars: &Vec<char>) -> (r: Option<TagPayload>) {
    let mut pos: usize = 0;
    if !expect_lit(chars, &mut pos, "{\"argNames\":") {
        return None;
    }
    let arg_names = match scan_str_array(chars, &mut pos) {
        Some(v) => v,
        None => {
            return None;
        },
    };
    if !expect_lit(chars, &mut pos, ",\"astKind\":") {
        return None;
    }
    let kind_word = match scan_string(chars, &mut pos) {
        Some(v) => v,
        None => {
            return None;
        },
    };
    let ast_kind = if kind_word.eq(&String::from_str("Expr")) {
        AstKind::Expr
    } else if kind_word.eq(&String::from_str("Stmt")) {
        AstKind::Stmt
    } else if kind_word.eq(&String::from_str("Stmts")) {
        AstKind::Stmts
    } else if kind_word.eq(&String::from_str("Decl")) {
        AstKind::Decl
    } else if kind_word.eq(&String::from_str("Decls")) {
        AstKind::Decls
    } else {
        return None;
    };
    if !expect_lit(chars, &mut pos, ",\"begin\":") {
        return None;
    }
    let begin = match scan_bool(chars, &mut pos) {
        Some(v) => v,
        None => {
            return None;
        },
    };
    if !expect_lit(chars, &mut pos, ",\"canBeFn\":") {
        return None;
    }
    let can_be_fn = match scan_bool(chars, &mut pos) {
        Some(v) => v,
        None => {
            return None;
        },
    };
    if !expect_lit(chars, &mut pos, ",\"cuLnColBegin\":") {
        return None;
    }
    let cu_ln_col_begin = match scan_string(chars, &mut pos) {
        Some(v) => v,
        None => {
            return None;
        },
    };
    if !expect_lit(chars, &mut pos, ",\"cuLnColEnd\":") {
        return None;
    }
    let cu_ln_col_end = match scan_string(chars, &mut pos) {
        Some(v) => v,
        None => {
            return None;
        },
    };
    if !expect_lit(chars, &mut pos, ",\"hayroll\":true,\"isArg\":") {
        return None;
    }
    let is_arg = match scan_bool(chars, &mut pos) {
        Some(v) => v,
        None => {
            return None;
        },
    };
    if !expect_lit(chars, &mut pos, ",\"isLvalue\":") {
        return None;
    }
    let is_lvalue = match scan_bool(chars, &mut pos) {
        Some(v) => v,
        None => {
            return None;
        },
    };
    if !expect_lit(chars, &mut pos, ",\"isPlaceholder\":") {
        return None;
    }
    let is_placeholder = match scan_bool(chars, &mut pos) {
        Some(v) => v,
        None => {
            return None;
        },
    };
    if !expect_lit(chars, &mut pos, ",\"locBegin\":") {
        return None;
    }
    let loc_begin = match scan_string(chars, &mut pos) {
        Some(v) => v,
        None => {
            return None;
        },
    };
    if !expect_lit(chars, &mut pos, ",\"locEnd\":") {
        return None;
    }
    let loc_end = match scan_string(chars, &mut pos) {
        Some(v) => v,
        None => {
            return None;
        },
    };
    if !expect_lit(chars, &mut pos, ",\"locRefBegin\":") {
        return None;
    }
    let loc_ref_begin = match scan_string(chars, &mut pos) {
        Some(v) => v,
        None => {
            return None;
        },
    };
    if !expect_lit(chars, &mut pos, ",\"mergedVariants\":") {
        return None;
    }
    let merged_variants = match scan_str_array(chars, &mut pos) {
        Some(v) => v,
        None => {
            return None;
        },
    };
    if !expect_lit(chars, &mut pos, ",\"name\":") {
        return None;
    }
    let name = match scan_string(chars, &mut pos) {
        Some(v) => v,
        None => {
            return None;
        },
    };
    if !expect_lit(chars, &mut pos, ",\"premise\":") {
        return None;
    }
    let premise = match scan_string(chars, &mut pos) {
        Some(v) => v,
        None => {
            return None;
        },
    };
    if !expect_lit(chars, &mut pos, ",\"seedType\":") {
        return None;
    }
    let type_word = match scan_string(chars, &mut pos) {
        Some(v) => v,
        None => {
            return None;
        },
    };
    let seed_type = if type_word.eq(&String::from_str("invocation")) {
        SeedType::Invocation
    } else if type_word.eq(&String::from_str("conditional")) {
        SeedType::Conditional
    } else {
        return None;
    };
    if !expect_lit(chars, &mut pos, "}") {
        return None;
    }
    if pos != chars.len() {
        return None;
    }
    Some(
        TagPayload {
            seed_type,
            is_arg,
            name,
            arg_names,
            loc_begin,
            loc_end,
            cu_ln_col_begin,
            cu_ln_col_end,
            loc_ref_begin,
            can_be_fn,
            is_lvalue,
            ast_kind,
            begin,
            is_placeholder,
            premise,
            merged_variants,
        },
    )
}

/// Advances over the exact literal, or fails.
fn expect_lit(chars: &Vec<char>, pos: &mut usize, lit: &str) -> (r: bool) {
    let n = lit.unicode_len();
    let mut i: usize = 0;
    while i < n
        invariant
            i <= n,
            n == lit@.len(),
        decreases n - i,
    {
        let p = *pos;
        if p >= chars.len() {
            return false;
        }
        if chars[p] != lit.get_char(i) {
            return false;
        }
        if p == usize::MAX {
            return false;
        }
        *pos = p + 1;
        i = i + 1;
    }
    true
}

/// Scans a quoted, escaped string value.
fn scan_string(chars: &Vec<char>, pos: &mut usize) -> (r: Option<String>) {
    let mut p = *pos;
    if p >= chars.len() || chars[p] != '"' {
        return None;
    }
    p = p + 1;
    let mut out = String::new();
    while p < chars.len() && chars[p] != '"'
        invariant
            p <= chars@.len(),
        decreases chars@.len() - p,
    {
        let c = chars[p];
        if c == '\\' {
            if p + 1 >= chars.len() {
                return None;
            }
            let e = chars[p + 1];
            if e == '"' {
                push_char(&mut out, '"');
            } else if e == '\\' {
                push_char(&mut out, '\\');
            } else if e == 'n' {
                push_char(&mut out, '\n');
            } else if e == 't' {
                push_char(&mut out, '\t');
            } else {
                return None;
            }
            p = p + 2;
        } else {
            push_char(&mut out, c);
            p = p + 1;
        }
    }
    if p >= chars.len() {
        return None;
    }
    *pos = p + 1;
    Some(out)
}

/// Scans `true` or `false`.
fn scan_bool(chars: &Vec<char>, pos: &mut usize) -> (r: Option<bool>) {
    if expect_lit(chars, pos, "true") {
        return Some(true);
    }
    if expect_lit(chars, pos, "false") {
        return Some(false);
    }
    None
}

/// Scans a `[...]` array of string values.
fn scan_str_array(chars: &Vec<char>, pos: &mut usize) -> (r: Option<Vec<String>>) {
    let mut p = *pos;
    if p >= chars.len() || chars[p] != '[' {
        return None;
    }
    p = p + 1;
    let mut out: Vec<String> = Vec::new();
    if p < chars.len() && chars[p] == ']' {
        *pos = p + 1;
        return Some(out);
    }
    let ghost limit = chars@.len();
    loop
        invariant
            p <= chars@.len(),
        decreases chars@.len() - p + 1,
    {
        *pos = p;
        let s = match scan_string(chars, pos) {
            Some(s) => s,
            None => {
                return None;
            },
        };
        out.push(s);
        let q = *pos;
        if q <= p || q > chars.len() {
            // the scan must make progress inside the array
            return None;
        }
        p = q;
        if p < chars.len() && chars[p] == ',' {
            p = p + 1;
        } else if p < chars.len() && chars[p] == ']' {
            *pos = p + 1;
            return Some(out);
        } else {
            return None;
        }
    }
}

/// Parses a candidate payload text.  The scan's result is checked by
/// re-serialization: an answer is returned only when its canonical text is
/// exactly the input, so whatever this accepts is the canonical payload of
/// the tag it returns.  That every canonical payload is in fact accepted
/// is exercised by the round-trip tests; stating it here would need a
/// proved inversion of the serializer, which this contract does not yet
/// carry.
pub fn parse_tag_payload(s: &str) -> (r: Option<TagPayload>)
    ensures
        r matches Some(t) ==> spec_payload_of(t@) == s@,
{
    let n = s.unicode_len();
    let mut chars: Vec<char> = Vec::new();
    let mut i: usize = 0;
    while i < n
        invariant
            i <= n,
            n == s@.len(),
            chars@ == s@.take(i as int),
        decreases n - i,
    {
        chars.push(s.get_char(i));
        proof {
            assert(chars@ =~= s@.take(i + 1));
        }
        i = i + 1;
    }
    proof {
        assert(s@.take(n as int) =~= s@);
    }
    let candidate = match scan_payload(&chars) {
        Some(t) => t,
        None => {
            return None;
        },
    };
    let canonical = payload_text(&candidate);
    let owned = s.to_owned();
    if canonical.eq(&owned) {
        Some(candidate)
    } else {
        None
    }
}

} // verus!
