//! Line/column positions used by declaration-shaped regions.
//!
//! A tag identifies a scattered declaration region by a compilation-unit
//! line:column range; declarations carry location-tracking attributes with
//! the same `line:col` textual form.  This module parses that form and
//! decides range containment.

use vstd::prelude::*;

verus! {

/// A compilation-unit position: 1-based line and column.
#[derive(Clone, Copy, PartialEq, Eq, Structural, Debug)]
pub struct LnCol {
    pub line: u32,
    pub col: u32,
}

/// An inclusive range of [`LnCol`] positions.
#[derive(Clone, Copy, PartialEq, Eq, Structural, Debug)]
pub struct LnColRange {
    pub start: LnCol,
    pub end: LnCol,
}

pub open spec fn spec_is_digit(c: char) -> bool {
    '0' as int <= c as int <= '9' as int
}

pub open spec fn spec_all_digits(s: Seq<char>) -> bool {
    forall|i: int| 0 <= i < s.len() ==> spec_is_digit(#[trigger] s[i])
}

/// The value of a digit string, most significant digit first.
pub open spec fn spec_dec_val(s: Seq<char>) -> nat
    decreases s.len(),
{
    if s.len() == 0 {
        0
    } else {
        (spec_dec_val(s.drop_last()) * 10 + (s.last() as int - '0' as int)) as nat
    }
}

/// Index of the first `:` in `s` at or after `i`, or -1 if there is none.
pub open spec fn spec_first_colon(s: Seq<char>, i: int) -> int
    decreases s.len() - i,
{
    if i < 0 || i >= s.len() {
        -1
    } else if s[i] == ':' {
        i
    } else {
        spec_first_colon(s, i + 1)
    }
}

/// A well-formed `line:col` text: one colon splitting two nonempty digit
/// runs of at most nine digits each (so both values fit in a `u32`).
pub open spec fn spec_ln_col_text_ok(s: Seq<char>) -> bool {
    let i = spec_first_colon(s, 0);
    &&& 1 <= i < s.len() - 1
    &&& s.len() - 1 - i <= 9
    &&& i <= 9
    &&& spec_all_digits(s.take(i))
    &&& spec_all_digits(s.skip(i + 1))
}

/// The position denoted by a well-formed `line:col` text.
pub open spec fn spec_ln_col_of(s: Seq<char>) -> LnCol {
    let i = spec_first_colon(s, 0);
    LnCol {
        line: spec_dec_val(s.take(i)) as u32,
        col: spec_dec_val(s.skip(i + 1)) as u32,
    }
}

pub open spec fn pow10(n: nat) -> nat
    decreases n,
{
    if n == 0 {
        1
    } else {
        10 * pow10((n - 1) as nat)
    }
}

proof fn lemma_pow10_nine()
    ensures
        pow10(9) == 1000000000,
{
    reveal_with_fuel(pow10, 10);
}

impl LnCol {
    pub fn new(line: u32, col: u32) -> (r: Self)
        ensures
            r == (LnCol { line, col }),
    {
        LnCol { line, col }
    }

    /// Parses a `line:col` text, reporting exactly the well-formed inputs.
    pub fn parse_cu_ln_col(s: &str) -> (r: Option<LnCol>)
        ensures
            r is Some <==> spec_ln_col_text_ok(s@),
            r is Some ==> r->Some_0 == spec_ln_col_of(s@),
    {
        let n = s.unicode_len();
        // find the first colon
        let mut ci: usize = 0;
        while ci < n && s.get_char(ci) != ':'
            invariant
                0 <= ci <= n,
                n == s@.len(),
                forall|j: int| 0 <= j < ci ==> s@[j] != ':',
            decreases n - ci,
        {
            ci = ci + 1;
        }
        proof {
            lemma_first_colon_found(s@, ci as int);
        }
        if ci >= n {
            return None;
        }
        assert(spec_first_colon(s@, 0) == ci as int);
        if ci < 1 || ci + 1 >= n || ci > 9 || n - 1 - ci > 9 {
            return None;
        }
        let line = match Self::parse_digits(s, 0, ci) {
            Some(v) => v,
            None => {
                return None;
            },
        };
        let col = match Self::parse_digits(s, ci + 1, n) {
            Some(v) => v,
            None => {
                return None;
            },
        };
        assert(s@.subrange(0, ci as int) =~= s@.take(ci as int));
        assert(s@.subrange(ci + 1, n as int) =~= s@.skip(ci + 1));
        Some(LnCol { line, col })
    }

    /// Parses the digit run `s[from..to]`, reporting exactly the all-digit runs.
    fn parse_digits(s: &str, from: usize, to: usize) -> (r: Option<u32>)
        requires
            from <= to <= s@.len(),
            to - from <= 9,
        ensures
            r is Some <==> spec_all_digits(s@.subrange(from as int, to as int)),
            r is Some ==> r->Some_0 == spec_dec_val(s@.subrange(from as int, to as int)),
    {
        let mut acc: u32 = 0;
        let mut i = from;
        while i < to
            invariant
                from <= i <= to <= s@.len(),
                to - from <= 9,
                spec_all_digits(s@.subrange(from as int, i as int)),
                acc == spec_dec_val(s@.subrange(from as int, i as int)),
                acc < pow10((i - from) as nat),
            decreases to - i,
        {
            let c = s.get_char(i);
            let cu = c as u32;
            if cu < 48 || cu > 57 {
                assert(!spec_is_digit(s@[i as int]));
                assert(s@.subrange(from as int, to as int)[i - from] == s@[i as int]);
                return None;
            }
            assert(spec_is_digit(s@[i as int]));
            proof {
                lemma_pow10_nine();
                lemma_pow10_le(((i - from) + 1) as nat, 9);
            }
            let d = cu - 48;
            acc = acc * 10 + d;
            proof {
                assert(s@.subrange(from as int, (i + 1) as int).drop_last() =~= s@.subrange(
                    from as int,
                    i as int,
                ));
                assert(s@.subrange(from as int, (i + 1) as int).last() == s@[i as int]);
            }
            i = i + 1;
        }
        assert(s@.subrange(from as int, to as int) =~= s@.subrange(from as int, i as int));
        Some(acc)
    }

    /// True when this position lies inside the inclusive range, by
    /// line/column containment: strictly inside the line span, or on a
    /// boundary line at a column no earlier (resp. no later) than the bound.
    pub fn is_within(&self, range: &LnColRange) -> (r: bool)
        ensures
            r == self.spec_is_within(*range),
    {
        if self.line < range.start.line || self.line > range.end.line {
            return false;
        }
        if self.line == range.start.line && self.col < range.start.col {
            return false;
        }
        if self.line == range.end.line && self.col > range.end.col {
            return false;
        }
        true
    }

    pub open spec fn spec_is_within(self, range: LnColRange) -> bool {
        &&& range.start.line <= self.line <= range.end.line
        &&& !(self.line == range.start.line && self.col < range.start.col)
        &&& !(self.line == range.end.line && self.col > range.end.col)
    }
}

proof fn lemma_pow10_le(a: nat, b: nat)
    requires
        a <= b,
    ensures
        pow10(a) <= pow10(b),
    decreases b,
{
    if a < b && b > 0 {
        lemma_pow10_le(a, (b - 1) as nat);
    }
}

proof fn lemma_first_colon_found(s: Seq<char>, ci: int)
    requires
        0 <= ci <= s.len(),
        forall|j: int| 0 <= j < ci ==> s[j] != ':',
        ci < s.len() ==> s[ci] == ':',
    ensures
        ci < s.len() ==> spec_first_colon(s, 0) == ci,
        ci == s.len() ==> spec_first_colon(s, 0) == -1,
{
    lemma_first_colon_step(s, 0, ci);
}

proof fn lemma_first_colon_step(s: Seq<char>, i: int, ci: int)
    requires
        0 <= i <= ci <= s.len(),
        forall|j: int| i <= j < ci ==> s[j] != ':',
        ci < s.len() ==> s[ci] == ':',
    ensures
        ci < s.len() ==> spec_first_colon(s, i) == ci,
        ci == s.len() ==> spec_first_colon(s, i) == -1,
    decreases ci - i,
{
    if i < ci {
        lemma_first_colon_step(s, i + 1, ci);
    }
}

} // verus!
