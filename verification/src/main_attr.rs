//! The decisions of the `hooch_main` attribute: which function it may wrap, and how
//! many workers its argument `workers = N` asks for.
//!
//! The argument is read as bytes. Its grammar: optional whitespace, an identifier,
//! optional whitespace, `=`, optional whitespace, an integer literal token, and then
//! nothing but whitespace. The identifier must be `workers`. A literal token is a run of
//! letters, digits and `_` that starts with a digit; it is read as Rust reads an integer
//! literal: an optional `0x`, `0o` or `0b` prefix, digits of that base with `_`
//! separators, and an optional suffix such as `usize`.
use vstd::prelude::*;

verus! {

/// The number of workers when the attribute has no argument.
pub const DEFAULT_NUM_WORKERS: usize = 1;

/// Why an argument was refused.
#[derive(Debug, PartialEq, Eq, Structural, Clone, Copy)]
pub enum WorkersAttrError {
    /// The text is not `identifier = integer` followed by whitespace only.
    Malformed,
    /// The identifier is not `workers`.
    NotWorkers,
    /// The number does not fit in a `usize`.
    TooLarge,
}

impl WorkersAttrError {
    /// The compile error's text for this refusal.
    pub open spec fn spec_message(&self) -> Seq<char> {
        match self {
            WorkersAttrError::Malformed => "expected `workers = <integer literal>`"@,
            WorkersAttrError::NotWorkers => "Expected `workers` argument"@,
            WorkersAttrError::TooLarge => "number too large to fit in target type"@,
        }
    }

    /// The compile error's text for this refusal.
    pub fn message(&self) -> (r: String)
        ensures
            r@ == self.spec_message(),
    {
        match self {
            WorkersAttrError::Malformed => "expected `workers = <integer literal>`".to_owned(),
            WorkersAttrError::NotWorkers => "Expected `workers` argument".to_owned(),
            WorkersAttrError::TooLarge => "number too large to fit in target type".to_owned(),
        }
    }
}

/// Why the attribute refused a function.
#[derive(Debug, PartialEq, Eq, Structural, Clone, Copy)]
pub enum MainAttrError {
    /// The function is not `main`.
    NotMain,
    /// The argument was refused.
    Attr(WorkersAttrError),
    /// The function is not `async`.
    NotAsync,
}

impl MainAttrError {
    /// The compile error's text for this refusal.
    pub open spec fn spec_message(&self) -> Seq<char> {
        match self {
            MainAttrError::NotMain => "hooch_main can only be used on 'main'"@,
            MainAttrError::Attr(e) => e.spec_message(),
            MainAttrError::NotAsync => "main must be async"@,
        }
    }

    /// The compile error's text for this refusal.
    pub fn message(&self) -> (r: String)
        ensures
            r@ == self.spec_message(),
    {
        match self {
            MainAttrError::NotMain => "hooch_main can only be used on 'main'".to_owned(),
            MainAttrError::Attr(e) => e.message(),
            MainAttrError::NotAsync => "main must be async".to_owned(),
        }
    }
}

pub open spec fn is_ws(c: u8) -> bool {
    c == 32 || c == 9 || c == 10 || c == 13
}

pub open spec fn is_digit(c: u8) -> bool {
    48 <= c <= 57
}

pub open spec fn is_ident_start(c: u8) -> bool {
    (65 <= c <= 90) || (97 <= c <= 122) || c == 95
}

pub open spec fn is_ident_continue(c: u8) -> bool {
    is_ident_start(c) || is_digit(c)
}

pub open spec fn all_ws(s: Seq<u8>) -> bool {
    forall|i: int| 0 <= i < s.len() ==> is_ws(#[trigger] s[i])
}

pub open spec fn is_ident(s: Seq<u8>) -> bool {
    &&& s.len() > 0
    &&& is_ident_start(s[0])
    &&& forall|i: int| 0 <= i < s.len() ==> is_ident_continue(#[trigger] s[i])
}

/// A literal token: a digit followed by letters, digits and `_`.
pub open spec fn is_int_literal(s: Seq<u8>) -> bool {
    &&& s.len() > 0
    &&& is_digit(s[0])
    &&& forall|i: int| 0 <= i < s.len() ==> is_ident_continue(#[trigger] s[i])
}

/// The base of a literal token: 16, 8 or 2 after a `0x`, `0o` or `0b` prefix, else 10.
pub open spec fn lit_base(t: Seq<u8>) -> nat {
    if t.len() >= 2 && t[0] == 48 && t[1] == 120 {
        16
    } else if t.len() >= 2 && t[0] == 48 && t[1] == 111 {
        8
    } else if t.len() >= 2 && t[0] == 48 && t[1] == 98 {
        2
    } else {
        10
    }
}

/// The length of a literal token's base prefix.
pub open spec fn lit_prefix_len(t: Seq<u8>) -> int {
    if lit_base(t) == 10 {
        0
    } else {
        2
    }
}

/// A byte read as a digit of a literal in `base`: `0`-`9` always, and `a`-`f`, `A`-`F`
/// in base 16. A decimal digit too large for the base still counts as a digit, which
/// makes the literal invalid.
pub open spec fn is_lit_digit(c: u8, base: nat) -> bool {
    is_digit(c) || (base == 16 && ((97 <= c <= 102) || (65 <= c <= 70)))
}

pub open spec fn is_digit_or_sep(c: u8, base: nat) -> bool {
    is_lit_digit(c, base) || c == 95
}

/// The value of a digit byte.
pub open spec fn digit_value(c: u8) -> nat {
    if is_digit(c) {
        (c - 48) as nat
    } else if 97 <= c <= 102 {
        (c - 87) as nat
    } else {
        (c - 55) as nat
    }
}

/// `t[from..e]` is the run of digits and `_` of `base` that starts at `from` and cannot
/// be extended.
pub open spec fn digit_run_at(t: Seq<u8>, base: nat, from: int, e: int) -> bool {
    &&& from <= e <= t.len()
    &&& forall|k: int| from <= k < e ==> is_digit_or_sep(#[trigger] t[k], base)
    &&& (e == t.len() || !is_digit_or_sep(t[e], base))
}

/// Where the digits of a literal token end and its suffix starts.
pub open spec fn digits_end(t: Seq<u8>) -> int {
    choose|e: int| digit_run_at(t, lit_base(t), lit_prefix_len(t), e)
}

/// The value of the digits `d` in `base`; `_` separators count for nothing.
pub open spec fn digits_value(d: Seq<u8>, base: nat) -> nat
    decreases d.len(),
{
    if d.len() == 0 {
        0
    } else if d.last() == 95 {
        digits_value(d.drop_last(), base)
    } else {
        digits_value(d.drop_last(), base) * base + digit_value(d.last())
    }
}

/// `d` holds at least one digit.
pub open spec fn has_digit(d: Seq<u8>) -> bool {
    exists|k: int| 0 <= k < d.len() && d[k] != 95
}

/// Every digit of `d` is smaller than `base`.
pub open spec fn digits_below_base(d: Seq<u8>, base: nat) -> bool {
    forall|k: int| 0 <= k < d.len() && d[k] != 95 ==> digit_value(#[trigger] d[k]) < base
}

/// The token ends in `f32` or `f64`, which makes it a float literal.
pub open spec fn float_suffix(t: Seq<u8>) -> bool {
    &&& t.len() >= 3
    &&& t[t.len() - 3] == 102
    &&& ((t[t.len() - 2] == 51 && t[t.len() - 1] == 50) || (t[t.len() - 2] == 54 && t[t.len()
        - 1] == 52))
}

/// A suffix that is a decimal exponent: `e` or `E` followed by `_`s and digits, with at
/// least one digit, which makes the token a float literal.
pub open spec fn exponent_suffix(suffix: Seq<u8>) -> bool {
    &&& suffix.len() > 0
    &&& (suffix[0] == 101 || suffix[0] == 69)
    &&& exists|j: int|
        1 <= j < suffix.len() && is_digit(#[trigger] suffix[j]) && forall|k: int|
            1 <= k < j ==> is_digit(#[trigger] suffix[k]) || suffix[k] == 95
}

/// The value of a literal token, or `None` when it is no integer literal: no digit, a
/// digit too large for its base, or, in base 10, a float's `f32`/`f64` suffix or
/// decimal exponent.
pub open spec fn int_literal_value(t: Seq<u8>) -> Option<nat> {
    let base = lit_base(t);
    let e = digits_end(t);
    let d = t.subrange(lit_prefix_len(t), e);
    if (base == 10 && float_suffix(t)) || !has_digit(d) || !digits_below_base(d, base) || (base == 10
        && exponent_suffix(t.subrange(e, t.len() as int))) {
        None
    } else {
        Some(digits_value(d, base))
    }
}

/// The bytes of `workers`.
pub open spec fn workers_name() -> Seq<u8> {
    seq![119u8, 111u8, 114u8, 107u8, 101u8, 114u8, 115u8]
}

/// The bytes of `main`.
pub open spec fn main_name() -> Seq<u8> {
    seq![109u8, 97u8, 105u8, 110u8]
}

/// `s` begins with `identifier = literal`, whitespace allowed around the `=` and before
/// the identifier, and `rest` follows the whole literal.
pub open spec fn attr_prefix(s: Seq<u8>, name: Seq<u8>, lit: Seq<u8>, rest: Seq<u8>) -> bool {
    &&& is_ident(name)
    &&& is_int_literal(lit)
    &&& (rest.len() == 0 || !is_ident_continue(rest[0]))
    &&& exists|w1: Seq<u8>, w2: Seq<u8>, w3: Seq<u8>|
        #![trigger all_ws(w1), all_ws(w2), all_ws(w3)]
        all_ws(w1) && all_ws(w2) && all_ws(w3) && s == w1 + name + w2 + seq![61u8] + w3 + lit
            + rest
}

/// What an argument read as `name = lit rest` asks for: the literal must be an integer
/// literal, then the name is checked, then the value's size, then what follows.
pub open spec fn prefix_result(name: Seq<u8>, lit: Seq<u8>, rest: Seq<u8>) -> Result<usize, WorkersAttrError> {
    match int_literal_value(lit) {
        None => Err(WorkersAttrError::Malformed),
        Some(v) => if name != workers_name() {
            Err(WorkersAttrError::NotWorkers)
        } else if v > usize::MAX {
            Err(WorkersAttrError::TooLarge)
        } else if !all_ws(rest) {
            Err(WorkersAttrError::Malformed)
        } else {
            Ok(v as usize)
        },
    }
}

/// What the argument `s` asks for: the number of workers, or why it is refused.
pub open spec fn workers_attr_result(s: Seq<u8>) -> Result<usize, WorkersAttrError> {
    if exists|name: Seq<u8>, lit: Seq<u8>, rest: Seq<u8>| attr_prefix(s, name, lit, rest) {
        let (name, lit, rest) = choose|name: Seq<u8>, lit: Seq<u8>, rest: Seq<u8>|
            attr_prefix(s, name, lit, rest);
        prefix_result(name, lit, rest)
    } else {
        Err(WorkersAttrError::Malformed)
    }
}

/// What the attribute decides for a function named `fn_name` with argument `attr`: the
/// name is checked first, then the argument (none means the default), then `async`.
pub open spec fn main_attr_result(fn_name: Seq<u8>, is_async: bool, attr: Seq<u8>) -> Result<
    usize,
    MainAttrError,
> {
    if fn_name != main_name() {
        Err(MainAttrError::NotMain)
    } else {
        let workers: Result<usize, WorkersAttrError> = if all_ws(attr) {
            Ok(DEFAULT_NUM_WORKERS)
        } else {
            workers_attr_result(attr)
        };
        match workers {
            Err(e) => Err(MainAttrError::Attr(e)),
            Ok(n) => if is_async {
                Ok(n)
            } else {
                Err(MainAttrError::NotAsync)
            },
        }
    }
}

/// `s[i..r]` is a whitespace run that cannot be extended.
spec fn ws_run(s: Seq<u8>, i: int, r: int) -> bool {
    &&& 0 <= i <= r <= s.len()
    &&& forall|k: int| i <= k < r ==> is_ws(#[trigger] s[k])
    &&& (r == s.len() || !is_ws(s[r]))
}

/// `s[i..r]` is an identifier that cannot be extended, or `r == i` when none starts at `i`.
spec fn ident_run(s: Seq<u8>, i: int, r: int) -> bool {
    &&& 0 <= i <= r <= s.len()
    &&& (r == i ==> i == s.len() || !is_ident_start(s[i]))
    &&& (r > i ==> {
        &&& is_ident_start(s[i])
        &&& (forall|k: int| i <= k < r ==> is_ident_continue(#[trigger] s[k]))
        &&& (r == s.len() || !is_ident_continue(s[r]))
    })
}

/// `s[i..r]` is a literal token that cannot be extended, or `r == i` when none starts
/// at `i`.
spec fn lit_run(s: Seq<u8>, i: int, r: int) -> bool {
    &&& 0 <= i <= r <= s.len()
    &&& (r == i ==> i == s.len() || !is_digit(s[i]))
    &&& (r > i ==> {
        &&& is_int_literal(s.subrange(i, r))
        &&& (r == s.len() || !is_ident_continue(s[r]))
    })
}

fn is_ws_byte(c: u8) -> (r: bool)
    ensures
        r == is_ws(c),
{
    c == 32 || c == 9 || c == 10 || c == 13
}

fn is_digit_byte(c: u8) -> (r: bool)
    ensures
        r == is_digit(c),
{
    48 <= c && c <= 57
}

fn is_ident_start_byte(c: u8) -> (r: bool)
    ensures
        r == is_ident_start(c),
{
    (65 <= c && c <= 90) || (97 <= c && c <= 122) || c == 95
}

/// The end of the whitespace run that starts at `i`.
fn skip_ws(s: &[u8], i: usize) -> (r: usize)
    requires
        i <= s@.len(),
    ensures
        ws_run(s@, i as int, r as int),
{
    let mut j = i;
    while j < s.len() && is_ws_byte(s[j])
        invariant
            i <= j <= s@.len(),
            forall|k: int| i <= k < j ==> is_ws(#[trigger] s@[k]),
        decreases s@.len() - j,
    {
        j = j + 1;
    }
    j
}

/// The end of the identifier that starts at `i`, or `i` when none starts there.
fn scan_ident(s: &[u8], i: usize) -> (r: usize)
    requires
        i <= s@.len(),
    ensures
        ident_run(s@, i as int, r as int),
{
    if i >= s.len() || !is_ident_start_byte(s[i]) {
        return i;
    }
    let mut j = i + 1;
    while j < s.len() && (is_ident_start_byte(s[j]) || is_digit_byte(s[j]))
        invariant
            i < j <= s@.len(),
            is_ident_start(s@[i as int]),
            forall|k: int| i <= k < j ==> is_ident_continue(#[trigger] s@[k]),
        decreases s@.len() - j,
    {
        j = j + 1;
    }
    j
}

/// The end of the literal token that starts at `i`, or `i` when none starts there.
fn scan_literal(s: &[u8], i: usize) -> (r: usize)
    requires
        i <= s@.len(),
    ensures
        lit_run(s@, i as int, r as int),
{
    if i >= s.len() || !is_digit_byte(s[i]) {
        return i;
    }
    let mut j = i;
    while j < s.len() && (is_ident_start_byte(s[j]) || is_digit_byte(s[j]))
        invariant
            i <= j <= s@.len(),
            is_digit(s@[i as int]),
            forall|k: int| i <= k < j ==> is_ident_continue(#[trigger] s@[k]),
        decreases s@.len() - j,
    {
        j = j + 1;
    }
    proof {
        let lit = s@.subrange(i as int, j as int);
        assert(lit[0] == s@[i as int]);
        assert forall|k: int| 0 <= k < lit.len() implies is_ident_continue(#[trigger] lit[k]) by {
            assert(lit[k] == s@[i + k]);
        }
    }
    j
}

/// The bytes `s[start..end]`.
fn copy_range(s: &[u8], start: usize, end: usize) -> (r: Vec<u8>)
    requires
        start <= end <= s@.len(),
    ensures
        r@ == s@.subrange(start as int, end as int),
{
    let mut out: Vec<u8> = Vec::new();
    let mut k = start;
    while k < end
        invariant
            start <= k <= end <= s@.len(),
            out@ == s@.subrange(start as int, k as int),
        decreases end - k,
    {
        out.push(s[k]);
        k = k + 1;
        proof {
            assert(out@ =~= s@.subrange(start as int, k as int));
        }
    }
    out
}

fn is_lit_digit_byte(c: u8, base: usize) -> (r: bool)
    ensures
        r == is_lit_digit(c, base as nat),
{
    (48 <= c && c <= 57) || (base == 16 && ((97 <= c && c <= 102) || (65 <= c && c <= 70)))
}

fn digit_value_of(c: u8) -> (r: usize)
    requires
        is_lit_digit(c, 16),
    ensures
        r == digit_value(c),
        r < 16,
{
    if 48 <= c && c <= 57 {
        (c - 48) as usize
    } else if 97 <= c && c <= 102 {
        (c - 87) as usize
    } else {
        (c - 55) as usize
    }
}

/// A digit run that cannot be extended is the one `digits_end` names.
proof fn lemma_digits_end(t: Seq<u8>, e: int)
    requires
        digit_run_at(t, lit_base(t), lit_prefix_len(t), e),
    ensures
        digits_end(t) == e,
{
    let base = lit_base(t);
    let q = digits_end(t);
    assert(digit_run_at(t, base, lit_prefix_len(t), q));
    if q < e {
        assert(is_digit_or_sep(t[q], base));
    } else if e < q {
        assert(is_digit_or_sep(t[e], base));
    }
}

/// One more digit or separator read into the run `t[p..j]`.
proof fn lemma_digit_step(t: Seq<u8>, p: int, j: int, base: nat)
    requires
        0 <= p <= j < t.len(),
        base >= 2,
    ensures
        t.subrange(p, j + 1).drop_last() == t.subrange(p, j),
        t.subrange(p, j + 1).last() == t[j],
        has_digit(t.subrange(p, j + 1)) == (has_digit(t.subrange(p, j)) || t[j] != 95),
        digits_below_base(t.subrange(p, j + 1), base) == (digits_below_base(t.subrange(p, j), base)
            && (t[j] == 95 || digit_value(t[j]) < base)),
        digits_value(t.subrange(p, j + 1), base) >= digits_value(t.subrange(p, j), base),
{
    let d = t.subrange(p, j);
    let d1 = t.subrange(p, j + 1);
    assert(d1.drop_last() =~= d);
    assert(d1[d1.len() - 1] == t[j]);
    if has_digit(d) {
        let k = choose|k: int| 0 <= k < d.len() && d[k] != 95;
        assert(d1[k] == d[k]);
    }
    if t[j] != 95 {
        assert(d1[j - p] == t[j]);
    }
    if has_digit(d1) {
        let k = choose|k: int| 0 <= k < d1.len() && d1[k] != 95;
        if k < d.len() {
            assert(d[k] == d1[k]);
        }
    }
    assert forall|k: int| 0 <= k < d.len() implies d1[k] == d[k] by {}
    if t[j] != 95 {
        let x = digits_value(d, base);
        assert(x * base >= x) by (nonlinear_arith)
            requires
                base >= 2,
        ;
    }
}

/// The value of the integer literal `t`, when it is one: the value when it fits in a
/// `usize`, and whether it does not.
#[verifier::rlimit(40)]
fn eval_literal(t: &[u8]) -> (r: Option<(usize, bool)>)
    requires
        is_int_literal(t@),
    ensures
        match int_literal_value(t@) {
            None => r is None,
            Some(v) => r matches Some((x, over)) && over == (v > usize::MAX) && (!over ==> x == v),
        },
{
    let n = t.len();
    let base: usize;
    let p: usize;
    if n >= 2 && t[0] == 48 && t[1] == 120 {
        base = 16;
        p = 2;
    } else if n >= 2 && t[0] == 48 && t[1] == 111 {
        base = 8;
        p = 2;
    } else if n >= 2 && t[0] == 48 && t[1] == 98 {
        base = 2;
        p = 2;
    } else {
        base = 10;
        p = 0;
    }
    let ghost tt = t@;
    assert(base == lit_base(tt) && p == lit_prefix_len(tt));
    let mut j = p;
    let mut value: usize = 0;
    let mut over = false;
    let mut seen = false;
    let mut bad = false;
    proof {
        assert(tt.subrange(p as int, p as int) =~= Seq::<u8>::empty());
    }
    while j < n && (is_lit_digit_byte(t[j], base) || t[j] == 95)
        invariant
            p <= j <= n,
            n == tt.len(),
            tt == t@,
            base == lit_base(tt),
            p == lit_prefix_len(tt),
            2 <= base <= 16,
            forall|k: int| p <= k < j ==> is_digit_or_sep(#[trigger] tt[k], base as nat),
            seen == has_digit(tt.subrange(p as int, j as int)),
            bad == !digits_below_base(tt.subrange(p as int, j as int), base as nat),
            over == (digits_value(tt.subrange(p as int, j as int), base as nat) > usize::MAX),
            !over ==> value == digits_value(tt.subrange(p as int, j as int), base as nat),
        decreases n - j,
    {
        let c = t[j];
        proof {
            lemma_digit_step(tt, p as int, j as int, base as nat);
        }
        if c != 95 {
            seen = true;
            let dv = digit_value_of(c);
            if dv >= base {
                bad = true;
            }
            if !over {
                match value.checked_mul(base) {
                    Some(m) => match m.checked_add(dv) {
                        Some(v) => {
                            value = v;
                        },
                        None => {
                            over = true;
                        },
                    },
                    None => {
                        proof {
                            assert(value * base + dv >= value * base);
                        }
                        over = true;
                    },
                }
            }
        }
        j = j + 1;
    }
    proof {
        lemma_digits_end(tt, j as int);
    }
    if base == 10 && n >= 3 && t[n - 3] == 102 && ((t[n - 2] == 51 && t[n - 1] == 50) || (t[n - 2] == 54 && t[n
        - 1] == 52)) {
        return None;
    }
    if !seen || bad {
        return None;
    }
    let ghost suffix = tt.subrange(j as int, n as int);
    if base == 10 && j < n && (t[j] == 101 || t[j] == 69) {
        let mut k = j + 1;
        let mut found = false;
        while k < n && (is_digit_byte(t[k]) || t[k] == 95)
            invariant
                j < k <= n,
                n == tt.len(),
                tt == t@,
                forall|m: int| j < m < k ==> is_digit(#[trigger] tt[m]) || tt[m] == 95,
                found == exists|m: int| j < m < k && is_digit(#[trigger] tt[m]),
            decreases n - k,
        {
            if is_digit_byte(t[k]) {
                found = true;
            }
            k = k + 1;
        }
        proof {
            assert(suffix[0] == tt[j as int]);
            if found {
                let m = choose|m: int| j < m < k && is_digit(#[trigger] tt[m]);
                assert(suffix[m - j] == tt[m]);
                assert forall|q: int| 1 <= q < m - j implies is_digit(#[trigger] suffix[q])
                    || suffix[q] == 95 by {
                    assert(suffix[q] == tt[j + q]);
                }
            } else {
                if exponent_suffix(suffix) {
                    let jj = choose|jj: int|
                        1 <= jj < suffix.len() && is_digit(#[trigger] suffix[jj]) && forall|q: int|
                            1 <= q < jj ==> is_digit(#[trigger] suffix[q]) || suffix[q] == 95;
                    assert(suffix[jj] == tt[j + jj]);
                    if j + jj < k {
                        assert(is_digit(tt[j + jj]));
                    } else {
                        assert(suffix[k - j] == tt[k as int]);
                        assert(is_digit(suffix[k - j]) || suffix[k - j] == 95);
                    }
                }
            }
        }
        if found {
            return None;
        }
    }
    proof {
        if !(base == 10 && j < n && (t[j as int] == 101 || t[j as int] == 69)) {
            if j < n {
                assert(suffix[0] == tt[j as int]);
            }
        }
    }
    Some((value, over))
}

/// Whether `s[start..end]` spells `workers`.
fn spells_workers(s: &[u8], start: usize, end: usize) -> (r: bool)
    requires
        start <= end <= s@.len(),
    ensures
        r == (s@.subrange(start as int, end as int) == workers_name()),
{
    let name: [u8; 7] = [119, 111, 114, 107, 101, 114, 115];
    proof {
        assert(name@ =~= workers_name());
    }
    if end - start != 7 {
        return false;
    }
    let mut k: usize = 0;
    while k < 7
        invariant
            k <= 7,
            end - start == 7,
            start <= end <= s@.len(),
            name@ == workers_name(),
            forall|m: int| 0 <= m < k ==> s@[start + m] == name@[m],
        decreases 7 - k,
    {
        if s[start + k] != name[k] {
            proof {
                assert(s@.subrange(start as int, end as int)[k as int] != workers_name()[k as int]);
            }
            return false;
        }
        k = k + 1;
    }
    proof {
        assert(s@.subrange(start as int, end as int) =~= workers_name());
    }
    true
}

/// The boundaries that any reading of `s` as `identifier = literal rest` has.
#[verifier::rlimit(80)]
proof fn lemma_prefix_boundaries(s: Seq<u8>, name: Seq<u8>, lit: Seq<u8>, rest: Seq<u8>) -> (q: (
    int,
    int,
    int,
    int,
    int,
))
    requires
        attr_prefix(s, name, lit, rest),
    ensures
        0 <= q.0 <= q.1 <= q.2 < q.3 <= q.4 <= s.len(),
        forall|k: int| 0 <= k < q.0 ==> is_ws(#[trigger] s[k]),
        q.0 < q.1,
        is_ident_start(s[q.0]),
        forall|k: int| q.0 <= k < q.1 ==> is_ident_continue(#[trigger] s[k]),
        !is_ident_continue(s[q.1]),
        forall|k: int| q.1 <= k < q.2 ==> is_ws(#[trigger] s[k]),
        s[q.2] == 61,
        forall|k: int| q.2 + 1 <= k < q.3 ==> is_ws(#[trigger] s[k]),
        q.3 < q.4,
        is_digit(s[q.3]),
        forall|k: int| q.3 <= k < q.4 ==> is_ident_continue(#[trigger] s[k]),
        q.4 == s.len() || !is_ident_continue(s[q.4]),
        s.subrange(q.0, q.1) == name,
        s.subrange(q.3, q.4) == lit,
        s.subrange(q.4, s.len() as int) == rest,
{
    let (w1, w2, w3) = choose|w1: Seq<u8>, w2: Seq<u8>, w3: Seq<u8>|
        #![trigger all_ws(w1), all_ws(w2), all_ws(w3)]
        all_ws(w1) && all_ws(w2) && all_ws(w3) && s == w1 + name + w2 + seq![61u8] + w3 + lit
            + rest;
    let q = lemma_split(s, w1, name, w2, w3, lit, rest);
    let (p0, p1, p2, p3, p4) = q;
    assert forall|k: int| 0 <= k < p0 implies is_ws(#[trigger] s[k]) by {
        assert(s[k] == s.subrange(0, p0)[k]);
    }
    assert(s[p0] == s.subrange(p0, p1)[0]);
    assert forall|k: int| p0 <= k < p1 implies is_ident_continue(#[trigger] s[k]) by {
        assert(s[k] == s.subrange(p0, p1)[k - p0]);
    }
    if p2 > p1 {
        assert(s[p1] == s.subrange(p1, p2)[0]);
    }
    assert forall|k: int| p1 <= k < p2 implies is_ws(#[trigger] s[k]) by {
        assert(s[k] == s.subrange(p1, p2)[k - p1]);
    }
    assert forall|k: int| p2 + 1 <= k < p3 implies is_ws(#[trigger] s[k]) by {
        assert(s[k] == s.subrange(p2 + 1, p3)[k - p2 - 1]);
    }
    assert(s[p3] == s.subrange(p3, p4)[0]);
    assert forall|k: int| p3 <= k < p4 implies is_ident_continue(#[trigger] s[k]) by {
        assert(s[k] == s.subrange(p3, p4)[k - p3]);
    }
    if p4 < s.len() {
        assert(s[p4] == s.subrange(p4, s.len() as int)[0]);
    }
    q
}

/// Where the parts of `w1 + name + w2 + "=" + w3 + lit + rest` lie.
#[verifier::rlimit(40)]
proof fn lemma_split(
    s: Seq<u8>,
    w1: Seq<u8>,
    name: Seq<u8>,
    w2: Seq<u8>,
    w3: Seq<u8>,
    lit: Seq<u8>,
    rest: Seq<u8>,
) -> (q: (int, int, int, int, int))
    requires
        s == w1 + name + w2 + seq![61u8] + w3 + lit + rest,
    ensures
        q.0 == w1.len(),
        q.1 == q.0 + name.len(),
        q.2 == q.1 + w2.len(),
        q.3 == q.2 + 1 + w3.len(),
        q.4 == q.3 + lit.len(),
        q.4 + rest.len() == s.len(),
        s.subrange(0, q.0) == w1,
        s.subrange(q.0, q.1) == name,
        s.subrange(q.1, q.2) == w2,
        s[q.2] == 61,
        s.subrange(q.2 + 1, q.3) == w3,
        s.subrange(q.3, q.4) == lit,
        s.subrange(q.4, s.len() as int) == rest,
{
    let p0 = w1.len() as int;
    let p1 = p0 + name.len();
    let p2 = p1 + w2.len();
    let p3 = p2 + 1 + w3.len();
    let p4 = p3 + lit.len();
    assert(s.subrange(0, p0) =~= w1);
    assert(s.subrange(p0, p1) =~= name);
    assert(s.subrange(p1, p2) =~= w2);
    assert(s[p2] == 61);
    assert(s.subrange(p2 + 1, p3) =~= w3);
    assert(s.subrange(p3, p4) =~= lit);
    assert(s.subrange(p4, s.len() as int) =~= rest);
    (p0, p1, p2, p3, p4)
}

/// A whitespace run that cannot be extended ends where any other such run from the same
/// start ends.
proof fn lemma_ws_run_unique(s: Seq<u8>, i: int, r: int, q: int)
    requires
        ws_run(s, i, r),
        i <= q <= s.len(),
        forall|k: int| i <= k < q ==> is_ws(#[trigger] s[k]),
        q == s.len() || !is_ws(s[q]),
    ensures
        r == q,
{
    if r < q {
        assert(is_ws(s[r]));
    } else if q < r {
        assert(is_ws(s[q]));
    }
}

/// Any reading of `s` as `identifier = literal rest` has the boundaries that the
/// scanners find.
#[verifier::rlimit(30)]
proof fn lemma_scanners_find_prefix(
    s: Seq<u8>,
    p0: int,
    p1: int,
    p2: int,
    p3: int,
    p4: int,
    name: Seq<u8>,
    lit: Seq<u8>,
    rest: Seq<u8>,
)
    requires
        ws_run(s, 0, p0),
        ident_run(s, p0, p1),
        ws_run(s, p1, p2),
        p1 > p0 && p2 < s.len() && s[p2] == 61 ==> ws_run(s, p2 + 1, p3),
        lit_run(s, p3, p4),
        attr_prefix(s, name, lit, rest),
    ensures
        p1 > p0,
        p2 < s.len(),
        s[p2] == 61,
        p4 > p3,
        name == s.subrange(p0, p1),
        lit == s.subrange(p3, p4),
        rest == s.subrange(p4, s.len() as int),
{
    let q = lemma_prefix_boundaries(s, name, lit, rest);
    lemma_ws_run_unique(s, 0, p0, q.0);
    lemma_ident_run_unique(s, p0, p1, q.1);
    lemma_ws_run_unique(s, p1, p2, q.2);
    lemma_ws_run_unique(s, p2 + 1, p3, q.3);
    lemma_lit_run_unique(s, p3, p4, q.4);
}

/// An identifier that cannot be extended ends where any other such identifier from the
/// same start ends.
proof fn lemma_ident_run_unique(s: Seq<u8>, i: int, r: int, q: int)
    requires
        ident_run(s, i, r),
        i < q <= s.len(),
        is_ident_start(s[i]),
        forall|k: int| i <= k < q ==> is_ident_continue(#[trigger] s[k]),
        q == s.len() || !is_ident_continue(s[q]),
    ensures
        r == q,
{
    if r < q {
        assert(is_ident_continue(s[r]));
    } else if q < r {
        assert(is_ident_continue(s[q]));
    }
}

/// A literal that cannot be extended ends where any other such literal from the same
/// start ends.
proof fn lemma_lit_run_unique(s: Seq<u8>, i: int, r: int, q: int)
    requires
        lit_run(s, i, r),
        i < q <= s.len(),
        is_digit(s[i]),
        forall|k: int| i <= k < q ==> is_ident_continue(#[trigger] s[k]),
        q == s.len() || !is_ident_continue(s[q]),
    ensures
        r == q,
{
    if r < q {
        assert(is_ident_continue(s[r]));
    } else if q < r {
        assert(s.subrange(i, r)[q - i] == s[q]);
    }
}

/// When the scanners find no `identifier = literal` at the start, no reading of `s`
/// has one.
proof fn lemma_malformed(s: Seq<u8>, p0: int, p1: int, p2: int, p3: int, p4: int)
    requires
        ws_run(s, 0, p0),
        ident_run(s, p0, p1),
        ws_run(s, p1, p2),
        p1 > p0 && p2 < s.len() && s[p2] == 61 ==> ws_run(s, p2 + 1, p3),
        lit_run(s, p3, p4),
        !(p1 > p0 && p2 < s.len() && s[p2] == 61) || p4 == p3,
    ensures
        workers_attr_result(s) == Err::<usize, WorkersAttrError>(WorkersAttrError::Malformed),
{
    if exists|name: Seq<u8>, lit: Seq<u8>, rest: Seq<u8>| attr_prefix(s, name, lit, rest) {
        let (name, lit, rest) = choose|name: Seq<u8>, lit: Seq<u8>, rest: Seq<u8>|
            attr_prefix(s, name, lit, rest);
        lemma_scanners_find_prefix(s, p0, p1, p2, p3, p4, name, lit, rest);
    }
}

/// When the scanners find `identifier = literal` at the start, that is the reading that
/// decides the result.
#[verifier::rlimit(30)]
proof fn lemma_parsed(s: Seq<u8>, p0: int, p1: int, p2: int, p3: int, p4: int)
    requires
        ws_run(s, 0, p0),
        ident_run(s, p0, p1),
        ws_run(s, p1, p2),
        p1 > p0,
        p2 < s.len(),
        s[p2] == 61,
        ws_run(s, p2 + 1, p3),
        lit_run(s, p3, p4),
        p4 > p3,
    ensures
        workers_attr_result(s) == prefix_result(
            s.subrange(p0, p1),
            s.subrange(p3, p4),
            s.subrange(p4, s.len() as int),
        ),
{
    let name = s.subrange(p0, p1);
    let lit = s.subrange(p3, p4);
    let rest = s.subrange(p4, s.len() as int);
    let w1 = s.subrange(0, p0);
    let w2 = s.subrange(p1, p2);
    let w3 = s.subrange(p2 + 1, p3);
    assert(all_ws(w1) && all_ws(w2) && all_ws(w3));
    assert(s =~= w1 + name + w2 + seq![61u8] + w3 + lit + rest);
    assert(is_ident(name));
    assert(attr_prefix(s, name, lit, rest));
    let (n2, l2, r2) = choose|name: Seq<u8>, lit: Seq<u8>, rest: Seq<u8>|
        attr_prefix(s, name, lit, rest);
    lemma_scanners_find_prefix(s, p0, p1, p2, p3, p4, n2, l2, r2);
}

/// Whatever follows the literal is whitespace only exactly when the whitespace run after
/// it reaches the end.
proof fn lemma_rest_blank(s: Seq<u8>, p4: int, p5: int)
    requires
        ws_run(s, p4, p5),
    ensures
        all_ws(s.subrange(p4, s.len() as int)) == (p5 == s.len()),
{
    let rest = s.subrange(p4, s.len() as int);
    if p5 == s.len() {
        assert forall|k: int| 0 <= k < rest.len() implies is_ws(#[trigger] rest[k]) by {
            assert(rest[k] == s[p4 + k]);
        }
    } else {
        assert(rest[p5 - p4] == s[p5]);
    }
}

/// Reads the argument of `hooch_main`: the number of workers that `workers = N` asks
/// for, or why the argument is refused.
#[verifier::rlimit(30)]
pub fn parse_workers_attr(attr: &[u8]) -> (r: Result<usize, WorkersAttrError>)
    ensures
        r == workers_attr_result(attr@),
{
    let p0 = skip_ws(attr, 0);
    let p1 = scan_ident(attr, p0);
    let p2 = skip_ws(attr, p1);
    let has_eq = p1 > p0 && p2 < attr.len() && attr[p2] == 61;
    let p3 = if has_eq {
        skip_ws(attr, p2 + 1)
    } else {
        p2
    };
    let p4 = scan_literal(attr, p3);
    if !has_eq || p4 == p3 {
        proof {
            lemma_malformed(attr@, p0 as int, p1 as int, p2 as int, p3 as int, p4 as int);
        }
        return Err(WorkersAttrError::Malformed);
    }
    let p5 = skip_ws(attr, p4);
    proof {
        lemma_parsed(attr@, p0 as int, p1 as int, p2 as int, p3 as int, p4 as int);
        lemma_rest_blank(attr@, p4 as int, p5 as int);
    }
    let lit = copy_range(attr, p3, p4);
    let (value, over) = match eval_literal(lit.as_slice()) {
        None => {
            return Err(WorkersAttrError::Malformed);
        },
        Some(pair) => pair,
    };
    if !spells_workers(attr, p0, p1) {
        return Err(WorkersAttrError::NotWorkers);
    }
    if over {
        return Err(WorkersAttrError::TooLarge);
    }
    if p5 != attr.len() {
        return Err(WorkersAttrError::Malformed);
    }
    Ok(value)
}

/// Whether every byte of `s` is whitespace, so that the attribute has no argument.
fn is_blank(s: &[u8]) -> (r: bool)
    ensures
        r == all_ws(s@),
{
    let e = skip_ws(s, 0);
    proof {
        if e < s@.len() {
            assert(!is_ws(s@[e as int]));
        }
    }
    e == s.len()
}

/// Whether `s` spells `main`.
fn spells_main(s: &[u8]) -> (r: bool)
    ensures
        r == (s@ == main_name()),
{
    let name: [u8; 4] = [109, 97, 105, 110];
    proof {
        assert(name@ =~= main_name());
    }
    if s.len() != 4 {
        return false;
    }
    let mut k: usize = 0;
    while k < 4
        invariant
            k <= 4,
            s@.len() == 4,
            name@ == main_name(),
            forall|m: int| 0 <= m < k ==> s@[m] == name@[m],
        decreases 4 - k,
    {
        if s[k] != name[k] {
            return false;
        }
        k = k + 1;
    }
    proof {
        assert(s@ =~= main_name());
    }
    true
}

/// What `hooch_main` decides for a function named `fn_name`, `async` or not, with the
/// argument text `attr`: the number of workers of the runtime that runs it, or why the
/// function is refused.
pub fn main_attr_workers(fn_name: &[u8], is_async: bool, attr: &[u8]) -> (r: Result<
    usize,
    MainAttrError,
>)
    ensures
        r == main_attr_result(fn_name@, is_async, attr@),
{
    if !spells_main(fn_name) {
        return Err(MainAttrError::NotMain);
    }
    let workers = if is_blank(attr) {
        DEFAULT_NUM_WORKERS
    } else {
        match parse_workers_attr(attr) {
            Ok(n) => n,
            Err(e) => {
                return Err(MainAttrError::Attr(e));
            },
        }
    };
    if !is_async {
        return Err(MainAttrError::NotAsync);
    }
    Ok(workers)
}

/// Only `async fn main` is accepted: a function whose name is anything but the four
/// bytes `m`, `a`, `i`, `n` is refused as not `main`, whatever its argument, and an
/// accepted function is `async`.
pub proof fn law_only_async_main_is_accepted(fn_name: Seq<u8>, is_async: bool, attr: Seq<u8>)
    ensures
        fn_name != seq![109u8, 97u8, 105u8, 110u8] ==> main_attr_result(fn_name, is_async, attr)
            == Err::<usize, MainAttrError>(MainAttrError::NotMain),
        main_attr_result(fn_name, is_async, attr) is Ok ==> fn_name == seq![
            109u8,
            97u8,
            105u8,
            110u8,
        ] && is_async,
{
    assert(main_name() =~= seq![109u8, 97u8, 105u8, 110u8]);
}

/// Without an argument, `async fn main` is accepted with one worker, and a `main` that
/// is not `async` is refused as such.
pub proof fn law_main_without_argument(is_async: bool, attr: Seq<u8>)
    requires
        forall|i: int| 0 <= i < attr.len() ==> #[trigger] attr[i] == 32u8 || attr[i] == 9u8
            || attr[i] == 10u8 || attr[i] == 13u8,
    ensures
        main_attr_result(seq![109u8, 97u8, 105u8, 110u8], is_async, attr) == if is_async {
            Ok::<usize, MainAttrError>(1)
        } else {
            Err(MainAttrError::NotAsync)
        },
{
    assert(main_name() =~= seq![109u8, 97u8, 105u8, 110u8]);
    assert(all_ws(attr));
}

/// The argument `workers = NM`, with two decimal digits `N` and `M`, asks for the number
/// `10 * N + M`; on `async fn main` that is the number of workers.
pub proof fn law_two_digit_workers(c1: u8, c2: u8)
    requires
        48 <= c1 <= 57,
        48 <= c2 <= 57,
    ensures
        main_attr_result(
            seq![109u8, 97u8, 105u8, 110u8],
            true,
            seq![119u8, 111u8, 114u8, 107u8, 101u8, 114u8, 115u8, 32u8, 61u8, 32u8, c1, c2],
        ) == Ok::<usize, MainAttrError>((10 * (c1 - 48) + (c2 - 48)) as usize),
{
    let s = seq![119u8, 111u8, 114u8, 107u8, 101u8, 114u8, 115u8, 32u8, 61u8, 32u8, c1, c2];
    assert(main_name() =~= seq![109u8, 97u8, 105u8, 110u8]);
    assert(!is_ws(s[0]));
    assert(!all_ws(s));
    assert(ws_run(s, 0, 0));
    assert(ident_run(s, 0, 7));
    assert(ws_run(s, 7, 8));
    assert(ws_run(s, 9, 10));
    let lit = s.subrange(10, 12);
    assert(lit =~= seq![c1, c2]);
    assert(is_int_literal(lit));
    assert(lit_run(s, 10, 12));
    lemma_parsed(s, 0, 7, 8, 10, 12);
    assert(s.subrange(0, 7) =~= workers_name());
    assert(s.subrange(12, 12) =~= Seq::<u8>::empty());
    assert(lit_base(lit) == 10);
    assert(digit_run_at(lit, 10, 0, 2));
    lemma_digits_end(lit, 2);
    assert(lit.subrange(0, 2) =~= lit);
    assert(lit[0] != 95);
    assert(has_digit(lit));
    assert(lit.drop_last() =~= seq![c1]);
    assert(lit.drop_last().drop_last() =~= Seq::<u8>::empty());
    assert(seq![c1].drop_last() =~= Seq::<u8>::empty());
    assert(digits_value(Seq::<u8>::empty(), 10) == 0);
    assert(seq![c1].last() == c1);
    assert(digits_value(seq![c1], 10) == digit_value(c1));
    assert(lit.last() == c2);
    assert(digits_value(lit, 10) == 10 * (c1 - 48) + (c2 - 48));
    assert(!float_suffix(lit));
    assert(!exponent_suffix(lit.subrange(2, 2)));
}

/// An argument whose identifier is any other than `workers` is refused as such, with
/// any integer value, once the text reads `name = literal`.
pub proof fn law_other_name_refused(name: Seq<u8>, c: u8)
    requires
        48 <= c <= 57,
        name.len() > 0,
        97 <= name[0] <= 122,
        forall|i: int| 0 <= i < name.len() ==> 97 <= #[trigger] name[i] <= 122,
        name != seq![119u8, 111u8, 114u8, 107u8, 101u8, 114u8, 115u8],
    ensures
        main_attr_result(seq![109u8, 97u8, 105u8, 110u8], true, name + seq![61u8, c])
            == Err::<usize, MainAttrError>(MainAttrError::Attr(WorkersAttrError::NotWorkers)),
{
    let s = name + seq![61u8, c];
    let n = name.len() as int;
    assert(main_name() =~= seq![109u8, 97u8, 105u8, 110u8]);
    assert(s[0] == name[0]);
    assert(!all_ws(s));
    assert(ws_run(s, 0, 0));
    assert forall|k: int| 0 <= k < n implies is_ident_continue(#[trigger] s[k]) by {
        assert(s[k] == name[k]);
    }
    assert(s[n] == 61);
    assert(ident_run(s, 0, n));
    assert(ws_run(s, n, n));
    assert(ws_run(s, n + 1, n + 1));
    let lit = s.subrange(n + 1, n + 2);
    assert(lit =~= seq![c]);
    assert(is_int_literal(lit));
    assert(lit_run(s, n + 1, n + 2));
    lemma_parsed(s, 0, n, n, n + 1, n + 2);
    assert(s.subrange(0, n) =~= name);
    assert(workers_name() =~= seq![119u8, 111u8, 114u8, 107u8, 101u8, 114u8, 115u8]);
    assert(lit_base(lit) == 10);
    assert(digit_run_at(lit, 10, 0, 1));
    lemma_digits_end(lit, 1);
    assert(lit.subrange(0, 1) =~= lit);
    assert(lit[0] != 95);
    assert(has_digit(lit));
    assert(!float_suffix(lit));
    assert(!exponent_suffix(lit.subrange(1, 1)));
}

} // verus!
