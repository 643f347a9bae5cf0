//! Natural ordering of names: digit runs compare by numeric value, other
//! characters compare one at a time after lowercasing.
use std::cmp::Ordering;
use vstd::prelude::*;

use crate::text::chars_of;

verus! {

/// What `char::to_lowercase` yields for a character.
pub uninterp spec fn char_lowercase(c: char) -> Seq<char>;

/// Relies on `char::to_lowercase`: the lowercase mapping of `c`, which
/// depends on `c` alone.
#[verifier::external_body]
fn lowercase_char(c: char) -> (r: String)
    ensures
        r@ == char_lowercase(c),
{
    c.to_lowercase().collect()
}

pub open spec fn is_digit(c: char) -> bool {
    '0' <= c && c <= '9'
}

pub open spec fn digit_value(c: char) -> nat {
    (c as u32 - '0' as u32) as nat
}

/// The text a character is compared by when it does not meet a digit
/// run on both sides: an ASCII digit is itself; any other character is its
/// lowercase mapping, unless that mapping were to begin with an ASCII digit
/// (Unicode has no such character), in which case it is the character
/// itself, so that digits keep one place among all other characters.
pub open spec fn fold_key(c: char) -> Seq<char> {
    if is_digit(c) {
        seq![c]
    } else if char_lowercase(c).len() > 0 && is_digit(char_lowercase(c)[0]) {
        seq![c]
    } else {
        char_lowercase(c)
    }
}

/// Number of ASCII digits at the start of `s`.
pub open spec fn digit_run(s: Seq<char>) -> nat
    decreases s.len(),
{
    if s.len() > 0 && is_digit(s[0]) {
        1 + digit_run(s.drop_first())
    } else {
        0
    }
}

/// Decimal value of a sequence of digits, most significant first.
pub open spec fn decimal_value(s: Seq<char>) -> nat
    decreases s.len(),
{
    if s.len() == 0 {
        0
    } else {
        decimal_value(s.drop_last()) * 10 + digit_value(s.last())
    }
}

/// The number a digit run stands for when names are compared: its value,
/// or zero where the value does not fit in 64 bits.
pub open spec fn run_key(s: Seq<char>) -> nat {
    if decimal_value(s) <= u64::MAX {
        decimal_value(s)
    } else {
        0
    }
}

/// Lexicographic order of two character sequences by code point.
pub open spec fn lex_cmp(a: Seq<char>, b: Seq<char>) -> Ordering
    decreases a.len(),
{
    if a.len() == 0 {
        if b.len() == 0 {
            Ordering::Equal
        } else {
            Ordering::Less
        }
    } else if b.len() == 0 {
        Ordering::Greater
    } else if a[0] < b[0] {
        Ordering::Less
    } else if a[0] > b[0] {
        Ordering::Greater
    } else {
        lex_cmp(a.drop_first(), b.drop_first())
    }
}

pub proof fn lemma_digit_run_bound(s: Seq<char>)
    ensures
        digit_run(s) <= s.len(),
        s.len() > 0 && is_digit(s[0]) ==> digit_run(s) >= 1,
    decreases s.len(),
{
    if s.len() > 0 && is_digit(s[0]) {
        lemma_digit_run_bound(s.drop_first());
    }
}

/// The natural order of two names.
#[verifier::opaque]
pub open spec fn natural_cmp(a: Seq<char>, b: Seq<char>) -> Ordering
    decreases a.len() + b.len(),
{
    if a.len() == 0 {
        if b.len() == 0 {
            Ordering::Equal
        } else {
            Ordering::Less
        }
    } else if b.len() == 0 {
        Ordering::Greater
    } else if is_digit(a[0]) && is_digit(b[0]) {
        let ra = digit_run(a) as int;
        let rb = digit_run(b) as int;
        let ka = run_key(a.take(ra));
        let kb = run_key(b.take(rb));
        if ka < kb {
            Ordering::Less
        } else if ka > kb {
            Ordering::Greater
        } else if 0 < ra <= a.len() && 0 < rb <= b.len() {
            // always the case: see `lemma_digit_run_bound`
            natural_cmp(a.skip(ra), b.skip(rb))
        } else {
            Ordering::Equal
        }
    } else {
        let c = lex_cmp(fold_key(a[0]), fold_key(b[0]));
        if c == Ordering::Equal {
            natural_cmp(a.skip(1), b.skip(1))
        } else {
            c
        }
    }
}

/// Compares two character sequences lexicographically by code point, as
/// two lowercased characters are compared.
pub fn compare_chars(x: &Vec<char>, y: &Vec<char>) -> (r: Ordering)
    ensures
        r == lex_cmp(x@, y@),
{
    let mut i: usize = 0;
    assert(x@.skip(0) =~= x@);
    assert(y@.skip(0) =~= y@);
    while i < x.len() && i < y.len()
        invariant
            i <= x.len(),
            i <= y.len(),
            lex_cmp(x@, y@) == lex_cmp(x@.skip(i as int), y@.skip(i as int)),
        decreases x.len() - i,
    {
        if x[i] < y[i] {
            return Ordering::Less;
        }
        if x[i] > y[i] {
            return Ordering::Greater;
        }
        assert(x@.skip(i as int).drop_first() =~= x@.skip(i + 1));
        assert(y@.skip(i as int).drop_first() =~= y@.skip(i + 1));
        i += 1;
    }
    if i < x.len() {
        Ordering::Greater
    } else if i < y.len() {
        Ordering::Less
    } else {
        Ordering::Equal
    }
}

proof fn lemma_digit_run_at(x: Seq<char>, i: int, k: int)
    requires
        0 <= i <= k <= x.len(),
        forall|m: int| i <= m < k ==> is_digit(#[trigger] x[m]),
        k == x.len() || !is_digit(x[k]),
    ensures
        digit_run(x.skip(i)) == k - i,
    decreases k - i,
{
    if i < k {
        assert(x.skip(i).drop_first() =~= x.skip(i + 1));
        lemma_digit_run_at(x, i + 1, k);
    }
}

/// Reads the digit run of `x` that starts at `i`: returns the number it
/// stands for under `run_key` and the position just past it.
fn scan_run(x: &Vec<char>, i: usize) -> (r: (u64, usize))
    requires
        i < x.len(),
    ensures
        r.1 == i + digit_run(x@.skip(i as int)),
        r.0 == run_key(x@.skip(i as int).take(digit_run(x@.skip(i as int)) as int)),
{
    let mut k: usize = i;
    let mut value: u64 = 0;
    let mut over: bool = false;
    while k < x.len() && '0' <= x[k] && x[k] <= '9'
        invariant
            i <= k <= x.len(),
            forall|m: int| i <= m < k ==> is_digit(#[trigger] x@[m]),
            over == (decimal_value(x@.subrange(i as int, k as int)) > u64::MAX),
            !over ==> value == decimal_value(x@.subrange(i as int, k as int)),
        decreases x.len() - k,
    {
        let d: u64 = (x[k] as u32 - '0' as u32) as u64;
        let ghost before = decimal_value(x@.subrange(i as int, k as int));
        assert(x@.subrange(i as int, k + 1).drop_last() =~= x@.subrange(i as int, k as int));
        assert(decimal_value(x@.subrange(i as int, k + 1)) == before * 10 + d);
        if !over {
            if value > (u64::MAX - d) / 10 {
                assert(value * 10 + d > u64::MAX) by (nonlinear_arith)
                    requires
                        value > (u64::MAX - d) / 10,
                        d <= 9,
                ;
                over = true;
            } else {
                assert(value * 10 + d <= u64::MAX) by (nonlinear_arith)
                    requires
                        value <= (u64::MAX - d) / 10,
                        d <= 9,
                ;
                value = value * 10 + d;
            }
        }
        k += 1;
    }
    proof {
        lemma_digit_run_at(x@, i as int, k as int);
        assert(x@.skip(i as int).take(k - i) =~= x@.subrange(i as int, k as int));
    }
    if over {
        (0, k)
    } else {
        (value, k)
    }
}

/// The characters of `fold_key(c)`.
pub fn fold(c: char) -> (r: Vec<char>)
    ensures
        r@ == fold_key(c),
{
    if '0' <= c && c <= '9' {
        return vec![c];
    }
    let f = chars_of(lowercase_char(c).as_str());
    if f.len() > 0 && '0' <= f[0] && f[0] <= '9' {
        vec![c]
    } else {
        f
    }
}

/// Compares two names in natural order: maximal runs of ASCII digits that
/// meet compare by numeric value (zero where a value does not fit in 64
/// bits), and other characters compare one at a time after lowercasing.
/// A name that is a proper prefix of the other comes first.
pub fn natural_sort(a: &str, b: &str) -> (r: Ordering)
    ensures
        r == natural_cmp(a@, b@),
{
    proof {
        reveal(natural_cmp);
    }
    let x = chars_of(a);
    let y = chars_of(b);
    let mut i: usize = 0;
    let mut j: usize = 0;
    assert(x@.skip(0) =~= x@);
    assert(y@.skip(0) =~= y@);
    loop
        invariant
            i <= x.len(),
            j <= y.len(),
            natural_cmp(a@, b@) == natural_cmp(x@.skip(i as int), y@.skip(j as int)),
        decreases x.len() - i + y.len() - j,
    {
        proof {
            reveal(natural_cmp);
        }
        let ghost xs = x@.skip(i as int);
        let ghost ys = y@.skip(j as int);
        if i == x.len() {
            if j == y.len() {
                return Ordering::Equal;
            }
            return Ordering::Less;
        }
        if j == y.len() {
            return Ordering::Greater;
        }
        if '0' <= x[i] && x[i] <= '9' && '0' <= y[j] && y[j] <= '9' {
            let (ka, ni) = scan_run(&x, i);
            let (kb, nj) = scan_run(&y, j);
            proof {
                lemma_digit_run_bound(xs);
                lemma_digit_run_bound(ys);
            }
            if ka < kb {
                return Ordering::Less;
            }
            if ka > kb {
                return Ordering::Greater;
            }
            assert(xs.skip(ni - i) =~= x@.skip(ni as int));
            assert(ys.skip(nj - j) =~= y@.skip(nj as int));
            i = ni;
            j = nj;
        } else {
            let c = compare_chars(&fold(x[i]), &fold(y[j]));
            match c {
                Ordering::Equal => {},
                _ => {
                    return c;
                },
            }
            assert(xs.skip(1) =~= x@.skip(i + 1));
            assert(ys.skip(1) =~= y@.skip(j + 1));
            i += 1;
            j += 1;
        }
    }
}

/// The opposite of an ordering.
pub open spec fn flip(o: Ordering) -> Ordering {
    match o {
        Ordering::Less => Ordering::Greater,
        Ordering::Equal => Ordering::Equal,
        Ordering::Greater => Ordering::Less,
    }
}

proof fn lemma_lex_reflexive(a: Seq<char>)
    ensures
        lex_cmp(a, a) == Ordering::Equal,
    decreases a.len(),
{
    if a.len() > 0 {
        lemma_lex_reflexive(a.drop_first());
    }
}

proof fn lemma_lex_flip(a: Seq<char>, b: Seq<char>)
    ensures
        lex_cmp(b, a) == flip(lex_cmp(a, b)),
    decreases a.len(),
{
    if a.len() > 0 && b.len() > 0 {
        lemma_lex_flip(a.drop_first(), b.drop_first());
    }
}

proof fn lemma_lex_equal(a: Seq<char>, b: Seq<char>)
    requires
        lex_cmp(a, b) == Ordering::Equal,
    ensures
        a == b,
    decreases a.len(),
{
    if a.len() > 0 && b.len() > 0 {
        lemma_lex_equal(a.drop_first(), b.drop_first());
        assert(a =~= seq![a[0]] + a.drop_first());
        assert(b =~= seq![b[0]] + b.drop_first());
    }
}

proof fn lemma_lex_transitive(a: Seq<char>, b: Seq<char>, c: Seq<char>)
    requires
        lex_cmp(a, b) != Ordering::Greater,
        lex_cmp(b, c) != Ordering::Greater,
    ensures
        lex_cmp(a, c) != Ordering::Greater,
    decreases a.len(),
{
    if a.len() > 0 && b.len() > 0 && c.len() > 0 && a[0] == b[0] && b[0] == c[0] {
        lemma_lex_transitive(a.drop_first(), b.drop_first(), c.drop_first());
    }
}

proof fn lemma_run_digits(s: Seq<char>)
    ensures
        forall|m: int| 0 <= m < digit_run(s) ==> is_digit(#[trigger] s[m]),
        digit_run(s) < s.len() ==> !is_digit(s[digit_run(s) as int]),
    decreases s.len(),
{
    lemma_digit_run_bound(s);
    if s.len() > 0 && is_digit(s[0]) {
        let t = s.drop_first();
        lemma_run_digits(t);
        assert forall|m: int| 0 <= m < digit_run(s) implies is_digit(#[trigger] s[m]) by {
            if m > 0 {
                assert(s[m] == t[m - 1]);
            }
        }
    }
}

/// Comparing a name with itself gives `Equal`.
pub proof fn lemma_natural_reflexive(a: Seq<char>)
    ensures
        natural_cmp(a, a) == Ordering::Equal,
    decreases a.len(),
{
    reveal(natural_cmp);
    if a.len() > 0 {
        if is_digit(a[0]) {
            lemma_digit_run_bound(a);
            lemma_natural_reflexive(a.skip(digit_run(a) as int));
        } else {
            lemma_lex_reflexive(fold_key(a[0]));
            lemma_natural_reflexive(a.skip(1));
        }
    }
}

/// Swapping the two names flips the result.
pub proof fn lemma_natural_antisymmetric(a: Seq<char>, b: Seq<char>)
    ensures
        natural_cmp(b, a) == flip(natural_cmp(a, b)),
    decreases a.len() + b.len(),
{
    reveal(natural_cmp);
    if a.len() > 0 && b.len() > 0 {
        if is_digit(a[0]) && is_digit(b[0]) {
            lemma_digit_run_bound(a);
            lemma_digit_run_bound(b);
            lemma_natural_antisymmetric(a.skip(digit_run(a) as int), b.skip(digit_run(b) as int));
        } else {
            lemma_lex_flip(fold_key(a[0]), fold_key(b[0]));
            lemma_natural_antisymmetric(a.skip(1), b.skip(1));
        }
    }
}

/// `a` and `b` differ at most in the case of characters that are not
/// ASCII digits: each position holds the same character, or two such
/// characters that fold alike (`fold_key`).
pub open spec fn same_but_case(a: Seq<char>, b: Seq<char>) -> bool {
    &&& a.len() == b.len()
    &&& forall|i: int|
        0 <= i < a.len() ==> #[trigger] a[i] == b[i] || (!is_digit(a[i]) && !is_digit(b[i])
            && fold_key(a[i]) == fold_key(b[i]))
}

/// Names that differ only in letter case compare `Equal`.
pub proof fn lemma_natural_ignores_case(a: Seq<char>, b: Seq<char>)
    requires
        same_but_case(a, b),
    ensures
        natural_cmp(a, b) == Ordering::Equal,
    decreases a.len(),
{
    reveal(natural_cmp);
    if a.len() > 0 {
        assert(a[0] == b[0] || (!is_digit(a[0]) && !is_digit(b[0])));
        if is_digit(a[0]) && is_digit(b[0]) {
            let r = digit_run(a) as int;
            lemma_digit_run_bound(a);
            lemma_run_digits(a);
            assert forall|m: int| 0 <= m < r implies is_digit(#[trigger] b[m]) && a[m] == b[m] by {
                assert(is_digit(a[m]));
                assert(a[m] == b[m] || !is_digit(a[m]));
            }
            if r < a.len() {
                assert(!is_digit(a[r]));
                assert(a[r] == b[r] || !is_digit(b[r]));
            }
            lemma_digit_run_at(b, 0, r);
            assert(b.skip(0) =~= b);
            assert(a.take(r) =~= b.take(r));
            let (sa, sb) = (a.skip(r), b.skip(r));
            assert forall|i: int| 0 <= i < sa.len() implies #[trigger] sa[i] == sb[i] || (!is_digit(
                sa[i],
            ) && !is_digit(sb[i]) && fold_key(sa[i]) == fold_key(sb[i])) by {
                assert(a[i + r] == b[i + r] || (!is_digit(a[i + r]) && !is_digit(b[i + r])
                    && fold_key(a[i + r]) == fold_key(b[i + r])));
            }
            lemma_natural_ignores_case(sa, sb);
        } else {
            assert(fold_key(a[0]) == fold_key(b[0]));
            lemma_lex_reflexive(fold_key(a[0]));
            let (sa, sb) = (a.skip(1), b.skip(1));
            assert forall|i: int| 0 <= i < sa.len() implies #[trigger] sa[i] == sb[i] || (!is_digit(
                sa[i],
            ) && !is_digit(sb[i]) && fold_key(sa[i]) == fold_key(sb[i])) by {
                assert(a[i + 1] == b[i + 1] || (!is_digit(a[i + 1]) && !is_digit(b[i + 1])
                    && fold_key(a[i + 1]) == fold_key(b[i + 1])));
            }
            lemma_natural_ignores_case(sa, sb);
        }
    }
}

proof fn lemma_natural_le_transitive(a: Seq<char>, b: Seq<char>, c: Seq<char>)
    requires
        natural_cmp(a, b) != Ordering::Greater,
        natural_cmp(b, c) != Ordering::Greater,
    ensures
        natural_cmp(a, c) != Ordering::Greater,
    decreases a.len() + b.len() + c.len(),
{
    reveal(natural_cmp);
    if a.len() == 0 || b.len() == 0 || c.len() == 0 {
        return;
    }
    let (a0, b0, c0) = (a[0], b[0], c[0]);
    let (fa, fb, fc) = (fold_key(a0), fold_key(b0), fold_key(c0));
    lemma_digit_run_bound(a);
    lemma_digit_run_bound(b);
    lemma_digit_run_bound(c);
    let (ra, rb, rc) = (digit_run(a) as int, digit_run(b) as int, digit_run(c) as int);
    if is_digit(a0) && is_digit(b0) && is_digit(c0) {
        if run_key(a.take(ra)) == run_key(c.take(rc)) {
            lemma_natural_le_transitive(a.skip(ra), b.skip(rb), c.skip(rc));
        }
    } else if is_digit(a0) && is_digit(b0) {
        assert(fb == seq![b0]);
        assert(fa == seq![a0]);
        assert(fc.len() > 0);
        assert(fb.drop_first().len() == 0);
    } else if is_digit(b0) && is_digit(c0) {
        assert(fb == seq![b0]);
        assert(fc == seq![c0]);
    } else if is_digit(a0) && is_digit(c0) {
        assert(fa == seq![a0]);
        assert(fc == seq![c0]);
        assert(fb.len() > 0);
        assert(fa.drop_first().len() == 0);
    } else {
        lemma_lex_transitive(fa, fb, fc);
        if lex_cmp(fa, fc) == Ordering::Equal {
            lemma_lex_equal(fa, fc);
            lemma_lex_flip(fa, fb);
            lemma_lex_flip(fb, fc);
            lemma_lex_transitive(fb, fc, fa);
            lemma_lex_transitive(fc, fa, fb);
            lemma_natural_le_transitive(a.skip(1), b.skip(1), c.skip(1));
        }
    }
}

/// Transitivity: from `a <= b` and `b <= c` follows `a <= c`, and `a < c`
/// where either step is strict.
pub proof fn lemma_natural_transitive(a: Seq<char>, b: Seq<char>, c: Seq<char>)
    requires
        natural_cmp(a, b) != Ordering::Greater,
        natural_cmp(b, c) != Ordering::Greater,
    ensures
        natural_cmp(a, c) != Ordering::Greater,
        natural_cmp(a, b) == Ordering::Less || natural_cmp(b, c) == Ordering::Less ==> natural_cmp(
            a,
            c,
        ) == Ordering::Less,
{
    lemma_natural_le_transitive(a, b, c);
    if natural_cmp(a, c) == Ordering::Equal {
        lemma_natural_antisymmetric(a, c);
        lemma_natural_antisymmetric(a, b);
        lemma_natural_antisymmetric(b, c);
        lemma_natural_le_transitive(b, c, a);
        lemma_natural_le_transitive(c, a, b);
    }
}

/// Case does not matter anywhere: replacing either name by one that
/// differs from it only in letter case (`same_but_case`) keeps the result.
pub proof fn lemma_natural_case_congruent(a: Seq<char>, a2: Seq<char>, b: Seq<char>, b2: Seq<char>)
    requires
        same_but_case(a, a2),
        same_but_case(b, b2),
    ensures
        natural_cmp(a2, b2) == natural_cmp(a, b),
{
    lemma_natural_ignores_case(a, a2);
    lemma_natural_ignores_case(b, b2);
    lemma_natural_antisymmetric(a, a2);
    lemma_natural_antisymmetric(b, b2);
    lemma_natural_antisymmetric(a, b);
    lemma_natural_antisymmetric(a2, b2);
    if natural_cmp(a, b) != Ordering::Greater {
        lemma_natural_transitive(a2, a, b);
        lemma_natural_transitive(a2, b, b2);
    }
    if natural_cmp(b, a) != Ordering::Greater {
        lemma_natural_transitive(b2, b, a);
        lemma_natural_transitive(b2, a, a2);
    }
}

/// `p` is empty or ends with a character that is not an ASCII digit, so a
/// digit run after it starts afresh.
pub open spec fn ends_outside_run(p: Seq<char>) -> bool {
    p.len() == 0 || !is_digit(p.last())
}

/// `s` is empty or starts with a character that is not an ASCII digit, so
/// a digit run before it ends there.
pub open spec fn starts_outside_run(s: Seq<char>) -> bool {
    s.len() == 0 || !is_digit(s[0])
}

/// Every character of `m` is an ASCII digit.
pub open spec fn all_digits(m: Seq<char>) -> bool {
    forall|i: int| 0 <= i < m.len() ==> is_digit(#[trigger] m[i])
}

/// A common start that does not end inside a digit run does not affect
/// the order.
pub proof fn lemma_natural_common_prefix(p: Seq<char>, x: Seq<char>, y: Seq<char>)
    requires
        ends_outside_run(p),
    ensures
        natural_cmp(p + x, p + y) == natural_cmp(x, y),
    decreases p.len(),
{
    reveal(natural_cmp);
    if p.len() == 0 {
        assert(p + x =~= x);
        assert(p + y =~= y);
        return;
    }
    let (a, b) = (p + x, p + y);
    assert(a[0] == p[0] && b[0] == p[0]);
    if is_digit(p[0]) {
        let r = digit_run(p) as int;
        lemma_digit_run_bound(p);
        lemma_run_digits(p);
        if r == p.len() {
            assert(p[p.len() - 1] == p.last());
        }
        assert(r < p.len());
        assert forall|m: int| 0 <= m < r implies is_digit(#[trigger] a[m]) by {
            assert(a[m] == p[m]);
        }
        assert forall|m: int| 0 <= m < r implies is_digit(#[trigger] b[m]) by {
            assert(b[m] == p[m]);
        }
        assert(a[r] == p[r] && b[r] == p[r]);
        lemma_digit_run_at(a, 0, r);
        lemma_digit_run_at(b, 0, r);
        assert(a.skip(0) =~= a);
        assert(b.skip(0) =~= b);
        assert(a.take(r) =~= b.take(r));
        let q = p.skip(r);
        assert(a.skip(r) =~= q + x);
        assert(b.skip(r) =~= q + y);
        assert(q.last() == p.last());
        lemma_natural_common_prefix(q, x, y);
    } else {
        lemma_lex_reflexive(fold_key(p[0]));
        let q = p.skip(1);
        assert(a.skip(1) =~= q + x);
        assert(b.skip(1) =~= q + y);
        if q.len() > 0 {
            assert(q.last() == p.last());
        }
        lemma_natural_common_prefix(q, x, y);
    }
}

proof fn lemma_leading_run(m: Seq<char>, s: Seq<char>)
    requires
        all_digits(m),
        starts_outside_run(s),
    ensures
        digit_run(m + s) == m.len(),
        (m + s).take(m.len() as int) == m,
        (m + s).skip(m.len() as int) == s,
{
    let a = m + s;
    assert forall|k: int| 0 <= k < m.len() implies is_digit(#[trigger] a[k]) by {
        assert(a[k] == m[k]);
    }
    if s.len() > 0 {
        assert(a[m.len() as int] == s[0]);
    }
    lemma_digit_run_at(a, 0, m.len() as int);
    assert(a.skip(0) =~= a);
    assert(a.take(m.len() as int) =~= m);
    assert(a.skip(m.len() as int) =~= s);
}

/// After a common start that does not end inside a digit run, two digit
/// runs of different value decide the order by their values, whatever
/// follows them.
pub proof fn lemma_natural_runs_decide(
    p: Seq<char>,
    m: Seq<char>,
    n: Seq<char>,
    s1: Seq<char>,
    s2: Seq<char>,
)
    requires
        ends_outside_run(p),
        m.len() > 0,
        n.len() > 0,
        all_digits(m),
        all_digits(n),
        starts_outside_run(s1),
        starts_outside_run(s2),
        run_key(m) != run_key(n),
    ensures
        natural_cmp(p + m + s1, p + n + s2) == if run_key(m) < run_key(n) {
            Ordering::Less
        } else {
            Ordering::Greater
        },
{
    reveal(natural_cmp);
    assert(p + m + s1 =~= p + (m + s1));
    assert(p + n + s2 =~= p + (n + s2));
    lemma_natural_common_prefix(p, m + s1, n + s2);
    lemma_leading_run(m, s1);
    lemma_leading_run(n, s2);
    assert((m + s1)[0] == m[0]);
    assert((n + s2)[0] == n[0]);
}

proof fn lemma_zeros_value(z: Seq<char>, m: Seq<char>)
    requires
        forall|i: int| 0 <= i < z.len() ==> #[trigger] z[i] == '0',
    ensures
        decimal_value(z + m) == decimal_value(m),
    decreases z.len() + m.len(),
{
    if m.len() == 0 {
        assert(z + m =~= z);
        if z.len() > 0 {
            assert(z.drop_last() + m =~= z.drop_last());
            lemma_zeros_value(z.drop_last(), m);
            assert(z.last() == z[z.len() - 1]);
        }
    } else {
        assert((z + m).drop_last() =~= z + m.drop_last());
        lemma_zeros_value(z, m.drop_last());
    }
}

/// Leading zeros do not change a digit run's value: inserting zeros before
/// a run that follows a common start compares `Equal`, both ways.
pub proof fn lemma_natural_leading_zeros(p: Seq<char>, z: Seq<char>, m: Seq<char>, s: Seq<char>)
    requires
        ends_outside_run(p),
        forall|i: int| 0 <= i < z.len() ==> #[trigger] z[i] == '0',
        m.len() > 0,
        all_digits(m),
        starts_outside_run(s),
    ensures
        natural_cmp(p + z + m + s, p + m + s) == Ordering::Equal,
        natural_cmp(p + m + s, p + z + m + s) == Ordering::Equal,
{
    reveal(natural_cmp);
    let zm = z + m;
    assert forall|i: int| 0 <= i < zm.len() implies is_digit(#[trigger] zm[i]) by {
        if i < z.len() {
            assert(zm[i] == z[i]);
        } else {
            assert(zm[i] == m[i - z.len()]);
        }
    }
    assert(p + z + m + s =~= p + (zm + s));
    assert(p + m + s =~= p + (m + s));
    lemma_natural_common_prefix(p, zm + s, m + s);
    lemma_leading_run(zm, s);
    lemma_leading_run(m, s);
    lemma_zeros_value(z, m);
    assert((zm + s)[0] == zm[0]);
    assert((m + s)[0] == m[0]);
    lemma_natural_reflexive(s);
    lemma_natural_antisymmetric(zm + s, m + s);
    lemma_natural_common_prefix(p, m + s, zm + s);
}

} // verus!
