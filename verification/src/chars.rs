use vstd::prelude::*;

verus! {

// ---------------------------------------------------------------------------
// Character classes of the descriptor grammar.
// ---------------------------------------------------------------------------

/// An ASCII decimal digit.
pub open spec fn is_digit(c: char) -> bool {
    match c {
        '0' | '1' | '2' | '3' | '4' | '5' | '6' | '7' | '8' | '9' => true,
        _ => false,
    }
}

/// The numeric value of a decimal digit (0 for any other character).
pub open spec fn digit_val(c: char) -> int {
    match c {
        '0' => 0,
        '1' => 1,
        '2' => 2,
        '3' => 3,
        '4' => 4,
        '5' => 5,
        '6' => 6,
        '7' => 7,
        '8' => 8,
        '9' => 9,
        _ => 0,
    }
}

/// The decimal digit character for a value in `[0, 9]` (space otherwise).
pub open spec fn digit_char(d: int) -> char {
    if d == 0 {
        '0'
    } else if d == 1 {
        '1'
    } else if d == 2 {
        '2'
    } else if d == 3 {
        '3'
    } else if d == 4 {
        '4'
    } else if d == 5 {
        '5'
    } else if d == 6 {
        '6'
    } else if d == 7 {
        '7'
    } else if d == 8 {
        '8'
    } else if d == 9 {
        '9'
    } else {
        ' '
    }
}

/// A lowercase hexadecimal digit, as used in a key-origin fingerprint.
pub open spec fn is_hex(c: char) -> bool {
    match c {
        '0' | '1' | '2' | '3' | '4' | '5' | '6' | '7' | '8' | '9' => true,
        'a' | 'b' | 'c' | 'd' | 'e' | 'f' => true,
        _ => false,
    }
}

/// A character of the base58 alphabet, as used in a serialized extended key.
pub open spec fn is_b58(c: char) -> bool {
    match c {
        '1' | '2' | '3' | '4' | '5' | '6' | '7' | '8' | '9' | 'A' | 'B' | 'C' | 'D' | 'E'
            | 'F' | 'G' | 'H' | 'J' | 'K' | 'L' | 'M' | 'N' | 'P' | 'Q' | 'R' | 'S' | 'T'
            | 'U' | 'V' | 'W' | 'X' | 'Y' | 'Z' | 'a' | 'b' | 'c' | 'd' | 'e' | 'f' | 'g'
            | 'h' | 'i' | 'j' | 'k' | 'm' | 'n' | 'o' | 'p' | 'q' | 'r' | 's' | 't' | 'u'
            | 'v' | 'w' | 'x' | 'y' | 'z' => true,
        _ => false,
    }
}

pub fn exec_is_digit(c: char) -> (r: bool)
    ensures
        r == is_digit(c),
{
    c == '0' || c == '1' || c == '2' || c == '3' || c == '4' || c == '5' || c == '6' || c == '7'
        || c == '8' || c == '9'
}

pub fn exec_digit_val(c: char) -> (r: u32)
    ensures
        r == digit_val(c),
{
    match c {
        '1' => 1,
        '2' => 2,
        '3' => 3,
        '4' => 4,
        '5' => 5,
        '6' => 6,
        '7' => 7,
        '8' => 8,
        '9' => 9,
        _ => 0,
    }
}

pub fn exec_digit_char(d: u32) -> (r: char)
    ensures
        r == digit_char(d as int),
{
    match d {
        0 => '0',
        1 => '1',
        2 => '2',
        3 => '3',
        4 => '4',
        5 => '5',
        6 => '6',
        7 => '7',
        8 => '8',
        9 => '9',
        _ => ' ',
    }
}

pub fn exec_is_hex(c: char) -> (r: bool)
    ensures
        r == is_hex(c),
{
    exec_is_digit(c) || c == 'a' || c == 'b' || c == 'c' || c == 'd' || c == 'e' || c == 'f'
}

pub fn exec_is_b58(c: char) -> (r: bool)
    ensures
        r == is_b58(c),
{
    match c {
        '1' | '2' | '3' | '4' | '5' | '6' | '7' | '8' | '9' | 'A' | 'B' | 'C' | 'D' | 'E'
            | 'F' | 'G' | 'H' | 'J' | 'K' | 'L' | 'M' | 'N' | 'P' | 'Q' | 'R' | 'S' | 'T'
            | 'U' | 'V' | 'W' | 'X' | 'Y' | 'Z' | 'a' | 'b' | 'c' | 'd' | 'e' | 'f' | 'g'
            | 'h' | 'i' | 'j' | 'k' | 'm' | 'n' | 'o' | 'p' | 'q' | 'r' | 's' | 't' | 'u'
            | 'v' | 'w' | 'x' | 'y' | 'z' => true,
        _ => false,
    }
}

// ---------------------------------------------------------------------------
// Trusted: appending one character to a `String` (vstd gives no contract).
// ---------------------------------------------------------------------------

/// Relies on `String::push` of std: it appends exactly the given character.
pub assume_specification[ String::push ](s: &mut String, c: char)
    ensures
        final(s)@ == old(s)@.push(c),
;

// ---------------------------------------------------------------------------
// Runs of characters satisfying a class predicate.
// ---------------------------------------------------------------------------

/// The first position at or after `i` whose character does not satisfy `p`
/// (or the end of the text).
pub open spec fn run_end(s: Seq<char>, i: int, p: spec_fn(char) -> bool) -> int
    decreases s.len() - i,
{
    if 0 <= i < s.len() && p(s[i]) {
        run_end(s, i + 1, p)
    } else {
        i
    }
}

pub proof fn lemma_run_end_props(s: Seq<char>, i: int, p: spec_fn(char) -> bool)
    requires
        0 <= i <= s.len(),
    ensures
        i <= run_end(s, i, p) <= s.len(),
        forall|k: int| i <= k < run_end(s, i, p) ==> p(#[trigger] s[k]),
        run_end(s, i, p) < s.len() ==> !p(s[run_end(s, i, p)]),
    decreases s.len() - i,
{
    if i < s.len() && p(s[i]) {
        lemma_run_end_props(s, i + 1, p);
    }
}

/// A run is pinned down by its content: if `[i, j)` all satisfy `p` and the
/// character at `j` (if any) does not, the run ends exactly at `j`.
pub proof fn lemma_run_end_of(s: Seq<char>, i: int, j: int, p: spec_fn(char) -> bool)
    requires
        0 <= i <= j <= s.len(),
        forall|k: int| i <= k < j ==> p(#[trigger] s[k]),
        j == s.len() || !p(s[j]),
    ensures
        run_end(s, i, p) == j,
    decreases j - i,
{
    if i < j {
        lemma_run_end_of(s, i + 1, j, p);
    }
}

/// A run reaches at least as far as any prefix whose characters all satisfy
/// `p`.
pub proof fn lemma_run_end_ge(s: Seq<char>, i: int, j: int, p: spec_fn(char) -> bool)
    requires
        0 <= i <= j <= s.len(),
        forall|k: int| i <= k < j ==> p(#[trigger] s[k]),
    ensures
        run_end(s, i, p) >= j,
    decreases j - i,
{
    lemma_run_end_props(s, i, p);
    if i < j {
        lemma_run_end_ge(s, i + 1, j, p);
    }
}

pub proof fn lemma_pow10_pos(k: int)
    ensures
        pow10(k) >= 1,
    decreases k,
{
    if k > 0 {
        lemma_pow10_pos(k - 1);
    }
}

pub proof fn lemma_pow10_mono(a: int, b: int)
    requires
        a <= b,
    ensures
        pow10(a) <= pow10(b),
    decreases b - a,
{
    if a < b {
        lemma_pow10_mono(a, b - 1);
        lemma_pow10_pos(b - 1);
    }
}

pub proof fn lemma_pow10_ten()
    ensures
        pow10(10) == 10_000_000_000,
        pow10(11) == 100_000_000_000,
{
    assert(pow10(0) == 1);
    assert(pow10(1) == 10);
    assert(pow10(2) == 100);
    assert(pow10(3) == 1000);
    assert(pow10(4) == 10000);
    assert(pow10(5) == 100000);
    assert(pow10(6) == 1000000);
    assert(pow10(7) == 10000000);
    assert(pow10(8) == 100000000);
    assert(pow10(9) == 1000000000);
    assert(pow10(10) == 10000000000);
}

// ---------------------------------------------------------------------------
// Canonical decimal numbers.
// ---------------------------------------------------------------------------

/// The value of the digit characters of `s` in `[i, j)`, most significant
/// first.
pub open spec fn dec_value(s: Seq<char>, i: int, j: int) -> int
    decreases j - i,
{
    if j <= i {
        0
    } else {
        dec_value(s, i, j - 1) * 10 + digit_val(s[j - 1])
    }
}

pub open spec fn pow10(k: int) -> int
    decreases k,
{
    if k <= 0 {
        1
    } else {
        10 * pow10(k - 1)
    }
}

pub proof fn lemma_dec_value_bound(s: Seq<char>, i: int, j: int)
    ensures
        0 <= dec_value(s, i, j),
        j >= i ==> dec_value(s, i, j) < pow10(j - i),
    decreases j - i,
{
    if j > i {
        lemma_dec_value_bound(s, i, j - 1);
    }
}

/// The canonical decimal rendering of a non-negative number.
pub open spec fn dec_render(n: int) -> Seq<char>
    decreases n,
{
    if n < 10 {
        seq![digit_char(n)]
    } else {
        dec_render(n / 10).push(digit_char(n % 10))
    }
}

/// The largest index grammar elements may carry: indices stay below the
/// BIP-32 hardened offset.
pub open spec fn index_limit() -> int {
    0x8000_0000
}

/// A canonical decimal number at position `i`: one to ten digits, no leading
/// zero, value below `index_limit()`.
pub open spec fn sp_dec(s: Seq<char>, i: int) -> Option<(u32, int)> {
    let j = run_end(s, i, |c: char| is_digit(c));
    if j == i || j - i > 10 {
        None
    } else if s[i] == '0' && j > i + 1 {
        None
    } else if dec_value(s, i, j) >= index_limit() {
        None
    } else {
        Some((dec_value(s, i, j) as u32, j))
    }
}

pub fn p_dec(s: &str, i: usize) -> (r: Option<(u32, usize)>)
    requires
        i <= s@.len(),
    ensures
        match r {
            Some((v, j)) => {
                &&& sp_dec(s@, i as int) == Some((v, j as int))
                &&& i < j <= s@.len()
                &&& v < 0x8000_0000
            },
            None => sp_dec(s@, i as int) is None,
        },
{
    let ghost p = |c: char| is_digit(c);
    proof {
        lemma_run_end_props(s@, i as int, p);
    }
    let len = s.unicode_len();
    let mut j = i;
    let mut acc: u64 = 0;
    while j < len && j - i < 11 && exec_is_digit(s.get_char(j))
        invariant
            i <= j <= len,
            len == s@.len(),
            j - i <= 11,
            forall|k: int| i <= k < j ==> is_digit(#[trigger] s@[k]),
            acc == dec_value(s@, i as int, j as int),
            acc < 0x1_0000_0000_0000u64,
        decreases len - j,
    {
        proof {
            lemma_dec_value_bound(s@, i as int, j as int);
            lemma_pow10_mono(j - i, 10);
            lemma_pow10_ten();
        }
        let d = exec_digit_val(s.get_char(j));
        acc = acc * 10 + (d as u64);
        j = j + 1;
    }
    proof {
        if j == len || !is_digit(s@[j as int]) {
            lemma_run_end_of(s@, i as int, j as int, p);
        } else {
            lemma_run_end_ge(s@, i as int, j as int, p);
        }
    }
    if j - i >= 11 {
        return None;
    }
    if j == i {
        return None;
    }
    if s.get_char(i) == '0' && j > i + 1 {
        return None;
    }
    if acc >= 0x8000_0000 {
        return None;
    }
    Some((acc as u32, j))
}

/// Appends the canonical decimal form of `n`.
pub fn push_dec(out: &mut String, n: u32)
    ensures
        final(out)@ == old(out)@ + dec_render(n as int),
    decreases n,
{
    if n < 10 {
        out.push(exec_digit_char(n));
    } else {
        push_dec(out, n / 10);
        out.push(exec_digit_char(n % 10));
    }
}

/// Every character of a rendered decimal is a digit.
pub proof fn lemma_dec_render_digits(n: int)
    requires
        n >= 0,
    ensures
        dec_render(n).len() >= 1,
        forall|k: int| 0 <= k < dec_render(n).len() ==> is_digit(#[trigger] dec_render(n)[k]),
    decreases n,
{
    if n >= 10 {
        lemma_dec_render_digits(n / 10);
    }
}

/// A rendered positive number does not start with a zero digit.
pub proof fn lemma_dec_render_first(n: int)
    requires
        n >= 1,
    ensures
        dec_render(n)[0] != '0',
    decreases n,
{
    if n >= 10 {
        lemma_dec_render_first(n / 10);
        lemma_dec_render_digits(n / 10);
    }
}

pub proof fn lemma_dec_render_len(n: int, k: int)
    requires
        0 <= n < pow10(k),
        k >= 1,
    ensures
        dec_render(n).len() <= k,
    decreases k,
{
    if n >= 10 {
        assert(k >= 2) by {
            if k == 1 {
                assert(pow10(1) == 10);
            }
        }
        assert(n / 10 < pow10(k - 1)) by (nonlinear_arith)
            requires
                n < pow10(k),
                pow10(k) == 10 * pow10(k - 1),
                n >= 10,
        ;
        lemma_dec_render_len(n / 10, k - 1);
    }
}

/// The value below the index limit fits in ten digits.
pub proof fn lemma_index_limit_digits(n: int)
    requires
        0 <= n < index_limit(),
    ensures
        dec_render(n).len() <= 10,
{
    lemma_pow10_ten();
    lemma_dec_render_len(n, 10);
}

/// Parsing direction of the decimal round trip: a parsed number renders back
/// to exactly the characters it was read from.
pub proof fn lemma_dec_value_renders(s: Seq<char>, i: int, j: int)
    requires
        0 <= i < j <= s.len(),
        forall|k: int| i <= k < j ==> is_digit(#[trigger] s[k]),
        s[i] == '0' ==> j == i + 1,
    ensures
        dec_render(dec_value(s, i, j)) == s.subrange(i, j),
        s[i] != '0' ==> dec_value(s, i, j) >= 1,
    decreases j - i,
{
    lemma_dec_value_bound(s, i, j);
    if j == i + 1 {
        assert(dec_value(s, i, j) == digit_val(s[i]));
        assert(dec_render(digit_val(s[i])) =~= s.subrange(i, j));
    } else {
        lemma_dec_value_renders(s, i, j - 1);
        let a = dec_value(s, i, j - 1);
        let d = digit_val(s[j - 1]);
        let v = dec_value(s, i, j);
        assert(v == a * 10 + d);
        assert(a >= 1);
        assert(v / 10 == a && v % 10 == d) by (nonlinear_arith)
            requires
                v == a * 10 + d,
                0 <= d < 10,
                a >= 0,
        ;
        assert(v >= 10) by (nonlinear_arith)
            requires
                v == a * 10 + d,
                a >= 1,
                d >= 0,
        ;
        assert(dec_render(v) == dec_render(a).push(digit_char(d)));
        assert(dec_render(v) =~= s.subrange(i, j));
    }
}

/// Rendering direction of the decimal round trip: a canonical rendering
/// embedded in a larger text parses back to the same number.
pub proof fn lemma_dec_render_parses(s: Seq<char>, i: int, n: int)
    requires
        0 <= n < index_limit(),
        0 <= i,
        i + dec_render(n).len() <= s.len(),
        s.subrange(i, i + dec_render(n).len()) == dec_render(n),
        i + dec_render(n).len() == s.len() || !is_digit(s[i + dec_render(n).len()]),
    ensures
        sp_dec(s, i) == Some((n as u32, i + dec_render(n).len())),
{
    let l = dec_render(n).len() as int;
    let j = i + l;
    lemma_dec_render_digits(n);
    assert(forall|k: int| i <= k < j ==> is_digit(#[trigger] s[k])) by {
        assert(forall|k: int| i <= k < j ==> s[k] == dec_render(n)[k - i]);
    }
    lemma_run_end_of(s, i, j, |c: char| is_digit(c));
    lemma_index_limit_digits(n);
    if n >= 1 {
        lemma_dec_render_first(n);
        assert(s[i] == dec_render(n)[0]);
    }
    lemma_dec_value_of_render(s, i, n);
}

pub proof fn lemma_dec_value_of_render(s: Seq<char>, i: int, n: int)
    requires
        n >= 0,
        0 <= i,
        i + dec_render(n).len() <= s.len(),
        s.subrange(i, i + dec_render(n).len()) == dec_render(n),
    ensures
        dec_value(s, i, i + dec_render(n).len()) == n,
    decreases n,
{
    let l = dec_render(n).len() as int;
    if n < 10 {
        assert(dec_render(n).len() == 1);
        assert(s.subrange(i, i + 1)[0] == s[i]);
        assert(s[i] == digit_char(n));
        assert(dec_value(s, i, i) == 0);
        assert(dec_value(s, i, i + 1) == digit_val(s[i]));
    } else {
        let prev = dec_render(n / 10);
        assert(dec_render(n) == prev.push(digit_char(n % 10)));
        assert(s.subrange(i, i + prev.len()) =~= prev) by {
            assert(forall|k: int|
                0 <= k < prev.len() ==> s[i + k] == #[trigger] dec_render(n)[k]);
        }
        lemma_dec_value_of_render(s, i, n / 10);
        assert(s[i + l - 1] == dec_render(n)[l - 1]);
        assert(dec_value(s, i, i + l) == (n / 10) * 10 + digit_val(digit_char(n % 10)));
        assert((n / 10) * 10 + n % 10 == n) by (nonlinear_arith)
            requires
                n >= 0,
        ;
    }
}

// ---------------------------------------------------------------------------
// Fixed literal tokens.
// ---------------------------------------------------------------------------

/// Whether the text `l` stands at position `i` of `s`; on success the
/// position just past it.
pub open spec fn sp_lit(s: Seq<char>, i: int, l: Seq<char>) -> Option<int> {
    if 0 <= i && i + l.len() <= s.len() && s.subrange(i, i + l.len()) == l {
        Some(i + l.len())
    } else {
        None
    }
}

pub fn p_lit(s: &str, i: usize, l: &str) -> (r: Option<usize>)
    requires
        i <= s@.len(),
    ensures
        match r {
            Some(j) => sp_lit(s@, i as int, l@) == Some(j as int) && i <= j <= s@.len(),
            None => sp_lit(s@, i as int, l@) is None,
        },
{
    let ll = l.unicode_len();
    let n = s.unicode_len();
    if ll > n - i {
        return None;
    }
    let mut k: usize = 0;
    while k < ll
        invariant
            0 <= k <= ll,
            i + ll <= n,
            n == s@.len(),
            ll == l@.len(),
            forall|m: int| 0 <= m < k ==> s@[i + m] == #[trigger] l@[m],
        decreases ll - k,
    {
        if s.get_char(i + k) != l.get_char(k) {
            proof {
                assert(s@.subrange(i as int, i + l@.len()) != l@) by {
                    assert(s@.subrange(i as int, i + l@.len())[k as int] != l@[k as int]);
                }
            }
            return None;
        }
        k = k + 1;
    }
    proof {
        assert(s@.subrange(i as int, i + l@.len()) =~= l@);
    }
    Some(i + ll)
}

/// Compares a string with a literal for exact equality.
pub fn str_eq(s: &str, l: &str) -> (r: bool)
    ensures
        r == (s@ == l@),
{
    let n = s.unicode_len();
    if n != l.unicode_len() {
        return false;
    }
    match p_lit(s, 0, l) {
        Some(j) => {
            proof {
                assert(s@.subrange(0, s@.len() as int) =~= s@);
            }
            j == n
        },
        None => {
            proof {
                assert(s@.subrange(0, s@.len() as int) =~= s@);
            }
            false
        },
    }
}

} // verus!
