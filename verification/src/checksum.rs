use vstd::prelude::*;

use crate::chars::lemma_run_end_of;
use crate::chars::run_end;
use crate::errors::Error;

verus! {

// ---------------------------------------------------------------------------
// The descriptor alphabet.
//
// The BIP-380 checksum assigns every character of descriptor text a position
// in a fixed table; the low five bits feed the polynomial directly and the
// high bits are folded in groups of three characters. Characters that cannot
// occur in descriptor text (quotes, backslash, backtick, space, and the `#`
// separator itself) are outside the alphabet and are rejected.
// ---------------------------------------------------------------------------

/// The position of a character in the descriptor alphabet.
pub open spec fn char_value(c: char) -> Option<u64> {
    match c {
        '0' => Some(0),
        '1' => Some(1),
        '2' => Some(2),
        '3' => Some(3),
        '4' => Some(4),
        '5' => Some(5),
        '6' => Some(6),
        '7' => Some(7),
        '8' => Some(8),
        '9' => Some(9),
        '(' => Some(10),
        ')' => Some(11),
        '[' => Some(12),
        ']' => Some(13),
        ',' => Some(14),
        '\'' => Some(15),
        '/' => Some(16),
        '*' => Some(17),
        'a' => Some(18),
        'b' => Some(19),
        'c' => Some(20),
        'd' => Some(21),
        'e' => Some(22),
        'f' => Some(23),
        'g' => Some(24),
        'h' => Some(25),
        '@' => Some(26),
        ':' => Some(27),
        '$' => Some(28),
        '%' => Some(29),
        '{' => Some(30),
        '}' => Some(31),
        'I' => Some(32),
        'J' => Some(33),
        'K' => Some(34),
        'L' => Some(35),
        'M' => Some(36),
        'N' => Some(37),
        'O' => Some(38),
        'P' => Some(39),
        'Q' => Some(40),
        'R' => Some(41),
        'S' => Some(42),
        'T' => Some(43),
        'U' => Some(44),
        'V' => Some(45),
        'W' => Some(46),
        'X' => Some(47),
        'Y' => Some(48),
        'Z' => Some(49),
        '&' => Some(50),
        '+' => Some(51),
        '-' => Some(52),
        '.' => Some(53),
        ';' => Some(54),
        '<' => Some(55),
        '=' => Some(56),
        '>' => Some(57),
        '?' => Some(58),
        '!' => Some(59),
        '^' => Some(60),
        '_' => Some(61),
        '|' => Some(62),
        '~' => Some(63),
        'i' => Some(64),
        'j' => Some(65),
        'k' => Some(66),
        'l' => Some(67),
        'm' => Some(68),
        'n' => Some(69),
        'o' => Some(70),
        'p' => Some(71),
        'q' => Some(72),
        'r' => Some(73),
        's' => Some(74),
        't' => Some(75),
        'u' => Some(76),
        'v' => Some(77),
        'w' => Some(78),
        'x' => Some(79),
        'y' => Some(80),
        'z' => Some(81),
        'A' => Some(82),
        'B' => Some(83),
        'C' => Some(84),
        'D' => Some(85),
        'E' => Some(86),
        'F' => Some(87),
        'G' => Some(88),
        'H' => Some(89),
        _ => None,
    }
}

/// The eight checksum symbols are drawn from a 32-character table.
pub open spec fn checksum_char(v: u64) -> char {
    match v {
        0 => 'q',
        1 => 'p',
        2 => 'z',
        3 => 'r',
        4 => 'y',
        5 => '9',
        6 => 'x',
        7 => '8',
        8 => 'g',
        9 => 'f',
        10 => '2',
        11 => 't',
        12 => 'v',
        13 => 'd',
        14 => 'w',
        15 => '0',
        16 => 's',
        17 => '3',
        18 => 'j',
        19 => 'n',
        20 => '5',
        21 => '4',
        22 => 'k',
        23 => 'h',
        24 => 'c',
        25 => 'e',
        26 => '6',
        27 => 'm',
        28 => 'u',
        29 => 'a',
        30 => '7',
        31 => 'l',
        _ => ' ',
    }
}

pub fn exec_char_value(c: char) -> (r: Option<u64>)
    ensures
        r == char_value(c),
{
    match c {
        '0' => Some(0),
        '1' => Some(1),
        '2' => Some(2),
        '3' => Some(3),
        '4' => Some(4),
        '5' => Some(5),
        '6' => Some(6),
        '7' => Some(7),
        '8' => Some(8),
        '9' => Some(9),
        '(' => Some(10),
        ')' => Some(11),
        '[' => Some(12),
        ']' => Some(13),
        ',' => Some(14),
        '\'' => Some(15),
        '/' => Some(16),
        '*' => Some(17),
        'a' => Some(18),
        'b' => Some(19),
        'c' => Some(20),
        'd' => Some(21),
        'e' => Some(22),
        'f' => Some(23),
        'g' => Some(24),
        'h' => Some(25),
        '@' => Some(26),
        ':' => Some(27),
        '$' => Some(28),
        '%' => Some(29),
        '{' => Some(30),
        '}' => Some(31),
        'I' => Some(32),
        'J' => Some(33),
        'K' => Some(34),
        'L' => Some(35),
        'M' => Some(36),
        'N' => Some(37),
        'O' => Some(38),
        'P' => Some(39),
        'Q' => Some(40),
        'R' => Some(41),
        'S' => Some(42),
        'T' => Some(43),
        'U' => Some(44),
        'V' => Some(45),
        'W' => Some(46),
        'X' => Some(47),
        'Y' => Some(48),
        'Z' => Some(49),
        '&' => Some(50),
        '+' => Some(51),
        '-' => Some(52),
        '.' => Some(53),
        ';' => Some(54),
        '<' => Some(55),
        '=' => Some(56),
        '>' => Some(57),
        '?' => Some(58),
        '!' => Some(59),
        '^' => Some(60),
        '_' => Some(61),
        '|' => Some(62),
        '~' => Some(63),
        'i' => Some(64),
        'j' => Some(65),
        'k' => Some(66),
        'l' => Some(67),
        'm' => Some(68),
        'n' => Some(69),
        'o' => Some(70),
        'p' => Some(71),
        'q' => Some(72),
        'r' => Some(73),
        's' => Some(74),
        't' => Some(75),
        'u' => Some(76),
        'v' => Some(77),
        'w' => Some(78),
        'x' => Some(79),
        'y' => Some(80),
        'z' => Some(81),
        'A' => Some(82),
        'B' => Some(83),
        'C' => Some(84),
        'D' => Some(85),
        'E' => Some(86),
        'F' => Some(87),
        'G' => Some(88),
        'H' => Some(89),
        _ => None,
    }
}

pub fn exec_checksum_char(v: u64) -> (r: char)
    ensures
        r == checksum_char(v),
{
    match v {
        0 => 'q',
        1 => 'p',
        2 => 'z',
        3 => 'r',
        4 => 'y',
        5 => '9',
        6 => 'x',
        7 => '8',
        8 => 'g',
        9 => 'f',
        10 => '2',
        11 => 't',
        12 => 'v',
        13 => 'd',
        14 => 'w',
        15 => '0',
        16 => 's',
        17 => '3',
        18 => 'j',
        19 => 'n',
        20 => '5',
        21 => '4',
        22 => 'k',
        23 => 'h',
        24 => 'c',
        25 => 'e',
        26 => '6',
        27 => 'm',
        28 => 'u',
        29 => 'a',
        30 => '7',
        31 => 'l',
        _ => ' ',
    }
}

// ---------------------------------------------------------------------------
// The polynomial residue.
// ---------------------------------------------------------------------------

/// One step of the BIP-380 polynomial: shift in a five-bit symbol and reduce
/// by the generator.
pub open spec fn poly_mod(c: u64, v: u64) -> u64 {
    let c0 = c >> 35;
    let c1 = ((c & 0x7ffffffff) << 5) ^ v;
    let c2 = if c0 & 1 != 0 {
        c1 ^ 0xf5dee51989
    } else {
        c1
    };
    let c3 = if c0 & 2 != 0 {
        c2 ^ 0xa9fdca3312
    } else {
        c2
    };
    let c4 = if c0 & 4 != 0 {
        c3 ^ 0x1bab10e32d
    } else {
        c3
    };
    let c5 = if c0 & 8 != 0 {
        c4 ^ 0x3706b1677a
    } else {
        c4
    };
    if c0 & 16 != 0 {
        c5 ^ 0x644d626ffd
    } else {
        c5
    }
}

pub fn exec_poly_mod(c: u64, v: u64) -> (r: u64)
    ensures
        r == poly_mod(c, v),
{
    let c0 = c >> 35;
    let mut c1 = ((c & 0x7ffffffff) << 5) ^ v;
    if c0 & 1 != 0 {
        c1 = c1 ^ 0xf5dee51989;
    }
    if c0 & 2 != 0 {
        c1 = c1 ^ 0xa9fdca3312;
    }
    if c0 & 4 != 0 {
        c1 = c1 ^ 0x1bab10e32d;
    }
    if c0 & 8 != 0 {
        c1 = c1 ^ 0x3706b1677a;
    }
    if c0 & 16 != 0 {
        c1 = c1 ^ 0x644d626ffd;
    }
    c1
}

/// Folds the characters of `s` from position `i` on into the polynomial
/// state: the residue `c`, the pending group value `cls` and the number of
/// characters in the pending group.
pub open spec fn fold_from(s: Seq<char>, i: int, c: u64, cls: int, cnt: int) -> Option<
    (u64, int, int),
>
    decreases s.len() - i,
{
    if i < 0 || i >= s.len() {
        Some((c, cls, cnt))
    } else {
        match char_value(s[i]) {
            None => None,
            Some(pos) => {
                let c1 = poly_mod(c, pos & 31);
                let cls1 = cls * 3 + ((pos >> 5) as int);
                if cnt + 1 == 3 {
                    fold_from(s, i + 1, poly_mod(c1, cls1 as u64), 0, 0)
                } else {
                    fold_from(s, i + 1, c1, cls1, cnt + 1)
                }
            },
        }
    }
}

/// Eight zero symbols make room for the checksum itself.
pub open spec fn fold_zeros(c: u64, n: int) -> u64
    decreases n,
{
    if n <= 0 {
        c
    } else {
        fold_zeros(poly_mod(c, 0), n - 1)
    }
}

/// The BIP-380 checksum of a descriptor body: eight characters, or nothing
/// if the body steps outside the descriptor alphabet.
pub open spec fn spec_checksum(body: Seq<char>) -> Option<Seq<char>> {
    match fold_from(body, 0, 1, 0, 0) {
        None => None,
        Some((c, cls, cnt)) => {
            let c1 = if cnt > 0 {
                poly_mod(c, cls as u64)
            } else {
                c
            };
            let cf = fold_zeros(c1, 8) ^ 1;
            Some(Seq::new(8, |j: int| checksum_char((cf >> ((35 - 5 * j) as u64)) & 31)))
        },
    }
}

/// The body of a descriptor string: everything before the first `#`.
pub open spec fn spec_strip(s: Seq<char>) -> Seq<char> {
    s.take(run_end(s, 0, |c: char| c != '#'))
}

/// If the fold accepts a text, every character of it is in the alphabet; in
/// particular the text holds no `#`.
pub proof fn lemma_fold_accepts(s: Seq<char>, i: int, c: u64, cls: int, cnt: int)
    requires
        0 <= i,
        fold_from(s, i, c, cls, cnt) is Some,
    ensures
        forall|k: int| i <= k < s.len() ==> char_value(#[trigger] s[k]) is Some,
    decreases s.len() - i,
{
    if 0 <= i < s.len() {
        match char_value(s[i]) {
            None => {},
            Some(pos) => {
                let c1 = poly_mod(c, pos & 31);
                let cls1 = cls * 3 + ((pos >> 5) as int);
                if cnt + 1 == 3 {
                    lemma_fold_accepts(s, i + 1, poly_mod(c1, cls1 as u64), 0, 0);
                } else {
                    lemma_fold_accepts(s, i + 1, c1, cls1, cnt + 1);
                }
            },
        }
    }
}

/// If every character of a text is in the alphabet, the fold accepts it.
pub proof fn lemma_fold_defined(s: Seq<char>, i: int, c: u64, cls: int, cnt: int)
    requires
        forall|k: int| i <= k < s.len() ==> char_value(#[trigger] s[k]) is Some,
    ensures
        fold_from(s, i, c, cls, cnt) is Some,
    decreases s.len() - i,
{
    if 0 <= i < s.len() {
        let pos = char_value(s[i]).unwrap();
        let c1 = poly_mod(c, pos & 31);
        let cls1 = cls * 3 + ((pos >> 5) as int);
        if cnt + 1 == 3 {
            lemma_fold_defined(s, i + 1, poly_mod(c1, cls1 as u64), 0, 0);
        } else {
            lemma_fold_defined(s, i + 1, c1, cls1, cnt + 1);
        }
    }
}

/// A body whose characters all lie in the alphabet has a checksum.
pub proof fn lemma_checksum_defined(body: Seq<char>)
    requires
        forall|k: int| 0 <= k < body.len() ==> char_value(#[trigger] body[k]) is Some,
    ensures
        spec_checksum(body) is Some,
        spec_checksum(body).unwrap().len() == 8,
{
    lemma_fold_defined(body, 0, 1, 0, 0);
}

/// A text with every character in the alphabet holds no `#`, so stripping
/// leaves it unchanged.
pub proof fn lemma_strip_id(t: Seq<char>)
    requires
        forall|k: int| 0 <= k < t.len() ==> char_value(#[trigger] t[k]) is Some,
    ensures
        spec_strip(t) == t,
{
    assert(forall|k: int| 0 <= k < t.len() ==> #[trigger] t[k] != '#');
    lemma_run_end_of(t, 0, t.len() as int, |c: char| c != '#');
    assert(t.take(t.len() as int) =~= t);
}

// ---------------------------------------------------------------------------
// Computing and verifying checksums.
// ---------------------------------------------------------------------------

/// Computes the checksum of a descriptor body, ignoring any `#` suffix.
pub fn compute(s: &str) -> (r: Result<String, Error>)
    ensures
        match r {
            Ok(cs) => spec_checksum(spec_strip(s@)) == Some(cs@) && cs@.len() == 8,
            Err(e) => {
                &&& e matches Error::MalformedInput { bad }
                &&& char_value(bad) is None
                &&& spec_strip(s@).contains(bad)
                &&& spec_checksum(spec_strip(s@)) is None
            },
        },
{
    let len = s.unicode_len();
    let ghost nothash = |c: char| c != '#';
    let mut h: usize = 0;
    while h < len && s.get_char(h) != '#'
        invariant
            0 <= h <= len,
            len == s@.len(),
            forall|k: int| 0 <= k < h ==> #[trigger] s@[k] != '#',
        decreases len - h,
    {
        h = h + 1;
    }
    proof {
        lemma_run_end_of(s@, 0, h as int, nothash);
    }
    let ghost body = spec_strip(s@);
    proof {
        assert(body.len() == h);
        assert(forall|k: int| 0 <= k < h ==> body[k] == s@[k]);
    }
    let mut c: u64 = 1;
    let mut cls: u64 = 0;
    let mut cnt: u64 = 0;
    let mut i: usize = 0;
    while i < h
        invariant
            0 <= i <= h <= len,
            len == s@.len(),
            body == spec_strip(s@),
            body.len() == h,
            forall|k: int| 0 <= k < h ==> body[k] == s@[k],
            cls <= 8,
            cnt <= 2,
            cnt == 0 ==> cls == 0,
            cnt == 1 ==> cls <= 2,
            fold_from(body, 0, 1, 0, 0) == fold_from(
                body,
                i as int,
                c,
                cls as int,
                cnt as int,
            ),
        decreases h - i,
    {
        let ch = s.get_char(i);
        match exec_char_value(ch) {
            None => {
                proof {
                    assert(body[i as int] == ch);
                    assert(body.contains(ch));
                }
                return Err(Error::MalformedInput { bad: ch });
            },
            Some(pos) => {
                proof {
                    assert(pos < 90);
                    assert(pos < 90 ==> (pos >> 5) <= 2 && (pos & 31) <= 31) by (bit_vector);
                }
                let c1 = exec_poly_mod(c, pos & 31);
                let cls1 = cls * 3 + (pos >> 5);
                if cnt + 1 == 3 {
                    c = exec_poly_mod(c1, cls1);
                    cls = 0;
                    cnt = 0;
                } else {
                    c = c1;
                    cls = cls1;
                    cnt = cnt + 1;
                }
            },
        }
        i = i + 1;
    }
    proof {
        assert(fold_from(body, h as int, c, cls as int, cnt as int) == Some(
            (c, cls as int, cnt as int),
        ));
    }
    let ghost foldres = (c, cls as int, cnt as int);
    if cnt > 0 {
        c = exec_poly_mod(c, cls);
    }
    let ghost cstart = c;
    let mut z: usize = 0;
    while z < 8
        invariant
            0 <= z <= 8,
            fold_zeros(cstart, 8) == fold_zeros(c, 8 - z as int),
        decreases 8 - z,
    {
        c = exec_poly_mod(c, 0);
        z = z + 1;
    }
    proof {
        assert(fold_zeros(c, 0) == c);
    }
    c = c ^ 1;
    let ghost target = spec_checksum(body).unwrap();
    proof {
        assert(fold_from(body, 0, 1, 0, 0) == Some(foldres));
        assert(cstart == if foldres.2 > 0 {
            poly_mod(foldres.0, foldres.1 as u64)
        } else {
            foldres.0
        });
        assert(spec_checksum(body) is Some);
        assert(target =~= Seq::new(8, |j: int| checksum_char((c >> ((35 - 5 * j) as u64)) & 31)));
    }
    let mut out = String::new();
    let mut j: usize = 0;
    while j < 8
        invariant
            0 <= j <= 8,
            target.len() == 8,
            forall|k: int| 0 <= k < 8 ==> target[k] == checksum_char(
                (c >> ((35 - 5 * k) as u64)) & 31,
            ),
            out@ == target.take(j as int),
        decreases 8 - j,
    {
        let sh: u64 = 35 - 5 * (j as u64);
        let ch = exec_checksum_char((c >> sh) & 31);
        out.push(ch);
        proof {
            assert(out@ =~= target.take(j as int + 1));
        }
        j = j + 1;
    }
    proof {
        assert(out@ =~= target);
    }
    Ok(out)
}

/// Whether `s` has the shape `body#checksum`: what `verify` decides, or
/// nothing where the text is not even of that shape.
pub open spec fn spec_verify(s: Seq<char>) -> Option<bool> {
    let h = run_end(s, 0, |c: char| c != '#');
    if h == s.len() {
        None
    } else if s.len() - h - 1 != 8 {
        None
    } else {
        match spec_checksum(s.take(h)) {
            None => None,
            Some(c) => Some(c == s.skip(h + 1)),
        }
    }
}

/// Recomputes the checksum of `body#checksum` text and compares. A mismatch
/// is an `Ok(false)`; text without a separator, with a tail that is not
/// eight characters long, or with a body outside the alphabet is
/// `MalformedInput`.
pub fn verify(s: &str) -> (r: Result<bool, Error>)
    ensures
        match r {
            Ok(b) => spec_verify(s@) == Some(b),
            Err(e) => {
                &&& spec_verify(s@) is None
                &&& e matches Error::MalformedInput { bad }
                &&& (bad != '#' ==> char_value(bad) is None && spec_strip(s@).contains(bad))
            },
        },
{
    let len = s.unicode_len();
    let ghost nothash = |c: char| c != '#';
    let mut h: usize = 0;
    while h < len && s.get_char(h) != '#'
        invariant
            0 <= h <= len,
            len == s@.len(),
            forall|k: int| 0 <= k < h ==> #[trigger] s@[k] != '#',
        decreases len - h,
    {
        h = h + 1;
    }
    proof {
        lemma_run_end_of(s@, 0, h as int, nothash);
    }
    if h == len {
        return Err(Error::MalformedInput { bad: '#' });
    }
    if len - h - 1 != 8 {
        return Err(Error::MalformedInput { bad: '#' });
    }
    let cs = match compute(s) {
        Ok(cs) => cs,
        Err(e) => {
            // The body holds a character outside the alphabet: hand that
            // character on.
            return Err(e);
        },
    };
    let ghost tail = s@.skip(h as int + 1);
    let mut k: usize = 0;
    while k < 8
        invariant
            0 <= k <= 8,
            len == s@.len(),
            h + 9 == len,
            run_end(s@, 0, |c: char| c != '#') == h as int,
            tail == s@.skip(h as int + 1),
            cs@.len() == 8,
            spec_checksum(s@.take(h as int)) == Some(cs@),
            forall|m: int| 0 <= m < k ==> cs@[m] == #[trigger] tail[m],
        decreases 8 - k,
    {
        if cs.as_str().get_char(k) != s.get_char(h + 1 + k) {
            proof {
                assert(tail[k as int] == s@[h as int + 1 + k]);
                assert(cs@ != tail) by {
                    assert(cs@[k as int] != tail[k as int]);
                }
            }
            return Ok(false);
        }
        k = k + 1;
    }
    proof {
        assert(cs@ =~= tail) by {
            assert(forall|m: int| 0 <= m < 8 ==> cs@[m] == #[trigger] tail[m]);
        }
    }
    Ok(true)
}

// ---------------------------------------------------------------------------
// The checksum round trip.
// ---------------------------------------------------------------------------

/// Appending `#` and the computed checksum of a body yields text that
/// verifies: computing is deterministic and `verify` accepts its output.
pub proof fn lemma_checksum_round_trip(body: Seq<char>, c: Seq<char>)
    requires
        spec_checksum(body) == Some(c),
    ensures
        spec_verify(body + seq!['#'] + c) == Some(true),
{
    let s = body + seq!['#'] + c;
    lemma_fold_accepts(body, 0, 1, 0, 0);
    assert(char_value('#') is None);
    assert(forall|k: int| 0 <= k < body.len() ==> #[trigger] s[k] != '#') by {
        assert(forall|k: int| 0 <= k < body.len() ==> s[k] == #[trigger] body[k]);
    }
    assert(s[body.len() as int] == '#');
    lemma_run_end_of(s, 0, body.len() as int, |ch: char| ch != '#');
    assert(c.len() == 8);
    assert(s.take(body.len() as int) =~= body);
    assert(s.skip(body.len() as int + 1) =~= c);
}

} // verus!
