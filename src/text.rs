//! Character-level helpers shared by the counter parsers.
use vstd::prelude::*;
use vstd::std_specs::iter::IteratorSpec;

verus! {

broadcast use vstd::string::group_string_axioms;

/// Copies the characters of `s` into a vector.
pub fn chars_of(s: &str) -> (r: Vec<char>)
    ensures
        r@ == s@,
{
    let mut it = s.chars();
    let mut r: Vec<char> = Vec::new();
    loop
        invariant
            it.remaining() == s@.skip(r.len() as int),
            r@ == s@.take(r.len() as int),
            r.len() <= s@.len(),
            it.obeys_prophetic_iter_laws(),
        ensures
            r@ == s@,
        decreases s@.len() - r.len(),
    {
        match it.next() {
            Some(c) => {
                r.push(c);
            },
            None => {
                assert(r@ =~= s@);
                break;
            },
        }
    }
    r
}

/// Relies on `String`'s `FromIterator<char>`: the string holds the characters in order.
#[verifier::external_body]
pub(crate) fn string_from_chars(v: &[char]) -> (r: String)
    ensures
        r@ == v@,
{
    v.iter().collect()
}

} // verus!

verus! {

/// Unicode `White_Space`, the set that `char::is_whitespace` tests.
pub open spec fn is_ws(c: char) -> bool {
    let u = c as u32;
    (0x09 <= u && u <= 0x0D) || u == 0x20 || u == 0x85 || u == 0xA0 || u == 0x1680 || (0x2000
        <= u && u <= 0x200A) || u == 0x2028 || u == 0x2029 || u == 0x202F || u == 0x205F || u
        == 0x3000
}

pub fn is_whitespace(c: char) -> (r: bool)
    ensures
        r == is_ws(c),
{
    let u = c as u32;
    (0x09 <= u && u <= 0x0D) || u == 0x20 || u == 0x85 || u == 0xA0 || u == 0x1680 || (0x2000
        <= u && u <= 0x200A) || u == 0x2028 || u == 0x2029 || u == 0x202F || u == 0x205F || u
        == 0x3000
}

/// The whitespace-separated tokens of `s`, defined by the last character.
pub open spec fn tokens(s: Seq<char>) -> Seq<Seq<char>>
    decreases s.len(),
{
    if s.len() == 0 {
        seq![]
    } else {
        let prev = tokens(s.drop_last());
        let c = s.last();
        if is_ws(c) {
            prev
        } else if s.len() == 1 || is_ws(s[s.len() - 2]) {
            prev.push(seq![c])
        } else {
            prev.update(prev.len() - 1, prev.last().push(c))
        }
    }
}

pub open spec fn views(v: Seq<Vec<char>>) -> Seq<Seq<char>> {
    v.map_values(|t: Vec<char>| t@)
}

/// Splits `s` at whitespace, as `str::split_whitespace` does.
pub fn split_tokens(s: &[char]) -> (r: Vec<Vec<char>>)
    ensures
        views(r@) == tokens(s@),
{
    let mut done: Vec<Vec<char>> = Vec::new();
    let mut cur: Vec<char> = Vec::new();
    let mut i: usize = 0;
    while i < s.len()
        invariant
            i <= s@.len(),
            cur@.len() == 0 ==> views(done@) == tokens(s@.take(i as int)),
            cur@.len() > 0 ==> views(done@).push(cur@) == tokens(s@.take(i as int)),
            cur@.len() > 0 ==> i > 0 && !is_ws(s@[i - 1]),
            cur@.len() == 0 ==> (i == 0 || is_ws(s@[i - 1])),
        decreases s@.len() - i,
    {
        let c = s[i];
        let ghost pre = s@.take(i as int);
        assert(s@.take(i + 1).drop_last() =~= pre);
        assert(s@.take(i + 1).last() == c);
        assert(i > 0 ==> s@.take(i + 1)[i - 1] == s@[i - 1]);
        if is_whitespace(c) {
            assert(tokens(s@.take(i + 1)) == tokens(pre));
            if cur.len() > 0 {
                let t = cur;
                done.push(t);
                cur = Vec::new();
                assert(views(done@) =~= tokens(pre));
            }
        } else {
            if cur.len() == 0 {
                cur.push(c);
                assert(cur@ =~= seq![c]);
                assert(tokens(s@.take(i + 1)) == tokens(pre).push(seq![c]));
                assert(views(done@).push(cur@) =~= tokens(s@.take(i + 1)));
            } else {
                let ghost before = views(done@).push(cur@);
                cur.push(c);
                assert(views(done@).push(cur@) =~= before.update(before.len() - 1, before.last().push(c)));
            }
        }
        i += 1;
    }
    assert(s@.take(i as int) =~= s@);
    if cur.len() > 0 {
        done.push(cur);
        assert(views(done@) =~= tokens(s@));
    }
    done
}

} // verus!

verus! {

/// The pieces of `s` between newline characters; there is always at least one.
pub open spec fn pieces(s: Seq<char>) -> Seq<Seq<char>>
    decreases s.len(),
{
    if s.len() == 0 {
        seq![seq![]]
    } else {
        let prev = pieces(s.drop_last());
        if s.last() == '\n' {
            prev.push(seq![])
        } else {
            prev.update(prev.len() - 1, prev.last().push(s.last()))
        }
    }
}

pub proof fn lemma_pieces_len(s: Seq<char>)
    ensures
        pieces(s).len() >= 1,
    decreases s.len(),
{
    if s.len() > 0 {
        lemma_pieces_len(s.drop_last());
    }
}

/// The lines of `s`: the newline-separated pieces, without the empty piece
/// that a final newline leaves.
pub open spec fn lines(s: Seq<char>) -> Seq<Seq<char>> {
    let p = pieces(s);
    if p.last().len() == 0 {
        p.drop_last()
    } else {
        p
    }
}

pub fn split_lines(s: &[char]) -> (r: Vec<Vec<char>>)
    ensures
        views(r@) == lines(s@),
{
    let mut done: Vec<Vec<char>> = Vec::new();
    let mut cur: Vec<char> = Vec::new();
    let mut i: usize = 0;
    while i < s.len()
        invariant
            i <= s@.len(),
            views(done@).push(cur@) == pieces(s@.take(i as int)),
        decreases s@.len() - i,
    {
        let c = s[i];
        let ghost pre = s@.take(i as int);
        assert(s@.take(i + 1).drop_last() =~= pre);
        assert(s@.take(i + 1).last() == c);
        proof {
            lemma_pieces_len(pre);
        }
        if c == '\n' {
            let t = cur;
            done.push(t);
            cur = Vec::new();
            assert(views(done@).push(cur@) =~= pieces(pre).push(seq![]));
        } else {
            let ghost before = views(done@).push(cur@);
            cur.push(c);
            assert(views(done@).push(cur@) =~= before.update(
                before.len() - 1,
                before.last().push(c),
            ));
        }
        i += 1;
    }
    assert(s@.take(i as int) =~= s@);
    if cur.len() > 0 {
        done.push(cur);
    }
    assert(views(done@) =~= lines(s@));
    done
}

pub open spec fn trim_start(s: Seq<char>) -> Seq<char>
    decreases s.len(),
{
    if s.len() > 0 && is_ws(s[0]) {
        trim_start(s.drop_first())
    } else {
        s
    }
}

pub open spec fn trim_end(s: Seq<char>) -> Seq<char>
    decreases s.len(),
{
    if s.len() > 0 && is_ws(s.last()) {
        trim_end(s.drop_last())
    } else {
        s
    }
}

/// `s` without leading and trailing whitespace, as `str::trim` gives it.
pub open spec fn trim(s: Seq<char>) -> Seq<char> {
    trim_end(trim_start(s))
}

pub fn trimmed(s: &[char]) -> (r: Vec<char>)
    ensures
        r@ == trim(s@),
{
    let mut a: usize = 0;
    assert(s@.subrange(0, s@.len() as int) =~= s@);
    while a < s.len() && is_whitespace(s[a])
        invariant
            a <= s@.len(),
            trim_start(s@) == trim_start(s@.subrange(a as int, s@.len() as int)),
        decreases s@.len() - a,
    {
        assert(s@.subrange(a as int, s@.len() as int).drop_first() =~= s@.subrange(
            a + 1,
            s@.len() as int,
        ));
        a += 1;
    }
    let ghost t = s@.subrange(a as int, s@.len() as int);
    assert(trim_start(s@) == t);
    let mut b: usize = s.len();
    while b > a && is_whitespace(s[b - 1])
        invariant
            a <= b <= s@.len(),
            trim_end(t) == trim_end(s@.subrange(a as int, b as int)),
        decreases b,
    {
        assert(s@.subrange(a as int, b as int).drop_last() =~= s@.subrange(a as int, b - 1));
        b -= 1;
    }
    let mut r: Vec<char> = Vec::new();
    let mut k: usize = a;
    while k < b
        invariant
            a <= k <= b <= s@.len(),
            r@ == s@.subrange(a as int, k as int),
        decreases b - k,
    {
        r.push(s[k]);
        assert(r@ =~= s@.subrange(a as int, k + 1));
        k += 1;
    }
    r
}

} // verus!

verus! {

pub open spec fn is_digit(c: char) -> bool {
    48 <= (c as u32) && (c as u32) <= 57
}

pub open spec fn digit_val(c: char) -> nat {
    ((c as u32) - 48) as nat
}

pub open spec fn all_digits(t: Seq<char>) -> bool {
    forall|i: int| 0 <= i < t.len() ==> is_digit(#[trigger] t[i])
}

/// The number that a string of decimal digits spells.
pub open spec fn digits_value(t: Seq<char>) -> nat
    decreases t.len(),
{
    if t.len() == 0 {
        0
    } else {
        digits_value(t.drop_last()) * 10 + digit_val(t.last())
    }
}

/// `x`, or `u64::MAX` where `x` is larger.
pub open spec fn sat(x: int) -> int {
    if x > u64::MAX {
        u64::MAX as int
    } else {
        x
    }
}

pub open spec fn unsigned_digits(t: Seq<char>) -> Seq<char> {
    if t.len() > 0 && t[0] == '+' {
        t.drop_first()
    } else {
        t
    }
}

/// What `str::parse` gives for an unsigned integer type whose largest value is `max`:
/// an optional `+`, then one or more decimal digits, the value at most `max`.
pub open spec fn parse_unsigned(t: Seq<char>, max: nat) -> Option<nat> {
    let d = unsigned_digits(t);
    if d.len() > 0 && all_digits(d) && digits_value(d) <= max {
        Some(digits_value(d))
    } else {
        None
    }
}

pub open spec fn lift(o: Option<u64>) -> Option<nat> {
    match o {
        Some(v) => Some(v as nat),
        None => None,
    }
}

/// Reads `t[lo..hi]` as decimal digits; the value is saturated at `u64::MAX`.
/// The first flag tells whether every character there is a digit, the second
/// whether the value fits in a `u64`.
pub fn digits_saturating(t: &[char], lo: usize, hi: usize) -> (r: (u64, bool, bool))
    requires
        lo <= hi <= t@.len(),
    ensures
        r.1 == all_digits(t@.subrange(lo as int, hi as int)),
        r.1 ==> r.0 == sat(digits_value(t@.subrange(lo as int, hi as int)) as int),
        r.1 ==> (r.2 <==> digits_value(t@.subrange(lo as int, hi as int)) <= u64::MAX),
{
    let mut v: u64 = 0;
    let mut fits = true;
    let mut k: usize = lo;
    while k < hi
        invariant
            lo <= k <= hi <= t@.len(),
            all_digits(t@.subrange(lo as int, k as int)),
            v == sat(digits_value(t@.subrange(lo as int, k as int)) as int),
            fits <==> digits_value(t@.subrange(lo as int, k as int)) <= u64::MAX,
        decreases hi - k,
    {
        let c = t[k];
        let u = c as u32;
        if u < 48 || u > 57 {
            assert(!is_digit(t@.subrange(lo as int, hi as int)[k - lo]));
            return (v, false, fits);
        }
        let d = (u - 48) as u64;
        let ghost prev = digits_value(t@.subrange(lo as int, k as int));
        assert(t@.subrange(lo as int, k + 1).drop_last() =~= t@.subrange(lo as int, k as int));
        assert(digits_value(t@.subrange(lo as int, k + 1)) == prev * 10 + d);
        if v > (u64::MAX - d) / 10 {
            v = u64::MAX;
            fits = false;
        } else {
            v = v * 10 + d;
        }
        k += 1;
    }
    (v, true, fits)
}

/// Parses an unsigned integer no larger than `max`, as `str::parse` does.
pub fn parse_uint(t: &[char], max: u64) -> (r: Option<u64>)
    ensures
        lift(r) == parse_unsigned(t@, max as nat),
{
    let lo: usize = if t.len() > 0 && t[0] == '+' { 1 } else { 0 };
    let ghost d = unsigned_digits(t@);
    assert(d =~= t@.subrange(lo as int, t@.len() as int));
    if lo == t.len() {
        return None;
    }
    let (v, ok, fits) = digits_saturating(t, lo, t.len());
    if ok && fits && v <= max {
        Some(v)
    } else {
        None
    }
}

} // verus!

verus! {

/// Index of the first `c` in `s`, or `s.len()` where there is none.
pub open spec fn first_index(s: Seq<char>, c: char) -> int
    decreases s.len(),
{
    if s.len() == 0 {
        0
    } else {
        let f = first_index(s.drop_last(), c);
        if f < s.len() - 1 {
            f
        } else if s.last() == c {
            s.len() - 1
        } else {
            s.len() as int
        }
    }
}

pub proof fn lemma_first_index(s: Seq<char>, c: char)
    ensures
        0 <= first_index(s, c) <= s.len(),
        forall|j: int| 0 <= j < first_index(s, c) ==> s[j] != c,
        first_index(s, c) < s.len() ==> s[first_index(s, c)] == c,
    decreases s.len(),
{
    if s.len() > 0 {
        lemma_first_index(s.drop_last(), c);
        assert(forall|j: int| 0 <= j < s.len() - 1 ==> s.drop_last()[j] == s[j]);
    }
}

/// Index of the first `c` at or after `lo`, or `s.len()`.
pub fn find_char(s: &[char], lo: usize, c: char) -> (r: usize)
    requires
        lo <= s@.len(),
    ensures
        lo <= r,
        r - lo == first_index(s@.subrange(lo as int, s@.len() as int), c),
{
    let ghost u = s@.subrange(lo as int, s@.len() as int);
    let mut k: usize = lo;
    while k < s.len()
        invariant
            lo <= k <= s@.len(),
            u == s@.subrange(lo as int, s@.len() as int),
            first_index(u.take(k - lo), c) == k - lo,
        decreases s@.len() - k,
    {
        assert(u.take(k - lo + 1).drop_last() =~= u.take(k - lo));
        assert(u[k - lo] == s@[k as int]);
        if s[k] == c {
            assert(first_index(u.take(k - lo + 1), c) == k - lo);
            proof {
                lemma_first_index_extends(u, k - lo + 1, c);
            }
            return k;
        }
        k += 1;
    }
    assert(u.take(k - lo) =~= u);
    k
}

pub proof fn lemma_first_index_extends(s: Seq<char>, k: int, c: char)
    requires
        0 <= k <= s.len(),
        first_index(s.take(k), c) < k,
    ensures
        first_index(s, c) == first_index(s.take(k), c),
    decreases s.len() - k,
{
    if k < s.len() {
        assert(s.take(k + 1).drop_last() =~= s.take(k));
        lemma_first_index_extends(s, k + 1, c);
    } else {
        assert(s.take(k) =~= s);
    }
}

/// The digits before the decimal point of `t`, sign removed.
pub open spec fn decimal_int_digits(t: Seq<char>) -> Seq<char> {
    let d = unsigned_digits(t);
    d.take(first_index(d, '.'))
}

/// The digits after the decimal point of `t`, if it has one.
pub open spec fn decimal_frac_digits(t: Seq<char>) -> Seq<char> {
    let d = unsigned_digits(t);
    let p = first_index(d, '.');
    if p < d.len() {
        d.skip(p + 1)
    } else {
        seq![]
    }
}

/// `t` is a plain decimal number: an optional `+`, digits, and optionally a
/// point followed by digits, with at least one digit in all.
pub open spec fn is_decimal(t: Seq<char>) -> bool {
    let i = decimal_int_digits(t);
    let f = decimal_frac_digits(t);
    all_digits(i) && all_digits(f) && i.len() + f.len() > 0
}

/// The first two fraction digits as hundredths, missing digits read as zero.
pub open spec fn hundredths_of(f: Seq<char>) -> nat {
    if f.len() >= 2 {
        digits_value(f.take(2))
    } else if f.len() == 1 {
        digits_value(f) * 10
    } else {
        0
    }
}

/// Reads a plain decimal number: the integer part (saturated at `u64::MAX`)
/// and the first two fraction digits as hundredths.
pub fn parse_decimal(t: &[char]) -> (r: Option<(u64, u64)>)
    ensures
        r is Some <==> is_decimal(t@),
        r matches Some(v) ==> v.0 == sat(digits_value(decimal_int_digits(t@)) as int) && v.1
            == hundredths_of(decimal_frac_digits(t@)),
{
    let lo: usize = if t.len() > 0 && t[0] == '+' { 1 } else { 0 };
    let ghost d = unsigned_digits(t@);
    assert(d =~= t@.subrange(lo as int, t@.len() as int));
    let p = find_char(t, lo, '.');
    proof {
        lemma_first_index(d, '.');
    }
    assert(decimal_int_digits(t@) =~= t@.subrange(lo as int, p as int));
    let (iv, iok, _) = digits_saturating(t, lo, p);
    let fs: usize = if p < t.len() { p + 1 } else { p };
    assert(decimal_frac_digits(t@) =~= t@.subrange(fs as int, t@.len() as int));
    let (fv, fok, _) = digits_saturating(t, fs, t.len());
    if !iok || !fok || (p - lo) + (t.len() - fs) == 0 {
        return None;
    }
    let ghost f = decimal_frac_digits(t@);
    let h: u64 = if t.len() - fs >= 2 {
        let (h2, _, _) = digits_saturating(t, fs, fs + 2);
        assert(t@.subrange(fs as int, fs + 2) =~= f.take(2));
        assert(all_digits(f.take(2)));
        assert(digits_value(f.take(2)) == digits_value(f.take(2).drop_last()) * 10 + digit_val(
            f.take(2).last(),
        ));
        assert(digits_value(f.take(2).drop_last()) == digits_value(f.take(2).drop_last().drop_last()) * 10 + digit_val(
            f.take(2).drop_last().last(),
        ));
        h2
    } else if t.len() - fs == 1 {
        assert(f.drop_last().len() == 0);
        assert(digits_value(f.drop_last()) == 0);
        assert(digits_value(f) == digit_val(f.last()));
        fv * 10
    } else {
        0
    };
    Some((iv, h))
}

} // verus!

verus! {

pub open spec fn digit_char(d: nat) -> char {
    ((d + 48) as u32) as char
}

/// The decimal spelling of `n`, without leading zeros.
pub open spec fn decimal_digits(n: nat) -> Seq<char>
    decreases n,
{
    if n < 10 {
        seq![digit_char(n)]
    } else {
        decimal_digits(n / 10).push(digit_char(n % 10))
    }
}

fn digit_to_char(d: u32) -> (c: char)
    requires
        d < 10,
    ensures
        c == digit_char(d as nat),
{
    match d {
        0 => '0',
        1 => '1',
        2 => '2',
        3 => '3',
        4 => '4',
        5 => '5',
        6 => '6',
        7 => '7',
        8 => '8',
        _ => '9',
    }
}

/// Appends the decimal spelling of `n`.
pub fn push_decimal(n: u32, out: &mut Vec<char>)
    ensures
        final(out)@ == old(out)@ + decimal_digits(n as nat),
    decreases n,
{
    if n >= 10 {
        push_decimal(n / 10, out);
    }
    let d = n % 10;
    let c = digit_to_char(d);
    out.push(c);
    assert(final(out)@ =~= old(out)@ + decimal_digits(n as nat));
}

} // verus!
