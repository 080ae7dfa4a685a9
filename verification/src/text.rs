//! Character-level string helpers used by the parameter and firmware
//! rules: exact and ASCII case-insensitive comparison, substring search.

use vstd::prelude::*;
use vstd::string::StringExecFns;

verus! {

/// The characters of `s`, in order.
pub fn chars_of(s: &str) -> (r: Vec<char>)
    ensures
        r@ == s@,
{
    let mut out: Vec<char> = Vec::new();
    for c in it: s.chars()
        invariant
            out@.len() == it.index(),
            forall|i: int| 0 <= i < out@.len() ==> out@[i] == it.seq()[i],
    {
        out.push(c);
    }
    proof {
        vstd::string::axiom_spec_iter(s);
        assert(out@ =~= s@);
    }
    out
}

/// Code of the ASCII lower case of `c`; other characters keep their code.
pub open spec fn ascii_lower(c: char) -> u32 {
    if 'A' <= c <= 'Z' {
        ((c as u32) + 32) as u32
    } else {
        c as u32
    }
}

/// ASCII lower case of every character, as codes.
pub open spec fn lower_seq(s: Seq<char>) -> Seq<u32> {
    s.map_values(|c: char| ascii_lower(c))
}

fn lower_char(c: char) -> (r: u32)
    ensures
        r == ascii_lower(c),
{
    if 'A' <= c && c <= 'Z' {
        c as u32 + 32
    } else {
        c as u32
    }
}

/// Whether `a` and `b` hold the same characters.
pub fn str_eq(a: &str, b: &str) -> (r: bool)
    ensures
        r == (a@ == b@),
{
    let x = chars_of(a);
    let y = chars_of(b);
    if x.len() != y.len() {
        return false;
    }
    let mut i: usize = 0;
    while i < x.len()
        invariant
            x@ == a@,
            y@ == b@,
            x@.len() == y@.len(),
            i <= x@.len(),
            forall|k: int| 0 <= k < i ==> x@[k] == y@[k],
        decreases x@.len() - i,
    {
        if x[i] != y[i] {
            return false;
        }
        i = i + 1;
    }
    assert(a@ =~= b@);
    true
}

/// Whether `a` and `b` are equal ignoring ASCII case.
pub fn eq_ignore_ascii_case(a: &str, b: &str) -> (r: bool)
    ensures
        r == (lower_seq(a@) == lower_seq(b@)),
{
    let x = chars_of(a);
    let y = chars_of(b);
    if x.len() != y.len() {
        proof {
            assert(lower_seq(a@).len() != lower_seq(b@).len());
        }
        return false;
    }
    let mut i: usize = 0;
    while i < x.len()
        invariant
            x@ == a@,
            y@ == b@,
            x@.len() == y@.len(),
            i <= x@.len(),
            forall|k: int| 0 <= k < i ==> ascii_lower(x@[k]) == ascii_lower(y@[k]),
        decreases x@.len() - i,
    {
        if lower_char(x[i]) != lower_char(y[i]) {
            proof {
                assert(lower_seq(a@)[i as int] != lower_seq(b@)[i as int]);
            }
            return false;
        }
        i = i + 1;
    }
    assert(lower_seq(a@) =~= lower_seq(b@));
    true
}

/// `pat` occurs in `s` at position `i`.
pub open spec fn occurs_at(s: Seq<char>, pat: Seq<char>, i: int) -> bool {
    0 <= i && i + pat.len() <= s.len() && s.subrange(i, i + pat.len()) == pat
}

/// `pat` occurs somewhere in `s`.
pub open spec fn contains_seq(s: Seq<char>, pat: Seq<char>) -> bool {
    exists|i: int| occurs_at(s, pat, i)
}

/// Whether `pat` occurs in `s`.
pub fn str_contains(s: &str, pat: &str) -> (r: bool)
    ensures
        r == contains_seq(s@, pat@),
{
    let x = chars_of(s);
    let p = chars_of(pat);
    if p.len() > x.len() {
        proof {
            assert forall|i: int| !occurs_at(s@, pat@, i) by {}
        }
        return false;
    }
    if p.len() == 0 {
        proof {
            assert(s@.subrange(0, 0) =~= pat@);
            assert(occurs_at(s@, pat@, 0));
        }
        return true;
    }
    let mut i: usize = 0;
    while i <= x.len() - p.len()
        invariant
            x@ == s@,
            p@ == pat@,
            1 <= p@.len() <= x@.len(),
            i <= x@.len() - p@.len() + 1,
            forall|k: int| 0 <= k < i ==> !occurs_at(s@, pat@, k),
        decreases x@.len() - i,
    {
        let mut j: usize = 0;
        let mut same = true;
        let xl = x.len();
        while j < p.len()
            invariant
                xl == x@.len(),
                x@ == s@,
                p@ == pat@,
                i + p@.len() <= x@.len(),
                j <= p@.len(),
                same == (forall|q: int| 0 <= q < j ==> x@[i + q] == p@[q]),
            decreases p@.len() - j,
        {
            if x[i + j] != p[j] {
                same = false;
            }
            j = j + 1;
        }
        if same {
            proof {
                assert(s@.subrange(i as int, i + pat@.len()) =~= pat@);
                assert(occurs_at(s@, pat@, i as int));
            }
            return true;
        }
        proof {
            if occurs_at(s@, pat@, i as int) {
                let q = choose|q: int| 0 <= q < p@.len() && x@[i + q] != p@[q];
                assert(s@.subrange(i as int, i + pat@.len())[q] == x@[i + q]);
            }
        }
        i = i + 1;
    }
    proof {
        assert forall|k: int| !occurs_at(s@, pat@, k) by {
            if 0 <= k && k + pat@.len() <= s@.len() {
                assert(k < i);
            }
        }
    }
    false
}

/// Whether `c` is an ASCII decimal digit.
pub open spec fn is_digit(c: char) -> bool {
    '0' <= c <= '9'
}

/// One or more decimal digits.
pub open spec fn all_digits(s: Seq<char>) -> bool {
    s.len() > 0 && forall|i: int| 0 <= i < s.len() ==> #[trigger] is_digit(s[i])
}

/// Value of a string of decimal digits.
pub open spec fn digits_value(s: Seq<char>) -> int
    decreases s.len(),
{
    if s.len() == 0 {
        0
    } else {
        digits_value(s.drop_last()) * 10 + (s.last() as int - '0' as int)
    }
}

/// Decimal digits read positionally: a single digit is worth its own
/// value, and appending digits `b` to `a` multiplies `a`'s value by ten
/// for each of them.
pub proof fn law_digits_value_positional(a: Seq<char>, b: Seq<char>, c: char)
    ensures
        digits_value(seq![c]) == c as int - '0' as int,
        digits_value(a + b) == digits_value(a) * vstd::arithmetic::power::pow(10, b.len()) + digits_value(b),
    decreases b.len(),
{
    assert(seq![c].drop_last() =~= Seq::<char>::empty());
    assert(digits_value(Seq::<char>::empty()) == 0);
    assert(seq![c].last() == c);
    assert(digits_value(seq![c]) == digits_value(seq![c].drop_last()) * 10 + (c as int - '0' as int));
    if b.len() == 0 {
        assert(a + b =~= a);
        vstd::arithmetic::power::lemma_pow0(10);
    } else {
        law_digits_value_positional(a, b.drop_last(), c);
        assert((a + b).drop_last() =~= a + b.drop_last());
        assert((a + b).last() == b.last());
        vstd::arithmetic::power::lemma_pow_adds(10, b.drop_last().len(), 1);
        vstd::arithmetic::power::lemma_pow1(10);
        let x = digits_value(a);
        let q = vstd::arithmetic::power::pow(10, b.drop_last().len());
        let r = digits_value(b.drop_last());
        assert((x * q + r) * 10 == x * (q * 10) + r * 10) by (nonlinear_arith);
    }
}

/// What `str::parse::<u32>` gives: an optional `+` followed by one or more
/// decimal digits whose value fits.
pub open spec fn spec_parse_u32(s: Seq<char>) -> Option<u32> {
    let d = if s.len() > 0 && s[0] == '+' {
        s.skip(1)
    } else {
        s
    };
    if all_digits(d) && digits_value(d) <= u32::MAX {
        Some(digits_value(d) as u32)
    } else {
        None
    }
}

/// Parsing an unsigned number reads its decimal digits, with or without a
/// leading `+`; a leading `-`, an empty string or any other character is
/// refused, and so is a value too large.
pub proof fn law_parse_u32_reads_digits(d: Seq<char>)
    ensures
        all_digits(d) && digits_value(d) <= u32::MAX ==> spec_parse_u32(d) == Some(
            digits_value(d) as u32,
        ) && spec_parse_u32(seq!['+'] + d) == Some(digits_value(d) as u32),
        spec_parse_u32(seq!['-'] + d) is None,
        spec_parse_u32(Seq::<char>::empty()) is None,
{
    assert((seq!['+'] + d).skip(1) =~= d);
    assert((seq!['+'] + d)[0] == '+');
    assert((seq!['-'] + d)[0] == '-');
    assert(!is_digit('-'));
    let m = seq!['-'] + d;
    assert(!all_digits(m)) by {
        assert(!is_digit(m[0]));
    }
    assert(d.skip(0) =~= d);
    if all_digits(d) {
        assert(is_digit(d[0]));
    }
}

/// What `str::parse::<i32>` gives: an optional `+` or `-` followed by one
/// or more decimal digits whose signed value fits.
pub open spec fn spec_parse_i32(s: Seq<char>) -> Option<i32> {
    let neg = s.len() > 0 && s[0] == '-';
    let d = if s.len() > 0 && (s[0] == '+' || s[0] == '-') {
        s.skip(1)
    } else {
        s
    };
    let v = if neg {
        -digits_value(d)
    } else {
        digits_value(d)
    };
    if all_digits(d) && i32::MIN <= v <= i32::MAX {
        Some(v as i32)
    } else {
        None
    }
}

proof fn lemma_digits_value_grows(s: Seq<char>, k: int)
    requires
        0 <= k <= s.len(),
        forall|i: int| 0 <= i < s.len() ==> #[trigger] is_digit(s[i]),
    ensures
        0 <= digits_value(s.take(k)) <= digits_value(s),
    decreases s.len(),
{
    if s.len() > 0 {
        let d = s.drop_last();
        assert(is_digit(s[s.len() - 1]));
        assert forall|i: int| 0 <= i < d.len() implies #[trigger] is_digit(d[i]) by {
            assert(is_digit(s[i]));
        }
        if k == s.len() {
            assert(s.take(k) =~= s);
            lemma_digits_value_grows(d, k - 1);
        } else {
            lemma_digits_value_grows(d, k);
            assert(d.take(k) =~= s.take(k));
        }
        lemma_digits_value_grows(d, d.len() as int);
        assert(d.take(d.len() as int) =~= d);
    } else {
        assert(s.take(k) =~= s);
    }
}

/// Value of the decimal digits `c[start..]` when they are one or more
/// digits worth at most `limit`; none otherwise.
fn parse_digits(c: &Vec<char>, start: usize, limit: u64) -> (r: Option<u64>)
    requires
        start <= c@.len(),
    ensures
        r == (if all_digits(c@.skip(start as int)) && digits_value(c@.skip(start as int)) <= limit {
            Some(digits_value(c@.skip(start as int)) as u64)
        } else {
            None::<u64>
        }),
{
    let ghost d = c@.skip(start as int);
    if start == c.len() {
        return None;
    }
    let mut acc: u64 = 0;
    let mut too_big = false;
    let mut i: usize = start;
    while i < c.len()
        invariant
            start <= i <= c@.len(),
            start < c@.len(),
            d == c@.skip(start as int),
            forall|q: int| 0 <= q < i - start ==> #[trigger] is_digit(d[q]),
            !too_big ==> acc == digits_value(d.take(i - start)) && acc <= limit,
            too_big ==> digits_value(d.take(i - start)) > limit,
        decreases c@.len() - i,
    {
        let ch = c[i];
        if !('0' <= ch && ch <= '9') {
            proof {
                assert(!is_digit(d[i - start]));
            }
            return None;
        }
        let ghost k = i - start;
        assert(d.take(k + 1).drop_last() =~= d.take(k));
        assert(d.take(k + 1).last() == ch);
        if !too_big {
            let digit = (ch as u32 - '0' as u32) as u128;
            let next: u128 = acc as u128 * 10 + digit;
            if next > limit as u128 {
                too_big = true;
            } else {
                acc = next as u64;
            }
        } else {
            proof {
                assert(forall|q: int| 0 <= q < k + 1 ==> #[trigger] is_digit(d.take(k + 1)[q]));
                lemma_digits_value_grows(d.take(k + 1), k);
                assert(d.take(k + 1).take(k) =~= d.take(k));
            }
        }
        i = i + 1;
    }
    assert(d.take(d.len() as int) =~= d);
    if too_big {
        None
    } else {
        Some(acc)
    }
}

/// `s.parse::<u32>()`, as an option.
pub fn parse_u32(s: &str) -> (r: Option<u32>)
    ensures
        r == spec_parse_u32(s@),
{
    let c = chars_of(s);
    let start: usize = if c.len() > 0 && c[0] == '+' {
        1
    } else {
        0
    };
    assert(c@.skip(0) =~= c@);
    let ghost d = c@.skip(start as int);
    match parse_digits(&c, start, 0xFFFF_FFFF) {
        Some(v) => {
            assert(all_digits(d));
            proof {
                lemma_digits_value_grows(d, 0);
            }
            assert(v == digits_value(d));
            Some(v as u32)
        },
        None => None,
    }
}

/// What `str::parse::<u64>` gives: an optional `+` followed by one or more
/// decimal digits whose value fits.
pub open spec fn spec_parse_u64(s: Seq<char>) -> Option<u64> {
    let d = if s.len() > 0 && s[0] == '+' {
        s.skip(1)
    } else {
        s
    };
    if all_digits(d) && digits_value(d) <= u64::MAX {
        Some(digits_value(d) as u64)
    } else {
        None
    }
}

/// `s.parse::<u64>()`, as an option.
pub fn parse_u64(s: &str) -> (r: Option<u64>)
    ensures
        r == spec_parse_u64(s@),
{
    let c = chars_of(s);
    let start: usize = if c.len() > 0 && c[0] == '+' {
        1
    } else {
        0
    };
    assert(c@.skip(0) =~= c@);
    let ghost d = c@.skip(start as int);
    let r = parse_digits(&c, start, 0xFFFF_FFFF_FFFF_FFFF);
    proof {
        if all_digits(d) {
            lemma_digits_value_grows(d, 0);
        }
    }
    r
}

/// `s.parse::<i32>()`, as an option.
pub fn parse_i32(s: &str) -> (r: Option<i32>)
    ensures
        r == spec_parse_i32(s@),
{
    let c = chars_of(s);
    let neg = c.len() > 0 && c[0] == '-';
    let start: usize = if c.len() > 0 && (c[0] == '+' || c[0] == '-') {
        1
    } else {
        0
    };
    assert(c@.skip(0) =~= c@);
    let ghost d = c@.skip(start as int);
    let limit: u64 = if neg {
        0x8000_0000
    } else {
        0x7FFF_FFFF
    };
    match parse_digits(&c, start, limit) {
        Some(v) => {
            assert(all_digits(d));
            proof {
                lemma_digits_value_grows(d, 0);
            }
            assert(v == digits_value(d) && v <= limit);
            if neg {
                let w: i64 = 0 - (v as i64);
                Some(w as i32)
            } else {
                Some(v as i32)
            }
        },
        None => {
            proof {
                if all_digits(d) {
                    assert(digits_value(d) > limit);
                }
            }
            None
        },
    }
}

/// The characters after the last `/` of `p` (all of `p` without one).
pub open spec fn last_segment(p: Seq<char>) -> Seq<char>
    decreases p.len(),
{
    if p.len() == 0 || p.last() == '/' {
        Seq::empty()
    } else {
        last_segment(p.drop_last()).push(p.last())
    }
}

/// The last segment of a path is its longest ending that holds no `/`:
/// it ends the path, holds no `/`, and is preceded by a `/` unless it is
/// the whole path.
pub proof fn law_last_segment_is_slash_free_suffix(p: Seq<char>)
    ensures
        last_segment(p).len() <= p.len(),
        p.subrange(p.len() - last_segment(p).len(), p.len() as int) == last_segment(p),
        !last_segment(p).contains('/'),
        last_segment(p).len() < p.len() ==> p[p.len() - last_segment(p).len() - 1] == '/',
    decreases p.len(),
{
    if p.len() == 0 {
        assert(p.subrange(0, 0) =~= Seq::<char>::empty());
    } else if p.last() == '/' {
        assert(p.subrange(p.len() as int, p.len() as int) =~= Seq::<char>::empty());
    } else {
        let q = p.drop_last();
        law_last_segment_is_slash_free_suffix(q);
        let sq = last_segment(q);
        let sp = last_segment(p);
        assert(sp == sq.push(p.last()));
        assert(p.subrange(p.len() - sp.len(), p.len() as int) =~= q.subrange(
            q.len() - sq.len(),
            q.len() as int,
        ).push(p.last()));
        assert forall|i: int| 0 <= i < sp.len() implies sp[i] != '/' by {
            if i < sq.len() {
                assert(sp[i] == sq[i]);
                assert(!sq.contains('/'));
                if sq[i] == '/' {
                    assert(sq.contains('/'));
                }
            }
        }
        if sp.len() < p.len() {
            assert(p[p.len() - sp.len() - 1] == q[q.len() - sq.len() - 1]);
        }
    }
}

/// `p` without its trailing `/` characters.
pub open spec fn trim_trailing_slashes(p: Seq<char>) -> Seq<char>
    decreases p.len(),
{
    if p.len() > 0 && p.last() == '/' {
        trim_trailing_slashes(p.drop_last())
    } else {
        p
    }
}

/// The last non-empty `/`-separated segment of `p`, or `p` itself when
/// it has none.
pub open spec fn last_nonempty_segment(p: Seq<char>) -> Seq<char> {
    let q = trim_trailing_slashes(p);
    if q.len() == 0 {
        p
    } else {
        last_segment(q)
    }
}

/// A string holding the characters `c[start..end]` (std's
/// `FromIterator<char>` for `String`, which appends each character in
/// turn).
#[verifier::external_body]
fn string_from_chars(c: &Vec<char>, start: usize, end: usize) -> (r: String)
    requires
        start <= end <= c@.len(),
    ensures
        r@ == c@.subrange(start as int, end as int),
{
    c[start..end].iter().collect()
}

/// Start of the characters after the last `/` of `c[..end]`.
fn segment_start(c: &Vec<char>, end: usize) -> (k: usize)
    requires
        end <= c@.len(),
    ensures
        k <= end,
        c@.subrange(k as int, end as int) == last_segment(c@.take(end as int)),
{
    let mut k = end;
    assert(c@.subrange(k as int, end as int) =~= Seq::<char>::empty());
    while k > 0 && c[k - 1] != '/'
        invariant
            k <= end <= c@.len(),
            last_segment(c@.take(end as int)) == last_segment(c@.take(k as int)) + c@.subrange(
                k as int,
                end as int,
            ),
        decreases k,
    {
        assert(c@.take(k as int).drop_last() =~= c@.take(k - 1));
        assert(c@.subrange(k - 1, end as int) =~= seq![c@[k - 1]] + c@.subrange(
            k as int,
            end as int,
        ));
        assert(last_segment(c@.take(k - 1)).push(c@[k - 1]) + c@.subrange(k as int, end as int)
            =~= last_segment(c@.take(k - 1)) + c@.subrange(k - 1, end as int));
        k = k - 1;
    }
    assert(last_segment(c@.take(k as int)) =~= Seq::<char>::empty());
    assert(Seq::<char>::empty() + c@.subrange(k as int, end as int) =~= c@.subrange(
        k as int,
        end as int,
    ));
    k
}

/// The characters after the last `/` of `path`.
pub fn last_segment_of(path: &str) -> (r: String)
    ensures
        r@ == last_segment(path@),
{
    let c = chars_of(path);
    let k = segment_start(&c, c.len());
    assert(c@.take(c@.len() as int) =~= c@);
    string_from_chars(&c, k, c.len())
}

/// The last non-empty `/`-separated segment of `path`, or `path` itself.
pub fn last_nonempty_segment_of(path: &str) -> (r: String)
    ensures
        r@ == last_nonempty_segment(path@),
{
    let c = chars_of(path);
    let mut end = c.len();
    assert(c@.take(end as int) =~= c@);
    while end > 0 && c[end - 1] == '/'
        invariant
            end <= c@.len(),
            trim_trailing_slashes(path@) == trim_trailing_slashes(c@.take(end as int)),
            c@ == path@,
        decreases end,
    {
        assert(c@.take(end as int).drop_last() =~= c@.take(end - 1));
        end = end - 1;
    }
    assert(trim_trailing_slashes(c@.take(end as int)) == c@.take(end as int));
    if end == 0 {
        return path.to_owned();
    }
    let k = segment_start(&c, end);
    string_from_chars(&c, k, end)
}

/// `a` followed by `b`, as a new string.
pub(crate) fn concat_str(a: &str, b: &str) -> (r: String)
    ensures
        r@ == a@ + b@,
{
    let mut r = a.to_owned();
    r.append(b);
    r
}

} // verus!
