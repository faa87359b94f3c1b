//! Character-level helpers shared by the configuration parsers: character
//! classes, ASCII case folding, whitespace trimming and decimal numerals,
//! each with an exact specification over the string view.

use vstd::prelude::*;
use vstd::string::StrSliceExecFns;

verus! {

pub open spec fn is_digit(c: char) -> bool {
    '0' <= c && c <= '9'
}

pub open spec fn digit_val(c: char) -> int {
    c as int - '0' as int
}

/// ASCII-only case folding: uppercase letters map to lowercase, every other
/// character (including all non-ASCII ones) is left alone.
pub open spec fn to_lower(c: char) -> char {
    if 'A' <= c && c <= 'Z' {
        ((c as u8) + 32) as char
    } else {
        c
    }
}

pub open spec fn lower(s: Seq<char>) -> Seq<char> {
    s.map_values(|c: char| to_lower(c))
}

/// ASCII whitespace: space, tab, line feed, form feed, carriage return.
pub open spec fn is_space(c: char) -> bool {
    c == ' ' || c == '\t' || c == '\n' || c == '\u{c}' || c == '\r'
}

pub open spec fn trim_front(s: Seq<char>) -> Seq<char>
    decreases s.len(),
{
    if s.len() > 0 && is_space(s[0]) {
        trim_front(s.drop_first())
    } else {
        s
    }
}

pub open spec fn trim_back(s: Seq<char>) -> Seq<char>
    decreases s.len(),
{
    if s.len() > 0 && is_space(s.last()) {
        trim_back(s.drop_last())
    } else {
        s
    }
}

/// The string with ASCII whitespace removed from both ends.
pub open spec fn trimmed(s: Seq<char>) -> Seq<char> {
    trim_back(trim_front(s))
}

pub open spec fn all_digits(s: Seq<char>) -> bool {
    forall|i: int| 0 <= i < s.len() ==> is_digit(s[i])
}

/// A decimal numeral: one or more digits and nothing else.
pub open spec fn is_dec_text(s: Seq<char>) -> bool {
    s.len() > 0 && all_digits(s)
}

/// Value of a digit string read in base ten.
pub open spec fn dec_val(s: Seq<char>) -> int
    decreases s.len(),
{
    if s.len() == 0 {
        0
    } else {
        10 * dec_val(s.drop_last()) + digit_val(s.last())
    }
}

pub proof fn lemma_dec_val_nonneg(s: Seq<char>)
    requires
        all_digits(s),
    ensures
        dec_val(s) >= 0,
    decreases s.len(),
{
    if s.len() > 0 {
        assert(all_digits(s.drop_last()));
        lemma_dec_val_nonneg(s.drop_last());
    }
}

pub proof fn lemma_dec_val_take_step(s: Seq<char>, j: int)
    requires
        0 <= j < s.len(),
    ensures
        dec_val(s.take(j + 1)) == 10 * dec_val(s.take(j)) + digit_val(s[j]),
{
    assert(s.take(j + 1).drop_last() =~= s.take(j));
    assert(s.take(j + 1).last() == s[j]);
}

/// The value of a digit string is at least the value of any of its prefixes.
pub proof fn lemma_dec_val_prefix_le(s: Seq<char>, j: int)
    requires
        all_digits(s),
        0 <= j <= s.len(),
    ensures
        dec_val(s.take(j)) <= dec_val(s),
    decreases s.len() - j,
{
    if j == s.len() {
        assert(s.take(j) =~= s);
    } else {
        lemma_dec_val_take_step(s, j);
        assert(all_digits(s.take(j)));
        lemma_dec_val_nonneg(s.take(j));
        assert(dec_val(s.take(j)) <= dec_val(s.take(j + 1)));
        lemma_dec_val_prefix_le(s, j + 1);
    }
}

pub fn is_space_char(c: char) -> (r: bool)
    ensures
        r == is_space(c),
{
    c == ' ' || c == '\t' || c == '\n' || c == '\u{c}' || c == '\r'
}

pub fn to_lower_char(c: char) -> (r: char)
    ensures
        r == to_lower(c),
{
    if 'A' <= c && c <= 'Z' {
        ((c as u8) + 32) as char
    } else {
        c
    }
}

/// True exactly when `s`, after ASCII case folding, equals `kw`.
pub fn lower_is(s: &str, kw: &str) -> (r: bool)
    ensures
        r == (lower(s@) == kw@),
{
    let n = s.unicode_len();
    let m = kw.unicode_len();
    if n != m {
        proof {
            assert(lower(s@).len() == s@.len());
        }
        return false;
    }
    let mut i: usize = 0;
    while i < n
        invariant
            n == s@.len(),
            n == kw@.len(),
            0 <= i <= n,
            forall|j: int| 0 <= j < i ==> to_lower(s@[j]) == kw@[j],
        decreases n - i,
    {
        let c = to_lower_char(s.get_char(i));
        let k = kw.get_char(i);
        if c != k {
            proof {
                assert(lower(s@)[i as int] != kw@[i as int]);
            }
            return false;
        }
        i = i + 1;
    }
    proof {
        assert(lower(s@) =~= kw@);
    }
    true
}

/// Bounds of the whitespace-trimmed middle of `s`: the subrange from `lo`
/// to `hi` is `trimmed(s@)`.
pub fn trim_bounds(s: &str) -> (r: (usize, usize))
    ensures
        0 <= r.0 <= r.1 <= s@.len(),
        s@.subrange(r.0 as int, r.1 as int) == trimmed(s@),
{
    let n = s.unicode_len();
    let mut lo: usize = 0;
    let mut front_done = false;
    proof {
        assert(s@.skip(0) =~= s@);
    }
    while !front_done
        invariant
            n == s@.len(),
            0 <= lo <= n,
            trim_front(s@) == trim_front(s@.skip(lo as int)),
            front_done ==> lo == n || !is_space(s@[lo as int]),
        decreases n - lo + (if front_done { 0int } else { 1int }),
    {
        if lo < n {
            if is_space_char(s.get_char(lo)) {
                proof {
                    assert(s@.skip(lo as int).drop_first() =~= s@.skip(lo as int + 1));
                }
                lo = lo + 1;
            } else {
                front_done = true;
            }
        } else {
            front_done = true;
        }
    }
    proof {
        if lo == n {
            assert(s@.skip(lo as int) =~= Seq::<char>::empty());
            assert(trim_front(s@) =~= Seq::<char>::empty());
        } else {
            assert(s@.skip(lo as int)[0] == s@[lo as int]);
            assert(trim_front(s@) == s@.skip(lo as int));
        }
    }
    let mut hi: usize = n;
    let mut back_done = false;
    while !back_done
        invariant
            n == s@.len(),
            0 <= lo <= hi <= n,
            trim_front(s@) == trim_front(s@.skip(lo as int)),
            lo == n || !is_space(s@[lo as int]),
            trim_back(s@.skip(lo as int)) == trim_back(s@.subrange(lo as int, hi as int)),
            back_done ==> hi == lo || !is_space(s@[hi as int - 1]),
        decreases hi + (if back_done { 0int } else { 1int }),
    {
        if hi > lo {
            if is_space_char(s.get_char(hi - 1)) {
                proof {
                    let sub = s@.subrange(lo as int, hi as int);
                    assert(sub.last() == s@[hi as int - 1]);
                    assert(sub.drop_last() =~= s@.subrange(lo as int, hi as int - 1));
                }
                hi = hi - 1;
            } else {
                back_done = true;
            }
        } else {
            back_done = true;
        }
    }
    proof {
        assert(s@.skip(lo as int) =~= s@.subrange(lo as int, n as int));
        let sub = s@.subrange(lo as int, hi as int);
        if hi == lo {
            assert(sub =~= Seq::<char>::empty());
            assert(trim_back(sub) =~= sub);
        } else {
            assert(sub.last() == s@[hi as int - 1]);
            assert(trim_back(sub) == sub);
        }
        if lo == n {
            assert(trim_front(s@) =~= Seq::<char>::empty());
            assert(trimmed(s@) =~= sub);
        } else {
            assert(trim_front(s@) == s@.skip(lo as int));
            assert(trimmed(s@) == trim_back(s@.skip(lo as int)));
        }
    }
    (lo, hi)
}

/// The whitespace-trimmed copy of `s`.
pub fn trim_str(s: &str) -> (r: String)
    ensures
        r@ == trimmed(s@),
{
    let (lo, hi) = trim_bounds(s);
    let piece = s.substring_char(lo, hi);
    piece.to_owned()
}

/// Index of the first occurrence of `sep` in `s`, or `s.len()` if none.
pub open spec fn find_sep(s: Seq<char>, sep: char) -> int
    decreases s.len(),
{
    if s.len() == 0 {
        0
    } else if s[0] == sep {
        0
    } else {
        1 + find_sep(s.drop_first(), sep)
    }
}

pub proof fn lemma_find_sep(s: Seq<char>, sep: char)
    ensures
        0 <= find_sep(s, sep) <= s.len(),
        find_sep(s, sep) < s.len() ==> s[find_sep(s, sep)] == sep,
        forall|j: int| 0 <= j < find_sep(s, sep) ==> s[j] != sep,
    decreases s.len(),
{
    if s.len() > 0 && s[0] != sep {
        lemma_find_sep(s.drop_first(), sep);
        assert forall|j: int| 0 <= j < find_sep(s, sep) implies s[j] != sep by {
            if j > 0 {
                assert(s.drop_first()[j - 1] != sep);
            }
        }
    }
}

/// Where in `s` the first separator stands, given a scan that saw none
/// before position `m`.
pub proof fn lemma_find_sep_at(s: Seq<char>, sep: char, m: int)
    requires
        0 <= m <= s.len(),
        forall|j: int| 0 <= j < m ==> s[j] != sep,
        m == s.len() || s[m] == sep,
    ensures
        find_sep(s, sep) == m,
    decreases s.len(),
{
    if s.len() > 0 && m > 0 {
        assert(forall|j: int| 0 <= j < m - 1 ==> s.drop_first()[j] != sep);
        lemma_find_sep_at(s.drop_first(), sep, m - 1);
    }
}

/// `s` divided at every occurrence of `sep`; the separators themselves are
/// dropped, empty pieces are kept.
pub open spec fn split_sep(s: Seq<char>, sep: char) -> Seq<Seq<char>>
    decreases s.len(),
    via split_sep_dec
{
    let k = find_sep(s, sep);
    if k == s.len() {
        seq![s]
    } else {
        seq![s.take(k)] + split_sep(s.skip(k + 1), sep)
    }
}

#[via_fn]
proof fn split_sep_dec(s: Seq<char>, sep: char) {
    lemma_find_sep(s, sep);
}

/// Splits the subrange `[lo, hi)` of `s` at `sep`, keeping empty pieces.
pub fn split_sep_str(s: &str, sep: char, lo: usize, hi: usize) -> (r: Vec<String>)
    requires
        lo <= hi <= s@.len(),
    ensures
        r@.map_values(|p: String| p@) == split_sep(s@.subrange(lo as int, hi as int), sep),
{
    let mut out: Vec<String> = Vec::new();
    let mut start: usize = lo;
    let mut j: usize = lo;
    let mut done = false;
    while !done
        invariant
            lo <= start <= j <= hi <= s@.len(),
            !done ==> split_sep(s@.subrange(lo as int, hi as int), sep) == out@.map_values(
                |p: String| p@,
            ) + split_sep(s@.subrange(start as int, hi as int), sep),
            forall|m: int| start <= m < j ==> s@[m] != sep,
            done ==> split_sep(s@.subrange(lo as int, hi as int), sep) == out@.map_values(
                |p: String| p@,
            ),
        decreases hi - j + (if done { 0int } else { 1int }),
    {
        if j == hi {
            let piece = s.substring_char(start, j);
            out.push(piece.to_owned());
            proof {
                let rest = s@.subrange(start as int, hi as int);
                assert(forall|m: int| 0 <= m < rest.len() ==> rest[m] != sep);
                lemma_find_sep_at(rest, sep, rest.len() as int);
                assert(split_sep(rest, sep) == seq![rest]);
                assert(piece@ == rest);
                assert(out@.map_values(|p: String| p@) =~= out@.drop_last().map_values(
                    |p: String| p@,
                ) + seq![rest]);
            }
            done = true;
        } else {
            let c = s.get_char(j);
            if c == sep {
                let piece = s.substring_char(start, j);
                out.push(piece.to_owned());
                proof {
                    let rest = s@.subrange(start as int, hi as int);
                    assert(forall|m: int| 0 <= m < j - start ==> rest[m] != sep);
                    assert(rest[j - start] == sep);
                    lemma_find_sep_at(rest, sep, j - start);
                    assert(rest.take(j - start) =~= s@.subrange(start as int, j as int));
                    assert(rest.skip(j - start + 1) =~= s@.subrange(j as int + 1, hi as int));
                    assert(split_sep(rest, sep) == seq![s@.subrange(start as int, j as int)]
                        + split_sep(s@.subrange(j as int + 1, hi as int), sep));
                    assert(piece@ == s@.subrange(start as int, j as int));
                    assert(out@.map_values(|p: String| p@) =~= out@.drop_last().map_values(
                        |p: String| p@,
                    ).push(piece@));
                    assert(out@.drop_last().map_values(|p: String| p@) + split_sep(rest, sep)
                        =~= out@.map_values(|p: String| p@) + split_sep(
                        s@.subrange(j as int + 1, hi as int),
                        sep,
                    ));
                }
                start = j + 1;
                j = start;
            } else {
                j = j + 1;
            }
        }
    }
    out
}

/// Reads `s` as a base-ten numeral. Returns the value exactly when `s` is a
/// nonempty digit string whose value fits in a `u32`.
pub fn parse_dec_u32(s: &str) -> (r: Option<u32>)
    ensures
        r is Some <==> is_dec_text(s@) && dec_val(s@) <= u32::MAX as int,
        r matches Some(v) ==> v as int == dec_val(s@),
{
    let n = s.unicode_len();
    if n == 0 {
        return None;
    }
    let mut i: usize = 0;
    let mut acc: u64 = 0;
    while i < n
        invariant
            n == s@.len(),
            0 <= i <= n,
            all_digits(s@.take(i as int)),
            acc == dec_val(s@.take(i as int)),
            acc <= u32::MAX,
        decreases n - i,
    {
        let c = s.get_char(i);
        if !('0' <= c && c <= '9') {
            proof {
                assert(!is_digit(s@[i as int]));
            }
            return None;
        }
        let d = (c as u32) - ('0' as u32);
        proof {
            lemma_dec_val_take_step(s@, i as int);
            assert(all_digits(s@.take(i as int + 1)));
        }
        let next: u64 = acc * 10 + (d as u64);
        if next > u32::MAX as u64 {
            proof {
                if all_digits(s@) {
                    assert(s@.take(i as int + 1) =~= s@.take(i as int + 1));
                    lemma_dec_val_prefix_le(s@, i as int + 1);
                    assert(dec_val(s@) > u32::MAX as int);
                }
            }
            return None;
        }
        acc = next;
        i = i + 1;
    }
    proof {
        assert(s@.take(n as int) =~= s@);
    }
    Some(acc as u32)
}

/// Reads `s` as a base-ten numeral that must fit in a `u16`.
pub fn parse_dec_u16(s: &str) -> (r: Option<u16>)
    ensures
        r is Some <==> is_dec_text(s@) && dec_val(s@) <= u16::MAX as int,
        r matches Some(v) ==> v as int == dec_val(s@),
{
    match parse_dec_u32(s) {
        Some(v) => {
            if v <= u16::MAX as u32 {
                Some(v as u16)
            } else {
                None
            }
        },
        None => None,
    }
}

} // verus!
