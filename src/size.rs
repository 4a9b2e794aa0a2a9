//! Size strings: an unsigned decimal number followed by an optional unit
//! suffix, read right to left.
//!
//! The modern grammar accepts a magnitude letter (`K` .. `Y`, powers of 1024),
//! the same letter followed by the SI marker `B` (powers of 1000), or the block
//! marker `b` alone (512). The legacy grammar knows the letters `k` and `m`;
//! there a trailing `b` may follow the letter, and it then switches the letter
//! to powers of 1000.
use vstd::prelude::*;
use vstd::arithmetic::power::pow as power;
use crate::checked::pow;

verus! {

/// Magnitude letters of the modern grammar; position `i` stands for exponent `i + 1`.
pub const SUFFIXES: [char; 8] = ['K', 'M', 'G', 'T', 'P', 'E', 'Z', 'Y'];

/// Magnitude letters of the legacy grammar (`-1k`, `-4m`).
pub const OBSOLETE_SUFFIXES: [char; 2] = ['k', 'm'];

/// The 512-byte block marker.
pub const BLOCK_MARKER: char = 'b';

/// The marker that turns a following magnitude letter decimal (modern grammar only).
pub const SI_MARKER: char = 'B';

pub open spec fn modern_alphabet() -> Seq<char> {
    seq!['K', 'M', 'G', 'T', 'P', 'E', 'Z', 'Y']
}

pub open spec fn legacy_alphabet() -> Seq<char> {
    seq!['k', 'm']
}

pub open spec fn is_digit(c: char) -> bool {
    '0' as u32 <= c as u32 <= '9' as u32
}

pub open spec fn digit_value(c: char) -> nat {
    if is_digit(c) {
        (c as u32 - '0' as u32) as nat
    } else {
        0
    }
}

/// A non-empty run of ASCII digits: no sign, no blanks.
pub open spec fn is_decimal(t: Seq<char>) -> bool {
    t.len() > 0 && forall|i: int| 0 <= i < t.len() ==> is_digit(#[trigger] t[i])
}

/// The value of a run of digits, read in base ten.
pub open spec fn decimal_value(t: Seq<char>) -> nat
    decreases t.len(),
{
    if t.len() == 0 {
        0
    } else {
        decimal_value(t.drop_last()) * 10 + digit_value(t.last())
    }
}

/// `i` is the first position of `c` in `a`.
pub open spec fn is_first_index(a: Seq<char>, c: char, i: int) -> bool {
    0 <= i < a.len() && a[i] == c && forall|j: int| 0 <= j < i ==> a[j] != c
}

pub open spec fn first_index(a: Seq<char>, c: char) -> int {
    choose|i: int| is_first_index(a, c, i)
}

/// What the magnitude letter at the end of `t` makes of the unit: the length of
/// what stays in front of it, the base and the exponent. Without a letter the
/// unit keeps `base` with exponent 1.
pub open spec fn magnitude(t: Seq<char>, alphabet: Seq<char>, si: bool, base: int) -> (int, int, nat) {
    if t.len() > 0 && alphabet.contains(t.last()) {
        (t.len() - 1, if si { 1000 } else { 1024 }, (first_index(alphabet, t.last()) + 1) as nat)
    } else {
        (t.len() as int, base, 1)
    }
}

/// How `s` splits into a number and a unit `base ^ exponent`: the length of
/// the number's text, the base and the exponent.
pub open spec fn split_suffix(s: Seq<char>, alphabet: Seq<char>, legacy: bool) -> (int, int, nat) {
    if s.len() > 0 && s.last() == BLOCK_MARKER {
        if legacy {
            magnitude(s.drop_last(), alphabet, true, 512)
        } else {
            (s.len() - 1, 512, 1)
        }
    } else if s.len() > 0 && s.last() == SI_MARKER && !legacy {
        magnitude(s.drop_last(), alphabet, true, 1)
    } else {
        magnitude(s, alphabet, false, 1)
    }
}

/// The byte count that `s` denotes, or `None` where its number is malformed or
/// the number, the unit or their product does not fit in `usize`.
pub open spec fn size_value(s: Seq<char>, alphabet: Seq<char>, legacy: bool) -> Option<int> {
    let (n, base, exp) = split_suffix(s, alphabet, legacy);
    let digits = s.take(n);
    if is_decimal(digits) {
        checked_product(decimal_value(digits), power(base, exp))
    } else {
        None
    }
}

/// `value * unit`, where the value, the unit and the product all fit in `usize`.
pub open spec fn checked_product(value: nat, unit: int) -> Option<int> {
    if value <= usize::MAX && unit <= usize::MAX && value * unit <= usize::MAX {
        Some(value * unit)
    } else {
        None
    }
}

/// `size_value` as the machine integer that the parsers return.
pub open spec fn size_result(s: Seq<char>, alphabet: Seq<char>, legacy: bool) -> Option<usize> {
    match size_value(s, alphabet, legacy) {
        Some(v) => Some(v as usize),
        None => None,
    }
}

/// The value of a prefix of a digit run never exceeds the value of the whole.
proof fn lemma_decimal_prefix_le(t: Seq<char>, k: int)
    requires
        0 <= k <= t.len(),
    ensures
        decimal_value(t.take(k)) <= decimal_value(t),
    decreases t.len(),
{
    if k == t.len() {
        assert(t.take(k) =~= t);
    } else {
        lemma_decimal_prefix_le(t.drop_last(), k);
        assert(t.drop_last().take(k) =~= t.take(k));
    }
}

/// Reads the first `n` characters of `s` as a decimal number; `None` where one
/// of them is no digit, where there are none, or where the value leaves `usize`.
fn parse_decimal(s: &str, n: usize) -> (r: Option<usize>)
    requires
        n <= s@.len(),
    ensures
        r is Some <==> is_decimal(s@.take(n as int)) && decimal_value(s@.take(n as int)) <= usize::MAX,
        r matches Some(v) ==> v == decimal_value(s@.take(n as int)),
{
    if n == 0 {
        return None;
    }
    let mut acc: usize = 0;
    let mut i: usize = 0;
    while i < n
        invariant
            i <= n <= s@.len(),
            is_decimal(s@.take(i as int)) || i == 0,
            acc == decimal_value(s@.take(i as int)),
        decreases n - i,
    {
        let c = s.get_char(i);
        let ghost prev = s@.take(i as int);
        let ghost next = s@.take(i + 1);
        assert(next.drop_last() =~= prev);
        if !('0' <= c && c <= '9') {
            assert(!is_digit(next[i as int]));
            assert(!is_decimal(s@.take(n as int))) by {
                assert(s@.take(n as int)[i as int] == c);
            }
            return None;
        }
        let d = (c as u32 - '0' as u32) as usize;
        let next_acc = match acc.checked_mul(10) {
            Some(m) => m.checked_add(d),
            None => None,
        };
        match next_acc {
            Some(a) => {
                acc = a;
            },
            None => {
                proof {
                    lemma_decimal_prefix_le(s@.take(n as int), i + 1);
                    assert(s@.take(n as int).take(i + 1) =~= next);
                }
                return None;
            },
        }
        i = i + 1;
        assert(is_decimal(s@.take(i as int))) by {
            assert forall|j: int| 0 <= j < i implies is_digit(#[trigger] s@.take(i as int)[j]) by {
                if j < i - 1 {
                    assert(s@.take(i as int)[j] == prev[j]);
                }
            }
        }
    }
    Some(acc)
}

/// The position of the first `c` in `suffixes`, if any.
fn find_suffix(suffixes: &[char], c: char) -> (r: Option<usize>)
    ensures
        r is Some <==> suffixes@.contains(c),
        r matches Some(i) ==> i == first_index(suffixes@, c) && is_first_index(suffixes@, c, i as int),
{
    let mut i: usize = 0;
    while i < suffixes.len()
        invariant
            i <= suffixes@.len(),
            forall|j: int| 0 <= j < i ==> suffixes@[j] != c,
        decreases suffixes@.len() - i,
    {
        if suffixes[i] == c {
            assert(suffixes@.contains(c));
            proof {
                assert(is_first_index(suffixes@, c, i as int));
                let k = first_index(suffixes@, c);
                assert(is_first_index(suffixes@, c, k));
                assert(k == i);
            }
            return Some(i);
        }
        i = i + 1;
    }
    None
}

/// Exec counterpart of `magnitude`, on the first `end` characters of `s`.
fn magnitude_of(s: &str, end: usize, suffixes: &[char], si: bool, base: usize) -> (r: (usize, usize, u32))
    requires
        end <= s@.len(),
        suffixes@.len() < u32::MAX,
    ensures
        (r.0 as int, r.1 as int, r.2 as nat) == magnitude(s@.take(end as int), suffixes@, si, base as int),
{
    let ghost t = s@.take(end as int);
    if end == 0 {
        return (end, base, 1);
    }
    let c = s.get_char(end - 1);
    assert(t.last() == c);
    match find_suffix(suffixes, c) {
        Some(i) => (end - 1, if si { 1000 } else { 1024 }, i as u32 + 1),
        None => (end, base, 1),
    }
}

/// Exec counterpart of `split_suffix`: peels at most two unit characters off
/// the end of `s`.
fn split_suffix_of(s: &str, suffixes: &[char], obsolete: bool) -> (r: (usize, usize, u32))
    requires
        suffixes@.len() < u32::MAX,
    ensures
        (r.0 as int, r.1 as int, r.2 as nat) == split_suffix(s@, suffixes@, obsolete),
        r.0 <= s@.len(),
{
    let len = s.unicode_len();
    assert(s@.take(len as int) =~= s@);
    if len == 0 {
        return (0, 1, 1);
    }
    let last = s.get_char(len - 1);
    assert(s@.take(len - 1) =~= s@.drop_last());
    if last == BLOCK_MARKER {
        if obsolete {
            magnitude_of(s, len - 1, suffixes, true, 512)
        } else {
            (len - 1, 512, 1)
        }
    } else if last == SI_MARKER && !obsolete {
        magnitude_of(s, len - 1, suffixes, true, 1)
    } else {
        magnitude_of(s, len, suffixes, false, 1)
    }
}

/// Parses `s` as a number followed by a unit suffix drawn from `suffixes`,
/// under the legacy grammar when `obsolete` holds.
fn parse_num_common(s: &str, suffixes: &[char], obsolete: bool) -> (r: Option<usize>)
    requires
        suffixes@.len() < u32::MAX,
    ensures
        r == size_result(s@, suffixes@, obsolete),
{
    let (end, base, exp) = split_suffix_of(s, suffixes, obsolete);
    let value = match parse_decimal(s, end) {
        Some(v) => v,
        None => return None,
    };
    let unit = match pow(base, exp) {
        Some(u) => u,
        None => return None,
    };
    value.checked_mul(unit)
}

/// Parses a size with a modern suffix: `K` .. `Y` for powers of 1024, the
/// same letters followed by `B` for powers of 1000, or `b` for 512-byte blocks.
pub fn parse_num_with_suffix(s: &str) -> (r: Option<usize>)
    ensures
        r == size_result(s@, modern_alphabet(), false),
{
    let suffixes = SUFFIXES;
    assert(suffixes@ =~= modern_alphabet());
    parse_num_common(s, &suffixes, false)
}

/// Parses a size with one of the suffixes of obsolete options (`-1k`, `-4m`).
pub fn parse_obsolete_num(s: &str) -> (r: Option<usize>)
    ensures
        r == size_result(s@, legacy_alphabet(), true),
{
    let suffixes = OBSOLETE_SUFFIXES;
    assert(suffixes@ =~= legacy_alphabet());
    parse_num_common(s, &suffixes, true)
}

/// In the modern alphabet each letter stands at exactly one position.
proof fn lemma_modern_first_index(i: int)
    requires
        0 <= i < 8,
    ensures
        modern_alphabet().contains(modern_alphabet()[i]),
        first_index(modern_alphabet(), modern_alphabet()[i]) == i,
{
    let a = modern_alphabet();
    assert(is_first_index(a, a[i], i));
    let k = first_index(a, a[i]);
    assert(is_first_index(a, a[i], k));
}

/// A number followed by the magnitude letter at position `i` of the modern
/// alphabet denotes the number times `1024^(i + 1)`; followed by the letter and
/// the SI marker, the number times `1000^(i + 1)`. Either is `None` where the
/// product leaves `usize`.
pub proof fn lemma_magnitude_suffix(d: Seq<char>, i: int)
    requires
        is_decimal(d),
        0 <= i < 8,
    ensures
        size_value(d.push(modern_alphabet()[i]), modern_alphabet(), false)
            == checked_product(decimal_value(d), power(1024, (i + 1) as nat)),
        size_value(d.push(modern_alphabet()[i]).push(SI_MARKER), modern_alphabet(), false)
            == checked_product(decimal_value(d), power(1000, (i + 1) as nat)),
{
    lemma_modern_first_index(i);
    let s = d.push(modern_alphabet()[i]);
    assert(s.drop_last() =~= d);
    assert(s.take(d.len() as int) =~= d);
    let t = s.push(SI_MARKER);
    assert(t.drop_last() =~= s);
    assert(t.take(d.len() as int) =~= d);
}

/// A run of digits alone is its own value, in either grammar, when it fits in
/// `usize`, and `None` when it does not.
pub proof fn lemma_plain_number(d: Seq<char>)
    requires
        is_decimal(d),
    ensures
        size_value(d, modern_alphabet(), false)
            == (if decimal_value(d) <= usize::MAX { Some(decimal_value(d) as int) } else { None::<int> }),
        size_value(d, legacy_alphabet(), true)
            == (if decimal_value(d) <= usize::MAX { Some(decimal_value(d) as int) } else { None::<int> }),
{
    let c = d.last();
    assert(is_digit(c));
    assert(!modern_alphabet().contains(c)) by {
        if modern_alphabet().contains(c) {
            let k = choose|k: int| 0 <= k < modern_alphabet().len() && modern_alphabet()[k] == c;
        }
    }
    assert(!legacy_alphabet().contains(c)) by {
        if legacy_alphabet().contains(c) {
            let k = choose|k: int| 0 <= k < legacy_alphabet().len() && legacy_alphabet()[k] == c;
        }
    }
    assert(d.take(d.len() as int) =~= d);
    vstd::arithmetic::power::lemma_pow1(1);
}

/// A magnitude letter with no digits in front of it is no size.
pub proof fn lemma_bare_letter_rejected(i: int)
    requires
        0 <= i < 8,
    ensures
        size_value(seq![modern_alphabet()[i]], modern_alphabet(), false) is None,
{
    lemma_modern_first_index(i);
    let s = seq![modern_alphabet()[i]];
    assert(s.last() == modern_alphabet()[i]);
}

/// A magnitude letter and the SI marker with no digits in front of them are
/// no size.
pub proof fn lemma_bare_si_suffix_rejected(i: int)
    requires
        0 <= i < 8,
    ensures
        size_value(seq![modern_alphabet()[i], SI_MARKER], modern_alphabet(), false) is None,
{
    lemma_modern_first_index(i);
    let s = seq![modern_alphabet()[i], SI_MARKER];
    assert(s.drop_last() =~= seq![modern_alphabet()[i]]);
}

/// A blank between the number and a magnitude letter makes the string no size.
pub proof fn lemma_blank_before_suffix_rejected(i: int)
    requires
        0 <= i < 8,
    ensures
        size_value(seq!['1', ' ', modern_alphabet()[i]], modern_alphabet(), false) is None,
{
    lemma_modern_first_index(i);
    let s = seq!['1', ' ', modern_alphabet()[i]];
    assert(s.take(2) =~= seq!['1', ' ']);
    assert(!is_digit(s.take(2)[1]));
}

/// In the legacy alphabet each letter stands at exactly one position.
proof fn lemma_legacy_first_index(i: int)
    requires
        0 <= i < 2,
    ensures
        legacy_alphabet().contains(legacy_alphabet()[i]),
        first_index(legacy_alphabet(), legacy_alphabet()[i]) == i,
{
    let a = legacy_alphabet();
    assert(is_first_index(a, a[i], i));
    let k = first_index(a, a[i]);
    assert(is_first_index(a, a[i], k));
}

/// A number followed by the block marker denotes the number times 512, in
/// either grammar.
pub proof fn lemma_block_suffix(d: Seq<char>)
    requires
        is_decimal(d),
    ensures
        size_value(d.push(BLOCK_MARKER), modern_alphabet(), false)
            == checked_product(decimal_value(d), 512),
        size_value(d.push(BLOCK_MARKER), legacy_alphabet(), true)
            == checked_product(decimal_value(d), 512),
{
    let s = d.push(BLOCK_MARKER);
    assert(s.drop_last() =~= d);
    assert(s.take(d.len() as int) =~= d);
    let c = d.last();
    assert(!legacy_alphabet().contains(c)) by {
        if legacy_alphabet().contains(c) {
            let k = choose|k: int| 0 <= k < legacy_alphabet().len() && legacy_alphabet()[k] == c;
        }
    }
    vstd::arithmetic::power::lemma_pow1(512);
}

/// In the legacy grammar a number followed by the letter at position `i`
/// denotes the number times `1024^(i + 1)`; a block marker after the letter
/// turns the unit into `1000^(i + 1)`.
pub proof fn lemma_legacy_suffix(d: Seq<char>, i: int)
    requires
        is_decimal(d),
        0 <= i < 2,
    ensures
        size_value(d.push(legacy_alphabet()[i]), legacy_alphabet(), true)
            == checked_product(decimal_value(d), power(1024, (i + 1) as nat)),
        size_value(d.push(legacy_alphabet()[i]).push(BLOCK_MARKER), legacy_alphabet(), true)
            == checked_product(decimal_value(d), power(1000, (i + 1) as nat)),
{
    lemma_legacy_first_index(i);
    let s = d.push(legacy_alphabet()[i]);
    assert(s.drop_last() =~= d);
    assert(s.take(d.len() as int) =~= d);
    let t = s.push(BLOCK_MARKER);
    assert(t.drop_last() =~= s);
    assert(t.take(d.len() as int) =~= d);
}

} // verus!
