//! Dotted version numbers ("1.5.0.0") and their comparison.
//!
//! A version string is split at every `.`; each part that reads as an
//! unsigned 32-bit decimal number (an optional `+` sign, then at least one
//! ASCII digit, value at most `u32::MAX`) contributes that number, every
//! other part is skipped. Versions compare lexicographically on the
//! resulting number sequences.
use vstd::prelude::*;
use crate::text::chars_of;

verus! {

pub open spec fn is_digit(c: char) -> bool {
    '0' <= c && c <= '9'
}

pub open spec fn digit_value(c: char) -> nat {
    ((c as u32) - ('0' as u32)) as nat
}

/// The number that a string of decimal digits denotes.
pub open spec fn decimal_value(s: Seq<char>) -> nat
    decreases s.len(),
{
    if s.len() == 0 {
        0
    } else {
        decimal_value(s.drop_last()) * 10 + digit_value(s.last())
    }
}

pub open spec fn all_digits(s: Seq<char>) -> bool {
    forall|i: int| 0 <= i < s.len() ==> is_digit(#[trigger] s[i])
}

/// What `str::parse::<u32>` gives for a segment, as an `Option`.
pub open spec fn parse_u32(s: Seq<char>) -> Option<u32> {
    let digits = if s.len() > 0 && s[0] == '+' {
        s.drop_first()
    } else {
        s
    };
    if digits.len() > 0 && all_digits(digits) && decimal_value(digits) <= u32::MAX {
        Some(decimal_value(digits) as u32)
    } else {
        None
    }
}

/// The parts of `s` between its `.` characters (`str::split('.')`); there is
/// always one more part than there are dots.
pub open spec fn split_dots(s: Seq<char>) -> Seq<Seq<char>>
    decreases s.len(),
{
    if s.len() == 0 {
        seq![Seq::<char>::empty()]
    } else {
        let prev = split_dots(s.drop_last());
        if s.last() == '.' {
            prev.push(Seq::<char>::empty())
        } else {
            prev.update(prev.len() - 1, prev.last().push(s.last()))
        }
    }
}

/// The numbers of the parts that parse, in order.
pub open spec fn parse_parts(parts: Seq<Seq<char>>) -> Seq<u32>
    decreases parts.len(),
{
    if parts.len() == 0 {
        seq![]
    } else {
        let prev = parse_parts(parts.drop_last());
        match parse_u32(parts.last()) {
            Some(v) => prev.push(v),
            None => prev,
        }
    }
}

/// The number sequence of a version string.
pub open spec fn version_numbers(s: Seq<char>) -> Seq<u32> {
    parse_parts(split_dots(s))
}

/// Lexicographic `a >= b` on number sequences; a sequence is greater than
/// each of its proper prefixes.
pub open spec fn seq_at_least(a: Seq<u32>, b: Seq<u32>) -> bool
    decreases a.len(),
{
    if b.len() == 0 {
        true
    } else if a.len() == 0 {
        false
    } else if a[0] > b[0] {
        true
    } else if a[0] < b[0] {
        false
    } else {
        seq_at_least(a.drop_first(), b.drop_first())
    }
}

/// `current` is at least `required`, as versions.
pub open spec fn version_at_least(current: Seq<char>, required: Seq<char>) -> bool {
    seq_at_least(version_numbers(current), version_numbers(required))
}

proof fn lemma_decimal_push(s: Seq<char>, c: char)
    ensures
        decimal_value(s.push(c)) == decimal_value(s) * 10 + digit_value(c),
        decimal_value(s.push(c)) >= decimal_value(s),
{
    assert(s.push(c).drop_last() =~= s);
}

/// Parses one segment: `Some` exactly when `str::parse::<u32>` succeeds.
fn parse_segment(seg: &Vec<char>) -> (r: Option<u32>)
    ensures
        r == parse_u32(seg@),
{
    let n = seg.len();
    let start: usize = if n > 0 && seg[0] == '+' { 1 } else { 0 };
    let ghost digits = if seg@.len() > 0 && seg@[0] == '+' { seg@.drop_first() } else { seg@ };
    assert(digits =~= seg@.skip(start as int));
    if start == n {
        return None;
    }
    let mut acc: u64 = 0;
    let mut overflow = false;
    let mut i: usize = start;
    while i < n
        invariant
            n == seg@.len(),
            start <= i <= n,
            digits =~= seg@.skip(start as int),
            digits == (if seg@.len() > 0 && seg@[0] == '+' { seg@.drop_first() } else { seg@ }),
            forall|j: int| start <= j < i ==> is_digit(#[trigger] seg@[j]),
            !overflow ==> acc == decimal_value(seg@.subrange(start as int, i as int)),
            !overflow ==> acc <= u32::MAX,
            overflow ==> decimal_value(seg@.subrange(start as int, i as int)) > u32::MAX,
        decreases n - i,
    {
        let c = seg[i];
        if !('0' <= c && c <= '9') {
            assert(digits[i - start] == c);
            assert(!is_digit(digits[i - start]));
            assert(!all_digits(digits));
            return None;
        }
        let d = (c as u32 - '0' as u32) as u64;
        proof {
            lemma_decimal_push(seg@.subrange(start as int, i as int), c);
            assert(seg@.subrange(start as int, i as int).push(c) =~= seg@.subrange(
                start as int,
                i + 1,
            ));
        }
        if !overflow {
            let next = acc * 10 + d;
            if next > 4294967295 {
                overflow = true;
            } else {
                acc = next;
            }
        }
        i += 1;
    }
    assert(seg@.subrange(start as int, n as int) =~= digits);
    assert(all_digits(digits)) by {
        assert forall|j: int| 0 <= j < digits.len() implies is_digit(#[trigger] digits[j]) by {
            assert(digits[j] == seg@[j + start]);
        }
    }
    if overflow {
        None
    } else {
        Some(acc as u32)
    }
}

/// The number sequence of a version string.
pub fn parse_version(s: &str) -> (v: Vec<u32>)
    ensures
        v@ == version_numbers(s@),
{
    let chars = chars_of(s);
    let mut out: Vec<u32> = Vec::new();
    let mut seg: Vec<char> = Vec::new();
    let ghost mut done: Seq<Seq<char>> = seq![];
    let mut i: usize = 0;
    while i < chars.len()
        invariant
            chars@ == s@,
            i <= chars.len(),
            split_dots(s@.take(i as int)) == done.push(seg@),
            out@ == parse_parts(done),
        decreases chars.len() - i,
    {
        let c = chars[i];
        assert(s@.take(i + 1).drop_last() =~= s@.take(i as int));
        if c == '.' {
            let p = parse_segment(&seg);
            match p {
                Some(v) => out.push(v),
                None => {},
            }
            proof {
                assert(done.push(seg@).drop_last() =~= done);
                done = done.push(seg@);
            }
            seg = Vec::new();
            assert(seg@ =~= Seq::<char>::empty());
        } else {
            let ghost before = seg@;
            seg.push(c);
            proof {
                let prev = done.push(before);
                assert(prev.update(prev.len() - 1, prev.last().push(c)) =~= done.push(seg@));
            }
        }
        i += 1;
    }
    assert(s@.take(chars.len() as int) =~= s@);
    let p = parse_segment(&seg);
    assert(done.push(seg@).drop_last() =~= done);
    match p {
        Some(v) => out.push(v),
        None => {},
    }
    out
}

proof fn lemma_seq_at_least_skip(a: Seq<u32>, b: Seq<u32>, i: int)
    requires
        0 <= i <= a.len(),
        i <= b.len(),
        forall|j: int| 0 <= j < i ==> a[j] == b[j],
    ensures
        seq_at_least(a, b) == seq_at_least(a.skip(i), b.skip(i)),
    decreases i,
{
    if i > 0 {
        lemma_seq_at_least_skip(a.drop_first(), b.drop_first(), i - 1);
        assert(a.drop_first().skip(i - 1) =~= a.skip(i));
        assert(b.drop_first().skip(i - 1) =~= b.skip(i));
    } else {
        assert(a.skip(0) =~= a);
        assert(b.skip(0) =~= b);
    }
}

/// Lexicographic `a >= b` on number sequences.
fn numbers_at_least(a: &Vec<u32>, b: &Vec<u32>) -> (r: bool)
    ensures
        r == seq_at_least(a@, b@),
{
    let mut i: usize = 0;
    while i < a.len() && i < b.len()
        invariant
            i <= a.len(),
            i <= b.len(),
            forall|j: int| 0 <= j < i ==> a@[j] == b@[j],
        decreases a.len() - i,
    {
        if a[i] > b[i] {
            proof {
                lemma_seq_at_least_skip(a@, b@, i as int);
            }
            return true;
        }
        if a[i] < b[i] {
            proof {
                lemma_seq_at_least_skip(a@, b@, i as int);
            }
            return false;
        }
        i += 1;
    }
    proof {
        lemma_seq_at_least_skip(a@, b@, i as int);
    }
    i == b.len()
}

/// Simple version comparison: whether `current` is at least `required`.
pub fn compare_versions(current: &str, required: &str) -> (r: bool)
    ensures
        r == version_at_least(current@, required@),
{
    let cur = parse_version(current);
    let req = parse_version(required);
    numbers_at_least(&cur, &req)
}

/// Whether `current` is present and at least `required`.
pub fn check_version(current: Option<&str>, required: &str) -> (r: bool)
    ensures
        r == match current {
            Some(c) => version_at_least(c@, required@),
            None => false,
        },
{
    match current {
        Some(c) => compare_versions(c, required),
        None => false,
    }
}

proof fn lemma_seq_at_least_reflexive(a: Seq<u32>)
    ensures
        seq_at_least(a, a),
    decreases a.len(),
{
    if a.len() > 0 {
        lemma_seq_at_least_reflexive(a.drop_first());
    }
}

proof fn lemma_seq_at_least_total(a: Seq<u32>, b: Seq<u32>)
    ensures
        seq_at_least(a, b) || seq_at_least(b, a),
    decreases a.len(),
{
    if a.len() > 0 && b.len() > 0 {
        lemma_seq_at_least_total(a.drop_first(), b.drop_first());
    }
}

proof fn lemma_seq_at_least_transitive(a: Seq<u32>, b: Seq<u32>, c: Seq<u32>)
    requires
        seq_at_least(a, b),
        seq_at_least(b, c),
    ensures
        seq_at_least(a, c),
    decreases a.len(),
{
    if a.len() > 0 && b.len() > 0 && c.len() > 0 {
        if a[0] == b[0] && b[0] == c[0] {
            lemma_seq_at_least_transitive(a.drop_first(), b.drop_first(), c.drop_first());
        }
    }
}

/// Every version is at least itself.
pub proof fn lemma_version_reflexive(v: Seq<char>)
    ensures
        version_at_least(v, v),
{
    lemma_seq_at_least_reflexive(version_numbers(v));
}

/// Any two versions are comparable: one of them is at least the other.
pub proof fn lemma_version_total(a: Seq<char>, b: Seq<char>)
    ensures
        version_at_least(a, b) || version_at_least(b, a),
{
    lemma_seq_at_least_total(version_numbers(a), version_numbers(b));
}

/// "At least" is transitive on versions.
pub proof fn lemma_version_transitive(a: Seq<char>, b: Seq<char>, c: Seq<char>)
    requires
        version_at_least(a, b),
        version_at_least(b, c),
    ensures
        version_at_least(a, c),
{
    lemma_seq_at_least_transitive(version_numbers(a), version_numbers(b), version_numbers(c));
}

} // verus!
