//! Scanning of trace text, byte by byte.
//!
//! The tracing tools print ASCII text.  Every delimiter that matters here is a
//! single ASCII byte, and no ASCII byte occurs inside a longer UTF-8 sequence,
//! so the text is read as bytes and never decoded.

use vstd::prelude::*;
use vstd::slice::slice_subrange;

verus! {

/// The byte that ends a line.
pub const LINE_FEED: u8 = 0x0a;

/// The byte that may precede a line feed and then belongs to the line ending.
pub const CARRIAGE_RETURN: u8 = 0x0d;

/// The byte `,`, which separates the fields of a record.
pub const COMMA: u8 = 0x2c;

/// The byte ` `, which separates the tokens of a line.
pub const SPACE: u8 = 0x20;

/// The byte `+`, which may stand before the digits of a number.
pub const PLUS: u8 = 0x2b;

/// Position of the first `b` in `s` at or after `from`, or `s.len()` when
/// there is none.
pub open spec fn find_from(s: Seq<u8>, b: u8, from: int) -> int
    decreases s.len() - from,
{
    if from >= s.len() {
        s.len() as int
    } else if s[from] == b {
        from
    } else {
        find_from(s, b, from + 1)
    }
}

/// `find_from` stops at the first `b` and nowhere before it.
pub proof fn lemma_find_from(s: Seq<u8>, b: u8, from: int)
    requires
        0 <= from <= s.len(),
    ensures
        from <= find_from(s, b, from) <= s.len(),
        forall|j: int| from <= j < find_from(s, b, from) ==> s[j] != b,
        find_from(s, b, from) < s.len() ==> s[find_from(s, b, from)] == b,
    decreases s.len() - from,
{
    if from < s.len() && s[from] != b {
        lemma_find_from(s, b, from + 1);
    }
}

/// Finds the first `b` in `s` at or after `from`.
pub fn find_byte(s: &[u8], b: u8, from: usize) -> (at: usize)
    ensures
        at == find_from(s@, b, from as int),
        at <= s.len(),
        from <= s.len() ==> from <= at,
        forall|j: int| from <= j < at ==> s[j] != b,
        at < s.len() ==> s[at as int] == b,
{
    let mut at: usize = from;
    while at < s.len() && s[at] != b
        invariant
            from <= at,
            find_from(s@, b, from as int) == find_from(s@, b, at as int),
            forall|j: int| from <= j < at ==> s[j] != b,
        decreases s.len() - at,
    {
        at += 1;
    }
    if at > s.len() {
        s.len()
    } else {
        at
    }
}

/// Whether `s` begins with `prefix`.
pub fn starts_with(s: &[u8], prefix: &[u8]) -> (r: bool)
    ensures
        r == prefix@.is_prefix_of(s@),
{
    if prefix.len() > s.len() {
        return false;
    }
    let mut i: usize = 0;
    while i < prefix.len()
        invariant
            i <= prefix.len() <= s.len(),
            forall|j: int| 0 <= j < i ==> s[j] == prefix[j],
        decreases prefix.len() - i,
    {
        if s[i] != prefix[i] {
            assert(s@.subrange(0, prefix@.len() as int)[i as int] != prefix@[i as int]);
            return false;
        }
        i += 1;
    }
    assert(prefix@ =~= s@.subrange(0, prefix@.len() as int));
    true
}

/// Whether `needle` occurs in `s` as a contiguous run.
pub open spec fn occurs_in(needle: Seq<u8>, s: Seq<u8>) -> bool {
    exists|i: int| 0 <= i <= s.len() && #[trigger] needle.is_prefix_of(s.skip(i))
}

/// Whether `s` contains `needle`.
pub fn contains(s: &[u8], needle: &[u8]) -> (r: bool)
    ensures
        r == occurs_in(needle@, s@),
{
    let mut i: usize = 0;
    while i < s.len()
        invariant
            i <= s.len(),
            forall|j: int| 0 <= j < i ==> !(#[trigger] needle@.is_prefix_of(s@.skip(j))),
        decreases s.len() - i,
    {
        let rest = slice_subrange(s, i, s.len());
        assert(rest@ =~= s@.skip(i as int));
        if starts_with(rest, needle) {
            return true;
        }
        i += 1;
    }
    // Only the empty run is left to try, at the very end of `s`.
    proof {
        let end = s@.len() as int;
        assert(s@.skip(end).len() == 0);
        if needle@.len() == 0 {
            assert(needle@ =~= s@.skip(end).subrange(0, 0));
            assert(needle@.is_prefix_of(s@.skip(end)));
        }
    }
    needle.len() == 0
}

/// The byte sequences behind a list of slices.
pub open spec fn views(parts: Seq<&[u8]>) -> Seq<Seq<u8>> {
    parts.map_values(|part: &[u8]| part@)
}

/// The pieces of `s` from `from` on that lie between occurrences of `sep`.
///
/// There is always at least one piece, and a separator at the very end is
/// followed by an empty one.
pub open spec fn fields_from(s: Seq<u8>, sep: u8, from: int) -> Seq<Seq<u8>>
    decreases s.len() - from,
    when 0 <= from
{
    let end = find_from(s, sep, from);
    if end >= s.len() {
        seq![s.subrange(from, s.len() as int)]
    } else {
        proof {
            lemma_find_from(s, sep, from);
        }
        seq![s.subrange(from, end)] + fields_from(s, sep, end + 1)
    }
}

/// The pieces of `s` between occurrences of `sep`: `n` separators make
/// `n + 1` fields, some of which may be empty.
pub open spec fn fields(s: Seq<u8>, sep: u8) -> Seq<Seq<u8>> {
    fields_from(s, sep, 0)
}

/// Splits `s` at every `sep`.
pub fn split_fields<'a>(s: &'a [u8], sep: u8) -> (out: Vec<&'a [u8]>)
    ensures
        views(out@) == fields(s@, sep),
        out.len() >= 1,
{
    let mut out: Vec<&'a [u8]> = Vec::new();
    let mut from: usize = 0;
    loop
        invariant_except_break
            from <= s.len(),
            views(out@) + fields_from(s@, sep, from as int) == fields(s@, sep),
        ensures
            views(out@) == fields(s@, sep),
            out.len() >= 1,
        decreases s.len() - from,
    {
        let end = find_byte(s, sep, from);
        let ghost before = out@;
        out.push(slice_subrange(s, from, end));
        assert(views(out@) =~= views(before) + seq![s@.subrange(from as int, end as int)]);
        if end >= s.len() {
            break ;
        }
        from = end + 1;
    }
    out
}

/// The line that starts at `start` and runs up to `end`, where `end` is the
/// position of its line feed or the end of the text.  A carriage return
/// directly before the line feed belongs to the line ending.
pub open spec fn line_at(text: Seq<u8>, start: int, end: int) -> Seq<u8> {
    if end < text.len() && start < end && text[end - 1] == CARRIAGE_RETURN {
        text.subrange(start, end - 1)
    } else {
        text.subrange(start, end)
    }
}

/// The lines of `text` from `from` on.
pub open spec fn lines_from(text: Seq<u8>, from: int) -> Seq<Seq<u8>>
    decreases text.len() + 1 - from,
    when 0 <= from
{
    let end = find_from(text, LINE_FEED, from);
    if from >= text.len() {
        Seq::empty()
    } else {
        proof {
            lemma_find_from(text, LINE_FEED, from);
        }
        seq![line_at(text, from, end)] + lines_from(text, end + 1)
    }
}

/// The lines of `text`.  A line ends with a line feed or with a carriage
/// return and a line feed; the last line may go without.  The ending is not
/// part of the line, and text that ends with a line ending has no empty line
/// after it.
pub open spec fn lines(text: Seq<u8>) -> Seq<Seq<u8>> {
    lines_from(text, 0)
}

/// Splits `text` into its lines.
pub fn split_lines<'a>(text: &'a [u8]) -> (out: Vec<&'a [u8]>)
    ensures
        views(out@) == lines(text@),
{
    let mut out: Vec<&'a [u8]> = Vec::new();
    let mut from: usize = 0;
    while from < text.len()
        invariant
            views(out@) + lines_from(text@, from as int) == lines(text@),
        decreases text.len() - from,
    {
        let end = find_byte(text, LINE_FEED, from);
        let stop: usize = if end < text.len() && from < end && text[end - 1] == CARRIAGE_RETURN {
            end - 1
        } else {
            end
        };
        let ghost before = out@;
        out.push(slice_subrange(text, from, stop));
        assert(views(out@) =~= views(before) + seq![line_at(text@, from as int, end as int)]);
        if end >= text.len() {
            assert(lines_from(text@, end as int + 1) =~= Seq::<Seq<u8>>::empty());
            from = text.len();
        } else {
            from = end + 1;
        }
    }
    assert(lines_from(text@, from as int) =~= Seq::<Seq<u8>>::empty());
    out
}

/// Whether `b` is ASCII white space: a space, a tab, a line feed, a form
/// feed or a carriage return.
pub open spec fn spec_is_space(b: u8) -> bool {
    b == 0x20 || b == 0x09 || b == 0x0a || b == 0x0c || b == 0x0d
}

/// Whether `b` is ASCII white space.
#[verifier::when_used_as_spec(spec_is_space)]
pub fn is_space(b: u8) -> (r: bool)
    ensures
        r == spec_is_space(b),
{
    b == 0x20 || b == 0x09 || b == 0x0a || b == 0x0c || b == 0x0d
}

/// Position of the first byte at or after `from` that is white space (when
/// `space` holds) or that is not (when it does not), or `s.len()` when there
/// is none.
pub open spec fn scan_from(s: Seq<u8>, space: bool, from: int) -> int
    decreases s.len() - from,
{
    if from >= s.len() {
        s.len() as int
    } else if is_space(s[from]) == space {
        from
    } else {
        scan_from(s, space, from + 1)
    }
}

/// `scan_from` stops at the first byte of the wanted kind and nowhere before
/// it.
pub proof fn lemma_scan_from(s: Seq<u8>, space: bool, from: int)
    requires
        0 <= from <= s.len(),
    ensures
        from <= scan_from(s, space, from) <= s.len(),
        forall|j: int| from <= j < scan_from(s, space, from) ==> is_space(s[j]) != space,
        scan_from(s, space, from) < s.len() ==> is_space(s[scan_from(s, space, from)]) == space,
    decreases s.len() - from,
{
    if from < s.len() && is_space(s[from]) != space {
        lemma_scan_from(s, space, from + 1);
    }
}

/// Finds the first byte at or after `from` that is white space, or the first
/// that is not.
pub fn scan(s: &[u8], space: bool, from: usize) -> (at: usize)
    ensures
        at == scan_from(s@, space, from as int),
        at <= s.len(),
        from <= s.len() ==> from <= at,
        forall|j: int| from <= j < at ==> is_space(s[j]) != space,
        at < s.len() ==> is_space(s[at as int]) == space,
{
    let mut at: usize = from;
    while at < s.len() && is_space(s[at]) != space
        invariant
            from <= at,
            scan_from(s@, space, from as int) == scan_from(s@, space, at as int),
            forall|j: int| from <= j < at ==> is_space(s[j]) != space,
        decreases s.len() - at,
    {
        at += 1;
    }
    if at > s.len() {
        s.len()
    } else {
        at
    }
}

/// The words of `s` from `from` on.
pub open spec fn words_from(s: Seq<u8>, from: int) -> Seq<Seq<u8>>
    decreases s.len() - from,
    when 0 <= from
{
    let start = scan_from(s, false, from);
    let end = scan_from(s, true, start);
    if start >= s.len() {
        Seq::empty()
    } else {
        proof {
            lemma_scan_from(s, false, from);
            lemma_scan_from(s, true, start + 1);
        }
        seq![s.subrange(start, end)] + words_from(s, end)
    }
}

/// The words of `s`: its longest runs of bytes that are not white space.
pub open spec fn words(s: Seq<u8>) -> Seq<Seq<u8>> {
    words_from(s, 0)
}

/// Splits `s` into its words.
pub fn split_words<'a>(s: &'a [u8]) -> (out: Vec<&'a [u8]>)
    ensures
        views(out@) == words(s@),
{
    let mut out: Vec<&'a [u8]> = Vec::new();
    let mut from: usize = 0;
    loop
        invariant_except_break
            from <= s.len(),
            views(out@) + words_from(s@, from as int) == words(s@),
        ensures
            views(out@) == words(s@),
        decreases s.len() - from,
    {
        let start = scan(s, false, from);
        if start >= s.len() {
            assert(words_from(s@, from as int) =~= Seq::<Seq<u8>>::empty());
            break ;
        }
        let end = scan(s, true, start);
        proof {
            lemma_scan_from(s@, true, start as int + 1);
        }
        let ghost before = out@;
        out.push(slice_subrange(s, start, end));
        assert(views(out@) =~= views(before) + seq![s@.subrange(start as int, end as int)]);
        from = end;
    }
    out
}

/// The value of `b` read as a digit: `0` to `9` for the decimal digits
/// (bytes `0x30` to `0x39`), `10` to `35` for the letters `a` to `z` (bytes
/// `0x61` to `0x7a`) and for the letters `A` to `Z` (bytes `0x41` to `0x5a`).
pub open spec fn digit_of(b: u8) -> Option<nat> {
    if 0x30 <= b <= 0x39 {
        Some((b - 0x30) as nat)
    } else if 0x61 <= b <= 0x7a {
        Some((b - 0x61 + 10) as nat)
    } else if 0x41 <= b <= 0x5a {
        Some((b - 0x41 + 10) as nat)
    } else {
        None
    }
}

/// The number that the digits `s` write in base `radix`, most significant
/// digit first; `None` when a byte is no digit of that base.
pub open spec fn digits_value(s: Seq<u8>, radix: nat) -> Option<nat>
    decreases s.len(),
{
    if s.len() == 0 {
        Some(0)
    } else {
        match (digits_value(s.drop_last(), radix), digit_of(s.last())) {
            (Some(high), Some(low)) => if low < radix {
                Some(high * radix + low)
            } else {
                None
            },
            _ => None,
        }
    }
}

/// The number that `s` writes in base `radix`: an optional `+`, then one or
/// more digits and nothing else, with a value that fits 64 bits.
pub open spec fn radix_value(s: Seq<u8>, radix: nat) -> Option<u64> {
    let digits = if s.len() > 0 && s[0] == PLUS {
        s.skip(1)
    } else {
        s
    };
    if digits.len() == 0 {
        None
    } else {
        match digits_value(digits, radix) {
            Some(value) => if value <= u64::MAX {
                Some(value as u64)
            } else {
                None
            },
            None => None,
        }
    }
}

/// Digits that write a number have prefixes that write numbers too, and none
/// of those is larger.
pub proof fn lemma_digits_prefix(s: Seq<u8>, radix: nat, n: int)
    requires
        0 <= n <= s.len(),
        digits_value(s, radix) is Some,
    ensures
        digits_value(s.take(n), radix) is Some,
        digits_value(s.take(n), radix)->0 <= digits_value(s, radix)->0,
    decreases s.len(),
{
    if n == s.len() {
        assert(s.take(n) =~= s);
    } else {
        let front = s.drop_last();
        assert(front.take(n) =~= s.take(n));
        lemma_digits_prefix(front, radix, n);
        let high = digits_value(front, radix)->0;
        assert(high * radix >= high) by (nonlinear_arith)
            requires
                radix >= 1,
        ;
    }
}

/// Reads one digit.
fn digit(b: u8) -> (d: Option<u32>)
    ensures
        match d {
            Some(v) => digit_of(b) == Some(v as nat),
            None => digit_of(b) is None,
        },
{
    if 0x30 <= b && b <= 0x39 {
        Some((b - 0x30) as u32)
    } else if 0x61 <= b && b <= 0x7a {
        Some((b - 0x61 + 10) as u32)
    } else if 0x41 <= b && b <= 0x5a {
        Some((b - 0x41 + 10) as u32)
    } else {
        None
    }
}

/// Reads the number that `s` writes in base `radix`.
pub fn parse_radix(s: &[u8], radix: u32) -> (r: Option<u64>)
    requires
        2 <= radix <= 36,
    ensures
        r == radix_value(s@, radix as nat),
{
    let start: usize = if s.len() > 0 && s[0] == PLUS {
        1
    } else {
        0
    };
    if start >= s.len() {
        return None;
    }
    let digits = slice_subrange(s, start, s.len());
    assert(digits@ =~= if s@.len() > 0 && s@[0] == PLUS {
        s@.skip(1)
    } else {
        s@
    });
    let mut acc: u64 = 0;
    let mut i: usize = 0;
    while i < digits.len()
        invariant
            i <= digits.len(),
            2 <= radix <= 36,
            digits@.len() > 0,
            digits@ == if s@.len() > 0 && s@[0] == PLUS {
                s@.skip(1)
            } else {
                s@
            },
            digits_value(digits@.take(i as int), radix as nat) == Some(acc as nat),
        decreases digits.len() - i,
    {
        assert(digits@.take(i as int + 1).drop_last() =~= digits@.take(i as int));
        let low = match digit(digits[i]) {
            Some(low) => low,
            None => radix,
        };
        let next = if low < radix {
            match acc.checked_mul(radix as u64) {
                Some(high) => high.checked_add(low as u64),
                None => None,
            }
        } else {
            None
        };
        match next {
            Some(value) => {
                acc = value;
            },
            None => {
                proof {
                    let base = radix as nat;
                    let seen = digits@.take(i as int + 1);
                    assert(seen.last() == digits@[i as int]);
                    if low < radix {
                        assert(digits_value(seen, base) == Some(acc as nat * base + low as nat));
                        assert(acc as nat * base + low as nat > u64::MAX);
                    } else {
                        assert(digits_value(seen, base) is None);
                    }
                    if digits_value(digits@, base) is Some {
                        lemma_digits_prefix(digits@, base, i as int + 1);
                    }
                }
                return None;
            },
        }
        i += 1;
    }
    assert(digits@.take(i as int) =~= digits@);
    Some(acc)
}

} // verus!
