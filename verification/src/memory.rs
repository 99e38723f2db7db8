//! The resident memory of a process, read out of the status text that the
//! process table keeps of it.

use vstd::prelude::*;
use crate::text::{chars_of, line_views, lines, lines_of, starts_with_chars};

verus! {

/// The key of the line that holds the resident memory, in kibibytes.
pub const RESIDENT_KEY: &'static str = "VmRSS:";

/// The bytes in a kibibyte.
pub const KIBIBYTE: u64 = 1024;

/// A blank or a tab.
pub open spec fn is_blank(c: char) -> bool {
    c == ' ' || c == '\t'
}

/// A decimal digit.
pub open spec fn is_digit(c: char) -> bool {
    '0' <= c <= '9'
}

/// The number of blanks that `text` begins with.
pub open spec fn leading_blanks(text: Seq<char>) -> int
    decreases text.len(),
{
    if text.len() == 0 || !is_blank(text[0]) {
        0
    } else {
        1 + leading_blanks(text.drop_first())
    }
}

/// The number of digits that `text` begins with.
pub open spec fn leading_digits(text: Seq<char>) -> int
    decreases text.len(),
{
    if text.len() == 0 || !is_digit(text[0]) {
        0
    } else {
        1 + leading_digits(text.drop_first())
    }
}

/// The number that `digits` write in decimal.
pub open spec fn decimal(digits: Seq<char>) -> nat
    decreases digits.len(),
{
    if digits.len() == 0 {
        0
    } else {
        (decimal(digits.drop_last()) * 10 + (digits.last() as int - '0' as int)) as nat
    }
}

/// The number that a line gives after `key`: the line begins with the key,
/// blanks may follow, then come digits, and after the digits the line ends
/// or goes on with a blank.
pub open spec fn field(line: Seq<char>, key: Seq<char>) -> Option<nat> {
    let rest = line.skip(key.len() as int);
    let value = rest.skip(leading_blanks(rest));
    let width = leading_digits(value);
    if !key.is_prefix_of(line) || width == 0 || (width < value.len() && !is_blank(value[width])) {
        None
    } else {
        Some(decimal(value.take(width)))
    }
}

/// The place of the first of `lines` that begins with `key`, or their
/// number where none does.
pub open spec fn first_with_key(lines: Seq<Seq<char>>, key: Seq<char>) -> int
    decreases lines.len(),
{
    if lines.len() == 0 || key.is_prefix_of(lines[0]) {
        0
    } else {
        1 + first_with_key(lines.drop_first(), key)
    }
}

/// The resident memory that a status text reports, in bytes: the number of
/// the first line that begins with `VmRSS:`, taken as kibibytes. `None`
/// where there is no such line, where the line gives no number, or where
/// the number of bytes is more than 64 bits hold.
pub open spec fn resident_bytes(status: Seq<char>) -> Option<u64> {
    let lines = lines_of(status);
    let at = first_with_key(lines, RESIDENT_KEY@);
    if 0 <= at < lines.len() {
        match field(lines[at], RESIDENT_KEY@) {
            Some(kib) => if kib * KIBIBYTE <= u64::MAX {
                Some((kib * KIBIBYTE) as u64)
            } else {
                None
            },
            None => None,
        }
    } else {
        None
    }
}

/// Where the blanks at the start of `text` end.
proof fn lemma_leading_blanks(text: Seq<char>, end: int)
    requires
        0 <= end <= text.len(),
        forall|k: int| 0 <= k < end ==> is_blank(text[k]),
        end < text.len() ==> !is_blank(text[end]),
    ensures
        leading_blanks(text) == end,
    decreases end,
{
    if end > 0 {
        assert forall|k: int| 0 <= k < end - 1 implies is_blank(text.drop_first()[k]) by {
            assert(text.drop_first()[k] == text[k + 1]);
        }
        lemma_leading_blanks(text.drop_first(), end - 1);
    }
}

/// Where the digits at the start of `text` end.
proof fn lemma_leading_digits(text: Seq<char>, end: int)
    requires
        0 <= end <= text.len(),
        forall|k: int| 0 <= k < end ==> is_digit(text[k]),
        end < text.len() ==> !is_digit(text[end]),
    ensures
        leading_digits(text) == end,
    decreases end,
{
    if end > 0 {
        assert forall|k: int| 0 <= k < end - 1 implies is_digit(text.drop_first()[k]) by {
            assert(text.drop_first()[k] == text[k + 1]);
        }
        lemma_leading_digits(text.drop_first(), end - 1);
    }
}

/// The first line that begins with `key` is at `at` when it begins with the
/// key, or the lines end there, and no line before does.
proof fn lemma_first_with_key(lines: Seq<Seq<char>>, key: Seq<char>, at: int)
    requires
        0 <= at <= lines.len(),
        forall|k: int| 0 <= k < at ==> !key.is_prefix_of(lines[k]),
        at < lines.len() ==> key.is_prefix_of(lines[at]),
    ensures
        first_with_key(lines, key) == at,
    decreases at,
{
    if at > 0 {
        assert forall|k: int| 0 <= k < at - 1 implies !key.is_prefix_of(
            lines.drop_first()[k],
        ) by {
            assert(lines.drop_first()[k] == lines[k + 1]);
        }
        lemma_first_with_key(lines.drop_first(), key, at - 1);
    }
}

/// The number of bytes that a line gives after `key`, counted in
/// kibibytes.
fn bytes_after(line: &Vec<char>, key: &Vec<char>) -> (bytes: Option<u64>)
    requires
        key@.is_prefix_of(line@),
    ensures
        bytes == match field(line@, key@) {
            Some(kib) => if kib * KIBIBYTE <= u64::MAX {
                Some((kib * KIBIBYTE) as u64)
            } else {
                None
            },
            None => None,
        },
{
    let ghost rest = line@.skip(key@.len() as int);
    let mut at: usize = key.len();
    while at < line.len() && (line[at] == ' ' || line[at] == '\t')
        invariant
            key.len() <= at <= line.len(),
            forall|k: int| key.len() <= k < at ==> is_blank(line@[k]),
        decreases line.len() - at,
    {
        at += 1;
    }
    let first: usize = at;
    let ghost value = rest.skip(first - key.len());
    proof {
        lemma_leading_blanks(rest, first - key.len());
        assert(value =~= line@.skip(first as int));
    }
    let limit: u64 = u64::MAX / KIBIBYTE;
    let mut kib: u64 = 0;
    let mut fits = true;
    assert(value.take(0) =~= Seq::<char>::empty());
    while at < line.len() && '0' <= line[at] && line[at] <= '9'
        invariant
            first <= at <= line.len(),
            limit == u64::MAX / KIBIBYTE,
            value == line@.skip(first as int),
            forall|k: int| first <= k < at ==> is_digit(line@[k]),
            fits ==> kib == decimal(value.take(at - first)) && kib <= limit,
            !fits ==> decimal(value.take(at - first)) > limit,
        decreases line.len() - at,
    {
        let digit: u64 = ((line[at] as u8) - 48) as u64;
        proof {
            let sofar = value.take(at - first);
            let more = value.take(at - first + 1);
            assert(more.drop_last() =~= sofar);
            assert(more.last() == line@[at as int]);
            assert(digit == line@[at as int] as int - '0' as int);
        }
        if fits && kib <= (limit - digit) / 10 {
            kib = kib * 10 + digit;
        } else {
            fits = false;
        }
        at += 1;
    }
    let width: usize = at - first;
    proof {
        assert forall|k: int| 0 <= k < width implies is_digit(value[k]) by {
            assert(value[k] == line@[first + k]);
        }
        if width < value.len() {
            assert(value[width as int] == line@[at as int]);
        }
        lemma_leading_digits(value, width as int);
    }
    if width == 0 || (at < line.len() && line[at] != ' ' && line[at] != '\t') {
        return None;
    }
    if fits {
        assert(kib * KIBIBYTE <= u64::MAX) by (nonlinear_arith)
            requires
                kib <= limit,
                limit == u64::MAX / KIBIBYTE,
                KIBIBYTE == 1024,
        ;
        Some(kib * KIBIBYTE)
    } else {
        assert(decimal(value.take(width as int)) * KIBIBYTE > u64::MAX) by (nonlinear_arith)
            requires
                decimal(value.take(width as int)) > limit,
                limit == u64::MAX / KIBIBYTE,
                KIBIBYTE == 1024,
        ;
        None
    }
}

/// The resident memory that a process status text reports, in bytes.
pub fn resident_memory(status: &str) -> (bytes: Option<u64>)
    ensures
        bytes == resident_bytes(status@),
{
    let key = chars_of(RESIDENT_KEY);
    let all = lines(status);
    let mut i: usize = 0;
    while i < all.len()
        invariant
            i <= all.len(),
            key@ == RESIDENT_KEY@,
            line_views(all@) == lines_of(status@),
            forall|k: int| 0 <= k < i ==> !key@.is_prefix_of(line_views(all@)[k]),
        decreases all.len() - i,
    {
        if starts_with_chars(&all[i], &key) {
            proof {
                lemma_first_with_key(lines_of(status@), key@, i as int);
            }
            return bytes_after(&all[i], &key);
        }
        i += 1;
    }
    proof {
        lemma_first_with_key(lines_of(status@), key@, all.len() as int);
    }
    None
}

} // verus!
