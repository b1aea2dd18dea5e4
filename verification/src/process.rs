//! Finding the process that owns a port, and its name.
//!
//! The owner is looked for in a listing of open sockets, one socket per
//! line, as `ss -tulpn` prints it. The listing is read as bytes: all that is
//! looked for is ASCII.

use vstd::prelude::*;
use vstd::slice::slice_subrange;

verus! {

/// Whether `pattern` stands in `text` at place `at`.
pub open spec fn occurs_at(text: Seq<u8>, pattern: Seq<u8>, at: int) -> bool {
    0 <= at && at + pattern.len() <= text.len() && text.subrange(at, at + pattern.len())
        == pattern
}

/// The first place at or after `from` where `pattern` stands in `text`.
pub open spec fn search(text: Seq<u8>, pattern: Seq<u8>, from: int) -> Option<int>
    decreases text.len() + 1 - from,
{
    if from < 0 || from + pattern.len() > text.len() {
        None
    } else if occurs_at(text, pattern, from) {
        Some(from)
    } else {
        search(text, pattern, from + 1)
    }
}

/// The decimal digits of a number, as ASCII, without leading zeros.
pub open spec fn decimal(n: nat) -> Seq<u8>
    decreases n,
{
    if n < 10 {
        seq![(48 + n) as u8]
    } else {
        decimal(n / 10).push((48 + n % 10) as u8)
    }
}

/// The number that ASCII digits stand for.
pub open spec fn decimal_value(digits: Seq<u8>) -> int
    decreases digits.len(),
{
    if digits.len() == 0 {
        0
    } else {
        decimal_value(digits.drop_last()) * 10 + (digits.last() - 48)
    }
}

/// Whether every byte is an ASCII digit.
pub open spec fn all_digits(text: Seq<u8>) -> bool {
    forall|i: int| 0 <= i < text.len() ==> 48 <= #[trigger] text[i] <= 57
}

/// The number of 32 bits that one or more decimal digits stand for.
pub open spec fn number_of(digits: Seq<u8>) -> Option<u32> {
    if digits.len() > 0 && all_digits(digits) && decimal_value(digits) <= u32::MAX {
        Some(decimal_value(digits) as u32)
    } else {
        None
    }
}

/// The number that a text stands for: one or more decimal digits, with or
/// without a plus sign in front, that make a number of 32 bits.
pub open spec fn number_in(text: Seq<u8>) -> Option<u32> {
    if text.len() > 0 && text[0] == 43 {
        number_of(text.subrange(1, text.len() as int))
    } else {
        number_of(text)
    }
}

/// The text that marks a port in a listing: a colon and the port in decimal.
pub open spec fn port_mark(port: u16) -> Seq<u8> {
    seq![58u8] + decimal(port as nat)
}

/// The text that comes before a process number in a listing: `pid=`.
pub open spec fn pid_mark() -> Seq<u8> {
    seq![112u8, 105u8, 100u8, 61u8]
}

/// The text up to the first place where `stop` stands, or all of it.
pub open spec fn up_to(text: Seq<u8>, stop: Seq<u8>) -> Seq<u8> {
    match search(text, stop, 0) {
        Some(at) => text.subrange(0, at),
        None => text,
    }
}

/// Whether the port is named at place `at` of a line: its mark stands
/// there, and what follows the mark is no digit. The mark of port 22 stands
/// in `:2222` too, but that names another port.
pub open spec fn names_port_at(line: Seq<u8>, port: u16, at: int) -> bool {
    occurs_at(line, port_mark(port), at) && (at + port_mark(port).len() == line.len() || !(48
        <= line[at + port_mark(port).len()] <= 57))
}

/// Whether a line names the port somewhere.
pub open spec fn names_port(line: Seq<u8>, port: u16) -> bool {
    exists|at: int| names_port_at(line, port, at)
}

/// A line in which the mark of the port stands only where a digit follows
/// it names other ports, with longer numbers, and not this one.
pub proof fn lemma_longer_number_is_another_port(line: Seq<u8>, port: u16)
    requires
        forall|at: int| #[trigger]
            occurs_at(line, port_mark(port), at) ==> at + port_mark(port).len() < line.len() && 48
                <= line[at + port_mark(port).len()] <= 57,
    ensures
        !names_port(line, port),
        pid_in_line(line, port) is None,
{
}

/// What one line says of the process behind `port`.
///
/// A line that does not name the port, or names no process, says nothing:
/// `None`. Any other line settles the matter: the process number is the text
/// between the first `pid=` and the next comma or `pid=`, read as a number,
/// and where that text is no number, no process is found.
pub open spec fn pid_in_line(line: Seq<u8>, port: u16) -> Option<Option<u32>> {
    if !names_port(line, port) {
        None
    } else {
        match search(line, pid_mark(), 0) {
            None => None,
            Some(at) => {
                let rest = line.subrange(at + 4, line.len() as int);
                Some(number_in(up_to(up_to(rest, pid_mark()), seq![44u8])))
            },
        }
    }
}

/// Place of the first line feed of a text, or its length if it has none.
pub open spec fn line_break(text: Seq<u8>) -> int {
    match search(text, seq![10u8], 0) {
        Some(at) => at,
        None => text.len() as int,
    }
}

/// The first line of a text, without its line ending: a line feed, or a
/// carriage return and a line feed.
pub open spec fn first_line(text: Seq<u8>) -> Seq<u8> {
    let end = line_break(text);
    if 0 < end < text.len() && text[end - 1] == 13 {
        text.subrange(0, end - 1)
    } else {
        text.subrange(0, end)
    }
}

/// What follows the first line of a text.
pub open spec fn after_first_line(text: Seq<u8>) -> Seq<u8> {
    let end = line_break(text);
    if 0 <= end < text.len() {
        text.subrange(end + 1, text.len() as int)
    } else {
        Seq::empty()
    }
}

/// The process that a listing names for `port`: what the first line says
/// that says anything.
pub open spec fn pid_in_listing(text: Seq<u8>, port: u16) -> Option<u32>
    decreases text.len(),
{
    if text.len() == 0 {
        None
    } else {
        match pid_in_line(first_line(text), port) {
            Some(answer) => answer,
            None => pid_in_listing(after_first_line(text), port),
        }
    }
}

/// `search` finds a place where the pattern stands, and the first such
/// place; it finds none only where there is none.
pub proof fn lemma_search_is_first(text: Seq<u8>, pattern: Seq<u8>, from: int)
    requires
        0 <= from,
    ensures
        match search(text, pattern, from) {
            Some(at) => from <= at && occurs_at(text, pattern, at) && forall|i: int|
                from <= i < at ==> !occurs_at(text, pattern, i),
            None => forall|i: int| from <= i ==> !occurs_at(text, pattern, i),
        },
    decreases text.len() + 1 - from,
{
    if from + pattern.len() <= text.len() && !occurs_at(text, pattern, from) {
        lemma_search_is_first(text, pattern, from + 1);
    }
}

/// Whether `pattern` stands in `text` at place `at`.
fn stands_at(text: &[u8], pattern: &[u8], at: usize) -> (r: bool)
    requires
        at + pattern@.len() <= text@.len(),
    ensures
        r == occurs_at(text@, pattern@, at as int),
{
    let n = text.len();
    let mut k: usize = 0;
    while k < pattern.len()
        invariant
            k <= pattern@.len(),
            n == text@.len(),
            at + pattern@.len() <= text@.len(),
            forall|j: int| 0 <= j < k ==> text@[at + j] == pattern@[j],
        decreases pattern.len() - k,
    {
        if text[at + k] != pattern[k] {
            assert(text@.subrange(at as int, at + pattern@.len())[k as int] != pattern@[k as int]);
            return false;
        }
        k += 1;
    }
    assert(text@.subrange(at as int, at + pattern@.len()) =~= pattern@);
    true
}

/// The first place where `pattern` stands in `text`, `None` where it stands
/// nowhere.
pub fn find(text: &[u8], pattern: &[u8]) -> (r: Option<usize>)
    ensures
        match r {
            Some(at) => search(text@, pattern@, 0) == Some(at as int),
            None => search(text@, pattern@, 0) is None,
        },
        match r {
            Some(at) => occurs_at(text@, pattern@, at as int) && forall|i: int|
                0 <= i < at ==> !occurs_at(text@, pattern@, i),
            None => forall|i: int| 0 <= i ==> !occurs_at(text@, pattern@, i),
        },
{
    proof {
        lemma_search_is_first(text@, pattern@, 0);
    }
    let n = text.len();
    let m = pattern.len();
    if m > n {
        return None;
    }
    let last = n - m;
    let mut at: usize = 0;
    loop
        invariant
            n == text@.len(),
            m == pattern@.len(),
            last == n - m,
            at <= last,
            search(text@, pattern@, 0) == search(text@, pattern@, at as int),
        decreases last - at,
    {
        if stands_at(text, pattern, at) {
            proof {
                lemma_search_is_first(text@, pattern@, 0);
            }
            return Some(at);
        }
        if at == last {
            assert(search(text@, pattern@, at + 1) is None);
            proof {
                lemma_search_is_first(text@, pattern@, 0);
            }
            return None;
        }
        at += 1;
    }
}

/// Appends the decimal digits of `n` to `out`.
fn push_decimal(n: u64, out: &mut Vec<u8>)
    ensures
        final(out)@ == old(out)@ + decimal(n as nat),
    decreases n,
{
    if n >= 10 {
        push_decimal(n / 10, out);
    }
    out.push(48 + (n % 10) as u8);
    assert(final(out)@ =~= old(out)@ + decimal(n as nat));
}

/// The text that marks a port in a listing.
fn port_mark_of(port: u16) -> (mark: Vec<u8>)
    ensures
        mark@ == port_mark(port),
{
    let mut mark: Vec<u8> = Vec::new();
    mark.push(58);
    push_decimal(port as u64, &mut mark);
    assert(mark@ =~= port_mark(port));
    mark
}

/// A number of digits is no smaller than the number of its first digits.
proof fn lemma_decimal_value_grows(digits: Seq<u8>, k: int)
    requires
        all_digits(digits),
        0 <= k <= digits.len(),
    ensures
        0 <= decimal_value(digits.take(k)) <= decimal_value(digits),
    decreases digits.len() - k,
{
    if k == digits.len() {
        assert(digits.take(k) =~= digits);
        lemma_decimal_value_nonnegative(digits);
    } else {
        lemma_decimal_value_grows(digits, k + 1);
        assert(digits.take(k + 1).drop_last() =~= digits.take(k));
        assert(digits.take(k + 1).last() == digits[k]);
        lemma_decimal_value_nonnegative(digits.take(k));
    }
}

proof fn lemma_decimal_value_nonnegative(digits: Seq<u8>)
    requires
        all_digits(digits),
    ensures
        0 <= decimal_value(digits),
    decreases digits.len(),
{
    if digits.len() > 0 {
        assert(digits.drop_last() =~= digits.take(digits.len() - 1));
        lemma_decimal_value_nonnegative(digits.drop_last());
    }
}

/// Reads a text as a number of 32 bits.
pub fn parse_u32(text: &[u8]) -> (r: Option<u32>)
    ensures
        r == number_in(text@),
{
    let digits = if text.len() > 0 && text[0] == 43 {
        slice_subrange(text, 1, text.len())
    } else {
        text
    };
    assert(number_in(text@) == number_of(digits@));
    if digits.len() == 0 {
        return None;
    }
    let mut value: u64 = 0;
    let mut k: usize = 0;
    assert(digits@.take(0) =~= Seq::<u8>::empty());
    while k < digits.len()
        invariant
            k <= digits@.len(),
            digits@.len() > 0,
            number_in(text@) == number_of(digits@),
            all_digits(digits@.take(k as int)),
            value == decimal_value(digits@.take(k as int)),
            value <= u32::MAX,
        decreases digits.len() - k,
    {
        let byte = digits[k];
        if byte < 48 || byte > 57 {
            assert(digits@[k as int] == byte);
            assert(!all_digits(digits@));
            return None;
        }
        assert(digits@.take(k + 1).drop_last() =~= digits@.take(k as int));
        assert(digits@.take(k + 1).last() == byte);
        value = value * 10 + (byte - 48) as u64;
        assert(value == decimal_value(digits@.take(k + 1)));
        assert(all_digits(digits@.take(k + 1))) by {
            assert forall|i: int| 0 <= i < k + 1 implies 48 <= #[trigger] digits@.take(k + 1)[i]
                <= 57 by {
                if i < k {
                    assert(digits@.take(k as int)[i] == digits@.take(k + 1)[i]);
                }
            }
        }
        if value > 0xffff_ffff {
            proof {
                if all_digits(digits@) {
                    lemma_decimal_value_grows(digits@, k + 1);
                }
            }
            return None;
        }
        k += 1;
    }
    assert(digits@.take(k as int) =~= digits@);
    Some(value as u32)
}

/// The text up to the first place where `stop` stands, or all of it.
fn cut_at<'a>(text: &'a [u8], stop: &[u8]) -> (r: &'a [u8])
    ensures
        r@ == up_to(text@, stop@),
{
    match find(text, stop) {
        Some(at) => {
            proof {
                lemma_search_is_first(text@, stop@, 0);
            }
            slice_subrange(text, 0, at)
        },
        None => text,
    }
}

/// Whether a line names the port whose mark is `mark`.
fn names(line: &[u8], mark: &[u8], port: u16) -> (r: bool)
    requires
        mark@ == port_mark(port),
    ensures
        r == names_port(line@, port),
{
    let n = line.len();
    let m = mark.len();
    if m > n {
        return false;
    }
    let last = n - m;
    let mut at: usize = 0;
    loop
        invariant
            n == line@.len(),
            m == mark@.len(),
            mark@ == port_mark(port),
            last == n - m,
            at <= last,
            forall|i: int| i < at ==> !names_port_at(line@, port, i),
        decreases last - at,
    {
        if stands_at(line, mark, at) && (at == last || line[at + m] < 48 || line[at + m] > 57) {
            assert(names_port_at(line@, port, at as int));
            return true;
        }
        if at == last {
            return false;
        }
        at += 1;
    }
}

/// What one line says of the process behind the port whose mark is `mark`.
fn pid_from_line(line: &[u8], mark: &[u8], port: u16) -> (r: Option<Option<u32>>)
    requires
        mark@ == port_mark(port),
    ensures
        r == pid_in_line(line@, port),
{
    if !names(line, mark, port) {
        return None;
    }
    let pid: [u8; 4] = [112, 105, 100, 61];
    let comma: [u8; 1] = [44];
    assert(pid@ =~= pid_mark());
    assert(comma@ =~= seq![44u8]);
    let length = line.len();
    match find(line, pid.as_slice()) {
        None => None,
        Some(at) => {
            proof {
                lemma_search_is_first(line@, pid_mark(), 0);
                assert(pid_mark().len() == 4);
                assert(occurs_at(line@, pid_mark(), at as int));
            }
            let rest = slice_subrange(line, at + 4, length);
            let part = cut_at(rest, pid.as_slice());
            let digits = cut_at(part, comma.as_slice());
            Some(parse_u32(digits))
        },
    }
}

/// Looks in a listing of open sockets for the process that owns `port`.
///
/// The lines are taken in turn. The first line that names the port, as a
/// colon and the port in decimal with no further digit behind it, and a
/// process, as `pid=` and a number, settles the matter. Where the text behind `pid=` is no number of 32 bits,
/// no process is found, whatever later lines say.
pub fn pid_from_listing(listing: &[u8], port: u16) -> (r: Option<u32>)
    ensures
        r == pid_in_listing(listing@, port),
{
    let mark = port_mark_of(port);
    let feed: [u8; 1] = [10];
    assert(feed@ =~= seq![10u8]);
    let mut start: usize = 0;
    assert(listing@.subrange(0, listing@.len() as int) =~= listing@);
    while start < listing.len()
        invariant
            start <= listing@.len(),
            mark@ == port_mark(port),
            feed@ == seq![10u8],
            pid_in_listing(listing@, port) == pid_in_listing(
                listing@.subrange(start as int, listing@.len() as int),
                port,
            ),
        decreases listing.len() - start,
    {
        let rest = slice_subrange(listing, start, listing.len());
        proof {
            lemma_search_is_first(rest@, seq![10u8], 0);
        }
        let end = match find(rest, feed.as_slice()) {
            Some(at) => at,
            None => rest.len(),
        };
        let line = if 0 < end && end < rest.len() && rest[end - 1] == 13 {
            slice_subrange(rest, 0, end - 1)
        } else {
            slice_subrange(rest, 0, end)
        };
        assert(line@ == first_line(rest@));
        match pid_from_line(line, mark.as_slice(), port) {
            Some(answer) => {
                return answer;
            },
            None => {},
        }
        if end == rest.len() {
            assert(after_first_line(rest@) =~= Seq::<u8>::empty());
            assert(pid_in_listing(Seq::<u8>::empty(), port) is None);
            assert(pid_in_listing(rest@, port) is None);
            return None;
        }
        assert(after_first_line(rest@) =~= listing@.subrange(
            start + end + 1,
            listing@.len() as int,
        ));
        start = start + end + 1;
    }
    assert(listing@.subrange(start as int, listing@.len() as int) =~= Seq::<u8>::empty());
    None
}

/// Whether `part` is one unbroken part of `text`.
pub open spec fn part_of(part: Seq<char>, text: Seq<char>) -> bool {
    exists|from: int, to: int|
        0 <= from <= to <= text.len() && part == #[trigger] text.subrange(from, to)
}

/// A text without the white space at its two ends, as `str::trim` gives it.
pub uninterp spec fn trimmed(text: Seq<char>) -> Seq<char>;

/// Strips the white space from both ends of a text: `str::trim`, whose
/// result is copied into a `String`. What counts as white space is for the
/// standard library to say: the result is known here by name, and as one
/// unbroken part of the text.
#[verifier::external_body]
fn trim(text: &str) -> (stripped: String)
    ensures
        stripped@ == trimmed(text@),
        part_of(stripped@, text@),
{
    text.trim().to_string()
}

/// The name shown for a process whose name could not be had.
pub fn unnamed() -> (name: String)
    ensures
        name@ == "<unnamed>"@,
{
    "<unnamed>".to_owned()
}

/// The name to show for a process: the name that was found for it, or
/// `<unnamed>` where none was found.
pub fn name_or_unnamed(name: Option<String>) -> (shown: String)
    ensures
        shown@ == match name {
            Some(found) => found@,
            None => "<unnamed>"@,
        },
{
    match name {
        Some(found) => found,
        None => unnamed(),
    }
}

/// The name of a process, from what the system has on record for it: the
/// record without the white space at its ends, or `<unnamed>` where the
/// record could not be read.
pub fn process_name(record: Option<&str>) -> (name: String)
    ensures
        name@ == match record {
            Some(text) => trimmed(text@),
            None => "<unnamed>"@,
        },
        record matches Some(text) ==> part_of(name@, text@),
{
    match record {
        Some(text) => name_or_unnamed(Some(trim(text))),
        None => name_or_unnamed(None),
    }
}

} // verus!
