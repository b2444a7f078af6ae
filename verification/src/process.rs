//! Whether the assistant's CLI is running, read from a process listing.
//!
//! The listing holds one process id per line for each process whose name contains
//! the CLI's command; the CLI counts as running when any line, trimmed, reads as a
//! process id (an unsigned 32-bit number).

use vstd::prelude::*;
use vstd::string::*;
use crate::text::{parse_u64, unsigned_value};

verus! {

/// A character with the Unicode `White_Space` property, as `char::is_whitespace` reads it.
pub open spec fn is_space(c: char) -> bool {
    ||| '\t' <= c <= '\r'
    ||| c == ' '
    ||| c == '\u{85}'
    ||| c == '\u{a0}'
    ||| c == '\u{1680}'
    ||| '\u{2000}' <= c <= '\u{200a}'
    ||| c == '\u{2028}'
    ||| c == '\u{2029}'
    ||| c == '\u{202f}'
    ||| c == '\u{205f}'
    ||| c == '\u{3000}'
}

/// `s` without the white space at its ends.
pub open spec fn trimmed(s: Seq<char>) -> Seq<char>
    decreases s.len(),
{
    if s.len() > 0 && is_space(s[0]) {
        trimmed(s.drop_first())
    } else if s.len() > 0 && is_space(s.last()) {
        trimmed(s.drop_last())
    } else {
        s
    }
}

/// `s[a..b]` is one line of `s`: it runs between line breaks, or the text's ends.
pub open spec fn is_line(s: Seq<char>, a: int, b: int) -> bool {
    &&& 0 <= a <= b <= s.len()
    &&& (a == 0 || s[a - 1] == '\n')
    &&& (b == s.len() || s[b] == '\n')
    &&& forall|k: int| a <= k < b ==> s[k] != '\n'
}

/// A line that, trimmed, reads as a 32-bit process id.
pub open spec fn is_id_line(s: Seq<char>, a: int, b: int) -> bool {
    is_line(s, a, b) && unsigned_value(trimmed(s.subrange(a, b)), u32::MAX as int) is Some
}

/// Whether `c` is white space.
fn is_space_char(c: char) -> (r: bool)
    ensures
        r == is_space(c),
{
    ('\t' <= c && c <= '\r') || c == ' ' || c == '\u{85}' || c == '\u{a0}' || c == '\u{1680}'
        || ('\u{2000}' <= c && c <= '\u{200a}') || c == '\u{2028}' || c == '\u{2029}'
        || c == '\u{202f}' || c == '\u{205f}' || c == '\u{3000}'
}

/// `s` without the white space at its ends.
pub fn trim_text(s: &str) -> (r: &str)
    ensures
        r@ == trimmed(s@),
{
    let n = s.unicode_len();
    assert(s@.subrange(0, n as int) =~= s@);
    let mut a: usize = 0;
    while a < n && is_space_char(s.get_char(a))
        invariant
            n == s@.len(),
            a <= n,
            trimmed(s@) == trimmed(s@.subrange(a as int, n as int)),
        decreases n - a,
    {
        assert(s@.subrange(a as int, n as int).drop_first() =~= s@.subrange(a + 1, n as int));
        a += 1;
    }
    let mut b: usize = n;
    while b > a && is_space_char(s.get_char(b - 1))
        invariant
            n == s@.len(),
            a <= b <= n,
            a < b ==> !is_space(s@[a as int]),
            trimmed(s@) == trimmed(s@.subrange(a as int, b as int)),
        decreases b - a,
    {
        assert(s@.subrange(a as int, b as int).drop_last() =~= s@.subrange(a as int, b - 1));
        b -= 1;
    }
    s.substring_char(a, b)
}

/// Whether the text reads, trimmed, as a 32-bit process id.
fn is_process_id(s: &str) -> (r: bool)
    ensures
        r == (unsigned_value(trimmed(s@), u32::MAX as int) is Some),
{
    let t = trim_text(s);
    match parse_u64(t) {
        Some(v) => v <= 0xFFFF_FFFF,
        None => false,
    }
}

/// Whether some line of the process listing `output`, trimmed, is a process id.
pub fn lists_process_id(output: &str) -> (r: bool)
    ensures
        r == exists|a: int, b: int| is_id_line(output@, a, b),
{
    let ghost s = output@;
    let n = output.unicode_len();
    let mut start: usize = 0;
    let mut i: usize = 0;
    while i < n
        invariant
            s == output@,
            n == s.len(),
            start <= i <= n,
            start == 0 || s[start - 1] == '\n',
            forall|k: int| start <= k < i ==> s[k] != '\n',
            forall|a: int, b: int| is_line(s, a, b) && b < start ==> !is_id_line(s, a, b),
        decreases n - i,
    {
        if output.get_char(i) == '\n' {
            assert(is_line(s, start as int, i as int));
            if is_process_id(output.substring_char(start, i)) {
                assert(is_id_line(s, start as int, i as int));
                return true;
            }
            assert forall|a: int, b: int| is_line(s, a, b) && b < i + 1 implies !is_id_line(s, a, b) by {
                if b >= start {
                    if b < i {
                        assert(s[b] != '\n');
                    }
                    assert(b == i);
                    if a < start {
                        assert(s[start - 1] == '\n');
                    } else if a > start {
                        assert(s[a - 1] != '\n');
                    }
                }
            }
            start = i + 1;
        }
        i += 1;
    }
    assert(is_line(s, start as int, n as int));
    let last = is_process_id(output.substring_char(start, n));
    if last {
        assert(is_id_line(s, start as int, n as int));
    }
    if !last {
        assert forall|a: int, b: int| is_line(s, a, b) implies !is_id_line(s, a, b) by {
            if b >= start {
                if b < n {
                    assert(s[b] != '\n');
                }
                if a < start {
                    assert(s[start - 1] == '\n');
                } else if a > start {
                    assert(s[a - 1] != '\n');
                }
            }
        }
    }
    last
}

} // verus!
