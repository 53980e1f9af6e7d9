//! Addresses and ports as typed by the user.

use vstd::prelude::*;
use vstd::string::*;
use crate::text::chars_of;
use crate::PORT;

verus! {

/// Whether `c` is one of the ten decimal digits.
pub open spec fn is_digit(c: char) -> bool {
    '0' <= c <= '9'
}

/// The number that a run of decimal digits stands for.
pub open spec fn decimal(digits: Seq<char>) -> nat
    decreases digits.len(),
{
    if digits.len() == 0 {
        0
    } else {
        (10 * decimal(digits.drop_last()) + (digits.last() as int - '0' as int)) as nat
    }
}

/// The digits of a port as written: one leading `+` does not count.
pub open spec fn unsigned(s: Seq<char>) -> Seq<char> {
    if s.len() > 0 && s[0] == '+' {
        s.skip(1)
    } else {
        s
    }
}

/// The port that `s` names: at least one decimal digit and nothing else,
/// but for one `+` in front, with a value that a port can have.
pub open spec fn spec_parse_port(s: Seq<char>) -> Option<u16> {
    let digits = unsigned(s);
    if digits.len() > 0 && (forall|i: int| 0 <= i < digits.len() ==> is_digit(#[trigger] digits[i]))
        && decimal(digits) <= u16::MAX {
        Some(decimal(digits) as u16)
    } else {
        None
    }
}

/// The host and port that `s` names. The port stands behind the last `:`;
/// without a `:` the whole of `s` is the host and the port is the default.
pub open spec fn spec_parse_addr(s: Seq<char>) -> Option<(Seq<char>, u16)> {
    match s.index_of_last(':') {
        Some(i) => match spec_parse_port(s.skip(i + 1)) {
            Some(port) => Some((s.take(i), port)),
            None => None,
        },
        None => Some((s, PORT)),
    }
}

/// The port a server listens on, given the argument it was started with, if
/// any: the port the argument names, or the default where there is no
/// argument or it names no port.
pub open spec fn spec_port_or_default(arg: Option<Seq<char>>) -> u16 {
    match arg {
        Some(s) => match spec_parse_port(s) {
            Some(port) => port,
            None => PORT,
        },
        None => PORT,
    }
}

/// A longer run of digits stands for no smaller a number.
proof fn lemma_decimal_grows(digits: Seq<char>, k: int)
    requires
        0 <= k <= digits.len(),
        forall|i: int| 0 <= i < digits.len() ==> is_digit(#[trigger] digits[i]),
    ensures
        decimal(digits.take(k)) <= decimal(digits),
    decreases digits.len() - k,
{
    if k == digits.len() {
        assert(digits.take(k) =~= digits);
    } else {
        lemma_decimal_grows(digits, k + 1);
        let longer = digits.take(k + 1);
        assert(longer.drop_last() =~= digits.take(k));
        assert(is_digit(digits[k]));
        assert(longer.last() == digits[k]);
    }
}

/// Reads the port written in `text` from position `from` to the end.
fn port_from(text: &Vec<char>, from: usize) -> (r: Option<u16>)
    requires
        from <= text@.len(),
    ensures
        r == spec_parse_port(text@.skip(from as int)),
{
    let ghost s = text@.skip(from as int);
    let mut start: usize = from;
    if start < text.len() && text[start] == '+' {
        start = start + 1;
    }
    let ghost digits = unsigned(s);
    assert(digits =~= text@.skip(start as int));
    if start == text.len() {
        return None;
    }
    let mut value: u32 = 0;
    let mut i: usize = start;
    while i < text.len()
        invariant
            start <= i <= text@.len(),
            digits == text@.skip(start as int),
            digits == unsigned(text@.skip(from as int)),
            digits.len() > 0,
            forall|j: int| 0 <= j < i - start ==> is_digit(#[trigger] digits[j]),
            value == decimal(digits.take(i - start)),
            value <= u16::MAX,
        decreases text@.len() - i,
    {
        let c = text[i];
        assert(c == digits[i - start]);
        if !(c >= '0' && c <= '9') {
            return None;
        }
        let d: u32 = c as u32 - '0' as u32;
        let next: u32 = value * 10 + d;
        proof {
            let longer = digits.take(i + 1 - start);
            assert(longer.drop_last() =~= digits.take(i - start));
            assert(longer.last() == c);
            assert(next == decimal(longer));
        }
        if next > 65535 {
            proof {
                if forall|j: int| 0 <= j < digits.len() ==> is_digit(#[trigger] digits[j]) {
                    lemma_decimal_grows(digits, i + 1 - start);
                }
            }
            return None;
        }
        value = next;
        i = i + 1;
    }
    assert(digits.take(i - start) =~= digits);
    Some(value as u16)
}

/// Reads a port: decimal digits, with or without one `+` in front.
pub fn parse_port(s: &str) -> (r: Option<u16>)
    ensures
        r == spec_parse_port(s@),
{
    let text = chars_of(s);
    assert(text@.skip(0) =~= s@);
    port_from(&text, 0)
}

/// The port a server listens on, and whether an argument was given that
/// names no port.
pub fn port_or_default(arg: Option<&str>) -> (r: (u16, bool))
    ensures
        r.0 == spec_port_or_default(
            match arg {
                Some(s) => Some(s@),
                None => None,
            },
        ),
        r.1 == (arg matches Some(s) && spec_parse_port(s@) is None),
{
    match arg {
        Some(s) => match parse_port(s) {
            Some(port) => (port, false),
            None => (PORT, true),
        },
        None => (PORT, false),
    }
}

/// Splits what the user typed for the server into host and port. It is
/// `None` where a port is written that is none.
pub fn parse_addr(input: &str) -> (r: Option<(String, u16)>)
    ensures
        match r {
            Some((host, port)) => spec_parse_addr(input@) == Some((host@, port)),
            None => spec_parse_addr(input@) is None,
        },
{
    let text = chars_of(input);
    let mut i: usize = text.len();
    while i > 0 && text[i - 1] != ':'
        invariant
            i <= text@.len(),
            forall|j: int| i <= j < text@.len() ==> text@[j] != ':',
        decreases i,
    {
        i = i - 1;
    }
    proof {
        text@.index_of_last_ensures(':');
    }
    if i == 0 {
        assert(text@.index_of_last(':') is None) by {
            if text@.index_of_last(':') is Some {
                let k: int = text@.index_of_last(':').unwrap();
                assert(text@[k] == ':');
            }
        }
        return Some((input.to_owned(), PORT));
    }
    let colon: usize = i - 1;
    assert(text@.index_of_last(':') == Some(colon as int)) by {
        assert(text@[colon as int] == ':');
        assert(text@.contains(':'));
        let k: int = text@.index_of_last(':').unwrap();
        if k < colon {
            assert(text@[colon as int] != ':');
        }
    }
    match port_from(&text, i) {
        Some(port) => {
            let host = input.substring_char(0, colon);
            assert(host@ =~= input@.take(colon as int));
            Some((host.to_owned(), port))
        },
        None => None,
    }
}

} // verus!
