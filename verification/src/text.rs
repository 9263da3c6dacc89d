//! How numbers and addresses are written, and how a written address is read.

use crate::addr::Ipv4Addr;
use vstd::prelude::*;
use vstd::string::*;

verus! {

/// The character that writes the digit `d`.
pub open spec fn digit(d: int) -> char
    recommends
        0 <= d < 10,
{
    ('0' as int + d) as char
}

/// Whether `c` is one of the ten decimal digits.
pub open spec fn is_digit(c: char) -> bool {
    '0' <= c <= '9'
}

/// The number that the digit `c` writes.
pub open spec fn digit_value(c: char) -> int
    recommends
        is_digit(c),
{
    c as int - '0' as int
}

/// A number in decimal, without sign and without leading zeros.
pub open spec fn decimal(n: nat) -> Seq<char>
    decreases n,
{
    if n < 10 {
        seq![digit(n as int)]
    } else {
        decimal(n / 10).push(digit((n % 10) as int))
    }
}

/// An address in dotted decimal: `10.0.0.1`.
pub open spec fn dotted(ip: Ipv4Addr) -> Seq<char> {
    decimal(ip.0 as nat) + seq!['.'] + decimal(ip.1 as nat) + seq!['.'] + decimal(ip.2 as nat)
        + seq!['.'] + decimal(ip.3 as nat)
}

/// The address that `text` writes, if it writes one: the texts that are read
/// as an address are exactly those that [`dotted`] produces.
pub open spec fn literal_address(text: Seq<char>) -> Option<Ipv4Addr> {
    if exists|ip: Ipv4Addr| dotted(ip) == text {
        Some(choose|ip: Ipv4Addr| dotted(ip) == text)
    } else {
        None
    }
}

/// The octet that `text` writes: one to three digits, no leading zero in
/// front of another digit, at most 255.
spec fn octet_value(text: Seq<char>) -> Option<u8> {
    if text.len() == 1 && is_digit(text[0]) {
        Some(digit_value(text[0]) as u8)
    } else if text.len() == 2 && is_digit(text[0]) && is_digit(text[1]) && text[0] != '0' {
        Some((10 * digit_value(text[0]) + digit_value(text[1])) as u8)
    } else if text.len() == 3 && is_digit(text[0]) && is_digit(text[1]) && is_digit(text[2])
        && text[0] != '0' && 100 * digit_value(text[0]) + 10 * digit_value(text[1]) + digit_value(
        text[2],
    ) <= 255 {
        Some((100 * digit_value(text[0]) + 10 * digit_value(text[1]) + digit_value(text[2])) as u8)
    } else {
        None
    }
}

/// The position of the first `mark` at or after `from`, or the length of the
/// text where there is none.
spec fn first_mark(text: Seq<char>, mark: char, from: int) -> int
    decreases text.len() - from,
{
    if from >= text.len() {
        text.len() as int
    } else if text[from] == mark {
        from
    } else {
        first_mark(text, mark, from + 1)
    }
}

/// Reads four octets separated by three dots.
spec fn scan(text: Seq<char>) -> Option<Ipv4Addr> {
    let len = text.len() as int;
    let dot_a = first_mark(text, '.', 0);
    let dot_b = first_mark(text, '.', dot_a + 1);
    let dot_c = first_mark(text, '.', dot_b + 1);
    if dot_c < len {
        match (
            octet_value(text.subrange(0, dot_a)),
            octet_value(text.subrange(dot_a + 1, dot_b)),
            octet_value(text.subrange(dot_b + 1, dot_c)),
            octet_value(text.subrange(dot_c + 1, len)),
        ) {
            (Some(a), Some(b), Some(c), Some(d)) => Some(Ipv4Addr(a, b, c, d)),
            _ => None,
        }
    } else {
        None
    }
}

/// Where `first_mark` points: at a `mark` with none between `from` and it, or
/// at the end of a text that has none from `from` on.
proof fn lemma_first_mark_bounds(text: Seq<char>, mark: char, from: int)
    requires
        0 <= from,
    ensures
        from <= first_mark(text, mark, from) || first_mark(text, mark, from) == text.len(),
        first_mark(text, mark, from) <= text.len(),
        first_mark(text, mark, from) < text.len() ==> text[first_mark(text, mark, from)] == mark,
        forall|j: int| from <= j < first_mark(text, mark, from) ==> text[j] != mark,
    decreases text.len() - from,
{
    if from < text.len() && text[from] != mark {
        lemma_first_mark_bounds(text, mark, from + 1);
    }
}

/// A position with a `mark`, or the end of the text, with no `mark` between
/// `from` and it, is where `first_mark` points.
proof fn lemma_first_mark_is(text: Seq<char>, mark: char, from: int, at: int)
    requires
        0 <= from <= at <= text.len(),
        forall|j: int| from <= j < at ==> text[j] != mark,
        at == text.len() || text[at] == mark,
    ensures
        first_mark(text, mark, from) == at,
    decreases at - from,
{
    if from < at {
        lemma_first_mark_is(text, mark, from + 1, at);
    }
}

/// The decimal form of an octet: its digits, and that it is read back.
proof fn lemma_octet_text(v: u8)
    ensures
        1 <= decimal(v as nat).len() <= 3,
        forall|j: int| 0 <= j < decimal(v as nat).len() ==> is_digit(#[trigger] decimal(v as nat)[j]),
        octet_value(decimal(v as nat)) == Some(v),
{
    let n = v as nat;
    reveal_with_fuel(decimal, 3);
    if n < 10 {
        assert(decimal(n) =~= seq![digit(n as int)]);
    } else if n < 100 {
        assert(decimal(n) =~= seq![digit((n / 10) as int), digit((n % 10) as int)]);
    } else {
        assert(n / 10 / 10 < 10);
        assert(decimal(n) =~= seq![
            digit((n / 10 / 10) as int),
            digit((n / 10 % 10) as int),
            digit((n % 10) as int),
        ]);
    }
}

/// A text that is read as an octet is the decimal form of that octet.
proof fn lemma_octet_value(text: Seq<char>)
    requires
        octet_value(text) is Some,
    ensures
        decimal(octet_value(text).unwrap() as nat) == text,
{
    reveal_with_fuel(decimal, 3);
    let n = octet_value(text).unwrap() as nat;
    if text.len() == 1 {
        assert(decimal(n) =~= text);
    } else if text.len() == 2 {
        assert(n / 10 == digit_value(text[0]));
        assert(decimal(n) =~= text);
    } else {
        assert(n / 10 == 10 * digit_value(text[0]) + digit_value(text[1]));
        assert(n / 10 / 10 == digit_value(text[0]));
        assert(decimal(n) =~= text);
    }
}

/// What `scan` accepts is the dotted form of what it returns.
proof fn lemma_scan_sound(text: Seq<char>)
    requires
        scan(text) is Some,
    ensures
        dotted(scan(text).unwrap()) == text,
{
    let len = text.len() as int;
    let dot_a = first_mark(text, '.', 0);
    let dot_b = first_mark(text, '.', dot_a + 1);
    let dot_c = first_mark(text, '.', dot_b + 1);
    lemma_first_mark_bounds(text, '.', 0);
    lemma_first_mark_bounds(text, '.', dot_a + 1);
    lemma_first_mark_bounds(text, '.', dot_b + 1);
    lemma_octet_value(text.subrange(0, dot_a));
    lemma_octet_value(text.subrange(dot_a + 1, dot_b));
    lemma_octet_value(text.subrange(dot_b + 1, dot_c));
    lemma_octet_value(text.subrange(dot_c + 1, len));
    assert(dotted(scan(text).unwrap()) =~= text);
}

/// `scan` reads every dotted form back.
proof fn lemma_scan_complete(ip: Ipv4Addr)
    ensures
        scan(dotted(ip)) == Some(ip),
{
    let text = dotted(ip);
    let len = text.len() as int;
    let a = decimal(ip.0 as nat);
    let b = decimal(ip.1 as nat);
    let c = decimal(ip.2 as nat);
    let d = decimal(ip.3 as nat);
    lemma_octet_text(ip.0);
    lemma_octet_text(ip.1);
    lemma_octet_text(ip.2);
    lemma_octet_text(ip.3);
    let end_a = a.len() as int;
    let end_b = end_a + 1 + b.len();
    let end_c = end_b + 1 + c.len();
    assert(len == end_c + 1 + d.len());
    assert forall|j: int| 0 <= j < end_a implies text[j] != '.' by {
        assert(text[j] == a[j]);
    }
    assert forall|j: int| end_a + 1 <= j < end_b implies text[j] != '.' by {
        assert(text[j] == b[j - end_a - 1]);
    }
    assert forall|j: int| end_b + 1 <= j < end_c implies text[j] != '.' by {
        assert(text[j] == c[j - end_b - 1]);
    }
    lemma_first_mark_is(text, '.', 0, end_a);
    lemma_first_mark_is(text, '.', end_a + 1, end_b);
    lemma_first_mark_is(text, '.', end_b + 1, end_c);
    assert(text.subrange(0, end_a) =~= a);
    assert(text.subrange(end_a + 1, end_b) =~= b);
    assert(text.subrange(end_b + 1, end_c) =~= c);
    assert(text.subrange(end_c + 1, len) =~= d);
}

/// `scan` computes [`literal_address`].
proof fn lemma_scan_is_literal(text: Seq<char>)
    ensures
        scan(text) == literal_address(text),
{
    if scan(text) is Some {
        lemma_scan_sound(text);
        let found = scan(text).unwrap();
        let chosen = choose|ip: Ipv4Addr| dotted(ip) == text;
        lemma_scan_complete(chosen);
    } else {
        assert forall|ip: Ipv4Addr| dotted(ip) != text by {
            lemma_scan_complete(ip);
        }
    }
}

/// Writing an address and reading the text gives the address back.
pub proof fn lemma_literal_round_trip(ip: Ipv4Addr)
    ensures
        literal_address(dotted(ip)) == Some(ip),
{
    lemma_scan_is_literal(dotted(ip));
    lemma_scan_complete(ip);
}

/// Two addresses that are written alike are the same address.
pub proof fn lemma_dotted_injective(p: Ipv4Addr, q: Ipv4Addr)
    requires
        dotted(p) == dotted(q),
    ensures
        p == q,
{
    lemma_scan_complete(p);
    lemma_scan_complete(q);
}

/// A text that is read as an address is the dotted form of that address.
pub proof fn lemma_literal_is_dotted(text: Seq<char>)
    requires
        literal_address(text) is Some,
    ensures
        dotted(literal_address(text).unwrap()) == text,
{
}

/// The characters of a string, one by one.
pub fn to_chars(text: &str) -> (chars: Vec<char>)
    ensures
        chars@ == text@,
{
    let mut chars: Vec<char> = Vec::new();
    for c in it: text.chars()
        invariant
            it.seq() == text@,
            chars@ == it.seq().take(it.index()),
    {
        chars.push(c);
        assert(chars@ =~= it.seq().take(it.index() + 1));
    }
    assert(chars@ =~= text@);
    chars
}

/// The one-character text of a digit.
fn digit_text(d: u32) -> (text: &'static str)
    requires
        d < 10,
    ensures
        text@ == seq![digit(d as int)],
{
    proof {
        reveal_strlit("0");
        reveal_strlit("1");
        reveal_strlit("2");
        reveal_strlit("3");
        reveal_strlit("4");
        reveal_strlit("5");
        reveal_strlit("6");
        reveal_strlit("7");
        reveal_strlit("8");
        reveal_strlit("9");
    }
    let text = match d {
        0 => "0",
        1 => "1",
        2 => "2",
        3 => "3",
        4 => "4",
        5 => "5",
        6 => "6",
        7 => "7",
        8 => "8",
        _ => "9",
    };
    assert(text@ =~= seq![digit(d as int)]);
    text
}

/// Appends `n` in decimal to `out`.
pub fn push_decimal(out: &mut String, n: u32)
    ensures
        final(out)@ == old(out)@ + decimal(n as nat),
    decreases n,
{
    if n >= 10 {
        push_decimal(out, n / 10);
    }
    out.append(digit_text(n % 10));
    assert(out@ =~= old(out)@ + decimal(n as nat));
}

/// Appends `ip` in dotted decimal to `out`.
pub fn push_address(out: &mut String, ip: Ipv4Addr)
    ensures
        final(out)@ == old(out)@ + dotted(ip),
{
    proof {
        reveal_strlit(".");
    }
    push_decimal(out, ip.0 as u32);
    out.append(".");
    push_decimal(out, ip.1 as u32);
    out.append(".");
    push_decimal(out, ip.2 as u32);
    out.append(".");
    push_decimal(out, ip.3 as u32);
    assert(out@ =~= old(out)@ + dotted(ip));
}

impl Ipv4Addr {
    /// The address in dotted decimal.
    pub fn to_text(&self) -> (text: String)
        ensures
            text@ == dotted(*self),
    {
        let mut text = String::new();
        push_address(&mut text, *self);
        assert(text@ =~= dotted(*self));
        text
    }
}

/// The number that a digit writes; nothing for any other character.
fn read_digit(c: char) -> (value: Option<u32>)
    ensures
        is_digit(c) ==> value == Some(digit_value(c) as u32),
        !is_digit(c) ==> value is None,
{
    if '0' <= c && c <= '9' {
        let code: u32 = c as u32;
        Some(code - 48)
    } else {
        None
    }
}

/// Reads the characters from `from` up to `to` as one octet.
fn read_octet(chars: &Vec<char>, from: usize, to: usize) -> (value: Option<u8>)
    requires
        from <= to <= chars@.len(),
    ensures
        value == octet_value(chars@.subrange(from as int, to as int)),
{
    let ghost text = chars@.subrange(from as int, to as int);
    let len: usize = to - from;
    if len == 0 || len > 3 {
        return None;
    }
    assert(text[0] == chars@[from as int]);
    let first: u32 = match read_digit(chars[from]) {
        Some(d) => d,
        None => {
            return None;
        },
    };
    if len == 1 {
        return Some(first as u8);
    }
    if first == 0 {
        return None;
    }
    assert(text[1] == chars@[from + 1]);
    let second: u32 = match read_digit(chars[from + 1]) {
        Some(d) => d,
        None => {
            return None;
        },
    };
    if len == 2 {
        return Some((10 * first + second) as u8);
    }
    assert(text[2] == chars@[from + 2]);
    let third: u32 = match read_digit(chars[from + 2]) {
        Some(d) => d,
        None => {
            return None;
        },
    };
    let value: u32 = 100 * first + 10 * second + third;
    if value <= 255 {
        Some(value as u8)
    } else {
        None
    }
}

/// The position of the first `mark` from `from` up to `to`, or `to`. The
/// position is the one that `first_mark` gives in the text from `start` up to
/// `to`.
fn find_mark(
    chars: &Vec<char>,
    mark: char,
    from: usize,
    to: usize,
    Ghost(start): Ghost<int>,
) -> (at: usize)
    requires
        start <= from <= to <= chars@.len(),
        0 <= start,
    ensures
        from <= at <= to,
        at - start == first_mark(chars@.subrange(start, to as int), mark, from - start),
{
    let ghost text = chars@.subrange(start, to as int);
    let mut at: usize = from;
    while at < to && chars[at] != mark
        invariant
            start <= from <= at <= to <= chars@.len(),
            text == chars@.subrange(start, to as int),
            forall|j: int| from <= j < at ==> chars@[j] != mark,
        decreases to - at,
    {
        at += 1;
    }
    proof {
        assert forall|j: int| from - start <= j < at - start implies text[j] != mark by {
            assert(text[j] == chars@[j + start]);
        }
        if at < to {
            assert(text[at - start] == chars@[at as int]);
        }
        lemma_first_mark_is(text, mark, from - start, at - start);
    }
    at
}

/// Reads the characters from `from` up to `to` as an address.
pub(crate) fn scan_address(chars: &Vec<char>, from: usize, to: usize) -> (found: Option<Ipv4Addr>)
    requires
        from <= to <= chars@.len(),
    ensures
        found == literal_address(chars@.subrange(from as int, to as int)),
{
    let ghost text = chars@.subrange(from as int, to as int);
    proof {
        lemma_scan_is_literal(text);
        lemma_first_mark_bounds(text, '.', 0);
    }
    let dot_a: usize = find_mark(chars, '.', from, to, Ghost(from as int));
    if dot_a == to {
        return None;
    }
    let dot_b: usize = find_mark(chars, '.', dot_a + 1, to, Ghost(from as int));
    if dot_b == to {
        return None;
    }
    let dot_c: usize = find_mark(chars, '.', dot_b + 1, to, Ghost(from as int));
    if dot_c == to {
        return None;
    }
    proof {
        assert(text.subrange(0, dot_a - from) =~= chars@.subrange(from as int, dot_a as int));
        assert(text.subrange(dot_a + 1 - from, dot_b - from) =~= chars@.subrange(dot_a + 1, dot_b as int));
        assert(text.subrange(dot_b + 1 - from, dot_c - from) =~= chars@.subrange(dot_b + 1, dot_c as int));
        assert(text.subrange(dot_c + 1 - from, text.len() as int) =~= chars@.subrange(
            dot_c + 1,
            to as int,
        ));
    }
    let a = read_octet(chars, from, dot_a);
    let b = read_octet(chars, dot_a + 1, dot_b);
    let c = read_octet(chars, dot_b + 1, dot_c);
    let d = read_octet(chars, dot_c + 1, to);
    match (a, b, c, d) {
        (Some(a), Some(b), Some(c), Some(d)) => Some(Ipv4Addr(a, b, c, d)),
        _ => None,
    }
}

/// Reads `text` as an address in dotted decimal.
///
/// The texts accepted are exactly the ones that [`Ipv4Addr::to_text`] writes:
/// four numbers from 0 to 255 separated by dots, none with a leading zero,
/// and nothing before, between or after them.
pub fn parse_address(text: &str) -> (found: Option<Ipv4Addr>)
    ensures
        found == literal_address(text@),
        found matches Some(ip) ==> dotted(ip) == text@,
        found is None ==> forall|ip: Ipv4Addr| dotted(ip) != text@,
{
    let chars = to_chars(text);
    assert(chars@.subrange(0, chars@.len() as int) =~= text@);
    scan_address(&chars, 0, chars.len())
}

} // verus!
