//! The grammar of the text header, stated over its characters.
use vstd::prelude::*;
use crate::v1::error::ParseError;
use crate::v1::model::AddressesView;

verus! {

/// `PROXY`.
pub open spec fn prefix_text() -> Seq<char> {
    seq!['P', 'R', 'O', 'X', 'Y']
}

/// The protocol token of the addresses.
pub open spec fn protocol_text(a: AddressesView) -> Seq<char> {
    match a {
        AddressesView::Tcp4(..) => seq!['T', 'C', 'P', '4'],
        AddressesView::Tcp6(..) => seq!['T', 'C', 'P', '6'],
        AddressesView::Unknown => seq!['U', 'N', 'K', 'N', 'O', 'W', 'N'],
    }
}

/// The text between the protocol and the final `\r\n` of a header `t` whose
/// protocol has `plen` characters, without a leading space.
pub open spec fn address_part(t: Seq<char>, plen: nat) -> Seq<char> {
    let mid = t.subrange(6 + plen as int, t.len() - 2);
    if mid.len() > 0 && mid[0] == ' ' {
        mid.drop_first()
    } else {
        mid
    }
}

/// Index of the first `c` in `t`, or the length of `t` if there is none.
pub open spec fn find(t: Seq<char>, c: char) -> nat
    decreases t.len(),
{
    if t.len() == 0 {
        0
    } else if t[0] == c {
        0
    } else {
        1 + find(t.drop_first(), c)
    }
}

/// Index of the first `\r\n` in `s` at or after `from`, or -1 if there is none.
pub open spec fn find_terminator(s: Seq<char>, from: int) -> int
    decreases s.len() - from,
{
    if from < 0 || from + 1 >= s.len() {
        -1
    } else if s[from] == '\r' && s[from + 1] == '\n' {
        from
    } else {
        find_terminator(s, from + 1)
    }
}

/// The value of a digit in the given radix (10 or 16), or -1.
pub open spec fn digit_value(c: char, radix: int) -> int {
    if '0' <= c && c <= '9' {
        c as int - '0' as int
    } else if radix == 16 && 'a' <= c && c <= 'f' {
        c as int - 'a' as int + 10
    } else if radix == 16 && 'A' <= c && c <= 'F' {
        c as int - 'A' as int + 10
    } else {
        -1
    }
}

/// The number that the digits `t` write in the given radix.
pub open spec fn number_value(t: Seq<char>, radix: int) -> int
    decreases t.len(),
{
    if t.len() == 0 {
        0
    } else {
        number_value(t.drop_last(), radix) * radix + digit_value(t.last(), radix)
    }
}

/// `t` is 1 to `max` digits of the radix; a decimal number has no leading zero
/// unless it is `0` itself.
pub open spec fn is_number(t: Seq<char>, radix: int, max: nat) -> bool {
    &&& 1 <= t.len() <= max
    &&& forall|i: int| 0 <= i < t.len() ==> digit_value(#[trigger] t[i], radix) >= 0
    &&& (radix == 10 && t[0] == '0' ==> t.len() == 1)
}

/// The value of one piece of an address: a decimal octet, or a group of up
/// to four hex digits.
pub open spec fn piece_value(t: Seq<char>, hex: bool) -> Option<int> {
    if hex {
        if is_number(t, 16, 4) {
            Some(number_value(t, 16))
        } else {
            None
        }
    } else if is_number(t, 10, 3) && number_value(t, 10) <= 255 {
        Some(number_value(t, 10))
    } else {
        None
    }
}

/// `t` read as exactly `n` pieces separated by `sep`.
pub open spec fn pieces(t: Seq<char>, n: nat, sep: char, hex: bool) -> Option<Seq<int>>
    decreases n,
{
    let i = find(t, sep);
    if n == 0 {
        None
    } else if n == 1 {
        if i == t.len() {
            match piece_value(t, hex) {
                Some(v) => Some(seq![v]),
                None => None,
            }
        } else {
            None
        }
    } else if i == t.len() {
        None
    } else {
        match piece_value(t.subrange(0, i as int), hex) {
            None => None,
            Some(v) => match pieces(t.subrange(i as int + 1, t.len() as int), (n - 1) as nat, sep, hex) {
                Some(r) => Some(seq![v] + r),
                None => None,
            },
        }
    }
}

/// The octets of an IPv4 literal (dotted quad).
pub open spec fn ipv4_value(t: Seq<char>) -> Option<Seq<int>> {
    pieces(t, 4, '.', false)
}

/// Index of the first `::` in `t`, or the length of `t` if there is none.
pub open spec fn find_double_colon(t: Seq<char>) -> nat
    decreases t.len(),
{
    if t.len() < 2 {
        t.len()
    } else if t[0] == ':' && t[1] == ':' {
        0
    } else {
        1 + find_double_colon(t.drop_first())
    }
}

/// `t` read as one to `n` hex groups separated by `:`.
pub open spec fn groups(t: Seq<char>, n: nat) -> Option<Seq<int>>
    decreases n,
{
    let i = find(t, ':');
    if n == 0 {
        None
    } else {
        match piece_value(t.subrange(0, i as int), true) {
            None => None,
            Some(v) => if i == t.len() {
                Some(seq![v])
            } else {
                match groups(t.subrange(i as int + 1, t.len() as int), (n - 1) as nat) {
                    Some(r) => Some(seq![v] + r),
                    None => None,
                }
            },
        }
    }
}

/// Hex groups on one side of `::`: none if the side is empty.
pub open spec fn side_groups(t: Seq<char>) -> Option<Seq<int>> {
    if t.len() == 0 {
        Some(seq![])
    } else {
        groups(t, 7)
    }
}

/// The segments of an IPv6 literal: eight colon-separated hex groups, or
/// fewer with one `::` standing for the zero groups left out.
pub open spec fn ipv6_value(t: Seq<char>) -> Option<Seq<int>> {
    let d = find_double_colon(t);
    if d == t.len() {
        pieces(t, 8, ':', true)
    } else {
        match (side_groups(t.subrange(0, d as int)), side_groups(t.subrange(d as int + 2, t.len() as int))) {
            (Some(h), Some(r)) => if h.len() + r.len() <= 7 {
                Some(h + Seq::new((8 - h.len() - r.len()) as nat, |i: int| 0int) + r)
            } else {
                None
            },
            _ => None,
        }
    }
}

/// A port: a decimal number up to 65535 without leading zeros.
pub open spec fn port_value(t: Seq<char>) -> Option<u16> {
    if is_number(t, 10, 5) && number_value(t, 10) <= 65535 {
        Some(number_value(t, 10) as u16)
    } else {
        None
    }
}

/// The token at the start of `t` up to the first space, and what follows
/// that space (empty if there is no space).
pub open spec fn token(t: Seq<char>) -> Seq<char> {
    t.subrange(0, find(t, ' ') as int)
}

/// What follows the first space of `t`, if `t` holds one.
pub open spec fn after_token(t: Seq<char>) -> Option<Seq<char>> {
    let i = find(t, ' ');
    if i < t.len() {
        Some(t.subrange(i as int + 1, t.len() as int))
    } else {
        None
    }
}

/// An address of the protocol's IP version.
pub open spec fn address_value(t: Seq<char>, v6: bool) -> Option<Seq<int>> {
    if v6 {
        ipv6_value(t)
    } else {
        ipv4_value(t)
    }
}

/// The four fields after `TCP4 ` or `TCP6 `: source address, destination
/// address, source port, destination port, each followed by one space but
/// the last, which runs to the end of the line.
#[verifier::opaque]
pub open spec fn parse_fields(t: Seq<char>, v6: bool) -> Result<AddressesView, ParseError> {
    let src = address_value(token(t), v6);
    if src is None {
        Err(ParseError::InvalidAddress)
    } else if after_token(t) is None {
        Err(ParseError::MissingSeparator)
    } else {
        let t1 = after_token(t)->Some_0;
        let dst = address_value(token(t1), v6);
        if dst is None {
            Err(ParseError::InvalidAddress)
        } else if after_token(t1) is None {
            Err(ParseError::MissingSeparator)
        } else {
            let t2 = after_token(t1)->Some_0;
            let sp = port_value(token(t2));
            if sp is None {
                Err(ParseError::InvalidPort)
            } else if after_token(t2) is None {
                Err(ParseError::MissingSeparator)
            } else {
                let t3 = after_token(t2)->Some_0;
                let dp = port_value(t3);
                if dp is None {
                    Err(ParseError::InvalidPort)
                } else if v6 {
                    Ok(
                        AddressesView::Tcp6(
                            src->Some_0,
                            dst->Some_0,
                            sp->Some_0,
                            dp->Some_0,
                        ),
                    )
                } else {
                    Ok(
                        AddressesView::Tcp4(
                            src->Some_0,
                            dst->Some_0,
                            sp->Some_0,
                            dp->Some_0,
                        ),
                    )
                }
            }
        }
    }
}

/// What parsing the text header at the start of `s` gives: the addresses and
/// the length of the header line with its `\r\n`, or the first error.
pub open spec fn parse_text(s: Seq<char>) -> Result<(AddressesView, nat), ParseError> {
    let e = find_terminator(s, 5);
    if s.len() < 5 || s.subrange(0, 5) != prefix_text() {
        Err(ParseError::InvalidPrefix)
    } else if e < 0 {
        Err(ParseError::MissingTerminator)
    } else if e == 5 || s[5] != ' ' {
        Err(ParseError::MissingSeparator)
    } else {
        match parse_body(s.subrange(6, e)) {
            Ok(a) => Ok((a, (e + 2) as nat)),
            Err(x) => Err(x),
        }
    }
}

/// The addresses that the text after `PROXY ` and before `\r\n` gives.
#[verifier::opaque]
pub open spec fn parse_body(body: Seq<char>) -> Result<AddressesView, ParseError> {
    let proto = token(body);
    if proto == seq!['U', 'N', 'K', 'N', 'O', 'W', 'N'] {
        Ok(AddressesView::Unknown)
    } else if proto == seq!['T', 'C', 'P', '4'] || proto == seq!['T', 'C', 'P', '6'] {
        match after_token(body) {
            None => Err(ParseError::MissingSeparator),
            Some(rest) => parse_fields(rest, proto == seq!['T', 'C', 'P', '6']),
        }
    } else {
        Err(ParseError::InvalidProtocol)
    }
}

/// The character of a digit below 16, in lower case.
pub open spec fn digit_char(d: int) -> char {
    if d < 10 {
        ((48 + d) as u8) as char
    } else {
        ((87 + d) as u8) as char
    }
}

/// `n` written in decimal, or in hex, without leading zeros.
pub open spec fn number_text(n: nat, hex: bool) -> Seq<char>
    decreases n,
{
    let radix: nat = if hex {
        16
    } else {
        10
    };
    if n < radix {
        seq![digit_char(n as int)]
    } else {
        number_text(n / radix, hex).push(digit_char((n % radix) as int))
    }
}

/// The pieces of an address written in decimal or hex and joined by `sep`.
pub open spec fn joined(v: Seq<int>, sep: char, hex: bool) -> Seq<char>
    decreases v.len(),
{
    if v.len() == 0 {
        seq![]
    } else if v.len() == 1 {
        number_text(v[0] as nat, hex)
    } else {
        number_text(v[0] as nat, hex) + seq![sep] + joined(v.drop_first(), sep, hex)
    }
}

/// The text of the addresses: the protocol and, for TCP, the source and
/// destination addresses and ports, all separated by single spaces.
pub open spec fn addresses_text(a: AddressesView) -> Seq<char> {
    match a {
        AddressesView::Unknown => protocol_text(a),
        AddressesView::Tcp4(s, d, sp, dp) => protocol_text(a) + seq![' '] + joined(s, '.', false)
            + seq![' '] + joined(d, '.', false) + seq![' '] + number_text(sp as nat, false) + seq![' ']
            + number_text(dp as nat, false),
        AddressesView::Tcp6(s, d, sp, dp) => protocol_text(a) + seq![' '] + joined(s, ':', true)
            + seq![' '] + joined(d, ':', true) + seq![' '] + number_text(sp as nat, false) + seq![' ']
            + number_text(dp as nat, false),
    }
}

/// The whole text header of the addresses, `\r\n` included.
pub open spec fn header_text(a: AddressesView) -> Seq<char> {
    prefix_text() + seq![' '] + addresses_text(a) + seq!['\r', '\n']
}

/// The characters that ASCII bytes stand for.
pub open spec fn bytes_text(b: Seq<u8>) -> Seq<char> {
    b.map_values(|x: u8| x as char)
}

/// `find` gives the first index of `c`, or the length.
pub proof fn lemma_find_at(t: Seq<char>, c: char, k: int)
    requires
        0 <= k <= t.len(),
        forall|j: int| 0 <= j < k ==> t[j] != c,
        k == t.len() || t[k] == c,
    ensures
        find(t, c) == k,
    decreases k,
{
    if k > 0 {
        lemma_find_at(t.drop_first(), c, k - 1);
    }
}

/// What `find_terminator` finds is a `\r\n` at or after `from`.
pub proof fn lemma_terminator_found(s: Seq<char>, from: int)
    ensures
        find_terminator(s, from) >= 0 ==> from <= find_terminator(s, from) && find_terminator(
            s,
            from,
        ) + 1 < s.len() && s[find_terminator(s, from)] == '\r' && s[find_terminator(s, from) + 1]
            == '\n',
    decreases s.len() - from,
{
    if from >= 0 && from + 1 < s.len() && !(s[from] == '\r' && s[from + 1] == '\n') {
        lemma_terminator_found(s, from + 1);
    }
}

/// `find_double_colon` gives the first `::`.
pub proof fn lemma_double_colon_at(t: Seq<char>, k: int)
    requires
        0 <= k,
        k + 1 < t.len(),
        t[k] == ':' && t[k + 1] == ':',
        forall|j: int| 0 <= j < k ==> !(t[j] == ':' && #[trigger] t[j + 1] == ':'),
    ensures
        find_double_colon(t) == k,
    decreases k,
{
    if k > 0 {
        let u = t.drop_first();
        assert forall|j: int| 0 <= j < k - 1 implies !(u[j] == ':' && #[trigger] u[j + 1] == ':') by {
            assert(u[j] == t[j + 1] && u[j + 1] == t[j + 2]);
        }
        lemma_double_colon_at(u, k - 1);
    }
}

/// Without two adjacent colons there is no `::`.
pub proof fn lemma_no_double_colon(t: Seq<char>)
    requires
        forall|j: int| 0 <= j && j + 1 < t.len() ==> !(t[j] == ':' && #[trigger] t[j + 1] == ':'),
    ensures
        find_double_colon(t) == t.len(),
    decreases t.len(),
{
    if t.len() >= 2 {
        let u = t.drop_first();
        assert forall|j: int| 0 <= j && j + 1 < u.len() implies !(u[j] == ':' && #[trigger] u[j + 1]
            == ':') by {
            assert(u[j] == t[j + 1] && u[j + 1] == t[j + 2]);
        }
        lemma_no_double_colon(u);
        assert(!(t[0] == ':' && t[0int + 1] == ':'));
    }
}

} // verus!
