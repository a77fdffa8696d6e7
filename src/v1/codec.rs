//! Parsing the text header at the start of a string, and writing one.
use vstd::prelude::*;
use crate::v1::error::ParseError;
use crate::v1::model::{Addresses, AddressesView, Header, Tcp4, Tcp6};
use crate::v1::text::{
    lemma_double_colon_at, lemma_find_at, lemma_no_double_colon, lemma_terminator_found,
    address_value, after_token, digit_value, find, find_terminator, is_number, number_value,
    parse_body, parse_fields, parse_text, bytes_text, digit_char, number_text, joined,
    addresses_text, header_text, find_double_colon, groups, side_groups, ipv6_value, piece_value, pieces, port_value, prefix_text, protocol_text, token,
};

verus! {

/// The integer values of a sequence of 16-bit pieces.
pub open spec fn piece_values(v: Seq<u16>) -> Seq<int> {
    v.map_values(|x: u16| x as int)
}

/// 16 to the power `k`.
pub open spec fn pow16(k: nat) -> nat
    decreases k,
{
    if k == 0 {
        1
    } else {
        16 * pow16((k - 1) as nat)
    }
}

/// Index of the first `\r\n` at or after index 5 of `s`.
fn find_line_end(s: &str, n: usize) -> (r: Option<usize>)
    requires
        n == s@.len(),
    ensures
        match r {
            Some(e) => e as int == find_terminator(s@, 5),
            None => find_terminator(s@, 5) < 0,
        },
{
    let mut i: usize = 5;
    while i < n && i + 1 < n
        invariant
            5 <= i,
            n == s@.len(),
            find_terminator(s@, 5) == find_terminator(s@, i as int),
        decreases n - i,
    {
        if s.get_char(i) == '\r' && s.get_char(i + 1) == '\n' {
            return Some(i);
        }
        i = i + 1;
    }
    None
}

/// The characters of `s` between `from` and `to`.
fn chars_of(s: &str, from: usize, to: usize) -> (r: Vec<char>)
    requires
        from <= to <= s@.len(),
    ensures
        r@ == s@.subrange(from as int, to as int),
{
    let mut r: Vec<char> = Vec::new();
    let mut i: usize = from;
    while i < to
        invariant
            from <= i <= to <= s@.len(),
            r@ == s@.subrange(from as int, i as int),
        decreases to - i,
    {
        r.push(s.get_char(i));
        i = i + 1;
        assert(r@ =~= s@.subrange(from as int, i as int));
    }
    r
}

/// `cs` between `from` and `to` is the text `w`.
fn equals_text(cs: &Vec<char>, from: usize, to: usize, w: &str) -> (r: bool)
    requires
        from <= to <= cs@.len(),
    ensures
        r == (cs@.subrange(from as int, to as int) == w@),
{
    let n = w.unicode_len();
    if to - from != n {
        return false;
    }
    let mut i: usize = 0;
    while i < n
        invariant
            i <= n == w@.len() == to - from,
            to <= cs@.len(),
            forall|j: int| 0 <= j < i ==> cs@[from + j] == w@[j],
        decreases n - i,
    {
        if cs[from + i] != w.get_char(i) {
            assert(cs@.subrange(from as int, to as int)[i as int] != w@[i as int]);
            return false;
        }
        i = i + 1;
    }
    assert(cs@.subrange(from as int, to as int) =~= w@);
    true
}

/// Index of the first `c` in `cs` between `from` and `to`, or `to`.
fn find_char(cs: &Vec<char>, from: usize, to: usize, c: char) -> (r: usize)
    requires
        from <= to <= cs@.len(),
    ensures
        r == from + find(cs@.subrange(from as int, to as int), c),
        from <= r <= to,
{
    let mut i: usize = from;
    while i < to && cs[i] != c
        invariant
            from <= i <= to <= cs@.len(),
            forall|j: int| from <= j < i ==> cs@[j] != c,
        decreases to - i,
    {
        i = i + 1;
    }
    proof {
        let t = cs@.subrange(from as int, to as int);
        assert forall|j: int| 0 <= j < i - from implies t[j] != c by {
            assert(t[j] == cs@[from + j]);
        }
        lemma_find_at(t, c, i - from);
    }
    i
}

/// The value of a digit in the given radix.
fn digit(c: char, radix: u32) -> (r: Option<u32>)
    requires
        radix == 10 || radix == 16,
    ensures
        match r {
            Some(v) => digit_value(c, radix as int) >= 0 && v == digit_value(c, radix as int),
            None => digit_value(c, radix as int) < 0,
        },
{
    if '0' <= c && c <= '9' {
        Some(c as u32 - '0' as u32)
    } else if radix == 16 && 'a' <= c && c <= 'f' {
        Some(c as u32 - 'a' as u32 + 10)
    } else if radix == 16 && 'A' <= c && c <= 'F' {
        Some(c as u32 - 'A' as u32 + 10)
    } else {
        None
    }
}

/// Reads the number written by `cs` between `from` and `to`: 1 to `max`
/// digits of the radix, without a leading zero in decimal.
fn parse_number(cs: &Vec<char>, from: usize, to: usize, radix: u32, max: usize) -> (r: Option<u32>)
    requires
        from <= to <= cs@.len(),
        radix == 10 || radix == 16,
        max <= 5,
    ensures
        match r {
            Some(v) => is_number(cs@.subrange(from as int, to as int), radix as int, max as nat)
                && v == number_value(cs@.subrange(from as int, to as int), radix as int),
            None => !is_number(cs@.subrange(from as int, to as int), radix as int, max as nat),
        },
{
    let ghost t = cs@.subrange(from as int, to as int);
    if to - from < 1 || to - from > max {
        return None;
    }
    if radix == 10 && cs[from] == '0' && to - from > 1 {
        assert(t[0] == '0');
        return None;
    }
    let mut acc: u32 = 0;
    let mut i: usize = from;
    while i < to
        invariant
            from <= i <= to <= cs@.len(),
            to - from <= max <= 5,
            radix == 10 || radix == 16,
            t == cs@.subrange(from as int, to as int),
            acc == number_value(cs@.subrange(from as int, i as int), radix as int),
            acc < pow16((i - from) as nat),
            forall|j: int| from <= j < i ==> digit_value(cs@[j], radix as int) >= 0,
        decreases to - i,
    {
        match digit(cs[i], radix) {
            None => {
                assert(t[i - from] == cs@[i as int]);
                return None;
            },
            Some(d) => {
                let ghost k = (i - from) as nat;
                proof {
                    assert(pow16(k) <= 1048576) by {
                        reveal_with_fuel(pow16, 6);
                    }
                    assert(acc * radix + d < pow16(k) * 16) by (nonlinear_arith)
                        requires
                            acc < pow16(k),
                            d < radix,
                            radix <= 16,
                    ;
                    assert(cs@.subrange(from as int, i + 1).drop_last() =~= cs@.subrange(
                        from as int,
                        i as int,
                    ));
                }
                acc = acc * radix + d;
                i = i + 1;
            },
        }
    }
    assert forall|j: int| 0 <= j < t.len() implies digit_value(#[trigger] t[j], radix as int) >= 0 by {
        assert(t[j] == cs@[from + j]);
    }
    Some(acc)
}

/// Reads one piece of an address: a decimal octet, or a hex group.
fn parse_piece(cs: &Vec<char>, from: usize, to: usize, hex: bool) -> (r: Option<u16>)
    requires
        from <= to <= cs@.len(),
    ensures
        match r {
            Some(v) => piece_value(cs@.subrange(from as int, to as int), hex) == Some(v as int)
                && (!hex ==> v <= 255),
            None => piece_value(cs@.subrange(from as int, to as int), hex) is None,
        },
{
    if hex {
        match parse_number(cs, from, to, 16, 4) {
            Some(v) => {
                proof {
                    let t = cs@.subrange(from as int, to as int);
                    lemma_number_bound(t, 16);
                    assert(pow16(t.len()) <= 65536) by {
                        reveal_with_fuel(pow16, 5);
                    }
                }
                Some(v as u16)
            },
            None => None,
        }
    } else {
        match parse_number(cs, from, to, 10, 3) {
            Some(v) => if v <= 255 {
                Some(v as u16)
            } else {
                None
            },
            None => None,
        }
    }
}

/// The number that `n` digits of a radix up to 16 write is below 16 to the `n`.
proof fn lemma_number_bound(t: Seq<char>, radix: int)
    requires
        radix == 10 || radix == 16,
        forall|i: int| 0 <= i < t.len() ==> digit_value(#[trigger] t[i], radix) >= 0,
    ensures
        0 <= number_value(t, radix) < pow16(t.len()),
    decreases t.len(),
{
    if t.len() > 0 {
        let u = t.drop_last();
        assert forall|i: int| 0 <= i < u.len() implies digit_value(#[trigger] u[i], radix) >= 0 by {
            assert(u[i] == t[i]);
        }
        lemma_number_bound(u, radix);
        let a = number_value(u, radix);
        let d = digit_value(t.last(), radix);
        let p = pow16(u.len());
        assert(d < radix);
        assert(a * radix + d < p * 16) by (nonlinear_arith)
            requires
                0 <= a < p,
                0 <= d < radix,
                radix <= 16,
        ;
        assert(0 <= a * radix) by (nonlinear_arith)
            requires
                0 <= a,
                radix >= 0,
        ;
    }
}

/// Reads exactly `n` pieces separated by `sep` between `from` and `to`.
fn parse_pieces(cs: &Vec<char>, from: usize, to: usize, n: usize, sep: char, hex: bool) -> (r:
    Option<Vec<u16>>)
    requires
        from <= to <= cs@.len(),
        1 <= n <= 8,
    ensures
        match r {
            Some(v) => pieces(cs@.subrange(from as int, to as int), n as nat, sep, hex) == Some(
                piece_values(v@),
            ) && v@.len() == n && (!hex ==> forall|k: int| 0 <= k < n ==> #[trigger] v@[k] <= 255),
            None => pieces(cs@.subrange(from as int, to as int), n as nat, sep, hex) is None,
        },
{
    let ghost whole = cs@.subrange(from as int, to as int);
    let mut acc: Vec<u16> = Vec::new();
    let mut pos: usize = from;
    let mut k: usize = 0;
    while k + 1 < n
        invariant
            from <= pos <= to <= cs@.len(),
            k < n <= 8,
            acc@.len() == k,
            whole == cs@.subrange(from as int, to as int),
            !hex ==> forall|j: int| 0 <= j < k ==> #[trigger] acc@[j] <= 255,
            pieces(whole, n as nat, sep, hex) == match pieces(
                cs@.subrange(pos as int, to as int),
                (n - k) as nat,
                sep,
                hex,
            ) {
                Some(rest) => Some(piece_values(acc@) + rest),
                None => None,
            },
        decreases n - k,
    {
        let t = Ghost(cs@.subrange(pos as int, to as int));
        let j = find_char(cs, pos, to, sep);
        if j == to {
            return None;
        }
        let v = match parse_piece(cs, pos, j, hex) {
            Some(v) => v,
            None => {
                assert(t@.subrange(0, j - pos) =~= cs@.subrange(pos as int, j as int));
                return None;
            },
        };
        assert(t@.subrange(0, j - pos) =~= cs@.subrange(pos as int, j as int));
        assert(t@.subrange(j - pos + 1, t@.len() as int) =~= cs@.subrange(j + 1, to as int));
        let ghost before = acc@;
        acc.push(v);
        assert(piece_values(acc@) =~= piece_values(before).push(v as int));
        assert forall|rest: Seq<int>| #[trigger] (piece_values(acc@) + rest) =~= piece_values(before) + (
            seq![v as int] + rest) by {}
        pos = j + 1;
        k = k + 1;
    }
    let t = Ghost(cs@.subrange(pos as int, to as int));
    let j = find_char(cs, pos, to, sep);
    if j != to {
        return None;
    }
    assert(t@ =~= cs@.subrange(pos as int, j as int));
    match parse_piece(cs, pos, to, hex) {
        Some(v) => {
            let ghost before = acc@;
            acc.push(v);
            assert(piece_values(acc@) =~= piece_values(before) + seq![v as int]);
            Some(acc)
        },
        None => None,
    }
}

/// Reads a port: a decimal number up to 65535 without leading zeros.
fn parse_port(cs: &Vec<char>, from: usize, to: usize) -> (r: Option<u16>)
    requires
        from <= to <= cs@.len(),
    ensures
        r == port_value(cs@.subrange(from as int, to as int)),
{
    match parse_number(cs, from, to, 10, 5) {
        Some(v) => if v <= 65535 {
            Some(v as u16)
        } else {
            None
        },
        None => None,
    }
}

/// Index of the first `::` in `cs` between `from` and `to`, or `to`.
fn find_double(cs: &Vec<char>, from: usize, to: usize) -> (r: usize)
    requires
        from <= to <= cs@.len(),
    ensures
        r == from + find_double_colon(cs@.subrange(from as int, to as int)),
        r == to || r + 1 < to,
{
    let ghost t = cs@.subrange(from as int, to as int);
    let mut i: usize = from;
    while i < to && i + 1 < to && !(cs[i] == ':' && cs[i + 1] == ':')
        invariant
            from <= i <= to <= cs@.len(),
            t == cs@.subrange(from as int, to as int),
            forall|j: int| from <= j < i ==> !(cs@[j] == ':' && #[trigger] cs@[j + 1] == ':'),
        decreases to - i,
    {
        i = i + 1;
    }
    if i < to && i + 1 < to {
        proof {
            assert forall|j: int| 0 <= j < i - from implies !(t[j] == ':' && #[trigger] t[j + 1]
                == ':') by {
                assert(t[j] == cs@[from + j] && t[j + 1] == cs@[from + j + 1]);
            }
            lemma_double_colon_at(t, i - from);
        }
        i
    } else {
        proof {
            assert forall|j: int| 0 <= j && j + 1 < t.len() implies !(t[j] == ':' && #[trigger] t[j
                + 1] == ':') by {
                assert(t[j] == cs@[from + j] && t[j + 1] == cs@[from + j + 1]);
            }
            lemma_no_double_colon(t);
        }
        to
    }
}

/// Reads one to `n` hex groups separated by `:` between `from` and `to`.
fn parse_groups(cs: &Vec<char>, from: usize, to: usize, n: usize) -> (r: Option<Vec<u16>>)
    requires
        from <= to <= cs@.len(),
        1 <= n <= 7,
    ensures
        match r {
            Some(v) => groups(cs@.subrange(from as int, to as int), n as nat) == Some(
                piece_values(v@),
            ) && 1 <= v@.len() <= n,
            None => groups(cs@.subrange(from as int, to as int), n as nat) is None,
        },
{
    let ghost whole = cs@.subrange(from as int, to as int);
    let mut acc: Vec<u16> = Vec::new();
    let mut pos: usize = from;
    let mut k: usize = 0;
    loop
        invariant
            from <= pos <= to <= cs@.len(),
            k < n <= 7,
            acc@.len() == k,
            whole == cs@.subrange(from as int, to as int),
            groups(whole, n as nat) == match groups(
                cs@.subrange(pos as int, to as int),
                (n - k) as nat,
            ) {
                Some(rest) => Some(piece_values(acc@) + rest),
                None => None,
            },
        decreases n - k,
    {
        let t = Ghost(cs@.subrange(pos as int, to as int));
        let j = find_char(cs, pos, to, ':');
        assert(t@.subrange(0, j - pos) =~= cs@.subrange(pos as int, j as int));
        let v = match parse_piece(cs, pos, j, true) {
            Some(v) => v,
            None => {
                return None;
            },
        };
        let ghost before = acc@;
        acc.push(v);
        assert(piece_values(acc@) =~= piece_values(before).push(v as int));
        if j == to {
            assert(piece_values(acc@) =~= piece_values(before) + seq![v as int]);
            return Some(acc);
        }
        assert(t@.subrange(j - pos + 1, t@.len() as int) =~= cs@.subrange(j + 1, to as int));
        assert forall|rest: Seq<int>| #[trigger] (piece_values(acc@) + rest) =~= piece_values(before) + (
            seq![v as int] + rest) by {}
        pos = j + 1;
        k = k + 1;
        if k == n {
            return None;
        }
    }
}

/// Reads the groups on one side of `::`.
fn parse_side(cs: &Vec<char>, from: usize, to: usize) -> (r: Option<Vec<u16>>)
    requires
        from <= to <= cs@.len(),
    ensures
        match r {
            Some(v) => side_groups(cs@.subrange(from as int, to as int)) == Some(piece_values(v@))
                && v@.len() <= 7,
            None => side_groups(cs@.subrange(from as int, to as int)) is None,
        },
{
    if from == to {
        let v: Vec<u16> = Vec::new();
        assert(piece_values(v@) =~= seq![]);
        Some(v)
    } else {
        parse_groups(cs, from, to, 7)
    }
}

/// Reads an IPv6 literal.
fn parse_ipv6(cs: &Vec<char>, from: usize, to: usize) -> (r: Option<Vec<u16>>)
    requires
        from <= to <= cs@.len(),
    ensures
        match r {
            Some(v) => ipv6_value(cs@.subrange(from as int, to as int)) == Some(piece_values(v@))
                && v@.len() == 8,
            None => ipv6_value(cs@.subrange(from as int, to as int)) is None,
        },
{
    let ghost t = cs@.subrange(from as int, to as int);
    let d = find_double(cs, from, to);
    if d == to {
        return parse_pieces(cs, from, to, 8, ':', true);
    }
    assert(t.subrange(0, d - from) =~= cs@.subrange(from as int, d as int));
    assert(t.subrange(d - from + 2, t.len() as int) =~= cs@.subrange(d + 2, to as int));
    let head = match parse_side(cs, from, d) {
        Some(h) => h,
        None => {
            return None;
        },
    };
    let tail = match parse_side(cs, d + 2, to) {
        Some(r) => r,
        None => {
            return None;
        },
    };
    if head.len() + tail.len() > 7 {
        return None;
    }
    let mut v: Vec<u16> = Vec::new();
    let mut i: usize = 0;
    while i < head.len()
        invariant
            i <= head@.len(),
            v@ == head@.subrange(0, i as int),
        decreases head@.len() - i,
    {
        v.push(head[i]);
        i = i + 1;
        assert(v@ =~= head@.subrange(0, i as int));
    }
    let zeros = 8 - head.len() - tail.len();
    let mut z: usize = 0;
    while z < zeros
        invariant
            z <= zeros,
            v@ == head@ + Seq::new(z as nat, |i: int| 0u16),
        decreases zeros - z,
    {
        v.push(0);
        z = z + 1;
        assert(v@ =~= head@ + Seq::new(z as nat, |i: int| 0u16));
    }
    let mut k: usize = 0;
    while k < tail.len()
        invariant
            k <= tail@.len(),
            v@ == head@ + Seq::new(zeros as nat, |i: int| 0u16) + tail@.subrange(0, k as int),
        decreases tail@.len() - k,
    {
        v.push(tail[k]);
        k = k + 1;
        assert(v@ =~= head@ + Seq::new(zeros as nat, |i: int| 0u16) + tail@.subrange(0, k as int));
    }
    assert(tail@.subrange(0, k as int) =~= tail@);
    assert(piece_values(v@) =~= piece_values(head@) + Seq::new(zeros as nat, |i: int| 0int)
        + piece_values(tail@));
    Some(v)
}

/// Reads an address of the protocol's IP version.
fn parse_address(cs: &Vec<char>, from: usize, to: usize, v6: bool) -> (r: Option<Vec<u16>>)
    requires
        from <= to <= cs@.len(),
    ensures
        match r {
            Some(v) => address_value(cs@.subrange(from as int, to as int), v6) == Some(
                piece_values(v@),
            ) && v@.len() == (if v6 {
                8int
            } else {
                4
            }) && (!v6 ==> forall|k: int| 0 <= k < 4 ==> #[trigger] v@[k] <= 255),
            None => address_value(cs@.subrange(from as int, to as int), v6) is None,
        },
{
    if v6 {
        parse_ipv6(cs, from, to)
    } else {
        parse_pieces(cs, from, to, 4, '.', false)
    }
}

/// The token of `cs` from `from` to the first space before `to`, and what
/// follows that space, read through `find_char`.
proof fn lemma_token(cs: Seq<char>, from: int, to: int, j: int)
    requires
        0 <= from <= j <= to <= cs.len(),
        j == from + find(cs.subrange(from, to), ' '),
    ensures
        token(cs.subrange(from, to)) == cs.subrange(from, j),
        j < to ==> after_token(cs.subrange(from, to)) == Some(cs.subrange(j + 1, to)),
        j == to ==> after_token(cs.subrange(from, to)) is None,
{
    let t = cs.subrange(from, to);
    assert(t.subrange(0, j - from) =~= cs.subrange(from, j));
    if j < to {
        assert(t.subrange(j - from + 1, t.len() as int) =~= cs.subrange(j + 1, to));
    }
}

/// Builds the addresses from the pieces read.
fn make_addresses(src: Vec<u16>, dst: Vec<u16>, sp: u16, dp: u16, v6: bool) -> (r: Addresses)
    requires
        src@.len() == (if v6 {
            8int
        } else {
            4
        }),
        dst@.len() == src@.len(),
        !v6 ==> forall|k: int| 0 <= k < 4 ==> #[trigger] src@[k] <= 255,
        !v6 ==> forall|k: int| 0 <= k < 4 ==> #[trigger] dst@[k] <= 255,
    ensures
        r@ == (if v6 {
            AddressesView::Tcp6(piece_values(src@), piece_values(dst@), sp, dp)
        } else {
            AddressesView::Tcp4(piece_values(src@), piece_values(dst@), sp, dp)
        }),
{
    if v6 {
        let s: [u16; 8] = [src[0], src[1], src[2], src[3], src[4], src[5], src[6], src[7]];
        let d: [u16; 8] = [dst[0], dst[1], dst[2], dst[3], dst[4], dst[5], dst[6], dst[7]];
        assert(s@.map_values(|x: u16| x as int) =~= piece_values(src@));
        assert(d@.map_values(|x: u16| x as int) =~= piece_values(dst@));
        Addresses::Tcp6(
            Tcp6 { source_address: s, source_port: sp, destination_address: d, destination_port: dp },
        )
    } else {
        let s: [u8; 4] = [src[0] as u8, src[1] as u8, src[2] as u8, src[3] as u8];
        let d: [u8; 4] = [dst[0] as u8, dst[1] as u8, dst[2] as u8, dst[3] as u8];
        assert(s@.map_values(|x: u8| x as int) =~= piece_values(src@));
        assert(d@.map_values(|x: u8| x as int) =~= piece_values(dst@));
        Addresses::Tcp4(
            Tcp4 { source_address: s, source_port: sp, destination_address: d, destination_port: dp },
        )
    }
}

/// Reads the four fields that follow `TCP4 ` or `TCP6 `.
fn parse_tcp(cs: &Vec<char>, from: usize, to: usize, v6: bool) -> (r: Result<Addresses, ParseError>)
    requires
        from <= to <= cs@.len(),
    ensures
        match r {
            Ok(a) => parse_fields(cs@.subrange(from as int, to as int), v6) == Ok::<
                AddressesView,
                ParseError,
            >(a@) && (if v6 {
                a is Tcp6
            } else {
                a is Tcp4
            }),
            Err(e) => parse_fields(cs@.subrange(from as int, to as int), v6) == Err::<
                AddressesView,
                ParseError,
            >(e),
        },
{
    let ghost c = cs@;
    proof {
        reveal(parse_fields);
    }
    let q1 = find_char(cs, from, to, ' ');
    proof {
        lemma_token(c, from as int, to as int, q1 as int);
    }
    let src = match parse_address(cs, from, q1, v6) {
        Some(v) => v,
        None => {
            return Err(ParseError::InvalidAddress);
        },
    };
    if q1 == to {
        return Err(ParseError::MissingSeparator);
    }
    let q2 = find_char(cs, q1 + 1, to, ' ');
    proof {
        lemma_token(c, q1 + 1, to as int, q2 as int);
    }
    let dst = match parse_address(cs, q1 + 1, q2, v6) {
        Some(v) => v,
        None => {
            return Err(ParseError::InvalidAddress);
        },
    };
    if q2 == to {
        return Err(ParseError::MissingSeparator);
    }
    let q3 = find_char(cs, q2 + 1, to, ' ');
    proof {
        lemma_token(c, q2 + 1, to as int, q3 as int);
    }
    let sp = match parse_port(cs, q2 + 1, q3) {
        Some(v) => v,
        None => {
            return Err(ParseError::InvalidPort);
        },
    };
    if q3 == to {
        return Err(ParseError::MissingSeparator);
    }
    let dp = match parse_port(cs, q3 + 1, to) {
        Some(v) => v,
        None => {
            return Err(ParseError::InvalidPort);
        },
    };
    Ok(make_addresses(src, dst, sp, dp, v6))
}

/// Reads the addresses from the text between `PROXY ` and `\r\n`.
fn parse_body_chars(body: &Vec<char>) -> (r: Result<Addresses, ParseError>)
    ensures
        match r {
            Ok(a) => parse_body(body@) == Ok::<AddressesView, ParseError>(a@)
                && body@.len() >= protocol_text(a@).len()
                && body@.subrange(0, protocol_text(a@).len() as int) == protocol_text(a@),
            Err(e) => parse_body(body@) == Err::<AddressesView, ParseError>(e),
        },
{
    let len = body.len();
    assert(body@.subrange(0, len as int) =~= body@);
    let p = find_char(body, 0, len, ' ');
    proof {
        reveal(parse_body);
        lemma_token(body@, 0, len as int, p as int);
        reveal_strlit("UNKNOWN");
        reveal_strlit("TCP4");
        reveal_strlit("TCP6");
    }
    let unknown = "UNKNOWN";
    let tcp4 = "TCP4";
    let tcp6 = "TCP6";
    assert(unknown@ =~= protocol_text(AddressesView::Unknown));
    assert(tcp4@ =~= seq!['T', 'C', 'P', '4']);
    assert(tcp6@ =~= seq!['T', 'C', 'P', '6']);
    if equals_text(body, 0, p, unknown) {
        return Ok(Addresses::Unknown);
    }
    let v6 = equals_text(body, 0, p, tcp6);
    if !v6 && !equals_text(body, 0, p, tcp4) {
        return Err(ParseError::InvalidProtocol);
    }
    if p == len {
        return Err(ParseError::MissingSeparator);
    }
    parse_tcp(body, p + 1, len, v6)
}

/// Parses the text header at the start of `input`.
///
/// On success the header borrows the header line of `input`, `\r\n`
/// included; what follows it is not read. The result is the one that the
/// grammar of `parse_text` gives.
pub fn parse<'a>(input: &'a str) -> (r: Result<Header<'a>, ParseError>)
    ensures
        match r {
            Ok(h) => {
                &&& parse_text(input@) == Ok::<(AddressesView, nat), ParseError>(
                    (h.addresses@, h.header@.len()),
                )
                &&& h.header@ == input@.subrange(0, h.header@.len() as int)
                &&& h.wf()
            },
            Err(e) => parse_text(input@) == Err::<(AddressesView, nat), ParseError>(e),
        },
{
    let ghost s = input@;
    let n = input.unicode_len();
    if n < 5 {
        return Err(ParseError::InvalidPrefix);
    }
    let head = chars_of(input, 0, 5);
    proof {
        reveal_strlit("PROXY");
    }
    let proxy = "PROXY";
    assert(proxy@ =~= prefix_text());
    if !equals_text(&head, 0, 5, proxy) {
        assert(head@.subrange(0, 5) =~= head@);
        return Err(ParseError::InvalidPrefix);
    }
    assert(head@.subrange(0, 5) =~= head@);
    let e = match find_line_end(input, n) {
        Some(e) => e,
        None => {
            return Err(ParseError::MissingTerminator);
        },
    };
    proof {
        lemma_terminator_found(s, 5);
    }
    if e == 5 || input.get_char(5) != ' ' {
        return Err(ParseError::MissingSeparator);
    }
    let body = chars_of(input, 6, e);
    let addresses = match parse_body_chars(&body) {
        Ok(a) => a,
        Err(x) => {
            return Err(x);
        },
    };
    let header = input.substring_char(0, e + 2);
    let ghost p = protocol_text(addresses@).len() as int;
    let ghost pre = seq!['P', 'R', 'O', 'X', 'Y', ' '];
    assert(header@.subrange(header@.len() - 2, header@.len() as int) =~= seq!['\r', '\n']);
    assert(header@.subrange(0, 6 + p) =~= pre + protocol_text(addresses@)) by {
        assert(s.subrange(0, 5) =~= seq!['P', 'R', 'O', 'X', 'Y']);
        assert forall|k: int| 0 <= k < 6 + p implies header@[k] == (pre + protocol_text(
            addresses@,
        ))[k] by {
            if k < 5 {
                assert(s.subrange(0, 5)[k] == s[k]);
            } else if k > 5 {
                assert(body@[k - 6] == s[k]);
                assert(body@.subrange(0, p)[k - 6] == body@[k - 6]);
            }
        }
    }
    Ok(Header { header, addresses })
}

/// Appends one ASCII character to `out`.
fn push_char(out: &mut Vec<u8>, c: u8)
    requires
        c < 128,
    ensures
        bytes_text(final(out)@) == bytes_text(old(out)@).push(c as char),
{
    out.push(c);
    assert(bytes_text(out@) =~= bytes_text(old(out)@).push(c as char));
}

/// Appends `n` written in the radix.
fn push_number(out: &mut Vec<u8>, n: u32, radix: u32)
    requires
        radix == 10 || radix == 16,
    ensures
        bytes_text(final(out)@) == bytes_text(old(out)@) + number_text(n as nat, radix == 16),
    decreases n,
{
    if n >= radix {
        push_number(out, n / radix, radix);
    }
    let d = n % radix;
    let c: u8 = if d < 10 {
        48 + d as u8
    } else {
        87 + d as u8
    };
    let ghost before = out@;
    push_char(out, c);
    assert(c as char == digit_char(d as int));
    if n >= radix {
        assert(bytes_text(out@) =~= bytes_text(old(out)@) + number_text(n as nat, radix == 16));
    } else {
        assert(bytes_text(out@) =~= bytes_text(old(out)@) + number_text(n as nat, radix == 16));
    }
}

/// Appends the pieces of an address, in the radix, joined by `sep`.
fn push_joined(out: &mut Vec<u8>, v: &[u32], sep: u8, radix: u32)
    requires
        radix == 10 || radix == 16,
        sep < 128,
        v@.len() >= 1,
    ensures
        bytes_text(final(out)@) == bytes_text(old(out)@) + joined(
            v@.map_values(|x: u32| x as int),
            sep as char,
            radix == 16,
        ),
{
    let ghost vals = v@.map_values(|x: u32| x as int);
    let n = v.len();
    let mut i: usize = n - 1;
    let ghost tail_text = number_text(v@[n - 1] as nat, radix == 16);
    let mut tail: Vec<u8> = Vec::new();
    push_number(&mut tail, v[n - 1], radix);
    assert(bytes_text(tail@) =~= joined(vals.subrange(i as int, n as int), sep as char, radix == 16));
    while i > 0
        invariant
            0 <= i < n == v@.len(),
            radix == 10 || radix == 16,
            sep < 128,
            vals == v@.map_values(|x: u32| x as int),
            bytes_text(tail@) == joined(vals.subrange(i as int, n as int), sep as char, radix == 16),
        decreases i,
    {
        i = i - 1;
        let mut piece: Vec<u8> = Vec::new();
        push_number(&mut piece, v[i], radix);
        push_char(&mut piece, sep);
        let ghost old_tail = tail@;
        let ghost old_piece = piece@;
        let mut rest = tail;
        piece.append(&mut rest);
        tail = piece;
        assert(bytes_text(tail@) =~= bytes_text(old_piece) + bytes_text(old_tail));
        proof {
            let s = vals.subrange(i as int, n as int);
            assert(s.drop_first() =~= vals.subrange(i + 1, n as int));
            assert(s[0] == v@[i as int] as int);
            assert(bytes_text(tail@) =~= joined(s, sep as char, radix == 16));
        }
    }
    assert(vals.subrange(0, n as int) =~= vals);
    let ghost before = out@;
    let ghost t = tail@;
    out.append(&mut tail);
    assert(bytes_text(out@) =~= bytes_text(before) + bytes_text(t));
    assert(bytes_text(out@) =~= bytes_text(before) + joined(vals, sep as char, radix == 16));
}

/// Appends an IPv4 address in dotted-quad notation.
fn push_ipv4(out: &mut Vec<u8>, a: &[u8; 4])
    ensures
        bytes_text(final(out)@) == bytes_text(old(out)@) + joined(
            a@.map_values(|x: u8| x as int),
            '.',
            false,
        ),
{
    let v: [u32; 4] = [a[0] as u32, a[1] as u32, a[2] as u32, a[3] as u32];
    assert(v@.map_values(|x: u32| x as int) =~= a@.map_values(|x: u8| x as int));
    push_joined(out, v.as_slice(), 46, 10);
}

/// Appends an IPv6 address as eight colon-separated hex groups.
fn push_ipv6(out: &mut Vec<u8>, a: &[u16; 8])
    ensures
        bytes_text(final(out)@) == bytes_text(old(out)@) + joined(
            a@.map_values(|x: u16| x as int),
            ':',
            true,
        ),
{
    let v: [u32; 8] = [
        a[0] as u32,
        a[1] as u32,
        a[2] as u32,
        a[3] as u32,
        a[4] as u32,
        a[5] as u32,
        a[6] as u32,
        a[7] as u32,
    ];
    assert(v@.map_values(|x: u32| x as int) =~= a@.map_values(|x: u16| x as int));
    push_joined(out, v.as_slice(), 58, 16);
}

/// Writes the text header of the addresses: `PROXY`, a space, the protocol
/// and, for TCP, the source and destination addresses and ports, all
/// separated by single spaces, then `\r\n`. The bytes are ASCII.
pub fn encode(addresses: &Addresses) -> (r: Vec<u8>)
    ensures
        bytes_text(r@) == header_text(addresses@),
{
    let mut out: Vec<u8> = Vec::new();
    assert(bytes_text(out@) =~= seq![]);
    push_char(&mut out, 80);
    push_char(&mut out, 82);
    push_char(&mut out, 79);
    push_char(&mut out, 88);
    push_char(&mut out, 89);
    push_char(&mut out, 32);
    let ghost start = bytes_text(out@);
    assert(start =~= prefix_text() + seq![' ']);
    match addresses {
        Addresses::Unknown => {
            push_char(&mut out, 85);
            push_char(&mut out, 78);
            push_char(&mut out, 75);
            push_char(&mut out, 78);
            push_char(&mut out, 79);
            push_char(&mut out, 87);
            push_char(&mut out, 78);
        },
        Addresses::Tcp4(a) => {
            push_char(&mut out, 84);
            push_char(&mut out, 67);
            push_char(&mut out, 80);
            push_char(&mut out, 52);
            push_char(&mut out, 32);
            push_ipv4(&mut out, &a.source_address);
            push_char(&mut out, 32);
            push_ipv4(&mut out, &a.destination_address);
            push_char(&mut out, 32);
            push_number(&mut out, a.source_port as u32, 10);
            push_char(&mut out, 32);
            push_number(&mut out, a.destination_port as u32, 10);
        },
        Addresses::Tcp6(a) => {
            push_char(&mut out, 84);
            push_char(&mut out, 67);
            push_char(&mut out, 80);
            push_char(&mut out, 54);
            push_char(&mut out, 32);
            push_ipv6(&mut out, &a.source_address);
            push_char(&mut out, 32);
            push_ipv6(&mut out, &a.destination_address);
            push_char(&mut out, 32);
            push_number(&mut out, a.source_port as u32, 10);
            push_char(&mut out, 32);
            push_number(&mut out, a.destination_port as u32, 10);
        },
    }
    assert(bytes_text(out@) =~= start + addresses_text(addresses@));
    push_char(&mut out, 13);
    push_char(&mut out, 10);
    assert(bytes_text(out@) =~= header_text(addresses@));
    out
}

} // verus!
