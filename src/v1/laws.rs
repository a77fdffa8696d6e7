//! Laws of the text header: what parsing makes of what `encode` writes,
//! and that the protocol token is case sensitive.
use vstd::prelude::*;
use crate::v1::error::ParseError;
use crate::v1::model::{Addresses, AddressesView, Header, Tcp4, Tcp6};
use crate::v1::text::{
    lemma_find_at, lemma_no_double_colon, lemma_terminator_found,
    address_part, after_token, addresses_text, digit_char, digit_value, find, find_terminator,
    header_text, is_number, joined, number_text, number_value, parse_body, parse_fields,
    parse_text, piece_value, pieces, port_value, prefix_text, protocol_text, token,
};

verus! {

/// No character of `x` is `c`.
pub open spec fn lacks(x: Seq<char>, c: char) -> bool {
    forall|i: int| 0 <= i < x.len() ==> #[trigger] x[i] != c
}

/// The radix of decimal or hex text.
pub open spec fn radix_of(hex: bool) -> int {
    if hex {
        16
    } else {
        10
    }
}

/// The radix to the power `k`.
pub open spec fn radix_pow(hex: bool, k: nat) -> int
    decreases k,
{
    if k == 0 {
        1
    } else {
        radix_of(hex) * radix_pow(hex, (k - 1) as nat)
    }
}

/// A digit character reads back as its digit.
proof fn lemma_digit_char(d: int, hex: bool)
    requires
        0 <= d < radix_of(hex),
    ensures
        digit_value(digit_char(d), radix_of(hex)) == d,
        digit_char(d) != ' ' && digit_char(d) != '.' && digit_char(d) != ':' && digit_char(d)
            != '\r',
        digit_char(d) == '0' <==> d == 0,
{
}

/// The text of `n` is a number of the radix that reads back as `n`, with a
/// leading zero only for zero itself, and at most `k` digits when `n` is
/// below the radix to the `k`.
proof fn lemma_number_text(n: nat, hex: bool, k: nat)
    requires
        k >= 1,
        n < radix_pow(hex, k),
    ensures
        number_value(number_text(n, hex), radix_of(hex)) == n,
        is_number(number_text(n, hex), radix_of(hex), k),
        number_text(n, hex)[0] == '0' <==> n == 0,
        lacks(number_text(n, hex), ' '),
        lacks(number_text(n, hex), '.'),
        lacks(number_text(n, hex), ':'),
        lacks(number_text(n, hex), '\r'),
    decreases n,
{
    let r: nat = radix_of(hex) as nat;
    let t = number_text(n, hex);
    if n < r {
        lemma_digit_char(n as int, hex);
        assert(t.drop_last() =~= seq![]);
        assert(number_value(t.drop_last(), r as int) == 0);
        assert(number_value(t, r as int) == number_value(t.drop_last(), r as int) * r + digit_value(
            t.last(),
            r as int,
        ));
    } else {
        let m = (n / r) as nat;
        assert(radix_pow(hex, k) == r * radix_pow(hex, (k - 1) as nat));
        assert(m < radix_pow(hex, (k - 1) as nat)) by (nonlinear_arith)
            requires
                n < r * radix_pow(hex, (k - 1) as nat),
                m == n / r,
                r > 0,
                n >= 0,
        ;
        assert(m >= 1) by (nonlinear_arith)
            requires
                n >= r,
                m == n / r,
                r > 0,
        ;
        if k == 1 {
            assert(radix_pow(hex, 0) == 1);
        }
        lemma_number_text(m, hex, (k - 1) as nat);
        let u = number_text(m, hex);
        lemma_digit_char((n % r) as int, hex);
        assert(t == u.push(digit_char((n % r) as int)));
        assert(t.drop_last() =~= u);
        assert(t.last() == digit_char((n % r) as int));
        assert(number_value(t, r as int) == number_value(u, r as int) * r + digit_value(
            t.last(),
            r as int,
        ));
        assert(n == m * r + n % r) by (nonlinear_arith)
            requires
                m == n / r,
                r > 0,
        ;
        assert(t[0] == u[0]);
        assert forall|i: int| 0 <= i < t.len() implies digit_value(#[trigger] t[i], r as int) >= 0 by {
            if i < u.len() {
                assert(t[i] == u[i]);
            }
        }
        assert forall|i: int| 0 <= i < t.len() implies #[trigger] t[i] != ' ' && t[i] != '.'
            && t[i] != ':' && t[i] != '\r' by {
            if i < u.len() {
                assert(t[i] == u[i]);
            }
        }
    }
}

/// A token without spaces followed by a space and more text.
proof fn lemma_split_space(x: Seq<char>, y: Seq<char>)
    requires
        lacks(x, ' '),
    ensures
        token(x + seq![' '] + y) == x,
        after_token(x + seq![' '] + y) == Some(y),
{
    let t = x + seq![' '] + y;
    lemma_find_at(t, ' ', x.len() as int);
    assert(t.subrange(0, x.len() as int) =~= x);
    assert(t.subrange(x.len() as int + 1, t.len() as int) =~= y);
}

/// A token without spaces that is all of the text.
proof fn lemma_whole_token(x: Seq<char>)
    requires
        lacks(x, ' '),
    ensures
        token(x) == x,
        after_token(x) is None,
{
    lemma_find_at(x, ' ', x.len() as int);
    assert(x.subrange(0, x.len() as int) =~= x);
}

/// Pieces that each fit an octet (decimal) or a segment (hex), joined by a
/// separator that is not a digit, read back as themselves.
proof fn lemma_pieces_joined(v: Seq<int>, sep: char, hex: bool)
    requires
        v.len() >= 1,
        sep == (if hex {
            ':'
        } else {
            '.'
        }),
        forall|i: int| 0 <= i < v.len() ==> 0 <= #[trigger] v[i] && v[i] <= (if hex {
            0xffffint
        } else {
            255
        }),
    ensures
        pieces(joined(v, sep, hex), v.len(), sep, hex) == Some(v),
        lacks(joined(v, sep, hex), ' '),
        lacks(joined(v, sep, hex), '\r'),
        joined(v, sep, hex).len() >= 1,
        joined(v, sep, hex)[0] != ':',
        forall|j: int|
            0 <= j && j + 1 < joined(v, sep, hex).len() ==> !(joined(v, sep, hex)[j] == ':'
                && #[trigger] joined(v, sep, hex)[j + 1] == ':'),
    decreases v.len(),
{
    let k: nat = if hex {
        4
    } else {
        3
    };
    assert(radix_pow(hex, k) == if hex {
        65536int
    } else {
        1000
    }) by {
        reveal_with_fuel(radix_pow, 5);
    }
    lemma_number_text(v[0] as nat, hex, k);
    let n0 = number_text(v[0] as nat, hex);
    assert(piece_value(n0, hex) == Some(v[0]));
    if v.len() == 1 {
        lemma_find_at(n0, sep, n0.len() as int);
        assert(seq![v[0]] =~= v);
    } else {
        let rest = v.drop_first();
        assert forall|i: int| 0 <= i < rest.len() implies 0 <= #[trigger] rest[i] && rest[i] <= (
        if hex {
            0xffffint
        } else {
            255
        }) by {
            assert(rest[i] == v[i + 1]);
        }
        lemma_pieces_joined(rest, sep, hex);
        let j = joined(v, sep, hex);
        let jr = joined(rest, sep, hex);
        assert(j == n0 + seq![sep] + jr);
        lemma_find_at(j, sep, n0.len() as int);
        assert(j.subrange(0, n0.len() as int) =~= n0);
        assert(j.subrange(n0.len() as int + 1, j.len() as int) =~= jr);
        assert(seq![v[0]] + rest =~= v);
        assert forall|i: int| 0 <= i < j.len() implies #[trigger] j[i] != ' ' && j[i] != '\r' by {
            if i < n0.len() {
                assert(j[i] == n0[i]);
            } else if i > n0.len() {
                assert(j[i] == jr[i - n0.len() - 1]);
            }
        }
        assert(j[0] == n0[0]);
        assert forall|i: int| 0 <= i && i + 1 < j.len() implies !(j[i] == ':' && #[trigger] j[i + 1]
            == ':') by {
            if i < n0.len() {
                assert(j[i] == n0[i]);
            } else if i == n0.len() {
                assert(j[i + 1] == jr[0]);
            } else {
                assert(j[i] == jr[i - n0.len() - 1]);
                assert(j[i + 1] == jr[i - n0.len() - 1 + 1]);
            }
        }
    }
}

proof fn lemma_lacks_concat(x: Seq<char>, y: Seq<char>, c: char)
    requires
        lacks(x, c),
        lacks(y, c),
    ensures
        lacks(x + y, c),
{
    assert forall|i: int| 0 <= i < (x + y).len() implies #[trigger] (x + y)[i] != c by {
        if i >= x.len() {
            assert((x + y)[i] == y[i - x.len()]);
        }
    }
}

proof fn lemma_terminator_at(s: Seq<char>, from: int, e: int)
    requires
        0 <= from <= e,
        e + 1 < s.len(),
        s[e] == '\r',
        s[e + 1] == '\n',
        forall|j: int| from <= j < e ==> s[j] != '\r',
    ensures
        find_terminator(s, from) == e,
    decreases e - from,
{
    if from < e {
        lemma_terminator_at(s, from + 1, e);
    }
}

/// The four fields of a TCP header read back as the addresses and ports.
proof fn lemma_fields(
    sv: Seq<int>,
    dv: Seq<int>,
    sp: u16,
    dp: u16,
    hex: bool,
)
    requires
        sv.len() == dv.len() == (if hex {
            8int
        } else {
            4
        }),
        forall|i: int| 0 <= i < sv.len() ==> 0 <= #[trigger] sv[i] && sv[i] <= (if hex {
            0xffffint
        } else {
            255
        }),
        forall|i: int| 0 <= i < dv.len() ==> 0 <= #[trigger] dv[i] && dv[i] <= (if hex {
            0xffffint
        } else {
            255
        }),
    ensures
        ({
            let sep = if hex {
                ':'
            } else {
                '.'
            };
            let t = joined(sv, sep, hex) + seq![' '] + (joined(dv, sep, hex) + seq![' '] + (
            number_text(sp as nat, false) + seq![' '] + number_text(dp as nat, false)));
            &&& parse_fields(t, hex) == Ok::<AddressesView, ParseError>(
                if hex {
                    AddressesView::Tcp6(sv, dv, sp, dp)
                } else {
                    AddressesView::Tcp4(sv, dv, sp, dp)
                },
            )
            &&& lacks(t, '\r')
        }),
{
    reveal(parse_fields);
    let sep = if hex {
        ':'
    } else {
        '.'
    };
    let js = joined(sv, sep, hex);
    let jd = joined(dv, sep, hex);
    let ns = number_text(sp as nat, false);
    let nd = number_text(dp as nat, false);
    lemma_pieces_joined(sv, sep, hex);
    lemma_pieces_joined(dv, sep, hex);
    lemma_no_double_colon(js);
    lemma_no_double_colon(jd);
    assert(radix_pow(false, 5) == 100000) by {
        reveal_with_fuel(radix_pow, 6);
    }
    lemma_number_text(sp as nat, false, 5);
    lemma_number_text(dp as nat, false, 5);
    assert(port_value(ns) == Some(sp));
    assert(port_value(nd) == Some(dp));
    let t3 = ns + seq![' '] + nd;
    let t2 = jd + seq![' '] + t3;
    let t1 = js + seq![' '] + t2;
    lemma_split_space(js, t2);
    lemma_split_space(jd, t3);
    lemma_split_space(ns, nd);
    let sp1 = seq![' '];
    assert(lacks(sp1, '\r'));
    lemma_lacks_concat(ns, sp1, '\r');
    lemma_lacks_concat(ns + sp1, nd, '\r');
    lemma_lacks_concat(jd, sp1, '\r');
    lemma_lacks_concat(jd + sp1, t3, '\r');
    lemma_lacks_concat(js, sp1, '\r');
    lemma_lacks_concat(js + sp1, t2, '\r');
}

/// The text of TCP addresses after `PROXY ` reads back as the addresses.
proof fn lemma_body_tcp(a: AddressesView, p: Seq<char>, t: Seq<char>, hex: bool)
    requires
        a !is Unknown,
        hex == a is Tcp6,
        p == protocol_text(a),
        parse_fields(t, hex) == Ok::<AddressesView, ParseError>(a),
        lacks(t, '\r'),
    ensures
        parse_body(p + seq![' '] + t) == Ok::<AddressesView, ParseError>(a),
        lacks(p + seq![' '] + t, '\r'),
{
    reveal(parse_body);
    let sp1 = seq![' '];
    assert(lacks(p, ' '));
    assert(lacks(p, '\r'));
    assert(lacks(sp1, '\r'));
    lemma_split_space(p, t);
    if hex {
        assert(p != seq!['U', 'N', 'K', 'N', 'O', 'W', 'N']);
    } else {
        assert(p != seq!['T', 'C', 'P', '6']) by {
            assert(p[3] != seq!['T', 'C', 'P', '6'][3]);
        }
    }
    lemma_lacks_concat(p, sp1, '\r');
    lemma_lacks_concat(p + sp1, t, '\r');
}

/// The text of IPv4 addresses after `PROXY ` reads back as the addresses.
proof fn lemma_body_v4(x: Tcp4)
    ensures
        parse_body(addresses_text(Addresses::Tcp4(x)@)) == Ok::<AddressesView, ParseError>(
            Addresses::Tcp4(x)@,
        ),
        lacks(addresses_text(Addresses::Tcp4(x)@), '\r'),
{
    let a = Addresses::Tcp4(x)@;
    let sv = x.source_address@.map_values(|b: u8| b as int);
    let dv = x.destination_address@.map_values(|b: u8| b as int);
    lemma_fields(sv, dv, x.source_port, x.destination_port, false);
    let t = joined(sv, '.', false) + seq![' '] + (joined(dv, '.', false) + seq![' '] + (
    number_text(x.source_port as nat, false) + seq![' '] + number_text(
        x.destination_port as nat,
        false,
    )));
    lemma_body_tcp(a, protocol_text(a), t, false);
    assert(addresses_text(a) =~= protocol_text(a) + seq![' '] + t);
}

/// The text of IPv6 addresses after `PROXY ` reads back as the addresses.
proof fn lemma_body_v6(x: Tcp6)
    ensures
        parse_body(addresses_text(Addresses::Tcp6(x)@)) == Ok::<AddressesView, ParseError>(
            Addresses::Tcp6(x)@,
        ),
        lacks(addresses_text(Addresses::Tcp6(x)@), '\r'),
{
    let a = Addresses::Tcp6(x)@;
    let sv = x.source_address@.map_values(|b: u16| b as int);
    let dv = x.destination_address@.map_values(|b: u16| b as int);
    lemma_fields(sv, dv, x.source_port, x.destination_port, true);
    let t = joined(sv, ':', true) + seq![' '] + (joined(dv, ':', true) + seq![' '] + (
    number_text(x.source_port as nat, false) + seq![' '] + number_text(
        x.destination_port as nat,
        false,
    )));
    lemma_body_tcp(a, protocol_text(a), t, true);
    assert(addresses_text(a) =~= protocol_text(a) + seq![' '] + t);
}

/// The text of the addresses after `PROXY ` reads back as the addresses.
proof fn lemma_body(a: Addresses)
    ensures
        parse_body(addresses_text(a@)) == Ok::<AddressesView, ParseError>(a@),
        lacks(addresses_text(a@), '\r'),
{
    match a {
        Addresses::Unknown => {
            reveal(parse_body);
            let at = addresses_text(a@);
            assert(lacks(at, ' '));
            assert(lacks(at, '\r'));
            lemma_whole_token(at);
        },
        Addresses::Tcp4(x) => lemma_body_v4(x),
        Addresses::Tcp6(x) => lemma_body_v6(x),
    }
}

/// Parsing the text that `encode` writes gives back the addresses and takes
/// exactly that text, whatever follows it.
pub proof fn lemma_parse_encode(a: Addresses, rest: Seq<char>)
    ensures
        parse_text(header_text(a@) + rest) == Ok::<(AddressesView, nat), ParseError>(
            (a@, header_text(a@).len()),
        ),
{
    let at = addresses_text(a@);
    let s = header_text(a@) + rest;
    lemma_body(a);
    let e = 6 + at.len() as int;
    assert(s[e] == '\r' && s[e + 1] == '\n');
    assert forall|j: int| 5 <= j < e implies s[j] != '\r' by {
        if j > 5 {
            assert(s[j] == at[j - 6]);
        }
    }
    lemma_terminator_at(s, 5, e);
    assert(s.subrange(0, 5) =~= prefix_text());
    assert(s.subrange(6, e) =~= at);
}

/// The protocol token is case sensitive: a header line whose protocol is
/// `tcp4`, `tcp6` or `unknown` in lower case is refused as an invalid
/// protocol, whatever follows it.
pub proof fn lemma_lowercase_protocol_refused(s: Seq<char>)
    requires
        s.len() >= 6,
        s.subrange(0, 5) == prefix_text(),
        s[5] == ' ',
        find_terminator(s, 5) >= 0,
        token(s.subrange(6, find_terminator(s, 5))) == seq!['t', 'c', 'p', '4'] || token(
            s.subrange(6, find_terminator(s, 5)),
        ) == seq!['t', 'c', 'p', '6'] || token(s.subrange(6, find_terminator(s, 5))) == seq![
            'u',
            'n',
            'k',
            'n',
            'o',
            'w',
            'n',
        ],
    ensures
        parse_text(s) == Err::<(AddressesView, nat), ParseError>(ParseError::InvalidProtocol),
{
    reveal(parse_body);
    let e = find_terminator(s, 5);
    let proto = token(s.subrange(6, e));
    assert(proto != seq!['U', 'N', 'K', 'N', 'O', 'W', 'N']) by {
        assert(proto[0] != 'U');
    }
    assert(proto != seq!['T', 'C', 'P', '4']) by {
        assert(proto[0] != 'T');
    }
    assert(proto != seq!['T', 'C', 'P', '6']) by {
        assert(proto[0] != 'T');
    }
    assert(e != 5) by {
        assert(s[e] == '\r') by {
            lemma_terminator_found(s, 5);
        }
    }
}

} // verus!
