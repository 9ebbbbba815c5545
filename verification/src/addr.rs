//! Backend network addresses: the textual `<host>:<port>` form, its
//! grammar as spec functions, and a verified parser.
//!
//! A backend endpoint is held as plain values (four IPv4 octets and a
//! port) so that everything downstream of parsing can be reasoned about
//! directly; the socket layer outside this library converts to its own
//! address type when it dials.

use vstd::prelude::*;
use vstd::string::StrSliceExecFns;
use vstd::string::StringExecFns;

use crate::numeral::all_digits;
use crate::numeral::dec_value;
use crate::numeral::is_dec_digit;
use crate::numeral::digit_value;

verus! {

/// A resolved backend endpoint: an IPv4 host and a port, immutable once
/// parsed.
#[derive(Clone, Copy, PartialEq, Eq, Structural, Debug, Hash)]
pub struct BackendAddress {
    pub o1: u8,
    pub o2: u8,
    pub o3: u8,
    pub o4: u8,
    pub port: u16,
}

/// The first position at or after `i` where `c` occurs in `s`.
pub open spec fn first_at_from(s: Seq<char>, c: char, i: int) -> Option<int>
    decreases s.len() - i,
{
    if i < 0 || i >= s.len() {
        None
    } else if s[i] == c {
        Some(i)
    } else {
        first_at_from(s, c, i + 1)
    }
}

/// A non-empty run of digits with no leading zero.
pub open spec fn is_canonical_digits(s: Seq<char>) -> bool {
    s.len() >= 1 && all_digits(s) && (s.len() == 1 || s[0] != '0')
}

/// The text of one IPv4 octet: canonical digits of value at most 255.
pub open spec fn is_octet_text(s: Seq<char>) -> bool {
    is_canonical_digits(s) && dec_value(s) <= 255
}

/// The text of a port: a non-empty run of digits (leading zeros allowed)
/// whose value fits a `u16`.
pub open spec fn is_port_text(s: Seq<char>) -> bool {
    s.len() >= 1 && all_digits(s) && dec_value(s) <= 65535
}

/// An IPv4 host `a.b.c.d`, split at its first three dots. The fourth
/// segment must itself be an octet, so a host with more than three dots
/// never parses.
pub open spec fn parse_host_spec(h: Seq<char>) -> Option<(u8, u8, u8, u8)> {
    match first_at_from(h, '.', 0) {
        None => None,
        Some(d1) => match first_at_from(h, '.', d1 + 1) {
            None => None,
            Some(d2) => match first_at_from(h, '.', d2 + 1) {
                None => None,
                Some(d3) => {
                    let s1 = h.subrange(0, d1);
                    let s2 = h.subrange(d1 + 1, d2);
                    let s3 = h.subrange(d2 + 1, d3);
                    let s4 = h.subrange(d3 + 1, h.len() as int);
                    if is_octet_text(s1) && is_octet_text(s2) && is_octet_text(s3)
                        && is_octet_text(s4) {
                        Some(
                            (
                                dec_value(s1) as u8,
                                dec_value(s2) as u8,
                                dec_value(s3) as u8,
                                dec_value(s4) as u8,
                            ),
                        )
                    } else {
                        None
                    }
                },
            },
        },
    }
}

/// A backend address `<host>:<port>`, split at the first colon. The port
/// text may not contain a colon, so text with more than one colon never
/// parses.
pub open spec fn parse_addr_spec(s: Seq<char>) -> Option<BackendAddress> {
    match first_at_from(s, ':', 0) {
        None => None,
        Some(ci) => {
            let host = s.subrange(0, ci);
            let port = s.subrange(ci + 1, s.len() as int);
            match parse_host_spec(host) {
                None => None,
                Some(o) => if is_port_text(port) {
                    Some(
                        BackendAddress {
                            o1: o.0,
                            o2: o.1,
                            o3: o.2,
                            o4: o.3,
                            port: dec_value(port) as u16,
                        },
                    )
                } else {
                    None
                },
            }
        },
    }
}

/// A value never shrinks when its digit text is extended to the right.
proof fn lemma_dec_value_prefix_mono(t: Seq<char>, k: int)
    requires
        0 <= k <= t.len(),
    ensures
        dec_value(t) >= dec_value(t.subrange(0, k)),
    decreases t.len(),
{
    if t.len() == k {
        assert(t.subrange(0, k) =~= t);
    } else {
        lemma_dec_value_prefix_mono(t.drop_last(), k);
        assert(t.drop_last().subrange(0, k) =~= t.subrange(0, k));
    }
}

/// Scan `s` for the first occurrence of `c` within `[from, to)`.
fn find_char_within(s: &str, c: char, from: usize, to: usize) -> (r: Option<usize>)
    requires
        from <= to <= s@.len(),
    ensures
        match r {
            Some(i) => from <= i < to && first_at_from(s@.subrange(0, to as int), c, from as int)
                == Some(i as int),
            None => first_at_from(s@.subrange(0, to as int), c, from as int) is None,
        },
{
    let ghost prefix = s@.subrange(0, to as int);
    let mut i = from;
    while i < to
        invariant
            from <= i <= to <= s@.len(),
            prefix == s@.subrange(0, to as int),
            first_at_from(prefix, c, from as int) == first_at_from(prefix, c, i as int),
        decreases to - i,
    {
        let ch = s.get_char(i);
        proof {
            assert(prefix[i as int] == s@[i as int]);
        }
        if ch == c {
            return Some(i);
        }
        i = i + 1;
    }
    None
}

/// Parse the digits of `s` within `[from, to)` as a decimal value of at
/// most `max`, rejecting empty segments, non-digits, and larger values.
fn parse_decimal_segment(s: &str, from: usize, to: usize, max: u32) -> (r: Option<u32>)
    requires
        from <= to <= s@.len(),
        max <= 65535,
    ensures
        ({
            let seg = s@.subrange(from as int, to as int);
            match r {
                Some(v) => seg.len() >= 1 && all_digits(seg) && dec_value(seg) == v && v <= max,
                None => !(seg.len() >= 1 && all_digits(seg) && dec_value(seg) <= max),
            }
        }),
{
    let ghost seg = s@.subrange(from as int, to as int);
    if from == to {
        return None;
    }
    let mut i = from;
    let mut acc: u32 = 0;
    while i < to
        invariant
            from <= i <= to <= s@.len(),
            from < to,
            max <= 65535,
            seg == s@.subrange(from as int, to as int),
            all_digits(seg.subrange(0, i - from)),
            dec_value(seg.subrange(0, i - from)) == acc,
            acc <= max,
        decreases to - i,
    {
        let ch = s.get_char(i);
        proof {
            assert(seg[i - from] == s@[i as int]);
        }
        let code = ch as u32;
        if code < 48 || code > 57 {
            proof {
                assert(!is_dec_digit(seg[i - from]));
            }
            return None;
        }
        let d: u32 = code - 48;
        proof {
            assert(is_dec_digit(seg[i - from]));
            assert(digit_value(seg[i - from]) == d);
        }
        let next: u32 = acc * 10 + d;
        let ghost p = seg.subrange(0, i - from);
        proof {
            assert(seg.subrange(0, i - from + 1).drop_last() =~= p);
            assert(seg.subrange(0, i - from + 1).last() == seg[i - from]);
            assert(dec_value(seg.subrange(0, i - from + 1)) == next);
        }
        if next > max {
            proof {
                lemma_dec_value_prefix_mono(seg, i - from + 1);
            }
            return None;
        }
        acc = next;
        i = i + 1;
    }
    proof {
        assert(seg.subrange(0, to - from) =~= seg);
    }
    Some(acc)
}

/// Parse `<a>.<b>.<c>.<d>:<port>` as a backend address.
///
/// Returns `Some` exactly when the text has that shape: four decimal
/// octets without leading zeros, each at most 255, then a colon, then a
/// decimal port of value at most 65535.
pub fn parse_backend_address(s: &str) -> (r: Option<BackendAddress>)
    ensures
        r == parse_addr_spec(s@),
{
    let n = s.unicode_len();
    proof {
        assert(s@.subrange(0, n as int) =~= s@);
    }
    let ci = match find_char_within(s, ':', 0, n) {
        Some(i) => i,
        None => {
            return None;
        },
    };
    let ghost host = s@.subrange(0, ci as int);
    let d1 = match find_char_within(s, '.', 0, ci) {
        Some(i) => i,
        None => {
            return None;
        },
    };
    let d2 = match find_char_within(s, '.', d1 + 1, ci) {
        Some(i) => i,
        None => {
            return None;
        },
    };
    let d3 = match find_char_within(s, '.', d2 + 1, ci) {
        Some(i) => i,
        None => {
            return None;
        },
    };
    proof {
        assert(host.subrange(0, d1 as int) =~= s@.subrange(0, d1 as int));
        assert(host.subrange(d1 + 1, d2 as int) =~= s@.subrange(d1 + 1, d2 as int));
        assert(host.subrange(d2 + 1, d3 as int) =~= s@.subrange(d2 + 1, d3 as int));
        assert(host.subrange(d3 + 1, ci as int) =~= s@.subrange(d3 + 1, ci as int));
    }
    let v1 = match parse_octet(s, 0, d1) {
        Some(v) => v,
        None => {
            return None;
        },
    };
    let v2 = match parse_octet(s, d1 + 1, d2) {
        Some(v) => v,
        None => {
            return None;
        },
    };
    let v3 = match parse_octet(s, d2 + 1, d3) {
        Some(v) => v,
        None => {
            return None;
        },
    };
    let v4 = match parse_octet(s, d3 + 1, ci) {
        Some(v) => v,
        None => {
            return None;
        },
    };
    let port = match parse_decimal_segment(s, ci + 1, n, 65535) {
        Some(v) => v,
        None => {
            return None;
        },
    };
    Some(
        BackendAddress { o1: v1, o2: v2, o3: v3, o4: v4, port: port as u16 },
    )
}

/// Parse the text within `[from, to)` as one IPv4 octet.
fn parse_octet(s: &str, from: usize, to: usize) -> (r: Option<u8>)
    requires
        from <= to <= s@.len(),
    ensures
        ({
            let seg = s@.subrange(from as int, to as int);
            match r {
                Some(v) => is_octet_text(seg) && dec_value(seg) == v,
                None => !is_octet_text(seg),
            }
        }),
{
    let ghost seg = s@.subrange(from as int, to as int);
    let v = match parse_decimal_segment(s, from, to, 255) {
        Some(v) => v,
        None => {
            return None;
        },
    };
    if to - from > 1 {
        let ch = s.get_char(from);
        proof {
            assert(seg[0] == s@[from as int]);
        }
        if ch == '0' {
            return None;
        }
    }
    Some(v as u8)
}

/// The text `127.0.0.1:<port>`: the loopback listen address that the
/// proxies and the example servers bind.
pub open spec fn loopback_listen_chars(port: u16) -> Seq<char> {
    "127.0.0.1:"@ + crate::numeral::dec_chars(port as nat)
}

/// Build the loopback listen address text for a port.
pub fn loopback_listen_address(port: u16) -> (s: String)
    ensures
        s@ == loopback_listen_chars(port),
{
    let mut s = String::from_str("127.0.0.1:");
    let digits = crate::numeral::u16_to_dec_string(port);
    s.append(digits.as_str());
    s
}

/// Where a character is known to stand first: if `s[j]` is `c` and no
/// position from `from` up to `j` holds `c`, the search lands on `j`.
proof fn lemma_first_at_found(s: Seq<char>, c: char, from: int, j: int)
    requires
        0 <= from <= j < s.len(),
        s[j] == c,
        forall|k: int| from <= k < j ==> s[k] != c,
    ensures
        first_at_from(s, c, from) == Some(j),
    decreases j - from,
{
    if from < j {
        lemma_first_at_found(s, c, from + 1, j);
    }
}

/// A single digit character is an octet text carrying its own value.
proof fn lemma_octet_single(c: char)
    requires
        is_dec_digit(c),
    ensures
        is_octet_text(seq![c]),
        dec_value(seq![c]) == digit_value(c),
{
    assert(seq![c].drop_last() =~= Seq::<char>::empty());
    assert(dec_value(Seq::<char>::empty()) == 0);
    assert(all_digits(seq![c])) by {
        assert(forall|i: int| 0 <= i < 1 ==> #[trigger] seq![c][i] == c);
    }
}

/// The text `127` is an octet of value 127.
proof fn lemma_octet_127()
    ensures
        is_octet_text(seq!['1', '2', '7']),
        dec_value(seq!['1', '2', '7']) == 127,
{
    let a = seq!['1', '2', '7'];
    assert(a.drop_last() =~= seq!['1', '2']);
    assert(seq!['1', '2'].drop_last() =~= seq!['1']);
    assert(seq!['1'].drop_last() =~= Seq::<char>::empty());
    assert(dec_value(Seq::<char>::empty()) == 0);
    assert(dec_value(seq!['1']) == 1);
    assert(dec_value(seq!['1', '2']) == 12);
    assert(dec_value(a) == 127);
    assert(all_digits(a)) by {
        assert forall|i: int| 0 <= i < 3 implies is_dec_digit(#[trigger] a[i]) by {
            if i == 0 {
                assert(a[0] == '1');
            } else if i == 1 {
                assert(a[1] == '2');
            } else {
                assert(a[2] == '7');
            }
        }
    }
}

/// The listen text the proxies and servers construct is itself a valid
/// `<host>:<port>` text: it parses back to the loopback host with the
/// same port.
pub proof fn lemma_listen_address_parses(port: u16)
    ensures
        parse_addr_spec(loopback_listen_chars(port)) == Some(
            BackendAddress { o1: 127, o2: 0, o3: 0, o4: 1, port: port },
        ),
{
    reveal_strlit("127.0.0.1:");
    let lit = "127.0.0.1:"@;
    let ds = crate::numeral::dec_chars(port as nat);
    let s = loopback_listen_chars(port);
    crate::numeral::lemma_dec_chars_digits(port as nat);
    crate::numeral::lemma_dec_value_of_dec_chars(port as nat);
    assert(lit.len() == 10);
    assert(s.len() == 10 + ds.len());
    assert(s[9] == ':');
    assert forall|k: int| 0 <= k < 9 implies s[k] != ':' by {
        assert(s[k] == lit[k]);
        if k == 0 {
            assert(lit[0] == '1');
        } else if k == 1 {
            assert(lit[1] == '2');
        } else if k == 2 {
            assert(lit[2] == '7');
        } else if k == 3 {
            assert(lit[3] == '.');
        } else if k == 4 {
            assert(lit[4] == '0');
        } else if k == 5 {
            assert(lit[5] == '.');
        } else if k == 6 {
            assert(lit[6] == '0');
        } else if k == 7 {
            assert(lit[7] == '.');
        } else {
            assert(lit[8] == '1');
        }
    }
    lemma_first_at_found(s, ':', 0, 9);
    let host = s.subrange(0, 9);
    assert(host[0] == '1' && host[1] == '2' && host[2] == '7' && host[3] == '.');
    assert(host[4] == '0' && host[5] == '.' && host[6] == '0' && host[7] == '.');
    assert(host[8] == '1');
    lemma_first_at_found(host, '.', 0, 3);
    lemma_first_at_found(host, '.', 4, 5);
    lemma_first_at_found(host, '.', 6, 7);
    assert(host.subrange(0, 3) =~= seq!['1', '2', '7']);
    assert(host.subrange(4, 5) =~= seq!['0']);
    assert(host.subrange(6, 7) =~= seq!['0']);
    assert(host.subrange(8, 9) =~= seq!['1']);
    lemma_octet_127();
    lemma_octet_single('0');
    lemma_octet_single('1');
    assert(digit_value('0') == 0);
    assert(digit_value('1') == 1);
    assert(parse_host_spec(host) == Some((127u8, 0u8, 0u8, 1u8)));
    assert(s.subrange(10, s.len() as int) =~= ds);
    assert(is_port_text(ds));
}

} // verus!
