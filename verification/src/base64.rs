//! Standard Base64 (RFC 4648, `+` and `/`, `=` padding), in which the
//! embedded UI assets are handed to the host.
use vstd::prelude::*;
use crate::text::push_char;

verus! {

/// Character `i` of the standard alphabet `A-Z a-z 0-9 + /`.
pub open spec fn alphabet(i: int) -> char {
    if i < 26 {
        ((65 + i) as u8) as char
    } else if i < 52 {
        ((71 + i) as u8) as char
    } else if i < 62 {
        ((i - 4) as u8) as char
    } else if i == 62 {
        '+'
    } else {
        '/'
    }
}

/// The four characters for a group of `n` bytes (`1 <= n <= 3`), the
/// missing bytes given as zero: the 24 bits of the group read as four
/// 6-bit values, the characters past the `n + 1`-th replaced by `=`.
#[verifier::opaque]
pub open spec fn encode_group(a: u8, b: u8, c: u8, n: int) -> Seq<char> {
    let v = a * 65536 + b * 256 + c;
    seq![
        alphabet(v / 262144),
        alphabet((v / 4096) % 64),
        if n > 1 {
            alphabet((v / 64) % 64)
        } else {
            '='
        },
        if n > 2 {
            alphabet(v % 64)
        } else {
            '='
        },
    ]
}

/// The Base64 text of `bytes`: one group of four characters for every three
/// bytes, the last group padded.
pub open spec fn base64(bytes: Seq<u8>) -> Seq<char>
    decreases bytes.len(),
{
    if bytes.len() == 0 {
        seq![]
    } else if bytes.len() < 3 {
        encode_group(
            bytes[0],
            if bytes.len() > 1 {
                bytes[1]
            } else {
                0
            },
            0,
            bytes.len() as int,
        )
    } else {
        encode_group(bytes[0], bytes[1], bytes[2], 3) + base64(bytes.skip(3))
    }
}

/// The 6-bit value of an alphabet character, or `None` for any other.
pub open spec fn alphabet_index(c: char) -> Option<int> {
    if 'A' <= c && c <= 'Z' {
        Some((c as int) - 65)
    } else if 'a' <= c && c <= 'z' {
        Some((c as int) - 71)
    } else if '0' <= c && c <= '9' {
        Some((c as int) + 4)
    } else if c == '+' {
        Some(62)
    } else if c == '/' {
        Some(63)
    } else {
        None
    }
}

/// The bytes of one group of four characters (RFC 4648, section 4): three
/// bytes, or one or two where the group ends with two or one `=`; a padded
/// group must be the last. `None` where a character is out of place.
#[verifier::opaque]
pub open spec fn decode_group(group: Seq<char>, last: bool) -> Option<Seq<u8>> {
    match (alphabet_index(group[0]), alphabet_index(group[1])) {
        (Some(s0), Some(s1)) => if group[2] == '=' && group[3] == '=' {
            if last {
                Some(seq![(s0 * 4 + s1 / 16) as u8])
            } else {
                None
            }
        } else {
            match alphabet_index(group[2]) {
                None => None,
                Some(s2) => if group[3] == '=' {
                    if last {
                        Some(seq![(s0 * 4 + s1 / 16) as u8, ((s1 % 16) * 16 + s2 / 4) as u8])
                    } else {
                        None
                    }
                } else {
                    match alphabet_index(group[3]) {
                        None => None,
                        Some(s3) => Some(
                            seq![
                                (s0 * 4 + s1 / 16) as u8,
                                ((s1 % 16) * 16 + s2 / 4) as u8,
                                ((s2 % 4) * 64 + s3) as u8,
                            ],
                        ),
                    }
                },
            }
        },
        _ => None,
    }
}

/// Standard Base64 decoding with `=` padding: the text is whole groups of
/// four characters, each decoded in turn.
pub open spec fn base64_decode(text: Seq<char>) -> Option<Seq<u8>>
    decreases text.len(),
{
    if text.len() == 0 {
        Some(seq![])
    } else if text.len() < 4 {
        None
    } else {
        match decode_group(text.take(4), text.len() == 4) {
            None => None,
            Some(head) => match base64_decode(text.skip(4)) {
                None => None,
                Some(tail) => Some(head + tail),
            },
        }
    }
}

proof fn lemma_alphabet_index(i: int)
    requires
        0 <= i < 64,
    ensures
        alphabet_index(alphabet(i)) == Some(i),
{
}

proof fn lemma_group_bits(a: u8, b: u8, c: u8)
    ensures
        ({
            let v = a * 65536 + b * 256 + c;
            &&& 0 <= v / 262144 < 64
            &&& (v / 262144) * 4 + ((v / 4096) % 64) / 16 == a
            &&& (((v / 4096) % 64) % 16) * 16 + ((v / 64) % 64) / 4 == b
            &&& (((v / 64) % 64) % 4) * 64 + v % 64 == c
        }),
{
    assert({
        let v = a * 65536 + b * 256 + c;
        &&& 0 <= v / 262144 < 64
        &&& (v / 262144) * 4 + ((v / 4096) % 64) / 16 == a
        &&& (((v / 4096) % 64) % 16) * 16 + ((v / 64) % 64) / 4 == b
        &&& (((v / 64) % 64) % 4) * 64 + v % 64 == c
    }) by (bit_vector);
}

proof fn lemma_group_round_trip(a: u8, b: u8, c: u8, n: int, last: bool)
    requires
        1 <= n <= 3,
        n < 3 ==> last,
        n < 3 ==> c == 0,
        n < 2 ==> b == 0,
    ensures
        decode_group(encode_group(a, b, c, n), last) == Some(
            if n == 1 {
                seq![a]
            } else if n == 2 {
                seq![a, b]
            } else {
                seq![a, b, c]
            },
        ),
{
    reveal(decode_group);
    reveal(encode_group);
    let v = a * 65536 + b * 256 + c;
    lemma_group_bits(a, b, c);
    assert(0 <= (v / 4096) % 64 < 64);
    assert(0 <= (v / 64) % 64 < 64);
    assert(0 <= v % 64 < 64);
    lemma_alphabet_index(v / 262144);
    lemma_alphabet_index((v / 4096) % 64);
    lemma_alphabet_index((v / 64) % 64);
    lemma_alphabet_index(v % 64);
    lemma_alphabet_not_pad((v / 64) % 64);
    lemma_alphabet_not_pad(v % 64);
    let g = encode_group(a, b, c, n);
    let expected = if n == 1 {
        seq![a]
    } else if n == 2 {
        seq![a, b]
    } else {
        seq![a, b, c]
    };
    assert(decode_group(g, last) =~= Some(expected));
}

proof fn lemma_decode_cons(group: Seq<char>, rest: Seq<char>, head: Seq<u8>, tail: Seq<u8>)
    requires
        group.len() == 4,
        decode_group(group, rest.len() == 0) == Some(head),
        base64_decode(rest) == Some(tail),
    ensures
        base64_decode(group + rest) == Some(head + tail),
{
    let text = group + rest;
    assert(text.take(4) =~= group);
    assert(text.skip(4) =~= rest);
}

proof fn lemma_encode_group_len(a: u8, b: u8, c: u8, n: int)
    ensures
        encode_group(a, b, c, n).len() == 4,
{
    reveal(encode_group);
}

/// Decoding the Base64 text of any bytes gives those bytes back.
#[verifier::rlimit(60)]
pub proof fn base64_round_trip(bytes: Seq<u8>)
    ensures
        base64_decode(base64(bytes)) == Some(bytes),
    decreases bytes.len(),
{
    if bytes.len() == 0 {
    } else if bytes.len() < 3 {
        let b: u8 = if bytes.len() > 1 {
            bytes[1]
        } else {
            0
        };
        let g = encode_group(bytes[0], b, 0, bytes.len() as int);
        assert(base64(bytes) == g);
        lemma_encode_group_len(bytes[0], b, 0, bytes.len() as int);
        lemma_group_round_trip(bytes[0], b, 0, bytes.len() as int, true);
        let head = if bytes.len() == 1 {
            seq![bytes[0]]
        } else {
            seq![bytes[0], bytes[1]]
        };
        assert(head =~= bytes);
        assert(g + Seq::<char>::empty() =~= g);
        assert(head + Seq::<u8>::empty() =~= head);
        lemma_decode_cons(g, Seq::<char>::empty(), head, Seq::<u8>::empty());
    } else {
        let rest = bytes.skip(3);
        base64_round_trip(rest);
        base64_length(rest);
        let g = encode_group(bytes[0], bytes[1], bytes[2], 3);
        assert(base64(bytes) == g + base64(rest));
        lemma_encode_group_len(bytes[0], bytes[1], bytes[2], 3);
        lemma_group_round_trip(bytes[0], bytes[1], bytes[2], 3, base64(rest).len() == 0);
        lemma_decode_cons(g, base64(rest), seq![bytes[0], bytes[1], bytes[2]], rest);
        assert(seq![bytes[0], bytes[1], bytes[2]] + rest =~= bytes);
    }
}

/// Distinct bytes have distinct Base64 texts.
pub proof fn base64_injective(a: Seq<u8>, b: Seq<u8>)
    requires
        base64(a) == base64(b),
    ensures
        a == b,
{
    base64_round_trip(a);
    base64_round_trip(b);
}

/// The encoding is four characters for every started group of three bytes.
pub proof fn base64_length(bytes: Seq<u8>)
    ensures
        base64(bytes).len() == 4 * ((bytes.len() + 2) / 3),
    decreases bytes.len(),
{
    reveal(encode_group);
    if bytes.len() >= 3 {
        base64_length(bytes.skip(3));
    }
}

/// Encoding a whole number of groups and then the rest is encoding the
/// concatenation: the encoding works group by group.
pub proof fn base64_concat(a: Seq<u8>, b: Seq<u8>)
    requires
        a.len() % 3 == 0,
    ensures
        base64(a + b) == base64(a) + base64(b),
    decreases a.len(),
{
    if a.len() == 0 {
        assert(a + b =~= b);
        assert(base64(a) + base64(b) =~= base64(b));
    } else {
        assert((a + b).skip(3) =~= a.skip(3) + b);
        base64_concat(a.skip(3), b);
        assert((a + b)[0] == a[0] && (a + b)[1] == a[1] && (a + b)[2] == a[2]);
        assert(base64(a + b) =~= encode_group(a[0], a[1], a[2], 3) + (base64(a.skip(3)) + base64(
            b,
        )));
    }
}

/// `=` appears only at the end: none when the length is a multiple of
/// three, two after one leftover byte, one after two.
#[verifier::rlimit(60)]
pub proof fn base64_padding(bytes: Seq<u8>)
    ensures
        forall|i: int|
            0 <= i < base64(bytes).len() ==> (#[trigger] base64(bytes)[i] == '=' <==> i
                >= base64(bytes).len() - (3 - bytes.len() % 3) % 3),
    decreases bytes.len(),
{
    reveal(encode_group);
    base64_length(bytes);
    if bytes.len() >= 3 {
        base64_padding(bytes.skip(3));
        base64_length(bytes.skip(3));
        let g = encode_group(bytes[0], bytes[1], bytes[2], 3);
        let v = bytes[0] * 65536 + bytes[1] * 256 + bytes[2];
        assert(0 <= v / 262144 < 64) by (nonlinear_arith)
            requires
                v == bytes[0] * 65536 + bytes[1] * 256 + bytes[2],
                bytes[0] < 256,
                bytes[1] < 256,
                bytes[2] < 256,
        ;
        assert forall|i: int| 0 <= i < 4 implies #[trigger] g[i] != '=' by {
            lemma_alphabet_not_pad(v / 262144);
            lemma_alphabet_not_pad((v / 4096) % 64);
            lemma_alphabet_not_pad((v / 64) % 64);
            lemma_alphabet_not_pad(v % 64);
        }
        assert forall|i: int| 0 <= i < base64(bytes).len() implies (#[trigger] base64(bytes)[i]
            == '=' <==> i >= base64(bytes).len() - (3 - bytes.len() % 3) % 3) by {
            if i >= 4 {
                assert(base64(bytes)[i] == base64(bytes.skip(3))[i - 4]);
            } else {
                assert(base64(bytes)[i] == g[i]);
            }
        }
    } else if bytes.len() > 0 {
        let a = bytes[0];
        let b: u8 = if bytes.len() > 1 {
            bytes[1]
        } else {
            0
        };
        let v = a * 65536 + b * 256;
        assert(0 <= v / 262144 < 64) by (nonlinear_arith)
            requires
                v == a * 65536 + b * 256,
                a < 256,
                b < 256,
        ;
        lemma_alphabet_not_pad(v / 262144);
        lemma_alphabet_not_pad((v / 4096) % 64);
        lemma_alphabet_not_pad((v / 64) % 64);
    }
}

proof fn lemma_alphabet_not_pad(i: int)
    requires
        0 <= i < 64,
    ensures
        alphabet(i) != '=',
{
}

/// Character `i` of the alphabet.
fn alphabet_char(i: u32) -> (c: char)
    requires
        i < 64,
    ensures
        c == alphabet(i as int),
{
    if i < 26 {
        (65 + i as u8) as char
    } else if i < 52 {
        (71 + i as u8) as char
    } else if i < 62 {
        (i as u8 - 4) as char
    } else if i == 62 {
        '+'
    } else {
        '/'
    }
}

/// Appends the group for `n` bytes `a, b, c` (missing ones zero).
fn push_group(out: &mut String, a: u8, b: u8, c: u8, n: usize)
    requires
        1 <= n <= 3,
    ensures
        final(out)@ == old(out)@ + encode_group(a, b, c, n as int),
{
    reveal(encode_group);
    let value: u32 = ((a as u32) << 16) | ((b as u32) << 8) | (c as u32);
    let ghost v: int = a * 65536 + b * 256 + c;
    assert(value == a * 65536 + b * 256 + c) by (bit_vector)
        requires
            value == ((a as u32) << 16) | ((b as u32) << 8) | (c as u32),
    ;
    assert((value >> 18) & 63 == value / 262144 && (value >> 12) & 63 == (value / 4096) % 64 && (
    value >> 6) & 63 == (value / 64) % 64 && value & 63 == value % 64) by (bit_vector)
        requires
            value < 16777216,
    ;
    push_char(out, alphabet_char((value >> 18) & 63));
    push_char(out, alphabet_char((value >> 12) & 63));
    if n > 1 {
        push_char(out, alphabet_char((value >> 6) & 63));
    } else {
        push_char(out, '=');
    }
    if n > 2 {
        push_char(out, alphabet_char(value & 63));
    } else {
        push_char(out, '=');
    }
    assert(final(out)@ =~= old(out)@ + encode_group(a, b, c, n as int));
}

/// The standard Base64 text of `bytes`, with `=` padding.
pub fn encode_base64(bytes: &[u8]) -> (res: String)
    ensures
        res@ == base64(bytes@),
        res@.len() == 4 * ((bytes@.len() + 2) / 3),
{
    let mut out = String::new();
    let mut i: usize = 0;
    assert(bytes@.skip(0) =~= bytes@);
    while i < bytes.len()
        invariant
            i <= bytes.len(),
            base64(bytes@) == out@ + base64(bytes@.skip(i as int)),
        decreases bytes.len() - i,
    {
        let rest = bytes.len() - i;
        let ghost tail = bytes@.skip(i as int);
        if rest >= 3 {
            push_group(&mut out, bytes[i], bytes[i + 1], bytes[i + 2], 3);
            assert(tail.skip(3) =~= bytes@.skip(i + 3));
            i = i + 3;
        } else {
            let b = if rest > 1 {
                bytes[i + 1]
            } else {
                0
            };
            push_group(&mut out, bytes[i], b, 0, rest);
            i = bytes.len();
            assert(bytes@.skip(i as int) =~= Seq::<u8>::empty());
        }
    }
    assert(bytes@.skip(i as int) =~= Seq::<u8>::empty());
    proof {
        base64_length(bytes@);
    }
    out
}

} // verus!
