//! Base64 transport encoding for checkpoints (standard alphabet, `=` padding).
//!
//! Decoding skips every character outside the alphabet (padding included), so
//! decoding the encoding of any byte string gives it back.

use vstd::prelude::*;
use vstd::std_specs::iter::IteratorSpec;

verus! {

broadcast use vstd::string::group_string_axioms;

/// The character of a 6-bit value in the standard alphabet
/// `A-Z`, `a-z`, `0-9`, `+`, `/`.
pub open spec fn b64_symbol(i: u8) -> char {
    if i < 26 {
        (65 + i) as char
    } else if i < 52 {
        (97 + (i - 26)) as char
    } else if i < 62 {
        (48 + (i - 52)) as char
    } else if i == 62 {
        '+'
    } else {
        '/'
    }
}

/// The 6-bit value of an alphabet character; `None` for any other character.
pub open spec fn b64_value(c: char) -> Option<u8> {
    if 65 <= (c as u32) <= 90 {
        Some(((c as u32) - 65) as u8)
    } else if 97 <= (c as u32) <= 122 {
        Some(((c as u32) - 97 + 26) as u8)
    } else if 48 <= (c as u32) <= 57 {
        Some(((c as u32) - 48 + 52) as u8)
    } else if c == '+' {
        Some(62u8)
    } else if c == '/' {
        Some(63u8)
    } else {
        None
    }
}

/// The four characters that encode a chunk of one to three bytes; missing bytes
/// count as zero and their positions are padded with `=`.
pub open spec fn enc_chunk(chunk: Seq<u8>) -> Seq<char> {
    let b0 = chunk[0];
    let b1: u8 = if chunk.len() > 1 {
        chunk[1]
    } else {
        0
    };
    let b2: u8 = if chunk.len() > 2 {
        chunk[2]
    } else {
        0
    };
    seq![
        b64_symbol(b0 >> 2),
        b64_symbol(((b0 & 3u8) << 4u8) | (b1 >> 4)),
        if chunk.len() > 1 {
            b64_symbol(((b1 & 15u8) << 2u8) | (b2 >> 6))
        } else {
            '='
        },
        if chunk.len() > 2 {
            b64_symbol(b2 & 63u8)
        } else {
            '='
        },
    ]
}

/// The encoding of a byte string: its chunks of three bytes, each encoded in turn.
pub open spec fn encode_spec(data: Seq<u8>) -> Seq<char>
    decreases data.len(),
{
    if data.len() == 0 {
        Seq::empty()
    } else if data.len() <= 3 {
        enc_chunk(data)
    } else {
        enc_chunk(data.take(3)) + encode_spec(data.skip(3))
    }
}

/// The 6-bit values of the alphabet characters of `cs`, in order; other characters
/// are skipped.
pub open spec fn digits(cs: Seq<char>) -> Seq<u8>
    decreases cs.len(),
{
    if cs.len() == 0 {
        Seq::empty()
    } else {
        match b64_value(cs[0]) {
            Some(v) => seq![v] + digits(cs.drop_first()),
            None => digits(cs.drop_first()),
        }
    }
}

/// The bytes that a group of up to four 6-bit values decodes to: one byte per value
/// after the first.
pub open spec fn dec_chunk(d: Seq<u8>) -> Seq<u8> {
    if d.len() >= 4 {
        seq![(d[0] << 2u8) | (d[1] >> 4), (d[1] << 4u8) | (d[2] >> 2), (d[2] << 6u8) | d[3]]
    } else if d.len() == 3 {
        seq![(d[0] << 2u8) | (d[1] >> 4), (d[1] << 4u8) | (d[2] >> 2)]
    } else if d.len() == 2 {
        seq![(d[0] << 2u8) | (d[1] >> 4)]
    } else {
        Seq::empty()
    }
}

/// The bytes that a sequence of 6-bit values decodes to, group of four by group of four.
pub open spec fn decode_digits(d: Seq<u8>) -> Seq<u8>
    decreases d.len(),
{
    if d.len() == 0 {
        Seq::empty()
    } else if d.len() <= 4 {
        dec_chunk(d)
    } else {
        dec_chunk(d.take(4)) + decode_digits(d.skip(4))
    }
}

/// The bytes that a string decodes to.
pub open spec fn decode_spec(cs: Seq<char>) -> Seq<u8> {
    decode_digits(digits(cs))
}

/// The character for a 6-bit value.
fn symbol(i: u8) -> (c: char)
    requires
        i < 64,
    ensures
        c == b64_symbol(i),
{
    if i < 26 {
        (65 + i) as char
    } else if i < 52 {
        (97 + (i - 26)) as char
    } else if i < 62 {
        (48 + (i - 52)) as char
    } else if i == 62 {
        '+'
    } else {
        '/'
    }
}

/// The 6-bit value of a character, if it belongs to the alphabet.
fn value(c: char) -> (r: Option<u8>)
    ensures
        r == b64_value(c),
{
    let v = c as u32;
    if 65 <= v && v <= 90 {
        Some((v - 65) as u8)
    } else if 97 <= v && v <= 122 {
        Some((v - 97 + 26) as u8)
    } else if 48 <= v && v <= 57 {
        Some((v - 48 + 52) as u8)
    } else if v == 43 {
        Some(62)
    } else if v == 47 {
        Some(63)
    } else {
        None
    }
}

/// Appends a character to a string with `String::push`; the string gains that
/// character at its end.
#[verifier::external_body]
fn push_char(s: &mut String, c: char)
    ensures
        final(s)@ == old(s)@.push(c),
{
    s.push(c);
}

/// Encodes bytes as Base64 with `=` padding.
pub fn base64_encode(data: &[u8]) -> (r: String)
    ensures
        r@ == encode_spec(data@),
{
    let n = data.len();
    let mut result = String::new();
    let mut i: usize = 0;
    proof {
        assert(data@.skip(0) =~= data@);
    }
    while i < n
        invariant
            n == data@.len(),
            i <= n,
            encode_spec(data@) =~= result@ + encode_spec(data@.skip(i as int)),
        decreases n - i,
    {
        let ghost rest = data@.skip(i as int);
        let len = if n - i >= 3 {
            3
        } else {
            n - i
        };
        let b0 = data[i];
        let b1: u8 = if len > 1 {
            data[i + 1]
        } else {
            0
        };
        let b2: u8 = if len > 2 {
            data[i + 2]
        } else {
            0
        };
        assert((b0 >> 2) < 64 && (((b0 & 3u8) << 4u8) | (b1 >> 4)) < 64 && (((b1 & 15u8) << 2u8)
            | (b2 >> 6)) < 64 && (b2 & 63u8) < 64) by (bit_vector);
        let ghost prev = result@;
        push_char(&mut result, symbol(b0 >> 2));
        push_char(&mut result, symbol(((b0 & 3) << 4) | (b1 >> 4)));
        if len > 1 {
            push_char(&mut result, symbol(((b1 & 15) << 2) | (b2 >> 6)));
        } else {
            push_char(&mut result, '=');
        }
        if len > 2 {
            push_char(&mut result, symbol(b2 & 63));
        } else {
            push_char(&mut result, '=');
        }
        proof {
            let chunk = if rest.len() <= 3 {
                rest
            } else {
                rest.take(3)
            };
            assert(chunk.len() == len);
            assert(chunk[0] == b0);
            assert(len > 1 ==> chunk[1] == b1);
            assert(len > 2 ==> chunk[2] == b2);
            assert(result@ =~= prev + enc_chunk(chunk));
            if rest.len() <= 3 {
                assert(data@.skip(i + len) =~= Seq::<u8>::empty());
            } else {
                assert(rest.skip(3) =~= data@.skip(i + 3));
            }
        }
        i = i + len;
    }
    result
}

/// Decodes Base64, skipping characters outside the alphabet; always `Some`.
pub fn base64_decode(s: &str) -> (r: Option<Vec<u8>>)
    ensures
        r is Some,
        r matches Some(v) ==> v@ == decode_spec(s@),
{
    let mut ds: Vec<u8> = Vec::new();
    let mut it = s.chars();
    loop
        invariant
            it.obeys_prophetic_iter_laws(),
            it.decrease() is Some,
            ds@ + digits(it.remaining()) == digits(s@),
        ensures
            ds@ == digits(s@),
        decreases it.decrease()->0,
    {
        let ghost rem = it.remaining();
        match it.next() {
            Some(c) => {
                proof {
                    assert(rem.drop_first() == it.remaining());
                }
                match value(c) {
                    Some(v) => {
                        ds.push(v);
                        proof {
                            assert(ds@ + digits(it.remaining()) =~= (ds@.drop_last() + digits(rem)));
                        }
                    },
                    None => {},
                }
            },
            None => {
                proof {
                    assert(ds@ =~= digits(s@));
                }
                break ;
            },
        }
    }
    let n = ds.len();
    let mut result: Vec<u8> = Vec::new();
    let mut i: usize = 0;
    proof {
        assert(ds@.skip(0) =~= ds@);
    }
    while i < n
        invariant
            n == ds@.len(),
            i <= n,
            decode_digits(ds@) =~= result@ + decode_digits(ds@.skip(i as int)),
        decreases n - i,
    {
        let ghost rest = ds@.skip(i as int);
        let len = if n - i >= 4 {
            4
        } else {
            n - i
        };
        let ghost prev = result@;
        if len >= 2 {
            result.push((ds[i] << 2) | (ds[i + 1] >> 4));
        }
        if len >= 3 {
            result.push((ds[i + 1] << 4) | (ds[i + 2] >> 2));
        }
        if len >= 4 {
            result.push((ds[i + 2] << 6) | ds[i + 3]);
        }
        proof {
            let chunk = if rest.len() <= 4 {
                rest
            } else {
                rest.take(4)
            };
            assert(chunk.len() == len);
            assert(result@ =~= prev + dec_chunk(chunk));
            if rest.len() <= 4 {
                assert(ds@.skip(i + len) =~= Seq::<u8>::empty());
            } else {
                assert(rest.skip(4) =~= ds@.skip(i + 4));
            }
        }
        i = i + len;
    }
    Some(result)
}

/// Every 6-bit value is read back from its character.
proof fn lemma_symbol_value(i: u8)
    requires
        i < 64,
    ensures
        b64_value(b64_symbol(i)) == Some(i),
{
}

/// The padding character is not part of the alphabet.
proof fn lemma_pad_value()
    ensures
        b64_value('=') is None,
{
}

/// Splitting three bytes into four 6-bit values and joining them gives the bytes back.
proof fn lemma_chunk_bits(b0: u8, b1: u8, b2: u8)
    ensures
        (b0 >> 2) < 64,
        (((b0 & 3u8) << 4u8) | (b1 >> 4)) < 64,
        (((b1 & 15u8) << 2u8) | (b2 >> 6)) < 64,
        (b2 & 63u8) < 64,
        (((b0 >> 2) << 2u8) | ((((b0 & 3u8) << 4u8) | (b1 >> 4)) >> 4)) == b0,
        (((((b0 & 3u8) << 4u8) | (b1 >> 4)) << 4u8) | ((((b1 & 15u8) << 2u8) | (b2 >> 6)) >> 2))
            == b1,
        (((((b1 & 15u8) << 2u8) | (b2 >> 6)) << 6u8) | (b2 & 63u8)) == b2,
{
    assert((b0 >> 2) < 64) by (bit_vector);
    assert((((b0 & 3u8) << 4u8) | (b1 >> 4)) < 64) by (bit_vector);
    assert((((b1 & 15u8) << 2u8) | (b2 >> 6)) < 64) by (bit_vector);
    assert((b2 & 63u8) < 64) by (bit_vector);
    assert((((b0 >> 2) << 2u8) | ((((b0 & 3u8) << 4u8) | (b1 >> 4)) >> 4)) == b0) by (bit_vector);
    assert((((((b0 & 3u8) << 4u8) | (b1 >> 4)) << 4u8) | ((((b1 & 15u8) << 2u8) | (b2 >> 6))
        >> 2)) == b1) by (bit_vector);
    assert((((((b1 & 15u8) << 2u8) | (b2 >> 6)) << 6u8) | (b2 & 63u8)) == b2) by (bit_vector);
}

/// Skipping characters distributes over concatenation.
proof fn lemma_digits_append(a: Seq<char>, b: Seq<char>)
    ensures
        digits(a + b) == digits(a) + digits(b),
    decreases a.len(),
{
    if a.len() == 0 {
        assert(a + b =~= b);
        assert(digits(a) + digits(b) =~= digits(b));
    } else {
        assert((a + b).drop_first() =~= a.drop_first() + b);
        lemma_digits_append(a.drop_first(), b);
        match b64_value(a[0]) {
            Some(v) => {
                assert(seq![v] + (digits(a.drop_first()) + digits(b)) =~= (seq![v] + digits(
                    a.drop_first(),
                )) + digits(b));
            },
            None => {},
        }
    }
}

/// The 6-bit values read from the encoding of one chunk decode to the chunk.
proof fn lemma_chunk_roundtrip(chunk: Seq<u8>)
    requires
        1 <= chunk.len() <= 3,
    ensures
        2 <= digits(enc_chunk(chunk)).len() <= 4,
        digits(enc_chunk(chunk)).len() == chunk.len() + 1,
        dec_chunk(digits(enc_chunk(chunk))) == chunk,
{
    let b0 = chunk[0];
    let b1: u8 = if chunk.len() > 1 {
        chunk[1]
    } else {
        0
    };
    let b2: u8 = if chunk.len() > 2 {
        chunk[2]
    } else {
        0
    };
    lemma_chunk_bits(b0, b1, b2);
    let d0 = b0 >> 2;
    let d1 = ((b0 & 3u8) << 4u8) | (b1 >> 4);
    let d2 = ((b1 & 15u8) << 2u8) | (b2 >> 6);
    let d3 = b2 & 63u8;
    lemma_symbol_value(d0);
    lemma_symbol_value(d1);
    lemma_symbol_value(d2);
    lemma_symbol_value(d3);
    lemma_pad_value();
    let e = enc_chunk(chunk);
    assert(e.len() == 4);
    reveal_with_fuel(digits, 5);
    assert(e.drop_first().drop_first().drop_first().drop_first() =~= Seq::<char>::empty());
    if chunk.len() == 1 {
        assert(digits(e) =~= seq![d0, d1]);
        assert(dec_chunk(seq![d0, d1]) =~= chunk);
    } else if chunk.len() == 2 {
        assert(digits(e) =~= seq![d0, d1, d2]);
        assert(dec_chunk(seq![d0, d1, d2]) =~= chunk);
    } else {
        assert(digits(e) =~= seq![d0, d1, d2, d3]);
        assert(dec_chunk(seq![d0, d1, d2, d3]) =~= chunk);
    }
}

/// The encoding of a non-empty byte string yields at least two 6-bit values.
proof fn lemma_encode_digits_nonempty(data: Seq<u8>)
    requires
        data.len() > 0,
    ensures
        digits(encode_spec(data)).len() >= 2,
    decreases data.len(),
{
    if data.len() <= 3 {
        lemma_chunk_roundtrip(data);
    } else {
        lemma_chunk_roundtrip(data.take(3));
        lemma_digits_append(enc_chunk(data.take(3)), encode_spec(data.skip(3)));
    }
}

/// Decoding the encoding of any byte string gives the byte string back.
pub proof fn lemma_base64_roundtrip(data: Seq<u8>)
    ensures
        decode_spec(encode_spec(data)) == data,
    decreases data.len(),
{
    if data.len() == 0 {
        assert(digits(Seq::<char>::empty()) =~= Seq::<u8>::empty());
        assert(decode_digits(Seq::<u8>::empty()) =~= data);
    } else if data.len() <= 3 {
        lemma_chunk_roundtrip(data);
    } else {
        let head = data.take(3);
        let tail = data.skip(3);
        lemma_chunk_roundtrip(head);
        lemma_digits_append(enc_chunk(head), encode_spec(tail));
        lemma_encode_digits_nonempty(tail);
        lemma_base64_roundtrip(tail);
        let g = digits(enc_chunk(head));
        let rest = digits(encode_spec(tail));
        assert((g + rest).take(4) =~= g);
        assert((g + rest).skip(4) =~= rest);
        assert(head + tail =~= data);
    }
}

} // verus!
