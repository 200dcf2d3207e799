//! The pieces of the WebSocket protocol that the telemetry server needs:
//! the SHA-1 digest and Base64 text of the handshake's accept key, the
//! handshake itself, and the framing of outgoing text messages.
use vstd::prelude::*;
use vstd::string::StringSliceAdditionalSpecFns;
use crate::text::{chars_of, find_first, first_occurrence, push_char, push_str, string_from_chars, trim, trim_chars};
use vstd::utf8::encode_utf8;

verus! {

/// The five 32-bit chaining words of SHA-1.
pub type Sha1Words = (u32, u32, u32, u32, u32);

/// 32-bit addition modulo 2^32.
pub open spec fn wadd(x: u32, y: u32) -> u32 {
    vstd::wrapping::u32_specs::wrapping_add(x, y)
}

/// Left rotation of a 32-bit word by `n` bits, for `0 < n < 32`.
pub open spec fn rotl(x: u32, n: u32) -> u32 {
    (x << n) | (x >> ((32 - n) as u32))
}

/// The initial chaining value of SHA-1 (FIPS 180-4, 5.3.1).
pub open spec fn sha1_init() -> Sha1Words {
    (0x67452301u32, 0xEFCDAB89u32, 0x98BADCFEu32, 0x10325476u32, 0xC3D2E1F0u32)
}

/// The number of zero bytes between the 0x80 marker and the length field,
/// so that the padded message fills whole 64-byte blocks.
pub open spec fn sha1_zero_count(len: nat) -> nat {
    ((55 - (len % 64) as int) % 64) as nat
}

/// Byte `j` (most significant first) of a 64-bit word.
pub open spec fn be64_byte(x: u64, j: int) -> u8 {
    ((x >> ((56 - 8 * j) as u64)) & 0xFFu64) as u8
}

/// The message length in bits, as eight big-endian bytes.
pub open spec fn sha1_length_field(len: nat) -> Seq<u8> {
    Seq::new(8, |j: int| be64_byte((len * 8) as u64, j))
}

/// The padded message: the message, the byte 0x80, zero bytes, and the
/// bit length (FIPS 180-4, 5.1.1).
pub open spec fn sha1_pad(msg: Seq<u8>) -> Seq<u8> {
    msg + seq![0x80u8] + Seq::new(sha1_zero_count(msg.len()), |j: int| 0u8) + sha1_length_field(
        msg.len(),
    )
}

/// Word `i` of a 64-byte block, read big-endian.
pub open spec fn be_word(block: Seq<u8>, i: int) -> u32 {
    ((block[4 * i] as u32) << 24u32) | ((block[4 * i + 1] as u32) << 16u32) | ((block[4 * i
        + 2] as u32) << 8u32) | (block[4 * i + 3] as u32)
}

/// Word `t` of the message schedule of a block (FIPS 180-4, 6.1.2 step 1).
pub open spec fn sha1_schedule(block: Seq<u8>, t: nat) -> u32
    decreases t,
{
    if t < 16 {
        be_word(block, t as int)
    } else {
        rotl(
            sha1_schedule(block, (t - 3) as nat) ^ sha1_schedule(block, (t - 8) as nat)
                ^ sha1_schedule(block, (t - 14) as nat) ^ sha1_schedule(block, (t - 16) as nat),
            1,
        )
    }
}

/// The round function f_t (FIPS 180-4, 4.1.1).
pub open spec fn sha1_f(t: int, b: u32, c: u32, d: u32) -> u32 {
    if t < 20 {
        (b & c) | (!b & d)
    } else if t < 40 {
        b ^ c ^ d
    } else if t < 60 {
        (b & c) | (b & d) | (c & d)
    } else {
        b ^ c ^ d
    }
}

/// The round constant K_t (FIPS 180-4, 4.2.1).
pub open spec fn sha1_k(t: int) -> u32 {
    if t < 20 {
        0x5A827999u32
    } else if t < 40 {
        0x6ED9EBA1u32
    } else if t < 60 {
        0x8F1BBCDCu32
    } else {
        0xCA62C1D6u32
    }
}

/// One round of the compression function.
pub open spec fn sha1_round(s: Sha1Words, t: int, w: u32) -> Sha1Words {
    let temp = wadd(wadd(wadd(wadd(rotl(s.0, 5), sha1_f(t, s.1, s.2, s.3)), s.4), sha1_k(t)), w);
    (temp, s.0, rotl(s.1, 30), s.2, s.3)
}

/// The working variables after the first `n` rounds on a block.
pub open spec fn sha1_rounds(h: Sha1Words, block: Seq<u8>, n: nat) -> Sha1Words
    decreases n,
{
    if n == 0 {
        h
    } else {
        let prev = sha1_rounds(h, block, (n - 1) as nat);
        sha1_round(prev, n - 1, sha1_schedule(block, (n - 1) as nat))
    }
}

/// The chaining value after one 64-byte block.
pub open spec fn sha1_compress(h: Sha1Words, block: Seq<u8>) -> Sha1Words {
    let r = sha1_rounds(h, block, 80);
    (wadd(h.0, r.0), wadd(h.1, r.1), wadd(h.2, r.2), wadd(h.3, r.3), wadd(h.4, r.4))
}

/// The chaining value after the first `n` blocks of a padded message.
pub open spec fn sha1_blocks(padded: Seq<u8>, n: nat) -> Sha1Words
    decreases n,
{
    if n == 0 {
        sha1_init()
    } else {
        sha1_compress(
            sha1_blocks(padded, (n - 1) as nat),
            padded.subrange(64 * (n - 1), (64 * n) as int),
        )
    }
}

/// The four bytes of a word, most significant first.
pub open spec fn word_bytes(w: u32) -> Seq<u8> {
    seq![
        ((w >> 24u32) & 0xFFu32) as u8,
        ((w >> 16u32) & 0xFFu32) as u8,
        ((w >> 8u32) & 0xFFu32) as u8,
        (w & 0xFFu32) as u8,
    ]
}

/// The SHA-1 digest of a message (FIPS 180-4, 6.1).
pub open spec fn sha1_digest(msg: Seq<u8>) -> Seq<u8> {
    let p = sha1_pad(msg);
    let h = sha1_blocks(p, p.len() / 64);
    word_bytes(h.0) + word_bytes(h.1) + word_bytes(h.2) + word_bytes(h.3) + word_bytes(h.4)
}

fn rotate_left(x: u32, n: u32) -> (r: u32)
    requires
        0 < n < 32,
    ensures
        r == rotl(x, n),
{
    (x << n) | (x >> (32 - n))
}

/// After `m` zero bytes the padded message would end on a block boundary.
pub open spec fn pad_fills_block(len: nat, m: nat) -> bool {
    (len + 1 + m + 8) % 64 == 0
}

proof fn lemma_pad_length(len: nat)
    ensures
        pad_fills_block(len, sha1_zero_count(len)),
        forall|m: nat| m < sha1_zero_count(len) ==> !#[trigger] pad_fills_block(len, m),
{
}

/// The message padded as SHA-1 requires.
fn sha1_pad_message(bytes: &[u8]) -> (padded: Vec<u8>)
    requires
        bytes@.len() * 8 <= u64::MAX,
        bytes@.len() + 128 <= usize::MAX,
    ensures
        padded@ == sha1_pad(bytes@),
        padded@.len() % 64 == 0,
{
    let bit_len: u64 = (bytes.len() as u64) * 8;
    let mut padded: Vec<u8> = Vec::new();
    let mut i: usize = 0;
    while i < bytes.len()
        invariant
            i <= bytes@.len(),
            padded@ == bytes@.take(i as int),
        decreases bytes.len() - i,
    {
        padded.push(bytes[i]);
        i = i + 1;
    }
    assert(bytes@.take(bytes@.len() as int) =~= bytes@);
    padded.push(0x80);
    let ghost k = sha1_zero_count(bytes@.len());
    proof {
        lemma_pad_length(bytes@.len());
    }
    let mut m: usize = 0;
    while (padded.len() + 8) % 64 != 0
        invariant
            m <= k,
            k < 64,
            bytes@.len() + 128 <= usize::MAX,
            padded@ == bytes@ + seq![0x80u8] + Seq::new(m as nat, |j: int| 0u8),
            pad_fills_block(bytes@.len(), k),
            forall|q: nat| q < k ==> !#[trigger] pad_fills_block(bytes@.len(), q),
        decreases k - m,
    {
        padded.push(0x00);
        m = m + 1;
        assert(padded@ =~= bytes@ + seq![0x80u8] + Seq::new(m as nat, |j: int| 0u8));
    }
    assert(pad_fills_block(bytes@.len(), m as nat));
    assert(m == k);
    let ghost prefix = padded@;
    let mut j: u64 = 0;
    while j < 8
        invariant
            j <= 8,
            bit_len == bytes@.len() * 8,
            padded@ == prefix + sha1_length_field(bytes@.len()).take(j as int),
        decreases 8 - j,
    {
        padded.push(((bit_len >> (56 - 8 * j)) & 0xFF) as u8);
        j = j + 1;
        assert(padded@ =~= prefix + sha1_length_field(bytes@.len()).take(j as int));
    }
    assert(sha1_length_field(bytes@.len()).take(8) =~= sha1_length_field(bytes@.len()));
    padded
}

/// The 80-word message schedule of the block at `base`.
fn sha1_message_schedule(padded: &Vec<u8>, base: usize) -> (w: Vec<u32>)
    requires
        base + 64 <= padded@.len(),
    ensures
        w@.len() == 80,
        forall|t: int|
            0 <= t < 80 ==> w@[t] == sha1_schedule(
                padded@.subrange(base as int, base + 64),
                t as nat,
            ),
{
    let ghost block = padded@.subrange(base as int, base + 64);
    let mut w: Vec<u32> = Vec::new();
    let mut i: usize = 0;
    while i < 16
        invariant
            i <= 16,
            base + 64 <= padded.len(),
            block == padded@.subrange(base as int, base + 64),
            w@.len() == i,
            forall|t: int| 0 <= t < i ==> w@[t] == sha1_schedule(block, t as nat),
        decreases 16 - i,
    {
        let word = ((padded[base + i * 4] as u32) << 24) | ((padded[base + i * 4 + 1] as u32)
            << 16) | ((padded[base + i * 4 + 2] as u32) << 8) | (padded[base + i * 4 + 3] as u32);
        assert(word == be_word(block, i as int));
        w.push(word);
        i = i + 1;
    }
    while i < 80
        invariant
            16 <= i <= 80,
            base + 64 <= padded.len(),
            block == padded@.subrange(base as int, base + 64),
            w@.len() == i,
            forall|t: int| 0 <= t < i ==> w@[t] == sha1_schedule(block, t as nat),
        decreases 80 - i,
    {
        let x = w[i - 3] ^ w[i - 8] ^ w[i - 14] ^ w[i - 16];
        let word = rotate_left(x, 1);
        assert(word == sha1_schedule(block, i as nat));
        w.push(word);
        i = i + 1;
    }
    w
}

/// The chaining value after compressing one block whose schedule is `w`.
fn sha1_compress_block(h: Sha1Words, w: &Vec<u32>, Ghost(block): Ghost<Seq<u8>>) -> (r: Sha1Words)
    requires
        w@.len() == 80,
        forall|t: int| 0 <= t < 80 ==> w@[t] == sha1_schedule(block, t as nat),
    ensures
        r == sha1_compress(h, block),
{
    let mut a = h.0;
    let mut b = h.1;
    let mut c = h.2;
    let mut d = h.3;
    let mut e = h.4;
    let mut i: usize = 0;
    while i < 80
        invariant
            i <= 80,
            w@.len() == 80,
            forall|t: int| 0 <= t < 80 ==> w@[t] == sha1_schedule(block, t as nat),
            (a, b, c, d, e) == sha1_rounds(h, block, i as nat),
        decreases 80 - i,
    {
        let (f, k) = if i < 20 {
            ((b & c) | (!b & d), 0x5A827999u32)
        } else if i < 40 {
            (b ^ c ^ d, 0x6ED9EBA1u32)
        } else if i < 60 {
            ((b & c) | (b & d) | (c & d), 0x8F1BBCDCu32)
        } else {
            (b ^ c ^ d, 0xCA62C1D6u32)
        };
        assert(f == sha1_f(i as int, b, c, d));
        assert(k == sha1_k(i as int));
        let temp = rotate_left(a, 5).wrapping_add(f).wrapping_add(e).wrapping_add(k).wrapping_add(
            w[i],
        );
        e = d;
        d = c;
        c = rotate_left(b, 30);
        b = a;
        a = temp;
        i = i + 1;
    }
    (
        h.0.wrapping_add(a),
        h.1.wrapping_add(b),
        h.2.wrapping_add(c),
        h.3.wrapping_add(d),
        h.4.wrapping_add(e),
    )
}

/// The SHA-1 digest of the UTF-8 bytes of `input`, as used for the
/// WebSocket accept key.
pub fn sha1(input: &str) -> (r: [u8; 20])
    requires
        input.spec_bytes().len() * 8 <= u64::MAX,
        input.spec_bytes().len() + 128 <= usize::MAX,
    ensures
        r@ == sha1_digest(input.spec_bytes()),
{
    let bytes = input.as_bytes();
    let padded = sha1_pad_message(bytes);
    let nblocks = padded.len() / 64;
    let mut h: Sha1Words = (0x67452301u32, 0xEFCDAB89u32, 0x98BADCFEu32, 0x10325476u32, 0xC3D2E1F0u32);
    let mut blk: usize = 0;
    while blk < nblocks
        invariant
            blk <= nblocks,
            nblocks == padded@.len() / 64,
            padded@.len() % 64 == 0,
            h == sha1_blocks(padded@, blk as nat),
        decreases nblocks - blk,
    {
        assert(blk * 64 + 64 <= padded.len()) by (nonlinear_arith)
            requires
                blk < nblocks,
                nblocks == padded@.len() / 64,
        ;
        let w = sha1_message_schedule(&padded, blk * 64);
        h = sha1_compress_block(h, &w, Ghost(padded@.subrange(64 * blk, 64 * blk + 64)));
        blk = blk + 1;
    }
    let (h0, h1, h2, h3, h4) = h;
    let r: [u8; 20] = [
        ((h0 >> 24) & 0xFF) as u8,
        ((h0 >> 16) & 0xFF) as u8,
        ((h0 >> 8) & 0xFF) as u8,
        (h0 & 0xFF) as u8,
        ((h1 >> 24) & 0xFF) as u8,
        ((h1 >> 16) & 0xFF) as u8,
        ((h1 >> 8) & 0xFF) as u8,
        (h1 & 0xFF) as u8,
        ((h2 >> 24) & 0xFF) as u8,
        ((h2 >> 16) & 0xFF) as u8,
        ((h2 >> 8) & 0xFF) as u8,
        (h2 & 0xFF) as u8,
        ((h3 >> 24) & 0xFF) as u8,
        ((h3 >> 16) & 0xFF) as u8,
        ((h3 >> 8) & 0xFF) as u8,
        (h3 & 0xFF) as u8,
        ((h4 >> 24) & 0xFF) as u8,
        ((h4 >> 16) & 0xFF) as u8,
        ((h4 >> 8) & 0xFF) as u8,
        (h4 & 0xFF) as u8,
    ];
    assert(r@ =~= sha1_digest(input.spec_bytes()));
    r
}

/// The Base64 alphabet (RFC 4648, table 1): the symbol for a 6-bit value.
pub open spec fn b64_symbol(v: int) -> char {
    if v < 26 {
        (65 + v) as char
    } else if v < 52 {
        (97 + (v - 26)) as char
    } else if v < 62 {
        (48 + (v - 52)) as char
    } else if v == 62 {
        '+'
    } else {
        '/'
    }
}

/// The Base64 text of a byte sequence, with `=` padding (RFC 4648, section 4).
pub open spec fn base64_spec(input: Seq<u8>) -> Seq<char>
    decreases input.len(),
{
    if input.len() == 0 {
        seq![]
    } else if input.len() == 1 {
        let b0 = input[0] as int;
        seq![b64_symbol(b0 / 4), b64_symbol((b0 % 4) * 16), '=', '=']
    } else if input.len() == 2 {
        let b0 = input[0] as int;
        let b1 = input[1] as int;
        seq![b64_symbol(b0 / 4), b64_symbol((b0 % 4) * 16 + b1 / 16), b64_symbol((b1 % 16) * 4), '=']
    } else {
        let b0 = input[0] as int;
        let b1 = input[1] as int;
        let b2 = input[2] as int;
        seq![
            b64_symbol(b0 / 4),
            b64_symbol((b0 % 4) * 16 + b1 / 16),
            b64_symbol((b1 % 16) * 4 + b2 / 64),
            b64_symbol(b2 % 64),
        ] + base64_spec(input.subrange(3, input.len() as int))
    }
}

/// Base64 output has four characters for every started group of three bytes.
pub proof fn lemma_base64_length(input: Seq<u8>)
    ensures
        base64_spec(input).len() == 4 * ((input.len() + 2) / 3),
    decreases input.len(),
{
    if input.len() >= 3 {
        lemma_base64_length(input.subrange(3, input.len() as int));
    }
}

/// A character of the Base64 alphabet.
pub open spec fn is_b64_symbol(c: char) -> bool {
    ('A' <= c && c <= 'Z') || ('a' <= c && c <= 'z') || ('0' <= c && c <= '9') || c == '+' || c
        == '/'
}

/// The 6-bit value of a Base64 alphabet character.
pub open spec fn b64_value(c: char) -> int {
    if 'A' <= c && c <= 'Z' {
        c as int - 65
    } else if 'a' <= c && c <= 'z' {
        c as int - 97 + 26
    } else if '0' <= c && c <= '9' {
        c as int - 48 + 52
    } else if c == '+' {
        62
    } else {
        63
    }
}

/// Standard Base64 decoding (RFC 4648, section 4) of padded text: each
/// group of four characters gives three bytes, or fewer when it ends in
/// `=` padding.
pub open spec fn base64_decode_spec(text: Seq<char>) -> Seq<u8>
    decreases text.len(),
{
    if text.len() < 4 {
        seq![]
    } else {
        let v0 = b64_value(text[0]);
        let v1 = b64_value(text[1]);
        let v2 = b64_value(text[2]);
        let v3 = b64_value(text[3]);
        let c0 = (v0 * 4 + v1 / 16) as u8;
        let c1 = ((v1 % 16) * 16 + v2 / 4) as u8;
        let c2 = ((v2 % 4) * 64 + v3) as u8;
        if text[2] == '=' {
            seq![c0]
        } else if text[3] == '=' {
            seq![c0, c1]
        } else {
            seq![c0, c1, c2] + base64_decode_spec(text.subrange(4, text.len() as int))
        }
    }
}

proof fn lemma_b64_symbol(v: int)
    requires
        0 <= v < 64,
    ensures
        is_b64_symbol(b64_symbol(v)),
        b64_value(b64_symbol(v)) == v,
{
}

/// The number of `=` characters that end the Base64 text of `n` bytes.
pub open spec fn b64_padding(n: nat) -> nat {
    ((3 - n % 3) % 3) as nat
}

/// Base64 text ends in exactly `(3 - n % 3) % 3` padding characters for `n`
/// input bytes; every other character is of the alphabet; and decoding the
/// text gives the input back.
pub proof fn law_base64_padding_alphabet_round_trip(input: Seq<u8>)
    ensures
        ({
            let t = base64_spec(input);
            let pad = b64_padding(input.len());
            forall|i: int|
                0 <= i < t.len() ==> (#[trigger] t[i] == '=' <==> i >= t.len() - pad) && (t[i]
                    != '=' ==> is_b64_symbol(t[i]))
        }),
        base64_decode_spec(base64_spec(input)) == input,
    decreases input.len(),
{
    lemma_base64_length(input);
    let t = base64_spec(input);
    if input.len() == 0 {
    } else if input.len() == 1 {
        let b0 = input[0] as int;
        lemma_b64_symbol(b0 / 4);
        lemma_b64_symbol((b0 % 4) * 16);
        assert(base64_decode_spec(t) =~= input);
    } else if input.len() == 2 {
        let b0 = input[0] as int;
        let b1 = input[1] as int;
        lemma_b64_symbol(b0 / 4);
        lemma_b64_symbol((b0 % 4) * 16 + b1 / 16);
        lemma_b64_symbol((b1 % 16) * 4);
        assert(base64_decode_spec(t) =~= input);
    } else {
        let b0 = input[0] as int;
        let b1 = input[1] as int;
        let b2 = input[2] as int;
        let rest = input.subrange(3, input.len() as int);
        law_base64_padding_alphabet_round_trip(rest);
        lemma_b64_symbol(b0 / 4);
        lemma_b64_symbol((b0 % 4) * 16 + b1 / 16);
        lemma_b64_symbol((b1 % 16) * 4 + b2 / 64);
        lemma_b64_symbol(b2 % 64);
        let head = seq![
            b64_symbol(b0 / 4),
            b64_symbol((b0 % 4) * 16 + b1 / 16),
            b64_symbol((b1 % 16) * 4 + b2 / 64),
            b64_symbol(b2 % 64),
        ];
        assert(t == head + base64_spec(rest));
        assert(t.subrange(4, t.len() as int) =~= base64_spec(rest));
        assert(b64_padding(input.len()) == b64_padding(rest.len()));
        lemma_base64_length(rest);
        assert forall|i: int| 0 <= i < t.len() implies (#[trigger] t[i] == '=' <==> i >= t.len()
            - b64_padding(input.len())) && (t[i] != '=' ==> is_b64_symbol(t[i])) by {
            if i >= 4 {
                assert(t[i] == base64_spec(rest)[i - 4]);
            }
        }
        assert(base64_decode_spec(t) =~= seq![b0 as u8, b1 as u8, b2 as u8] + rest);
        assert(input =~= seq![b0 as u8, b1 as u8, b2 as u8] + rest);
    }
}

fn b64_char(v: u8) -> (c: char)
    requires
        v < 64,
    ensures
        c == b64_symbol(v as int),
{
    if v < 26 {
        (65 + v) as char
    } else if v < 52 {
        (97 + (v - 26)) as char
    } else if v < 62 {
        (48 + (v - 52)) as char
    } else if v == 62 {
        '+'
    } else {
        '/'
    }
}

/// The Base64 text of `input`, with `=` padding; four characters for every
/// started group of three bytes.
pub fn base64_encode(input: &[u8]) -> (r: String)
    ensures
        r@ == base64_spec(input@),
        r@.len() == 4 * ((input@.len() + 2) / 3),
{
    proof {
        lemma_base64_length(input@);
    }
    let mut result = String::new();
    let mut i: usize = 0;
    assert(input@.subrange(0, input@.len() as int) =~= input@);
    assert(result@ + base64_spec(input@) =~= base64_spec(input@));
    while i < input.len()
        invariant
            i <= input@.len(),
            result@ + base64_spec(input@.subrange(i as int, input@.len() as int)) == base64_spec(
                input@,
            ),
        decreases input.len() - i,
    {
        let ghost rest = input@.subrange(i as int, input@.len() as int);
        let left = input.len() - i;
        if left >= 3 {
            let b0 = input[i];
            let b1 = input[i + 1];
            let b2 = input[i + 2];
            push_char(&mut result, b64_char(b0 / 4));
            push_char(&mut result, b64_char((b0 % 4) * 16 + b1 / 16));
            push_char(&mut result, b64_char((b1 % 16) * 4 + b2 / 64));
            push_char(&mut result, b64_char(b2 % 64));
            assert(rest.subrange(3, rest.len() as int) =~= input@.subrange(
                i + 3,
                input@.len() as int,
            ));
            i = i + 3;
        } else if left == 2 {
            let b0 = input[i];
            let b1 = input[i + 1];
            push_char(&mut result, b64_char(b0 / 4));
            push_char(&mut result, b64_char((b0 % 4) * 16 + b1 / 16));
            push_char(&mut result, b64_char((b1 % 16) * 4));
            push_char(&mut result, '=');
            i = i + 2;
            assert(input@.subrange(i as int, input@.len() as int) =~= Seq::<u8>::empty());
        } else {
            let b0 = input[i];
            push_char(&mut result, b64_char(b0 / 4));
            push_char(&mut result, b64_char((b0 % 4) * 16));
            push_char(&mut result, '=');
            push_char(&mut result, '=');
            i = i + 1;
            assert(input@.subrange(i as int, input@.len() as int) =~= Seq::<u8>::empty());
        }
    }
    assert(input@.subrange(i as int, input@.len() as int) =~= Seq::<u8>::empty());
    result
}

/// The payload-length field of a WebSocket frame (RFC 6455, 5.2): seven
/// bits up to 125, else 126 and a 16-bit length, else 127 and a 64-bit length.
pub open spec fn ws_length_field(len: nat) -> Seq<u8> {
    if len <= 125 {
        seq![len as u8]
    } else if len <= 65535 {
        seq![126u8, (len / 256) as u8, (len % 256) as u8]
    } else {
        seq![127u8] + Seq::new(8, |j: int| be64_byte(len as u64, j))
    }
}

/// An unmasked final text frame carrying `payload` (RFC 6455, 5.2 and 5.6).
pub open spec fn ws_text_frame(payload: Seq<u8>) -> Seq<u8> {
    seq![0x81u8] + ws_length_field(payload.len()) + payload
}

/// The payload length that a frame's header announces (RFC 6455, 5.2).
pub open spec fn ws_announced_length(frame: Seq<u8>) -> nat {
    let b = frame[1] & 0x7Fu8;
    if b <= 125 {
        b as nat
    } else if b == 126 {
        frame[2] as nat * 256 + frame[3] as nat
    } else {
        (((frame[2] as u64) << 56u64) | ((frame[3] as u64) << 48u64) | ((frame[4] as u64)
            << 40u64) | ((frame[5] as u64) << 32u64) | ((frame[6] as u64) << 24u64) | ((
        frame[7] as u64) << 16u64) | ((frame[8] as u64) << 8u64) | (frame[9] as u64)) as nat
    }
}

/// The size of a frame's header, as its length field says.
pub open spec fn ws_header_size(frame: Seq<u8>) -> int {
    let b = frame[1] & 0x7Fu8;
    if b <= 125 {
        2
    } else if b == 126 {
        4
    } else {
        10
    }
}

proof fn lemma_u64_bytes(x: u64)
    ensures
        x == (((((x >> 56u64) & 0xFFu64) as u8) as u64) << 56u64) | (((((x >> 48u64) & 0xFFu64)
            as u8) as u64) << 48u64) | (((((x >> 40u64) & 0xFFu64) as u8) as u64) << 40u64) | (((((x
            >> 32u64) & 0xFFu64) as u8) as u64) << 32u64) | (((((x >> 24u64) & 0xFFu64) as u8)
            as u64) << 24u64) | (((((x >> 16u64) & 0xFFu64) as u8) as u64) << 16u64) | (((((x
            >> 8u64) & 0xFFu64) as u8) as u64) << 8u64) | ((((x >> 0u64) & 0xFFu64) as u8) as u64),
{
    assert(x == (((((x >> 56u64) & 0xFFu64) as u8) as u64) << 56u64) | (((((x >> 48u64)
        & 0xFFu64) as u8) as u64) << 48u64) | (((((x >> 40u64) & 0xFFu64) as u8) as u64) << 40u64)
        | (((((x >> 32u64) & 0xFFu64) as u8) as u64) << 32u64) | (((((x >> 24u64) & 0xFFu64)
        as u8) as u64) << 24u64) | (((((x >> 16u64) & 0xFFu64) as u8) as u64) << 16u64) | (((((x
        >> 8u64) & 0xFFu64) as u8) as u64) << 8u64) | ((((x >> 0u64) & 0xFFu64) as u8) as u64))
        by (bit_vector);
}

/// A text frame starts with the final-text opcode byte, announces the
/// payload's length, and carries the payload right after its header.
pub proof fn law_ws_frame_announces_payload(payload: Seq<u8>)
    requires
        payload.len() <= u64::MAX,
    ensures
        ws_text_frame(payload)[0] == 0x81,
        ws_announced_length(ws_text_frame(payload)) == payload.len(),
        ws_text_frame(payload).subrange(
            ws_header_size(ws_text_frame(payload)),
            ws_text_frame(payload).len() as int,
        ) == payload,
{
    let f = ws_text_frame(payload);
    let len = payload.len();
    if len <= 125 {
        let b = len as u8;
        assert(b & 0x7Fu8 == b) by (bit_vector)
            requires
                b <= 125,
        ;
        assert(f.subrange(2, f.len() as int) =~= payload);
    } else if len <= 65535 {
        assert(126u8 & 0x7Fu8 == 126u8) by (bit_vector);
        assert(f.subrange(4, f.len() as int) =~= payload);
    } else {
        assert(127u8 & 0x7Fu8 == 127u8) by (bit_vector);
        let x = len as u64;
        lemma_u64_bytes(x);
        assert(f[2] == be64_byte(x, 0));
        assert(f[9] == be64_byte(x, 7));
        assert(f.subrange(10, f.len() as int) =~= payload);
    }
}

/// A WebSocket text frame that carries the UTF-8 bytes of `payload`.
pub fn encode_ws_frame(payload: &str) -> (frame: Vec<u8>)
    requires
        payload.spec_bytes().len() <= u64::MAX,
    ensures
        frame@ == ws_text_frame(payload.spec_bytes()),
{
    let bytes = payload.as_bytes();
    let len = bytes.len();
    let mut frame: Vec<u8> = Vec::new();
    frame.push(0x81);
    if len <= 125 {
        frame.push(len as u8);
    } else if len <= 65535 {
        frame.push(126);
        frame.push((len / 256) as u8);
        frame.push((len % 256) as u8);
    } else {
        frame.push(127);
        let len64 = len as u64;
        let mut j: u64 = 0;
        while j < 8
            invariant
                j <= 8,
                len64 == len,
                frame@ == seq![0x81u8, 127u8] + Seq::new(8, |q: int| be64_byte(len64, q)).take(
                    j as int,
                ),
            decreases 8 - j,
        {
            frame.push(((len64 >> (56 - 8 * j)) & 0xFF) as u8);
            j = j + 1;
            assert(frame@ =~= seq![0x81u8, 127u8] + Seq::new(8, |q: int| be64_byte(len64, q)).take(
                j as int,
            ));
        }
        assert(Seq::new(8, |q: int| be64_byte(len64, q)).take(8) =~= Seq::new(
            8,
            |q: int| be64_byte(len64, q),
        ));
    }
    let ghost header = frame@;
    assert(header =~= seq![0x81u8] + ws_length_field(bytes@.len()));
    let mut i: usize = 0;
    while i < bytes.len()
        invariant
            i <= bytes@.len(),
            frame@ == header + bytes@.take(i as int),
        decreases bytes.len() - i,
    {
        frame.push(bytes[i]);
        i = i + 1;
        assert(frame@ =~= header + bytes@.take(i as int));
    }
    assert(bytes@.take(bytes@.len() as int) =~= bytes@);
    frame
}

/// The GUID that RFC 6455 appends to the client's key.
pub open spec fn ws_guid() -> Seq<char> {
    "258EAFA5-E914-47DA-95CA-C5AB0DC85B11"@
}

/// The `Sec-WebSocket-Accept` value for a client key (RFC 6455, 4.2.2):
/// the Base64 text of the SHA-1 digest of the key followed by the GUID.
pub open spec fn accept_key_spec(key: Seq<char>) -> Seq<char> {
    base64_spec(sha1_digest(encode_utf8(key + ws_guid())))
}

/// The `Sec-WebSocket-Accept` value that answers the client key `key`.
pub fn websocket_accept_key(key: &str) -> (r: String)
    requires
        encode_utf8(key@ + ws_guid()).len() * 8 <= u64::MAX,
        encode_utf8(key@ + ws_guid()).len() + 128 <= usize::MAX,
    ensures
        r@ == accept_key_spec(key@),
{
    let mut joined = String::new();
    push_str(&mut joined, key);
    push_str(&mut joined, "258EAFA5-E914-47DA-95CA-C5AB0DC85B11");
    proof {
        reveal_strlit("258EAFA5-E914-47DA-95CA-C5AB0DC85B11");
        assert(joined@ =~= key@ + ws_guid());
    }
    let digest = sha1(joined.as_str());
    base64_encode(&digest)
}

/// The header line that carries the client's key.
pub open spec fn key_header() -> Seq<char> {
    "Sec-WebSocket-Key: "@
}

/// The client key of a handshake request: the text after the first
/// `Sec-WebSocket-Key: ` up to the next CRLF, trimmed of whitespace; none
/// when either is missing.
pub open spec fn handshake_key(request: Seq<char>) -> Option<Seq<char>> {
    match first_occurrence(request, key_header()) {
        Some(p) => {
            let rest = request.subrange(p + key_header().len(), request.len() as int);
            match first_occurrence(rest, "\r\n"@) {
                Some(e) => Some(trim(rest.subrange(0, e))),
                None => None,
            }
        },
        None => None,
    }
}

/// The server's answer that switches the connection to WebSocket.
pub open spec fn handshake_reply(accept: Seq<char>) -> Seq<char> {
    "HTTP/1.1 101 Switching Protocols\r\nUpgrade: websocket\r\nConnection: Upgrade\r\nSec-WebSocket-Accept: "@
        + accept + "\r\n\r\n"@
}

/// The reply to a WebSocket handshake request, or none when the request
/// carries no well-formed key header.
pub fn handshake_response(request: &str) -> (r: Option<String>)
    requires
        handshake_key(request@) matches Some(key) ==> encode_utf8(key + ws_guid()).len() * 8
            <= u64::MAX && encode_utf8(key + ws_guid()).len() + 128 <= usize::MAX,
    ensures
        match handshake_key(request@) {
            Some(key) => r is Some && r->0@ == handshake_reply(accept_key_spec(key)),
            None => r is None,
        },
{
    let req = chars_of(request);
    let header = chars_of("Sec-WebSocket-Key: ");
    let crlf = chars_of("\r\n");
    proof {
        reveal_strlit("Sec-WebSocket-Key: ");
        reveal_strlit("\r\n");
    }
    match find_first(&req, &header) {
        Some(pos) => {
            let req_len = req.len();
            assert(crate::text::occurs_at(req@, header@, pos as int));
            assert(pos + header@.len() <= req_len);
            let start = pos + header.len();
            let mut rest: Vec<char> = Vec::new();
            let mut i: usize = start;
            while i < req.len()
                invariant
                    start <= i <= req@.len(),
                    rest@ == req@.subrange(start as int, i as int),
                decreases req.len() - i,
            {
                rest.push(req[i]);
                i = i + 1;
                assert(rest@ =~= req@.subrange(start as int, i as int));
            }
            match find_first(&rest, &crlf) {
                Some(end) => {
                    let key_chars = trim_chars(&rest, 0, end);
                    let key = string_from_chars(&key_chars);
                    let accept = websocket_accept_key(key.as_str());
                    let mut reply = String::new();
                    push_str(
                        &mut reply,
                        "HTTP/1.1 101 Switching Protocols\r\nUpgrade: websocket\r\nConnection: Upgrade\r\nSec-WebSocket-Accept: ",
                    );
                    push_str(&mut reply, accept.as_str());
                    push_str(&mut reply, "\r\n\r\n");
                    Some(reply)
                },
                None => None,
            }
        },
        None => None,
    }
}

} // verus!
