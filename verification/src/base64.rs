//! Dependency-free Base64 (standard alphabet, `=` padding), as used to carry
//! PCM audio inside the agent's JSON messages.

use vstd::prelude::*;
use vstd::string::StringSliceAdditionalSpecFns;
use vstd::utf8::{encode_utf8, is_ascii_chars};
use vstd::arithmetic::div_mod::lemma_fundamental_div_mod_converse;

verus! {

/// The character of the standard alphabet for a sextet value `v < 64`.
pub open spec fn alphabet(v: int) -> char {
    if v < 26 {
        (65 + v) as char
    } else if v < 52 {
        (97 + (v - 26)) as char
    } else if v < 62 {
        (48 + (v - 52)) as char
    } else if v == 62 {
        '+'
    } else {
        '/'
    }
}

/// The four output characters for one group of up to three input bytes
/// (`k` of them present, the others read as zero).
#[verifier::opaque]
pub open spec fn encode_group(b0: int, b1: int, b2: int, k: int) -> Seq<char> {
    let n = b0 * 65536 + b1 * 256 + b2;
    seq![
        alphabet(n / 262144),
        alphabet((n / 4096) % 64),
        if k > 1 { alphabet((n / 64) % 64) } else { '=' },
        if k > 2 { alphabet(n % 64) } else { '=' },
    ]
}

/// Base64 encoding of `data`: each group of three bytes becomes four
/// characters; a final short group is padded with `=`.
pub open spec fn encode_spec(data: Seq<u8>) -> Seq<char>
    decreases data.len(),
{
    if data.len() == 0 {
        Seq::empty()
    } else if data.len() == 1 {
        encode_group(data[0] as int, 0, 0, 1)
    } else if data.len() == 2 {
        encode_group(data[0] as int, data[1] as int, 0, 2)
    } else {
        encode_group(data[0] as int, data[1] as int, data[2] as int, 3) + encode_spec(data.skip(3))
    }
}

/// Encoding works three bytes at a time, left to right: after a prefix whose
/// length is a multiple of three, the rest is encoded on its own and
/// appended.
pub proof fn lemma_encode_append(a: Seq<u8>, b: Seq<u8>)
    requires
        a.len() % 3 == 0,
    ensures
        encode_spec(a + b) == encode_spec(a) + encode_spec(b),
    decreases a.len(),
{
    if a.len() == 0 {
        assert(a + b =~= b);
    } else {
        assert((a + b).skip(3) =~= a.skip(3) + b);
        lemma_encode_append(a.skip(3), b);
    }
}

proof fn lemma_encode_step(d: Seq<u8>, i: int, k: int)
    requires
        0 <= i,
        i % 3 == 0,
        k == if d.len() - i >= 3 { 3 } else { d.len() - i },
        1 <= k,
    ensures
        encode_spec(d.take(i + k)) == encode_spec(d.take(i)) + encode_group(
            d[i] as int,
            if k > 1 { d[i + 1] as int } else { 0 },
            if k > 2 { d[i + 2] as int } else { 0 },
            k,
        ),
{
    let head = d.take(i);
    let group = d.subrange(i, i + k);
    assert(d.take(i + k) =~= head + group);
    lemma_encode_append(head, group);
    assert(group[0] == d[i]);
    if k > 1 {
        assert(group[1] == d[i + 1]);
    }
    if k > 2 {
        assert(group[2] == d[i + 2]);
    }
    if k >= 3 {
        assert(group.skip(3) =~= Seq::<u8>::empty());
        assert(encode_spec(group.skip(3)) =~= Seq::<char>::empty());
        let g = encode_group(d[i] as int, d[i + 1] as int, d[i + 2] as int, 3);
        assert(g + Seq::<char>::empty() =~= g);
    }
}

fn symbol(v: u32) -> (c: char)
    requires
        v < 64,
    ensures
        c == alphabet(v as int),
{
    if v < 26 {
        ((65 + v) as u8) as char
    } else if v < 52 {
        ((97 + (v - 26)) as u8) as char
    } else if v < 62 {
        ((48 + (v - 52)) as u8) as char
    } else if v == 62 {
        '+'
    } else {
        '/'
    }
}

fn push_group(out: &mut String, b0: u8, b1: u8, b2: u8, k: usize)
    requires
        1 <= k <= 3,
    ensures
        final(out)@ == old(out)@ + encode_group(b0 as int, b1 as int, b2 as int, k as int),
{
    let n: u32 = ((b0 as u32) << 16) | ((b1 as u32) << 8) | (b2 as u32);
    proof {
        assert(n == b0 * 65536 + b1 * 256 + b2 && n < 16777216) by (bit_vector)
            requires
                n == ((b0 as u32) << 16) | ((b1 as u32) << 8) | (b2 as u32),
        ;
    }
    let s0 = (n >> 18) & 63;
    let s1 = (n >> 12) & 63;
    let s2 = (n >> 6) & 63;
    let s3 = n & 63;
    proof {
        assert(s0 == n / 262144 && s1 == (n / 4096) % 64 && s2 == (n / 64) % 64 && s3 == n % 64)
            by (bit_vector)
            requires
                n < 16777216,
                s0 == (n >> 18) & 63,
                s1 == (n >> 12) & 63,
                s2 == (n >> 6) & 63,
                s3 == n & 63,
        ;
    }
    out.push(symbol(s0));
    out.push(symbol(s1));
    out.push(if k > 1 { symbol(s2) } else { '=' });
    out.push(if k > 2 { symbol(s3) } else { '=' });
    proof {
        reveal(encode_group);
        assert(final(out)@ =~= old(out)@ + encode_group(b0 as int, b1 as int, b2 as int, k as int));
    }
}

/// Encodes `data` as standard Base64 with `=` padding.
pub fn base64_encode(data: &[u8]) -> (out: String)
    ensures
        out@ == encode_spec(data@),
{
    let mut out = String::new();
    let len = data.len();
    let mut i: usize = 0;
    while i < len
        invariant
            len == data@.len(),
            i <= len,
            i % 3 == 0 || i == len,
            out@ == encode_spec(data@.take(i as int)),
        decreases len - i,
    {
        let k: usize = if len - i >= 3 { 3 } else { len - i };
        let b0 = data[i];
        let b1: u8 = if k > 1 { data[i + 1] } else { 0 };
        let b2: u8 = if k > 2 { data[i + 2] } else { 0 };
        push_group(&mut out, b0, b1, b2, k);
        proof {
            lemma_encode_step(data@, i as int, k as int);
        }
        i = i + k;
    }
    proof {
        assert(data@.take(len as int) =~= data@);
    }
    out
}


/// Bytes the decoder skips: `=` padding and ASCII whitespace
/// (space, tab, line feed, form feed, carriage return).
pub open spec fn is_skipped(c: u8) -> bool {
    c == 61 || c == 32 || c == 9 || c == 10 || c == 12 || c == 13
}

/// Bytes of the standard alphabet.
pub open spec fn is_symbol(c: u8) -> bool {
    (65 <= c <= 90) || (97 <= c <= 122) || (48 <= c <= 57) || c == 43 || c == 47
}

/// The sextet value of an alphabet byte (the inverse of [`alphabet`]).
pub open spec fn sextet(c: u8) -> int {
    if 65 <= c <= 90 {
        c - 65
    } else if 97 <= c <= 122 {
        c - 97 + 26
    } else if 48 <= c <= 57 {
        c - 48 + 52
    } else if c == 43 {
        62
    } else {
        63
    }
}

/// The input with every skipped byte removed.
pub open spec fn strip(s: Seq<u8>) -> Seq<u8>
    decreases s.len(),
{
    if s.len() == 0 {
        Seq::empty()
    } else if is_skipped(s.last()) {
        strip(s.drop_last())
    } else {
        strip(s.drop_last()).push(s.last())
    }
}

/// The bytes carried by one group of one to four symbols: the sextets form
/// a 24-bit big-endian number (missing ones read as zero), of which the
/// first `6 * len / 8` bytes are kept.
#[verifier::opaque]
pub open spec fn decode_group(g: Seq<u8>) -> Seq<u8> {
    let v0 = sextet(g[0]);
    let v1 = if g.len() > 1 { sextet(g[1]) } else { 0 };
    let v2 = if g.len() > 2 { sextet(g[2]) } else { 0 };
    let v3 = if g.len() > 3 { sextet(g[3]) } else { 0 };
    let n = v0 * 262144 + v1 * 4096 + v2 * 64 + v3;
    seq![(n / 65536) as u8, ((n / 256) % 256) as u8, (n % 256) as u8].take((g.len() * 6 / 8) as int)
}

/// Decoding of a run of symbols, taken four at a time.
pub open spec fn decode_groups(f: Seq<u8>) -> Seq<u8>
    decreases f.len(),
{
    if f.len() == 0 {
        Seq::empty()
    } else if f.len() <= 4 {
        decode_group(f)
    } else {
        decode_group(f.take(4)) + decode_groups(f.skip(4))
    }
}

/// Base64 decoding: padding and whitespace are ignored; any other byte
/// outside the alphabet makes the input invalid.
pub open spec fn decode_spec(bytes: Seq<u8>) -> Option<Seq<u8>> {
    let f = strip(bytes);
    if forall|i: int| 0 <= i < f.len() ==> is_symbol(#[trigger] f[i]) {
        Some(decode_groups(f))
    } else {
        None
    }
}

proof fn lemma_decode_append(a: Seq<u8>, g: Seq<u8>)
    requires
        a.len() % 4 == 0,
        1 <= g.len() <= 4,
    ensures
        decode_groups(a + g) == decode_groups(a) + decode_group(g),
    decreases a.len(),
{
    if a.len() == 0 {
        assert(a + g =~= g);
        assert(Seq::<u8>::empty() + decode_group(g) =~= decode_group(g));
    } else {
        assert((a + g).take(4) =~= a.take(4));
        assert((a + g).skip(4) =~= a.skip(4) + g);
        lemma_decode_append(a.skip(4), g);
        if a.len() == 4 {
            assert(a.skip(4) =~= Seq::<u8>::empty());
            assert(a.skip(4) + g =~= g);
            assert(a.take(4) =~= a);
        }
    }
}

fn sextet_value(c: u8) -> (v: Option<u32>)
    ensures
        v matches Some(x) ==> is_symbol(c) && x == sextet(c) && x < 64,
        v is None ==> !is_symbol(c),
{
    if 65 <= c && c <= 90 {
        Some((c - 65) as u32)
    } else if 97 <= c && c <= 122 {
        Some((c - 97 + 26) as u32)
    } else if 48 <= c && c <= 57 {
        Some((c - 48 + 52) as u32)
    } else if c == 43 {
        Some(62)
    } else if c == 47 {
        Some(63)
    } else {
        None
    }
}

/// Appends the bytes of the group `f[j..j + k]`; `false` (and nothing
/// appended) when one of its bytes is not a symbol.
fn push_decoded_group(f: &Vec<u8>, j: usize, k: usize, out: &mut Vec<u8>) -> (ok: bool)
    requires
        1 <= k <= 4,
        j + k <= f.len(),
    ensures
        ok ==> forall|i: int| j <= i < j + k ==> is_symbol(#[trigger] f@[i]),
        ok ==> final(out)@ == old(out)@ + decode_group(f@.subrange(j as int, (j + k) as int)),
        !ok ==> exists|i: int| j <= i < j + k && !is_symbol(#[trigger] f@[i]),
{
    let ghost g = f@.subrange(j as int, (j + k) as int);
    let mut vals: [u32; 4] = [0, 0, 0, 0];
    let mut t: usize = 0;
    while t < k
        invariant
            1 <= k <= 4,
            j + k <= f.len(),
            t <= k,
            g == f@.subrange(j as int, (j + k) as int),
            forall|i: int| j <= i < j + t ==> is_symbol(#[trigger] f@[i]),
            forall|i: int| 0 <= i < t ==> vals[i] == sextet(#[trigger] g[i]),
            forall|i: int| t <= i < 4 ==> vals[i] == 0,
            forall|i: int| 0 <= i < 4 ==> vals[i] < 64,
        decreases k - t,
    {
        match sextet_value(f[j + t]) {
            Some(v) => {
                vals[t] = v;
            },
            None => {
                assert(!is_symbol(f@[j + t]));
                return false;
            },
        }
        t = t + 1;
    }
    let n: u32 = (vals[0] << 18) | (vals[1] << 12) | (vals[2] << 6) | vals[3];
    let (v0, v1, v2, v3) = (vals[0], vals[1], vals[2], vals[3]);
    proof {
        assert(v0 < 64 && v1 < 64 && v2 < 64 && v3 < 64);
        assert(n == v0 * 262144 + v1 * 4096 + v2 * 64 + v3) by (bit_vector)
            requires
                v0 < 64,
                v1 < 64,
                v2 < 64,
                v3 < 64,
                n == (v0 << 18) | (v1 << 12) | (v2 << 6) | v3,
        ;
    }
    let c0 = #[verifier::truncate] ((n >> 16) as u8);
    let c1 = #[verifier::truncate] ((n >> 8) as u8);
    let c2 = #[verifier::truncate] (n as u8);
    proof {
        assert(c0 == n / 65536 && c1 == (n / 256) % 256 && c2 == n % 256) by (bit_vector)
            requires
                n < 16777216,
                c0 == (n >> 16) as u8,
                c1 == (n >> 8) as u8,
                c2 == n as u8,
        ;
    }
    let nbytes = k * 6 / 8;
    let ghost before = out@;
    if nbytes > 0 {
        out.push(c0);
    }
    if nbytes > 1 {
        out.push(c1);
    }
    if nbytes > 2 {
        out.push(c2);
    }
    proof {
        reveal(decode_group);
        assert(g.len() == k);
        let full = seq![c0, c1, c2];
        assert(out@ =~= before + full.take(nbytes as int));
        assert(decode_group(g) =~= full.take(nbytes as int));
    }
    true
}

/// Decodes standard Base64. Padding (`=`) and ASCII whitespace are skipped;
/// any other byte outside the alphabet yields `None`.
pub fn base64_decode(s: &str) -> (out: Option<Vec<u8>>)
    ensures
        match out {
            Some(v) => decode_spec(s.spec_bytes()) == Some(v@),
            None => decode_spec(s.spec_bytes()) is None,
        },
{
    let bytes = s.as_bytes();
    let blen = bytes.len();
    let mut f: Vec<u8> = Vec::new();
    let mut i: usize = 0;
    while i < blen
        invariant
            blen == bytes@.len(),
            bytes@ == s.spec_bytes(),
            i <= blen,
            f@ == strip(bytes@.take(i as int)),
        decreases blen - i,
    {
        let c = bytes[i];
        proof {
            assert(bytes@.take(i + 1).drop_last() =~= bytes@.take(i as int));
        }
        if !(c == 61 || c == 32 || c == 9 || c == 10 || c == 12 || c == 13) {
            f.push(c);
        }
        i = i + 1;
    }
    proof {
        assert(bytes@.take(blen as int) =~= bytes@);
    }
    let flen = f.len();
    let mut out: Vec<u8> = Vec::new();
    let mut j: usize = 0;
    while j < flen
        invariant
            flen == f@.len(),
            f@ == strip(s.spec_bytes()),
            j <= flen,
            j % 4 == 0 || j == flen,
            forall|i: int| 0 <= i < j ==> is_symbol(#[trigger] f@[i]),
            out@ == decode_groups(f@.take(j as int)),
        decreases flen - j,
    {
        let k: usize = if flen - j >= 4 { 4 } else { flen - j };
        let ghost prev = out@;
        if !push_decoded_group(&f, j, k, &mut out) {
            return None;
        }
        proof {
            let g = f@.subrange(j as int, (j + k) as int);
            assert(f@.take(j + k) =~= f@.take(j as int) + g);
            lemma_decode_append(f@.take(j as int), g);
        }
        j = j + k;
    }
    proof {
        assert(f@.take(flen as int) =~= f@);
    }
    Some(out)
}


/// The bytes of an ASCII character sequence.
pub open spec fn ascii_bytes(cs: Seq<char>) -> Seq<u8> {
    Seq::new(cs.len(), |i: int| cs[i] as u8)
}

proof fn lemma_alphabet(v: int)
    requires
        0 <= v < 64,
    ensures
        (alphabet(v) as u32) < 128,
        is_symbol(alphabet(v) as u8),
        !is_skipped(alphabet(v) as u8),
        sextet(alphabet(v) as u8) == v,
{
}

proof fn lemma_strip_append(a: Seq<u8>, b: Seq<u8>)
    ensures
        strip(a + b) == strip(a) + strip(b),
    decreases b.len(),
{
    if b.len() == 0 {
        assert(a + b =~= a);
        assert(strip(a) + Seq::<u8>::empty() =~= strip(a));
    } else {
        assert((a + b).drop_last() =~= a + b.drop_last());
        assert((a + b).last() == b.last());
        lemma_strip_append(a, b.drop_last());
        if !is_skipped(b.last()) {
            assert(strip(a) + strip(b.drop_last()).push(b.last()) =~= (strip(a) + strip(
                b.drop_last(),
            )).push(b.last()));
        }
    }
}

proof fn lemma_strip_symbols(s: Seq<u8>)
    requires
        forall|i: int| 0 <= i < s.len() ==> !is_skipped(#[trigger] s[i]),
    ensures
        strip(s) == s,
    decreases s.len(),
{
    if s.len() > 0 {
        lemma_strip_symbols(s.drop_last());
        assert(s.drop_last().push(s.last()) =~= s);
    }
}

proof fn lemma_decode_concat(a: Seq<u8>, b: Seq<u8>)
    requires
        a.len() == 4,
    ensures
        decode_groups(a + b) == decode_group(a) + decode_groups(b),
{
    if b.len() == 0 {
        assert(a + b =~= a);
        assert(decode_group(a) + Seq::<u8>::empty() =~= decode_group(a));
    } else {
        assert((a + b).take(4) =~= a);
        assert((a + b).skip(4) =~= b);
    }
}

proof fn lemma_sextet_arith(b0: int, b1: int, b2: int)
    requires
        0 <= b0 < 256,
        0 <= b1 < 256,
        0 <= b2 < 256,
    ensures
        ({
            let n = b0 * 65536 + b1 * 256 + b2;
            &&& (n / 262144) * 262144 + ((n / 4096) % 64) * 4096 + ((n / 64) % 64) * 64 + n % 64
                == n
            &&& n / 65536 == b0
            &&& (n / 256) % 256 == b1
            &&& n % 256 == b2
        }),
{
    let n = b0 * 65536 + b1 * 256 + b2;
    let (q0, r0) = (b0 / 4, b0 % 4);
    let (q1, r1) = (b1 / 16, b1 % 16);
    let (q2, r2) = (b2 / 64, b2 % 64);
    lemma_fundamental_div_mod_converse(b0, 4, q0, r0);
    lemma_fundamental_div_mod_converse(b1, 16, q1, r1);
    lemma_fundamental_div_mod_converse(b2, 64, q2, r2);
    lemma_fundamental_div_mod_converse(
        n,
        262144,
        q0,
        r0 * 65536 + q1 * 4096 + r1 * 256 + q2 * 64 + r2,
    );
    lemma_fundamental_div_mod_converse(n, 4096, q0 * 64 + r0 * 16 + q1, r1 * 256 + q2 * 64 + r2);
    lemma_fundamental_div_mod_converse(q0 * 64 + r0 * 16 + q1, 64, q0, r0 * 16 + q1);
    lemma_fundamental_div_mod_converse(n, 64, q0 * 4096 + r0 * 1024 + q1 * 64 + r1 * 4 + q2, r2);
    lemma_fundamental_div_mod_converse(
        q0 * 4096 + r0 * 1024 + q1 * 64 + r1 * 4 + q2,
        64,
        q0 * 64 + r0 * 16 + q1,
        r1 * 4 + q2,
    );
    lemma_fundamental_div_mod_converse(n, 65536, b0, b1 * 256 + b2);
    lemma_fundamental_div_mod_converse(n, 256, b0 * 256 + b1, b2);
    lemma_fundamental_div_mod_converse(b0 * 256 + b1, 256, b0, b1);
}

/// The symbol bytes of an encoded group (padding left out).
spec fn group_symbols(b0: int, b1: int, b2: int, k: int) -> Seq<u8> {
    let n = b0 * 65536 + b1 * 256 + b2;
    seq![
        alphabet(n / 262144) as u8,
        alphabet((n / 4096) % 64) as u8,
        alphabet((n / 64) % 64) as u8,
        alphabet(n % 64) as u8,
    ].take(k + 1)
}

proof fn lemma_group_strip(b0: int, b1: int, b2: int, k: int)
    requires
        0 <= b0 < 256,
        0 <= b1 < 256,
        0 <= b2 < 256,
        1 <= k <= 3,
    ensures
        is_ascii_chars(encode_group(b0, b1, b2, k)),
        strip(ascii_bytes(encode_group(b0, b1, b2, k))) == group_symbols(b0, b1, b2, k),
        forall|i: int| 0 <= i < k + 1 ==> is_symbol(#[trigger] group_symbols(b0, b1, b2, k)[i]),
{
    reveal(encode_group);
    let n = b0 * 65536 + b1 * 256 + b2;
    lemma_alphabet(n / 262144);
    lemma_alphabet((n / 4096) % 64);
    lemma_alphabet((n / 64) % 64);
    lemma_alphabet(n % 64);
    let g = encode_group(b0, b1, b2, k);
    let syms = group_symbols(b0, b1, b2, k);
    let pads = seq![61u8, 61u8, 61u8].take(3 - k);
    assert forall|i: int| 0 <= i < g.len() implies '\0' <= #[trigger] g[i] <= '\u{7f}' by {}
    assert(ascii_bytes(g) =~= syms + pads);
    lemma_strip_append(syms, pads);
    lemma_strip_symbols(syms);
    assert(strip(pads) =~= Seq::<u8>::empty()) by {
        reveal_with_fuel(strip, 4);
        assert(pads.len() >= 1 ==> pads.last() == 61);
        assert(pads.len() >= 2 ==> pads.drop_last().last() == 61);
        if pads.len() >= 2 {
            assert(pads.drop_last().drop_last().len() == 0);
        } else if pads.len() == 1 {
            assert(pads.drop_last().len() == 0);
        }
    }
    assert(syms + Seq::<u8>::empty() =~= syms);
}

#[verifier::spinoff_prover]
#[verifier::rlimit(40)]
proof fn lemma_group_decode(b0: int, b1: int, b2: int, k: int)
    requires
        0 <= b0 < 256,
        0 <= b1 < 256,
        0 <= b2 < 256,
        1 <= k <= 3,
        k < 2 ==> b1 == 0,
        k < 3 ==> b2 == 0,
    ensures
        decode_group(group_symbols(b0, b1, b2, k)) == seq![b0 as u8, b1 as u8, b2 as u8].take(k),
{
    reveal(decode_group);
    let n = b0 * 65536 + b1 * 256 + b2;
    lemma_sextet_arith(b0, b1, b2);
    lemma_alphabet(n / 262144);
    lemma_alphabet((n / 4096) % 64);
    lemma_alphabet((n / 64) % 64);
    lemma_alphabet(n % 64);
    let syms = group_symbols(b0, b1, b2, k);
    assert(decode_group(syms) =~= seq![b0 as u8, b1 as u8, b2 as u8].take(k));
}

/// The encoded group, with its padding removed, decodes to the `k` bytes
/// it was made from.
proof fn lemma_group_round_trip(b0: int, b1: int, b2: int, k: int)
    requires
        0 <= b0 < 256,
        0 <= b1 < 256,
        0 <= b2 < 256,
        1 <= k <= 3,
        k < 2 ==> b1 == 0,
        k < 3 ==> b2 == 0,
    ensures
        is_ascii_chars(encode_group(b0, b1, b2, k)),
        strip(ascii_bytes(encode_group(b0, b1, b2, k))).len() == k + 1,
        forall|i: int|
            0 <= i < k + 1 ==> is_symbol(
                #[trigger] strip(ascii_bytes(encode_group(b0, b1, b2, k)))[i],
            ),
        decode_group(strip(ascii_bytes(encode_group(b0, b1, b2, k)))) == seq![
            b0 as u8,
            b1 as u8,
            b2 as u8,
        ].take(k),
{
    lemma_group_strip(b0, b1, b2, k);
    lemma_group_decode(b0, b1, b2, k);
}

/// Round trip: decoding the UTF-8 bytes of what [`base64_encode`] produced
/// gives back exactly the bytes that were encoded.
pub proof fn lemma_base64_round_trip(data: Seq<u8>)
    ensures
        is_ascii_chars(encode_spec(data)),
        decode_spec(encode_utf8(encode_spec(data))) == Some(data),
    decreases data.len(),
{
    lemma_encoded_symbols(data);
    let e = encode_spec(data);
    vstd::utf8::is_ascii_chars_encode_utf8(e);
    assert(encode_utf8(e) =~= ascii_bytes(e));
}

proof fn lemma_encoded_symbols(data: Seq<u8>)
    ensures
        is_ascii_chars(encode_spec(data)),
        forall|i: int|
            0 <= i < strip(ascii_bytes(encode_spec(data))).len() ==> is_symbol(
                #[trigger] strip(ascii_bytes(encode_spec(data)))[i],
            ),
        decode_groups(strip(ascii_bytes(encode_spec(data)))) == data,
    decreases data.len(),
{
    if data.len() == 0 {
        assert(ascii_bytes(encode_spec(data)) =~= Seq::<u8>::empty());
        assert(data =~= Seq::<u8>::empty());
    } else if data.len() < 3 {
        let k = data.len() as int;
        let b1 = if k > 1 { data[1] as int } else { 0 };
        lemma_group_round_trip(data[0] as int, b1, 0, k);
        let s = strip(ascii_bytes(encode_spec(data)));
        assert(decode_groups(s) == decode_group(s));
        assert(seq![data[0], b1 as u8, 0u8].take(k) =~= data);
    } else {
        let g = encode_group(data[0] as int, data[1] as int, data[2] as int, 3);
        let rest = encode_spec(data.skip(3));
        lemma_group_round_trip(data[0] as int, data[1] as int, data[2] as int, 3);
        lemma_encoded_symbols(data.skip(3));
        assert(encode_spec(data) == g + rest);
        assert(ascii_bytes(g + rest) =~= ascii_bytes(g) + ascii_bytes(rest));
        lemma_strip_append(ascii_bytes(g), ascii_bytes(rest));
        let sg = strip(ascii_bytes(g));
        let sr = strip(ascii_bytes(rest));
        lemma_decode_concat(sg, sr);
        assert(seq![data[0], data[1], data[2]].take(3) + data.skip(3) =~= data);
        assert(is_ascii_chars(g + rest));
    }
}

/// A character Base64 text is made of: the alphabet or `=` padding.
pub open spec fn is_base64_char(c: char) -> bool {
    let v = c as u32;
    (65 <= v <= 90) || (97 <= v <= 122) || (48 <= v <= 57) || v == 43 || v == 47 || v == 61
}

/// Base64 text holds alphabet characters and padding only.
pub proof fn lemma_encode_chars(data: Seq<u8>)
    ensures
        forall|i: int|
            0 <= i < encode_spec(data).len() ==> is_base64_char(#[trigger] encode_spec(data)[i]),
    decreases data.len(),
{
    reveal(encode_group);
    if data.len() == 0 {
    } else if data.len() < 3 {
        let b1: int = if data.len() > 1 { data[1] as int } else { 0 };
        let n = data[0] * 65536 + b1 * 256;
        assert(0 <= n / 262144 < 64);
        assert(0 <= (n / 4096) % 64 < 64);
        assert(0 <= (n / 64) % 64 < 64);
    } else {
        let n = data[0] * 65536 + data[1] * 256 + data[2];
        assert(0 <= n / 262144 < 64);
        assert(0 <= (n / 4096) % 64 < 64);
        assert(0 <= (n / 64) % 64 < 64);
        assert(0 <= n % 64 < 64);
        lemma_encode_chars(data.skip(3));
        let g = encode_group(data[0] as int, data[1] as int, data[2] as int, 3);
        let rest = encode_spec(data.skip(3));
        assert(encode_spec(data) == g + rest);
        assert forall|i: int| 0 <= i < encode_spec(data).len() implies is_base64_char(
            #[trigger] encode_spec(data)[i],
        ) by {
            if i >= 4 {
                assert(encode_spec(data)[i] == rest[i - 4]);
            }
        }
    }
}

/// The standard Base64 alphabet of RFC 4648, in sextet order.
pub open spec fn standard_alphabet() -> Seq<char> {
    "ABCDEFGHIJKLMNOPQRSTUVWXYZabcdefghijklmnopqrstuvwxyz0123456789+/"@
}

/// The alphabet is the standard one: sextet `v` is written as the `v`-th
/// character of `A-Z a-z 0-9 + /`, and reading a symbol gives back its
/// position there.
pub proof fn lemma_standard_alphabet()
    ensures
        standard_alphabet().len() == 64,
        forall|v: int| 0 <= v < 64 ==> #[trigger] alphabet(v) == standard_alphabet()[v],
        forall|v: int|
            0 <= v < 64 ==> is_symbol(#[trigger] standard_alphabet()[v] as u8) && sextet(
                standard_alphabet()[v] as u8,
            ) == v,
        forall|c: u8|
            #[trigger] is_symbol(c) ==> 0 <= sextet(c) < 64 && standard_alphabet()[sextet(c)] == c as char,
{
    reveal_strlit("ABCDEFGHIJKLMNOPQRSTUVWXYZabcdefghijklmnopqrstuvwxyz0123456789+/");
    let a = standard_alphabet();
    assert forall|v: int| 0 <= v < 64 implies #[trigger] alphabet(v) == a[v] && is_symbol(a[v] as u8)
        && sextet(a[v] as u8) == v by {
        assert(v == 0 || v == 1 || v == 2 || v == 3 || v == 4 || v == 5 || v == 6 || v == 7 || v == 8 || v == 9 || v == 10 || v == 11 || v == 12 || v == 13 || v == 14 || v == 15 || v == 16 || v == 17 || v == 18 || v == 19 || v == 20 || v == 21 || v == 22 || v == 23 || v == 24 || v == 25 || v == 26 || v == 27 || v == 28 || v == 29 || v == 30 || v == 31 || v == 32 || v == 33 || v == 34 || v == 35 || v == 36 || v == 37 || v == 38 || v == 39 || v == 40 || v == 41 || v == 42 || v == 43 || v == 44 || v == 45 || v == 46 || v == 47 || v == 48 || v == 49 || v == 50 || v == 51 || v == 52 || v == 53 || v == 54 || v == 55 || v == 56 || v == 57 || v == 58 || v == 59 || v == 60 || v == 61 || v == 62 || v == 63);
    }
    assert forall|c: u8| #[trigger] is_symbol(c) implies 0 <= sextet(c) < 64 && a[sextet(c)] == c as char by {
        let v = sextet(c);
        assert(v == 0 || v == 1 || v == 2 || v == 3 || v == 4 || v == 5 || v == 6 || v == 7 || v == 8 || v == 9 || v == 10 || v == 11 || v == 12 || v == 13 || v == 14 || v == 15 || v == 16 || v == 17 || v == 18 || v == 19 || v == 20 || v == 21 || v == 22 || v == 23 || v == 24 || v == 25 || v == 26 || v == 27 || v == 28 || v == 29 || v == 30 || v == 31 || v == 32 || v == 33 || v == 34 || v == 35 || v == 36 || v == 37 || v == 38 || v == 39 || v == 40 || v == 41 || v == 42 || v == 43 || v == 44 || v == 45 || v == 46 || v == 47 || v == 48 || v == 49 || v == 50 || v == 51 || v == 52 || v == 53 || v == 54 || v == 55 || v == 56 || v == 57 || v == 58 || v == 59 || v == 60 || v == 61 || v == 62 || v == 63);
    }
}

/// Encoding follows the standard bit layout: three bytes become the
/// alphabet characters of their four 6-bit fields, most significant first;
/// a final group of two or one byte is padded with `=`.
pub proof fn lemma_encode_standard(b0: u8, b1: u8, b2: u8)
    ensures
        encode_group(b0 as int, b1 as int, b2 as int, 3) == seq![
            standard_alphabet()[(b0 / 4) as int],
            standard_alphabet()[(b0 % 4) * 16 + b1 / 16],
            standard_alphabet()[(b1 % 16) * 4 + b2 / 64],
            standard_alphabet()[(b2 % 64) as int],
        ],
        encode_group(b0 as int, b1 as int, 0, 2) == seq![
            standard_alphabet()[(b0 / 4) as int],
            standard_alphabet()[(b0 % 4) * 16 + b1 / 16],
            standard_alphabet()[(b1 % 16) * 4],
            '=',
        ],
        encode_group(b0 as int, 0, 0, 1) == seq![
            standard_alphabet()[(b0 / 4) as int],
            standard_alphabet()[(b0 % 4) * 16],
            '=',
            '=',
        ],
{
    reveal(encode_group);
    lemma_standard_alphabet();
    let n: int = b0 * 65536 + b1 * 256 + b2;
    assert(n / 262144 == b0 / 4 && (n / 4096) % 64 == (b0 % 4) * 16 + b1 / 16 && (n / 64) % 64 == (b1
        % 16) * 4 + b2 / 64 && n % 64 == b2 % 64) by (nonlinear_arith)
        requires
            n == b0 * 65536 + b1 * 256 + b2,
            0 <= b0 < 256,
            0 <= b1 < 256,
            0 <= b2 < 256,
    ;
    let n2: int = b0 * 65536 + b1 * 256;
    assert(n2 / 262144 == b0 / 4 && (n2 / 4096) % 64 == (b0 % 4) * 16 + b1 / 16 && (n2 / 64) % 64 == (b1
        % 16) * 4) by (nonlinear_arith)
        requires
            n2 == b0 * 65536 + b1 * 256,
            0 <= b0 < 256,
            0 <= b1 < 256,
    ;
    let n1: int = b0 * 65536;
    assert(n1 / 262144 == b0 / 4 && (n1 / 4096) % 64 == (b0 % 4) * 16) by (nonlinear_arith)
        requires
            n1 == b0 * 65536,
            0 <= b0 < 256,
    ;
    assert(0 <= b0 / 4 < 64 && 0 <= (b0 % 4) * 16 + b1 / 16 < 64 && 0 <= (b1 % 16) * 4 + b2 / 64 < 64);
    assert(0 <= (b0 % 4) * 16 < 64 && 0 <= (b1 % 16) * 4 < 64);
}

/// Decoding follows the standard bit layout: four alphabet characters of
/// sextets `a b c d` give the bytes `a:b`, `b:c`, `c:d` of their 24 bits.
pub proof fn lemma_decode_standard(a: int, b: int, c: int, d: int)
    requires
        0 <= a < 64,
        0 <= b < 64,
        0 <= c < 64,
        0 <= d < 64,
    ensures
        decode_group(
            seq![
                standard_alphabet()[a] as u8,
                standard_alphabet()[b] as u8,
                standard_alphabet()[c] as u8,
                standard_alphabet()[d] as u8,
            ],
        ) == seq![(a * 4 + b / 16) as u8, ((b % 16) * 16 + c / 4) as u8, ((c % 4) * 64 + d) as u8],
{
    reveal(decode_group);
    lemma_standard_alphabet();
    let g = seq![
        standard_alphabet()[a] as u8,
        standard_alphabet()[b] as u8,
        standard_alphabet()[c] as u8,
        standard_alphabet()[d] as u8,
    ];
    assert(sextet(g[0]) == a && sextet(g[1]) == b && sextet(g[2]) == c && sextet(g[3]) == d);
    let n = a * 262144 + b * 4096 + c * 64 + d;
    assert(n / 65536 == a * 4 + b / 16 && (n / 256) % 256 == (b % 16) * 16 + c / 4 && n % 256 == (c
        % 4) * 64 + d) by (nonlinear_arith)
        requires
            n == a * 262144 + b * 4096 + c * 64 + d,
            0 <= a < 64,
            0 <= b < 64,
            0 <= c < 64,
            0 <= d < 64,
    ;
    assert(g.len() * 6 / 8 == 3);
    assert(seq![(n / 65536) as u8, ((n / 256) % 256) as u8, (n % 256) as u8].take(3) =~= seq![
        (n / 65536) as u8,
        ((n / 256) % 256) as u8,
        (n % 256) as u8,
    ]);
}

} // verus!
