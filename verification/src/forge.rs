//! Unique output filenames derived from an input path and a timestamp.
//!
//! The name of a converted image is the lowercase hex rendering of a
//! 256-bit digest of the input path's UTF-8 bytes followed by the
//! big-endian encoding of the wall-clock instant in milliseconds, placed in
//! the output directory with the configured extension:
//! `{dir}/{hex}.{ext}`. The whole derivation is a function of its inputs
//! alone and performs no I/O; the caller supplies the instant.
//!
//! Two calls with the same path and the same millisecond collide by
//! design (an accepted limitation); two calls whose instants differ always
//! hash different keys, so their names differ unless the digests of those
//! two distinct keys collide.

use vstd::prelude::*;
use vstd::string::StrSliceExecFns;
use vstd::string::StringExecFns;
use vstd::string::StringSliceAdditionalSpecFns;
use vstd::utf8::encode_utf8;

verus! {

/// The big-endian bytes of a 64-bit value, most significant first.
pub open spec fn be8(n: u64) -> Seq<u8> {
    seq![
        ((n / 0x100000000000000) % 256) as u8,
        ((n / 0x1000000000000) % 256) as u8,
        ((n / 0x10000000000) % 256) as u8,
        ((n / 0x100000000) % 256) as u8,
        ((n / 0x1000000) % 256) as u8,
        ((n / 0x10000) % 256) as u8,
        ((n / 0x100) % 256) as u8,
        (n % 256) as u8,
    ]
}

fn u64_be_bytes(n: u64) -> (r: Vec<u8>)
    ensures
        r@ == be8(n),
{
    let mut r: Vec<u8> = Vec::new();
    r.push(((n / 0x100000000000000) % 256) as u8);
    r.push(((n / 0x1000000000000) % 256) as u8);
    r.push(((n / 0x10000000000) % 256) as u8);
    r.push(((n / 0x100000000) % 256) as u8);
    r.push(((n / 0x1000000) % 256) as u8);
    r.push(((n / 0x10000) % 256) as u8);
    r.push(((n / 0x100) % 256) as u8);
    r.push((n % 256) as u8);
    proof {
        assert(r@ =~= be8(n));
    }
    r
}

/// Distinct 64-bit values have distinct big-endian encodings.
pub proof fn lemma_be8_injective(a: u64, b: u64)
    requires
        be8(a) == be8(b),
    ensures
        a == b,
{
    assert(((a / 0x100000000000000) % 256) as u8 == ((b / 0x100000000000000) % 256) as u8);
    assert(((a / 0x1000000000000) % 256) as u8 == ((b / 0x1000000000000) % 256) as u8);
    assert(((a / 0x10000000000) % 256) as u8 == ((b / 0x10000000000) % 256) as u8);
    assert(((a / 0x100000000) % 256) as u8 == ((b / 0x100000000) % 256) as u8);
    assert(((a / 0x1000000) % 256) as u8 == ((b / 0x1000000) % 256) as u8);
    assert(((a / 0x10000) % 256) as u8 == ((b / 0x10000) % 256) as u8);
    assert(((a / 0x100) % 256) as u8 == ((b / 0x100) % 256) as u8);
    assert((a % 256) as u8 == (b % 256) as u8);
    assert((a / 0x100000000000000u64) % 256 == (b / 0x100000000000000u64) % 256
        && (a / 0x1000000000000u64) % 256 == (b / 0x1000000000000u64) % 256
        && (a / 0x10000000000u64) % 256 == (b / 0x10000000000u64) % 256
        && (a / 0x100000000u64) % 256 == (b / 0x100000000u64) % 256
        && (a / 0x1000000u64) % 256 == (b / 0x1000000u64) % 256
        && (a / 0x10000u64) % 256 == (b / 0x10000u64) % 256
        && (a / 0x100u64) % 256 == (b / 0x100u64) % 256
        && a % 256 == b % 256 ==> a == b) by (bit_vector);
}

/// The lowercase hex digit for a value in `[0, 16)`.
pub open spec fn hex_digit(x: int) -> char {
    if x == 0 {
        '0'
    } else if x == 1 {
        '1'
    } else if x == 2 {
        '2'
    } else if x == 3 {
        '3'
    } else if x == 4 {
        '4'
    } else if x == 5 {
        '5'
    } else if x == 6 {
        '6'
    } else if x == 7 {
        '7'
    } else if x == 8 {
        '8'
    } else if x == 9 {
        '9'
    } else if x == 10 {
        'a'
    } else if x == 11 {
        'b'
    } else if x == 12 {
        'c'
    } else if x == 13 {
        'd'
    } else if x == 14 {
        'e'
    } else {
        'f'
    }
}

spec fn unhex_digit(c: char) -> int {
    if c == '0' {
        0
    } else if c == '1' {
        1
    } else if c == '2' {
        2
    } else if c == '3' {
        3
    } else if c == '4' {
        4
    } else if c == '5' {
        5
    } else if c == '6' {
        6
    } else if c == '7' {
        7
    } else if c == '8' {
        8
    } else if c == '9' {
        9
    } else if c == 'a' {
        10
    } else if c == 'b' {
        11
    } else if c == 'c' {
        12
    } else if c == 'd' {
        13
    } else if c == 'e' {
        14
    } else {
        15
    }
}

/// Distinct values in `[0, 16)` have distinct hex digits.
pub proof fn lemma_hex_digit_injective(x: int, y: int)
    requires
        0 <= x < 16,
        0 <= y < 16,
        x != y,
    ensures
        hex_digit(x) != hex_digit(y),
{
    assert(unhex_digit(hex_digit(x)) == x);
    assert(unhex_digit(hex_digit(y)) == y);
}

/// The lowercase hex rendering of a byte sequence, two digits per byte.
pub open spec fn hex_of(s: Seq<u8>) -> Seq<char>
    decreases s.len(),
{
    if s.len() == 0 {
        Seq::empty()
    } else {
        hex_of(s.drop_last()) + seq![
            hex_digit(s.last() as int / 16),
            hex_digit(s.last() as int % 16),
        ]
    }
}

pub proof fn lemma_hex_of_len(s: Seq<u8>)
    ensures
        hex_of(s).len() == 2 * s.len(),
    decreases s.len(),
{
    if s.len() > 0 {
        lemma_hex_of_len(s.drop_last());
    }
}

/// The digits at positions `2i` and `2i + 1` render the byte at `i`.
pub proof fn lemma_hex_of_index(s: Seq<u8>, i: int)
    requires
        0 <= i < s.len(),
    ensures
        hex_of(s).len() == 2 * s.len(),
        hex_of(s)[2 * i] == hex_digit(s[i] as int / 16),
        hex_of(s)[2 * i + 1] == hex_digit(s[i] as int % 16),
    decreases s.len(),
{
    lemma_hex_of_len(s);
    lemma_hex_of_len(s.drop_last());
    if i < s.len() - 1 {
        lemma_hex_of_index(s.drop_last(), i);
    }
}

/// True of the sixteen characters a hex rendering is made of.
pub open spec fn is_hex_char(c: char) -> bool {
    ||| c == '0'
    ||| c == '1'
    ||| c == '2'
    ||| c == '3'
    ||| c == '4'
    ||| c == '5'
    ||| c == '6'
    ||| c == '7'
    ||| c == '8'
    ||| c == '9'
    ||| c == 'a'
    ||| c == 'b'
    ||| c == 'c'
    ||| c == 'd'
    ||| c == 'e'
    ||| c == 'f'
}

/// A hex rendering holds nothing but lowercase hex digits.
pub proof fn lemma_hex_of_is_hex(s: Seq<u8>, i: int)
    requires
        0 <= i < 2 * s.len(),
    ensures
        is_hex_char(hex_of(s)[i]),
{
    let j = i / 2;
    lemma_hex_of_index(s, j);
    assert(i == 2 * j || i == 2 * j + 1);
}

fn hex_digit_str(x: u8) -> (r: &'static str)
    requires
        x < 16,
    ensures
        r@ == seq![hex_digit(x as int)],
{
    match x {
        0 => {
            proof {
                reveal_strlit("0");
            }
            "0"
        },
        1 => {
            proof {
                reveal_strlit("1");
            }
            "1"
        },
        2 => {
            proof {
                reveal_strlit("2");
            }
            "2"
        },
        3 => {
            proof {
                reveal_strlit("3");
            }
            "3"
        },
        4 => {
            proof {
                reveal_strlit("4");
            }
            "4"
        },
        5 => {
            proof {
                reveal_strlit("5");
            }
            "5"
        },
        6 => {
            proof {
                reveal_strlit("6");
            }
            "6"
        },
        7 => {
            proof {
                reveal_strlit("7");
            }
            "7"
        },
        8 => {
            proof {
                reveal_strlit("8");
            }
            "8"
        },
        9 => {
            proof {
                reveal_strlit("9");
            }
            "9"
        },
        10 => {
            proof {
                reveal_strlit("a");
            }
            "a"
        },
        11 => {
            proof {
                reveal_strlit("b");
            }
            "b"
        },
        12 => {
            proof {
                reveal_strlit("c");
            }
            "c"
        },
        13 => {
            proof {
                reveal_strlit("d");
            }
            "d"
        },
        14 => {
            proof {
                reveal_strlit("e");
            }
            "e"
        },
        _ => {
            proof {
                reveal_strlit("f");
            }
            "f"
        },
    }
}

fn push_hex_byte(s: &mut String, b: u8)
    ensures
        final(s)@ == old(s)@ + seq![hex_digit(b as int / 16), hex_digit(b as int % 16)],
{
    s.append(hex_digit_str(b / 16));
    s.append(hex_digit_str(b % 16));
    proof {
        assert(final(s)@ =~= old(s)@ + seq![hex_digit(b as int / 16), hex_digit(b as int % 16)]);
    }
}

/// What `blake3::hash` returns for a byte sequence: a digest that is a
/// function of the bytes alone.
pub uninterp spec fn blake3_of(key: Seq<u8>) -> Seq<u8>;

/// Relies on `blake3::hash`: a 256-bit cryptographic digest of the byte
/// sequence alone, read out as its 32 bytes through `Hash::as_bytes`.
#[verifier::external_body]
fn blake3_hash_bytes(key: &Vec<u8>) -> (r: [u8; 32])
    ensures
        r@ == blake3_of(key@),
{
    *blake3::hash(key.as_slice()).as_bytes()
}

/// The bytes hashed for a name: the path's UTF-8 bytes, then the instant's
/// milliseconds as eight big-endian bytes.
pub open spec fn spec_forge_key(path: Seq<char>, now_millis: i64) -> Seq<u8> {
    encode_utf8(path) + be8(now_millis as u64)
}

/// A rendered output name: `{dir}/{hex of hash}.{ext}`.
pub open spec fn spec_name(dir: Seq<char>, hash: Seq<u8>, ext: Seq<char>) -> Seq<char> {
    dir + seq!['/'] + hex_of(hash) + seq!['.'] + ext
}

/// The name forged for an input path at an instant: the digest of the key,
/// rendered in lowercase hex between the directory and the extension.
pub open spec fn spec_forge(
    dir: Seq<char>,
    path: Seq<char>,
    now_millis: i64,
    ext: Seq<char>,
) -> Seq<char> {
    spec_name(dir, blake3_of(spec_forge_key(path, now_millis)), ext)
}

fn forge_key(input_path: &str, now_millis: i64) -> (r: Vec<u8>)
    ensures
        r@ == spec_forge_key(input_path@, now_millis),
{
    let mut key = input_path.as_bytes_vec();
    let mut tail = u64_be_bytes(#[verifier::truncate] (now_millis as u64));
    key.append(&mut tail);
    key
}

/// Derives the output filename for `input_path` at the instant
/// `now_millis`, milliseconds since the Unix epoch in UTC.
///
/// The result is exactly `spec_forge` of the inputs: the same directory,
/// path, instant and extension always yield the same name, and nothing but
/// the inputs enters the derivation.
pub fn forge(output_dir: &str, input_path: &str, now_millis: i64, extension: &str) -> (r: String)
    ensures
        r@ == spec_forge(output_dir@, input_path@, now_millis, extension@),
{
    let key = forge_key(input_path, now_millis);
    let hash = blake3_hash_bytes(&key);
    let mut name = String::from_str(output_dir);
    name.append("/");
    let mut i: usize = 0;
    while i < 32
        invariant
            0 <= i <= 32,
            hash@ == blake3_of(key@),
            key@ == spec_forge_key(input_path@, now_millis),
            name@ == output_dir@ + "/"@ + hex_of(hash@.take(i as int)),
        decreases 32 - i,
    {
        let ghost pre = hash@.take(i as int);
        push_hex_byte(&mut name, hash[i]);
        proof {
            assert(hash@.take(i + 1).drop_last() =~= pre);
            assert(hash@.take(i + 1).last() == hash@[i as int]);
            assert(hex_of(hash@.take(i + 1)) == hex_of(pre) + seq![
                hex_digit(hash@[i as int] as int / 16),
                hex_digit(hash@[i as int] as int % 16),
            ]);
            assert(name@ =~= output_dir@ + "/"@ + hex_of(hash@.take(i + 1)));
        }
        i = i + 1;
    }
    name.append(".");
    name.append(extension);
    proof {
        reveal_strlit("/");
        reveal_strlit(".");
        assert(hash@.take(32) =~= hash@);
        assert("/"@ =~= seq!['/']);
        assert("."@ =~= seq!['.']);
        assert(name@ =~= spec_forge(output_dir@, input_path@, now_millis, extension@));
    }
    name
}

/// Two keys forged for the same path at instants that differ at all (so in
/// particular by at least one millisecond) are distinct byte sequences:
/// the step of the derivation before the digest never collides across
/// instants. Names can then coincide only if the digests of two distinct
/// keys collide.
pub proof fn lemma_forge_key_time_distinct(path: Seq<char>, m1: i64, m2: i64)
    requires
        m1 != m2,
    ensures
        spec_forge_key(path, m1) != spec_forge_key(path, m2),
{
    let u = encode_utf8(path);
    let a: u64 = #[verifier::truncate] (m1 as u64);
    let b: u64 = #[verifier::truncate] (m2 as u64);
    assert(m1 != m2 ==> #[verifier::truncate] (m1 as u64) != #[verifier::truncate] (m2 as u64))
        by (bit_vector);
    if be8(a) == be8(b) {
        lemma_be8_injective(a, b);
    }
    assert(be8(a) != be8(b));
    let k1 = spec_forge_key(path, m1);
    let k2 = spec_forge_key(path, m2);
    if k1 == k2 {
        assert(k1.subrange(u.len() as int, k1.len() as int) =~= be8(a));
        assert(k2.subrange(u.len() as int, k2.len() as int) =~= be8(b));
        assert(false);
    }
}

/// Names forged for the same path at instants that differ at all coincide
/// only if the digest collides on two keys that are themselves distinct:
/// everything up to the digest, and everything after it, is
/// collision-free. Overwriting can therefore only follow from a collision
/// of the 256-bit digest itself, which is the accepted design tradeoff.
pub proof fn lemma_forge_collision_needs_digest_collision(
    dir: Seq<char>,
    path: Seq<char>,
    m1: i64,
    m2: i64,
    ext: Seq<char>,
)
    requires
        m1 != m2,
    ensures
        spec_forge(dir, path, m1, ext) == spec_forge(dir, path, m2, ext) ==> {
            &&& spec_forge_key(path, m1) != spec_forge_key(path, m2)
            &&& blake3_of(spec_forge_key(path, m1)) == blake3_of(spec_forge_key(path, m2))
        },
{
    lemma_forge_key_time_distinct(path, m1, m2);
    let h1 = blake3_of(spec_forge_key(path, m1));
    let h2 = blake3_of(spec_forge_key(path, m2));
    if h1 != h2 {
        if h1.len() == h2.len() {
            lemma_distinct_hashes_distinct_names(dir, h1, h2, ext);
        } else {
            lemma_hex_of_len(h1);
            lemma_hex_of_len(h2);
            assert(spec_name(dir, h1, ext).len() != spec_name(dir, h2, ext).len());
        }
    }
}

/// Rendered names expose every difference between digests: if two digests
/// of equal length differ anywhere, the names built from them (same
/// directory, same extension) differ. Together with
/// `lemma_forge_key_time_distinct`, names forged for the same path at
/// different instants coincide only on a digest collision.
pub proof fn lemma_distinct_hashes_distinct_names(
    dir: Seq<char>,
    h1: Seq<u8>,
    h2: Seq<u8>,
    ext: Seq<char>,
)
    requires
        h1.len() == h2.len(),
        h1 != h2,
    ensures
        spec_name(dir, h1, ext) != spec_name(dir, h2, ext),
{
    lemma_hex_of_len(h1);
    lemma_hex_of_len(h2);
    if forall|i: int| 0 <= i < h1.len() ==> h1[i] == h2[i] {
        assert(h1 =~= h2);
        assert(false);
    }
    let i = choose|i: int| 0 <= i < h1.len() && h1[i] != h2[i];
    lemma_hex_of_index(h1, i);
    lemma_hex_of_index(h2, i);
    let x = h1[i] as int;
    let y = h2[i] as int;
    assert(x == 16 * (x / 16) + x % 16);
    assert(y == 16 * (y / 16) + y % 16);
    let p: int = if x / 16 != y / 16 {
        lemma_hex_digit_injective(x / 16, y / 16);
        2 * i
    } else {
        lemma_hex_digit_injective(x % 16, y % 16);
        2 * i + 1
    };
    assert(hex_of(h1)[p] != hex_of(h2)[p]);
    let n1 = spec_name(dir, h1, ext);
    let n2 = spec_name(dir, h2, ext);
    let base = dir + seq!['/'];
    assert(base.len() == dir.len() + 1);
    assert(n1[base.len() + p] == hex_of(h1)[p]);
    assert(n2[base.len() + p] == hex_of(h2)[p]);
    assert(n1[base.len() + p] != n2[base.len() + p]);
}

} // verus!
