use vstd::prelude::*;

verus! {

/// The 32 lower-case hexadecimal digits of the MD5 digest of the UTF-8
/// bytes of a string.
pub uninterp spec fn md5_hex(s: Seq<char>) -> Seq<char>;

pub open spec fn is_lower_hex(c: char) -> bool {
    ('0' <= c && c <= '9') || ('a' <= c && c <= 'f')
}

/// Relies on `md5::compute` and the `LowerHex` formatting of its `Digest`
/// (two lower-case hexadecimal digits per byte of the 16-byte digest); the
/// digest depends on the string's bytes alone.
#[verifier::external_body]
fn md5_lower_hex(s: &str) -> (r: String)
    ensures
        r@ == md5_hex(s@),
        r@.len() == 32,
        forall|i: int| 0 <= i < 32 ==> is_lower_hex(#[trigger] r@[i]),
{
    format!("{:x}", md5::compute(s.as_bytes()))
}

/// Relies on `uuid::Uuid::new_v4` and `Uuid::as_bytes`: the 16 bytes of a
/// random version-4 identifier, whose byte 6 carries version 4 in its high
/// nibble and byte 8 the RFC 4122 variant (`10`) in its top two bits.
#[verifier::external_body]
fn random_uuid_bytes() -> (r: Vec<u8>)
    ensures
        r@.len() == 16,
        r@[6] / 16 == 4,
        r@[8] / 64 == 2,
{
    uuid::Uuid::new_v4().as_bytes().to_vec()
}

/// Relies on `SystemTime::now` and `duration_since(UNIX_EPOCH)`: the
/// milliseconds since the epoch, or `None` where the clock reads earlier.
#[verifier::external_body]
fn millis_since_epoch() -> (r: Option<u128>) {
    match std::time::SystemTime::now().duration_since(std::time::UNIX_EPOCH) {
        Ok(d) => Some(d.as_millis()),
        Err(_) => None,
    }
}

/// The stored form of a password: its MD5 digest in lower-case hexadecimal.
pub fn hash_password(password: String) -> (r: String)
    ensures
        r@ == md5_hex(password@),
        r@.len() == 32,
        forall|i: int| 0 <= i < 32 ==> is_lower_hex(#[trigger] r@[i]),
{
    md5_lower_hex(password.as_str())
}

/// The lower-case hexadecimal digit of `d < 16`.
pub open spec fn hex_lower_char(d: int) -> char {
    if d < 10 {
        ((48 + d) as u8) as char
    } else {
        ((87 + d) as u8) as char
    }
}

/// Each byte as two lower-case hexadecimal digits, high nibble first, in
/// byte order.
pub open spec fn lower_hex_of(b: Seq<u8>) -> Seq<char>
    decreases b.len(),
{
    if b.len() == 0 {
        Seq::empty()
    } else {
        lower_hex_of(b.drop_last()) + seq![
            hex_lower_char(b.last() as int / 16),
            hex_lower_char(b.last() as int % 16),
        ]
    }
}

proof fn lemma_lower_hex_form(b: Seq<u8>)
    ensures
        lower_hex_of(b).len() == 2 * b.len(),
        forall|i: int| 0 <= i < lower_hex_of(b).len() ==> is_lower_hex(#[trigger] lower_hex_of(b)[i]),
    decreases b.len(),
{
    if b.len() > 0 {
        lemma_lower_hex_form(b.drop_last());
        let prev = lower_hex_of(b.drop_last());
        let hi = b.last() as int / 16;
        let lo = b.last() as int % 16;
        assert(is_lower_hex(hex_lower_char(hi)));
        assert(is_lower_hex(hex_lower_char(lo)));
        assert forall|i: int| 0 <= i < lower_hex_of(b).len() implies is_lower_hex(
            #[trigger] lower_hex_of(b)[i],
        ) by {
            if i < prev.len() {
                assert(lower_hex_of(b)[i] == prev[i]);
            }
        }
    }
}

fn hex_lower_str(d: u8) -> (r: &'static str)
    requires
        d < 16,
    ensures
        r@ == seq![hex_lower_char(d as int)],
{
    proof {
        reveal_strlit("0");
        reveal_strlit("1");
        reveal_strlit("2");
        reveal_strlit("3");
        reveal_strlit("4");
        reveal_strlit("5");
        reveal_strlit("6");
        reveal_strlit("7");
        reveal_strlit("8");
        reveal_strlit("9");
        reveal_strlit("a");
        reveal_strlit("b");
        reveal_strlit("c");
        reveal_strlit("d");
        reveal_strlit("e");
        reveal_strlit("f");
    }
    let r = match d {
        0 => "0",
        1 => "1",
        2 => "2",
        3 => "3",
        4 => "4",
        5 => "5",
        6 => "6",
        7 => "7",
        8 => "8",
        9 => "9",
        10 => "a",
        11 => "b",
        12 => "c",
        13 => "d",
        14 => "e",
        _ => "f",
    };
    assert(r@ =~= seq![hex_lower_char(d as int)]);
    r
}

/// The bytes written as lower-case hexadecimal, two digits per byte, high
/// nibble first, in byte order.
pub fn encode_lower_hex(bytes: &Vec<u8>) -> (r: String)
    ensures
        r@ == lower_hex_of(bytes@),
{
    let mut r = String::new();
    let mut i: usize = 0;
    while i < bytes.len()
        invariant
            i <= bytes.len(),
            r@ == lower_hex_of(bytes@.take(i as int)),
        decreases bytes.len() - i,
    {
        let b = bytes[i];
        r.append(hex_lower_str(b / 16));
        r.append(hex_lower_str(b % 16));
        proof {
            let t = bytes@.take(i + 1);
            assert(t.drop_last() =~= bytes@.take(i as int));
            assert(t.last() == b);
            assert(r@ =~= lower_hex_of(t));
        }
        i = i + 1;
    }
    assert(bytes@.take(bytes.len() as int) =~= bytes@);
    r
}

/// A fresh random access token: the 16 bytes of a random version-4 UUID in
/// lower-case hexadecimal, 32 digits.
pub fn token() -> (r: String)
    ensures
        r@.len() == 32,
        forall|i: int| 0 <= i < 32 ==> is_lower_hex(#[trigger] r@[i]),
        exists|b: Seq<u8>| b.len() == 16 && r@ == lower_hex_of(b),
{
    let bytes = random_uuid_bytes();
    let r = encode_lower_hex(&bytes);
    proof {
        lemma_lower_hex_form(bytes@);
    }
    r
}

/// The current time in milliseconds since the Unix epoch; a clock set
/// before the epoch reads as the epoch.
pub fn current_timestamp() -> u128 {
    match millis_since_epoch() {
        Some(ms) => ms,
        None => 0,
    }
}

/// A millisecond timestamp as stored in records, held at `i64::MAX`.
pub fn stored_timestamp(ms: u128) -> (r: i64)
    ensures
        r == if ms > i64::MAX as u128 {
            i64::MAX as int
        } else {
            ms as int
        },
{
    if ms > i64::MAX as u128 {
        i64::MAX
    } else {
        ms as i64
    }
}

/// `p` is a prefix of `s`.
pub open spec fn has_prefix(s: Seq<char>, p: Seq<char>) -> bool {
    p.len() <= s.len() && s.subrange(0, p.len() as int) == p
}

/// Whether `p` is a prefix of `s`.
pub fn starts_with(s: &str, p: &str) -> (r: bool)
    ensures
        r == has_prefix(s@, p@),
{
    let n = s.unicode_len();
    let m = p.unicode_len();
    if m > n {
        return false;
    }
    let mut i: usize = 0;
    while i < m
        invariant
            n == s@.len(),
            m == p@.len(),
            m <= n,
            i <= m,
            forall|j: int| 0 <= j < i ==> s@[j] == p@[j],
        decreases m - i,
    {
        if s.get_char(i) != p.get_char(i) {
            assert(s@.subrange(0, m as int)[i as int] != p@[i as int]);
            return false;
        }
        i = i + 1;
    }
    assert(s@.subrange(0, m as int) =~= p@);
    true
}

} // verus!
