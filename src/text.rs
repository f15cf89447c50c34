use vstd::prelude::*;

verus! {

pub open spec fn is_high(u: u16) -> bool {
    0xD800 <= u <= 0xDBFF
}

pub open spec fn is_low(u: u16) -> bool {
    0xDC00 <= u <= 0xDFFF
}

/// Unit `i` is a surrogate without its partner.
pub open spec fn unpaired_at(u: Seq<u16>, i: int) -> bool {
    (is_high(u[i]) && !(i + 1 < u.len() && is_low(u[i + 1])))
    || (is_low(u[i]) && !(i > 0 && is_high(u[i - 1])))
}

/// UTF-16 with every surrogate in a pair.
pub open spec fn utf16_valid(u: Seq<u16>) -> bool {
    forall|i: int| 0 <= i < u.len() ==> !unpaired_at(u, i)
}

/// Index of the first unpaired surrogate at or after `i`, or the length if none.
pub open spec fn first_unpaired(u: Seq<u16>, i: int) -> int
    decreases u.len() - i,
{
    if i >= u.len() || i < 0 {
        u.len() as int
    } else if unpaired_at(u, i) {
        i
    } else {
        first_unpaired(u, i + 1)
    }
}

/// The characters that valid UTF-16 units decode to.
pub uninterp spec fn utf16_text(u: Seq<u16>) -> Seq<char>;

/// Index of the first unpaired surrogate, if any.
pub fn find_unpaired(u: &Vec<u16>) -> (r: Option<usize>)
    ensures
        match r {
            Some(i) => i == first_unpaired(u@, 0) && i < u@.len() && !utf16_valid(u@),
            None => utf16_valid(u@) && first_unpaired(u@, 0) == u@.len(),
        },
{
    let mut i: usize = 0;
    while i < u.len()
        invariant
            i <= u.len(),
            first_unpaired(u@, 0) == first_unpaired(u@, i as int),
            forall|j: int| 0 <= j < i ==> !unpaired_at(u@, j),
        decreases u.len() - i,
    {
        let c = u[i];
        let bad = if 0xD800 <= c && c <= 0xDBFF {
            !(i + 1 < u.len() && 0xDC00 <= u[i + 1] && u[i + 1] <= 0xDFFF)
        } else if 0xDC00 <= c && c <= 0xDFFF {
            !(i > 0 && 0xD800 <= u[i - 1] && u[i - 1] <= 0xDBFF)
        } else {
            false
        };
        if bad {
            return Some(i);
        }
        i = i + 1;
    }
    None
}

/// Relies on std's `char::decode_utf16`: it yields an error exactly at an
/// unpaired surrogate, and the decoded characters otherwise.
#[verifier::external_body]
fn decode_units(u: &Vec<u16>) -> (r: Option<Vec<char>>)
    ensures
        r is Some <==> utf16_valid(u@),
        r is Some ==> r->Some_0@ == utf16_text(u@),
        u@.len() == 0 ==> r is Some && r->Some_0@.len() == 0,
{
    std::char::decode_utf16(u.iter().copied()).collect::<Result<Vec<char>, _>>().ok()
}

/// Decodes UTF-16 units, or gives the index of the first unpaired surrogate.
pub fn decode_utf16(u: &Vec<u16>) -> (r: Result<Vec<char>, usize>)
    ensures
        match r {
            Ok(v) => utf16_valid(u@) && v@ == utf16_text(u@),
            Err(i) => !utf16_valid(u@) && i == first_unpaired(u@, 0) && i < u@.len(),
        },
        u@.len() == 0 ==> r is Ok && r->Ok_0@.len() == 0,
{
    match find_unpaired(u) {
        Some(i) => Err(i),
        None => match decode_units(u) {
            Some(v) => Ok(v),
            None => Err(u.len()),
        },
    }
}

/// The characters that valid UTF-8 bytes decode to.
pub uninterp spec fn utf8_text(b: Seq<u8>) -> Seq<char>;

/// Length of the longest valid UTF-8 prefix of the bytes.
pub uninterp spec fn utf8_valid_up_to(b: Seq<u8>) -> nat;

/// Relies on std's `String::from_utf8`: it succeeds exactly when the bytes are
/// valid UTF-8; on failure, `Utf8Error::valid_up_to` gives the length of the
/// longest valid prefix, which is shorter than the input.
#[verifier::external_body]
pub(crate) fn utf8_string(b: Vec<u8>) -> (r: Result<String, usize>)
    ensures
        r is Ok <==> utf8_valid_up_to(b@) == b@.len(),
        r is Ok ==> r->Ok_0@ == utf8_text(b@),
        r is Err ==> r->Err_0 == utf8_valid_up_to(b@) && r->Err_0 < b@.len(),
        b@.len() == 0 ==> r is Ok && r->Ok_0@.len() == 0,
{
    String::from_utf8(b).map_err(|e| e.utf8_error().valid_up_to())
}

/// Relies on std's `str::chars` collected into a `Vec`: the characters of the string in order.
#[verifier::external_body]
pub(crate) fn chars_of(s: &String) -> (r: Vec<char>)
    ensures
        r@ == s@,
{
    s.chars().collect()
}

/// ANSI text read as Latin-1: each byte is the character of the same number.
pub open spec fn latin1_text(b: Seq<u8>) -> Seq<char> {
    Seq::new(b.len(), |i: int| b[i] as char)
}

/// Relies on std's `FromIterator<&char> for String`: the string holds the characters in order.
#[verifier::external_body]
pub(crate) fn string_of(v: &Vec<char>) -> (r: String)
    ensures
        r@ == v@,
{
    v.iter().collect()
}

pub open spec fn hex_digit(n: int) -> char {
    if n < 10 {
        (('0' as int) + n) as char
    } else {
        (('A' as int) + n - 10) as char
    }
}

fn hex_digit_exec(n: u8) -> (r: char)
    requires
        n < 16,
    ensures
        r == hex_digit(n as int),
{
    if n < 10 {
        (('0' as u8) + n) as char
    } else {
        (('A' as u8) + n - 10) as char
    }
}

/// Two uppercase hex digits per byte, high nibble first.
pub open spec fn hex_of(b: Seq<u8>) -> Seq<char>
    decreases b.len(),
{
    if b.len() == 0 {
        Seq::empty()
    } else {
        hex_of(b.drop_last()) + seq![hex_digit(b.last() as int / 16), hex_digit(b.last() as int % 16)]
    }
}

pub fn hex_string(b: &Vec<u8>) -> (r: String)
    ensures
        r@ == hex_of(b@),
        r@.len() == 2 * b@.len(),
{
    let mut out: Vec<char> = Vec::new();
    let mut i: usize = 0;
    while i < b.len()
        invariant
            i <= b.len(),
            out@ == hex_of(b@.take(i as int)),
            out@.len() == 2 * i,
        decreases b.len() - i,
    {
        let x = b[i];
        out.push(hex_digit_exec(x / 16));
        out.push(hex_digit_exec(x % 16));
        assert(b@.take(i + 1).drop_last() =~= b@.take(i as int));
        i = i + 1;
        assert(out@ =~= hex_of(b@.take(i as int)));
    }
    assert(b@.take(b@.len() as int) =~= b@);
    string_of(&out)
}

pub const FNV_OFFSET: u64 = 0xcbf29ce484222325;

pub const FNV_PRIME: u64 = 0x100000001b3;

/// 64-bit FNV-1a over the Unicode scalar values of the text, one step per character.
pub open spec fn fnv1a(s: Seq<char>) -> u64
    decreases s.len(),
{
    if s.len() == 0 {
        FNV_OFFSET
    } else {
        (fnv1a(s.drop_last()) ^ (s.last() as u64)).wrapping_mul(FNV_PRIME)
    }
}

/// The `k` low hex digits of `h`, most significant first.
pub open spec fn hex_u64(h: u64, k: nat) -> Seq<char>
    decreases k,
{
    if k == 0 {
        Seq::empty()
    } else {
        hex_u64(h / 16, (k - 1) as nat).push(hex_digit((h % 16) as int))
    }
}

/// The checksum of a text: its FNV-1a hash as sixteen uppercase hex digits.
pub open spec fn checksum_of(s: Seq<char>) -> Seq<char> {
    hex_u64(fnv1a(s), 16)
}

fn push_hex_u64(out: &mut Vec<char>, h: u64, k: usize)
    ensures
        final(out)@ == old(out)@ + hex_u64(h, k as nat),
    decreases k,
{
    if k > 0 {
        push_hex_u64(out, h / 16, k - 1);
        out.push(hex_digit_exec((h % 16) as u8));
    }
}

pub fn checksum(s: &Vec<char>) -> (r: String)
    ensures
        r@ == checksum_of(s@),
{
    let mut h: u64 = FNV_OFFSET;
    let mut i: usize = 0;
    while i < s.len()
        invariant
            i <= s.len(),
            h == fnv1a(s@.take(i as int)),
        decreases s.len() - i,
    {
        assert(s@.take(i + 1).drop_last() =~= s@.take(i as int));
        h = (h ^ (s[i] as u64)).wrapping_mul(FNV_PRIME);
        i = i + 1;
    }
    assert(s@.take(s@.len() as int) =~= s@);
    let mut out: Vec<char> = Vec::new();
    push_hex_u64(&mut out, h, 16);
    assert(out@ =~= hex_u64(h, 16));
    string_of(&out)
}

} // verus!
