//! Content identities: framing of records and their digests.

use vstd::prelude::*;
use vstd::utf8::encode_utf8;

verus! {

/// The SHA-256 digest of bytes.
pub uninterp spec fn sha256(bytes: Seq<u8>) -> Seq<u8>;

/// `sha2::Sha256::digest`: the digest of the bytes, of 32 bytes. The contract
/// names the digest and states its length.
#[verifier::external_body]
fn sha256_of(bytes: &[u8]) -> (digest: Vec<u8>)
    ensures
        digest@ == sha256(bytes@),
        digest@.len() == 32,
{
    <sha2::Sha256 as sha2::Digest>::digest(bytes).to_vec()
}

/// The last bytes of a number, most significant first.
pub open spec fn big_endian(value: nat, length: nat) -> Seq<u8>
    decreases length,
{
    if length == 0 {
        Seq::empty()
    } else {
        big_endian(value / 256, (length - 1) as nat).push((value % 256) as u8)
    }
}

/// Appends a number, most significant byte first.
pub fn push_big_endian(target: &mut Vec<u8>, value: u128, length: usize)
    ensures
        final(target)@ == old(target)@ + big_endian(value as nat, length as nat),
    decreases length,
{
    if length > 0 {
        push_big_endian(target, value / 256, length - 1);
        target.push((value % 256) as u8);
        assert(target@ =~= old(target)@ + big_endian(value as nat, length as nat));
    } else {
        assert(target@ =~= old(target)@ + big_endian(value as nat, length as nat));
    }
}

/// Appends bytes.
pub fn push_bytes(target: &mut Vec<u8>, bytes: &[u8])
    ensures
        final(target)@ == old(target)@ + bytes@,
{
    let ghost before = target@;
    let mut i: usize = 0;
    assert(before =~= before + bytes@.take(0));
    while i < bytes.len()
        invariant
            i <= bytes.len(),
            target@ =~= before + bytes@.take(i as int),
        decreases bytes.len() - i,
    {
        target.push(bytes[i]);
        i += 1;
    }
    assert(bytes@.take(i as int) =~= bytes@);
}

/// The hexadecimal digit for a number below sixteen.
pub open spec fn hex_digit(value: nat) -> char {
    if value == 0 {
        '0'
    } else if value == 1 {
        '1'
    } else if value == 2 {
        '2'
    } else if value == 3 {
        '3'
    } else if value == 4 {
        '4'
    } else if value == 5 {
        '5'
    } else if value == 6 {
        '6'
    } else if value == 7 {
        '7'
    } else if value == 8 {
        '8'
    } else if value == 9 {
        '9'
    } else if value == 10 {
        'a'
    } else if value == 11 {
        'b'
    } else if value == 12 {
        'c'
    } else if value == 13 {
        'd'
    } else if value == 14 {
        'e'
    } else {
        'f'
    }
}

fn hex_char(value: u8) -> (character: char)
    requires
        value < 16,
    ensures
        character == hex_digit(value as nat),
{
    match value {
        0 => '0',
        1 => '1',
        2 => '2',
        3 => '3',
        4 => '4',
        5 => '5',
        6 => '6',
        7 => '7',
        8 => '8',
        9 => '9',
        10 => 'a',
        11 => 'b',
        12 => 'c',
        13 => 'd',
        14 => 'e',
        _ => 'f',
    }
}

/// Bytes in hexadecimal, two digits each.
pub open spec fn hex(bytes: Seq<u8>) -> Seq<char>
    decreases bytes.len(),
{
    if bytes.len() == 0 {
        Seq::empty()
    } else {
        hex(bytes.drop_last()).push(hex_digit((bytes.last() / 16) as nat)).push(
            hex_digit((bytes.last() % 16) as nat),
        )
    }
}

/// The first bytes in hexadecimal.
pub fn hex_text(bytes: &[u8], length: usize) -> (text: String)
    requires
        length <= bytes.len(),
    ensures
        text@ == hex(bytes@.take(length as int)),
{
    let mut text = String::new();
    let mut i: usize = 0;
    assert(bytes@.take(0) =~= Seq::empty());
    assert(text@ =~= Seq::empty());
    while i < length
        invariant
            i <= length <= bytes.len(),
            text@ == hex(bytes@.take(i as int)),
        decreases length - i,
    {
        proof {
            assert(bytes@.take(i + 1).drop_last() =~= bytes@.take(i as int));
        }
        text.push(hex_char(bytes[i] / 16));
        text.push(hex_char(bytes[i] % 16));
        i += 1;
    }
    text
}

/// A hash in hexadecimal.
pub fn hash_text(hash: u128) -> (text: String)
    ensures
        text@ == hex(big_endian(hash as nat, 16)),
{
    let mut bytes: Vec<u8> = Vec::new();
    push_big_endian(&mut bytes, hash, 16);
    proof {
        lemma_big_endian_length(hash as nat, 16);
        assert(bytes@ =~= big_endian(hash as nat, 16));
        assert(bytes@.take(16) =~= bytes@);
    }
    hex_text(bytes.as_slice(), 16)
}

pub proof fn lemma_big_endian_length(value: nat, length: nat)
    ensures
        big_endian(value, length).len() == length,
    decreases length,
{
    if length > 0 {
        lemma_big_endian_length(value / 256, (length - 1) as nat);
    }
}

/// Bytes in hexadecimal have two digits each.
pub proof fn hex_has_two_digits_each(bytes: Seq<u8>)
    ensures
        hex(bytes).len() == 2 * bytes.len(),
    decreases bytes.len(),
{
    if bytes.len() > 0 {
        hex_has_two_digits_each(bytes.drop_last());
    }
}

/// The value of a hexadecimal digit.
pub open spec fn hex_value(digit: char) -> Option<nat> {
    if '0' <= digit <= '9' {
        Some((digit as u32 - '0' as u32) as nat)
    } else if 'a' <= digit <= 'f' {
        Some((digit as u32 - 'a' as u32 + 10) as nat)
    } else if 'A' <= digit <= 'F' {
        Some((digit as u32 - 'A' as u32 + 10) as nat)
    } else {
        None
    }
}

fn digit_value(digit: char) -> (value: Option<u8>)
    ensures
        hex_value(digit) == (match value {
            Some(value) => Some(value as nat),
            None => None,
        }),
        value matches Some(value) ==> value < 16,
{
    if '0' <= digit && digit <= '9' {
        Some((digit as u32 - '0' as u32) as u8)
    } else if 'a' <= digit && digit <= 'f' {
        Some((digit as u32 - 'a' as u32 + 10) as u8)
    } else if 'A' <= digit && digit <= 'F' {
        Some((digit as u32 - 'A' as u32 + 10) as u8)
    } else {
        None
    }
}

/// The value of two hexadecimal digits. A plus sign may stand in place of the
/// first.
pub open spec fn pair_value(high: char, low: char) -> Option<nat> {
    match (hex_value(high), hex_value(low)) {
        (Some(high), Some(low)) => Some(high * 16 + low),
        (None, Some(low)) => if high == '+' {
            Some(low)
        } else {
            None
        },
        _ => None,
    }
}

/// The bytes that a text gives in hexadecimal; none where its length is odd or
/// a character is no digit.
pub open spec fn unhex(text: Seq<char>) -> Option<Seq<u8>>
    decreases text.len(),
{
    if text.len() == 0 {
        Some(Seq::empty())
    } else if text.len() == 1 {
        None
    } else {
        match (
            unhex(text.take(text.len() - 2)),
            pair_value(text[text.len() - 2], text[text.len() - 1]),
        ) {
            (Some(before), Some(value)) => Some(before.push(value as u8)),
            _ => None,
        }
    }
}

proof fn lemma_unhex_fails(text: Seq<char>, length: int)
    requires
        0 <= length <= text.len(),
        length % 2 == 0,
        unhex(text.take(length)) is None,
    ensures
        unhex(text) is None,
    decreases text.len(),
{
    if length == text.len() {
        assert(text.take(length) =~= text);
    } else if length + 2 <= text.len() {
        let shorter = text.take(text.len() - 2);
        if length <= shorter.len() {
            assert(shorter.take(length) =~= text.take(length));
            lemma_unhex_fails(shorter, length);
        }
    } else {
        // One character is left over.
        lemma_unhex_odd(text);
    }
}

proof fn lemma_unhex_odd(text: Seq<char>)
    requires
        text.len() % 2 == 1,
    ensures
        unhex(text) is None,
    decreases text.len(),
{
    if text.len() > 1 {
        lemma_unhex_odd(text.take(text.len() - 2));
    }
}

/// The bytes that a text gives in hexadecimal.
pub fn decode_hash(text: &str) -> (bytes: Option<Vec<u8>>)
    ensures
        unhex(text@) == (match bytes {
            Some(bytes) => Some(bytes@),
            None => None,
        }),
{
    let length: usize = text.unicode_len();
    let mut bytes: Vec<u8> = Vec::new();
    if length % 2 == 1 {
        proof {
            lemma_unhex_odd(text@);
        }
        return None;
    }
    let mut i: usize = 0;
    assert(text@.take(0) =~= Seq::empty());
    while i < length
        invariant
            i <= length,
            i % 2 == 0,
            length % 2 == 0,
            length == text@.len(),
            unhex(text@.take(i as int)) == Some(bytes@),
        decreases length - i,
    {
        let ghost longer = text@.take(i + 2);
        proof {
            assert(longer.take(longer.len() - 2) =~= text@.take(i as int));
            assert(longer[i as int] == text@[i as int]);
            assert(longer[i + 1] == text@[i + 1]);
        }
        let high = digit_value(text.get_char(i));
        let low = digit_value(text.get_char(i + 1));
        match (high, low) {
            (Some(high), Some(low)) => {
                bytes.push(high * 16 + low);
            },
            (None, Some(low)) if text.get_char(i) == '+' => {
                bytes.push(low);
            },
            _ => {
                proof {
                    assert(unhex(longer) is None);
                    lemma_unhex_fails(text@, i + 2);
                }
                return None;
            },
        }
        i += 2;
    }
    assert(text@.take(i as int) =~= text@);
    Some(bytes)
}

/// The number that bytes give, most significant first.
pub open spec fn number(bytes: Seq<u8>) -> nat
    decreases bytes.len(),
{
    if bytes.len() == 0 {
        0
    } else {
        number(bytes.drop_last()) * 256 + bytes.last() as nat
    }
}

/// Bytes give back the number that they were written from.
pub proof fn big_endian_reads_back(value: nat, length: nat)
    requires
        value < bound(length),
    ensures
        number(big_endian(value, length)) == value,
    decreases length,
{
    if length > 0 {
        assert(value / 256 < bound((length - 1) as nat));
        big_endian_reads_back(value / 256, (length - 1) as nat);
        let bytes = big_endian(value, length);
        assert(bytes.drop_last() =~= big_endian(value / 256, (length - 1) as nat));
    }
}

/// How many numbers a number of bytes can hold.
pub open spec fn bound(length: nat) -> nat
    decreases length,
{
    if length == 0 {
        1
    } else {
        256 * bound((length - 1) as nat)
    }
}

proof fn lemma_hex_digit(value: nat)
    requires
        value < 16,
    ensures
        hex_value(hex_digit(value)) == Some(value),
{
}

/// Hexadecimal text gives back the bytes that it was written from.
pub proof fn hex_reads_back(bytes: Seq<u8>)
    ensures
        unhex(hex(bytes)) == Some(bytes),
    decreases bytes.len(),
{
    if bytes.len() == 0 {
        assert(hex(bytes) =~= Seq::empty());
        assert(bytes =~= Seq::empty());
    } else {
        hex_reads_back(bytes.drop_last());
        let text = hex(bytes);
        assert(text.take(text.len() - 2) =~= hex(bytes.drop_last()));
        lemma_hex_digit((bytes.last() / 16) as nat);
        lemma_hex_digit((bytes.last() % 16) as nat);
        assert((bytes.last() / 16) as nat * 16 + (bytes.last() % 16) as nat == bytes.last() as nat);
        assert(bytes.drop_last().push(bytes.last()) =~= bytes);
    }
}

// ---- identities of statistics ----

pub const STATISTICS_MODEL_FORMAT: u32 = 1;

pub const STATISTICS_SYNOPSIS_FORMAT: u32 = 5;

pub const STATISTICS_FREQUENCY_FORMAT: u32 = 1;

/// Records in a row, each after its length.
pub open spec fn framed(records: Seq<Seq<u8>>) -> Seq<u8>
    decreases records.len(),
{
    if records.len() == 0 {
        Seq::empty()
    } else {
        framed(records.drop_last()) + (big_endian(records.last().len(), 8) + records.last())
    }
}

/// What is digested of a snapshot: what it is, the formats, and its records.
pub open spec fn snapshot_bytes(kind: Seq<char>, records: Seq<Seq<u8>>) -> Seq<u8> {
    encode_utf8(kind) + big_endian(STATISTICS_MODEL_FORMAT as nat, 4) + big_endian(
        STATISTICS_SYNOPSIS_FORMAT as nat,
        4,
    ) + big_endian(STATISTICS_FREQUENCY_FORMAT as nat, 4) + framed(records)
}

/// The identity of a snapshot: the first half of the digest, in hexadecimal.
pub open spec fn snapshot_identity(kind: Seq<char>, records: Seq<Seq<u8>>) -> Seq<char> {
    hex(sha256(snapshot_bytes(kind, records)).take(16))
}

pub open spec fn byte_views(records: Seq<Vec<u8>>) -> Seq<Seq<u8>> {
    Seq::new(records.len(), |i: int| records[i]@)
}

fn push_record(target: &mut Vec<u8>, record: &Vec<u8>)
    ensures
        final(target)@ == old(target)@ + (big_endian(record@.len(), 8) + record@),
{
    let ghost before = target@;
    push_big_endian(target, record.len() as u128, 8);
    push_bytes(target, record.as_slice());
    assert(target@ =~= before + (big_endian(record@.len(), 8) + record@));
}

/// The identity of a snapshot of encoded records.
pub fn statistics_identity(kind: &str, records: &Vec<Vec<u8>>) -> (identity: String)
    ensures
        identity@ == snapshot_identity(kind@, byte_views(records@)),
{
    let ghost all = byte_views(records@);
    let mut bytes: Vec<u8> = Vec::new();
    push_bytes(&mut bytes, kind.as_bytes());
    push_big_endian(&mut bytes, STATISTICS_MODEL_FORMAT as u128, 4);
    push_big_endian(&mut bytes, STATISTICS_SYNOPSIS_FORMAT as u128, 4);
    push_big_endian(&mut bytes, STATISTICS_FREQUENCY_FORMAT as u128, 4);
    let ghost head = bytes@;
    proof {
        assert(head =~= encode_utf8(kind@) + big_endian(STATISTICS_MODEL_FORMAT as nat, 4)
            + big_endian(STATISTICS_SYNOPSIS_FORMAT as nat, 4) + big_endian(
            STATISTICS_FREQUENCY_FORMAT as nat,
            4,
        ));
        assert(all.take(0) =~= Seq::empty());
        assert(head =~= head + framed(all.take(0)));
    }
    let mut i: usize = 0;
    while i < records.len()
        invariant
            i <= records.len(),
            all == byte_views(records@),
            bytes@ == head + framed(all.take(i as int)),
        decreases records.len() - i,
    {
        proof {
            assert(all.take(i + 1).drop_last() =~= all.take(i as int));
            assert(all.take(i + 1).last() == records@[i as int]@);
        }
        let ghost before = framed(all.take(i as int));
        push_record(&mut bytes, &records[i]);
        assert(head + before + (big_endian(records@[i as int]@.len(), 8) + records@[i as int]@)
            =~= head + framed(all.take(i + 1)));
        i += 1;
    }
    assert(all.take(i as int) =~= all);
    assert(bytes@ == snapshot_bytes(kind@, all));
    let digest = sha256_of(bytes.as_slice());
    hex_text(digest.as_slice(), 16)
}

/// The digest of bytes, in hexadecimal.
pub fn digest_text(bytes: &Vec<u8>) -> (text: String)
    ensures
        text@ == hex(sha256(bytes@)),
{
    let digest = sha256_of(bytes.as_slice());
    assert(digest@.take(32) =~= digest@);
    hex_text(digest.as_slice(), 32)
}

proof fn lemma_framed_start(records: Seq<Seq<u8>>)
    requires
        records.len() > 0,
    ensures
        framed(records) == big_endian(records.first().len(), 8) + records.first() + framed(
            records.skip(1),
        ),
    decreases records.len(),
{
    if records.len() == 1 {
        assert(records.drop_last() =~= Seq::empty());
        assert(records.skip(1) =~= Seq::empty());
        assert(framed(records) =~= big_endian(records.first().len(), 8) + records.first() + framed(
            records.skip(1),
        ));
    } else {
        lemma_framed_start(records.drop_last());
        assert(records.drop_last().skip(1) =~= records.skip(1).drop_last());
        assert(records.skip(1).last() == records.last());
        assert(records.drop_last().first() == records.first());
        assert(framed(records) =~= big_endian(records.first().len(), 8) + records.first() + framed(
            records.skip(1),
        ));
    }
}

proof fn lemma_first_record(left: Seq<Seq<u8>>, right: Seq<Seq<u8>>)
    requires
        left.len() > 0,
        right.len() > 0,
        left.first().len() < bound(8),
        right.first().len() < bound(8),
        framed(left) == framed(right),
    ensures
        left.first() == right.first(),
        framed(left.skip(1)) == framed(right.skip(1)),
{
    lemma_framed_start(left);
    lemma_framed_start(right);
    let bytes = framed(left);
    lemma_big_endian_length(left.first().len(), 8);
    lemma_big_endian_length(right.first().len(), 8);
    assert(bytes.take(8) =~= big_endian(left.first().len(), 8));
    assert(bytes.take(8) =~= big_endian(right.first().len(), 8));
    big_endian_reads_back(left.first().len(), 8);
    big_endian_reads_back(right.first().len(), 8);
    let length = left.first().len() as int;
    assert(bytes.subrange(8, 8 + length) =~= left.first());
    assert(bytes.subrange(8, 8 + length) =~= right.first());
    assert(bytes.skip(8 + length) =~= framed(left.skip(1)));
    assert(bytes.skip(8 + length) =~= framed(right.skip(1)));
}

/// Framing tells records apart: different records are framed differently, so
/// no two contents are digested as the same bytes.
pub proof fn framing_tells_records_apart(left: Seq<Seq<u8>>, right: Seq<Seq<u8>>)
    requires
        framed(left) == framed(right),
        forall|i: int| 0 <= i < left.len() ==> (#[trigger] left[i]).len() < bound(8),
        forall|i: int| 0 <= i < right.len() ==> (#[trigger] right[i]).len() < bound(8),
    ensures
        left == right,
    decreases left.len(),
{
    if left.len() == 0 {
        if right.len() > 0 {
            lemma_framed_start(right);
            lemma_big_endian_length(right.first().len(), 8);
            assert(framed(right).len() > 0);
        }
        assert(left =~= right);
    } else if right.len() == 0 {
        lemma_framed_start(left);
        lemma_big_endian_length(left.first().len(), 8);
        assert(framed(left).len() > 0);
    } else {
        lemma_first_record(left, right);
        let (a, b) = (left.skip(1), right.skip(1));
        assert forall|i: int| 0 <= i < a.len() implies (#[trigger] a[i]).len() < bound(8) by {
            assert(left[i + 1].len() < bound(8));
        }
        assert forall|i: int| 0 <= i < b.len() implies (#[trigger] b[i]).len() < bound(8) by {
            assert(right[i + 1].len() < bound(8));
        }
        framing_tells_records_apart(a, b);
        assert(left =~= seq![left.first()] + a);
        assert(right =~= seq![right.first()] + b);
    }
}

} // verus!
