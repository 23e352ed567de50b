//! Content digests: the fingerprint of the bytes of a file, and of exactly
//! the lines that an item spans. Nothing else decides whether something has
//! changed.

use vstd::prelude::*;
use vstd::utf8::encode_utf8;
use crate::text::{digit, from_chars, join, join_exec, lines, lines_exec, slice_chars, to_chars, views};

verus! {

/// The BLAKE3 digest of `input` in its default output length, 32 bytes: what
/// `blake3::hash` returns for `input`.
pub uninterp spec fn blake3_digest(input: Seq<u8>) -> Seq<u8>;

/// `blake3::hash`, taken on trust: the digest depends on the bytes of the
/// input alone. It is handed back as the 32 bytes that the crate's `Hash`
/// holds.
#[verifier::external_body]
fn blake3_hash(input: &[u8]) -> (r: [u8; 32])
    ensures
        r@ == blake3_digest(input@),
{
    blake3::hash(input).into()
}

/// The lower-case hexadecimal digit for `n`.
pub open spec fn hex_digit(n: nat) -> char {
    if n < 10 {
        digit(n)
    } else if n == 10 {
        'a'
    } else if n == 11 {
        'b'
    } else if n == 12 {
        'c'
    } else if n == 13 {
        'd'
    } else if n == 14 {
        'e'
    } else {
        'f'
    }
}

/// The bytes in lower-case hexadecimal, two digits a byte, the high one first.
pub open spec fn hex(bytes: Seq<u8>) -> Seq<char>
    decreases bytes.len(),
{
    if bytes.len() == 0 {
        Seq::empty()
    } else {
        hex(bytes.drop_last()).push(hex_digit((bytes.last() / 16) as nat)).push(
            hex_digit((bytes.last() % 16) as nat),
        )
    }
}

/// The text has two digits for each byte.
pub proof fn lemma_hex_len(bytes: Seq<u8>)
    ensures
        hex(bytes).len() == 2 * bytes.len(),
    decreases bytes.len(),
{
    if bytes.len() > 0 {
        lemma_hex_len(bytes.drop_last());
    }
}

/// Two texts of digits that are the same stand for the same bytes: writing
/// a digest in hexadecimal loses nothing of it.
pub proof fn lemma_hex_injective(a: Seq<u8>, b: Seq<u8>)
    requires
        hex(a) == hex(b),
    ensures
        a == b,
    decreases a.len(),
{
    lemma_hex_len(a);
    lemma_hex_len(b);
    if a.len() == 0 {
        assert(a =~= b);
    } else {
        let x = a.last();
        let y = b.last();
        let ha = hex(a.drop_last());
        let hb = hex(b.drop_last());
        lemma_hex_len(a.drop_last());
        lemma_hex_len(b.drop_last());
        assert(hex(a)[hex(a).len() - 1] == hex_digit((x % 16) as nat));
        assert(hex(b)[hex(b).len() - 1] == hex_digit((y % 16) as nat));
        assert(hex(a)[hex(a).len() - 2] == hex_digit((x / 16) as nat));
        assert(hex(b)[hex(b).len() - 2] == hex_digit((y / 16) as nat));
        assert(x % 16 == y % 16 && x / 16 == y / 16);
        assert(x == y);
        assert(ha =~= hex(a).take(hex(a).len() - 2));
        assert(hb =~= hex(b).take(hex(b).len() - 2));
        lemma_hex_injective(a.drop_last(), b.drop_last());
        assert(a =~= a.drop_last().push(x));
        assert(b =~= b.drop_last().push(y));
    }
}

/// The lower-case hexadecimal digit for `n`.
fn hex_digit_exec(n: u8) -> (c: char)
    requires
        n < 16,
    ensures
        c == hex_digit(n as nat),
{
    if n == 0 {
        '0'
    } else if n == 1 {
        '1'
    } else if n == 2 {
        '2'
    } else if n == 3 {
        '3'
    } else if n == 4 {
        '4'
    } else if n == 5 {
        '5'
    } else if n == 6 {
        '6'
    } else if n == 7 {
        '7'
    } else if n == 8 {
        '8'
    } else if n == 9 {
        '9'
    } else if n == 10 {
        'a'
    } else if n == 11 {
        'b'
    } else if n == 12 {
        'c'
    } else if n == 13 {
        'd'
    } else if n == 14 {
        'e'
    } else {
        'f'
    }
}

/// Writes bytes in lower-case hexadecimal.
pub fn to_hex(bytes: &[u8]) -> (r: String)
    ensures
        r@ == hex(bytes@),
        r@.len() == 2 * bytes@.len(),
{
    let mut r = String::new();
    let mut i: usize = 0;
    assert(bytes@.take(0) =~= Seq::<u8>::empty());
    while i < bytes.len()
        invariant
            i <= bytes.len(),
            r@ == hex(bytes@.take(i as int)),
        decreases bytes.len() - i,
    {
        assert(bytes@.take(i + 1).drop_last() =~= bytes@.take(i as int));
        let b = bytes[i];
        r.push(hex_digit_exec(b / 16));
        r.push(hex_digit_exec(b % 16));
        i += 1;
    }
    assert(bytes@.take(bytes.len() as int) =~= bytes@);
    proof {
        lemma_hex_len(bytes@);
    }
    r
}

/// The digest of a text: the BLAKE3 digest of its UTF-8 bytes, in lower-case
/// hexadecimal.
pub open spec fn digest_text(text: Seq<char>) -> Seq<char> {
    hex(blake3_digest(encode_utf8(text)))
}

/// Hashes the entire contents of a file. The digest has 64 characters.
pub fn hash_file_contents(contents: &str) -> (r: String)
    ensures
        r@ == digest_text(contents@),
        r@.len() == 64,
{
    let d = blake3_hash(contents.as_bytes());
    to_hex(d.as_slice())
}

/// The index of the first line of a range that starts at line `line_start`,
/// counted from 1: line 0 is taken for line 1.
pub open spec fn first_index(line_start: nat) -> nat {
    if line_start == 0 {
        0
    } else {
        (line_start - 1) as nat
    }
}

/// The index after the last line of a range that ends with line `line_end`
/// of a text of `count` lines.
pub open spec fn end_index(line_end: nat, count: nat) -> nat {
    if line_end < count {
        line_end
    } else {
        count
    }
}

/// Whether the text `source` has the lines from `line_start` to `line_end`,
/// counted from 1, to take: the range does not start behind its own end, nor
/// more than one line behind the end of the text.
pub open spec fn range_in_source(source: Seq<char>, line_start: nat, line_end: nat) -> bool {
    first_index(line_start) <= end_index(line_end, lines(source).len())
}

/// The lines from `line_start` to `line_end` of `source`, counted from 1, as
/// far as `source` has them, with a line feed between each two.
pub open spec fn item_text(source: Seq<char>, line_start: nat, line_end: nat) -> Seq<char> {
    join(
        lines(source).subrange(
            first_index(line_start) as int,
            end_index(line_end, lines(source).len()) as int,
        ),
        "\n"@,
    )
}

/// Whether `source` has the lines from `line_start` to `line_end` to take.
pub fn range_fits(source: &str, line_start: usize, line_end: usize) -> (r: bool)
    ensures
        r == range_in_source(source@, line_start as nat, line_end as nat),
{
    let s = to_chars(source);
    let all = lines_exec(&s);
    let start = if line_start == 0 {
        0
    } else {
        line_start - 1
    };
    let end = if line_end < all.len() {
        line_end
    } else {
        all.len()
    };
    start <= end
}

/// Hashes exactly the lines that an item spans.
pub fn hash_item_source(source: &str, line_start: usize, line_end: usize) -> (r: String)
    requires
        range_in_source(source@, line_start as nat, line_end as nat),
    ensures
        r@ == digest_text(item_text(source@, line_start as nat, line_end as nat)),
        r@.len() == 64,
{
    let s = to_chars(source);
    let all = lines_exec(&s);
    let start = if line_start == 0 {
        0
    } else {
        line_start - 1
    };
    let end = if line_end < all.len() {
        line_end
    } else {
        all.len()
    };
    let mut part: Vec<Vec<char>> = Vec::new();
    let mut i: usize = start;
    assert(views(part@) =~= lines(source@).subrange(start as int, start as int));
    while i < end
        invariant
            start <= i <= end <= all.len(),
            views(all@) == lines(source@),
            views(part@) == lines(source@).subrange(start as int, i as int),
        decreases end - i,
    {
        let ghost before = views(part@);
        part.push(slice_chars(&all[i], 0, all[i].len()));
        assert(all@[i as int]@.subrange(0, all@[i as int]@.len() as int) =~= all@[i as int]@);
        assert(views(all@)[i as int] == all@[i as int]@);
        assert(views(part@) =~= before.push(lines(source@)[i as int]));
        assert(lines(source@).subrange(start as int, i + 1) =~= lines(source@).subrange(
            start as int,
            i as int,
        ).push(lines(source@)[i as int]));
        i += 1;
    }
    let sep = to_chars("\n");
    let text = from_chars(&join_exec(&part, &sep));
    hash_file_contents(text.as_str())
}

/// The digest of an item follows the text of its lines, whatever else differs
/// between two sources: two line ranges with the same text have the same
/// digest.
pub proof fn lemma_digest_tracks_text(
    source_a: Seq<char>,
    start_a: nat,
    end_a: nat,
    source_b: Seq<char>,
    start_b: nat,
    end_b: nat,
)
    requires
        item_text(source_a, start_a, end_a) == item_text(source_b, start_b, end_b),
    ensures
        digest_text(item_text(source_a, start_a, end_a)) == digest_text(
            item_text(source_b, start_b, end_b),
        ),
{
}

} // verus!
