//! The NPY container (version 1.0) for a two-dimensional array of binary32
//! numbers.
use crate::text::{decimal, to_decimal};
use vstd::prelude::*;

verus! {

/// The bytes before the length of the header: `\x93NUMPY`, then the version.
pub open spec fn magic() -> Seq<u8> {
    seq![0x93u8, 0x4Eu8, 0x55u8, 0x4Du8, 0x50u8, 0x59u8, 1u8, 0u8]
}

/// Characters as bytes.
pub open spec fn ascii(text: Seq<char>) -> Seq<u8> {
    text.map_values(|c: char| (c as u32) as u8)
}

/// What the header says of an array of `h` rows and `w` columns.
pub open spec fn description(h: nat, w: nat) -> Seq<char> {
    "{'descr': '<f4', 'fortran_order': False, 'shape': ("@ + decimal(h) + ", "@ + decimal(w) + "), }"@
}

/// How many blanks bring a header to the alignment.
pub open spec fn padding(len: nat) -> nat {
    ((64 - (10 + len + 1) % 64) % 64) as nat
}

/// The header: the description, blanks, and a line feed.
pub open spec fn header(h: nat, w: nat) -> Seq<char> {
    let text = description(h, w);
    text + Seq::new(padding(text.len()), |i: int| ' ') + "\n"@
}

/// A number in two bytes, low byte first.
pub open spec fn le16(n: nat) -> Seq<u8> {
    seq![(n % 256) as u8, (n / 256) as u8]
}

/// A number in four bytes, low byte first.
pub open spec fn le32(n: u32) -> Seq<u8> {
    seq![
        (n % 256) as u8,
        (n / 256 % 256) as u8,
        (n / 65536 % 256) as u8,
        (n / 16777216) as u8,
    ]
}

/// Numbers in four bytes each.
pub open spec fn le32_all(data: Seq<u32>) -> Seq<u8>
    decreases data.len(),
{
    if data.len() == 0 {
        Seq::empty()
    } else {
        le32_all(data.drop_last()) + le32(data.last())
    }
}

/// The file for an array of `h` rows and `w` columns, row by row.
pub open spec fn npy_file(h: nat, w: nat, data: Seq<u32>) -> Seq<u8> {
    magic() + le16(header(h, w).len()) + ascii(header(h, w)) + le32_all(data)
}

/// The data of the file begins at a multiple of 64 bytes, right behind a line
/// feed.
pub proof fn lemma_data_is_aligned(h: nat, w: nat)
    ensures
        (10 + header(h, w).len()) % 64 == 0,
        header(h, w).last() == '\n',
{
    reveal_strlit("\n");
    let len = description(h, w).len();
    assert(header(h, w).len() == len + padding(len) + 1);
}

/// The length of the header and every number can be read back.
pub proof fn lemma_bytes_can_be_read_back(n: nat, v: u32)
    requires
        n < 65536,
    ensures
        le16(n)[0] + 256 * le16(n)[1] == n,
        le32(v)[0] + 256 * le32(v)[1] + 65536 * le32(v)[2] + 16777216 * le32(v)[3] == v,
{
}

spec fn power_of_ten(k: nat) -> nat
    decreases k,
{
    if k == 0 {
        1
    } else {
        10 * power_of_ten((k - 1) as nat)
    }
}

proof fn lemma_decimal_len(n: nat, k: nat)
    requires
        k > 0,
        n < power_of_ten(k),
    ensures
        decimal(n).len() <= k,
    decreases k,
{
    if n >= 10 {
        if k == 1 {
            reveal_with_fuel(power_of_ten, 2);
        }
        lemma_decimal_len(n / 10, (k - 1) as nat);
    }
}

proof fn lemma_header_len(h: usize, w: usize)
    ensures
        header(h as nat, w as nat).len() < 65536,
{
    reveal_with_fuel(power_of_ten, 22);
    lemma_decimal_len(h as nat, 20);
    lemma_decimal_len(w as nat, 20);
    reveal_strlit("{'descr': '<f4', 'fortran_order': False, 'shape': (");
    reveal_strlit(", ");
    reveal_strlit("), }");
    reveal_strlit("\n");
}

fn push_text(bytes: &mut Vec<u8>, text: &str)
    ensures
        final(bytes)@ == old(bytes)@ + ascii(text@),
{
    let n: usize = text.unicode_len();
    let ghost before = bytes@;
    assert(before + ascii(text@).take(0) =~= before);
    for i in 0..n
        invariant
            n == text@.len(),
            bytes@ == before + ascii(text@).take(i as int),
    {
        let c: char = text.get_char(i);
        bytes.push((c as u32) as u8);
        assert(bytes@ =~= before + ascii(text@).take(i + 1));
    }
    assert(ascii(text@).take(n as int) =~= ascii(text@));
}

/// Writes an array of `h` rows and `w` columns of binary32 numbers, row by
/// row.
pub fn ssim_map_file(h: usize, w: usize, data: &Vec<u32>) -> (bytes: Vec<u8>)
    ensures
        bytes@ == npy_file(h as nat, w as nat, data@),
{
    let mut text = String::from_str("{'descr': '<f4', 'fortran_order': False, 'shape': (");
    text.append(to_decimal(h as u128).as_str());
    text.append(", ");
    text.append(to_decimal(w as u128).as_str());
    text.append("), }");
    assert(text@ =~= description(h as nat, w as nat));
    proof {
        lemma_header_len(h, w);
    }
    let ghost described = text@;
    let len: usize = text.as_str().unicode_len();
    let blanks: usize = (64 - (10 + len + 1) % 64) % 64;
    assert(described + Seq::new(0, |k: int| ' ') =~= described);
    for i in 0..blanks
        invariant
            text@ == described + Seq::new(i as nat, |k: int| ' '),
    {
        text.append(" ");
        proof {
            reveal_strlit(" ");
        }
        assert(text@ =~= described + Seq::new((i + 1) as nat, |k: int| ' '));
    }
    text.append("\n");
    assert(text@ =~= header(h as nat, w as nat));
    let header_len: usize = text.as_str().unicode_len();
    let mut bytes: Vec<u8> = Vec::new();
    bytes.push(0x93);
    bytes.push(0x4E);
    bytes.push(0x55);
    bytes.push(0x4D);
    bytes.push(0x50);
    bytes.push(0x59);
    bytes.push(1);
    bytes.push(0);
    bytes.push((header_len % 256) as u8);
    bytes.push((header_len / 256) as u8);
    assert(bytes@ =~= magic() + le16(header(h as nat, w as nat).len()));
    push_text(&mut bytes, text.as_str());
    let ghost front = bytes@;
    let n: usize = data.len();
    assert(front + le32_all(data@.take(0)) =~= front);
    for i in 0..n
        invariant
            n == data@.len(),
            bytes@ == front + le32_all(data@.take(i as int)),
    {
        let v: u32 = data[i];
        bytes.push((v % 256) as u8);
        bytes.push((v / 256 % 256) as u8);
        bytes.push((v / 65536 % 256) as u8);
        bytes.push((v / 16777216) as u8);
        proof {
            assert(data@.take(i + 1).drop_last() =~= data@.take(i as int));
            assert(bytes@ =~= front + le32_all(data@.take(i + 1)));
        }
    }
    assert(data@.take(n as int) =~= data@);
    bytes
}

/// A file begins with the magic bytes and the version, then says how long its
/// header is. Behind the header stands each number in four bytes, low byte
/// first, in order, and nothing follows.
pub proof fn lemma_file_can_be_read_back(h: usize, w: usize, data: Seq<u32>, i: int)
    requires
        0 <= i < data.len(),
    ensures
        ({
            let bytes = npy_file(h as nat, w as nat, data);
            let len = header(h as nat, w as nat).len();
            let at = 10 + len + 4 * i;
            &&& bytes.len() == 10 + len + 4 * data.len()
            &&& bytes[0] == 0x93 && bytes[1] == 'N' as u8 && bytes[2] == 'U' as u8 && bytes[3] == 'M' as u8
            &&& bytes[4] == 'P' as u8 && bytes[5] == 'Y' as u8 && bytes[6] == 1 && bytes[7] == 0
            &&& bytes[8] + 256 * bytes[9] == len
            &&& bytes[at] + 256 * bytes[at + 1] + 65536 * bytes[at + 2] + 16777216 * bytes[at + 3] == data[i]
            &&& forall|k: int|
                0 <= k < len && header(h as nat, w as nat)[k] as u32 <= 127 ==> #[trigger] bytes[10 + k] == header(
                    h as nat,
                    w as nat,
                )[k] as u32
        }),
{
    let bytes = npy_file(h as nat, w as nat, data);
    let text = header(h as nat, w as nat);
    let len = text.len();
    lemma_header_len(h, w);
    lemma_number_bytes(data, i);
    let front = magic() + le16(len);
    assert(front.len() == 10);
    assert(bytes =~= front + ascii(text) + le32_all(data));
    let at = 10 + len + 4 * i;
    assert(bytes[at] == le32_all(data)[4 * i]);
    assert(bytes[at + 1] == le32_all(data)[4 * i + 1]);
    assert(bytes[at + 2] == le32_all(data)[4 * i + 2]);
    assert(bytes[at + 3] == le32_all(data)[4 * i + 3]);
    lemma_bytes_can_be_read_back(len, data[i]);
    assert(bytes[8] == le16(len)[0]);
    assert(bytes[9] == le16(len)[1]);
    assert('N' as u8 == 0x4E && 'U' as u8 == 0x55 && 'M' as u8 == 0x4D && 'P' as u8 == 0x50 && 'Y' as u8 == 0x59);
    assert forall|k: int| 0 <= k < len && text[k] as u32 <= 127 implies #[trigger] bytes[10 + k] == text[k] as u32 by {
        assert(bytes[10 + k] == ascii(text)[k]);
    }
}

proof fn lemma_number_bytes(data: Seq<u32>, i: int)
    requires
        0 <= i < data.len(),
    ensures
        le32_all(data).len() == 4 * data.len(),
        le32_all(data)[4 * i] == le32(data[i])[0],
        le32_all(data)[4 * i + 1] == le32(data[i])[1],
        le32_all(data)[4 * i + 2] == le32(data[i])[2],
        le32_all(data)[4 * i + 3] == le32(data[i])[3],
    decreases data.len(),
{
    let front = data.drop_last();
    if i < front.len() {
        lemma_number_bytes(front, i);
    } else if front.len() > 0 {
        lemma_number_bytes(front, 0);
    } else {
        assert(le32_all(front).len() == 0);
    }
}

/// The header describes an array of little-endian binary32 numbers, row by row,
/// with its rows first and then its columns.
pub proof fn lemma_header_describes_the_array(h: nat, w: nat)
    ensures
        ({
            let text = "{'descr': '<f4', 'fortran_order': False, 'shape': ("@ + decimal(h) + ", "@ + decimal(w) + "), }"@;
            &&& header(h, w).take(text.len() as int) == text
            &&& forall|k: int| text.len() <= k < header(h, w).len() - 1 ==> #[trigger] header(h, w)[k] == ' '
            &&& header(h, w).last() == '\n'
            &&& header(h, w).len() <= text.len() + 64
        }),
{
    reveal_strlit("\n");
    let text = description(h, w);
    assert(header(h, w).take(text.len() as int) =~= text);
}

} // verus!
