//! The encodings of the Windows tools' files and outputs: UTF-16 with a
//! byte order mark, Windows-1252, and code page 437.
use vstd::prelude::*;

use codepage_437::BorrowFromCp437;

use crate::secedit::trim_start_char;
use crate::text::{chars_of, replace_all, replace_str, rview, string_of};

verus! {

// ------------------------------------------------------------------
// UTF-16
// ------------------------------------------------------------------

/// The code units of little-endian UTF-16 bytes, two bytes each; an odd
/// last byte is dropped.
pub open spec fn le_units(b: Seq<u8>) -> Seq<u16> {
    Seq::new(b.len() / 2, |i: int| (b[2 * i] + 256 * b[2 * i + 1]) as u16)
}

/// What `widestring` makes of UTF-16 code units: the text, or the message
/// of its error for an unpaired surrogate.
pub uninterp spec fn utf16_decoded(units: Seq<u16>) -> Result<Seq<char>, Seq<char>>;

/// Decodes UTF-16 with `widestring::Utf16String::from_vec`; what it gives
/// is named, not described.
#[verifier::external_body]
fn decode_utf16(units: Vec<u16>) -> (r: Result<String, String>)
    ensures
        rview(r) == utf16_decoded(units@),
{
    match widestring::Utf16String::from_vec(units) {
        Ok(s) => Ok(s.to_string()),
        Err(e) => Err(e.to_string()),
    }
}

fn le_units_exec(bytes: &[u8]) -> (r: Vec<u16>)
    ensures
        r@ == le_units(bytes@),
{
    let mut r: Vec<u16> = Vec::new();
    let len = bytes.len();
    let n = len / 2;
    assert(2 * n <= len);
    let mut i: usize = 0;
    while i < n
        invariant
            i <= n,
            len == bytes@.len(),
            n == bytes@.len() / 2,
            2 * n <= len,
            r@.len() == i,
            forall|j: int| 0 <= j < i ==> r@[j] == le_units(bytes@)[j],
        decreases n - i,
    {
        let lo = bytes[i + i] as u16;
        let hi = bytes[i + i + 1] as u16;
        r.push(lo + 256 * hi);
        i = i + 1;
    }
    assert(r@ =~= le_units(bytes@));
    r
}

/// The text of a UTF-16 file (`read_file_as_utf16_utf8`, once read): its
/// byte order marks at the start dropped and its `\r\n` made `\n`.
pub open spec fn utf16_text(bytes: Seq<u8>) -> Result<Seq<char>, Seq<char>> {
    match utf16_decoded(le_units(bytes)) {
        Ok(t) => Ok(replace_all(trim_start_char(t, '\u{FEFF}'), "\r\n"@, "\n"@)),
        Err(e) => Err(e),
    }
}

/// The text of the bytes of a UTF-16 file.
pub fn read_utf16_text(bytes: &[u8]) -> (r: Result<String, String>)
    ensures
        rview(r) == utf16_text(bytes@),
{
    let units = le_units_exec(bytes);
    let text = decode_utf16(units)?;
    let cs = chars_of(text.as_str());
    let n = cs.len();
    let mut i: usize = 0;
    assert(cs@.skip(0) =~= cs@);
    while i < n && cs[i] == '\u{FEFF}'
        invariant
            i <= n,
            n == cs@.len(),
            trim_start_char(cs@, '\u{FEFF}') == trim_start_char(cs@.skip(i as int), '\u{FEFF}'),
        decreases n - i,
    {
        assert(cs@.skip(i as int).drop_first() =~= cs@.skip(i + 1));
        i = i + 1;
    }
    assert(trim_start_char(cs@, '\u{FEFF}') == cs@.skip(i as int)) by {
        if i == n {
            assert(cs@.skip(i as int) =~= Seq::<char>::empty());
        }
    }
    let rest = crate::text::slice_vec(cs.as_slice(), i, n);
    assert(rest@ =~= cs@.skip(i as int));
    let body = string_of(rest.as_slice());
    proof {
        reveal_strlit("\r\n");
    }
    assert("\r\n"@.len() == 2);
    Ok(replace_str(body.as_str(), "\r\n", "\n"))
}

/// The UTF-16 code units of a character.
pub open spec fn char_units(c: char) -> Seq<u16> {
    let u = c as u32;
    if u < 0x10000 {
        seq![u as u16]
    } else {
        seq![(0xD800 + (u - 0x10000) / 0x400) as u16, (0xDC00 + (u - 0x10000) % 0x400) as u16]
    }
}

/// The UTF-16 code units of a text (`str::encode_utf16`).
pub open spec fn utf16_units(s: Seq<char>) -> Seq<u16>
    decreases s.len(),
{
    if s.len() == 0 {
        seq![]
    } else {
        utf16_units(s.drop_last()) + char_units(s.last())
    }
}

/// The bytes of a UTF-16 file (`write_to_utf16`): a byte order mark, then
/// each code unit, least significant byte first.
pub open spec fn utf16_file(s: Seq<char>) -> Seq<u8> {
    let units = utf16_units(s);
    seq![0xFFu8, 0xFEu8] + Seq::new(2 * units.len(), |i: int| unit_byte(units, i))
}

/// Byte `k` of code units written least significant byte first.
pub open spec fn unit_byte(units: Seq<u16>, k: int) -> u8 {
    if k % 2 == 0 {
        (units[k / 2] % 256) as u8
    } else {
        (units[k / 2] / 256) as u8
    }
}

fn push_unit(out: &mut Vec<u8>, u: u16)
    ensures
        final(out)@ == old(out)@ + seq![(u % 256) as u8, (u / 256) as u8],
{
    out.push((u % 256) as u8);
    out.push((u / 256) as u8);
    assert(final(out)@ =~= old(out)@ + seq![(u % 256) as u8, (u / 256) as u8]);
}

/// The bytes of a UTF-16 file for a text.
pub fn utf16_file_bytes(input: &str) -> (r: Vec<u8>)
    ensures
        r@ == utf16_file(input@),
{
    let cs = chars_of(input);
    let mut out: Vec<u8> = Vec::new();
    out.push(0xFF);
    out.push(0xFE);
    let ghost head = seq![0xFFu8, 0xFEu8];
    let mut i: usize = 0;
    assert(cs@.take(0) =~= Seq::<char>::empty());
    assert(out@ =~= head);
    while i < cs.len()
        invariant
            i <= cs@.len(),
            cs@ == input@,
            head == seq![0xFFu8, 0xFEu8],
            out@.len() == 2 + 2 * utf16_units(cs@.take(i as int)).len(),
            forall|k: int|
                0 <= k < 2 * utf16_units(cs@.take(i as int)).len() ==> out@[2 + k] == #[trigger] unit_byte(
                    utf16_units(cs@.take(i as int)),
                    k,
                ),
            out@[0] == 0xFFu8,
            out@[1] == 0xFEu8,
        decreases cs@.len() - i,
    {
        let ghost before = utf16_units(cs@.take(i as int));
        let ghost t = cs@.take(i + 1);
        assert(t.drop_last() =~= cs@.take(i as int));
        assert(t.last() == cs@[i as int]);
        let c = cs[i];
        let u = c as u32;
        let ghost old_out = out@;
        let ghost b = before.len();
        if u < 0x10000 {
            push_unit(&mut out, u as u16);
            assert(char_units(c) == seq![u as u16]);
            assert(out@ =~= old_out + Seq::new(2, |j: int| unit_byte(seq![u as u16], j)));
        } else {
            let v = u - 0x10000;
            let hi = (0xD800 + v / 0x400) as u16;
            let lo = (0xDC00 + v % 0x400) as u16;
            push_unit(&mut out, hi);
            push_unit(&mut out, lo);
            assert(char_units(c) == seq![hi, lo]);
            assert(out@ =~= old_out + Seq::new(4, |j: int| unit_byte(seq![hi, lo], j)));
        }
        let ghost cu = char_units(c);
        let ghost after = utf16_units(t);
        assert(after == before + cu);
        assert(out@ == old_out + Seq::new(2 * cu.len(), |j: int| unit_byte(cu, j)));
        assert forall|k: int| 0 <= k < 2 * after.len() implies out@[2 + k] == #[trigger] unit_byte(after, k) by {
            if k < 2 * b {
                assert(after[k / 2] == before[k / 2]);
                assert(out@[2 + k] == old_out[2 + k]);
                assert(old_out[2 + k] == unit_byte(before, k));
            } else {
                let m = k - 2 * b;
                assert(k / 2 == b + m / 2);
                assert(k % 2 == m % 2);
                assert(after[k / 2] == cu[m / 2]);
                assert(out@[2 + k] == unit_byte(cu, m));
            }
        }
        i = i + 1;
    }
    assert(cs@.take(cs@.len() as int) =~= cs@);
    assert(out@ =~= utf16_file(input@));
    out
}

// ------------------------------------------------------------------
// Windows-1252 and code page 437
// ------------------------------------------------------------------

/// What `encoding_rs` decodes from Windows-1252 bytes.
pub uninterp spec fn windows1252_decoded(bytes: Seq<u8>) -> Seq<char>;

/// What `encoding_rs` encodes a text as in Windows-1252.
pub uninterp spec fn windows1252_encoded(text: Seq<char>) -> Seq<u8>;

/// What `codepage_437` decodes from code page 437 bytes, its control
/// characters read as such.
pub uninterp spec fn cp437_decoded(bytes: Seq<u8>) -> Seq<char>;

/// Decodes Windows-1252 bytes with `encoding_rs::WINDOWS_1252.decode`;
/// the text is named, not described.
#[verifier::external_body]
pub fn decode_windows1252(bytes: &[u8]) -> (r: String)
    ensures
        r@ == windows1252_decoded(bytes@),
{
    encoding_rs::WINDOWS_1252.decode(bytes).0.into_owned()
}

/// Encodes a text in Windows-1252 with `encoding_rs::WINDOWS_1252.encode`;
/// the bytes are named, not described.
#[verifier::external_body]
fn encode_windows1252(text: &str) -> (r: Vec<u8>)
    ensures
        r@ == windows1252_encoded(text@),
{
    encoding_rs::WINDOWS_1252.encode(text).0.into_owned()
}

/// Decodes code page 437 bytes with `codepage_437`'s `borrow_from_cp437`
/// and its control dialect; the text is named, not described.
#[verifier::external_body]
pub fn decode_cp437(bytes: &[u8]) -> (r: String)
    ensures
        r@ == cp437_decoded(bytes@),
{
    String::borrow_from_cp437(bytes, &codepage_437::CP437_CONTROL)
}

/// The bytes of a Windows-1252 file (`write_to_windows1252`): its lines
/// end in `\r\n`.
pub open spec fn windows1252_file(text: Seq<char>) -> Seq<u8> {
    windows1252_encoded(replace_all(text, "\n"@, "\r\n"@))
}

/// The bytes of a Windows-1252 file for a text.
pub fn windows1252_file_bytes(text: &str) -> (r: Vec<u8>)
    ensures
        r@ == windows1252_file(text@),
{
    proof {
        reveal_strlit("\n");
    }
    assert("\n"@.len() == 1);
    let crlf = replace_str(text, "\n", "\r\n");
    encode_windows1252(crlf.as_str())
}

} // verus!
