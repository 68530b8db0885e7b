//! Reads of the game's memory, seen through a reader that the caller supplies.
use crate::sealed::Sealed;
use crate::text::{all_ascii, string_from_chars, utf8_lossy, utf8_lossy_chars};
use vstd::prelude::*;
use vstd::string::*;

verus! {

/// Only primitive types with no invalid bit patterns can be read safely.
pub trait MemoryValue: Sealed + Copy {}

impl Sealed for u8 {}
impl Sealed for u16 {}
impl Sealed for u32 {}
impl Sealed for u64 {}
impl Sealed for i8 {}
impl Sealed for i16 {}
impl Sealed for i32 {}
impl Sealed for i64 {}

impl MemoryValue for u8 {}
impl MemoryValue for u16 {}
impl MemoryValue for u32 {}
impl MemoryValue for u64 {}
impl MemoryValue for i8 {}
impl MemoryValue for i16 {}
impl MemoryValue for i32 {}
impl MemoryValue for i64 {}

/// The size of one read: a byte, a 32-bit or a 64-bit value, little endian.
#[derive(Clone, Copy, Debug, PartialEq, Eq, Structural)]
pub enum Width {
    Byte,
    Dword,
    Qword,
}

/// Address arithmetic of the reader: addition modulo 2^64.
pub open spec fn at(a: u64, off: u64) -> u64 {
    if a + off > u64::MAX {
        (a + off - 0x1_0000_0000_0000_0000int) as u64
    } else {
        (a + off) as u64
    }
}

/// `a + off`, wrapping as addresses do.
pub fn offset(a: u64, off: u64) -> (res: u64)
    ensures
        res == at(a, off),
{
    a.wrapping_add(off)
}

/// A memory image: the value each read of an address and width gives, zero-extended.
pub type Image = spec_fn(u64, Width) -> u64;

/// Every read that `read` can complete gives the image's value: the memory does
/// not change while it is read, and no read fails.
pub open spec fn reads_from<F: Fn(u64, Width) -> Result<u64, String>>(read: F, mem: Image) -> bool {
    forall|a: u64, w: Width, r: Result<u64, String>| #[trigger]
        call_ensures(read, (a, w), r) ==> r == Ok::<u64, String>(mem(a, w))
}

/// The byte that an image holds at an address.
pub open spec fn byte_at(mem: Image, a: u64) -> u8 {
    mem(a, Width::Byte) as u8
}

/// The 32-bit value that an image holds at an address.
pub open spec fn dword_at(mem: Image, a: u64) -> u32 {
    mem(a, Width::Dword) as u32
}

/// The 64-bit value that an image holds at an address.
pub open spec fn qword_at(mem: Image, a: u64) -> u64 {
    mem(a, Width::Qword)
}

/// The error of a read is one that the reader itself returned.
pub open spec fn reader_error<F: Fn(u64, Width) -> Result<u64, String>>(read: F, e: String) -> bool {
    exists|a: u64, w: Width| #[trigger] call_ensures(read, (a, w), Err::<u64, String>(e))
}

/// Whether every read can be asked for.
pub open spec fn reader_ready<F: Fn(u64, Width) -> Result<u64, String>>(read: F) -> bool {
    forall|a: u64, w: Width| #[trigger] call_requires(read, (a, w))
}

/// What each read gives, failures included: a reader whose every read of an
/// address and width answers as `ans` says.
pub open spec fn answers_from<F: Fn(u64, Width) -> Result<u64, String>>(
    read: F,
    ans: spec_fn(u64, Width) -> Result<u64, String>,
) -> bool {
    forall|a: u64, w: Width, r: Result<u64, String>| #[trigger]
        call_ensures(read, (a, w), r) ==> r == ans(a, w)
}

/// A byte read as a reader that answers as `ans` gives it.
pub open spec fn byte_answer(ans: spec_fn(u64, Width) -> Result<u64, String>, a: u64) -> Result<
    u8,
    String,
> {
    match ans(a, Width::Byte) {
        Ok(v) => Ok(v as u8),
        Err(e) => Err(e),
    }
}

/// A 32-bit value read as a reader that answers as `ans` gives it.
pub open spec fn dword_answer(ans: spec_fn(u64, Width) -> Result<u64, String>, a: u64) -> Result<
    u32,
    String,
> {
    match ans(a, Width::Dword) {
        Ok(v) => Ok(v as u32),
        Err(e) => Err(e),
    }
}

/// A 64-bit value read as a reader that answers as `ans` gives it.
pub open spec fn qword_answer(ans: spec_fn(u64, Width) -> Result<u64, String>, a: u64) -> Result<
    u64,
    String,
> {
    ans(a, Width::Qword)
}

/// One read through the reader.
pub fn read_raw<F: Fn(u64, Width) -> Result<u64, String>>(read: &F, a: u64, w: Width) -> (res:
    Result<u64, String>)
    requires
        reader_ready(*read),
    ensures
        call_ensures(*read, (a, w), res),
{
    read(a, w)
}

/// Reads a byte.
pub fn read_u8<F: Fn(u64, Width) -> Result<u64, String>>(read: &F, a: u64) -> (res: Result<
    u8,
    String,
>)
    requires
        reader_ready(*read),
    ensures
        forall|mem: Image| #[trigger]
            reads_from(*read, mem) ==> res == Ok::<u8, String>(byte_at(mem, a)),
        forall|ans: spec_fn(u64, Width) -> Result<u64, String>| #[trigger]
            answers_from(*read, ans) ==> res == byte_answer(ans, a),
        res matches Err(e) ==> reader_error(*read, e),
{
    match read_raw(read, a, Width::Byte) {
        Ok(v) => Ok(v as u8),
        Err(e) => Err(e),
    }
}

/// Reads a 32-bit value.
pub fn read_u32<F: Fn(u64, Width) -> Result<u64, String>>(read: &F, a: u64) -> (res: Result<
    u32,
    String,
>)
    requires
        reader_ready(*read),
    ensures
        forall|mem: Image| #[trigger]
            reads_from(*read, mem) ==> res == Ok::<u32, String>(dword_at(mem, a)),
        forall|ans: spec_fn(u64, Width) -> Result<u64, String>| #[trigger]
            answers_from(*read, ans) ==> res == dword_answer(ans, a),
        res matches Err(e) ==> reader_error(*read, e),
{
    match read_raw(read, a, Width::Dword) {
        Ok(v) => Ok(v as u32),
        Err(e) => Err(e),
    }
}

/// Reads a 64-bit value.
pub fn read_u64<F: Fn(u64, Width) -> Result<u64, String>>(read: &F, a: u64) -> (res: Result<
    u64,
    String,
>)
    requires
        reader_ready(*read),
    ensures
        forall|mem: Image| #[trigger]
            reads_from(*read, mem) ==> res == Ok::<u64, String>(qword_at(mem, a)),
        forall|ans: spec_fn(u64, Width) -> Result<u64, String>| #[trigger]
            answers_from(*read, ans) ==> res == qword_answer(ans, a),
        res matches Err(e) ==> reader_error(*read, e),
{
    read_raw(read, a, Width::Qword)
}


/// The bytes before the first zero byte, or `None` when no byte is zero.
pub open spec fn until_zero(raw: Seq<u8>) -> Option<Seq<u8>>
    decreases raw.len(),
{
    if raw.len() == 0 {
        None
    } else if raw[0] == 0 {
        Some(Seq::empty())
    } else {
        match until_zero(raw.drop_first()) {
            Some(t) => Some(seq![raw[0]] + t),
            None => None,
        }
    }
}

/// The `n` bytes that an image holds from address `a` on.
pub open spec fn bytes_at(mem: Image, a: u64, n: nat) -> Seq<u8> {
    Seq::new(n, |i: int| byte_at(mem, at(a, i as u64)))
}

/// A zero-terminated string of at most `max_len` bytes before its terminator,
/// decoded lossily; an error when no terminator comes within `max_len` bytes.
pub open spec fn string_at(mem: Image, a: u64, max_len: nat) -> Result<Seq<char>, Seq<char>> {
    match until_zero(bytes_at(mem, a, max_len)) {
        Some(b) => Ok(utf8_lossy(b)),
        None => Err("Unterminated name buffer"@),
    }
}

/// The bytes of a zero-terminated string read byte by byte from offset `i` of
/// `a` on, as a reader that answers as `ans` gives them: the first failed read
/// ends it with that read's error; a zero byte ends the string; no byte from
/// offset `max_len` on is read, and reaching it is "Unterminated name buffer".
pub open spec fn scan_string(
    ans: spec_fn(u64, Width) -> Result<u64, String>,
    a: u64,
    max_len: nat,
    i: nat,
) -> Result<Seq<u8>, Seq<char>>
    decreases max_len - i,
{
    if i >= max_len {
        Err("Unterminated name buffer"@)
    } else {
        match byte_answer(ans, at(a, i as u64)) {
            Err(e) => Err(e@),
            Ok(b) => if b == 0 {
                Ok(Seq::empty())
            } else {
                match scan_string(ans, a, max_len, i + 1) {
                    Ok(t) => Ok(seq![b] + t),
                    Err(e) => Err(e),
                }
            },
        }
    }
}

/// Bytes already read in front of the rest of a scan.
pub open spec fn prefixed(b: Seq<u8>, r: Result<Seq<u8>, Seq<char>>) -> Result<Seq<u8>, Seq<char>> {
    match r {
        Ok(t) => Ok(b + t),
        Err(e) => Err(e),
    }
}

/// A zero-terminated string as a reader that answers as `ans` gives it, decoded
/// lossily.
pub open spec fn string_answer(
    ans: spec_fn(u64, Width) -> Result<u64, String>,
    a: u64,
    max_len: nat,
) -> Result<Seq<char>, Seq<char>> {
    match scan_string(ans, a, max_len, 0) {
        Ok(b) => Ok(utf8_lossy(b)),
        Err(e) => Err(e),
    }
}

/// A text result by its characters.
pub open spec fn text_result(r: Result<String, String>) -> Result<Seq<char>, Seq<char>> {
    match r {
        Ok(t) => Ok(t@),
        Err(e) => Err(e@),
    }
}

proof fn lemma_until_zero(raw: Seq<u8>, i: int)
    requires
        0 <= i <= raw.len(),
        forall|k: int| 0 <= k < i ==> #[trigger] raw[k] != 0,
    ensures
        i == raw.len() ==> until_zero(raw) == None::<Seq<u8>>,
        i < raw.len() && raw[i] == 0 ==> until_zero(raw) == Some(raw.subrange(0, i)),
    decreases i,
{
    if i > 0 {
        lemma_until_zero(raw.drop_first(), i - 1);
        assert(seq![raw[0]] + raw.drop_first().subrange(0, i - 1) =~= raw.subrange(0, i));
    } else {
        assert(raw.subrange(0, 0) =~= Seq::<u8>::empty());
    }
}

/// Reads a zero-terminated string of at most `max_len` bytes from `address`.
pub fn read_string<F: Fn(u64, Width) -> Result<u64, String>>(
    read: &F,
    address: u64,
    max_len: usize,
) -> (res: Result<String, String>)
    requires
        reader_ready(*read),
    ensures
        forall|mem: Image| #[trigger]
            reads_from(*read, mem) ==> text_result(res) == string_at(mem, address, max_len as nat),
        res matches Ok(t) ==> exists|b: Seq<u8>|
            b.len() < max_len && !b.contains(0u8) && t@ == #[trigger] utf8_lossy(b) && (all_ascii(b)
                ==> t@ == b.map_values(|c: u8| c as char)) && (vstd::utf8::valid_utf8(b) ==> t@
                == vstd::utf8::decode_utf8(b)),
        res matches Err(e) ==> e@ == "Unterminated name buffer"@ || reader_error(*read, e),
        forall|ans: spec_fn(u64, Width) -> Result<u64, String>| #[trigger]
            answers_from(*read, ans) ==> text_result(res) == string_answer(
                ans,
                address,
                max_len as nat,
            ),
{
    let mut bytes: Vec<u8> = Vec::new();
    let mut i: usize = 0;
    proof {
        assert forall|ans: spec_fn(u64, Width) -> Result<u64, String>| #[trigger]
            answers_from(*read, ans) implies scan_string(ans, address, max_len as nat, 0)
            == prefixed(bytes@, scan_string(ans, address, max_len as nat, 0)) by {
            match scan_string(ans, address, max_len as nat, 0) {
                Ok(t) => {
                    assert(bytes@ + t =~= t);
                },
                Err(_) => {},
            }
        }
    }
    while i < max_len
        invariant
            reader_ready(*read),
            i <= max_len,
            bytes@.len() == i,
            !bytes@.contains(0u8),
            forall|mem: Image| #[trigger]
                reads_from(*read, mem) ==> bytes@ == bytes_at(mem, address, i as nat),
            forall|ans: spec_fn(u64, Width) -> Result<u64, String>| #[trigger]
                answers_from(*read, ans) ==> scan_string(ans, address, max_len as nat, 0)
                    == prefixed(bytes@, scan_string(ans, address, max_len as nat, i as nat)),
        decreases max_len - i,
    {
        let b = match read_u8(read, offset(address, i as u64)) {
            Ok(b) => b,
            Err(e) => {
                proof {
                    assert forall|ans: spec_fn(u64, Width) -> Result<u64, String>| #[trigger]
                        answers_from(*read, ans) implies text_result(Err::<String, String>(e))
                        == string_answer(ans, address, max_len as nat) by {
                        assert(byte_answer(ans, at(address, i as u64)) == Err::<u8, String>(e));
                        assert(scan_string(ans, address, max_len as nat, i as nat) == Err::<
                            Seq<u8>,
                            Seq<char>,
                        >(e@));
                    }
                }
                return Err(e);
            },
        };
        proof {
            assert forall|ans: spec_fn(u64, Width) -> Result<u64, String>| #[trigger]
                answers_from(*read, ans) implies byte_answer(ans, at(address, i as u64)) == Ok::<
                u8,
                String,
            >(b) by {}
        }
        if b == 0 {
            let chars = utf8_lossy_chars(bytes.as_slice());
            let text = string_from_chars(chars.as_slice());
            proof {
                assert forall|mem: Image| #[trigger]
                    reads_from(*read, mem) implies text_result(Ok::<String, String>(text))
                    == string_at(mem, address, max_len as nat) by {
                    let raw = bytes_at(mem, address, max_len as nat);
                    assert forall|k: int| 0 <= k < i implies #[trigger] raw[k] != 0 by {
                        assert(raw[k] == bytes@[k]);
                        if raw[k] == 0 {
                            assert(bytes@.contains(0u8));
                        }
                    }
                    lemma_until_zero(raw, i as int);
                    assert(raw.subrange(0, i as int) =~= bytes@);
                }
                assert forall|ans: spec_fn(u64, Width) -> Result<u64, String>| #[trigger]
                    answers_from(*read, ans) implies text_result(Ok::<String, String>(text))
                    == string_answer(ans, address, max_len as nat) by {
                    assert(scan_string(ans, address, max_len as nat, i as nat) == Ok::<
                        Seq<u8>,
                        Seq<char>,
                    >(Seq::empty()));
                    assert(bytes@ + Seq::<u8>::empty() =~= bytes@);
                }
            }
            return Ok(text);
        }
        let ghost old_bytes = bytes@;
        bytes.push(b);
        proof {
            assert forall|mem: Image| #[trigger]
                reads_from(*read, mem) implies bytes@ == bytes_at(mem, address, (i + 1) as nat) by {
                assert(bytes@ =~= bytes_at(mem, address, (i + 1) as nat));
            }
            assert forall|k: int| 0 <= k < bytes@.len() implies bytes@[k] != 0u8 by {
                if k < i {
                    assert(bytes@[k] == old_bytes[k]);
                    if old_bytes[k] == 0 {
                        assert(old_bytes.contains(0u8));
                    }
                }
            }
            assert forall|ans: spec_fn(u64, Width) -> Result<u64, String>| #[trigger]
                answers_from(*read, ans) implies scan_string(ans, address, max_len as nat, 0)
                == prefixed(bytes@, scan_string(ans, address, max_len as nat, (i + 1) as nat)) by {
                assert(byte_answer(ans, at(address, i as u64)) == Ok::<u8, String>(b));
                match scan_string(ans, address, max_len as nat, (i + 1) as nat) {
                    Ok(t) => {
                        assert(old_bytes + (seq![b] + t) =~= bytes@ + t);
                    },
                    Err(_) => {},
                }
            }
        }
        i = i + 1;
    }
    let e = String::from_str("Unterminated name buffer");
    proof {
        assert forall|mem: Image| #[trigger]
            reads_from(*read, mem) implies text_result(Err::<String, String>(e)) == string_at(
            mem,
            address,
            max_len as nat,
        ) by {
            let raw = bytes_at(mem, address, max_len as nat);
            assert forall|k: int| 0 <= k < max_len implies #[trigger] raw[k] != 0 by {
                assert(raw[k] == bytes@[k]);
                if raw[k] == 0 {
                    assert(bytes@.contains(0u8));
                }
            }
            lemma_until_zero(raw, max_len as int);
        }
        assert forall|ans: spec_fn(u64, Width) -> Result<u64, String>| #[trigger]
            answers_from(*read, ans) implies text_result(Err::<String, String>(e)) == string_answer(
            ans,
            address,
            max_len as nat,
        ) by {
            assert(scan_string(ans, address, max_len as nat, i as nat) == Err::<
                Seq<u8>,
                Seq<char>,
            >("Unterminated name buffer"@));
        }
    }
    Err(e)
}

} // verus!
