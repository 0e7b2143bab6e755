//! How a file is opened for writing, and where an atomic write puts its
//! temporary file.
//!
//! Opening, writing and renaming stay with the caller; what is decided here
//! is with which options the file is opened, which permission bits it gets,
//! and the name of the temporary file.

use crate::path::{separator_free, with_extension_of, FsPath, SegmentView};
use vstd::prelude::*;

verus! {

/// The options with which a file is opened for writing, and the permission
/// bits that it is given.
#[derive(Clone, Copy, Debug, PartialEq, Eq, Structural)]
pub struct OpenPlan {
    pub read: bool,
    pub write: bool,
    pub append: bool,
    pub truncate: bool,
    pub create: bool,
    /// The permission bits to set on the file, where they are to be set.
    pub permissions: Option<u32>,
}

/// The options of a write: the file is opened for writing only, appended to
/// or else truncated, and given the lowest nine bits of `mode` as its
/// permissions where `update_mode` asks for it.
pub open spec fn open_plan_of(update_mode: bool, mode: u32, is_create: bool, is_append: bool) -> OpenPlan {
    OpenPlan {
        read: false,
        write: true,
        append: is_append,
        truncate: !is_append,
        create: is_create,
        permissions: if update_mode {
            Some(mode & 0o777)
        } else {
            None
        },
    }
}

/// The options with which a file is opened and written.
pub fn write_file_2(update_mode: bool, mode: u32, is_create: bool, is_append: bool) -> (r: OpenPlan)
    ensures
        r == open_plan_of(update_mode, mode, is_create, is_append),
{
    OpenPlan {
        read: false,
        write: true,
        append: is_append,
        truncate: !is_append,
        create: is_create,
        permissions: if update_mode {
            Some(mode & 0o777)
        } else {
            None
        },
    }
}

/// The options with which a file is written anew: it is created if absent,
/// truncated, and given the permissions of `mode`.
pub fn write_file(mode: u32) -> (r: OpenPlan)
    ensures
        r == open_plan_of(true, mode, true, false),
{
    write_file_2(true, mode, true, false)
}

/// The sixteen hexadecimal digits, in lower case.
pub open spec fn hex_digits() -> Seq<char> {
    seq!['0', '1', '2', '3', '4', '5', '6', '7', '8', '9', 'a', 'b', 'c', 'd', 'e', 'f']
}

/// A byte as two hexadecimal digits in lower case.
pub open spec fn hex_of(byte: u8) -> Seq<char> {
    seq![hex_digits()[byte as int / 16], hex_digits()[byte as int % 16]]
}

/// The extension of a temporary file: the four bytes in hexadecimal, then
/// `.tmp`.
pub open spec fn temp_extension_of(bytes: Seq<u8>) -> Seq<char> {
    hex_of(bytes[0]) + hex_of(bytes[1]) + hex_of(bytes[2]) + hex_of(bytes[3]) + seq![
        '.',
        't',
        'm',
        'p',
    ]
}

fn hex_digit(n: u8) -> (r: &'static str)
    requires
        n < 16,
    ensures
        r@ == seq![hex_digits()[n as int]],
{
    proof {
        reveal_strlit("0");
        reveal_strlit("1");
        reveal_strlit("2");
        reveal_strlit("3");
        reveal_strlit("4");
        reveal_strlit("5");
        reveal_strlit("6");
        reveal_strlit("7");
        reveal_strlit("8");
        reveal_strlit("9");
        reveal_strlit("a");
        reveal_strlit("b");
        reveal_strlit("c");
        reveal_strlit("d");
        reveal_strlit("e");
        reveal_strlit("f");
    }
    let r = if n == 0 {
        "0"
    } else if n == 1 {
        "1"
    } else if n == 2 {
        "2"
    } else if n == 3 {
        "3"
    } else if n == 4 {
        "4"
    } else if n == 5 {
        "5"
    } else if n == 6 {
        "6"
    } else if n == 7 {
        "7"
    } else if n == 8 {
        "8"
    } else if n == 9 {
        "9"
    } else if n == 10 {
        "a"
    } else if n == 11 {
        "b"
    } else if n == 12 {
        "c"
    } else if n == 13 {
        "d"
    } else if n == 14 {
        "e"
    } else {
        "f"
    };
    assert(r@ =~= seq![hex_digits()[n as int]]);
    r
}

/// The extension of a temporary file: the four bytes in hexadecimal, then
/// `.tmp`.
pub fn temp_extension(bytes: &[u8; 4]) -> (r: String)
    ensures
        r@ == temp_extension_of(bytes@),
        separator_free(r@),
{
    proof {
        reveal_strlit(".tmp");
    }
    let mut r = String::new();
    let mut i: usize = 0;
    while i < 4
        invariant
            i <= 4,
            r@.len() == 2 * i,
            forall|k: int| 0 <= k < i ==> r@.subrange(2 * k, 2 * k + 2) == hex_of(bytes@[k]),
            separator_free(r@),
        decreases 4 - i,
    {
        let ghost before = r@;
        let b = bytes[i];
        r.append(hex_digit(b / 16));
        r.append(hex_digit(b % 16));
        assert(r@ =~= before + hex_of(b));
        assert forall|k: int| 0 <= k < i + 1 implies r@.subrange(2 * k, 2 * k + 2) == hex_of(
            bytes@[k],
        ) by {
            if k < i {
                assert(r@.subrange(2 * k, 2 * k + 2) =~= before.subrange(2 * k, 2 * k + 2));
            } else {
                assert(r@.subrange(2 * k, 2 * k + 2) =~= hex_of(b));
            }
        }
        i += 1;
    }
    let ghost hex = r@;
    r.append(".tmp");
    assert(".tmp"@ =~= seq!['.', 't', 'm', 'p']);
    assert(hex =~= hex.subrange(0, 2) + hex.subrange(2, 4) + hex.subrange(4, 6) + hex.subrange(6, 8));
    assert(r@ =~= temp_extension_of(bytes@));
    r
}

/// An atomic write: the data is written to `temp` with `options`, then
/// `temp` is renamed to `target`.
#[derive(Debug)]
pub struct AtomicWrite {
    /// The extension of the temporary file.
    pub extension: String,
    pub temp: FsPath,
    pub target: FsPath,
    pub options: OpenPlan,
}

/// The mathematical value of an [`AtomicWrite`].
pub struct AtomicWriteView {
    pub extension: Seq<char>,
    pub temp: Seq<SegmentView>,
    pub target: Seq<SegmentView>,
    pub options: OpenPlan,
}

impl View for AtomicWrite {
    type V = AtomicWriteView;

    open spec fn view(&self) -> AtomicWriteView {
        AtomicWriteView {
            extension: self.extension@,
            temp: self.temp@,
            target: self.target@,
            options: self.options,
        }
    }
}

/// The atomic write of `filename` whose temporary file is named after the
/// four bytes: it is the sibling of `filename` with the extension made of
/// the bytes, and is written as a file is written anew.
pub open spec fn atomic_write_of(filename: Seq<SegmentView>, mode: u32, bytes: Seq<u8>) -> AtomicWriteView {
    AtomicWriteView {
        extension: temp_extension_of(bytes),
        temp: with_extension_of(filename, temp_extension_of(bytes)),
        target: filename,
        options: open_plan_of(true, mode, true, false),
    }
}

/// The atomic write of `filename` whose temporary file is named after the
/// four bytes.
pub fn atomic_write_with(filename: &FsPath, mode: u32, bytes: &[u8; 4]) -> (r: AtomicWrite)
    ensures
        r@ == atomic_write_of(filename@, mode, bytes@),
{
    let extension = temp_extension(bytes);
    let temp = filename.with_extension(extension.as_str());
    AtomicWrite { extension, temp, target: filename.duplicate(), options: write_file(mode) }
}

/// `rand::random` for a byte: a byte drawn at random. Nothing is promised of
/// it.
#[verifier::external_body]
fn random_byte() -> (r: u8) {
    rand::random::<u8>()
}

/// The atomic write of `filename`, with a temporary file named after four
/// bytes drawn at random.
pub fn atomic_write_file(filename: &FsPath, mode: u32) -> (r: AtomicWrite)
    ensures
        exists|bytes: Seq<u8>| bytes.len() == 4 && r@ == #[trigger] atomic_write_of(filename@, mode, bytes),
{
    let bytes: [u8; 4] = [random_byte(), random_byte(), random_byte(), random_byte()];
    let r = atomic_write_with(filename, mode, &bytes);
    assert(bytes@.len() == 4 && r@ == atomic_write_of(filename@, mode, bytes@));
    r
}

} // verus!
