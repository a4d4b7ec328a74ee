//! The small decisions taken on user input and file names: what kind of media a
//! file is, what number a typed line holds, and which files go when the user
//! picks the one to keep.

use vstd::prelude::*;
use crate::cleanup::texts;
use crate::text::{parse_decimal, spec_parse_decimal, utf8};

verus! {

/// The kinds of file that are searched for duplicates.
#[derive(Clone, Copy, Debug, PartialEq, Eq, Structural)]
pub enum FileKind {
    Png,
    Jpeg,
    Mov,
    Other,
}

pub open spec fn kind_of_extension(ext: Seq<char>) -> FileKind {
    if ext == "png"@ {
        FileKind::Png
    } else if ext == "jpg"@ || ext == "jpeg"@ || ext == "JPG"@ {
        FileKind::Jpeg
    } else if ext == "MOV"@ {
        FileKind::Mov
    } else {
        FileKind::Other
    }
}

/// The kind of a file from its extension: "png"; "jpg", "jpeg" or "JPG"; "MOV";
/// anything else is not searched.
pub fn classify_extension(ext: &str) -> (r: FileKind)
    ensures
        r == kind_of_extension(ext@),
{
    let e: String = ext.to_owned();
    if e == "png".to_owned() {
        FileKind::Png
    } else if e == "jpg".to_owned() || e == "jpeg".to_owned() || e == "JPG".to_owned() {
        FileKind::Jpeg
    } else if e == "MOV".to_owned() {
        FileKind::Mov
    } else {
        FileKind::Other
    }
}

/// A line as read from the terminal can be cut at its last byte: it is not empty
/// and its last byte is a whole character (the line ends in `\n`).
pub open spec fn line_can_be_cut(line: Seq<char>) -> bool {
    utf8(line).len() > 0 && utf8(line).last() < 128
}

/// The number that a typed line holds: the line without its last byte, read as a
/// `u16`.
pub open spec fn line_value(line: Seq<char>) -> Option<nat> {
    spec_parse_decimal(utf8(line).drop_last(), 65535)
}

/// The number that a typed line holds, once its last byte (the line break) is cut
/// off; `None` where the rest is no `u16`.
pub fn parse_line_u16(line: &str) -> (r: Option<u16>)
    requires
        line_can_be_cut(line@),
    ensures
        match r {
            Some(v) => line_value(line@) == Some(v as nat),
            None => line_value(line@) is None,
        },
{
    let bytes = line.as_bytes();
    let cut = bytes.len() - 1;
    assert(bytes@.subrange(0, cut as int) =~= utf8(line@).drop_last());
    match parse_decimal(&bytes[0..cut], 65535) {
        Some(v) => Some(v as u16),
        None => None,
    }
}

/// What the user's answer to "which one to keep" means.
#[derive(Clone, Copy, Debug, PartialEq, Eq, Structural)]
pub enum KeepChoice {
    /// Keep the file with this number; the others go, and the question is over.
    Keep(u16),
    /// A number, but no file has it: nothing is removed and the question is asked
    /// again.
    OutOfRange,
    /// Not a number: every file but the one kept so far (the first, before any
    /// valid answer) is removed, and the question is asked again.
    NotANumber,
}

pub open spec fn spec_keep_choice(line: Seq<char>, count: nat) -> KeepChoice {
    match line_value(line) {
        Some(v) => if v >= count {
            KeepChoice::OutOfRange
        } else {
            KeepChoice::Keep(v as u16)
        },
        None => KeepChoice::NotANumber,
    }
}

/// The meaning of the line typed to pick, among `count` numbered files, the one
/// to keep.
pub fn choose_file_to_keep(line: &str, count: usize) -> (r: KeepChoice)
    requires
        line_can_be_cut(line@),
    ensures
        r == spec_keep_choice(line@, count as nat),
{
    match parse_line_u16(line) {
        Some(v) => if v as usize >= count {
            KeepChoice::OutOfRange
        } else {
            KeepChoice::Keep(v)
        },
        None => KeepChoice::NotANumber,
    }
}

/// The file kept while the others are removed after an answer, where files are
/// removed at all: the chosen file after a valid number, the file kept so far
/// (`num_to_keep`) after a line with no number, none after a number that no file
/// has.
pub open spec fn spec_kept_after(choice: KeepChoice, num_to_keep: u16) -> Option<u16> {
    match choice {
        KeepChoice::Keep(k) => Some(k),
        KeepChoice::NotANumber => Some(num_to_keep),
        KeepChoice::OutOfRange => None,
    }
}

/// After an answer, the number of the file kept while every other file is
/// removed; `None` where nothing is removed.
pub fn kept_after(choice: KeepChoice, num_to_keep: u16) -> (r: Option<u16>)
    ensures
        r == spec_kept_after(choice, num_to_keep),
{
    match choice {
        KeepChoice::Keep(k) => Some(k),
        KeepChoice::NotANumber => Some(num_to_keep),
        KeepChoice::OutOfRange => None,
    }
}

/// Every file but the one numbered `keep`; all of them where no file has that
/// number.
pub open spec fn all_but(files: Seq<Seq<char>>, keep: int) -> Seq<Seq<char>> {
    if keep < files.len() {
        files.remove(keep)
    } else {
        files
    }
}

/// Answers before the question is over: a number that no file has removes
/// nothing; a line with no number removes every file but the one kept so far,
/// which is the first file as long as no valid number was typed.
pub proof fn lemma_answers_before_a_choice(
    files: Seq<Seq<char>>,
    line: Seq<char>,
    count: nat,
)
    requires
        count == files.len(),
        count >= 1,
    ensures
        spec_keep_choice(line, count) == KeepChoice::OutOfRange ==> spec_kept_after(
            spec_keep_choice(line, count),
            0,
        ) is None,
        spec_keep_choice(line, count) == KeepChoice::NotANumber ==> spec_kept_after(
            spec_keep_choice(line, count),
            0,
        ) == Some(0u16) && all_but(files, 0) == files.drop_first(),
        line_value(line) is None <==> spec_keep_choice(line, count) == KeepChoice::NotANumber,
{
    assert(files.remove(0) =~= files.drop_first());
}

/// Every file but the one numbered `keep`, in order (all of them where no file
/// has that number).
pub fn files_to_remove(files: &Vec<String>, keep: u16) -> (r: Vec<String>)
    ensures
        texts(r@) == all_but(texts(files@), keep as int),
{
    let mut out: Vec<String> = Vec::new();
    let mut i: usize = 0;
    while i < files.len()
        invariant
            i <= files@.len(),
            texts(out@) == (if i <= keep {
                texts(files@).take(i as int)
            } else {
                texts(files@).take(i as int).remove(keep as int)
            }),
        decreases files@.len() - i,
    {
        let ghost before = out@;
        if i != keep as usize {
            let c = files[i].clone();
            out.push(c);
            assert(texts(out@) =~= texts(before).push(files@[i as int]@));
        }
        proof {
            let t = texts(files@);
            assert(t.take(i + 1) =~= t.take(i as int).push(t[i as int]));
            if i < keep {
                assert(texts(out@) =~= t.take(i + 1));
            } else if i == keep {
                assert(t.take(i + 1).remove(keep as int) =~= t.take(i as int));
            } else {
                assert(t.take(i + 1).remove(keep as int) =~= t.take(i as int).remove(keep as int).push(t[i as int]));
            }
        }
        i = i + 1;
    }
    assert(texts(files@).take(files@.len() as int) =~= texts(files@));
    out
}

/// Every number of a listed file is accepted as the file to keep, a number that
/// no listed file has is refused, and a line with no number is no number: for
/// `count` files numbered from 0, the answer is `Keep(v)` exactly when the line
/// holds a number `v` below `count`.
pub proof fn lemma_numbers_in_range_are_kept(line: Seq<char>, count: nat, v: nat)
    ensures
        line_value(line) == Some(v) && v < count ==> spec_keep_choice(line, count)
            == KeepChoice::Keep(v as u16),
        line_value(line) == Some(v) && v >= count ==> spec_keep_choice(line, count)
            == KeepChoice::OutOfRange,
        line_value(line) is None ==> spec_keep_choice(line, count) == KeepChoice::NotANumber,
        spec_keep_choice(line, count) == KeepChoice::Keep(v as u16) && v <= 65535 ==> (
        line_value(line) == Some(v) && v < count),
{
}

} // verus!
