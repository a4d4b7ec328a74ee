//! What identifies a photo: its size in bytes and four Exif fields, read from
//! the text that the `exif` crate displays for them.

use std::collections::hash_map::DefaultHasher;
use std::hash::Hasher;
use vstd::prelude::*;
use vstd::std_specs::hash::DefaultHasherAdditionalSpecFns;
use vstd::utf8::is_char_boundary_iff_not_is_continuation_byte;
use vstd::utf8::encode_utf8_valid_utf8;
use crate::hashing::{native_little_endian, ne_bytes, write_ne};
use crate::text::{
    contains_byte, field_text, find_byte, first_index, last_index, lemma_first_index_unique,
    lemma_last_index_unique, opt_text, parse_decimal, rfind_byte, spec_parse_decimal, text_or,
    utf8, SLASH, SPACE,
};

verus! {

/// The Exif fields that identify a photo.
#[derive(Clone, Copy, Debug, PartialEq, Eq, Structural)]
pub enum ImgTag {
    ExposureTime,
    PixelXDimension,
    PixelYDimension,
    DateTime,
}

/// What `exif` makes of an image file's bytes for one field: `None` where it
/// cannot read the Exif data of the file; otherwise the field's value, displayed
/// with its unit, if the primary image has that field.
pub uninterp spec fn exif_field_text(data: Seq<u8>, tag: ImgTag) -> Option<Option<Seq<char>>>;

pub open spec fn exif_result_view(r: Option<Option<String>>) -> Option<Option<Seq<char>>> {
    match r {
        Some(f) => Some(opt_text(f)),
        None => None,
    }
}

/// Calls `exif::Reader::read_from_container` on the bytes, then `Exif::get_field`
/// for the tag in the primary image, and displays the field with
/// `display_value().with_unit(..)`. Its result is named by `exif_field_text`:
/// nothing more is stated of it.
#[verifier::external_body]
fn get_as_string(data: &[u8], tag: ImgTag) -> (r: Option<Option<String>>)
    ensures
        exif_result_view(r) == exif_field_text(data@, tag),
{
    let exif = match exif::Reader::new().read_from_container(&mut std::io::Cursor::new(data)) {
        Ok(exif) => exif,
        Err(_) => return None,
    };
    let tag = match tag {
        ImgTag::ExposureTime => exif::Tag::ExposureTime,
        ImgTag::PixelXDimension => exif::Tag::PixelXDimension,
        ImgTag::PixelYDimension => exif::Tag::PixelYDimension,
        ImgTag::DateTime => exif::Tag::DateTime,
    };
    match exif.get_field(tag, exif::In::PRIMARY) {
        Some(field) => Some(Some(field.display_value().with_unit(&exif).to_string())),
        None => Some(None),
    }
}

/// A width or height: the number before the first space ("4032 pixels").
pub open spec fn dimension_from_text(b: Seq<u8>) -> Option<u16> {
    if contains_byte(b, SPACE) {
        match spec_parse_decimal(b.take(first_index(b, SPACE)), 65535) {
            Some(v) => Some(v as u16),
            None => None,
        }
    } else {
        None
    }
}

/// An exposure time: the number between the first `/` and the last space
/// ("1/60 s").
pub open spec fn exposure_from_text(b: Seq<u8>) -> Option<u32> {
    if contains_byte(b, SLASH) && contains_byte(b, SPACE) && first_index(b, SLASH) + 1
        <= last_index(b, SPACE) {
        match spec_parse_decimal(
            b.subrange(first_index(b, SLASH) + 1, last_index(b, SPACE)),
            0xffff_ffff,
        ) {
            Some(v) => Some(v as u32),
            None => None,
        }
    } else {
        None
    }
}

/// One number of a date, at the given byte positions.
pub open spec fn date_part(b: Seq<u8>, start: int, end: int) -> Option<nat> {
    spec_parse_decimal(b.subrange(start, end), 65535)
}

/// A date and time ("2016-09-05 14:21:31"): year, month, day, hour, minute and
/// second at fixed byte positions, the second running to the end of the text.
pub open spec fn date_from_text(b: Seq<u8>) -> Option<Seq<u16>> {
    if b.len() >= 19 && date_part(b, 0, 4) is Some && date_part(b, 5, 7) is Some && date_part(
        b,
        8,
        10,
    ) is Some && date_part(b, 11, 13) is Some && date_part(b, 14, 16) is Some && date_part(
        b,
        17,
        b.len() as int,
    ) is Some {
        Some(
            seq![
                date_part(b, 0, 4).unwrap() as u16,
                date_part(b, 5, 7).unwrap() as u16,
                date_part(b, 8, 10).unwrap() as u16,
                date_part(b, 11, 13).unwrap() as u16,
                date_part(b, 14, 16).unwrap() as u16,
                date_part(b, 17, b.len() as int).unwrap() as u16,
            ],
        )
    } else {
        None
    }
}

pub open spec fn spec_width(field: Option<Seq<char>>) -> Option<u16> {
    dimension_from_text(utf8(text_or(field, " 1048"@)))
}

pub open spec fn spec_length(field: Option<Seq<char>>) -> Option<u16> {
    dimension_from_text(utf8(text_or(field, " 2048"@)))
}

pub open spec fn spec_exposure_time(field: Option<Seq<char>>) -> Option<u32> {
    exposure_from_text(utf8(text_or(field, "/1 "@)))
}

pub open spec fn spec_created_on(field: Option<Seq<char>>) -> Option<Seq<u16>> {
    date_from_text(utf8(text_or(field, "0000 00 00 00 00 00"@)))
}

/// The part of the text before its first space.
pub fn parse_from_only_space(as_a_string: &String) -> (r: &str)
    requires
        contains_byte(utf8(as_a_string@), SPACE),
    ensures
        utf8(r@) == utf8(as_a_string@).take(first_index(utf8(as_a_string@), SPACE)),
{
    let s = as_a_string.as_str();
    let bytes = s.as_bytes();
    let i = match find_byte(bytes, SPACE) {
        Some(i) => i,
        None => {
            proof {
                assert(false);
            }
            0
        },
    };
    proof {
        lemma_first_index_unique(bytes@, SPACE, i as int);
        encode_utf8_valid_utf8(s@);
        is_char_boundary_iff_not_is_continuation_byte(bytes@, i as int);
    }
    let (head, _) = s.split_at(i);
    head
}

/// A width or height read from its text; `None` where the text holds no space or
/// what stands before it is no `u16`.
pub fn dimension_value(text: &str) -> (r: Option<u16>)
    ensures
        r == dimension_from_text(utf8(text@)),
{
    let bytes = text.as_bytes();
    match find_byte(bytes, SPACE) {
        Some(i) => {
            proof {
                lemma_first_index_unique(bytes@, SPACE, i as int);
            }
            match parse_decimal(&bytes[0..i], 65535) {
                Some(v) => Some(v as u16),
                None => None,
            }
        },
        None => None,
    }
}

/// An exposure time read from its text; `None` where the text lacks a `/` or a
/// space, the last space stands before the first `/`, or what stands between
/// them is no `u32`.
pub fn exposure_value(text: &str) -> (r: Option<u32>)
    ensures
        r == exposure_from_text(utf8(text@)),
{
    let bytes = text.as_bytes();
    let slash = match find_byte(bytes, SLASH) {
        Some(i) => i,
        None => return None,
    };
    let space = match rfind_byte(bytes, SPACE) {
        Some(i) => i,
        None => return None,
    };
    proof {
        lemma_first_index_unique(bytes@, SLASH, slash as int);
        lemma_last_index_unique(bytes@, SPACE, space as int);
    }
    if slash >= space {
        return None;
    }
    match parse_decimal(&bytes[slash + 1..space], 0xffff_ffff) {
        Some(v) => Some(v),
        None => None,
    }
}

fn date_number(bytes: &[u8], start: usize, end: usize) -> (r: Option<u16>)
    requires
        start <= end <= bytes@.len(),
    ensures
        match r {
            Some(v) => date_part(bytes@, start as int, end as int) == Some(v as nat),
            None => date_part(bytes@, start as int, end as int) is None,
        },
{
    match parse_decimal(&bytes[start..end], 65535) {
        Some(v) => Some(v as u16),
        None => None,
    }
}

/// A date read from its text; `None` where the text is shorter than 19 bytes or
/// one of its six numbers is no `u16`.
pub fn date_value(text: &str) -> (r: Option<[u16; 6]>)
    ensures
        match r {
            Some(a) => date_from_text(utf8(text@)) == Some(a@),
            None => date_from_text(utf8(text@)) is None,
        },
{
    let bytes = text.as_bytes();
    let len = bytes.len();
    if len < 19 {
        return None;
    }
    let year = match date_number(bytes, 0, 4) {
        Some(v) => v,
        None => return None,
    };
    let month = match date_number(bytes, 5, 7) {
        Some(v) => v,
        None => return None,
    };
    let day = match date_number(bytes, 8, 10) {
        Some(v) => v,
        None => return None,
    };
    let hour = match date_number(bytes, 11, 13) {
        Some(v) => v,
        None => return None,
    };
    let minute = match date_number(bytes, 14, 16) {
        Some(v) => v,
        None => return None,
    };
    let second = match date_number(bytes, 17, len) {
        Some(v) => v,
        None => return None,
    };
    let arr: [u16; 6] = [year, month, day, hour, minute, second];
    assert(arr@ =~= date_from_text(utf8(text@)).unwrap());
    Some(arr)
}

/// A width, read from the `PixelXDimension` text (" 1048" where it is absent).
pub fn get_width(field: &Option<String>) -> (r: u16)
    requires
        spec_width(opt_text(*field)) is Some,
    ensures
        spec_width(opt_text(*field)) == Some(r),
{
    match dimension_value(field_text(field, " 1048")) {
        Some(v) => v,
        None => {
            proof {
                assert(false);
            }
            0
        },
    }
}

/// A height, read from the `PixelYDimension` text (" 2048" where it is absent).
pub fn get_length(field: &Option<String>) -> (r: u16)
    requires
        spec_length(opt_text(*field)) is Some,
    ensures
        spec_length(opt_text(*field)) == Some(r),
{
    match dimension_value(field_text(field, " 2048")) {
        Some(v) => v,
        None => {
            proof {
                assert(false);
            }
            0
        },
    }
}

/// An exposure time, read from the `ExposureTime` text ("/1 " where it is absent).
pub fn get_exposure_time(field: &Option<String>) -> (r: u32)
    requires
        spec_exposure_time(opt_text(*field)) is Some,
    ensures
        spec_exposure_time(opt_text(*field)) == Some(r),
{
    match exposure_value(field_text(field, "/1 ")) {
        Some(v) => v,
        None => {
            proof {
                assert(false);
            }
            0
        },
    }
}

/// A date and time, read from the `DateTime` text ("0000 00 00 00 00 00" where it
/// is absent).
pub fn created_on(field: &Option<String>) -> (r: [u16; 6])
    requires
        spec_created_on(opt_text(*field)) is Some,
    ensures
        spec_created_on(opt_text(*field)) == Some(r@),
{
    match date_value(field_text(field, "0000 00 00 00 00 00")) {
        Some(v) => v,
        None => {
            proof {
                assert(false);
            }
            [0, 0, 0, 0, 0, 0]
        },
    }
}

/// What identifies a photo.
pub struct FileDataImg {
    size: u64,
    dimensions: [u16; 2],
    created_on: [u16; 6],
    exposure_time: u32,
}

/// The facts of a photo: size, (width, height), the six numbers of its date, and
/// its exposure time.
pub type ImgFacts = (u64, Seq<u16>, Seq<u16>, u32);

/// The facts that the Exif texts give, with `size`; `None` where one text cannot
/// be read.
pub open spec fn img_facts_from_text(
    size: u64,
    exposure: Option<Seq<char>>,
    width: Option<Seq<char>>,
    length: Option<Seq<char>>,
    date: Option<Seq<char>>,
) -> Option<ImgFacts> {
    if spec_exposure_time(exposure) is Some && spec_width(width) is Some && spec_length(length) is Some
        && spec_created_on(date) is Some {
        Some(
            (
                size,
                seq![spec_width(width).unwrap(), spec_length(length).unwrap()],
                spec_created_on(date).unwrap(),
                spec_exposure_time(exposure).unwrap(),
            ),
        )
    } else {
        None
    }
}

/// The facts of an image file of `size` bytes; `None` where `exif` cannot read the
/// file or one field's text cannot be read.
pub open spec fn img_facts_from_file(size: u64, data: Seq<u8>) -> Option<ImgFacts> {
    let e = exif_field_text(data, ImgTag::ExposureTime);
    let w = exif_field_text(data, ImgTag::PixelXDimension);
    let l = exif_field_text(data, ImgTag::PixelYDimension);
    let d = exif_field_text(data, ImgTag::DateTime);
    if e is Some && w is Some && l is Some && d is Some {
        img_facts_from_text(size, e.unwrap(), w.unwrap(), l.unwrap(), d.unwrap())
    } else {
        None
    }
}

/// The bytes that `hash` feeds to the hasher, one write per field (and per number
/// of the date), each in the target's native byte order (`little` on a
/// little-endian target).
pub open spec fn img_hash_input(f: ImgFacts, little: bool) -> Seq<Seq<u8>> {
    seq![
        ne_bytes(f.0 as nat, 8, little),
        ne_bytes(f.1[0] as nat, 2, little),
        ne_bytes(f.1[1] as nat, 2, little),
        ne_bytes(f.2[0] as nat, 2, little),
        ne_bytes(f.2[1] as nat, 2, little),
        ne_bytes(f.2[2] as nat, 2, little),
        ne_bytes(f.2[3] as nat, 2, little),
        ne_bytes(f.2[4] as nat, 2, little),
        ne_bytes(f.2[5] as nat, 2, little),
        ne_bytes(f.3 as nat, 4, little),
    ]
}

/// Two photos are taken as the same when size, dimensions and date agree; the
/// exposure time is not compared.
pub open spec fn img_same(a: ImgFacts, b: ImgFacts) -> bool {
    a.0 == b.0 && a.1 == b.1 && a.2 == b.2
}

impl View for FileDataImg {
    type V = ImgFacts;

    closed spec fn view(&self) -> ImgFacts {
        (self.size, self.dimensions@, self.created_on@, self.exposure_time)
    }
}

impl FileDataImg {
    /// The facts of a photo of `size` bytes from the texts of its four Exif fields
    /// (`None` for an absent field); `None` where one of them cannot be read.
    pub fn from_exif_text(
        size: u64,
        exposure: &Option<String>,
        width: &Option<String>,
        length: &Option<String>,
        date: &Option<String>,
    ) -> (r: Option<FileDataImg>)
        ensures
            match r {
                Some(img) => img_facts_from_text(
                    size,
                    opt_text(*exposure),
                    opt_text(*width),
                    opt_text(*length),
                    opt_text(*date),
                ) == Some(img@),
                None => img_facts_from_text(
                    size,
                    opt_text(*exposure),
                    opt_text(*width),
                    opt_text(*length),
                    opt_text(*date),
                ) is None,
            },
    {
        if exposure_value(field_text(exposure, "/1 ")).is_none() || dimension_value(
            field_text(width, " 1048"),
        ).is_none() || dimension_value(field_text(length, " 2048")).is_none() || date_value(
            field_text(date, "0000 00 00 00 00 00"),
        ).is_none() {
            return None;
        }
        let img = FileDataImg {
            size: size,
            dimensions: [get_width(width), get_length(length)],
            created_on: created_on(date),
            exposure_time: get_exposure_time(exposure),
        };
        assert(img.dimensions@ =~= seq![
            spec_width(opt_text(*width)).unwrap(),
            spec_length(opt_text(*length)).unwrap(),
        ]);
        Some(img)
    }

    /// The facts of an image file of `size` bytes whose contents are `data`;
    /// `None` where `exif` cannot read it or one field's text cannot be read.
    pub fn new(size: u64, data: &[u8]) -> (r: Option<FileDataImg>)
        ensures
            match r {
                Some(img) => img_facts_from_file(size, data@) == Some(img@),
                None => img_facts_from_file(size, data@) is None,
            },
    {
        let exposure = match get_as_string(data, ImgTag::ExposureTime) {
            Some(f) => f,
            None => return None,
        };
        let width = match get_as_string(data, ImgTag::PixelXDimension) {
            Some(f) => f,
            None => return None,
        };
        let length = match get_as_string(data, ImgTag::PixelYDimension) {
            Some(f) => f,
            None => return None,
        };
        let date = match get_as_string(data, ImgTag::DateTime) {
            Some(f) => f,
            None => return None,
        };
        Self::from_exif_text(size, &exposure, &width, &length, &date)
    }

    /// Feeds size, width, height, the six numbers of the date and the exposure
    /// time to `state`, in that order, and returns the hasher's result.
    pub fn hash(&self, state: &mut DefaultHasher) -> (r: u64)
        ensures
            exists|little: bool| final(state)@ == old(state)@ + img_hash_input(self@, little),
            r == DefaultHasher::spec_finish(final(state)@),
    {
        let ghost start = state@;
        let little = native_little_endian();
        write_ne(state, self.size, 8, little);
        write_ne(state, self.dimensions[0] as u64, 2, little);
        write_ne(state, self.dimensions[1] as u64, 2, little);
        let mut i: usize = 0;
        while i < 6
            invariant
                i <= 6,
                state@ == start + img_hash_input(self@, little).take(3 + i),
            decreases 6 - i,
        {
            let ghost before = state@;
            write_ne(state, self.created_on[i] as u64, 2, little);
            assert(img_hash_input(self@, little).take(3 + i + 1) =~= img_hash_input(self@, little).take(3 + i).push(
                img_hash_input(self@, little)[3 + i as int],
            ));
            i = i + 1;
        }
        write_ne(state, self.exposure_time as u64, 4, little);
        assert(img_hash_input(self@, little).take(9).push(img_hash_input(self@, little)[9]) =~= img_hash_input(
            self@, little,
        ));
        (*state).finish()
    }

    pub closed spec fn spec_eq(&self, other: &Self) -> bool {
        img_same(self@, other@)
    }

    /// Whether every fact of the two photos agrees, the exposure time included.
    pub fn same_record(&self, other: &Self) -> (r: bool)
        ensures
            r == (self@ == other@),
    {
        let same = self == other && self.exposure_time == other.exposure_time;
        proof {
            if same {
                assert(self.dimensions@ =~= other.dimensions@);
                assert(self.created_on@ =~= other.created_on@);
            }
        }
        same
    }
}

impl PartialEq for FileDataImg {
    fn eq(&self, other: &Self) -> (r: bool) {
        let mut mismatch = false;
        if self.size != other.size {
            mismatch = true;
        }
        if self.dimensions[0] != other.dimensions[0] {
            mismatch = true;
        }
        if self.dimensions[1] != other.dimensions[1] {
            mismatch = true;
        }
        assert((self.dimensions@[0] == other.dimensions@[0] && self.dimensions@[1]
            == other.dimensions@[1]) ==> self.dimensions@ =~= other.dimensions@);
        let mut i: usize = 0;
        while i < 6
            invariant
                i <= 6,
                mismatch <==> (self.size != other.size || self.dimensions@ != other.dimensions@
                    || exists|j: int| 0 <= j < i && self.created_on@[j] != other.created_on@[j]),
            decreases 6 - i,
        {
            if self.created_on[i] != other.created_on[i] {
                mismatch = true;
            }
            i = i + 1;
        }
        assert(!mismatch ==> self.created_on@ =~= other.created_on@);
        !mismatch
    }
}

impl vstd::std_specs::cmp::PartialEqSpecImpl for FileDataImg {
    open spec fn obeys_eq_spec() -> bool {
        true
    }

    open spec fn eq_spec(&self, other: &FileDataImg) -> bool {
        self.spec_eq(other)
    }
}

/// The texts that stand for absent fields: an absent exposure time reads as 1,
/// an absent date as six zeros, and an absent width or height cannot be read.
pub proof fn lemma_absent_field_defaults()
    ensures
        spec_exposure_time(None) == Some(1u32),
        spec_created_on(None) == Some(seq![0u16, 0u16, 0u16, 0u16, 0u16, 0u16]),
        spec_width(None) is None,
        spec_length(None) is None,
{
    reveal_strlit("/1 ");
    reveal_strlit(" 1048");
    reveal_strlit(" 2048");
    reveal_strlit("0000 00 00 00 00 00");
    vstd::utf8::is_ascii_chars_encode_utf8("/1 "@);
    vstd::utf8::is_ascii_chars_encode_utf8(" 1048"@);
    vstd::utf8::is_ascii_chars_encode_utf8(" 2048"@);
    vstd::utf8::is_ascii_chars_encode_utf8("0000 00 00 00 00 00"@);
    let e = utf8("/1 "@);
    assert(e =~= seq![47u8, 49u8, 32u8]);
    lemma_first_index_unique(e, SLASH, 0);
    lemma_last_index_unique(e, SPACE, 2);
    assert(e.subrange(1, 2) =~= seq![49u8]);
    assert(seq![49u8].drop_last() =~= Seq::<u8>::empty());
    let w = utf8(" 1048"@);
    assert(w[0] == SPACE);
    lemma_first_index_unique(w, SPACE, 0);
    let l = utf8(" 2048"@);
    assert(l[0] == SPACE);
    lemma_first_index_unique(l, SPACE, 0);
    let d = utf8("0000 00 00 00 00 00"@);
    assert(d.len() == 19);
    let z4 = seq![48u8, 48u8, 48u8, 48u8];
    let z2 = seq![48u8, 48u8];
    assert(d.subrange(0, 4) =~= z4);
    assert(d.subrange(5, 7) =~= z2);
    assert(d.subrange(8, 10) =~= z2);
    assert(d.subrange(11, 13) =~= z2);
    assert(d.subrange(14, 16) =~= z2);
    assert(d.subrange(17, 19) =~= z2);
    let z1 = seq![48u8];
    let z3 = seq![48u8, 48u8, 48u8];
    assert(z1.drop_last() =~= Seq::<u8>::empty());
    assert(z2.drop_last() =~= z1);
    assert(z3.drop_last() =~= z2);
    assert(z4.drop_last() =~= z3);
    assert(crate::text::digits_value(Seq::<u8>::empty()) == 0);
    assert(crate::text::digits_value(z1) == 0);
    assert(crate::text::digits_value(z2) == 0);
    assert(crate::text::digits_value(z3) == 0);
    assert(crate::text::digits_value(z4) == 0);
    assert(spec_created_on(None).unwrap() =~= seq![0u16, 0u16, 0u16, 0u16, 0u16, 0u16]);
}

/// Whenever `exif` reads the file, the photo's facts are those that the four
/// field texts give, an absent field standing for its default text; in
/// particular a photo without an exposure time is identified, with exposure
/// time 1, as soon as its width, height and date can be read.
pub proof fn lemma_exif_read_gives_facts(size: u64, data: Seq<u8>)
    requires
        exif_field_text(data, ImgTag::ExposureTime) is Some,
        exif_field_text(data, ImgTag::PixelXDimension) is Some,
        exif_field_text(data, ImgTag::PixelYDimension) is Some,
        exif_field_text(data, ImgTag::DateTime) is Some,
    ensures
        img_facts_from_file(size, data) == img_facts_from_text(
            size,
            exif_field_text(data, ImgTag::ExposureTime).unwrap(),
            exif_field_text(data, ImgTag::PixelXDimension).unwrap(),
            exif_field_text(data, ImgTag::PixelYDimension).unwrap(),
            exif_field_text(data, ImgTag::DateTime).unwrap(),
        ),
        ({
            let w = spec_width(exif_field_text(data, ImgTag::PixelXDimension).unwrap());
            let l = spec_length(exif_field_text(data, ImgTag::PixelYDimension).unwrap());
            let d = spec_created_on(exif_field_text(data, ImgTag::DateTime).unwrap());
            exif_field_text(data, ImgTag::ExposureTime).unwrap() is None && w is Some && l is Some
                && d is Some ==> img_facts_from_file(size, data) == Some(
                (size, seq![w.unwrap(), l.unwrap()], d.unwrap(), 1u32),
            )
        }),
{
    lemma_absent_field_defaults();
}

/// `==` on photos compares size, dimensions and date, and not the exposure time;
/// it is an equivalence relation.
pub proof fn lemma_img_eq(a: FileDataImg, b: FileDataImg, c: FileDataImg)
    ensures
        a.spec_eq(&b) <==> (a@.0 == b@.0 && a@.1 == b@.1 && a@.2 == b@.2),
        a.spec_eq(&a),
        a.spec_eq(&b) ==> b.spec_eq(&a),
        a.spec_eq(&b) && b.spec_eq(&c) ==> a.spec_eq(&c),
{
}

/// Photos that are `==` feed the same bytes to the hasher as soon as their exposure
/// times agree too (the hash covers the exposure time, `==` does not).
pub proof fn lemma_img_eq_hash(a: FileDataImg, b: FileDataImg)
    requires
        a.spec_eq(&b),
        a@.3 == b@.3,
    ensures
        forall|little: bool| img_hash_input(a@, little) == img_hash_input(b@, little),
{
}

} // verus!
