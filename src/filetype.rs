//! Recognized raster kinds and the names of the artifacts made for them.

use vstd::prelude::*;
use vstd::string::*;
use crate::text::{decimal, lower_of, lowercase, push_decimal, str_equal};

verus! {

/// The kind of a source raster, told by its file extension.
#[allow(non_camel_case_types)]
#[derive(PartialEq, Eq, Structural, Clone, Copy, Debug)]
pub enum FileType {
    UNKNOWN,
    JPG,
    PNG,
}

/// The kind that a lower-case extension names.
pub open spec fn file_type_of(lowered: Seq<char>) -> FileType {
    if lowered == seq!['j', 'p', 'g'] || lowered == seq!['j', 'p', 'e', 'g'] {
        FileType::JPG
    } else if lowered == seq!['p', 'n', 'g'] {
        FileType::PNG
    } else {
        FileType::UNKNOWN
    }
}

/// The extension that the raster artifacts of a kind carry.
pub open spec fn raster_extension(kind: FileType) -> Seq<char> {
    match kind {
        FileType::JPG => seq!['j', 'p', 'g'],
        FileType::PNG => seq!['p', 'n', 'g'],
        FileType::UNKNOWN => seq!['i', 'm', 'g'],
    }
}

/// `{base}_{width}.{ext}`
pub open spec fn artifact_name(base: Seq<char>, width: nat, ext: Seq<char>) -> Seq<char> {
    base + seq!['_'] + decimal(width) + seq!['.'] + ext
}

/// The name of the resized raster made for `width`.
pub open spec fn raster_name(base: Seq<char>, width: nat, kind: FileType) -> Seq<char> {
    artifact_name(base, width, raster_extension(kind))
}

/// The name of the compressed container made for `width`.
pub open spec fn container_name(base: Seq<char>, width: nat) -> Seq<char> {
    artifact_name(base, width, seq!['d', 'd', 's'])
}

impl FileType {
    /// The kind that an already lower-cased extension names.
    pub fn from_lowered(lowered: &str) -> (r: FileType)
        ensures
            r == file_type_of(lowered@),
    {
        proof {
            reveal_strlit("jpg");
            reveal_strlit("jpeg");
            reveal_strlit("png");
            assert("jpg"@ =~= seq!['j', 'p', 'g']);
            assert("jpeg"@ =~= seq!['j', 'p', 'e', 'g']);
            assert("png"@ =~= seq!['p', 'n', 'g']);
        }
        if str_equal(lowered, "jpg") || str_equal(lowered, "jpeg") {
            FileType::JPG
        } else if str_equal(lowered, "png") {
            FileType::PNG
        } else {
            FileType::UNKNOWN
        }
    }

    /// The kind that a file extension names, in any letter case.
    pub fn from_extension(ext: &str) -> (r: FileType)
        ensures
            r == file_type_of(lower_of(ext@)),
    {
        let lowered = lowercase(ext);
        FileType::from_lowered(lowered.as_str())
    }

    /// The extension that the raster artifacts of this kind carry.
    pub fn extension(&self) -> (r: &'static str)
        ensures
            r@ == raster_extension(*self),
    {
        proof {
            reveal_strlit("jpg");
            reveal_strlit("png");
            reveal_strlit("img");
            assert("jpg"@ =~= seq!['j', 'p', 'g']);
            assert("png"@ =~= seq!['p', 'n', 'g']);
            assert("img"@ =~= seq!['i', 'm', 'g']);
        }
        match self {
            FileType::JPG => "jpg",
            FileType::PNG => "png",
            FileType::UNKNOWN => "img",
        }
    }

    /// The name shown for this kind.
    pub fn label(&self) -> (r: &'static str)
        ensures
            *self == FileType::JPG ==> r@ == seq!['J', 'P', 'G'],
            *self == FileType::PNG ==> r@ == seq!['P', 'N', 'G'],
            *self == FileType::UNKNOWN ==> r@ == seq!['U', 'n', 'k', 'n', 'o', 'w', 'n'],
    {
        proof {
            reveal_strlit("JPG");
            reveal_strlit("PNG");
            reveal_strlit("Unknown");
            assert("JPG"@ =~= seq!['J', 'P', 'G']);
            assert("PNG"@ =~= seq!['P', 'N', 'G']);
            assert("Unknown"@ =~= seq!['U', 'n', 'k', 'n', 'o', 'w', 'n']);
        }
        match self {
            FileType::JPG => "JPG",
            FileType::PNG => "PNG",
            FileType::UNKNOWN => "Unknown",
        }
    }
}

fn build_artifact_name(base: &str, width: u32, ext: &str) -> (r: String)
    ensures
        r@ == artifact_name(base@, width as nat, ext@),
{
    proof {
        reveal_strlit("_");
        reveal_strlit(".");
        assert("_"@ =~= seq!['_']);
        assert("."@ =~= seq!['.']);
    }
    let mut s = String::from_str(base);
    s.append("_");
    push_decimal(&mut s, width as u64);
    s.append(".");
    s.append(ext);
    s
}

/// The file name of the resized raster made for `width`.
pub fn raster_file_name(base: &str, width: u32, kind: FileType) -> (r: String)
    ensures
        r@ == raster_name(base@, width as nat, kind),
{
    build_artifact_name(base, width, kind.extension())
}

/// The file name of the compressed container made for `width`.
pub fn container_file_name(base: &str, width: u32) -> (r: String)
    ensures
        r@ == container_name(base@, width as nat),
{
    proof {
        reveal_strlit("dds");
        assert("dds"@ =~= seq!['d', 'd', 's']);
    }
    build_artifact_name(base, width, "dds")
}

} // verus!
