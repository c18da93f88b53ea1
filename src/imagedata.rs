//! What a job knows of its source file before and after decoding.

use vstd::prelude::*;
use vstd::string::*;
use crate::filetype::{file_type_of, FileType};
use crate::paths::{extension_of, extension_or_empty, file_name_of, parent_of, stem, stem_of, FsPath};
use crate::text::lower_of;

verus! {

/// The paths, name, kind and channel count of one source image.
pub struct ImageData {
    /// Directory of the input file.
    pub file_path_in: FsPath,
    /// Directory that receives the artifacts.
    pub file_path_out: FsPath,
    /// File name without extension.
    pub file_name: String,
    /// Kind told by the extension.
    pub file_type: FileType,
    /// Channel count; 0 until the image is decoded.
    pub channels: u8,
}

/// The base name of the file that `p` names; empty where it names none.
pub open spec fn base_name_of(p: Seq<Seq<char>>) -> Seq<char> {
    match file_name_of(p) {
        Some(n) => stem_of(n),
        None => Seq::empty(),
    }
}

/// The extension of the file that `p` names; empty where it has none.
pub open spec fn extension_of_path(p: Seq<Seq<char>>) -> Seq<char> {
    match file_name_of(p) {
        Some(n) => match extension_of(n) {
            Some(e) => e,
            None => Seq::empty(),
        },
        None => Seq::empty(),
    }
}

impl ImageData {
    /// The job data of the input file `input`, whose mirrored path is `output`.
    pub fn from_paths(input: &FsPath, output: &FsPath) -> (r: ImageData)
        ensures
            r.file_path_in@ == parent_of(input@),
            r.file_path_out@ == parent_of(output@),
            r.file_name@ == base_name_of(input@),
            r.file_type == file_type_of(lower_of(extension_of_path(input@))),
            r.channels == 0,
    {
        proof {
            reveal_strlit("");
            assert(""@ =~= Seq::<char>::empty());
        }
        let (name, ext) = match input.file_name() {
            Some(n) => (String::from_str(stem(n)), extension_or_empty(n)),
            None => (String::from_str(""), ""),
        };
        ImageData {
            file_path_in: input.parent(),
            file_path_out: output.parent(),
            file_name: name,
            file_type: FileType::from_extension(ext),
            channels: 0,
        }
    }
}

} // verus!
