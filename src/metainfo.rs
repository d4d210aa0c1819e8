//! The fields of a `.torrent` descriptor that the download core reads.
use vstd::prelude::*;

verus! {

/// Length of one SHA-1 digest in the `pieces` table.
pub const DIGEST_LENGTH: usize = 20;

#[derive(Debug, PartialEq, Eq)]
pub struct FilesDict {
    pub length: u64,
    pub md5: Option<String>,
    pub path: Vec<String>,
}

#[derive(Debug, PartialEq, Eq)]
pub struct InfoMultiFile {
    pub name: String,
    pub piece_length: u64,
    pub pieces: Vec<u8>,
    pub files: Vec<FilesDict>,
}

#[derive(Debug, PartialEq, Eq)]
pub struct InfoSingleFile {
    pub name: String,
    pub length: u64,
    pub md5: Option<String>,
    pub piece_length: u64,
    pub pieces: Vec<u8>,
}

/// A single file or a list of files.
#[derive(Debug, PartialEq, Eq)]
pub enum InfoEnum {
    MultiFile(InfoMultiFile),
    SingleFile(InfoSingleFile),
}

#[derive(Debug, PartialEq, Eq)]
pub struct MetaInfo {
    pub info: InfoEnum,
    pub announce: String,
    pub announce_list: Option<Vec<Vec<String>>>,
    pub creation_date: Option<u64>,
    pub comment: Option<String>,
    pub created_by: Option<String>,
    pub encoding: Option<String>,
}

impl InfoEnum {
    pub open spec fn name_spec(&self) -> Seq<char> {
        match self {
            InfoEnum::MultiFile(m) => m.name@,
            InfoEnum::SingleFile(s) => s.name@,
        }
    }

    pub open spec fn pieces_spec(&self) -> Seq<u8> {
        match self {
            InfoEnum::MultiFile(m) => m.pieces@,
            InfoEnum::SingleFile(s) => s.pieces@,
        }
    }

    pub open spec fn piece_length_spec(&self) -> u64 {
        match self {
            InfoEnum::MultiFile(m) => m.piece_length,
            InfoEnum::SingleFile(s) => s.piece_length,
        }
    }

    pub fn name(&self) -> (r: &str)
        ensures
            r@ == self.name_spec(),
    {
        match self {
            InfoEnum::MultiFile(m) => m.name.as_str(),
            InfoEnum::SingleFile(s) => s.name.as_str(),
        }
    }

    pub fn pieces(&self) -> (r: &Vec<u8>)
        ensures
            r@ == self.pieces_spec(),
    {
        match self {
            InfoEnum::MultiFile(m) => &m.pieces,
            InfoEnum::SingleFile(s) => &s.pieces,
        }
    }

    pub fn piece_length(&self) -> (r: u64)
        ensures
            r == self.piece_length_spec(),
    {
        match self {
            InfoEnum::MultiFile(m) => m.piece_length,
            InfoEnum::SingleFile(s) => s.piece_length,
        }
    }
}

impl MetaInfo {
    pub fn info(&self) -> (r: &InfoEnum)
        ensures
            r == &self.info,
    {
        &self.info
    }

    pub fn get_tracker_urls(&self) -> (r: &str)
        ensures
            r@ == self.announce@,
    {
        self.announce.as_str()
    }
}

} // verus!
