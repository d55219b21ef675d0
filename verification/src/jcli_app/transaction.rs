//! What the transaction commands share.

use crate::blockcfg::LinearFee;
use std::path::PathBuf;
use vstd::prelude::*;

verus! {

/// The fee settings that the transaction commands share. Each is 0 where
/// the command line does not give it.
#[derive(Debug)]
pub struct CommonFees {
    pub constant: u64,
    pub coefficient: u64,
    pub certificate: u64,
}

impl CommonFees {
    /// The fee that the settings describe.
    pub fn linear_fee(&self) -> (r: LinearFee)
        ensures
            r == (LinearFee {
                constant: self.constant,
                coefficient: self.coefficient,
                certificate: self.certificate,
            }),
    {
        LinearFee::new(self.constant, self.coefficient, self.certificate)
    }
}


/// `PathBuf` of std: an owned path of the file system.
#[verifier::external_type_specification]
#[verifier::external_body]
pub struct ExPathBuf(PathBuf);

/// The text of a path.
pub uninterp spec fn spec_path_text(path: PathBuf) -> Seq<char>;

/// `PathBuf::default` of std: the empty path.
#[verifier::external_body]
fn empty_path() -> (r: PathBuf)
    ensures
        spec_path_text(r) == Seq::<char>::empty(),
{
    PathBuf::default()
}

/// Where the transaction commands keep the transaction that is being built:
/// a file, or the standard input and output where none is given.
#[derive(Debug)]
pub struct CommonTransaction {
    pub staging_file: Option<PathBuf>,
}

/// The path that the option holds, and the empty path where it holds none.
pub fn path_to_path_buf(path: &Option<PathBuf>) -> (r: PathBuf)
    ensures
        match *path {
            Some(p) => r == p,
            None => spec_path_text(r) == Seq::<char>::empty(),
        },
{
    match path {
        Some(path) => copy_path(path),
        None => empty_path(),
    }
}

/// `Path::to_path_buf` of std: an owned copy of the path.
#[verifier::external_body]
fn copy_path(path: &PathBuf) -> (r: PathBuf)
    ensures
        r == *path,
{
    path.to_path_buf()
}

} // verus!
