//! A pair of files found to hold the same content.

use vstd::prelude::*;

verus! {

/// Two paths whose files were found to be duplicates of each other.
pub struct DuplicatePackage {
    file_one: String,
    file_two: String,
}

impl View for DuplicatePackage {
    type V = (Seq<char>, Seq<char>);

    closed spec fn view(&self) -> (Seq<char>, Seq<char>) {
        (self.file_one@, self.file_two@)
    }
}

impl DuplicatePackage {
    pub fn new(file_one: String, file_two: String) -> (r: DuplicatePackage)
        ensures
            r@ == (file_one@, file_two@),
    {
        DuplicatePackage { file_one: file_one, file_two: file_two }
    }

    pub fn get_file_one(&self) -> (r: &String)
        ensures
            r@ == self@.0,
    {
        &self.file_one
    }

    pub fn get_file_two(&self) -> (r: &String)
        ensures
            r@ == self@.1,
    {
        &self.file_two
    }
}

} // verus!
