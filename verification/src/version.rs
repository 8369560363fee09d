//! Versions of the upload API.

use vstd::prelude::*;

verus! {

/// The version of the upload API.
#[derive(Clone, Copy, Debug, PartialEq, Eq, Structural)]
pub enum UploadApiVersion {
    Auto,
    V1,
    V2,
}

impl UploadApiVersion {
    /// How the version is written for the user.
    pub open spec fn text(self) -> Seq<char> {
        match self {
            UploadApiVersion::Auto => "auto"@,
            UploadApiVersion::V1 => "1"@,
            UploadApiVersion::V2 => "2"@,
        }
    }

    /// The name of the version.
    pub open spec fn name(self) -> Seq<char> {
        match self {
            UploadApiVersion::Auto => "Auto"@,
            UploadApiVersion::V1 => "V1"@,
            UploadApiVersion::V2 => "V2"@,
        }
    }

    /// How the version is written for the user.
    pub fn to_string(&self) -> (res: String)
        ensures
            res@ == self.text(),
            *self == UploadApiVersion::Auto ==> res@ == "auto"@,
            *self == UploadApiVersion::V1 ==> res@ == "1"@,
            *self == UploadApiVersion::V2 ==> res@ == "2"@,
    {
        match self {
            UploadApiVersion::Auto => "auto".to_owned(),
            UploadApiVersion::V1 => "1".to_owned(),
            UploadApiVersion::V2 => "2".to_owned(),
        }
    }

    /// The name of the version, for messages to developers.
    pub fn debug_name(&self) -> (res: String)
        ensures
            res@ == self.name(),
            *self == UploadApiVersion::Auto ==> res@ == "Auto"@,
            *self == UploadApiVersion::V1 ==> res@ == "V1"@,
            *self == UploadApiVersion::V2 ==> res@ == "V2"@,
    {
        match self {
            UploadApiVersion::Auto => "Auto".to_owned(),
            UploadApiVersion::V1 => "V1".to_owned(),
            UploadApiVersion::V2 => "V2".to_owned(),
        }
    }
}

} // verus!
