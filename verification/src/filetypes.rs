//! The kinds of file that a query can read, told apart by the last part of the
//! file's name.

use crate::parser::{extension, extension_of, Query, QueryView};
use crate::text::str_eq;
use vstd::prelude::*;

verus! {

/// The kinds of file that hold several sheets.
#[derive(Clone, Copy, Debug, PartialEq, Eq, Structural)]
pub enum MultiSheetFileType {
    ODS,
    XLA,
    XLAM,
    XLS,
    XLSB,
    XLSM,
    XLSX,
}

/// The kinds of file that hold one table.
#[derive(Clone, Copy, Debug, PartialEq, Eq, Structural)]
pub enum SingleSheetFileType {
    CSV,
}

/// A kind of file.
#[derive(Clone, Copy, Debug, PartialEq, Eq, Structural)]
pub enum FileType {
    SingleSheetFileType(SingleSheetFileType),
    MultiSheetFiletype(MultiSheetFileType),
}

/// The name of a kind of file with several sheets.
pub open spec fn multi_sheet_name(t: MultiSheetFileType) -> Seq<char> {
    match t {
        MultiSheetFileType::ODS => "ods"@,
        MultiSheetFileType::XLA => "xla"@,
        MultiSheetFileType::XLAM => "xlam"@,
        MultiSheetFileType::XLS => "xls"@,
        MultiSheetFileType::XLSB => "xlsb"@,
        MultiSheetFileType::XLSM => "xlsm"@,
        MultiSheetFileType::XLSX => "xlsx"@,
    }
}

/// The name of a kind of file: the last part of the names of such files, in
/// small letters.
pub open spec fn file_type_name(t: FileType) -> Seq<char> {
    match t {
        FileType::SingleSheetFileType(SingleSheetFileType::CSV) => "csv"@,
        FileType::MultiSheetFiletype(m) => multi_sheet_name(m),
    }
}

/// The kind of file whose name is `name`.
pub open spec fn file_type_of(name: Seq<char>) -> Option<FileType> {
    if name == "csv"@ {
        Some(FileType::SingleSheetFileType(SingleSheetFileType::CSV))
    } else if name == "xlsx"@ {
        Some(FileType::MultiSheetFiletype(MultiSheetFileType::XLSX))
    } else if name == "ods"@ {
        Some(FileType::MultiSheetFiletype(MultiSheetFileType::ODS))
    } else if name == "xla"@ {
        Some(FileType::MultiSheetFiletype(MultiSheetFileType::XLA))
    } else if name == "xlam"@ {
        Some(FileType::MultiSheetFiletype(MultiSheetFileType::XLAM))
    } else if name == "xls"@ {
        Some(FileType::MultiSheetFiletype(MultiSheetFileType::XLS))
    } else if name == "xlsb"@ {
        Some(FileType::MultiSheetFiletype(MultiSheetFileType::XLSB))
    } else if name == "xlsm"@ {
        Some(FileType::MultiSheetFiletype(MultiSheetFileType::XLSM))
    } else {
        None
    }
}

/// What `str::to_lowercase` makes of a text.
pub uninterp spec fn lowercase_of(s: Seq<char>) -> Seq<char>;

/// `s` in lower case, as `str::to_lowercase` of the standard library gives it:
/// each character replaced by what Unicode maps it to, which may be more than
/// one character.
#[verifier::external_body]
fn to_lowercase(s: &str) -> (r: String)
    ensures
        r@ == lowercase_of(s@),
{
    s.to_lowercase()
}

impl MultiSheetFileType {
    /// The name of this kind of file.
    pub fn to_string(&self) -> (r: String)
        ensures
            r@ == multi_sheet_name(*self),
    {
        match self {
            MultiSheetFileType::ODS => "ods".to_owned(),
            MultiSheetFileType::XLA => "xla".to_owned(),
            MultiSheetFileType::XLAM => "xlam".to_owned(),
            MultiSheetFileType::XLS => "xls".to_owned(),
            MultiSheetFileType::XLSB => "xlsb".to_owned(),
            MultiSheetFileType::XLSM => "xlsm".to_owned(),
            MultiSheetFileType::XLSX => "xlsx".to_owned(),
        }
    }
}

impl SingleSheetFileType {
    /// The name of this kind of file.
    pub fn to_string(&self) -> (r: String)
        ensures
            r@ == "csv"@,
    {
        match self {
            SingleSheetFileType::CSV => "csv".to_owned(),
        }
    }
}

impl FileType {
    /// The name of this kind of file.
    pub fn to_string(&self) -> (r: String)
        ensures
            r@ == file_type_name(*self),
    {
        match self {
            FileType::MultiSheetFiletype(s) => s.to_string(),
            FileType::SingleSheetFileType(s) => s.to_string(),
        }
    }

    /// Whether files of this kind hold several sheets, so that a query must
    /// name the sheet that it reads.
    pub fn has_sheets(&self) -> (r: bool)
        ensures
            r == (*self is MultiSheetFiletype),
    {
        match self {
            FileType::MultiSheetFiletype(_) => true,
            FileType::SingleSheetFileType(_) => false,
        }
    }

    /// The kind of file whose name, in small letters, is `name`.
    pub fn from_lowercase(name: &str) -> (r: Option<FileType>)
        ensures
            r == file_type_of(name@),
    {
        if str_eq(name, "csv") {
            Some(FileType::SingleSheetFileType(SingleSheetFileType::CSV))
        } else if str_eq(name, "xlsx") {
            Some(FileType::MultiSheetFiletype(MultiSheetFileType::XLSX))
        } else if str_eq(name, "ods") {
            Some(FileType::MultiSheetFiletype(MultiSheetFileType::ODS))
        } else if str_eq(name, "xla") {
            Some(FileType::MultiSheetFiletype(MultiSheetFileType::XLA))
        } else if str_eq(name, "xlam") {
            Some(FileType::MultiSheetFiletype(MultiSheetFileType::XLAM))
        } else if str_eq(name, "xls") {
            Some(FileType::MultiSheetFiletype(MultiSheetFileType::XLS))
        } else if str_eq(name, "xlsb") {
            Some(FileType::MultiSheetFiletype(MultiSheetFileType::XLSB))
        } else if str_eq(name, "xlsm") {
            Some(FileType::MultiSheetFiletype(MultiSheetFileType::XLSM))
        } else {
            None
        }
    }

    /// The kind of file that the last part of a file's name tells, in letters
    /// of either case; none where there is no such part or it tells no kind.
    pub fn parse_to_filetype(candidate: Option<&str>) -> (r: Option<FileType>)
        ensures
            r == match candidate {
                Some(c) => file_type_of(lowercase_of(c@)),
                None => None,
            },
    {
        match candidate {
            Some(c) => {
                let lower = to_lowercase(c);
                FileType::from_lowercase(lower.as_str())
            },
            None => None,
        }
    }
}

/// What the file of a query turns out to be, before it is opened.
#[derive(Clone, Copy, Debug, PartialEq, Eq, Structural)]
pub enum FileCheck {
    /// A file of the kind held, and with a sheet named where the kind has
    /// sheets: the query can be run.
    Supported(FileType),
    /// A file of no kind that can be read.
    Unsupported,
    /// A file of the kind held, which has sheets, and no sheet named.
    SheetRequired(FileType),
}

/// What the file of `query` turns out to be: its kind is told by the last part
/// of its path, and a kind with several sheets asks for a sheet.
pub open spec fn file_check(query: QueryView) -> FileCheck {
    match file_type_of(lowercase_of(extension_of(query.file.path))) {
        None => FileCheck::Unsupported,
        Some(kind) => if kind is MultiSheetFiletype && query.file.sheet is None {
            FileCheck::SheetRequired(kind)
        } else {
            FileCheck::Supported(kind)
        },
    }
}

/// Checks the file of `query` before it is opened.
pub fn check_file(query: &Query) -> (r: FileCheck)
    ensures
        r == file_check(query@),
{
    let last = extension(query.file.path.as_str());
    match FileType::parse_to_filetype(Some(last.as_str())) {
        None => FileCheck::Unsupported,
        Some(kind) => if kind.has_sheets() && query.file.sheet.is_none() {
            FileCheck::SheetRequired(kind)
        } else {
            FileCheck::Supported(kind)
        },
    }
}

} // verus!
