//! Which files are imported, and as what.
use vstd::prelude::*;
use vstd::string::StringSliceAdditionalSpecFns;
use crate::importer::ImportError;
use crate::text::is_word;

verus! {

/// The formats that are imported by a file's extension.
#[derive(Clone, Copy, Debug, PartialEq, Eq, Structural)]
pub enum SupportedFileExtensions {
    OBJ,
    STL,
    COLLADA,
}

/// A byte with an upper-case ASCII letter made lower-case.
pub open spec fn lower(b: u8) -> u8 {
    if 65 <= b <= 90 {
        (b + 32) as u8
    } else {
        b
    }
}

/// A byte string with its upper-case ASCII letters made lower-case.
pub open spec fn lowered(s: Seq<u8>) -> Seq<u8> {
    Seq::new(s.len(), |i: int| lower(s[i]))
}

fn to_lower(s: &[u8]) -> (r: Vec<u8>)
    ensures
        r@ == lowered(s@),
{
    let mut out: Vec<u8> = Vec::new();
    let mut i: usize = 0;
    while i < s.len()
        invariant
            i <= s@.len(),
            out@ == lowered(s@).take(i as int),
        decreases s@.len() - i,
    {
        let b: u8 = s[i];
        let l: u8 = if 65 <= b && b <= 90 {
            b + 32
        } else {
            b
        };
        out.push(l);
        i += 1;
        assert(out@ =~= lowered(s@).take(i as int));
    }
    assert(lowered(s@).take(i as int) =~= lowered(s@));
    out
}

impl SupportedFileExtensions {
    /// The format of an extension: `obj`, `stl` or `dae`, in any mix of
    /// upper and lower case.
    pub open spec fn of_extension(s: Seq<u8>) -> Option<SupportedFileExtensions> {
        if lowered(s) == "obj".spec_bytes() {
            Some(SupportedFileExtensions::OBJ)
        } else if lowered(s) == "stl".spec_bytes() {
            Some(SupportedFileExtensions::STL)
        } else if lowered(s) == "dae".spec_bytes() {
            Some(SupportedFileExtensions::COLLADA)
        } else {
            None
        }
    }

    /// The format of an extension.
    pub fn from_str(s: &str) -> (r: Option<SupportedFileExtensions>)
        ensures
            r == SupportedFileExtensions::of_extension(s.spec_bytes()),
    {
        let l = to_lower(s.as_bytes());
        if is_word(l.as_slice(), "obj") {
            Some(SupportedFileExtensions::OBJ)
        } else if is_word(l.as_slice(), "stl") {
            Some(SupportedFileExtensions::STL)
        } else if is_word(l.as_slice(), "dae") {
            Some(SupportedFileExtensions::COLLADA)
        } else {
            None
        }
    }
}

/// The format of a file by its extension; no extension, or one that names
/// no format, is `UnsupportedFormat`.
pub open spec fn format_of(extension: Option<Seq<u8>>) -> Result<
    SupportedFileExtensions,
    ImportError,
> {
    match extension {
        None => Err(ImportError::UnsupportedFormat),
        Some(e) => match SupportedFileExtensions::of_extension(e) {
            Some(f) => Ok(f),
            None => Err(ImportError::UnsupportedFormat),
        },
    }
}

/// What the extension of a file holds.
pub open spec fn extension_view(extension: Option<&str>) -> Option<Seq<u8>> {
    match extension {
        Some(e) => Some(e.spec_bytes()),
        None => None,
    }
}

/// Chooses the importer for a file by the file's extension.
pub fn select_format(extension: Option<&str>) -> (r: Result<SupportedFileExtensions, ImportError>)
    ensures
        r == format_of(extension_view(extension)),
{
    match extension {
        None => Err(ImportError::UnsupportedFormat),
        Some(e) => match SupportedFileExtensions::from_str(e) {
            Some(f) => Ok(f),
            None => Err(ImportError::UnsupportedFormat),
        },
    }
}

/// What is known of a path that was dropped on the program or picked in a
/// dialog.
#[derive(Clone, Debug)]
pub struct PathEntry {
    pub is_dir: bool,
    pub extension: Option<String>,
}

/// What is done with a path.
#[derive(Clone, Copy, Debug, PartialEq, Eq, Structural)]
pub enum ImportDecision {
    /// Passed over: a directory.
    SkipDirectory,
    /// Passed over: a file without an extension.
    SkipNoExtension,
    /// Passed over: a file whose extension names no format.
    SkipUnsupported,
    /// Imported as the given format.
    Import(SupportedFileExtensions),
}

impl PathEntry {
    /// What is done with the path: a directory is passed over, then a file
    /// without an extension, then one whose extension names no format; any
    /// other file is imported.
    pub open spec fn decision(self) -> ImportDecision {
        if self.is_dir {
            ImportDecision::SkipDirectory
        } else {
            match self.extension {
                None => ImportDecision::SkipNoExtension,
                Some(e) => match SupportedFileExtensions::of_extension(vstd::utf8::encode_utf8(e@)) {
                    None => ImportDecision::SkipUnsupported,
                    Some(f) => ImportDecision::Import(f),
                },
            }
        }
    }

    /// What is done with the path.
    pub fn decide(&self) -> (r: ImportDecision)
        ensures
            r == self.decision(),
    {
        if self.is_dir {
            ImportDecision::SkipDirectory
        } else {
            match &self.extension {
                None => ImportDecision::SkipNoExtension,
                Some(e) => match SupportedFileExtensions::from_str(e.as_str()) {
                    None => ImportDecision::SkipUnsupported,
                    Some(f) => ImportDecision::Import(f),
                },
            }
        }
    }
}

/// Decides for each path, in order, whether it is imported and as what.
pub fn import_models_from_paths(paths: &Vec<PathEntry>) -> (r: Vec<ImportDecision>)
    ensures
        r@.len() == paths@.len(),
        forall|i: int| 0 <= i < paths@.len() ==> r@[i] == (#[trigger] paths@[i]).decision(),
{
    let mut out: Vec<ImportDecision> = Vec::new();
    let mut i: usize = 0;
    while i < paths.len()
        invariant
            i <= paths@.len(),
            out@.len() == i,
            forall|k: int| 0 <= k < i ==> out@[k] == (#[trigger] paths@[k]).decision(),
        decreases paths@.len() - i,
    {
        out.push(paths[i].decide());
        i += 1;
    }
    out
}

} // verus!
