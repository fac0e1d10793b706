//! Attributes of one visited filesystem entry.
use vstd::prelude::*;
use crate::language::Language;
use crate::language::spec_detected_language;
use crate::language::detect_language;

verus! {

/// How many bytes of a file's content the language detector reads at most.
pub const READ_LIMIT: usize = 16 * 1024;

/// Attributes for a file.
#[derive(Debug, Clone)]
pub struct FileAttributes {
    /// Does the file have the platform's hidden attribute set?
    ///
    /// Always `false` on Unix.
    pub hidden: bool,
    /// Is the file an executable?
    pub executable: bool,
    /// The file's detected language, if any.
    pub language: Option<Language>,
}

/// Attributes for a directory.
#[derive(Debug, Clone)]
pub struct DirectoryAttributes {
    /// Does the directory have the platform's hidden attribute set?
    pub hidden: bool,
}

/// Attributes for a symlink, which is never followed or inspected.
#[derive(Debug, Clone)]
pub struct SymlinkAttributes;

/// Attributes for a tree entry: exactly one variant is active, fixed at
/// classification from the filesystem's reported type.
#[derive(Debug, Clone)]
pub enum Attributes {
    /// A directory.
    Directory(DirectoryAttributes),
    /// A file.
    File(FileAttributes),
    /// A symlink.
    Symlink(SymlinkAttributes),
}

impl FileAttributes {
    /// Builds the attributes of a file from its name, a bounded prefix of
    /// its content, and the platform's hidden and executable findings.
    pub fn new(name: &str, content: &Vec<u8>, hidden: bool, executable: bool) -> (r:
        FileAttributes)
        ensures
            r.hidden == hidden,
            r.executable == executable,
            r.language matches Some(l) ==> spec_detected_language(
                name@,
                content@,
                READ_LIMIT as nat,
            ) == Some(l@),
            r.language is None ==> spec_detected_language(name@, content@, READ_LIMIT as nat)
                is None,
    {
        let language = detect_language(name, content, READ_LIMIT);
        FileAttributes { hidden, executable, language }
    }

    /// Is the file hidden?
    pub fn is_hidden(&self) -> (r: bool)
        ensures
            r == self.hidden,
    {
        self.hidden
    }

    /// Is the file an executable?
    pub fn is_executable(&self) -> (r: bool)
        ensures
            r == self.executable,
    {
        self.executable
    }

    /// Get the file's language.
    pub fn language(&self) -> (r: &Option<Language>)
        ensures
            r == &self.language,
    {
        &self.language
    }
}

/// Whether the executable flag is set for a file, from the Unix permission
/// bits: any of the three execute bits counts.
pub open spec fn spec_executable_from_mode(mode: u32) -> bool {
    mode & 0o111u32 != 0
}

/// Decides the executable flag from Unix permission bits.
pub fn executable_from_mode(mode: u32) -> (r: bool)
    ensures
        r == spec_executable_from_mode(mode),
{
    mode & 0o111u32 != 0
}

/// Whether the hidden flag is set in a Windows file-attributes word, which
/// keeps it in bit 1.
pub open spec fn spec_hidden_from_file_attributes(bits: u32) -> bool {
    bits & 0x0002u32 != 0
}

/// Decides the hidden flag from a Windows file-attributes word.
pub fn hidden_from_file_attributes(bits: u32) -> (r: bool)
    ensures
        r == spec_hidden_from_file_attributes(bits),
{
    bits & 0x0002u32 != 0
}

/// What classification reports for the filesystem's findings: the symlink
/// check takes precedence, so a symlink to a directory is a symlink and is
/// never traversed.
pub open spec fn spec_classify(
    is_symlink: bool,
    is_dir: bool,
    hidden: bool,
    file: FileAttributes,
) -> Attributes {
    if is_symlink {
        Attributes::Symlink(SymlinkAttributes)
    } else if is_dir {
        Attributes::Directory(DirectoryAttributes { hidden })
    } else {
        Attributes::File(file)
    }
}

impl Attributes {
    /// Classifies an entry from the filesystem's findings. The symlink
    /// check takes precedence over the directory check.
    pub fn classify(is_symlink: bool, is_dir: bool, hidden: bool, file: FileAttributes) -> (r:
        Attributes)
        ensures
            r == spec_classify(is_symlink, is_dir, hidden, file),
    {
        if is_symlink {
            Attributes::Symlink(SymlinkAttributes)
        } else if is_dir {
            Attributes::Directory(DirectoryAttributes { hidden })
        } else {
            Attributes::File(file)
        }
    }

    /// Gets a reference to the file attributes.
    pub fn file(&self) -> (r: Option<&FileAttributes>)
        ensures
            r matches Some(f) ==> *self matches Attributes::File(g) && f == &g,
            r is None ==> !(*self matches Attributes::File(_)),
    {
        if let Attributes::File(attributes) = self {
            Some(attributes)
        } else {
            None
        }
    }

    /// Gets a reference to the directory attributes.
    pub fn directory(&self) -> (r: Option<&DirectoryAttributes>)
        ensures
            r matches Some(d) ==> *self matches Attributes::Directory(g) && d == &g,
            r is None ==> !(*self matches Attributes::Directory(_)),
    {
        if let Attributes::Directory(attributes) = self {
            Some(attributes)
        } else {
            None
        }
    }

    /// Gets a reference to the symlink attributes.
    pub fn symlink(&self) -> (r: Option<&SymlinkAttributes>)
        ensures
            r is Some <==> *self matches Attributes::Symlink(_),
    {
        if let Attributes::Symlink(attributes) = self {
            Some(attributes)
        } else {
            None
        }
    }

    /// Whether the entry carries the executable flag; only a file can.
    pub open spec fn spec_is_executable(&self) -> bool {
        match *self {
            Attributes::File(f) => f.executable,
            _ => false,
        }
    }

    /// Checks if the entry is an executable file.
    pub fn is_executable(&self) -> (r: bool)
        ensures
            r == self.spec_is_executable(),
    {
        match self {
            Attributes::File(f) => f.executable,
            _ => false,
        }
    }

    /// Whether the platform marked the entry hidden; symlinks never are.
    pub open spec fn spec_is_hidden(&self) -> bool {
        match *self {
            Attributes::File(f) => f.hidden,
            Attributes::Directory(d) => d.hidden,
            Attributes::Symlink(_) => false,
        }
    }

    /// Checks if the attributes mark the entry as hidden.
    pub fn is_hidden(&self) -> (r: bool)
        ensures
            r == self.spec_is_hidden(),
    {
        match self {
            Attributes::File(f) => f.hidden,
            Attributes::Directory(d) => d.hidden,
            Attributes::Symlink(_) => false,
        }
    }

    /// Checks if the attributes are for a file.
    pub fn is_file(&self) -> (r: bool)
        ensures
            r == (*self matches Attributes::File(_)),
    {
        matches!(self, Attributes::File(_))
    }

    /// Checks if the attributes are for a directory.
    pub fn is_directory(&self) -> (r: bool)
        ensures
            r == (*self matches Attributes::Directory(_)),
    {
        matches!(self, Attributes::Directory(_))
    }

    /// Checks if the attributes are for a symlink.
    pub fn is_symlink(&self) -> (r: bool)
        ensures
            r == (*self matches Attributes::Symlink(_)),
    {
        matches!(self, Attributes::Symlink(_))
    }
}

} // verus!
