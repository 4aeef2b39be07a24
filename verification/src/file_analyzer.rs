//! One file's classification-ready shape: its stem and extension split from
//! the file name, a content-detected type label, and either a bounded text
//! preview or an explicit unparsable marker. Reading bytes from disk and
//! running the content extractor happen outside the library; assembling and
//! judging what they hand back is verified here.
use vstd::prelude::*;

use crate::scanner::after_last_slash;
use crate::text::str_eq;

verus! {

/// What could be read of a file's content: a bounded preview, or the reason
/// none could be extracted.
pub enum FileContent {
    Preview(String),
    Unparsable(String),
}

/// Mathematical image of a `FileContent`.
pub enum FileContentV {
    Preview(Seq<char>),
    Unparsable(Seq<char>),
}

impl View for FileContent {
    type V = FileContentV;

    open spec fn view(&self) -> FileContentV {
        match self {
            FileContent::Preview(s) => FileContentV::Preview(s@),
            FileContent::Unparsable(s) => FileContentV::Unparsable(s@),
        }
    }
}

/// A scanned file with everything the classifier wants to know about it.
pub struct AnalyzedFile {
    pub path: String,
    pub name: String,
    pub extension: Option<String>,
    pub content: FileContent,
    pub detected_type: String,
    pub size: u64,
}

/// Mathematical image of an `AnalyzedFile`.
pub struct AnalyzedFileV {
    pub path: Seq<char>,
    pub name: Seq<char>,
    pub extension: Option<Seq<char>>,
    pub content: FileContentV,
    pub detected_type: Seq<char>,
    pub size: nat,
}

impl View for AnalyzedFile {
    type V = AnalyzedFileV;

    open spec fn view(&self) -> AnalyzedFileV {
        AnalyzedFileV {
            path: self.path@,
            name: self.name@,
            extension: match self.extension {
                Some(ref e) => Some(e@),
                None => None,
            },
            content: self.content@,
            detected_type: self.detected_type@,
            size: self.size as nat,
        }
    }
}

/// The extension of a file name: the part after the last dot, provided that
/// dot is not the name's first character. A name without such a dot has no
/// extension; a name ending in a dot has the empty extension.
pub open spec fn spec_extension(name: Seq<char>) -> Option<Seq<char>>
    decreases name.len(),
{
    if name.len() <= 1 {
        None
    } else if name.last() == '.' {
        Some(Seq::empty())
    } else {
        match spec_extension(name.drop_last()) {
            Some(e) => Some(e.push(name.last())),
            None => None,
        }
    }
}

/// The stem of a file name: what remains before the extension's dot, or the
/// whole name when there is no extension.
pub open spec fn spec_stem(name: Seq<char>) -> Seq<char> {
    match spec_extension(name) {
        Some(e) => name.subrange(0, name.len() - e.len() - 1),
        None => name,
    }
}

proof fn lemma_extension_none(name: Seq<char>)
    requires
        forall|j: int| 1 <= j < name.len() ==> name[j] != '.',
    ensures
        spec_extension(name) is None,
    decreases name.len(),
{
    if name.len() > 1 {
        lemma_extension_none(name.drop_last());
    }
}

proof fn lemma_extension_at(name: Seq<char>, k: int)
    requires
        1 <= k < name.len(),
        name[k] == '.',
        forall|j: int| k < j < name.len() ==> name[j] != '.',
    ensures
        spec_extension(name) == Some(name.subrange(k + 1, name.len() as int)),
    decreases name.len(),
{
    if k == name.len() - 1 {
        assert(name.subrange(k + 1, name.len() as int) =~= Seq::<char>::empty());
    } else {
        lemma_extension_at(name.drop_last(), k);
        assert(name.drop_last().subrange(k + 1, name.len() - 1) =~= name.subrange(
            k + 1,
            name.len() - 1,
        ));
        assert(name.subrange(k + 1, name.len() - 1).push(name.last()) =~= name.subrange(
            k + 1,
            name.len() as int,
        ));
    }
}

/// Split a file name into its stem and its extension.
pub fn split_file_name(name: &str) -> (r: (String, Option<String>))
    ensures
        r.0@ == spec_stem(name@),
        match r.1 {
            Some(e) => spec_extension(name@) == Some(e@),
            None => spec_extension(name@) is None,
        },
{
    let n = name.unicode_len();
    if n == 0 {
        let empty = String::new();
        proof {
            assert(empty@ =~= name@);
        }
        return (empty, None);
    }
    let mut last_dot: Option<usize> = None;
    for i in 1..n
        invariant
            n == name@.len(),
            match last_dot {
                Some(k) => 1 <= k < i && name@[k as int] == '.' && forall|j: int|
                    k < j < i ==> name@[j] != '.',
                None => forall|j: int| 1 <= j < i ==> name@[j] != '.',
            },
    {
        if name.get_char(i) == '.' {
            last_dot = Some(i);
        }
    }
    match last_dot {
        Some(k) => {
            proof {
                lemma_extension_at(name@, k as int);
            }
            let stem = name.substring_char(0, k);
            let ext = name.substring_char(k + 1, n);
            proof {
                assert(name@.subrange(0, k as int) =~= name@.subrange(
                    0,
                    name@.len() - (n - (k + 1)) - 1,
                ));
            }
            (stem.to_owned(), Some(ext.to_owned()))
        },
        None => {
            proof {
                if n == 0 {
                } else {
                    lemma_extension_none(name@);
                }
            }
            (name.to_owned(), None)
        },
    }
}

/// The type label the detector's mime answer determines: the mime itself,
/// `Executable` for a raw byte stream that carries the executable
/// extension, and `Unknown` when nothing was recognized.
pub open spec fn spec_type_label(mime: Option<Seq<char>>, extension: Option<Seq<char>>) -> Seq<
    char,
> {
    match mime {
        Some(m) => if m == "application/octet-stream"@ && extension == Some("exe"@) {
            "Executable"@
        } else {
            m
        },
        None => "Unknown"@,
    }
}

/// What `infer::get` answers for given leading bytes: a mime label, or
/// nothing when no signature matches. The answer depends on the bytes
/// alone.
pub uninterp spec fn mime_of(bytes: Seq<u8>) -> Option<Seq<char>>;

/// Relies on `infer::get`: signature-based type detection, a pure function
/// of the leading bytes, yielding a mime label or nothing. Every label in
/// its matcher table is a nonempty literal.
#[verifier::external_body]
fn detect_mime(buffer: &[u8]) -> (r: Option<String>)
    ensures
        match r {
            Some(s) => mime_of(buffer@) == Some(s@) && s@.len() > 0,
            None => mime_of(buffer@) == None::<Seq<char>>,
        },
{
    infer::get(buffer).map(|kind| kind.mime_type().to_string())
}

/// Detect a file's type label from its leading bytes and its extension. The
/// label is never empty: a recognized mime, `Executable` or `Unknown`.
pub fn detect_file_type(buffer: &[u8], extension: Option<&str>) -> (r: String)
    ensures
        r@ == spec_type_label(
            mime_of(buffer@),
            match extension {
                Some(e) => Some(e@),
                None => None,
            },
        ),
        r@.len() > 0,
{
    proof {
        reveal_strlit("Executable");
        reveal_strlit("Unknown");
    }
    match detect_mime(buffer) {
        Some(mime) => {
            let is_exe = match extension {
                Some(e) => str_eq(mime.as_str(), "application/octet-stream") && str_eq(e, "exe"),
                None => false,
            };
            if is_exe {
                "Executable".to_owned()
            } else {
                mime
            }
        },
        None => "Unknown".to_owned(),
    }
}

impl AnalyzedFile {
    /// Assemble the record for one scanned file from what was read of it:
    /// its path, its size, its leading bytes, and the extractor's preview or
    /// the text of the failure.
    pub fn from_scan(path: &str, size: u64, head: &[u8], preview: Result<String, String>) -> (r:
        AnalyzedFile)
        ensures
            r@.path == path@,
            r@.size == size as nat,
            r@.name == spec_stem(after_last_slash(path@)),
            r@.extension == spec_extension(after_last_slash(path@)),
            r@.detected_type == spec_type_label(
                mime_of(head@),
                spec_extension(after_last_slash(path@)),
            ),
            r@.detected_type.len() > 0,
            r@.content == match preview {
                Ok(p) => FileContentV::Preview(p@),
                Err(e) => FileContentV::Unparsable("Failed to read file content: "@ + e@),
            },
    {
        let file_name = crate::scanner::file_name_of(path);
        let (name, extension) = split_file_name(file_name.as_str());
        let detected_type = detect_file_type(
            head,
            match extension {
                Some(ref e) => Some(e.as_str()),
                None => None,
            },
        );
        let content = match preview {
            Ok(p) => FileContent::Preview(p),
            Err(e) => {
                let mut msg: String = "Failed to read file content: ".to_owned();
                msg.append(e.as_str());
                FileContent::Unparsable(msg)
            },
        };
        AnalyzedFile { path: path.to_owned(), name, extension, content, detected_type, size }
    }

    /// The detected type label, as reported to the oracle.
    pub fn get_type_description(&self) -> (r: String)
        ensures
            r@ == self.detected_type@,
    {
        self.detected_type.clone()
    }
}

} // verus!
