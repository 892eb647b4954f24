//! One filesystem entry of the vault: its paths and names, its classified
//! contents, and its creation time.
//!
//! Everything here is pure derivation from the path bytes; reading the
//! directory tree and the file bodies is the caller's job.

use vstd::prelude::*;

use crate::text;

verus! {

/// Index of the last occurrence of `b` in `s`, or `-1` when absent.
pub open spec fn find_last_spec(s: Seq<u8>, b: u8) -> int
    decreases s.len(),
{
    if s.len() == 0 {
        -1
    } else if s[s.len() - 1] == b {
        s.len() - 1
    } else {
        find_last_spec(s.drop_last(), b)
    }
}

pub proof fn lemma_find_last_spec(s: Seq<u8>, b: u8)
    ensures
        -1 <= find_last_spec(s, b) < s.len(),
        find_last_spec(s, b) >= 0 ==> s[find_last_spec(s, b)] == b,
        forall|j: int| find_last_spec(s, b) < j < s.len() ==> s[j] != b,
    decreases s.len(),
{
    if s.len() > 0 && s[s.len() - 1] != b {
        lemma_find_last_spec(s.drop_last(), b);
        assert forall|j: int| find_last_spec(s, b) < j < s.len() implies s[j] != b by {
            if j < s.len() - 1 {
                assert(s.drop_last()[j] != b);
            }
        }
    }
}

proof fn lemma_find_last_at(s: Seq<u8>, b: u8, i: int)
    requires
        -1 <= i < s.len(),
        i >= 0 ==> s[i] == b,
        forall|j: int| i < j < s.len() ==> s[j] != b,
    ensures
        find_last_spec(s, b) == i,
    decreases s.len(),
{
    if s.len() > 0 {
        if i == s.len() - 1 {
        } else {
            assert(s[s.len() - 1] != b);
            lemma_find_last_at(s.drop_last(), b, i);
        }
    }
}

/// Index of the last occurrence of `b`, or nothing when absent.
pub fn find_last(s: &[u8], b: u8) -> (r: Option<usize>)
    ensures
        match r {
            Some(i) => find_last_spec(s@, b) == i,
            None => find_last_spec(s@, b) == -1,
        },
{
    let mut i: usize = s.len();
    while i > 0
        invariant
            0 <= i <= s@.len(),
            forall|j: int| i <= j < s@.len() ==> s@[j] != b,
        decreases i,
    {
        if s[i - 1] == b {
            proof {
                lemma_find_last_at(s@, b, i - 1);
            }
            return Some(i - 1);
        }
        i = i - 1;
    }
    proof {
        lemma_find_last_at(s@, b, -1);
    }
    None
}

/// The segment of `p` after its last slash.
pub open spec fn basename_spec(p: Seq<u8>) -> Seq<u8> {
    p.skip(find_last_spec(p, 47) + 1)
}

/// The file name without its extension, as `Path::file_stem` reads it:
/// everything before the last dot, except that a name whose only dot is
/// the leading one keeps it.
pub open spec fn stem_spec(name: Seq<u8>) -> Seq<u8> {
    let k = find_last_spec(name, 46);
    if k <= 0 {
        name
    } else {
        name.take(k)
    }
}

/// The extension: everything after the last dot, empty when there is no
/// dot or the only dot leads the name.
pub open spec fn ext_spec(name: Seq<u8>) -> Seq<u8> {
    let k = find_last_spec(name, 46);
    if k <= 0 {
        Seq::empty()
    } else {
        name.skip(k + 1)
    }
}

/// The path relative to the vault root: the vault prefix dropped, then
/// one leading slash dropped.
pub open spec fn rel_path_spec(vault: Seq<u8>, abs: Seq<u8>) -> Seq<u8> {
    let r = if text::starts_with_spec(abs, vault) {
        abs.skip(vault.len() as int)
    } else {
        abs
    };
    if r.len() > 0 && r[0] == 47 {
        r.skip(1)
    } else {
        r
    }
}

/// `rel` with a trailing `.<ext_name>` dropped, when present.
pub open spec fn strip_dot_suffix_spec(rel: Seq<u8>, ext_name: Seq<u8>) -> Seq<u8> {
    let suffix = seq![46u8] + ext_name;
    if text::ends_with_spec(rel, suffix) {
        rel.take(rel.len() - suffix.len())
    } else {
        rel
    }
}

/// What a file's bytes are for the library: markdown text, a known kind
/// of media, or something else.
#[derive(Debug)]
pub enum Contents {
    Markdown { text: Vec<u8> },
    Image {},
    Audio {},
    Video {},
    Pdf {},
    Unknown {},
}

/// Spec-level shape of classified contents.
pub enum ContentsView {
    Markdown { text: Seq<u8> },
    Image,
    Audio,
    Video,
    Pdf,
    Unknown,
}

impl View for Contents {
    type V = ContentsView;

    open spec fn view(&self) -> ContentsView {
        match self {
            Contents::Markdown { text } => ContentsView::Markdown { text: text@ },
            Contents::Image {  } => ContentsView::Image,
            Contents::Audio {  } => ContentsView::Audio,
            Contents::Video {  } => ContentsView::Video,
            Contents::Pdf {  } => ContentsView::Pdf,
            Contents::Unknown {  } => ContentsView::Unknown,
        }
    }
}

impl Clone for Contents {
    fn clone(&self) -> (res: Self)
        ensures
            res@ == self@,
    {
        match self {
            Contents::Markdown { text } => Contents::Markdown { text: text.clone() },
            Contents::Image {  } => Contents::Image {  },
            Contents::Audio {  } => Contents::Audio {  },
            Contents::Video {  } => Contents::Video {  },
            Contents::Pdf {  } => Contents::Pdf {  },
            Contents::Unknown {  } => Contents::Unknown {  },
        }
    }
}

/// A recognized file extension.
#[derive(Debug, Clone, Copy, PartialEq, Eq, Structural)]
pub enum FileExtension {
    Png,
    Jpg,
    Jpeg,
    Gif,
    Bmp,
    Svg,
    Mp3,
    Wav,
    M4a,
    Ogg,
    ThreeGp,
    Flac,
    Mp4,
    Webm,
    Ogv,
    Mov,
    Mkv,
    Md,
    Txt,
    Html,
    Css,
    Js,
    Json,
    Xml,
    Yaml,
    Toml,
    Pdf,
    Unknown,
}

/// The broad kind of data behind an extension.
#[derive(Debug, Clone, Copy, PartialEq, Eq, Structural)]
pub enum ContentType {
    Markdown,
    Image,
    Audio,
    Video,
    Pdf,
    Unknown,
}

/// Which extension a lowercase extension string names.
pub open spec fn ext_parse_spec(s: Seq<u8>) -> FileExtension {
    if s == text::str_bytes("png") {
        FileExtension::Png
    } else if s == text::str_bytes("jpg") {
        FileExtension::Jpg
    } else if s == text::str_bytes("jpeg") {
        FileExtension::Jpeg
    } else if s == text::str_bytes("gif") {
        FileExtension::Gif
    } else if s == text::str_bytes("bmp") {
        FileExtension::Bmp
    } else if s == text::str_bytes("svg") {
        FileExtension::Svg
    } else if s == text::str_bytes("mp3") {
        FileExtension::Mp3
    } else if s == text::str_bytes("wav") {
        FileExtension::Wav
    } else if s == text::str_bytes("m4a") {
        FileExtension::M4a
    } else if s == text::str_bytes("ogg") {
        FileExtension::Ogg
    } else if s == text::str_bytes("3gp") {
        FileExtension::ThreeGp
    } else if s == text::str_bytes("flac") {
        FileExtension::Flac
    } else if s == text::str_bytes("mp4") {
        FileExtension::Mp4
    } else if s == text::str_bytes("webm") {
        FileExtension::Webm
    } else if s == text::str_bytes("ogv") {
        FileExtension::Ogv
    } else if s == text::str_bytes("mov") {
        FileExtension::Mov
    } else if s == text::str_bytes("mkv") {
        FileExtension::Mkv
    } else if s == text::str_bytes("md") {
        FileExtension::Md
    } else if s == text::str_bytes("txt") {
        FileExtension::Txt
    } else if s == text::str_bytes("html") {
        FileExtension::Html
    } else if s == text::str_bytes("css") {
        FileExtension::Css
    } else if s == text::str_bytes("js") {
        FileExtension::Js
    } else if s == text::str_bytes("json") {
        FileExtension::Json
    } else if s == text::str_bytes("xml") {
        FileExtension::Xml
    } else if s == text::str_bytes("yaml") {
        FileExtension::Yaml
    } else if s == text::str_bytes("toml") {
        FileExtension::Toml
    } else if s == text::str_bytes("pdf") {
        FileExtension::Pdf
    } else {
        FileExtension::Unknown
    }
}

/// The canonical name of an extension, as it prints.
pub open spec fn ext_name_spec(e: FileExtension) -> Seq<u8> {
    match e {
        FileExtension::Png => text::str_bytes("png"),
        FileExtension::Jpg => text::str_bytes("jpg"),
        FileExtension::Jpeg => text::str_bytes("jpeg"),
        FileExtension::Gif => text::str_bytes("gif"),
        FileExtension::Bmp => text::str_bytes("bmp"),
        FileExtension::Svg => text::str_bytes("svg"),
        FileExtension::Mp3 => text::str_bytes("mp3"),
        FileExtension::Wav => text::str_bytes("wav"),
        FileExtension::M4a => text::str_bytes("m4a"),
        FileExtension::Ogg => text::str_bytes("ogg"),
        FileExtension::ThreeGp => text::str_bytes("3gp"),
        FileExtension::Flac => text::str_bytes("flac"),
        FileExtension::Mp4 => text::str_bytes("mp4"),
        FileExtension::Webm => text::str_bytes("webm"),
        FileExtension::Ogv => text::str_bytes("ogv"),
        FileExtension::Mov => text::str_bytes("mov"),
        FileExtension::Mkv => text::str_bytes("mkv"),
        FileExtension::Md => text::str_bytes("md"),
        FileExtension::Txt => text::str_bytes("txt"),
        FileExtension::Html => text::str_bytes("html"),
        FileExtension::Css => text::str_bytes("css"),
        FileExtension::Js => text::str_bytes("js"),
        FileExtension::Json => text::str_bytes("json"),
        FileExtension::Xml => text::str_bytes("xml"),
        FileExtension::Yaml => text::str_bytes("yaml"),
        FileExtension::Toml => text::str_bytes("toml"),
        FileExtension::Pdf => text::str_bytes("pdf"),
        FileExtension::Unknown => text::str_bytes("unknown"),
    }
}

/// The kind of data an extension announces.
pub open spec fn content_type_spec(e: FileExtension) -> ContentType {
    match e {
        FileExtension::Png
        | FileExtension::Jpg
        | FileExtension::Jpeg
        | FileExtension::Gif
        | FileExtension::Bmp
        | FileExtension::Svg => ContentType::Image,
        FileExtension::Mp3
        | FileExtension::Wav
        | FileExtension::M4a
        | FileExtension::Ogg
        | FileExtension::ThreeGp
        | FileExtension::Flac => ContentType::Audio,
        FileExtension::Mp4
        | FileExtension::Webm
        | FileExtension::Ogv
        | FileExtension::Mov
        | FileExtension::Mkv => ContentType::Video,
        FileExtension::Md | FileExtension::Txt => ContentType::Markdown,
        FileExtension::Html
        | FileExtension::Css
        | FileExtension::Js
        | FileExtension::Json
        | FileExtension::Xml
        | FileExtension::Yaml
        | FileExtension::Toml => ContentType::Unknown,
        FileExtension::Pdf => ContentType::Pdf,
        FileExtension::Unknown => ContentType::Unknown,
    }
}

impl FileExtension {
    /// Reads an extension string; anything unrecognized is `Unknown`.
    pub fn from_str(s: &[u8]) -> (r: FileExtension)
        ensures
            r == ext_parse_spec(s@),
    {
        proof {
            reveal_strlit("png");
            reveal_strlit("jpg");
            reveal_strlit("jpeg");
            reveal_strlit("gif");
            reveal_strlit("bmp");
            reveal_strlit("svg");
            reveal_strlit("mp3");
            reveal_strlit("wav");
            reveal_strlit("m4a");
            reveal_strlit("ogg");
            reveal_strlit("3gp");
            reveal_strlit("flac");
            reveal_strlit("mp4");
            reveal_strlit("webm");
            reveal_strlit("ogv");
            reveal_strlit("mov");
            reveal_strlit("mkv");
            reveal_strlit("md");
            reveal_strlit("txt");
            reveal_strlit("html");
            reveal_strlit("css");
            reveal_strlit("js");
            reveal_strlit("json");
            reveal_strlit("xml");
            reveal_strlit("yaml");
            reveal_strlit("toml");
            reveal_strlit("pdf");
        }
        if text::bytes_eq(s, text::lit_bytes("png")) {
            FileExtension::Png
        } else if text::bytes_eq(s, text::lit_bytes("jpg")) {
            FileExtension::Jpg
        } else if text::bytes_eq(s, text::lit_bytes("jpeg")) {
            FileExtension::Jpeg
        } else if text::bytes_eq(s, text::lit_bytes("gif")) {
            FileExtension::Gif
        } else if text::bytes_eq(s, text::lit_bytes("bmp")) {
            FileExtension::Bmp
        } else if text::bytes_eq(s, text::lit_bytes("svg")) {
            FileExtension::Svg
        } else if text::bytes_eq(s, text::lit_bytes("mp3")) {
            FileExtension::Mp3
        } else if text::bytes_eq(s, text::lit_bytes("wav")) {
            FileExtension::Wav
        } else if text::bytes_eq(s, text::lit_bytes("m4a")) {
            FileExtension::M4a
        } else if text::bytes_eq(s, text::lit_bytes("ogg")) {
            FileExtension::Ogg
        } else if text::bytes_eq(s, text::lit_bytes("3gp")) {
            FileExtension::ThreeGp
        } else if text::bytes_eq(s, text::lit_bytes("flac")) {
            FileExtension::Flac
        } else if text::bytes_eq(s, text::lit_bytes("mp4")) {
            FileExtension::Mp4
        } else if text::bytes_eq(s, text::lit_bytes("webm")) {
            FileExtension::Webm
        } else if text::bytes_eq(s, text::lit_bytes("ogv")) {
            FileExtension::Ogv
        } else if text::bytes_eq(s, text::lit_bytes("mov")) {
            FileExtension::Mov
        } else if text::bytes_eq(s, text::lit_bytes("mkv")) {
            FileExtension::Mkv
        } else if text::bytes_eq(s, text::lit_bytes("md")) {
            FileExtension::Md
        } else if text::bytes_eq(s, text::lit_bytes("txt")) {
            FileExtension::Txt
        } else if text::bytes_eq(s, text::lit_bytes("html")) {
            FileExtension::Html
        } else if text::bytes_eq(s, text::lit_bytes("css")) {
            FileExtension::Css
        } else if text::bytes_eq(s, text::lit_bytes("js")) {
            FileExtension::Js
        } else if text::bytes_eq(s, text::lit_bytes("json")) {
            FileExtension::Json
        } else if text::bytes_eq(s, text::lit_bytes("xml")) {
            FileExtension::Xml
        } else if text::bytes_eq(s, text::lit_bytes("yaml")) {
            FileExtension::Yaml
        } else if text::bytes_eq(s, text::lit_bytes("toml")) {
            FileExtension::Toml
        } else if text::bytes_eq(s, text::lit_bytes("pdf")) {
            FileExtension::Pdf
        } else {
            FileExtension::Unknown
        }
    }

    /// The broad kind of data behind this extension.
    pub fn content_type(&self) -> (r: ContentType)
        ensures
            r == content_type_spec(*self),
    {
        match self {
            FileExtension::Png
            | FileExtension::Jpg
            | FileExtension::Jpeg
            | FileExtension::Gif
            | FileExtension::Bmp
            | FileExtension::Svg => ContentType::Image,
            FileExtension::Mp3
            | FileExtension::Wav
            | FileExtension::M4a
            | FileExtension::Ogg
            | FileExtension::ThreeGp
            | FileExtension::Flac => ContentType::Audio,
            FileExtension::Mp4
            | FileExtension::Webm
            | FileExtension::Ogv
            | FileExtension::Mov
            | FileExtension::Mkv => ContentType::Video,
            FileExtension::Md | FileExtension::Txt => ContentType::Markdown,
            FileExtension::Html
            | FileExtension::Css
            | FileExtension::Js
            | FileExtension::Json
            | FileExtension::Xml
            | FileExtension::Yaml
            | FileExtension::Toml => ContentType::Unknown,
            FileExtension::Pdf => ContentType::Pdf,
            FileExtension::Unknown => ContentType::Unknown,
        }
    }

    /// The canonical printed name of this extension.
    pub fn as_str(&self) -> (r: &'static str)
        ensures
            text::str_bytes(r) == ext_name_spec(*self),
            vstd::string::is_ascii(r),
    {
        let r = match self {
            FileExtension::Png => "png",
            FileExtension::Jpg => "jpg",
            FileExtension::Jpeg => "jpeg",
            FileExtension::Gif => "gif",
            FileExtension::Bmp => "bmp",
            FileExtension::Svg => "svg",
            FileExtension::Mp3 => "mp3",
            FileExtension::Wav => "wav",
            FileExtension::M4a => "m4a",
            FileExtension::Ogg => "ogg",
            FileExtension::ThreeGp => "3gp",
            FileExtension::Flac => "flac",
            FileExtension::Mp4 => "mp4",
            FileExtension::Webm => "webm",
            FileExtension::Ogv => "ogv",
            FileExtension::Mov => "mov",
            FileExtension::Mkv => "mkv",
            FileExtension::Md => "md",
            FileExtension::Txt => "txt",
            FileExtension::Html => "html",
            FileExtension::Css => "css",
            FileExtension::Js => "js",
            FileExtension::Json => "json",
            FileExtension::Xml => "xml",
            FileExtension::Yaml => "yaml",
            FileExtension::Toml => "toml",
            FileExtension::Pdf => "pdf",
            FileExtension::Unknown => "unknown",
        };
        proof {
            reveal_strlit("png");
            reveal_strlit("jpg");
            reveal_strlit("jpeg");
            reveal_strlit("gif");
            reveal_strlit("bmp");
            reveal_strlit("svg");
            reveal_strlit("mp3");
            reveal_strlit("wav");
            reveal_strlit("m4a");
            reveal_strlit("ogg");
            reveal_strlit("3gp");
            reveal_strlit("flac");
            reveal_strlit("mp4");
            reveal_strlit("webm");
            reveal_strlit("ogv");
            reveal_strlit("mov");
            reveal_strlit("mkv");
            reveal_strlit("md");
            reveal_strlit("txt");
            reveal_strlit("html");
            reveal_strlit("css");
            reveal_strlit("js");
            reveal_strlit("json");
            reveal_strlit("xml");
            reveal_strlit("yaml");
            reveal_strlit("toml");
            reveal_strlit("pdf");
            reveal_strlit("unknown");
        }
        r
    }
}

/// The file a path derives into, in spec terms.
pub open spec fn spec_file_new(
    vault_path: Seq<u8>,
    absolute_path: Seq<u8>,
    contents: ContentsView,
    created_at: u64,
) -> FileView {
    let name = basename_spec(absolute_path);
    let rel = rel_path_spec(vault_path, absolute_path);
    FileView {
        vault_path,
        absolute_path,
        file_name: name,
        file_name_without_extension: stem_spec(name),
        path_from_vault_root: rel,
        path_from_vault_root_without_extension: strip_dot_suffix_spec(
            rel,
            ext_name_spec(ext_parse_spec(ext_spec(name))),
        ),
        contents,
        created_at,
    }
}

/// One filesystem entry. Immutable once constructed; a moved file is
/// re-derived, not edited in place.
#[derive(Debug)]
pub struct File {
    /// The vault root this file was loaded under.
    pub vault_path: Vec<u8>,
    /// The full path on disk.
    pub absolute_path: Vec<u8>,
    /// For example `richard feynman.md`.
    pub file_name: Vec<u8>,
    /// For example `richard feynman`.
    pub file_name_without_extension: Vec<u8>,
    /// For example `people/richard feynman.md`.
    pub path_from_vault_root: Vec<u8>,
    /// For example `people/richard feynman`.
    pub path_from_vault_root_without_extension: Vec<u8>,
    /// The classified payload.
    pub contents: Contents,
    /// Seconds-scale creation stamp; the loader supplies it.
    pub created_at: u64,
}

/// Spec-level shape of a file.
pub struct FileView {
    pub vault_path: Seq<u8>,
    pub absolute_path: Seq<u8>,
    pub file_name: Seq<u8>,
    pub file_name_without_extension: Seq<u8>,
    pub path_from_vault_root: Seq<u8>,
    pub path_from_vault_root_without_extension: Seq<u8>,
    pub contents: ContentsView,
    pub created_at: u64,
}

impl View for File {
    type V = FileView;

    open spec fn view(&self) -> FileView {
        FileView {
            vault_path: self.vault_path@,
            absolute_path: self.absolute_path@,
            file_name: self.file_name@,
            file_name_without_extension: self.file_name_without_extension@,
            path_from_vault_root: self.path_from_vault_root@,
            path_from_vault_root_without_extension: self.path_from_vault_root_without_extension@,
            contents: self.contents@,
            created_at: self.created_at,
        }
    }
}

impl Clone for File {
    fn clone(&self) -> (res: Self)
        ensures
            res@ == self@,
    {
        File {
            vault_path: self.vault_path.clone(),
            absolute_path: self.absolute_path.clone(),
            file_name: self.file_name.clone(),
            file_name_without_extension: self.file_name_without_extension.clone(),
            path_from_vault_root: self.path_from_vault_root.clone(),
            path_from_vault_root_without_extension: self.path_from_vault_root_without_extension
                .clone(),
            contents: self.contents.clone(),
            created_at: self.created_at,
        }
    }
}

impl File {
    /// Whether all derived name fields agree with the path fields.
    pub open spec fn wf(self) -> bool {
        &&& self.file_name@ == basename_spec(self.absolute_path@)
        &&& self.file_name_without_extension@ == stem_spec(basename_spec(self.absolute_path@))
        &&& self.path_from_vault_root@ == rel_path_spec(self.vault_path@, self.absolute_path@)
        &&& self.path_from_vault_root_without_extension@ == strip_dot_suffix_spec(
            rel_path_spec(self.vault_path@, self.absolute_path@),
            ext_name_spec(ext_parse_spec(ext_spec(basename_spec(self.absolute_path@)))),
        )
    }

    /// Derives every name field from the absolute path and the vault root.
    /// The caller supplies the classified contents and the creation stamp;
    /// reading them is I/O and stays outside the library.
    #[verifier::rlimit(60)]
    pub fn new(vault_path: &[u8], absolute_path: Vec<u8>, contents: Contents, created_at: u64) -> (
        r: File)
        ensures
            r.wf(),
            r@ == spec_file_new(vault_path@, absolute_path@, contents@, created_at),
            r.contents == contents,
    {
        let abs_len: usize = absolute_path.len();
        let slash = find_last(absolute_path.as_slice(), 47);
        proof {
            lemma_find_last_spec(absolute_path@, 47);
        }
        let name_start: usize = match slash {
            Some(i) => i + 1,
            None => 0,
        };
        let file_name = text::subrange_vec(
            absolute_path.as_slice(),
            name_start,
            absolute_path.len(),
        );
        proof {
            assert(file_name@ =~= basename_spec(absolute_path@));
        }
        let dot = find_last(file_name.as_slice(), 46);
        proof {
            lemma_find_last_spec(file_name@, 46);
        }
        let dot_pos: usize = match dot {
            Some(i) => i,
            None => 0,
        };
        let file_name_without_extension: Vec<u8> = if dot_pos == 0 {
            text::subrange_vec(file_name.as_slice(), 0, file_name.len())
        } else {
            text::subrange_vec(file_name.as_slice(), 0, dot_pos)
        };
        proof {
            assert(file_name_without_extension@ =~= stem_spec(file_name@));
        }
        let extension: Vec<u8> = if dot_pos == 0 {
            Vec::new()
        } else {
            text::subrange_vec(file_name.as_slice(), dot_pos + 1, file_name.len())
        };
        proof {
            assert(extension@ =~= ext_spec(file_name@));
        }
        let parsed_extension = FileExtension::from_str(extension.as_slice());
        let stripped: Vec<u8> = if text::starts_with(absolute_path.as_slice(), vault_path) {
            text::subrange_vec(absolute_path.as_slice(), vault_path.len(), absolute_path.len())
        } else {
            text::subrange_vec(absolute_path.as_slice(), 0, absolute_path.len())
        };
        let path_from_vault_root: Vec<u8> = if stripped.len() > 0 && stripped[0] == 47 {
            text::subrange_vec(stripped.as_slice(), 1, stripped.len())
        } else {
            stripped
        };
        proof {
            assert(path_from_vault_root@ =~= rel_path_spec(vault_path@, absolute_path@));
        }
        let ext_name = parsed_extension.as_str();
        let mut suffix: Vec<u8> = Vec::new();
        suffix.push(46);
        let ext_bytes = text::lit_bytes(ext_name);
        let mut k: usize = 0;
        while k < ext_bytes.len()
            invariant
                0 <= k <= ext_bytes@.len(),
                suffix@ =~= seq![46u8] + ext_bytes@.take(k as int),
            decreases ext_bytes@.len() - k,
        {
            suffix.push(ext_bytes[k]);
            k = k + 1;
        }
        proof {
            assert(suffix@ =~= seq![46u8] + ext_name_spec(parsed_extension));
        }
        let path_from_vault_root_without_extension: Vec<u8> = if text::ends_with(
            path_from_vault_root.as_slice(),
            suffix.as_slice(),
        ) {
            text::subrange_vec(
                path_from_vault_root.as_slice(),
                0,
                path_from_vault_root.len() - suffix.len(),
            )
        } else {
            text::subrange_vec(path_from_vault_root.as_slice(), 0, path_from_vault_root.len())
        };
        proof {
            assert(path_from_vault_root_without_extension@ =~= strip_dot_suffix_spec(
                rel_path_spec(vault_path@, absolute_path@),
                ext_name_spec(parsed_extension),
            ));
        }
        let vault_path_copy = text::subrange_vec(vault_path, 0, vault_path.len());
        proof {
            assert(vault_path_copy@ =~= vault_path@);
        }
        File {
            vault_path: vault_path_copy,
            absolute_path,
            file_name,
            file_name_without_extension,
            path_from_vault_root,
            path_from_vault_root_without_extension,
            contents,
            created_at,
        }
    }

    /// Re-derives this file at a new vault-relative path, keeping its
    /// contents and creation stamp. Renaming the file on disk is the
    /// caller's job; this keeps the model in step.
    pub fn move_file(&mut self, new_path_from_vault_root: &[u8])
        ensures
            final(self)@ == spec_file_new(
                old(self).vault_path@,
                old(self).vault_path@ + seq![47u8] + new_path_from_vault_root@,
                old(self).contents@,
                old(self).created_at,
            ),
    {
        let mut new_absolute: Vec<u8> = Vec::new();
        let mut i: usize = 0;
        while i < self.vault_path.len()
            invariant
                0 <= i <= self.vault_path@.len(),
                new_absolute@ =~= self.vault_path@.take(i as int),
                *self == *old(self),
            decreases self.vault_path@.len() - i,
        {
            new_absolute.push(self.vault_path[i]);
            i = i + 1;
        }
        new_absolute.push(47);
        let mut j: usize = 0;
        while j < new_path_from_vault_root.len()
            invariant
                0 <= j <= new_path_from_vault_root@.len(),
                new_absolute@ =~= self.vault_path@ + seq![47u8] + new_path_from_vault_root@.take(
                    j as int,
                ),
                *self == *old(self),
            decreases new_path_from_vault_root@.len() - j,
        {
            new_absolute.push(new_path_from_vault_root[j]);
            j = j + 1;
        }
        proof {
            assert(new_absolute@ =~= self.vault_path@ + seq![47u8] + new_path_from_vault_root@);
        }
        let vault_path = text::subrange_vec(self.vault_path.as_slice(), 0, self.vault_path.len());
        proof {
            assert(vault_path@ =~= self.vault_path@);
        }
        let contents = self.contents.clone();
        let created_at = self.created_at;
        let moved = File::new(vault_path.as_slice(), new_absolute, contents, created_at);
        *self = moved;
    }

    /// Whether the payload was classified as an image.
    pub fn is_image(&self) -> (r: bool)
        ensures
            r == (self.contents matches Contents::Image {  }),
    {
        matches!(self.contents, Contents::Image {  })
    }
}

/// Classifies a payload by extension; markdown text is passed in by the
/// caller, which read it from disk.
pub fn contents_from_extension(extension: &FileExtension, markdown_text: Option<Vec<u8>>) -> (r:
    Contents)
    requires
        (content_type_spec(*extension) == ContentType::Markdown) == markdown_text.is_some(),
    ensures
        match content_type_spec(*extension) {
            ContentType::Markdown => r == (Contents::Markdown { text: markdown_text->0 }),
            ContentType::Image => r == (Contents::Image {  }),
            ContentType::Audio => r == (Contents::Audio {  }),
            ContentType::Video => r == (Contents::Video {  }),
            ContentType::Pdf => r == (Contents::Pdf {  }),
            ContentType::Unknown => r == (Contents::Unknown {  }),
        },
{
    match extension.content_type() {
        ContentType::Markdown => {
            match markdown_text {
                Some(text_bytes) => Contents::Markdown { text: text_bytes },
                None => Contents::Unknown {  },  // unreachable by the precondition
            }
        },
        ContentType::Image => Contents::Image {  },
        ContentType::Audio => Contents::Audio {  },
        ContentType::Video => Contents::Video {  },
        ContentType::Pdf => Contents::Pdf {  },
        ContentType::Unknown => Contents::Unknown {  },
    }
}

} // verus!
