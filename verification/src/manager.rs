//! File classification and manager-facing data types.

use vstd::prelude::*;

use crate::repo::Item;

verus! {

/// What the repository manager is busy with.
#[derive(Debug, Copy, Clone, PartialEq, Eq, Structural)]
pub enum ManagerStatus {
    Idle,
    ScanningDirectory,
    UpdatingRepo,
}

impl Default for ManagerStatus {
    /// A manager starts out idle.
    fn default() -> (r: Self)
        ensures
            r == ManagerStatus::Idle,
    {
        ManagerStatus::Idle
    }
}

/// Why unwatching a path can fail.
#[derive(Debug, PartialEq, Eq, Structural)]
pub enum UnwatchError {
    /// The path was not being watched.
    NotWatching,
}

/// The broad kind of a file, judged by its extension.
#[derive(Debug, Copy, Clone, PartialEq, Eq, Structural)]
pub enum FileType {
    Audio,
    Document,
    Image,
    Video,
    Unknown,
}

/// Whether the strings hold the same characters.
fn str_eq(a: &str, b: &str) -> (r: bool)
    ensures
        r == (a@ == b@),
{
    let n: usize = a.unicode_len();
    let m: usize = b.unicode_len();
    if n != m {
        return false;
    }
    let mut i: usize = 0;
    while i < n
        invariant
            n == a@.len() && n == b@.len(),
            i <= n,
            forall|k: int| 0 <= k < i ==> a@[k] == b@[k],
        decreases n - i,
    {
        if a.get_char(i) != b.get_char(i) {
            return false;
        }
        i = i + 1;
    }
    proof {
        assert(a@ =~= b@);
    }
    true
}

/// The suffix of the string after the last occurrence of the character; the
/// whole string when the character does not occur.
pub open spec fn after_last(s: Seq<char>, c: char) -> Seq<char>
    decreases s.len(),
{
    if s.len() == 0 {
        Seq::empty()
    } else if s.last() == c {
        Seq::empty()
    } else {
        after_last(s.drop_last(), c).push(s.last())
    }
}

pub proof fn lemma_after_last(s: Seq<char>, c: char, k: int)
    requires
        0 <= k <= s.len(),
        k == 0 || s[k - 1] == c,
        forall|j: int| k <= j < s.len() ==> s[j] != c,
    ensures
        after_last(s, c) == s.skip(k),
    decreases s.len(),
{
    if s.len() == 0 {
        assert(after_last(s, c) =~= s.skip(k));
    } else if s.last() == c {
        assert(k == s.len());
        assert(after_last(s, c) =~= s.skip(k));
    } else {
        assert(k < s.len());
        assert(forall|j: int| k <= j < s.drop_last().len() ==> s.drop_last()[j] != c);
        if k > 0 {
            assert(s.drop_last()[k - 1] == c);
        }
        lemma_after_last(s.drop_last(), c, k);
        assert(s.drop_last().skip(k).push(s.last()) =~= s.skip(k));
    }
}

/// Whether the file name holds a dot after its first character: only then
/// does it have an extension.
pub open spec fn has_dot_after_start(f: Seq<char>) -> bool {
    exists|k: int| 0 < k < f.len() && f[k] == '.'
}

/// The extension of a path: the part of the file name (after the last
/// slash) that follows its last dot. A file name without a dot, or whose
/// only dot starts it, has none; a path ending in a separator has none.
pub open spec fn spec_extension(path: Seq<char>) -> Option<Seq<char>> {
    let f = after_last(path, '/');
    if has_dot_after_start(f) {
        Some(after_last(f, '.'))
    } else {
        None
    }
}

/// The extensions of audio files.
pub open spec fn is_audio_ext(e: Seq<char>) -> bool {
    e == "aac"@ || e == "ac3"@ || e == "aif"@ || e == "aifc"@ || e == "aiff"@ || e == "au"@
        || e == "cda"@ || e == "dts"@ || e == "fla"@ || e == "flac"@ || e == "it"@ || e ==
        "m1a"@ || e == "m2a"@ || e == "m3u"@ || e == "m4a"@ || e == "mid"@ || e == "midi"@
        || e == "mka"@ || e == "mod"@ || e == "mp2"@ || e == "mp3"@ || e == "mpa"@ || e ==
        "ogg"@ || e == "opus"@ || e == "ra"@ || e == "rmi"@ || e == "snd"@ || e == "spc"@ ||
        e == "umx"@ || e == "voc"@ || e == "wav"@ || e == "wma"@ || e == "xm"@
}

/// The extensions of document files.
pub open spec fn is_document_ext(e: Seq<char>) -> bool {
    e == "c"@ || e == "chm"@ || e == "cpp"@ || e == "csv"@ || e == "cxx"@ || e == "doc"@ ||
        e == "docm"@ || e == "docx"@ || e == "dot"@ || e == "dotm"@ || e == "dotx"@ || e ==
        "h"@ || e == "hpp"@ || e == "htm"@ || e == "html"@ || e == "hxx"@ || e == "ini"@ ||
        e == "java"@ || e == "lua"@ || e == "mht"@ || e == "mhtml"@ || e == "odt"@ || e ==
        "pdf"@ || e == "potm"@ || e == "potx"@ || e == "ppam"@ || e == "pps"@ || e ==
        "ppsm"@ || e == "ppsx"@ || e == "ppt"@ || e == "pptm"@ || e == "pptx"@ || e ==
        "rtf"@ || e == "sldm"@ || e == "sldx"@ || e == "thmx"@ || e == "txt"@ || e == "vsd"@
        || e == "wpd"@ || e == "wps"@ || e == "wri"@ || e == "xlam"@ || e == "xls"@ || e ==
        "xlsb"@ || e == "xlsm"@ || e == "xlsx"@ || e == "xltm"@ || e == "xltx"@ || e ==
        "xml"@
}

/// The extensions of image files.
pub open spec fn is_image_ext(e: Seq<char>) -> bool {
    e == "ani"@ || e == "bmp"@ || e == "gif"@ || e == "ico"@ || e == "jpe"@ || e == "jpeg"@
        || e == "jpg"@ || e == "pcx"@ || e == "png"@ || e == "psd"@ || e == "tga"@ || e ==
        "tif"@ || e == "tiff"@ || e == "webp"@ || e == "wmf"@
}

/// The extensions of video files.
pub open spec fn is_video_ext(e: Seq<char>) -> bool {
    e == "3g2"@ || e == "3gp"@ || e == "3gp2"@ || e == "3gpp"@ || e == "amr"@ || e == "amv"@
        || e == "asf"@ || e == "avi"@ || e == "bdmv"@ || e == "bik"@ || e == "d2v"@ || e ==
        "divx"@ || e == "drc"@ || e == "dsa"@ || e == "dsm"@ || e == "dss"@ || e == "dsv"@
        || e == "evo"@ || e == "f4v"@ || e == "flc"@ || e == "fli"@ || e == "flic"@ || e ==
        "flv"@ || e == "hdmov"@ || e == "ifo"@ || e == "ivf"@ || e == "m1v"@ || e == "m2p"@
        || e == "m2t"@ || e == "m2ts"@ || e == "m2v"@ || e == "m4b"@ || e == "m4p"@ || e ==
        "m4v"@ || e == "mkv"@ || e == "mov"@ || e == "mp2v"@ || e == "mp4"@ || e == "mp4v"@
        || e == "mpe"@ || e == "mpeg"@ || e == "mpg"@ || e == "mpls"@ || e == "mpv2"@ || e
        == "mpv4"@ || e == "mts"@ || e == "ogm"@ || e == "ogv"@ || e == "pss"@ || e ==
        "pva"@ || e == "qt"@ || e == "ram"@ || e == "ratdvd"@ || e == "rm"@ || e == "rmm"@
        || e == "rmvb"@ || e == "roq"@ || e == "rpm"@ || e == "smil"@ || e == "smk"@ || e ==
        "swf"@ || e == "tp"@ || e == "tpr"@ || e == "ts"@ || e == "vob"@ || e == "vp6"@ || e
        == "webm"@ || e == "wm"@ || e == "wmp"@ || e == "wmv"@
}

/// The kind of file a path points at, judged by its extension.
pub open spec fn spec_filetype(path: Seq<char>) -> FileType {
    match spec_extension(path) {
        Option::None => FileType::Unknown,
        Option::Some(e) => if is_audio_ext(e) {
            FileType::Audio
        } else if is_document_ext(e) {
            FileType::Document
        } else if is_image_ext(e) {
            FileType::Image
        } else if is_video_ext(e) {
            FileType::Video
        } else {
            FileType::Unknown
        },
    }
}

/// The extension of the path, if it has one.
fn extension_of(path: &str) -> (r: Option<String>)
    ensures
        match r {
            Some(e) => spec_extension(path@) == Some(e@),
            None => spec_extension(path@) is None,
        },
{
    let s = crate::text::str_to_chars(path);
    let n = s.len();
    let mut k: usize = n;
    while k > 0 && s[k - 1] != '/'
        invariant
            n == s@.len(),
            k <= n,
            forall|j: int| k <= j < n ==> s@[j] != '/',
        decreases k,
    {
        k = k - 1;
    }
    proof {
        lemma_after_last(s@, '/', k as int);
    }
    let mut m: usize = n;
    while m > k && s[m - 1] != '.'
        invariant
            n == s@.len(),
            k <= m <= n,
            forall|j: int| m <= j < n ==> s@[j] != '.',
        decreases m,
    {
        m = m - 1;
    }
    let ghost f = s@.skip(k as int);
    if m > k && m - 1 > k {
        proof {
            assert(s@[m - 1] == '.');
            assert(f[m - 1 - k] == '.');
            assert(0 < m - 1 - k < f.len());
            assert(has_dot_after_start(f));
            assert(forall|j: int| m - (k as int) <= j < f.len() ==> f[j] != '.');
            assert(f[m - 1 - k] == '.');
            lemma_after_last(f, '.', m - (k as int));
            assert(f.skip(m - (k as int)) =~= s@.subrange(m as int, n as int));
        }
        Some(crate::text::chars_range_to_string(&s, m, n))
    } else {
        proof {
            if m == k {
                assert forall|j: int| 0 < j < f.len() implies f[j] != '.' by {
                    assert(f[j] == s@[j + k]);
                }
            } else {
                assert(m - 1 == k as int);
                assert forall|j: int| 0 < j < f.len() implies f[j] != '.' by {
                    assert(f[j] == s@[j + k]);
                }
            }
            assert(!has_dot_after_start(f));
        }
        None
    }
}

/// Judge the kind of a file by its extension, matched exactly against the
/// known extension lists.
pub fn determine_filetype(path: &str) -> (r: FileType)
    ensures
        r == spec_filetype(path@),
{
    let ext = match extension_of(path) {
        Some(e) => e,
        None => {
            return FileType::Unknown;
        },
    };
    let e = ext.as_str();
    let audio =
    str_eq(e, "aac") || str_eq(e, "ac3") || str_eq(e, "aif") || str_eq(e, "aifc") ||
        str_eq(e, "aiff") || str_eq(e, "au") || str_eq(e, "cda") || str_eq(e, "dts") ||
        str_eq(e, "fla") || str_eq(e, "flac") || str_eq(e, "it") || str_eq(e, "m1a") ||
        str_eq(e, "m2a") || str_eq(e, "m3u") || str_eq(e, "m4a") || str_eq(e, "mid") ||
        str_eq(e, "midi") || str_eq(e, "mka") || str_eq(e, "mod") || str_eq(e, "mp2") ||
        str_eq(e, "mp3") || str_eq(e, "mpa") || str_eq(e, "ogg") || str_eq(e, "opus") ||
        str_eq(e, "ra") || str_eq(e, "rmi") || str_eq(e, "snd") || str_eq(e, "spc") ||
        str_eq(e, "umx") || str_eq(e, "voc") || str_eq(e, "wav") || str_eq(e, "wma") ||
        str_eq(e, "xm");
    if audio {
        return FileType::Audio;
    }
    let document =
    str_eq(e, "c") || str_eq(e, "chm") || str_eq(e, "cpp") || str_eq(e, "csv") ||
        str_eq(e, "cxx") || str_eq(e, "doc") || str_eq(e, "docm") || str_eq(e, "docx")
        || str_eq(e, "dot") || str_eq(e, "dotm") || str_eq(e, "dotx") || str_eq(e, "h")
        || str_eq(e, "hpp") || str_eq(e, "htm") || str_eq(e, "html") || str_eq(e, "hxx")
        || str_eq(e, "ini") || str_eq(e, "java") || str_eq(e, "lua") || str_eq(e, "mht")
        || str_eq(e, "mhtml") || str_eq(e, "odt") || str_eq(e, "pdf") || str_eq(e,
        "potm") || str_eq(e, "potx") || str_eq(e, "ppam") || str_eq(e, "pps") ||
        str_eq(e, "ppsm") || str_eq(e, "ppsx") || str_eq(e, "ppt") || str_eq(e, "pptm")
        || str_eq(e, "pptx") || str_eq(e, "rtf") || str_eq(e, "sldm") || str_eq(e,
        "sldx") || str_eq(e, "thmx") || str_eq(e, "txt") || str_eq(e, "vsd") ||
        str_eq(e, "wpd") || str_eq(e, "wps") || str_eq(e, "wri") || str_eq(e, "xlam") ||
        str_eq(e, "xls") || str_eq(e, "xlsb") || str_eq(e, "xlsm") || str_eq(e, "xlsx")
        || str_eq(e, "xltm") || str_eq(e, "xltx") || str_eq(e, "xml");
    if document {
        return FileType::Document;
    }
    let image =
    str_eq(e, "ani") || str_eq(e, "bmp") || str_eq(e, "gif") || str_eq(e, "ico") ||
        str_eq(e, "jpe") || str_eq(e, "jpeg") || str_eq(e, "jpg") || str_eq(e, "pcx") ||
        str_eq(e, "png") || str_eq(e, "psd") || str_eq(e, "tga") || str_eq(e, "tif") ||
        str_eq(e, "tiff") || str_eq(e, "webp") || str_eq(e, "wmf");
    if image {
        return FileType::Image;
    }
    let video =
    str_eq(e, "3g2") || str_eq(e, "3gp") || str_eq(e, "3gp2") || str_eq(e, "3gpp") ||
        str_eq(e, "amr") || str_eq(e, "amv") || str_eq(e, "asf") || str_eq(e, "avi") ||
        str_eq(e, "bdmv") || str_eq(e, "bik") || str_eq(e, "d2v") || str_eq(e, "divx")
        || str_eq(e, "drc") || str_eq(e, "dsa") || str_eq(e, "dsm") || str_eq(e, "dss")
        || str_eq(e, "dsv") || str_eq(e, "evo") || str_eq(e, "f4v") || str_eq(e, "flc")
        || str_eq(e, "fli") || str_eq(e, "flic") || str_eq(e, "flv") || str_eq(e,
        "hdmov") || str_eq(e, "ifo") || str_eq(e, "ivf") || str_eq(e, "m1v") ||
        str_eq(e, "m2p") || str_eq(e, "m2t") || str_eq(e, "m2ts") || str_eq(e, "m2v") ||
        str_eq(e, "m4b") || str_eq(e, "m4p") || str_eq(e, "m4v") || str_eq(e, "mkv") ||
        str_eq(e, "mov") || str_eq(e, "mp2v") || str_eq(e, "mp4") || str_eq(e, "mp4v")
        || str_eq(e, "mpe") || str_eq(e, "mpeg") || str_eq(e, "mpg") || str_eq(e,
        "mpls") || str_eq(e, "mpv2") || str_eq(e, "mpv4") || str_eq(e, "mts") ||
        str_eq(e, "ogm") || str_eq(e, "ogv") || str_eq(e, "pss") || str_eq(e, "pva") ||
        str_eq(e, "qt") || str_eq(e, "ram") || str_eq(e, "ratdvd") || str_eq(e, "rm") ||
        str_eq(e, "rmm") || str_eq(e, "rmvb") || str_eq(e, "roq") || str_eq(e, "rpm") ||
        str_eq(e, "smil") || str_eq(e, "smk") || str_eq(e, "swf") || str_eq(e, "tp") ||
        str_eq(e, "tpr") || str_eq(e, "ts") || str_eq(e, "vob") || str_eq(e, "vp6") ||
        str_eq(e, "webm") || str_eq(e, "wm") || str_eq(e, "wmp") || str_eq(e, "wmv");
    if video {
        return FileType::Video;
    }
    FileType::Unknown
}

/// An item of the repository together with the kind of file its path points
/// at.
#[derive(Debug, Clone)]
pub struct ItemDetails {
    pub item: Item,
    pub filetype: FileType,
}

impl ItemDetails {
    /// Pair an item with the kind of file judged from its path.
    pub fn from_item(item: Item) -> (r: Self)
        ensures
            r.item == item,
            r.filetype == spec_filetype(item.path@),
    {
        let filetype = determine_filetype(item.path.as_str());
        ItemDetails { item, filetype }
    }
}

} // verus!
