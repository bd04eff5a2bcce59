//! Entry classification.
//!
//! A listing row is classified from its file name and directory bit alone:
//! directories unconditionally, files by the MIME label looked up from the
//! file name's extension.  A small override table forces a handful of
//! extensions to a literal label where the generic lookup would be
//! unhelpful for display.  Names and labels are carried as plain bytes.

use vstd::prelude::*;

verus! {

/// Classification of one directory entry, with its MIME label as bytes.
#[derive(Debug, PartialEq, Eq)]
pub enum FileType {
    Dir,
    Image(Vec<u8>),
    Video(Vec<u8>),
    Unknown(Vec<u8>),
}

/// Mathematical view of a classification.
pub enum SpecFileType {
    Dir,
    Image(Seq<u8>),
    Video(Seq<u8>),
    Unknown(Seq<u8>),
}

impl View for FileType {
    type V = SpecFileType;

    open spec fn view(&self) -> SpecFileType {
        match self {
            FileType::Dir => SpecFileType::Dir,
            FileType::Image(m) => SpecFileType::Image(m@),
            FileType::Video(m) => SpecFileType::Video(m@),
            FileType::Unknown(m) => SpecFileType::Unknown(m@),
        }
    }
}

/// Index of the last `.` in a name, or -1 when there is none.
pub open spec fn spec_last_dot(name: Seq<u8>) -> int
    decreases name.len(),
{
    if name.len() == 0 {
        -1
    } else if name.last() == 46u8 {
        name.len() - 1
    } else {
        spec_last_dot(name.drop_last())
    }
}

/// The extension of a file name: what follows the last `.`, empty when the
/// name has no `.` or only a leading one (a bare hidden file).
pub open spec fn spec_extension(name: Seq<u8>) -> Seq<u8> {
    let i = spec_last_dot(name);
    if i > 0 {
        name.subrange(i + 1, name.len() as int)
    } else {
        Seq::empty()
    }
}

/// The override table: extensions whose MIME label is forced to
/// `text/typescript` ("ts", "d.ts", "mts", "d.mts").
pub open spec fn spec_is_override(ext: Seq<u8>) -> bool {
    ||| (ext.len() == 2 && ext[0] == 116u8 && ext[1] == 115u8)
    ||| (ext.len() == 4 && ext[0] == 100u8 && ext[1] == 46u8 && ext[2] == 116u8 && ext[3] == 115u8)
    ||| (ext.len() == 3 && ext[0] == 109u8 && ext[1] == 116u8 && ext[2] == 115u8)
    ||| (ext.len() == 5 && ext[0] == 100u8 && ext[1] == 46u8 && ext[2] == 109u8 && ext[3] == 116u8
        && ext[4] == 115u8)
}

/// The bytes of "text/typescript".
pub open spec fn spec_typescript_mime() -> Seq<u8> {
    seq![116u8, 101u8, 120u8, 116u8, 47u8, 116u8, 121u8, 112u8, 101u8, 115u8, 99u8, 114u8, 105u8, 112u8, 116u8]
}

/// The bytes of "application/octet-stream".
pub open spec fn spec_octet_stream_mime() -> Seq<u8> {
    seq![97u8, 112u8, 112u8, 108u8, 105u8, 99u8, 97u8, 116u8, 105u8, 111u8, 110u8, 47u8, 111u8, 99u8, 116u8, 101u8, 116u8, 45u8, 115u8, 116u8, 114u8, 101u8, 97u8, 109u8]
}

/// Whether a MIME label has top-level group `image` ("image/" prefix).
pub open spec fn spec_is_image_mime(m: Seq<u8>) -> bool {
    m.len() >= 6 && m[0] == 105u8 && m[1] == 109u8 && m[2] == 97u8 && m[3] == 103u8 && m[4]
        == 101u8 && m[5] == 47u8
}

/// Whether a MIME label has top-level group `video` ("video/" prefix).
pub open spec fn spec_is_video_mime(m: Seq<u8>) -> bool {
    m.len() >= 6 && m[0] == 118u8 && m[1] == 105u8 && m[2] == 100u8 && m[3] == 101u8 && m[4]
        == 111u8 && m[5] == 47u8
}

/// The MIME label that the extension table assigns to an extension.
pub uninterp spec fn mime_of_ext(ext: Seq<u8>) -> Seq<u8>;

/// Relies on actix_files::file_extension_to_mime: the label is a static,
/// case-insensitive table lookup, a function of the extension alone; an
/// empty or unknown extension yields "application/octet-stream".
#[verifier::external_body]
fn ext_to_mime(ext: &Vec<u8>) -> (r: Vec<u8>)
    ensures
        r@ == mime_of_ext(ext@),
        ext@.len() == 0 ==> r@ == spec_octet_stream_mime(),
{
    let ext_str = String::from_utf8_lossy(ext);
    actix_files::file_extension_to_mime(&ext_str).to_string().into_bytes()
}

/// What classification a name and directory bit must yield.
pub open spec fn spec_classify(is_dir: bool, name: Seq<u8>) -> SpecFileType {
    if is_dir {
        SpecFileType::Dir
    } else {
        let ext = spec_extension(name);
        if spec_is_override(ext) {
            SpecFileType::Unknown(spec_typescript_mime())
        } else {
            let m = mime_of_ext(ext);
            if spec_is_image_mime(m) {
                SpecFileType::Image(m)
            } else if spec_is_video_mime(m) {
                SpecFileType::Video(m)
            } else {
                SpecFileType::Unknown(m)
            }
        }
    }
}

/// `spec_last_dot` finds the position of a `.` that no later `.` follows.
proof fn lemma_last_dot_at(name: Seq<u8>, i: int)
    requires
        0 <= i < name.len(),
        name[i] == 46u8,
        forall|k: int| i < k < name.len() ==> name[k] != 46u8,
    ensures
        spec_last_dot(name) == i,
    decreases name.len(),
{
    if i == name.len() - 1 {
    } else {
        assert(name.drop_last() == name.subrange(0, name.len() - 1));
        lemma_last_dot_at(name.drop_last(), i);
    }
}

/// `spec_last_dot` reports -1 on a name without any `.`.
proof fn lemma_no_dot(name: Seq<u8>)
    requires
        forall|k: int| 0 <= k < name.len() ==> name[k] != 46u8,
    ensures
        spec_last_dot(name) == -1,
    decreases name.len(),
{
    if name.len() > 0 {
        assert(name.drop_last() == name.subrange(0, name.len() - 1));
        lemma_no_dot(name.drop_last());
    }
}

/// Extract the extension of a file name, as `spec_extension` defines it.
pub fn extension_of(name: &Vec<u8>) -> (r: Vec<u8>)
    ensures
        r@ == spec_extension(name@),
{
    let mut j: usize = name.len();
    while j > 0
        invariant
            j <= name@.len(),
            forall|k: int| j <= k < name@.len() ==> name@[k] != 46u8,
        decreases j,
    {
        if name[j - 1] == 46 {
            proof {
                lemma_last_dot_at(name@, j - 1);
            }
            if j - 1 == 0 {
                return Vec::new();
            }
            let mut out: Vec<u8> = Vec::new();
            let mut k: usize = j;
            while k < name.len()
                invariant
                    j <= k <= name@.len(),
                    out@ == name@.subrange(j as int, k as int),
                decreases name@.len() - k,
            {
                out.push(name[k]);
                proof {
                    assert(name@.subrange(j as int, k + 1) == name@.subrange(j as int, k as int).push(
                    name@[k as int]));
                }
                k += 1;
            }
            return out;
        }
        j -= 1;
    }
    proof {
        lemma_no_dot(name@);
    }
    Vec::new()
}

impl FileType {
    /// Classify one entry from its file name and directory bit.
    ///
    /// A directory is `Dir` unconditionally; a file goes by the MIME label
    /// of its extension, with the override table applied first, and falls
    /// into `Image`, `Video` or `Unknown` by the label's top-level group.
    pub fn from(name: &Vec<u8>, is_dir: bool) -> (r: FileType)
        ensures
            r@ == spec_classify(is_dir, name@),
            is_dir <==> (r is Dir),
    {
        if is_dir {
            return FileType::Dir;
        }
        let ext = extension_of(name);
        let is_override = (ext.len() == 2 && ext[0] == 116 && ext[1] == 115) || (ext.len() == 4
            && ext[0] == 100 && ext[1] == 46 && ext[2] == 116 && ext[3] == 115) || (ext.len() == 3
            && ext[0] == 109 && ext[1] == 116 && ext[2] == 115) || (ext.len() == 5 && ext[0] == 100
            && ext[1] == 46 && ext[2] == 109 && ext[3] == 116 && ext[4] == 115);
        if is_override {
            let mut m: Vec<u8> = Vec::new();
            m.push(116);
            m.push(101);
            m.push(120);
            m.push(116);
            m.push(47);
            m.push(116);
            m.push(121);
            m.push(112);
            m.push(101);
            m.push(115);
            m.push(99);
            m.push(114);
            m.push(105);
            m.push(112);
            m.push(116);
            proof {
                assert(m@ =~= spec_typescript_mime());
            }
            return FileType::Unknown(m);
        }
        let m = ext_to_mime(&ext);
        let is_image = m.len() >= 6 && m[0] == 105 && m[1] == 109 && m[2] == 97 && m[3] == 103
            && m[4] == 101 && m[5] == 47;
        let is_video = m.len() >= 6 && m[0] == 118 && m[1] == 105 && m[2] == 100 && m[3] == 101
            && m[4] == 111 && m[5] == 47;
        if is_image {
            FileType::Image(m)
        } else if is_video {
            FileType::Video(m)
        } else {
            FileType::Unknown(m)
        }
    }
}

} // verus!
