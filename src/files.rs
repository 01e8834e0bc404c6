//! Images copied in a file manager: the clipboard offers a list of paths,
//! and the first one that names an image and loads becomes the capture.

use crate::codec::{bytes_view, guess_kind, sniffed_kind};
use vstd::prelude::*;
use vstd::string::*;

verus! {

/// One path of a clipboard file list, with the file's bytes where it was
/// read.
pub struct DroppedFile {
    pub path: String,
    pub content: Option<Vec<u8>>,
    /// The content loaded and encoded again as PNG, where that succeeded.
    /// Consulted only where `needs_conversion` holds of the content.
    pub converted: Option<Vec<u8>>,
}

/// A character's code with ASCII capitals taken to lower case.
pub open spec fn fold_char(c: char) -> u32 {
    if 65 <= c as u32 <= 90 {
        (c as u32 + 32) as u32
    } else {
        c as u32
    }
}

/// `p` ends with the lowercase `suffix`, ignoring ASCII case.
pub open spec fn ends_with_folded(p: Seq<char>, suffix: Seq<char>) -> bool {
    &&& suffix.len() <= p.len()
    &&& forall|j: int|
        0 <= j < suffix.len() ==> fold_char(#[trigger] p[p.len() - suffix.len() + j])
            == suffix[j] as u32
}

/// The path has one of the image extensions, in any case.
pub open spec fn is_image_path_spec(p: Seq<char>) -> bool {
    ||| ends_with_folded(p, seq!['.', 'p', 'n', 'g'])
    ||| ends_with_folded(p, seq!['.', 'j', 'p', 'g'])
    ||| ends_with_folded(p, seq!['.', 'j', 'p', 'e', 'g'])
    ||| ends_with_folded(p, seq!['.', 'b', 'm', 'p'])
    ||| ends_with_folded(p, seq!['.', 'g', 'i', 'f'])
    ||| ends_with_folded(p, seq!['.', 'w', 'e', 'b', 'p'])
    ||| ends_with_folded(p, seq!['.', 't', 'i', 'f', 'f'])
    ||| ends_with_folded(p, seq!['.', 't', 'i', 'f'])
}

/// Sniffing finds no format that is kept as it is.
pub open spec fn conversion_wanted(c: Seq<u8>) -> bool {
    !(sniffed_kind(c) matches Some(k) && k.storable_spec())
}

/// A file's bytes as captured: unchanged where sniffing finds a format that
/// is kept as it is, else its PNG conversion `converted`.
pub open spec fn normalized_image(c: Seq<u8>, converted: Option<Seq<u8>>) -> Option<Seq<u8>> {
    if conversion_wanted(c) {
        converted
    } else {
        Some(c)
    }
}

pub open spec fn file_image(f: DroppedFile) -> Option<Seq<u8>> {
    if !is_image_path_spec(f.path@) {
        None
    } else {
        match f.content {
            Some(c) => normalized_image(c@, bytes_view(f.converted)),
            None => None,
        }
    }
}

/// The image of the first file in the list that yields one.
pub open spec fn files_image(fs: Seq<DroppedFile>) -> Option<Seq<u8>>
    decreases fs.len(),
{
    if fs.len() == 0 {
        None
    } else {
        match file_image(fs[0]) {
            Some(b) => Some(b),
            None => files_image(fs.drop_first()),
        }
    }
}

fn ends_with_folded_exec(p: &str, suffix: &str) -> (r: bool)
    ensures
        r == ends_with_folded(p@, suffix@),
{
    let n = p.unicode_len();
    let m = suffix.unicode_len();
    if m > n {
        return false;
    }
    let mut j: usize = 0;
    while j < m
        invariant
            n == p@.len(),
            m == suffix@.len(),
            m <= n,
            j <= m,
            forall|k: int| 0 <= k < j ==> fold_char(#[trigger] p@[n - m + k]) == suffix@[k] as u32,
        decreases m - j,
    {
        let c = p.get_char(n - m + j);
        let code = c as u32;
        let folded: u32 = if 65 <= code && code <= 90 {
            code + 32
        } else {
            code
        };
        if folded != suffix.get_char(j) as u32 {
            assert(fold_char(p@[n - m + j]) != suffix@[j as int] as u32);
            return false;
        }
        j = j + 1;
    }
    true
}

/// Whether the path names an image file by its extension (png, jpg, jpeg,
/// bmp, gif, webp, tiff, tif), in any case.
pub fn is_image_path(p: &str) -> (r: bool)
    ensures
        r == is_image_path_spec(p@),
{
    proof {
        reveal_strlit(".png");
        reveal_strlit(".jpg");
        reveal_strlit(".jpeg");
        reveal_strlit(".bmp");
        reveal_strlit(".gif");
        reveal_strlit(".webp");
        reveal_strlit(".tiff");
        reveal_strlit(".tif");
    }
    ends_with_folded_exec(p, ".png") || ends_with_folded_exec(p, ".jpg") || ends_with_folded_exec(
        p,
        ".jpeg",
    ) || ends_with_folded_exec(p, ".bmp") || ends_with_folded_exec(p, ".gif")
        || ends_with_folded_exec(p, ".webp") || ends_with_folded_exec(p, ".tiff")
        || ends_with_folded_exec(p, ".tif")
}

/// Whether a file's bytes are to be converted to PNG before capture.
pub fn needs_conversion(c: &[u8]) -> (r: bool)
    ensures
        r == conversion_wanted(c@),
{
    match guess_kind(c) {
        Some(k) => !k.is_storable(),
        None => true,
    }
}

/// A file's bytes, kept or replaced by `converted` as `normalized_image`
/// says.
pub fn normalize_image(c: &[u8], converted: &Option<Vec<u8>>) -> (r: Option<Vec<u8>>)
    ensures
        bytes_view(r) == normalized_image(c@, bytes_view(*converted)),
{
    if needs_conversion(c) {
        match converted {
            Some(v) => Some(vstd::slice::slice_to_vec(v.as_slice())),
            None => None,
        }
    } else {
        Some(vstd::slice::slice_to_vec(c))
    }
}

/// Goes through the list in order and returns the image of the first file
/// that names an image and yields one; later files are not looked at.
pub fn extract_image_from_files(files: &Vec<DroppedFile>) -> (r: Option<Vec<u8>>)
    ensures
        bytes_view(r) == files_image(files@),
{
    let ghost fs = files@;
    assert(fs.subrange(0, fs.len() as int) =~= fs);
    let mut i: usize = 0;
    while i < files.len()
        invariant
            fs == files@,
            i <= fs.len(),
            files_image(fs) == files_image(fs.subrange(i as int, fs.len() as int)),
        decreases fs.len() - i,
    {
        let ghost rest = fs.subrange(i as int, fs.len() as int);
        assert(rest.drop_first() =~= fs.subrange(i + 1, fs.len() as int));
        assert(rest[0] == fs[i as int]);
        let f = &files[i];
        if is_image_path(f.path.as_str()) {
            if let Some(c) = &f.content {
                let r = normalize_image(c.as_slice(), &f.converted);
                if r.is_some() {
                    return r;
                }
            }
        }
        i = i + 1;
    }
    None
}

} // verus!
