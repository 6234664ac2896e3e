//! File-level rules of the viewer: the size limit, which extensions open as
//! images, and the list of recently opened files.

use vstd::prelude::*;
use crate::text::{chars_of, same_text};

verus! {

/// Files larger than this many bytes are not opened.
pub const MAX_FILE_SIZE_BYTES: u64 = 10_000_000;

/// How many recently opened files are remembered.
pub const MAX_RECENT_FILES: usize = 10;

/// Whether a file of `len` bytes is over the size limit.
pub fn exceeds_size_limit(len: u64) -> (r: bool)
    ensures
        r == (len > MAX_FILE_SIZE_BYTES),
{
    len > MAX_FILE_SIZE_BYTES
}

/// Extensions that open as images.
pub open spec fn image_extensions() -> Seq<Seq<char>> {
    seq!["png"@, "jpg"@, "jpeg"@, "gif"@, "bmp"@, "webp"@]
}

/// Whether a lower-case extension opens as an image.
pub fn is_image_extension(ext: &str) -> (r: bool)
    ensures
        r == image_extensions().contains(ext@),
{
    let table: [&str; 6] = ["png", "jpg", "jpeg", "gif", "bmp", "webp"];
    assert(table@.map_values(|s: &str| s@) =~= image_extensions());
    let e = chars_of(ext);
    let mut i: usize = 0;
    while i < 6
        invariant
            table@.map_values(|s: &str| s@) == image_extensions(),
            e@ == ext@,
            i <= 6,
            forall|j: int| 0 <= j < i ==> image_extensions()[j] != ext@,
        decreases 6 - i,
    {
        if same_text(e.as_slice(), table[i]) {
            assert(image_extensions()[i as int] == ext@);
            return true;
        }
        i += 1;
    }
    false
}

/// The texts of a list of strings.
pub open spec fn texts(v: Seq<String>) -> Seq<Seq<char>> {
    v.map_values(|s: String| s@)
}

/// The recent list after `path` was opened: an earlier entry for it leaves,
/// it joins at the end, and only the newest `MAX_RECENT_FILES` stay.
pub open spec fn recent_after(list: Seq<Seq<char>>, path: Seq<char>) -> Seq<Seq<char>> {
    let kept = list.filter(|p: Seq<char>| p != path).push(path);
    if kept.len() > MAX_RECENT_FILES {
        kept.subrange(kept.len() - MAX_RECENT_FILES, kept.len() as int)
    } else {
        kept
    }
}

/// Records that `path` was opened.
pub fn push_recent(list: &mut Vec<String>, path: String)
    ensures
        texts(final(list)@) == recent_after(texts(old(list)@), path@),
{
    let ghost pred = |p: Seq<char>| p != path@;
    let mut kept: Vec<String> = Vec::new();
    let mut i: usize = 0;
    while i < list.len()
        invariant
            i <= list@.len(),
            pred == (|p: Seq<char>| p != path@),
            texts(kept@) == texts(list@).take(i as int).filter(pred),
        decreases list@.len() - i,
    {
        proof {
            reveal(Seq::filter);
            assert(texts(list@).take(i + 1).drop_last() =~= texts(list@).take(i as int));
        }
        if !(list[i] == path) {
            let s = list[i].clone();
            kept.push(s);
            assert(texts(kept@) =~= texts(list@).take(i as int).filter(pred).push(list@[i as int]@));
        }
        i += 1;
    }
    assert(texts(list@).take(list@.len() as int) =~= texts(list@));
    let ghost pv = path@;
    kept.push(path);
    assert(texts(kept@) =~= texts(old(list)@).filter(pred).push(pv));
    let n = kept.len();
    if n > MAX_RECENT_FILES {
        let mut out: Vec<String> = Vec::new();
        let mut j: usize = n - MAX_RECENT_FILES;
        while j < n
            invariant
                n == kept@.len(),
                n > MAX_RECENT_FILES,
                n - MAX_RECENT_FILES <= j <= n,
                out@.len() == j - (n - MAX_RECENT_FILES),
                texts(out@) == texts(kept@).subrange(n - MAX_RECENT_FILES, j as int),
            decreases n - j,
        {
            let s = kept[j].clone();
            assert(s@ == kept@[j as int]@);
            let ghost before = out@;
            out.push(s);
            assert(out@ == before.push(s));
            let ghost a = n - MAX_RECENT_FILES;
            assert forall|k: int| 0 <= k < out@.len() implies #[trigger] texts(out@)[k] == texts(
                kept@,
            )[a + k] by {
                if k < before.len() {
                    assert(texts(before)[k] == texts(kept@).subrange(a, j as int)[k]);
                }
            }
            assert(texts(out@) =~= texts(kept@).subrange(n - MAX_RECENT_FILES, j + 1));
            j += 1;
        }
        *list = out;
    } else {
        *list = kept;
    }
}

} // verus!
