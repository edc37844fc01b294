//! The layout of the content-addressed blob store: a blob lives under a
//! directory named by the first two bytes of its hash.  Reading and writing
//! blobs is the program's part.
use vstd::prelude::*;
use crate::parser::{path_join, spec_path_join};
use crate::text::{chars_of, copy_range, string_of};

verus! {

/// The number of bytes of `c` in UTF-8.
pub open spec fn utf8_width(c: char) -> nat {
    if (c as u32) < 0x80 {
        1
    } else if (c as u32) < 0x800 {
        2
    } else if (c as u32) < 0x10000 {
        3
    } else {
        4
    }
}

/// Whether the UTF-8 bytes of `h` number at least two.
pub open spec fn two_bytes(h: Seq<char>) -> bool {
    h.len() >= 2 || (h.len() == 1 && utf8_width(h[0]) >= 2)
}

/// Whether byte 2 of `h` starts a character (or ends the text), so that the
/// first two bytes can be cut off: the first character takes two bytes, or
/// the first two characters take one each.
pub open spec fn cut_ok(h: Seq<char>) -> bool {
    utf8_width(h[0]) == 2 || (h.len() >= 2 && utf8_width(h[0]) == 1 && utf8_width(h[1]) == 1)
}

/// The characters of the first two bytes of `h`.
pub open spec fn first_two_bytes(h: Seq<char>) -> Seq<char> {
    if utf8_width(h[0]) == 2 {
        h.take(1)
    } else {
        h.take(2)
    }
}

/// The path of the blob `hash` under `root`: `root/<first two bytes>/hash`,
/// or `root/hash` for a hash shorter than two bytes.
pub open spec fn blob_path_spec(root: Seq<char>, hash: Seq<char>) -> Seq<char> {
    if two_bytes(hash) {
        spec_path_join(spec_path_join(root, first_two_bytes(hash)), hash)
    } else {
        spec_path_join(root, hash)
    }
}

/// The blob store rooted at a directory.
#[derive(Debug, Clone)]
pub struct BlobStore {
    root: String,
}

impl BlobStore {
    /// The store rooted at `root` (the program creates the directory).
    pub fn new(root: String) -> (s: Self)
        ensures
            s.root_view() == root@,
    {
        BlobStore { root }
    }

    /// The root directory.
    pub closed spec fn root_view(&self) -> Seq<char> {
        self.root@
    }

    /// The root directory.
    pub fn root(&self) -> (r: &String)
        ensures
            r@ == self.root_view(),
    {
        &self.root
    }

    /// The path of the blob `hash`.  A hash of two bytes or more must not
    /// have a character across its second and third bytes (cutting it there
    /// would panic).
    pub fn blob_path(&self, hash: &str) -> (p: String)
        requires
            two_bytes(hash@) ==> cut_ok(hash@),
        ensures
            p@ == blob_path_spec(self.root_view(), hash@),
    {
        let h = chars_of(hash);
        let w0: usize = if h.len() == 0 {
            0
        } else {
            width_of(h[0])
        };
        let two = h.len() >= 2 || (h.len() == 1 && w0 >= 2);
        if two {
            let k: usize = if w0 == 2 {
                1
            } else {
                2
            };
            let pre = copy_range(&h, 0, k);
            let pre_s = string_of(&pre);
            assert(pre@ =~= first_two_bytes(hash@));
            let d = path_join(self.root.as_str(), pre_s.as_str());
            path_join(d.as_str(), hash)
        } else {
            path_join(self.root.as_str(), hash)
        }
    }
}

fn width_of(c: char) -> (w: usize)
    ensures
        w as nat == utf8_width(c),
{
    let u = c as u32;
    if u < 0x80 {
        1
    } else if u < 0x800 {
        2
    } else if u < 0x10000 {
        3
    } else {
        4
    }
}

/// What a blob garbage collection found and removed.
#[derive(Debug, Default, Clone, Copy)]
pub struct BlobGcStats {
    pub total_blobs: usize,
    pub total_bytes: u64,
    pub blobs_removed: usize,
    pub bytes_freed: u64,
}

} // verus!
