//! One picture's placement-relevant attributes.

use vstd::prelude::*;
use vstd::string::StrSliceExecFns;

use crate::MAX_DIM;

verus! {

/// Flip/rotation state of a picture.  It is client-settable and read only by
/// the renderer; it never enters the layout math.
#[derive(Clone, Copy, Debug, PartialEq, Eq, Structural)]
pub enum Orientation {
    Normal,
    Horizontal,
    Vertical,
    Both,
}

/// The record the engine keeps per image: where it came from, its measured
/// pixel dimensions (zero until measured), its byte size, and its
/// orientation code.
#[derive(Debug)]
pub struct Picture {
    /// Unique identifier and location of the image; ownership key.
    pub path: String,
    /// Measured pixel width; `0` while unmeasured.
    pub w: u32,
    /// Measured pixel height; `0` while unmeasured.
    pub h: u32,
    /// Byte length of the image file; informational only.
    pub size: u64,
    /// Raw orientation code, decoded by [`Picture::flip`].
    pub present: u8,
}

impl Picture {
    /// Well-formedness: the dimensions are either both zero (unmeasured) or
    /// both positive, and small enough for exact ratio arithmetic.
    pub open spec fn valid(self) -> bool {
        &&& (self.w == 0 <==> self.h == 0)
        &&& self.w <= MAX_DIM
        &&& self.h <= MAX_DIM
    }

    /// Whether the picture has been measured and so takes part in layout.
    pub open spec fn spec_measured(&self) -> bool {
        self.w > 0 && self.h > 0
    }

    /// Whether the picture has been measured and so takes part in layout.
    #[verifier::when_used_as_spec(spec_measured)]
    pub fn measured(&self) -> (r: bool)
        ensures
            r == self.spec_measured(),
    {
        self.w > 0 && self.h > 0
    }

    pub fn new(path: String, w: u32, h: u32, size: u64) -> (p: Picture)
        requires
            (w == 0 <==> h == 0),
            w <= MAX_DIM,
            h <= MAX_DIM,
        ensures
            p == (Picture { path, w, h, size, present: 0u8 }),
            p.valid(),
    {
        Picture { path, w, h, size, present: 0 }
    }

    /// The orientation encoded by `present`, exactly as the raw code is
    /// decoded: an even code flips horizontally, an odd one does not flip.
    pub open spec fn spec_flip(self) -> Orientation {
        if self.present % 2 == 0 {
            Orientation::Horizontal
        } else if self.present % 4 == 0 {
            Orientation::Vertical
        } else if self.present % 8 == 0 {
            Orientation::Both
        } else {
            Orientation::Normal
        }
    }

    pub fn flip(&self) -> (r: Orientation)
        ensures
            r == self.spec_flip(),
    {
        if self.present % 2 == 0 {
            Orientation::Horizontal
        } else if self.present % 4 == 0 {
            Orientation::Vertical
        } else if self.present % 8 == 0 {
            Orientation::Both
        } else {
            Orientation::Normal
        }
    }

    pub fn set_flip(&mut self, flip: u8)
        ensures
            *final(self) == (Picture { present: flip, ..*old(self) }),
    {
        self.present = flip;
    }
}

impl Clone for Picture {
    fn clone(&self) -> (r: Self)
        ensures
            r == *self,
    {
        Picture {
            path: self.path.clone(),
            w: self.w,
            h: self.h,
            size: self.size,
            present: self.present,
        }
    }
}

impl Default for Picture {
    /// An unmeasured picture pointing at the current directory, mirroring
    /// the state a freshly enumerated entry starts in.
    fn default() -> (p: Self)
        ensures
            p.path@ == "."@,
            p.w == 0 && p.h == 0 && p.size == 0 && p.present == 0,
            p.valid(),
    {
        Picture { path: ".".to_owned(), w: 0, h: 0, size: 0, present: 0 }
    }
}

/// Compares two string slices character by character.
fn str_eq(a: &str, b: &str) -> (r: bool)
    ensures
        r == (a@ == b@),
{
    let alen = a.unicode_len();
    let blen = b.unicode_len();
    if alen != blen {
        assert(a@ != b@) by {
            assert(a@.len() != b@.len());
        }
        return false;
    }
    let mut i: usize = 0;
    while i < alen
        invariant
            alen == a@.len(),
            alen == b@.len(),
            i <= alen,
            forall|j: int| 0 <= j < i ==> a@[j] == b@[j],
        decreases alen - i,
    {
        if a.get_char(i) != b.get_char(i) {
            return false;
        }
        i = i + 1;
    }
    assert(a@ =~= b@);
    true
}

/// Whether `s` is one of the image file extensions the viewer displays.
pub fn contains(s: &str) -> (r: bool)
    ensures
        r == (s@ == "jpg"@ || s@ == "jpeg"@ || s@ == "bmp"@ || s@ == "png"@),
{
    str_eq(s, "jpg") || str_eq(s, "jpeg") || str_eq(s, "bmp") || str_eq(s, "png")
}

} // verus!
