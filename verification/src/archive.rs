//! Decisions of the downloader: where each archive goes, what each archive
//! entry is called, and when an archive is closed and a new one begun (after
//! every 1024 images).
use crate::text::{
    chars_of, last_segment, last_segment_of, push_signed_decimal, push_str, signed_decimal,
    string_from_chars,
};
use vstd::prelude::*;

verus! {

/// File permissions given to every archive entry.
pub const ENTRY_MODE: u32 = 511;

/// The archive file begun at `millis` milliseconds since the epoch, in the
/// image directory.
pub open spec fn archive_path_spec(millis: i64) -> Seq<char> {
    "/mnt/hdd/place2/"@ + signed_decimal(millis as int) + ".tar.gz"@
}

/// Names the archive file begun at `millis`.
pub fn archive_path(millis: i64) -> (p: String)
    ensures
        p@ == archive_path_spec(millis),
{
    let mut out: Vec<char> = Vec::new();
    push_str(&mut out, "/mnt/hdd/place2/");
    push_signed_decimal(&mut out, millis);
    push_str(&mut out, ".tar.gz");
    string_from_chars(out)
}

/// The header fields of an archive entry, apart from its time.
pub struct EntryHeader {
    pub path: String,
    pub owner: String,
    pub mode: u32,
    pub size: u64,
}

/// The header of the entry holding `size` downloaded bytes for the
/// request `url`: named after the last part of the URL, owned by
/// "placeclient", with mode 511.
pub fn entry_header(url: &str, size: u64) -> (h: EntryHeader)
    ensures
        h.path@ == last_segment(url@),
        h.owner@ == "placeclient"@,
        h.mode == ENTRY_MODE,
        h.size == size,
{
    EntryHeader {
        path: string_from_chars(last_segment_of(&chars_of(url))),
        owner: String::from_str("placeclient"),
        mode: ENTRY_MODE,
        size,
    }
}

/// Number of images each archive holds.
pub const IMAGES_PER_ARCHIVE: u32 = 1024;

/// How many images the current archive holds.
pub struct ImageCounter {
    count: u32,
}

impl View for ImageCounter {
    type V = nat;

    closed spec fn view(&self) -> nat {
        self.count as nat
    }
}

impl ImageCounter {
    /// A full archive is closed at once, so the count stays below its size.
    #[verifier::type_invariant]
    spec fn below_capacity(self) -> bool {
        self.count < IMAGES_PER_ARCHIVE
    }

    /// The counter of a new, empty archive.
    pub fn new() -> (c: ImageCounter)
        ensures
            c@ == 0,
    {
        ImageCounter { count: 0 }
    }

    /// How many images the current archive holds.
    pub fn count(&self) -> (n: u32)
        ensures
            n == self@,
            n < IMAGES_PER_ARCHIVE,
    {
        proof {
            use_type_invariant(self);
        }
        self.count
    }

    /// Called after an image is appended to the current archive: whether the
    /// archive is now to be closed and a new one begun, which happens exactly
    /// when this was its 1024th image; the count then starts again at zero.
    pub fn record(&mut self) -> (rotate: bool)
        ensures
            rotate == (old(self)@ + 1 == IMAGES_PER_ARCHIVE),
            final(self)@ == (if rotate {
                0
            } else {
                old(self)@ + 1
            }),
            final(self)@ < IMAGES_PER_ARCHIVE,
    {
        proof {
            use_type_invariant(&*self);
        }
        let next = self.count + 1;
        if next == IMAGES_PER_ARCHIVE {
            self.count = 0;
            true
        } else {
            self.count = next;
            false
        }
    }
}

} // verus!
