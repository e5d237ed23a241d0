//! Packing: which of the files that are found go into the archive, under what
//! header, and how much there is of them.

use vstd::prelude::*;

verus! {

/// The byte that marks an entry of an archive as a regular file.
pub const REGULAR_FILE: u8 = 0x30;

/// The permissions of every packed file: read for all, write for the owner.
pub const FILE_MODE: u32 = 0o644;

/// The modification time of every packed file.
pub const FILE_MTIME: u64 = 0;

/// Bytes in the header of an entry.
pub const HEADER_SIZE: usize = 512;

/// The GNU header, before name and checksum are set, of an entry of the given
/// type, size, permissions and modification time.
pub uninterp spec fn gnu_header(entry_type: u8, size: u64, mode: u32, mtime: u64) -> Seq<u8>;

/// `Header::new_gnu`, `set_size`, `set_entry_type`, `set_mtime` and `set_mode`
/// of `tar`, and the header as bytes.
#[verifier::external_body]
fn make_gnu_header(entry_type: u8, size: u64, mode: u32, mtime: u64) -> (h: Vec<u8>)
    ensures
        h@ == gnu_header(entry_type, size, mode, mtime),
        h@.len() == HEADER_SIZE,
{
    let mut header = tar::Header::new_gnu();
    header.set_size(size);
    header.set_entry_type(tar::EntryType::new(entry_type));
    header.set_mtime(mtime);
    header.set_mode(mode);
    header.as_bytes().to_vec()
}

/// The header of a packed file of `size` bytes, before name and checksum are
/// set. Nothing but the size is taken from the file.
pub fn file_header(size: u64) -> (h: Vec<u8>)
    ensures
        h@ == gnu_header(REGULAR_FILE, size, FILE_MODE, FILE_MTIME),
        h@.len() == HEADER_SIZE,
{
    make_gnu_header(REGULAR_FILE, size, FILE_MODE, FILE_MTIME)
}

/// What a path turns out to be.
#[derive(Debug, Clone, Copy, PartialEq, Eq, Structural)]
pub enum Found {
    Directory,
    File,
    /// Neither of the two.
    Other,
    /// Nothing can be learned of it.
    Unreadable,
}

/// What is done about an entry below a directory that is packed.
#[derive(Debug, Clone, Copy, PartialEq, Eq, Structural)]
pub enum WalkStep {
    /// Its contents come of themselves.
    Pass,
    /// It is left out, and counted.
    Skip,
    /// It is opened and packed.
    Pack,
}

/// What is done about `found` below a directory that is packed.
pub open spec fn walk_step(found: Found) -> WalkStep {
    match found {
        Found::Directory => WalkStep::Pass,
        Found::File => WalkStep::Pack,
        Found::Other => WalkStep::Skip,
        Found::Unreadable => WalkStep::Skip,
    }
}

/// Counts what is left out of a directory that is packed.
pub struct WalkTally {
    skipped: u64,
}

impl WalkTally {
    /// How many entries were left out.
    pub closed spec fn count(&self) -> nat {
        self.skipped as nat
    }

    /// A tally before the first entry.
    pub fn new() -> (t: WalkTally)
        ensures
            t.count() == 0,
    {
        WalkTally { skipped: 0 }
    }

    /// Decides what is done about an entry.
    pub fn on_entry(&mut self, found: Found) -> (step: WalkStep)
        requires
            old(self).count() < u64::MAX,
        ensures
            step == walk_step(found),
            final(self).count() == old(self).count() + (if step == WalkStep::Skip {
                1nat
            } else {
                0nat
            }),
    {
        match found {
            Found::Directory => WalkStep::Pass,
            Found::File => WalkStep::Pack,
            Found::Other | Found::Unreadable => {
                self.skipped = self.skipped + 1;
                WalkStep::Skip
            },
        }
    }

    /// Counts a file that could not be opened.
    pub fn on_open_failed(&mut self)
        requires
            old(self).count() < u64::MAX,
        ensures
            final(self).count() == old(self).count() + 1,
    {
        self.skipped = self.skipped + 1;
    }

    /// How many entries were left out.
    pub fn skipped(&self) -> (n: u64)
        ensures
            n == self.count(),
    {
        self.skipped
    }
}

/// What is done about a path that was entered.
#[derive(Debug, Clone, Copy, PartialEq, Eq, Structural)]
pub enum InputStep {
    /// What is below it is packed.
    Walk,
    /// It is opened and packed.
    Pack,
    /// It is left out, with a warning.
    Warn,
}

/// What is done about a path that was entered.
pub fn input_step(found: Found) -> (step: InputStep)
    ensures
        step == match found {
            Found::Directory => InputStep::Walk,
            Found::File => InputStep::Pack,
            Found::Other | Found::Unreadable => InputStep::Warn,
        },
{
    match found {
        Found::Directory => InputStep::Walk,
        Found::File => InputStep::Pack,
        Found::Other | Found::Unreadable => InputStep::Warn,
    }
}

/// Whether a container is unpacked into a directory: it is where more than one
/// path is packed, or the one that is packed is a directory.
pub fn packs_directory(paths: usize, first_is_directory: bool) -> (r: bool)
    ensures
        r == (paths != 1 || first_is_directory),
{
    paths != 1 || first_is_directory
}

/// The sum of sizes.
pub open spec fn size_sum(sizes: Seq<u64>) -> nat
    decreases sizes.len(),
{
    if sizes.len() == 0 {
        0
    } else {
        size_sum(sizes.drop_last()) + sizes.last() as nat
    }
}

/// Nothing sums to nothing, and one more size adds just that size.
pub proof fn law_size_sum(sizes: Seq<u64>, size: u64)
    ensures
        size_sum(Seq::empty()) == 0,
        size_sum(sizes.push(size)) == size_sum(sizes) + size,
{
    assert(sizes.push(size).drop_last() =~= sizes);
}

proof fn lemma_size_sum_grows(sizes: Seq<u64>, n: int)
    requires
        0 <= n <= sizes.len(),
    ensures
        size_sum(sizes.take(n)) <= size_sum(sizes),
    decreases sizes.len(),
{
    if n == sizes.len() {
        assert(sizes.take(n) =~= sizes);
    } else {
        lemma_size_sum_grows(sizes.drop_last(), n);
        assert(sizes.drop_last().take(n) =~= sizes.take(n));
    }
}

/// The sum of the sizes, where it fits in 64 bits.
pub fn total_size(sizes: &Vec<u64>) -> (r: Option<u64>)
    ensures
        r is Some <==> size_sum(sizes@) <= u64::MAX,
        r matches Some(n) ==> n == size_sum(sizes@),
{
    let mut total: u64 = 0;
    let mut i: usize = 0;
    while i < sizes.len()
        invariant
            i <= sizes@.len(),
            total == size_sum(sizes@.take(i as int)),
        decreases sizes@.len() - i,
    {
        assert(sizes@.take(i + 1).drop_last() =~= sizes@.take(i as int));
        proof {
            lemma_size_sum_grows(sizes@, i + 1);
        }
        match total.checked_add(sizes[i]) {
            Some(sum) => {
                total = sum;
            },
            None => {
                return None;
            },
        }
        i = i + 1;
    }
    assert(sizes@.take(i as int) =~= sizes@);
    Some(total)
}

/// Whole megabytes in a number of bytes.
pub fn megabytes(bytes: u64) -> (n: u64)
    ensures
        n == bytes as nat / (1024 * 1024),
{
    bytes / 1048576
}

} // verus!
