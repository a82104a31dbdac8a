//! In-memory criteria and dialog memories, and where a dialog memory is
//! kept on disk.
use vstd::prelude::*;
use sha2::Digest;

verus! {

/// The error of a memory that cannot fail.
#[derive(Debug)]
pub struct NaE;

impl NaE {
    /// The error in words.
    pub fn to_string(&self) -> (s: String)
        ensures
            s@ == "this should have never happened, logic is flawed"@,
    {
        let v = crate::text::str_chars("this should have never happened, logic is flawed");
        crate::text::chars_to_string(&v)
    }
}

/// Criteria kept in memory, in the order they were added.
pub struct DebugCriteriaMemory {
    criteria: Vec<String>,
}

impl DebugCriteriaMemory {
    pub closed spec fn spec_criteria(&self) -> Seq<Seq<char>> {
        self.criteria@.map_values(|s: String| s@)
    }

    /// No criteria.
    pub fn new() -> (m: Self)
        ensures
            m.spec_criteria() == Seq::<Seq<char>>::empty(),
    {
        let m = DebugCriteriaMemory { criteria: Vec::new() };
        assert(m.spec_criteria() =~= Seq::<Seq<char>>::empty());
        m
    }

    /// The criteria, in order.
    pub fn get(&self) -> (r: Result<Vec<String>, NaE>)
        ensures
            r matches Ok(v) && v@.map_values(|s: String| s@) == self.spec_criteria(),
    {
        let mut v: Vec<String> = Vec::new();
        let mut i: usize = 0;
        while i < self.criteria.len()
            invariant
                i <= self.criteria@.len(),
                v@.len() == i,
                forall|a: int| 0 <= a < i ==> #[trigger] v@[a]@ == self.criteria@[a]@,
            decreases self.criteria@.len() - i,
        {
            v.push(self.criteria[i].clone());
            i = i + 1;
        }
        assert(v@.map_values(|s: String| s@) =~= self.spec_criteria());
        Ok(v)
    }

    /// Adds a criterion at the end.
    pub fn add(&mut self, criterion: &str) -> (r: Result<(), NaE>)
        ensures
            r is Ok,
            final(self).spec_criteria() == old(self).spec_criteria().push(criterion@),
    {
        let v = crate::text::str_chars(criterion);
        self.criteria.push(crate::text::chars_to_string(&v));
        assert(self.spec_criteria() =~= old(self).spec_criteria().push(criterion@));
        Ok(())
    }

    /// Removes the criterion at `index`.
    pub fn remove(&mut self, index: usize) -> (r: Result<(), NaE>)
        requires
            index < old(self).spec_criteria().len(),
        ensures
            r is Ok,
            final(self).spec_criteria() == old(self).spec_criteria().remove(index as int),
    {
        self.criteria.remove(index);
        assert(self.spec_criteria() =~= old(self).spec_criteria().remove(index as int));
        Ok(())
    }

    /// Whether no criterion is kept.
    pub fn is_empty(&self) -> (b: bool)
        ensures
            b == (self.spec_criteria().len() == 0),
    {
        self.criteria.len() == 0
    }
}

/// The last dialog kept in memory.
pub struct DebugDialogMemory<D> {
    mem: Option<D>,
}

impl<D> DebugDialogMemory<D> {
    pub closed spec fn spec_dialog(&self) -> Option<D> {
        self.mem
    }

    /// No dialog yet.
    pub fn new() -> (m: Self)
        ensures
            m.spec_dialog() is None,
    {
        DebugDialogMemory { mem: None }
    }

    /// Keeps `dialog` in place of the one before.
    pub fn update(&mut self, dialog: D) -> (r: Result<(), NaE>)
        ensures
            r is Ok,
            final(self).spec_dialog() == Some(dialog),
    {
        self.mem = Some(dialog);
        Ok(())
    }

    /// The dialog kept, if any.
    pub fn get(&self) -> (r: Result<&Option<D>, NaE>)
        ensures
            r matches Ok(d) && *d == self.spec_dialog(),
    {
        Ok(&self.mem)
    }
}

/// What `std::path::Path::join` gives for `base` and `part` (as text): on
/// Unix, `part` alone when it is absolute, otherwise `base` and `part`
/// with a separator between them where `base` does not end in one.
pub uninterp spec fn path_join(base: Seq<char>, part: Seq<char>) -> Seq<char>;

/// `Path::new(base).join(part)`, as text; the contract names the result
/// [`path_join`].
#[verifier::external_body]
fn join_path(base: &str, part: &str) -> (r: String)
    ensures
        r@ == path_join(base@, part@),
{
    std::path::Path::new(base).join(part).to_string_lossy().into_owned()
}

/// A dialog memory kept in a file: `<working dir>/dialog/<memory id>`.
pub struct FsDialogMemory {
    file_path: String,
}

impl FsDialogMemory {
    pub closed spec fn spec_file_path(&self) -> Seq<char> {
        self.file_path@
    }

    /// The memory with id `mem_id` under `working_dir`.
    pub fn new(working_dir: &str, mem_id: &str) -> (m: Self)
        ensures
            m.spec_file_path() == path_join(path_join(working_dir@, "dialog"@), mem_id@),
    {
        let dir = join_path(working_dir, "dialog");
        FsDialogMemory { file_path: join_path(dir.as_str(), mem_id) }
    }

    /// Where the dialog is kept.
    pub fn file_path(&self) -> (p: &str)
        ensures
            p@ == self.spec_file_path(),
    {
        self.file_path.as_str()
    }
}

/// Where the configuration lives: the given directory, or else the user's
/// configuration directory, with "notyet" joined to it; `None` when there
/// is neither.
pub fn config_path(explicit: Option<&str>, config_dir: Option<&str>) -> (r: Option<String>)
    ensures
        match (explicit, config_dir) {
            (Some(e), _) => r matches Some(p) && p@ == path_join(e@, "notyet"@),
            (None, Some(c)) => r matches Some(p) && p@ == path_join(c@, "notyet"@),
            (None, None) => r is None,
        },
{
    match explicit {
        Some(e) => Some(join_path(e, "notyet")),
        None => match config_dir {
            Some(c) => Some(join_path(c, "notyet")),
            None => None,
        },
    }
}

/// The SHA-256 digest of some bytes.
pub uninterp spec fn sha256_digest(bytes: Seq<u8>) -> Seq<u8>;

/// `sha2::Sha256::digest`; the contract names the result [`sha256_digest`]
/// and says it is 32 bytes long, as SHA-256 digests are.
#[verifier::external_body]
fn sha256(bytes: &Vec<u8>) -> (r: Vec<u8>)
    ensures
        r@ == sha256_digest(bytes@),
        r@.len() == 32,
{
    sha2::Sha256::digest(bytes.as_slice()).to_vec()
}

/// How `format!("{:x}", b)` writes a byte: lower-case hex without leading
/// zeros.
pub open spec fn byte_hex(b: u8) -> Seq<char> {
    if b < 16 {
        seq![crate::source::hex_digit(b as int)]
    } else {
        seq![crate::source::hex_digit(b as int / 16), crate::source::hex_digit(b as int % 16)]
    }
}

pub open spec fn bytes_hex(bs: Seq<u8>) -> Seq<char>
    decreases bs.len(),
{
    if bs.len() == 0 {
        Seq::empty()
    } else {
        bytes_hex(bs.drop_last()) + byte_hex(bs.last())
    }
}

fn hex_char(d: u8) -> (c: char)
    requires
        d < 16,
    ensures
        c == crate::source::hex_digit(d as int),
{
    let digits: [char; 16] = ['0', '1', '2', '3', '4', '5', '6', '7', '8', '9', 'a', 'b', 'c', 'd', 'e', 'f'];
    let c = digits[d as usize];
    assert(digits@ == seq!['0', '1', '2', '3', '4', '5', '6', '7', '8', '9', 'a', 'b', 'c', 'd', 'e', 'f']);
    c
}

/// The name a decision's material is stored under: the SHA-256 digest of
/// its encoding, each byte in hex without leading zeros.
pub fn material_shasum(material: &Vec<u8>) -> (s: String)
    ensures
        s@ == bytes_hex(sha256_digest(material@)),
{
    let digest = sha256(material);
    let mut v: Vec<char> = Vec::new();
    let mut i: usize = 0;
    while i < digest.len()
        invariant
            i <= digest@.len(),
            v@ == bytes_hex(digest@.take(i as int)),
        decreases digest@.len() - i,
    {
        let b = digest[i];
        if b < 16 {
            v.push(hex_char(b));
        } else {
            v.push(hex_char(b / 16));
            v.push(hex_char(b % 16));
        }
        proof {
            assert(digest@.take(i + 1).drop_last() =~= digest@.take(i as int));
            assert(v@ =~= bytes_hex(digest@.take(i + 1)));
        }
        i = i + 1;
    }
    proof {
        assert(digest@.take(i as int) =~= digest@);
    }
    crate::text::chars_to_string(&v)
}

} // verus!
