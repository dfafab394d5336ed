//! Items the database can store.
//!
//! The store is generic over an item capability set: an item supplies a
//! stable sort/display string (for matching), equality (for reconciliation),
//! and a stable identity (for persistence addressing).  The identity is a
//! pure function of the item's comparison-relevant fields only, so that the
//! same logical item resolves to the same identity across rescans and usage
//! history is never lost.  A hash collision is treated as the same entry, an
//! accepted trade-off.
//!
//! [`App`] is the launcher's own item kind: a desktop application.

use vstd::prelude::*;

verus! {

/// FNV-1a 64-bit offset basis.
pub const FNV_OFFSET: u64 = 0xcbf29ce484222325;

/// FNV-1a 64-bit prime.
pub const FNV_PRIME: u64 = 0x100000001b3;

/// One FNV-1a step: fold one byte into the running hash.
pub open spec fn fnv1a_step(h: u64, b: u8) -> u64 {
    (h ^ b as u64).wrapping_mul(FNV_PRIME)
}

/// FNV-1a over a byte sequence, starting from hash state `h`.
pub open spec fn fnv1a_seq(s: Seq<u8>, h: u64) -> u64
    decreases s.len(),
{
    if s.len() == 0 {
        h
    } else {
        fnv1a_seq(s.drop_first(), fnv1a_step(h, s[0]))
    }
}

/// Hashing a concatenation is hashing the parts in order.
pub proof fn lemma_fnv1a_concat(a: Seq<u8>, b: Seq<u8>, h: u64)
    ensures
        fnv1a_seq(a + b, h) == fnv1a_seq(b, fnv1a_seq(a, h)),
    decreases a.len(),
{
    if a.len() == 0 {
        assert(a + b =~= b);
    } else {
        assert((a + b).drop_first() =~= a.drop_first() + b);
        lemma_fnv1a_concat(a.drop_first(), b, fnv1a_step(h, a[0]));
    }
}

/// Fold a byte slice into an FNV-1a hash state.
pub fn fnv1a_bytes(h: u64, s: &[u8]) -> (r: u64)
    ensures
        r == fnv1a_seq(s@, h),
{
    let mut acc = h;
    let mut i: usize = 0;
    proof {
        assert(s@.skip(0) =~= s@);
    }
    while i < s.len()
        invariant
            i <= s@.len(),
            fnv1a_seq(s@, h) == fnv1a_seq(s@.skip(i as int), acc),
        decreases s@.len() - i,
    {
        let b = *vstd::slice::slice_index_get(s, i);
        proof {
            assert(s@.skip(i as int)[0] == s@[i as int]);
            assert(s@.skip(i as int).drop_first() =~= s@.skip(i as int + 1));
        }
        acc = (acc ^ b as u64).wrapping_mul(FNV_PRIME);
        i = i + 1;
    }
    proof {
        assert(s@.skip(i as int) =~= Seq::<u8>::empty());
    }
    acc
}

/// The framing of one string field inside an identity or an encoding: its
/// UTF-8 byte length as eight little-endian bytes, then the bytes themselves.
pub open spec fn framed_bytes(s: Seq<char>) -> Seq<u8> {
    let bytes = vstd::utf8::encode_utf8(s);
    vstd::bytes::spec_u64_to_le_bytes(bytes.len() as u64) + bytes
}

/// Fold one length-framed string field into an FNV-1a hash state.
pub fn fnv1a_framed_str(h: u64, s: &str) -> (r: u64)
    ensures
        r == fnv1a_seq(framed_bytes(s@), h),
{
    let bytes = s.as_bytes();
    let len_bytes = vstd::bytes::u64_to_le_bytes(bytes.len() as u64);
    let h1 = fnv1a_bytes(h, len_bytes.as_slice());
    let h2 = fnv1a_bytes(h1, bytes);
    proof {
        lemma_fnv1a_concat(
            vstd::bytes::spec_u64_to_le_bytes(bytes@.len() as u64),
            bytes@,
            h,
        );
    }
    h2
}

/// An item the frecency database can store, rank and reconcile.
///
/// `identity` must be a pure function of the item's comparison-relevant
/// content: items that compare equal hash alike, and transient data (scores,
/// timestamps) never enters it.
pub trait DBItem: Sized {
    /// The item's stable identity, as a mathematical function of its content.
    spec fn identity_spec(&self) -> u64;

    /// The string the item is matched against search text by.
    spec fn sort_text_spec(&self) -> Seq<char>;

    /// Derive the item's stable identity.
    fn identity(&self) -> (r: u64)
        ensures
            r == self.identity_spec(),
    ;

    /// The string the item is matched against search text by.
    fn get_sort_string(&self) -> (r: &str)
        ensures
            r@ == self.sort_text_spec(),
    ;

    /// An equal copy of the item.
    fn duplicate(&self) -> (r: Self)
        ensures
            r == *self,
    ;
}

/// An application on the machine: the launcher's item kind.
#[derive(Clone, Debug)]
pub struct App {
    /// Display name of the app; also what searches match against.
    pub name: String,
    /// The command line used to run the app.
    pub exec_cmd: String,
    /// Icon name for this app, to be looked up in the system icon theme.
    pub icon: String,
    /// If true, the app is launched inside a terminal emulator.
    pub terminal: bool,
}

impl App {
    /// Create a new app.
    pub fn new(name: String, icon: String, exec: String, terminal: bool) -> (r: App)
        ensures
            r.name == name,
            r.icon == icon,
            r.exec_cmd == exec,
            r.terminal == terminal,
    {
        App { name, icon, exec_cmd: exec, terminal }
    }

    /// Set this app's name, icon, and exec to the values of the other app.
    pub fn merge(&mut self, other: &App)
        ensures
            final(self).name == other.name,
            final(self).icon == other.icon,
            final(self).exec_cmd == other.exec_cmd,
            final(self).terminal == old(self).terminal,
    {
        self.name = other.name.clone();
        self.icon = other.icon.clone();
        self.exec_cmd = other.exec_cmd.clone();
    }
}

/// Two apps are the same logical item when name, exec and icon agree; the
/// terminal flag is presentation, not identity.
impl PartialEq for App {
    fn eq(&self, other: &App) -> (r: bool) {
        self.name == other.name && self.exec_cmd == other.exec_cmd && self.icon == other.icon
    }
}

impl Eq for App {}

impl vstd::std_specs::cmp::PartialEqSpecImpl for App {
    open spec fn obeys_eq_spec() -> bool {
        true
    }

    open spec fn eq_spec(&self, other: &App) -> bool {
        self.name@ == other.name@ && self.exec_cmd@ == other.exec_cmd@ && self.icon@ == other.icon@
    }
}

/// An app's identity as a function of its three comparison-relevant string
/// values: the FNV-1a hash of the fields, each length-framed so that
/// distinct field splits never collide.
pub open spec fn app_identity_of(name: Seq<char>, exec: Seq<char>, icon: Seq<char>) -> u64 {
    fnv1a_seq(framed_bytes(name) + framed_bytes(exec) + framed_bytes(icon), FNV_OFFSET)
}

impl DBItem for App {
    open spec fn identity_spec(&self) -> u64 {
        app_identity_of(self.name@, self.exec_cmd@, self.icon@)
    }

    open spec fn sort_text_spec(&self) -> Seq<char> {
        self.name@
    }

    fn identity(&self) -> (r: u64) {
        let h0 = fnv1a_framed_str(FNV_OFFSET, self.name.as_str());
        let h1 = fnv1a_framed_str(h0, self.exec_cmd.as_str());
        let h2 = fnv1a_framed_str(h1, self.icon.as_str());
        proof {
            lemma_fnv1a_concat(framed_bytes(self.name@), framed_bytes(self.exec_cmd@), FNV_OFFSET);
            lemma_fnv1a_concat(
                framed_bytes(self.name@) + framed_bytes(self.exec_cmd@),
                framed_bytes(self.icon@),
                FNV_OFFSET,
            );
        }
        h2
    }

    fn get_sort_string(&self) -> (r: &str) {
        self.name.as_str()
    }

    fn duplicate(&self) -> (r: App) {
        App {
            name: self.name.clone(),
            exec_cmd: self.exec_cmd.clone(),
            icon: self.icon.clone(),
            terminal: self.terminal,
        }
    }
}

/// A file on the machine: a second item kind, identified by its path.
#[derive(Clone, Debug)]
pub struct File {
    /// Display name of the file; also what searches match against.
    pub name: String,
    /// The file's path; two entries with one path are the same file.
    pub path: String,
}

/// Two files are the same logical item when their paths agree; the display
/// name is presentation, not identity.
impl PartialEq for File {
    fn eq(&self, other: &File) -> (r: bool) {
        self.path == other.path
    }
}

impl Eq for File {}

impl vstd::std_specs::cmp::PartialEqSpecImpl for File {
    open spec fn obeys_eq_spec() -> bool {
        true
    }

    open spec fn eq_spec(&self, other: &File) -> bool {
        self.path@ == other.path@
    }
}

/// A file's identity as a function of its path alone: the FNV-1a hash of
/// the length-framed path.
pub open spec fn file_identity_of(path: Seq<char>) -> u64 {
    fnv1a_seq(framed_bytes(path), FNV_OFFSET)
}

impl DBItem for File {
    open spec fn identity_spec(&self) -> u64 {
        file_identity_of(self.path@)
    }

    open spec fn sort_text_spec(&self) -> Seq<char> {
        self.name@
    }

    fn identity(&self) -> (r: u64) {
        fnv1a_framed_str(FNV_OFFSET, self.path.as_str())
    }

    fn get_sort_string(&self) -> (r: &str) {
        self.name.as_str()
    }

    fn duplicate(&self) -> (r: File) {
        File { name: self.name.clone(), path: self.path.clone() }
    }
}

} // verus!
