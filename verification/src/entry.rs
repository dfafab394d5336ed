//! Desktop entries.
//!
//! A desktop entry file is a sequence of lines: section headers
//! `[Title]`, key–value lines `Key=Value`, comments starting with `#`, and
//! blank lines.  Lines, keys and values are trimmed of spaces, tabs and
//! carriage returns; unrecognized lines are ignored.  The parser reads the
//! `Desktop Entry` section and keeps, for each of the keys `Name`, `Exec`,
//! `NoDisplay`, `Hidden`, `Icon` and `Terminal`, the value of its last
//! occurrence there.
//!
//! An entry whose `NoDisplay` or `Hidden` property is `true` should not be
//! listed; a missing `Name` or `Exec` is an error; a missing `Icon` defaults
//! to the empty string; `Terminal` defaults to `false`; the `Exec` value is
//! stripped of its `%`-placeholder arguments.  The file structure is parsed
//! at the byte level — the ASCII separators never occur inside a multi-byte
//! UTF-8 character — and each used value must be valid UTF-8.

use vstd::prelude::*;

use vstd::string::StringExecFns;
use vstd::utf8::{decode_utf8, encode_utf8, valid_utf8};

use crate::item::App;
use crate::run::{find_from, strip_args_spec};

verus! {

/// Line feed.
pub const NEWLINE: u8 = 10;

/// The bytes trimmed from line, key and value ends: space, tab, carriage
/// return.
pub open spec fn is_blank(b: u8) -> bool {
    b == 32 || b == 9 || b == 13
}

/// `#`, the comment marker.
pub const HASH: u8 = 35;

/// `[`, opening a section header.
pub const OPEN_BRACKET: u8 = 91;

/// `]`, closing a section header.
pub const CLOSE_BRACKET: u8 = 93;

/// `=`, separating a key from its value.
pub const EQUALS_SIGN: u8 = 61;

/// `s` without its leading blanks.
pub open spec fn trim_front(s: Seq<u8>) -> Seq<u8>
    decreases s.len(),
{
    if s.len() > 0 && is_blank(s[0]) {
        trim_front(s.drop_first())
    } else {
        s
    }
}

/// `s` without its trailing blanks.
pub open spec fn trim_back(s: Seq<u8>) -> Seq<u8>
    decreases s.len(),
{
    if s.len() > 0 && is_blank(s.last()) {
        trim_back(s.drop_last())
    } else {
        s
    }
}

/// `s` without leading or trailing blanks.
pub open spec fn trim_spec(s: Seq<u8>) -> Seq<u8> {
    trim_back(trim_front(s))
}

/// What the scanner has gathered: whether the target section was seen,
/// whether the scan stands inside it, and the latest value of each key.
pub struct ScanView {
    /// Has a `[Desktop Entry]` header been seen?
    pub seen_target: bool,
    /// Is the current section the `Desktop Entry` one?
    pub in_target: bool,
    /// The last `Name` value seen in the target section.
    pub name: Option<Seq<u8>>,
    /// The last `Exec` value seen in the target section.
    pub exec_cmd: Option<Seq<u8>>,
    /// The last `Icon` value seen in the target section.
    pub icon: Option<Seq<u8>>,
    /// The last `NoDisplay` value seen in the target section.
    pub no_display: Option<Seq<u8>>,
    /// The last `Hidden` value seen in the target section.
    pub hidden: Option<Seq<u8>>,
    /// The last `Terminal` value seen in the target section.
    pub terminal: Option<Seq<u8>>,
}

/// The scanner's starting state: nothing seen.
pub open spec fn scan_init() -> ScanView {
    ScanView {
        seen_target: false,
        in_target: false,
        name: None,
        exec_cmd: None,
        icon: None,
        no_display: None,
        hidden: None,
        terminal: None,
    }
}

/// One line's effect on the scanner state.
pub open spec fn scan_line(st: ScanView, line: Seq<u8>) -> ScanView {
    let t = trim_spec(line);
    if t.len() == 0 || t[0] == HASH {
        st
    } else if t.len() >= 2 && t[0] == OPEN_BRACKET && t[t.len() - 1] == CLOSE_BRACKET {
        let tgt = t.subrange(1, t.len() - 1) == encode_utf8("Desktop Entry"@);
        ScanView { seen_target: st.seen_target || tgt, in_target: tgt, ..st }
    } else {
        let k = find_from(t, 0, EQUALS_SIGN);
        if 0 <= k < t.len() && st.in_target {
            let key = trim_spec(t.subrange(0, k));
            let value = trim_spec(t.subrange(k + 1, t.len() as int));
            if key == encode_utf8("Name"@) {
                ScanView { name: Some(value), ..st }
            } else if key == encode_utf8("Exec"@) {
                ScanView { exec_cmd: Some(value), ..st }
            } else if key == encode_utf8("NoDisplay"@) {
                ScanView { no_display: Some(value), ..st }
            } else if key == encode_utf8("Hidden"@) {
                ScanView { hidden: Some(value), ..st }
            } else if key == encode_utf8("Icon"@) {
                ScanView { icon: Some(value), ..st }
            } else if key == encode_utf8("Terminal"@) {
                ScanView { terminal: Some(value), ..st }
            } else {
                st
            }
        } else {
            st
        }
    }
}

/// The scanner state after processing the lines of `s` from position `i`
/// on, starting from `st`.
pub open spec fn scan_lines(s: Seq<u8>, i: int, st: ScanView) -> ScanView
    recommends
        0 <= i,
    decreases s.len() + 1 - i,
{
    if i < 0 || i >= s.len() {
        st
    } else {
        let j = find_from(s, i, NEWLINE);
        if i <= j <= s.len() {
            scan_lines(s, j + 1, scan_line(st, s.subrange(i, j)))
        } else {
            st
        }
    }
}

/// What a parsed boolean property value means: only `true` and `false` are
/// accepted.
pub open spec fn bool_of_bytes(v: Seq<u8>) -> Option<bool> {
    if v == encode_utf8("true"@) {
        Some(true)
    } else if v == encode_utf8("false"@) {
        Some(false)
    } else {
        None
    }
}

/// What a whole desktop entry file means.
pub enum EntryOutcome {
    /// No `[Desktop Entry]` section header occurs in the file.
    MissingSection,
    /// The entry asks not to be listed: `NoDisplay` or `Hidden` is `true`.
    NotShown,
    /// The target section carries no `Name` key.
    MissingName,
    /// The target section carries no `Exec` key.
    MissingExec,
    /// A boolean property carries a value that is neither `true` nor
    /// `false`.
    BadProp {
        /// The property's name.
        name: Seq<char>,
        /// The offending value, as bytes.
        value: Seq<u8>,
    },
    /// A value that must be decoded is not valid UTF-8.
    BadEncoding,
    /// A listable application entry.
    Entry {
        /// The `Name` value.
        name: Seq<u8>,
        /// The `Icon` value, or empty when the key is absent.
        icon: Seq<u8>,
        /// The `Exec` value, before placeholder stripping.
        exec_cmd: Seq<u8>,
        /// The `Terminal` flag.
        terminal: bool,
    },
}

/// The outcome of one boolean property: its value, a bad-value report, or
/// a bad-encoding report; an absent property reads as `false`.
pub open spec fn prop_outcome(v: Option<Seq<u8>>, name: Seq<char>) -> Result<bool, EntryOutcome> {
    match v {
        None => Ok(false),
        Some(bytes) => match bool_of_bytes(bytes) {
            Some(b) => Ok(b),
            None => if valid_utf8(bytes) {
                Err(EntryOutcome::BadProp { name, value: bytes })
            } else {
                Err(EntryOutcome::BadEncoding)
            },
        },
    }
}

/// What parsing a desktop entry file yields, checked in the order the
/// parser checks it: the section, `NoDisplay`, `Hidden`, `Name`, `Exec`,
/// the encodings, and `Terminal`.
pub open spec fn entry_outcome(s: Seq<u8>) -> EntryOutcome {
    let st = scan_lines(s, 0, scan_init());
    if !st.seen_target {
        EntryOutcome::MissingSection
    } else {
        match prop_outcome(st.no_display, "NoDisplay"@) {
            Err(e) => e,
            Ok(nd) => if nd {
                EntryOutcome::NotShown
            } else {
                match prop_outcome(st.hidden, "Hidden"@) {
                    Err(e) => e,
                    Ok(hid) => if hid {
                        EntryOutcome::NotShown
                    } else {
                        match st.name {
                            None => EntryOutcome::MissingName,
                            Some(name_b) => match st.exec_cmd {
                                None => EntryOutcome::MissingExec,
                                Some(exec_b) => {
                                    let icon_b = match st.icon {
                                        None => Seq::<u8>::empty(),
                                        Some(b) => b,
                                    };
                                    if !valid_utf8(name_b) || !valid_utf8(exec_b) || !valid_utf8(
                                        icon_b,
                                    ) {
                                        EntryOutcome::BadEncoding
                                    } else {
                                        match prop_outcome(st.terminal, "Terminal"@) {
                                            Err(e) => e,
                                            Ok(term) => EntryOutcome::Entry {
                                                name: name_b,
                                                icon: icon_b,
                                                exec_cmd: exec_b,
                                                terminal: term,
                                            },
                                        }
                                    }
                                },
                            },
                        }
                    },
                }
            },
        }
    }
}

/// An error from parsing a desktop entry.
#[derive(Debug)]
pub enum EntryParseError {
    /// The file has no `Desktop Entry` section.
    MissingSection {
        /// The file the entry came from.
        file: String,
    },
    /// The entry has no `Name` key.
    MissingName {
        /// The file the entry came from.
        file: String,
    },
    /// The entry has no `Exec` key.
    MissingExec {
        /// The file the entry came from.
        file: String,
    },
    /// A boolean property has a value that is neither `true` nor `false`.
    InvalidPropVal {
        /// The file the entry came from.
        file: String,
        /// The property's name.
        name: String,
        /// The offending value.
        value: String,
    },
    /// A value in the entry is not valid UTF-8.
    InvalidEncoding {
        /// The file the entry came from.
        file: String,
    },
}

/// The view of an optional byte buffer.
pub open spec fn opt_bytes(o: Option<Vec<u8>>) -> Option<Seq<u8>> {
    match o {
        None => None,
        Some(v) => Some(v@),
    }
}

/// Are two byte slices equal?
fn bytes_eq(a: &[u8], b: &[u8]) -> (r: bool)
    ensures
        r == (a@ == b@),
{
    if a.len() != b.len() {
        return false;
    }
    let n = a.len();
    let mut i: usize = 0;
    while i < n
        invariant
            n == a@.len() == b@.len(),
            i <= n,
            forall|k: int| 0 <= k < i ==> a@[k] == b@[k],
        decreases n - i,
    {
        if *vstd::slice::slice_index_get(a, i) != *vstd::slice::slice_index_get(b, i) {
            return false;
        }
        i = i + 1;
    }
    proof {
        assert(a@ =~= b@);
    }
    true
}

/// The first position at or after `from` where byte `x` occurs in `s`, or
/// the length of `s` when it does not.
fn bfind(s: &[u8], from: usize, x: u8) -> (r: usize)
    requires
        from <= s@.len(),
    ensures
        r == find_from(s@, from as int, x),
        from <= r <= s@.len(),
{
    let mut i: usize = from;
    let n = s.len();
    while i < n
        invariant
            n == s@.len(),
            from <= i <= n,
            find_from(s@, from as int, x) == find_from(s@, i as int, x),
        decreases n - i,
    {
        if *vstd::slice::slice_index_get(s, i) == x {
            return i;
        }
        i = i + 1;
    }
    i
}

/// Is the byte trimmed from line ends?
fn is_blank_byte(b: u8) -> (r: bool)
    ensures
        r == is_blank(b),
{
    b == 32 || b == 9 || b == 13
}

/// `s` without leading or trailing blanks.
fn trim_slice<'a>(s: &'a [u8]) -> (r: &'a [u8])
    ensures
        r@ == trim_spec(s@),
{
    let n = s.len();
    proof {
        assert(s@.subrange(0, n as int) =~= s@);
    }
    let mut a: usize = 0;
    while a < n && is_blank_byte(*vstd::slice::slice_index_get(s, a))
        invariant
            n == s@.len(),
            a <= n,
            trim_front(s@) == trim_front(s@.subrange(a as int, n as int)),
        decreases n - a,
    {
        proof {
            assert(s@.subrange(a as int, n as int).drop_first() =~= s@.subrange(
                a as int + 1,
                n as int,
            ));
        }
        a = a + 1;
    }
    proof {
        assert(trim_front(s@) == s@.subrange(a as int, n as int));
    }
    let mut b: usize = n;
    while b > a && is_blank_byte(*vstd::slice::slice_index_get(s, b - 1))
        invariant
            n == s@.len(),
            a <= b <= n,
            trim_front(s@) == s@.subrange(a as int, n as int),
            trim_back(s@.subrange(a as int, n as int)) == trim_back(
                s@.subrange(a as int, b as int),
            ),
        decreases b,
    {
        proof {
            assert(s@.subrange(a as int, b as int).drop_last() =~= s@.subrange(
                a as int,
                b as int - 1,
            ));
        }
        b = b - 1;
    }
    proof {
        assert(trim_back(s@.subrange(a as int, b as int)) == s@.subrange(a as int, b as int));
    }
    vstd::slice::slice_subrange(s, a, b)
}

/// Remove the `%`-placeholder arguments from an Exec string: split on
/// spaces, drop every part that starts with `%`, join the rest with single
/// spaces.
pub fn strip_entry_args(exec: &str) -> (r: String)
    ensures
        r@ == strip_args_spec(exec@),
{
    let n = exec.unicode_len();
    let mut out = String::new();
    let mut started = false;
    let mut i: usize = 0;
    proof {
        reveal_strlit(" ");
    }
    loop
        invariant_except_break
            n == exec@.len(),
            i <= n,
            strip_args_spec(exec@) == out@ + crate::run::join_kept(
                crate::run::split_from(exec@, i as int, ' '),
                started,
            ),
        ensures
            out@ == strip_args_spec(exec@),
        decreases n - i,
    {
        let j = crate::run::find_char(exec, i, n, ' ');
        let part = exec.substring_char(i, j);
        let ghost partsrest = crate::run::split_from(exec@, i as int, ' ');
        let ghost old_out = out@;
        let ghost old_started = started;
        let keep = !(part.unicode_len() > 0 && part.get_char(0) == '%');
        if keep {
            if started {
                out.append(" ");
            }
            out.append(part);
            started = true;
        }
        proof {
            reveal_strlit(" ");
            assert(" "@ =~= seq![' ']);
            if j < n {
                assert(find_from(exec@, i as int, ' ') == j as int);
                assert((i as int) <= (j as int) && (j as int) < exec@.len());
                assert(partsrest =~= seq![exec@.subrange(i as int, j as int)]
                    + crate::run::split_from(exec@, j as int + 1, ' '));
                assert(partsrest[0] == part@);
                assert(partsrest.drop_first() =~= crate::run::split_from(exec@, j as int + 1, ' '));
            } else {
                assert(partsrest =~= seq![exec@.subrange(i as int, n as int)]);
                assert(partsrest[0] == part@);
                assert(partsrest.drop_first() =~= Seq::<Seq<char>>::empty());
                assert(crate::run::join_kept(Seq::<Seq<char>>::empty(), true)
                    == Seq::<char>::empty());
                assert(crate::run::join_kept(Seq::<Seq<char>>::empty(), old_started)
                    == Seq::<char>::empty());
            }
            assert(crate::run::keep_part(part@) == keep);
        }
        if j == n {
            proof {
                if keep {
                    assert(out@ =~= old_out + crate::run::join_kept(partsrest, old_started));
                } else {
                    assert(out@ =~= old_out + crate::run::join_kept(partsrest, old_started));
                }
            }
            break;
        }
        i = j + 1;
        proof {
            assert(strip_args_spec(exec@) == out@ + crate::run::join_kept(
                crate::run::split_from(exec@, i as int, ' '),
                started,
            ));
        }
    }
    out
}

/// Read a boolean property value: only `true` and `false` are accepted.
fn check_bool(v: &Vec<u8>) -> (r: Option<bool>)
    ensures
        r == bool_of_bytes(v@),
{
    if bytes_eq(v.as_slice(), "true".as_bytes()) {
        Some(true)
    } else if bytes_eq(v.as_slice(), "false".as_bytes()) {
        Some(false)
    } else {
        None
    }
}

/// The error for a boolean property with a bad value: the offending value
/// attached when it decodes, a bad-encoding report when it does not.
fn bad_prop_error(file: &str, name: &str, v: &Vec<u8>) -> (r: EntryParseError)
    ensures
        valid_utf8(v@) ==> (r matches EntryParseError::InvalidPropVal { file: f, name: nm, value: val }
            && f@ == file@ && nm@ == name@ && val@ == decode_utf8(v@)),
        !valid_utf8(v@) ==> (r matches EntryParseError::InvalidEncoding { file: f } && f@
            == file@),
{
    match crate::codec::string_from_utf8(vstd::slice::slice_to_vec(v.as_slice())) {
        Some(s) => EntryParseError::InvalidPropVal {
            file: String::from_str(file),
            name: String::from_str(name),
            value: s,
        },
        None => EntryParseError::InvalidEncoding { file: String::from_str(file) },
    }
}

impl App {
    /// Parse one desktop entry file, given its contents and its name (for
    /// error reports).
    ///
    /// Returns `Ok(None)` when the entry asks not to be listed
    /// (`NoDisplay` or `Hidden` is `true`), `Ok(Some(app))` for a listable
    /// entry — name, icon (empty when absent), the `Exec` line with its
    /// `%`-placeholders stripped, and the terminal flag — and an error for
    /// a file without a `Desktop Entry` section, without a `Name` or
    /// `Exec` key, with a malformed boolean property, or with a used value
    /// that is not valid UTF-8.
    #[verifier::loop_isolation(false)]
    #[verifier::rlimit(100)]
    pub fn parse_desktop_file(content: &[u8], file: &str) -> (r: Result<
        Option<App>,
        EntryParseError,
    >)
        requires
            content@.len() < usize::MAX,
        ensures
            ({
                let oc = entry_outcome(content@);
                match r {
                    Ok(opt) => match opt {
                        None => oc is NotShown,
                        Some(app) => oc matches EntryOutcome::Entry { name, icon, exec_cmd, terminal }
                            && valid_utf8(name) && valid_utf8(icon) && valid_utf8(exec_cmd)
                            && app.name@ == decode_utf8(name) && app.icon@ == decode_utf8(icon)
                            && app.exec_cmd@ == strip_args_spec(decode_utf8(exec_cmd))
                            && app.terminal == terminal,
                    },
                    Err(e) => match e {
                        EntryParseError::MissingSection { file: f } => oc is MissingSection && f@
                            == file@,
                        EntryParseError::MissingName { file: f } => oc is MissingName && f@
                            == file@,
                        EntryParseError::MissingExec { file: f } => oc is MissingExec && f@
                            == file@,
                        EntryParseError::InvalidPropVal { file: f, name: nm, value: val } => oc
                            matches EntryOutcome::BadProp { name, value } && f@ == file@ && nm@
                            == name && valid_utf8(value) && val@ == decode_utf8(value),
                        EntryParseError::InvalidEncoding { file: f } => oc is BadEncoding && f@
                            == file@,
                    },
                }
            }),
    {
        let n = content.len();
        let mut seen_target = false;
        let mut in_target = false;
        let mut name: Option<Vec<u8>> = None;
        let mut exec_v: Option<Vec<u8>> = None;
        let mut icon: Option<Vec<u8>> = None;
        let mut no_display: Option<Vec<u8>> = None;
        let mut hidden: Option<Vec<u8>> = None;
        let mut terminal: Option<Vec<u8>> = None;
        let mut i: usize = 0;
        while i < n
            invariant
                n == content@.len(),
                i <= n + 1,
                scan_lines(content@, 0, scan_init()) == scan_lines(
                    content@,
                    i as int,
                    (ScanView {
                        seen_target,
                        in_target,
                        name: opt_bytes(name),
                        exec_cmd: opt_bytes(exec_v),
                        icon: opt_bytes(icon),
                        no_display: opt_bytes(no_display),
                        hidden: opt_bytes(hidden),
                        terminal: opt_bytes(terminal),
                    }),
                ),
            decreases n + 1 - i,
        {
            let ghost st0 = ScanView {
                seen_target,
                in_target,
                name: opt_bytes(name),
                exec_cmd: opt_bytes(exec_v),
                icon: opt_bytes(icon),
                no_display: opt_bytes(no_display),
                hidden: opt_bytes(hidden),
                terminal: opt_bytes(terminal),
            };
            let j = bfind(content, i, NEWLINE);
            let line = vstd::slice::slice_subrange(content, i, j);
            let t = trim_slice(line);
            if t.len() == 0 || *vstd::slice::slice_index_get(t, 0) == HASH {
                // blank line or comment
            } else if t.len() >= 2 && *vstd::slice::slice_index_get(t, 0) == OPEN_BRACKET
                && *vstd::slice::slice_index_get(t, t.len() - 1) == CLOSE_BRACKET {
                let title = vstd::slice::slice_subrange(t, 1, t.len() - 1);
                let tgt = bytes_eq(title, "Desktop Entry".as_bytes());
                seen_target = seen_target || tgt;
                in_target = tgt;
            } else {
                let k = bfind(t, 0, EQUALS_SIGN);
                if k < t.len() && in_target {
                    let key = trim_slice(vstd::slice::slice_subrange(t, 0, k));
                    let value = trim_slice(vstd::slice::slice_subrange(t, k + 1, t.len()));
                    if bytes_eq(key, "Name".as_bytes()) {
                        name = Some(vstd::slice::slice_to_vec(value));
                    } else if bytes_eq(key, "Exec".as_bytes()) {
                        exec_v = Some(vstd::slice::slice_to_vec(value));
                    } else if bytes_eq(key, "NoDisplay".as_bytes()) {
                        no_display = Some(vstd::slice::slice_to_vec(value));
                    } else if bytes_eq(key, "Hidden".as_bytes()) {
                        hidden = Some(vstd::slice::slice_to_vec(value));
                    } else if bytes_eq(key, "Icon".as_bytes()) {
                        icon = Some(vstd::slice::slice_to_vec(value));
                    } else if bytes_eq(key, "Terminal".as_bytes()) {
                        terminal = Some(vstd::slice::slice_to_vec(value));
                    }
                }
            }
            proof {
                let st1 = ScanView {
                    seen_target,
                    in_target,
                    name: opt_bytes(name),
                    exec_cmd: opt_bytes(exec_v),
                    icon: opt_bytes(icon),
                    no_display: opt_bytes(no_display),
                    hidden: opt_bytes(hidden),
                    terminal: opt_bytes(terminal),
                };
                assert(st1 == scan_line(st0, content@.subrange(i as int, j as int)));
                assert(scan_lines(content@, i as int, st0) == scan_lines(
                    content@,
                    j as int + 1,
                    st1,
                ));
            }
            i = j + 1;
        }
        let ghost st = scan_lines(content@, 0, scan_init());
        proof {
            assert(st == ScanView {
                seen_target,
                in_target,
                name: opt_bytes(name),
                exec_cmd: opt_bytes(exec_v),
                icon: opt_bytes(icon),
                no_display: opt_bytes(no_display),
                hidden: opt_bytes(hidden),
                terminal: opt_bytes(terminal),
            });
        }
        if !seen_target {
            return Err(EntryParseError::MissingSection { file: String::from_str(file) });
        }
        let nd = match &no_display {
            None => false,
            Some(v) => match check_bool(v) {
                Some(b) => b,
                None => {
                    return Err(bad_prop_error(file, "NoDisplay", v));
                },
            },
        };
        if nd {
            return Ok(None);
        }
        let hid = match &hidden {
            None => false,
            Some(v) => match check_bool(v) {
                Some(b) => b,
                None => {
                    return Err(bad_prop_error(file, "Hidden", v));
                },
            },
        };
        if hid {
            return Ok(None);
        }
        let name_b = match name {
            None => {
                return Err(EntryParseError::MissingName { file: String::from_str(file) });
            },
            Some(v) => v,
        };
        let exec_b = match exec_v {
            None => {
                return Err(EntryParseError::MissingExec { file: String::from_str(file) });
            },
            Some(v) => v,
        };
        let icon_b = match icon {
            None => Vec::new(),
            Some(v) => v,
        };
        let name_s = match crate::codec::string_from_utf8(name_b) {
            None => {
                return Err(EntryParseError::InvalidEncoding { file: String::from_str(file) });
            },
            Some(s) => s,
        };
        let exec_s = match crate::codec::string_from_utf8(exec_b) {
            None => {
                return Err(EntryParseError::InvalidEncoding { file: String::from_str(file) });
            },
            Some(s) => s,
        };
        let icon_s = match crate::codec::string_from_utf8(icon_b) {
            None => {
                return Err(EntryParseError::InvalidEncoding { file: String::from_str(file) });
            },
            Some(s) => s,
        };
        let term = match &terminal {
            None => false,
            Some(v) => match check_bool(v) {
                Some(b) => b,
                None => {
                    return Err(bad_prop_error(file, "Terminal", v));
                },
            },
        };
        let stripped = strip_entry_args(exec_s.as_str());
        Ok(Some(App::new(name_s, icon_s, stripped, term)))
    }
}

} // verus!
