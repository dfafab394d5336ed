//! Persistence: the flat binary blob the database is saved as.
//!
//! The layout is a fixed header — reference time, half-life and record
//! count, each as eight little-endian bytes — followed by one entry per
//! record: identity, raw score, then the item's three strings, each framed
//! by its UTF-8 byte length, and one terminal-flag byte.
//!
//! [`FrecencyDB::save`] produces exactly this encoding;
//! [`FrecencyDB::load`] parses it back, rejecting anything malformed —
//! truncated input, invalid UTF-8, trailing bytes, an unusable half-life, a
//! score over the cap, a repeated identity, or an identity that is not the
//! hash of its own item — so that every loaded database is well-formed.
//! [`lemma_save_load_round_trip`] proves that decoding an encoded database
//! gives the database back.

use vstd::prelude::*;
use vstd::string::StringExecFns;

use vstd::bytes::{spec_u64_from_le_bytes, spec_u64_to_le_bytes, u64_from_le_bytes, u64_to_le_bytes};
use vstd::utf8::{decode_utf8, encode_utf8, valid_utf8};

use crate::frecency::{FrecencyDB, Record};
use crate::item::{framed_bytes, App, DBItem};
use crate::score::{valid_half_life, SCORE_CAP};

verus! {

/// The spec-level image of one persisted record: plain values only.
pub struct RecView {
    /// The record's stable identity.
    pub id: u64,
    /// The raw score in millipoints.
    pub score: u64,
    /// The app's display name.
    pub name: Seq<char>,
    /// The app's command line.
    pub exec_cmd: Seq<char>,
    /// The app's icon name.
    pub icon: Seq<char>,
    /// Whether the app runs in a terminal.
    pub terminal: bool,
}

/// The spec-level image of a whole persisted database.
pub struct DbView {
    /// The reference time, milliseconds since the epoch.
    pub reference_time: u64,
    /// The half-life, milliseconds.
    pub half_life: u64,
    /// The records, in store order.
    pub recs: Seq<RecView>,
}

/// The image of one in-memory record.
pub open spec fn rec_view(r: Record<App>) -> RecView {
    RecView {
        id: r.id,
        score: r.score,
        name: r.item.name@,
        exec_cmd: r.item.exec_cmd@,
        icon: r.item.icon@,
        terminal: r.item.terminal,
    }
}

/// The image of an in-memory database.
pub open spec fn db_view(db: FrecencyDB<App>) -> DbView {
    DbView {
        reference_time: db.reference_time_spec(),
        half_life: db.half_life_spec(),
        recs: db.recs().map_values(|r: Record<App>| rec_view(r)),
    }
}

/// The encoding of one record image.
pub open spec fn rec_enc(rv: RecView) -> Seq<u8> {
    spec_u64_to_le_bytes(rv.id) + spec_u64_to_le_bytes(rv.score) + framed_bytes(rv.name)
        + framed_bytes(rv.exec_cmd) + framed_bytes(rv.icon) + seq![
        if rv.terminal {
            1u8
        } else {
            0u8
        },
    ]
}

/// The encoding of a record image sequence, first record first.
pub open spec fn recs_enc(rvs: Seq<RecView>) -> Seq<u8>
    decreases rvs.len(),
{
    if rvs.len() == 0 {
        Seq::empty()
    } else {
        rec_enc(rvs[0]) + recs_enc(rvs.drop_first())
    }
}

/// The encoding of a whole database image: the header, then the records.
pub open spec fn db_enc(dv: DbView) -> Seq<u8> {
    spec_u64_to_le_bytes(dv.reference_time) + spec_u64_to_le_bytes(dv.half_life)
        + spec_u64_to_le_bytes(dv.recs.len() as u64) + recs_enc(dv.recs)
}

/// Appending a record appends its encoding.
proof fn lemma_recs_enc_push(rvs: Seq<RecView>, rv: RecView)
    ensures
        recs_enc(rvs.push(rv)) == recs_enc(rvs) + rec_enc(rv),
    decreases rvs.len(),
{
    if rvs.len() == 0 {
        assert(rvs.push(rv).drop_first() =~= Seq::<RecView>::empty());
        assert(rvs.push(rv)[0] == rv);
        assert(recs_enc(rvs.push(rv).drop_first()) =~= Seq::<u8>::empty());
        assert(recs_enc(rvs.push(rv)) =~= recs_enc(rvs) + rec_enc(rv));
    } else {
        assert(rvs.push(rv).drop_first() =~= rvs.drop_first().push(rv));
        lemma_recs_enc_push(rvs.drop_first(), rv);
        assert(rvs.push(rv)[0] == rvs[0]);
        assert(recs_enc(rvs.push(rv)) =~= recs_enc(rvs) + rec_enc(rv));
    }
}

/// Parse eight little-endian bytes at `pos` as a `u64`.
pub open spec fn dec_u64(s: Seq<u8>, pos: int) -> Option<(u64, int)> {
    if 0 <= pos && pos + 8 <= s.len() {
        Some((spec_u64_from_le_bytes(s.subrange(pos, pos + 8)), pos + 8))
    } else {
        None
    }
}

/// Parse one length-framed string at `pos`.
pub open spec fn dec_str(s: Seq<u8>, pos: int) -> Option<(Seq<char>, int)> {
    match dec_u64(s, pos) {
        None => None,
        Some((n, p)) => if p + n <= s.len() {
            let bytes = s.subrange(p, p + n);
            if valid_utf8(bytes) {
                Some((decode_utf8(bytes), p + n))
            } else {
                None
            }
        } else {
            None
        },
    }
}

/// A record image the store accepts: score under the cap, and the identity
/// really the hash of the item's own content.
pub open spec fn valid_rec_view(rv: RecView) -> bool {
    &&& rv.score <= SCORE_CAP
    &&& rv.id == crate::item::app_identity_of(rv.name, rv.exec_cmd, rv.icon)
}

/// Parse one persisted record at `pos`.
pub open spec fn dec_rec(s: Seq<u8>, pos: int) -> Option<(RecView, int)> {
    match dec_u64(s, pos) {
        None => None,
        Some((id, p1)) => match dec_u64(s, p1) {
            None => None,
            Some((score, p2)) => match dec_str(s, p2) {
                None => None,
                Some((name, p3)) => match dec_str(s, p3) {
                    None => None,
                    Some((exec, p4)) => match dec_str(s, p4) {
                        None => None,
                        Some((icon, p5)) => if p5 < s.len() && (s[p5] == 0 || s[p5] == 1) {
                            let rv = RecView {
                                id,
                                score,
                                name,
                                exec_cmd: exec,
                                icon,
                                terminal: s[p5] == 1,
                            };
                            if valid_rec_view(rv) {
                                Some((rv, p5 + 1))
                            } else {
                                None
                            }
                        } else {
                            None
                        },
                    },
                },
            },
        },
    }
}

/// Parse `cnt` consecutive records starting at `pos`.
pub open spec fn dec_recs(s: Seq<u8>, pos: int, cnt: int) -> Option<(Seq<RecView>, int)>
    decreases cnt,
{
    if cnt <= 0 {
        Some((Seq::empty(), pos))
    } else {
        match dec_rec(s, pos) {
            None => None,
            Some((rv, p)) => match dec_recs(s, p, cnt - 1) {
                None => None,
                Some((rest, p2)) => Some((seq![rv] + rest, p2)),
            },
        }
    }
}

/// No two record images share an identity.
pub open spec fn unique_view_ids(rvs: Seq<RecView>) -> bool {
    forall|i: int, j: int|
        0 <= i < j < rvs.len() ==> (#[trigger] rvs[i]).id != (#[trigger] rvs[j]).id
}

/// Parse a whole persisted database: header, records, and nothing after
/// them; reject an unusable half-life or a repeated identity.
pub open spec fn db_dec(s: Seq<u8>) -> Option<DbView> {
    match dec_u64(s, 0) {
        None => None,
        Some((rt, p1)) => match dec_u64(s, p1) {
            None => None,
            Some((hl, p2)) => match dec_u64(s, p2) {
                None => None,
                Some((cnt, p3)) => if !valid_half_life(hl) {
                    None
                } else {
                    match dec_recs(s, p3, cnt as int) {
                        None => None,
                        Some((rvs, p4)) => if p4 == s.len() && unique_view_ids(rvs) {
                            Some(DbView { reference_time: rt, half_life: hl, recs: rvs })
                        } else {
                            None
                        },
                    }
                },
            },
        },
    }
}

/// A string short enough that its byte length survives the 64-bit frame.
pub open spec fn str_encodable(cs: Seq<char>) -> bool {
    encode_utf8(cs).len() < 0x10000000000000000
}

/// A record image whose strings all frame exactly.
pub open spec fn rec_encodable(rv: RecView) -> bool {
    str_encodable(rv.name) && str_encodable(rv.exec_cmd) && str_encodable(rv.icon)
}

/// A database whose encoding parses back: every string and the record count
/// fit their 64-bit frames.  Any store built by this library satisfies it,
/// since every string and vector lives in memory.
pub open spec fn db_encodable(db: FrecencyDB<App>) -> bool {
    &&& db.recs().len() < 0x10000000000000000
    &&& forall|i: int|
        0 <= i < db.recs().len() ==> rec_encodable(rec_view(#[trigger] db.recs()[i]))
}

/// Decoding an encoded `u64` gives it back.
proof fn lemma_dec_u64_of_enc(x: u64, s: Seq<u8>, pos: int)
    requires
        0 <= pos,
        pos + 8 <= s.len(),
        s.subrange(pos, pos + 8) == spec_u64_to_le_bytes(x),
    ensures
        dec_u64(s, pos) == Some((x, pos + 8)),
{
    vstd::bytes::lemma_auto_spec_u64_to_from_le_bytes();
}

/// Decoding an encoded string gives it back.
proof fn lemma_dec_str_of_enc(cs: Seq<char>, s: Seq<u8>, pos: int)
    requires
        str_encodable(cs),
        0 <= pos,
        pos + framed_bytes(cs).len() <= s.len(),
        s.subrange(pos, pos + framed_bytes(cs).len()) == framed_bytes(cs),
    ensures
        dec_str(s, pos) == Some((cs, pos + framed_bytes(cs).len())),
{
    let bytes = encode_utf8(cs);
    let framed = framed_bytes(cs);
    let flen = framed.len() as int;
    vstd::bytes::lemma_auto_spec_u64_to_from_le_bytes();
    assert(framed.len() == 8 + bytes.len());
    assert(s.subrange(pos, pos + 8) =~= s.subrange(pos, pos + flen).subrange(0, 8));
    assert(framed.subrange(0, 8) =~= spec_u64_to_le_bytes(bytes.len() as u64));
    lemma_dec_u64_of_enc(bytes.len() as u64, s, pos);
    assert(s.subrange(pos + 8, pos + 8 + bytes.len() as int) =~= s.subrange(
        pos,
        pos + flen,
    ).subrange(8, flen));
    assert(framed.subrange(8, flen) =~= bytes);
    vstd::utf8::encode_utf8_valid_utf8(cs);
    vstd::utf8::encode_utf8_decode_utf8(cs);
}

/// Decoding an encoded record gives it back.
proof fn lemma_dec_rec_of_enc(rv: RecView, s: Seq<u8>, pos: int)
    requires
        valid_rec_view(rv),
        rec_encodable(rv),
        0 <= pos,
        pos + rec_enc(rv).len() <= s.len(),
        s.subrange(pos, pos + rec_enc(rv).len()) == rec_enc(rv),
    ensures
        dec_rec(s, pos) == Some((rv, pos + rec_enc(rv).len())),
{
    let enc = rec_enc(rv);
    let n = enc.len() as int;
    vstd::bytes::lemma_auto_spec_u64_to_from_le_bytes();
    let fname = framed_bytes(rv.name);
    let fexec = framed_bytes(rv.exec_cmd);
    let ficon = framed_bytes(rv.icon);
    let p1 = pos + 8;
    let p2 = p1 + 8;
    let p3 = p2 + fname.len() as int;
    let p4 = p3 + fexec.len() as int;
    let p5 = p4 + ficon.len() as int;
    assert(s.subrange(pos, pos + 8) =~= s.subrange(pos, pos + n).subrange(0, 8));
    assert(enc.subrange(0, 8) =~= spec_u64_to_le_bytes(rv.id));
    lemma_dec_u64_of_enc(rv.id, s, pos);
    assert(s.subrange(p1, p1 + 8) =~= s.subrange(pos, pos + n).subrange(8, 16));
    assert(enc.subrange(8, 16) =~= spec_u64_to_le_bytes(rv.score));
    lemma_dec_u64_of_enc(rv.score, s, p1);
    assert(s.subrange(p2, p3) =~= s.subrange(pos, pos + n).subrange(p2 - pos, p3 - pos));
    assert(enc.subrange(p2 - pos, p3 - pos) =~= fname);
    lemma_dec_str_of_enc(rv.name, s, p2);
    assert(s.subrange(p3, p4) =~= s.subrange(pos, pos + n).subrange(p3 - pos, p4 - pos));
    assert(enc.subrange(p3 - pos, p4 - pos) =~= fexec);
    lemma_dec_str_of_enc(rv.exec_cmd, s, p3);
    assert(s.subrange(p4, p5) =~= s.subrange(pos, pos + n).subrange(p4 - pos, p5 - pos));
    assert(enc.subrange(p4 - pos, p5 - pos) =~= ficon);
    lemma_dec_str_of_enc(rv.icon, s, p4);
    assert(s[p5] == s.subrange(pos, pos + n)[n - 1]);
    assert(enc[n - 1] == if rv.terminal {
        1u8
    } else {
        0u8
    });
}

/// Decoding an encoded record sequence gives it back.
proof fn lemma_dec_recs_of_enc(rvs: Seq<RecView>, s: Seq<u8>, pos: int)
    requires
        forall|k: int| 0 <= k < rvs.len() ==> valid_rec_view(#[trigger] rvs[k]),
        forall|k: int| 0 <= k < rvs.len() ==> rec_encodable(#[trigger] rvs[k]),
        0 <= pos,
        pos + recs_enc(rvs).len() <= s.len(),
        s.subrange(pos, pos + recs_enc(rvs).len()) == recs_enc(rvs),
    ensures
        dec_recs(s, pos, rvs.len() as int) == Some((rvs, pos + recs_enc(rvs).len())),
    decreases rvs.len(),
{
    if rvs.len() == 0 {
        assert(rvs =~= Seq::<RecView>::empty());
    } else {
        let head = rvs[0];
        let tail = rvs.drop_first();
        let henc = rec_enc(head);
        let tenc = recs_enc(tail);
        assert(recs_enc(rvs) == henc + tenc);
        let all = recs_enc(rvs).len() as int;
        assert(s.subrange(pos, pos + henc.len() as int) =~= s.subrange(pos, pos + all).subrange(
            0,
            henc.len() as int,
        ));
        assert((henc + tenc).subrange(0, henc.len() as int) =~= henc);
        lemma_dec_rec_of_enc(head, s, pos);
        let p = pos + henc.len() as int;
        assert(s.subrange(p, p + tenc.len() as int) =~= s.subrange(pos, pos + all).subrange(
            henc.len() as int,
            all,
        ));
        assert((henc + tenc).subrange(henc.len() as int, all) =~= tenc);
        lemma_dec_recs_of_enc(tail, s, p);
        assert(seq![head] + tail =~= rvs);
    }
}

/// Round-trip law: decoding the encoding of any well-formed, encodable
/// database image yields exactly that image — a database saved and loaded
/// again has the same reference time, half-life, identities, scores and
/// items.
pub proof fn lemma_save_load_round_trip(db: FrecencyDB<App>)
    requires
        db.wf(),
        db_encodable(db),
    ensures
        db_dec(db_enc(db_view(db))) == Some(db_view(db)),
{
    let dv = db_view(db);
    let s = db_enc(dv);
    let renc = recs_enc(dv.recs);
    vstd::bytes::lemma_auto_spec_u64_to_from_le_bytes();
    assert forall|k: int| 0 <= k < dv.recs.len() implies valid_rec_view(#[trigger] dv.recs[k])
        && rec_encodable(dv.recs[k]) by {
        assert(dv.recs[k] == rec_view(db.recs()[k]));
        assert(rec_encodable(rec_view(db.recs()[k])));
    }
    assert(s.subrange(0, 8) =~= spec_u64_to_le_bytes(dv.reference_time));
    lemma_dec_u64_of_enc(dv.reference_time, s, 0);
    assert(s.subrange(8, 16) =~= spec_u64_to_le_bytes(dv.half_life));
    lemma_dec_u64_of_enc(dv.half_life, s, 8);
    assert(s.subrange(16, 24) =~= spec_u64_to_le_bytes(dv.recs.len() as u64));
    lemma_dec_u64_of_enc(dv.recs.len() as u64, s, 16);
    assert(s.subrange(24, 24 + renc.len() as int) =~= renc);
    lemma_dec_recs_of_enc(dv.recs, s, 24);
    assert(unique_view_ids(dv.recs)) by {
        assert forall|i: int, j: int| 0 <= i < j < dv.recs.len() implies (
        #[trigger] dv.recs[i]).id != (#[trigger] dv.recs[j]).id by {
            assert(dv.recs[i] == rec_view(db.recs()[i]));
            assert(dv.recs[j] == rec_view(db.recs()[j]));
            assert(db.recs()[i].id != db.recs()[j].id);
        }
    }
}

/// Append a `u64` to the output, little-endian.
fn push_u64(out: &mut Vec<u8>, x: u64)
    ensures
        final(out)@ == old(out)@ + spec_u64_to_le_bytes(x),
{
    let mut b = u64_to_le_bytes(x);
    out.append(&mut b);
}

/// Append one length-framed string to the output.
fn push_framed_str(out: &mut Vec<u8>, s: &str)
    ensures
        final(out)@ == old(out)@ + framed_bytes(s@),
{
    let bytes = s.as_bytes();
    push_u64(out, bytes.len() as u64);
    let mut tail = vstd::slice::slice_to_vec(bytes);
    out.append(&mut tail);
    proof {
        assert(final(out)@ =~= old(out)@ + framed_bytes(s@));
    }
}

/// An error of the flat-blob apps database: opening, creating or writing
/// the file — raised by the I/O layer around this store — or parsing its
/// contents back.
#[derive(Debug)]
pub enum AppDBError {
    /// The database file could not be opened; holds the path.
    FileOpen(String),
    /// The database file could not be created; holds the path.
    FileCreate(String),
    /// The database file could not be written; holds the path.
    FileWrite(String),
    /// The persisted bytes could not be parsed back; holds the path or a
    /// description of the source.
    ParseDB(String),
}

impl AppDBError {
    /// A human-readable description of the error: what failed, and on
    /// which file.
    pub fn message(&self) -> (r: String)
        ensures
            match self {
                AppDBError::FileOpen(path) => r@ == "Error opening apps database file "@ + path@,
                AppDBError::FileCreate(path) => r@ == "Error creating apps database file "@
                    + path@,
                AppDBError::FileWrite(path) => r@ == "Error writing to apps database file "@
                    + path@,
                AppDBError::ParseDB(path) => r@ == "Error parsing apps database file "@ + path@,
            },
    {
        let mut s = String::new();
        match self {
            AppDBError::FileOpen(path) => {
                s.append("Error opening apps database file ");
                s.append(path.as_str());
            },
            AppDBError::FileCreate(path) => {
                s.append("Error creating apps database file ");
                s.append(path.as_str());
            },
            AppDBError::FileWrite(path) => {
                s.append("Error writing to apps database file ");
                s.append(path.as_str());
            },
            AppDBError::ParseDB(path) => {
                s.append("Error parsing apps database file ");
                s.append(path.as_str());
            },
        }
        s
    }
}

/// The error a malformed database image is rejected with.
fn parse_error() -> (r: AppDBError)
    ensures
        r is ParseDB,
{
    AppDBError::ParseDB(String::new())
}

/// Relies on `String::from_utf8`: it succeeds exactly on valid UTF-8 input,
/// and the returned string's characters are the bytes' UTF-8 decoding.
#[verifier::external_body]
pub(crate) fn string_from_utf8(v: Vec<u8>) -> (r: Option<String>)
    ensures
        match r {
            Some(s) => valid_utf8(v@) && s@ == decode_utf8(v@),
            None => !valid_utf8(v@),
        },
{
    match String::from_utf8(v) {
        Ok(s) => Some(s),
        Err(_) => None,
    }
}

/// Read eight little-endian bytes at `pos` as a `u64`.
fn read_u64_at(s: &[u8], pos: usize) -> (r: Option<(u64, usize)>)
    ensures
        match r {
            Some((x, p)) => dec_u64(s@, pos as int) == Some((x, p as int)),
            None => dec_u64(s@, pos as int) is None,
        },
{
    if s.len() >= 8 && pos <= s.len() - 8 {
        let sub = vstd::slice::slice_subrange(s, pos, pos + 8);
        let x = u64_from_le_bytes(sub);
        Some((x, pos + 8))
    } else {
        None
    }
}

/// Read one length-framed string at `pos`.
fn read_str_at(s: &[u8], pos: usize) -> (r: Option<(String, usize)>)
    ensures
        match r {
            Some((st, p)) => dec_str(s@, pos as int) == Some((st@, p as int)),
            None => dec_str(s@, pos as int) is None,
        },
{
    match read_u64_at(s, pos) {
        None => None,
        Some((n, p)) => {
            if n <= (s.len() - p) as u64 {
                let nn = n as usize;
                let sub = vstd::slice::slice_subrange(s, p, p + nn);
                let v = vstd::slice::slice_to_vec(sub);
                match string_from_utf8(v) {
                    Some(st) => Some((st, p + nn)),
                    None => None,
                }
            } else {
                None
            }
        },
    }
}

/// Read one persisted record at `pos`, rejecting a score over the cap and
/// an identity that is not the hash of the record's own item.
fn read_rec_at(s: &[u8], pos: usize) -> (r: Option<(Record<App>, usize)>)
    ensures
        match r {
            Some((rec, p)) => {
                &&& dec_rec(s@, pos as int) == Some((rec_view(rec), p as int))
                &&& rec.score <= SCORE_CAP
                &&& rec.id == rec.item.identity_spec()
            },
            None => dec_rec(s@, pos as int) is None,
        },
{
    let (id, p1) = match read_u64_at(s, pos) {
        Some(v) => v,
        None => {
            return None;
        },
    };
    let (score, p2) = match read_u64_at(s, p1) {
        Some(v) => v,
        None => {
            return None;
        },
    };
    let (name, p3) = match read_str_at(s, p2) {
        Some(v) => v,
        None => {
            return None;
        },
    };
    let (exec, p4) = match read_str_at(s, p3) {
        Some(v) => v,
        None => {
            return None;
        },
    };
    let (icon, p5) = match read_str_at(s, p4) {
        Some(v) => v,
        None => {
            return None;
        },
    };
    if p5 < s.len() {
        let b = *vstd::slice::slice_index_get(s, p5);
        if b == 0 || b == 1 {
            let app = App::new(name, icon, exec, b == 1);
            if score <= SCORE_CAP {
                let ident = crate::item::DBItem::identity(&app);
                if ident == id {
                    return Some((Record { id, score, item: app }, p5 + 1));
                }
            }
            return None;
        }
    }
    None
}

impl FrecencyDB<App> {
    /// Parse a database back out of the flat binary blob.
    ///
    /// Fails, with a parse error and without partial results, on anything
    /// the encoding cannot produce: truncated input, invalid UTF-8,
    /// trailing bytes, an unusable half-life, a score over the cap, a
    /// repeated identity, or an identity that does not hash its own item.
    /// Every database it returns is well-formed.
    #[verifier::loop_isolation(false)]
    #[verifier::rlimit(100)]
    pub fn load(bytes: &[u8]) -> (r: Result<FrecencyDB<App>, AppDBError>)
        ensures
            match r {
                Ok(db) => db.wf() && db_dec(bytes@) == Some(db_view(db)),
                Err(e) => e is ParseDB && db_dec(bytes@) is None,
            },
    {
        let (rt, p1) = match read_u64_at(bytes, 0) {
            Some(v) => v,
            None => {
                return Err(parse_error());
            },
        };
        let (hl, p2) = match read_u64_at(bytes, p1) {
            Some(v) => v,
            None => {
                return Err(parse_error());
            },
        };
        let (cnt, p3) = match read_u64_at(bytes, p2) {
            Some(v) => v,
            None => {
                return Err(parse_error());
            },
        };
        if hl < 1 || hl > crate::score::HALF_LIFE_MAX {
            return Err(parse_error());
        }
        let mut records: Vec<Record<App>> = Vec::new();
        let mut pos: usize = p3;
        let mut k: u64 = 0;
        while k < cnt
            invariant
                pos <= bytes@.len(),
                k <= cnt,
                records@.len() == k,
                forall|x: int|
                    0 <= x < records@.len() ==> (#[trigger] records@[x]).score <= SCORE_CAP
                        && records@[x].id == records@[x].item.identity_spec(),
                dec_recs(bytes@, p3 as int, cnt as int) == (match dec_recs(
                    bytes@,
                    pos as int,
                    cnt - k,
                ) {
                    None => None::<(Seq<RecView>, int)>,
                    Some((rest, pp)) => Some(
                        (records@.map_values(|rec: Record<App>| rec_view(rec)) + rest, pp),
                    ),
                }),
            decreases cnt - k,
        {
            let ghost views_before = records@.map_values(|rec: Record<App>| rec_view(rec));
            match read_rec_at(bytes, pos) {
                None => {
                    proof {
                        assert(cnt - k > 0);
                        assert(dec_recs(bytes@, pos as int, cnt - k) is None);
                        assert(dec_recs(bytes@, p3 as int, cnt as int) is None);
                    }
                    return Err(parse_error());
                },
                Some((rec, p)) => {
                    records.push(rec);
                    pos = p;
                    proof {
                        assert(records@.map_values(|rec2: Record<App>| rec_view(rec2))
                            =~= views_before.push(rec_view(rec)));
                        assert forall|rest: Seq<RecView>|
                            true implies views_before + (seq![rec_view(rec)] + rest) =~= (
                        views_before.push(rec_view(rec)) + rest) by {}
                    }
                },
            }
            k = k + 1;
        }
        proof {
            assert(dec_recs(bytes@, pos as int, 0) == Some((Seq::<RecView>::empty(), pos as int)));
            assert(records@.map_values(|rec: Record<App>| rec_view(rec)) + Seq::<RecView>::empty()
                =~= records@.map_values(|rec: Record<App>| rec_view(rec)));
        }
        if pos != bytes.len() {
            return Err(parse_error());
        }
        let ghost views = records@.map_values(|rec: Record<App>| rec_view(rec));
        // reject repeated identities, so that the loaded store is sound
        let mut ids: Vec<u64> = Vec::new();
        let mut x: usize = 0;
        while x < records.len()
            invariant
                x <= records@.len(),
                ids@ == records@.take(x as int).map_values(|rec: Record<App>| rec.id),
                records@.map_values(|rec: Record<App>| rec_view(rec)) == views,
            decreases records@.len() - x,
        {
            ids.push(records[x].id);
            proof {
                assert(records@.take(x as int + 1).map_values(|rec: Record<App>| rec.id)
                    =~= records@.take(x as int).map_values(|rec: Record<App>| rec.id).push(
                    records@[x as int].id,
                ));
            }
            x = x + 1;
        }
        proof {
            assert(records@.take(records@.len() as int) =~= records@);
        }
        let mut y: usize = 0;
        while y < ids.len()
            invariant
                y <= ids@.len(),
                ids@ == records@.map_values(|rec: Record<App>| rec.id),
                records@.map_values(|rec: Record<App>| rec_view(rec)) == views,
                forall|i: int, j: int| 0 <= i < j < y ==> ids@[i] != ids@[j],
            decreases ids@.len() - y,
        {
            let idy = ids[y];
            if crate::frecency::id_in_prefix(&ids, y, idy) {
                proof {
                    let i = choose|i: int| 0 <= i < y && ids@.take(y as int)[i] == idy;
                    assert(views[i].id == idy);
                    assert(views[y as int].id == idy);
                    assert(!unique_view_ids(views));
                }
                return Err(parse_error());
            }
            proof {
                assert forall|i: int, j: int| 0 <= i < j < y + 1 implies ids@[i] != ids@[j] by {
                    if j == y as int {
                        if ids@[i] == idy {
                            assert(ids@.take(y as int)[i] == idy);
                            assert(ids@.take(y as int).contains(idy));
                        }
                    }
                }
            }
            y = y + 1;
        }
        proof {
            assert forall|i: int, j: int|
                0 <= i < j < records@.len() implies (#[trigger] records@[i]).id != (
            #[trigger] records@[j]).id by {
                assert(ids@[i] == records@[i].id);
                assert(ids@[j] == records@[j].id);
            }
            assert(crate::frecency::unique_ids(records@));
            assert forall|i: int, j: int|
                0 <= i < j < views.len() implies (#[trigger] views[i]).id != (
            #[trigger] views[j]).id by {
                assert(views[i].id == records@[i].id);
                assert(views[j].id == records@[j].id);
            }
        }
        let db = FrecencyDB { records, reference_time: rt, half_life: hl };
        Ok(db)
    }

    /// Serialize the whole database — records, reference time, half-life —
    /// to the flat binary blob described in this module.
    #[verifier::rlimit(100)]
    pub fn save(&self) -> (r: Vec<u8>)
        ensures
            r@ == db_enc(db_view(*self)),
    {
        let ghost dv = db_view(*self);
        let mut out: Vec<u8> = Vec::new();
        push_u64(&mut out, self.reference_time);
        push_u64(&mut out, self.half_life);
        push_u64(&mut out, self.records.len() as u64);
        let ghost header = out@;
        let n = self.records.len();
        let mut i: usize = 0;
        proof {
            assert(dv.recs.take(0) =~= Seq::<RecView>::empty());
            assert(out@ =~= header + recs_enc(dv.recs.take(0)));
        }
        while i < n
            invariant
                n == self.records@.len(),
                i <= n,
                dv == db_view(*self),
                dv.recs.len() == n,
                out@ == header + recs_enc(dv.recs.take(i as int)),
            decreases n - i,
        {
            let ghost prefix = dv.recs.take(i as int);
            let rec = &self.records[i];
            proof {
                assert(dv.recs[i as int] == rec_view(self.records@[i as int]));
            }
            push_u64(&mut out, rec.id);
            push_u64(&mut out, rec.score);
            push_framed_str(&mut out, rec.item.name.as_str());
            push_framed_str(&mut out, rec.item.exec_cmd.as_str());
            push_framed_str(&mut out, rec.item.icon.as_str());
            if rec.item.terminal {
                out.push(1u8);
            } else {
                out.push(0u8);
            }
            proof {
                lemma_recs_enc_push(prefix, dv.recs[i as int]);
                assert(prefix.push(dv.recs[i as int]) =~= dv.recs.take(i as int + 1));
                assert(out@ =~= header + recs_enc(dv.recs.take(i as int + 1)));
            }
            i = i + 1;
        }
        proof {
            assert(dv.recs.take(n as int) =~= dv.recs);
            assert(out@ =~= db_enc(dv));
        }
        out
    }
}

} // verus!
