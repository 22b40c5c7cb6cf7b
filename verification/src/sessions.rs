//! Voice session persistence: which sessions may be read and written, what is
//! kept of them, and which files are pruned.
//!
//! The browser stays thin: it only records audio. Every completed voice turn
//! is saved under a short client-chosen id, so that the same conversation can
//! be resumed from another device. There is one small JSON file per session;
//! old sessions are pruned.

use vstd::prelude::*;
use crate::chat::{refuse, Refusal};
use crate::chat::refusal;
use crate::clock::now_ms;
use crate::clock::wall_reading;
use crate::tap::newest;
use crate::text::{after_prefix, chars_of, has_suffix, hex_char, same, trimmed};
use crate::text::{hex_digit, trim};

verus! {

#[derive(Clone)]
pub struct SessionMessage {
    pub role: String,
    pub content: String,
}

#[derive(Clone)]
pub struct SessionTurn {
    pub transcript: String,
    pub answer: String,
    pub asr_model: String,
    pub chat_model: String,
    pub input_tokens: Option<u64>,
    pub output_tokens: Option<u64>,
    /// Server stopwatch (handler entry = 0).
    pub server_ms: u64,
    pub asr_ms: Option<u64>,
    pub llm_first_ms: Option<u64>,
}

#[derive(Clone)]
pub struct Session {
    pub id: String,
    pub updated_unix_ms: u64,
    pub messages: Vec<SessionMessage>,
    pub turns: Vec<SessionTurn>,
}

/// The most turns that a saved session keeps.
pub const MAX_TURNS: usize = 20;

/// The most messages that a saved session keeps.
pub const MAX_SESSION_MESSAGES: usize = 41;

/// The most bytes of a session's file.
pub const MAX_FILE_BYTES: usize = 12 * 1024 * 1024;

/// The most sessions that pruning leaves.
pub const MAX_SESSIONS: usize = 200;

/// The age, in seconds, beyond which a crash leftover is removed.
pub const LEFTOVER_SECS: u64 = 3600;

/// The age, in seconds, beyond which an untouched session is removed.
pub const SESSION_SECS: u64 = 7 * 24 * 3600;

impl Default for SessionTurn {
    fn default() -> (r: Self)
        ensures
            r.transcript@.len() == 0,
            r.answer@.len() == 0,
            r.asr_model@.len() == 0,
            r.chat_model@.len() == 0,
            r.input_tokens is None,
            r.output_tokens is None,
            r.server_ms == 0,
            r.asr_ms is None,
            r.llm_first_ms is None,
    {
        SessionTurn {
            transcript: String::new(),
            answer: String::new(),
            asr_model: String::new(),
            chat_model: String::new(),
            input_tokens: None,
            output_tokens: None,
            server_ms: 0,
            asr_ms: None,
            llm_first_ms: None,
        }
    }
}

/// The characters of an id: ASCII letters and digits, `-` and `_`.
pub open spec fn id_char(c: char) -> bool {
    ||| 'a' <= c <= 'z'
    ||| 'A' <= c <= 'Z'
    ||| '0' <= c <= '9'
    ||| c == '-'
    ||| c == '_'
}

/// An id that is safe in a file name: 1 to 64 characters, each a letter, a
/// digit, `-` or `_`.
pub open spec fn safe_id(id: Seq<char>) -> bool {
    1 <= id.len() <= 64 && forall|i: int| 0 <= i < id.len() ==> id_char(#[trigger] id[i])
}

/// Whether an id may be used.
pub fn valid_id(id: &str) -> (r: bool)
    ensures
        r == safe_id(id@),
{
    let chars = chars_of(id);
    let n: usize = chars.len();
    if n == 0 || n > 64 {
        return false;
    }
    let mut i: usize = 0;
    while i < n
        invariant
            chars@ == id@,
            i <= n == id@.len(),
            forall|j: int| 0 <= j < i ==> id_char(#[trigger] id@[j]),
        decreases n - i,
    {
        let c = chars[i];
        let safe = ('a' <= c && c <= 'z') || ('A' <= c && c <= 'Z') || ('0' <= c && c <= '9') || c
            == '-' || c == '_';
        if !safe {
            assert(!id_char(id@[i as int]));
            return false;
        }
        i = i + 1;
    }
    true
}

/// The name of a session's file.
pub open spec fn file_name(id: Seq<char>) -> Seq<char> {
    id + ".json"@
}

/// The name of the file that a session is written to before it takes its
/// place: hidden and without the extension, so that it is never taken for a
/// session.
pub open spec fn tmp_name(id: Seq<char>) -> Seq<char> {
    "."@ + id + ".tmp"@
}

/// The name of a session's file.
pub fn path_for(name: &str) -> (r: String)
    ensures
        r@ == file_name(name@),
{
    let mut out = name.to_owned();
    out.append(".json");
    out
}

/// The name of the file that a session is written to first.
pub fn tmp_for(name: &str) -> (r: String)
    ensures
        r@ == tmp_name(name@),
{
    let mut out = ".".to_owned();
    out.append(name);
    out.append(".tmp");
    out
}

/// Bytes in lower-case hexadecimal.
pub open spec fn hex(bytes: Seq<u8>) -> Seq<char>
    decreases bytes.len(),
{
    if bytes.len() == 0 {
        Seq::empty()
    } else {
        hex(bytes.drop_last()) + seq![
            hex_digit((bytes.last() / 16) as nat),
            hex_digit((bytes.last() % 16) as nat),
        ]
    }
}

/// The bytes of a number, highest first.
pub open spec fn big_endian(n: u64) -> Seq<u8> {
    seq![
        (n / 0x100_0000_0000_0000) as u8,
        (n / 0x1_0000_0000_0000 % 256) as u8,
        (n / 0x100_0000_0000 % 256) as u8,
        (n / 0x1_0000_0000 % 256) as u8,
        (n / 0x100_0000 % 256) as u8,
        (n / 0x1_0000 % 256) as u8,
        (n / 0x100 % 256) as u8,
        (n % 256) as u8,
    ]
}

/// A new id: 16 random bytes; without them, a mark and a hash.
pub open spec fn id_from(random: Option<Seq<u8>>, fallback: u64) -> Seq<char> {
    match random {
        Some(bytes) => hex(bytes),
        None => "fb"@ + hex(big_endian(fallback)),
    }
}

fn hex_text(bytes: &[u8]) -> (r: String)
    ensures
        r@ == hex(bytes@),
{
    let mut out = String::new();
    let mut i: usize = 0;
    assert(bytes@.take(0) =~= Seq::empty());
    while i < bytes.len()
        invariant
            i <= bytes@.len(),
            out@ == hex(bytes@.take(i as int)),
        decreases bytes@.len() - i,
    {
        let b = bytes[i];
        let ghost before = out@;
        out.push(hex_char(b / 16));
        out.push(hex_char(b % 16));
        assert(bytes@.take(i + 1).drop_last() =~= bytes@.take(i as int));
        assert(out@ =~= before + seq![hex_digit((b / 16) as nat), hex_digit((b % 16) as nat)]);
        i = i + 1;
    }
    assert(bytes@.take(i as int) =~= bytes@);
    out
}

/// Fallback id when the client did not supply one, from random bytes. Session
/// links are bearer secrets (whoever holds the id can read the transcript), so
/// they must not be enumerable. Where no random bytes are to be had, a hash
/// takes their place.
pub fn new_id(random: Option<[u8; 16]>, fallback: u64) -> (r: String)
    ensures
        r@ == id_from(
            match random {
                Some(bytes) => Some(bytes@),
                None => None,
            },
            fallback,
        ),
        safe_id(r@),
{
    match random {
        Some(bytes) => {
            proof {
                lemma_hex_is_safe(bytes@);
            }
            hex_text(bytes.as_slice())
        },
        None => {
            let bytes: [u8; 8] = [
                (fallback / 0x100_0000_0000_0000) as u8,
                (fallback / 0x1_0000_0000_0000 % 256) as u8,
                (fallback / 0x100_0000_0000 % 256) as u8,
                (fallback / 0x1_0000_0000 % 256) as u8,
                (fallback / 0x100_0000 % 256) as u8,
                (fallback / 0x1_0000 % 256) as u8,
                (fallback / 0x100 % 256) as u8,
                (fallback % 256) as u8,
            ];
            assert(bytes@ =~= big_endian(fallback));
            let mut out = "fb".to_owned();
            out.append(hex_text(bytes.as_slice()).as_str());
            proof {
                reveal_strlit("fb");
                lemma_hex_is_safe(bytes@);
            }
            out
        },
    }
}

proof fn lemma_hex_is_safe(bytes: Seq<u8>)
    ensures
        hex(bytes).len() == 2 * bytes.len(),
        forall|i: int| 0 <= i < hex(bytes).len() ==> id_char(#[trigger] hex(bytes)[i]),
    decreases bytes.len(),
{
    if bytes.len() > 0 {
        lemma_hex_is_safe(bytes.drop_last());
    }
}

/// A session in which nothing was said, as of now.
pub fn blank(id: String) -> (r: Session)
    ensures
        r.id@ == id@,
        wall_reading(r.updated_unix_ms),
        r.messages@.len() == 0,
        r.turns@.len() == 0,
{
    blank_at(id, now_ms())
}

/// A session in which nothing was said, as of `now`.
pub fn blank_at(id: String, now: u64) -> (r: Session)
    ensures
        r.id@ == id@,
        r.updated_unix_ms == now,
        r.messages@.len() == 0,
        r.turns@.len() == 0,
{
    Session { id, updated_unix_ms: now, messages: Vec::new(), turns: Vec::new() }
}

/// The file to read for an id, if it may be used.
pub fn load_path(id: &str) -> (r: Option<String>)
    ensures
        match r {
            Some(name) => safe_id(id@) && name@ == file_name(id@),
            None => !safe_id(id@),
        },
{
    if valid_id(id) {
        Some(path_for(id))
    } else {
        None
    }
}

/// Whether a file is small enough to be a session's.
pub fn fits_file(bytes: usize) -> (r: bool)
    ensures
        r == (bytes <= MAX_FILE_BYTES),
{
    bytes <= MAX_FILE_BYTES
}

/// What is loaded under an id of a file of `bytes` bytes that holds `stored`.
pub open spec fn loaded(id: Seq<char>, bytes: usize, stored: Option<Session>) -> Option<Session> {
    match stored {
        Some(session) => if loads(id, session.id@, bytes) {
            Some(session)
        } else {
            None
        },
        None => None,
    }
}

/// The session under an id: what its file of `bytes` bytes holds, if the id
/// may be used and the file is not too large. A file whose stored id differs
/// from its name is never trusted, which prevents overwriting one session by
/// another.
pub fn load(id: &str, bytes: usize, stored: Option<Session>) -> (r: Option<Session>)
    ensures
        r == loaded(id@, bytes, stored),
{
    if !valid_id(id) || !fits_file(bytes) {
        return None;
    }
    match stored {
        Some(session) => if same(session.id.as_str(), id) {
            Some(session)
        } else {
            None
        },
        None => None,
    }
}

/// Whether `after` is `before` as it is saved at `now`: stamped, and without
/// the oldest turns and messages beyond the limits.
pub open spec fn saved(before: Session, after: Session, now: u64) -> bool {
    &&& after.id@ == before.id@
    &&& after.updated_unix_ms == now
    &&& after.turns@ == newest(before.turns@, MAX_TURNS as nat)
    &&& after.messages@ == newest(before.messages@, MAX_SESSION_MESSAGES as nat)
}

/// Prepares a session for being written at `now`: stamps it, and drops the
/// oldest turns and messages beyond the limits. A session under an id that may
/// not be used is refused and left alone.
pub fn save(session: &mut Session, now: u64) -> (r: bool)
    ensures
        r == safe_id(old(session).id@),
        !r ==> *final(session) == *old(session),
        r ==> saved(*old(session), *final(session), now),
{
    if !valid_id(session.id.as_str()) {
        return false;
    }
    session.updated_unix_ms = now;
    let turns: usize = session.turns.len();
    if turns > MAX_TURNS {
        session.turns = session.turns.split_off(turns - MAX_TURNS);
        assert(session.turns@ =~= newest(old(session).turns@, MAX_TURNS as nat));
    }
    let messages: usize = session.messages.len();
    if messages > MAX_SESSION_MESSAGES {
        session.messages = session.messages.split_off(messages - MAX_SESSION_MESSAGES);
        assert(session.messages@ =~= newest(
            old(session).messages@,
            MAX_SESSION_MESSAGES as nat,
        ));
    }
    true
}

/// Whether a save at `now` also prunes: about one in twenty does, off the hot
/// path.
pub fn prune_due(now: u64) -> (r: bool)
    ensures
        r == (now % 20 == 0),
{
    now % 20 == 0
}

/// What the name of a file in the sessions' directory says that it is.
#[derive(Clone, Copy, Debug, PartialEq, Eq, Structural)]
pub enum FileKind {
    /// Left over from a save that crashed.
    Leftover,
    Session,
    Other,
}

/// A hidden `.tmp` file is a leftover; a file with the extension `json` is a
/// session. (A name that is nothing but `.json` has no extension.)
pub open spec fn kind_of(name: Seq<char>) -> FileKind {
    if name.len() > 0 && name[0] == '.' && ".tmp"@.is_suffix_of(name) {
        FileKind::Leftover
    } else if ".json"@.is_suffix_of(name) && name.len() > ".json"@.len() {
        FileKind::Session
    } else {
        FileKind::Other
    }
}

/// What pruning does with a file.
#[derive(Clone, Copy, Debug, PartialEq, Eq, Structural)]
pub enum Pruning {
    Remove,
    /// Leave alone.
    Ignore,
    /// Keep, as far as there is room.
    Keep,
}

/// What pruning does with a file of a name and an age in seconds.
pub open spec fn pruned(name: Seq<char>, age: u64) -> Pruning {
    match kind_of(name) {
        FileKind::Leftover => if age > LEFTOVER_SECS {
            Pruning::Remove
        } else {
            Pruning::Ignore
        },
        FileKind::Session => if age > SESSION_SECS {
            Pruning::Remove
        } else {
            Pruning::Keep
        },
        FileKind::Other => Pruning::Ignore,
    }
}

/// What a file's name says that it is.
pub fn file_kind(name: &str) -> (r: FileKind)
    ensures
        r == kind_of(name@),
{
    proof {
        reveal_strlit(".");
        reveal_strlit(".json");
        if name@.len() > 0 {
            assert(name@.subrange(0, 1) =~= seq![name@[0]]);
            assert(seq![name@[0]][0] == name@[0]);
        }
        assert("."@ =~= seq!['.']);
    }
    if after_prefix(name, ".").is_some() && has_suffix(name, ".tmp") {
        FileKind::Leftover
    } else if has_suffix(name, ".json") && chars_of(name).len() > 5 {
        FileKind::Session
    } else {
        FileKind::Other
    }
}

/// What pruning does with a file.
pub fn prune_file(name: &str, age: u64) -> (r: Pruning)
    ensures
        r == pruned(name@, age),
{
    match file_kind(name) {
        FileKind::Leftover => if age > LEFTOVER_SECS {
            Pruning::Remove
        } else {
            Pruning::Ignore
        },
        FileKind::Session => if age > SESSION_SECS {
            Pruning::Remove
        } else {
            Pruning::Keep
        },
        FileKind::Other => Pruning::Ignore,
    }
}

/// Whether the session at `i` goes before the one at `j`: the older one first,
/// and of two of the same age the one that was listed first.
pub open spec fn goes_before(ages: Seq<u64>, i: int, j: int) -> bool {
    ages[i] > ages[j] || (ages[i] == ages[j] && i < j)
}

/// Whether `gone` are the sessions that make room: as many as are too many,
/// in the order in which they go, and each before every one that stays.
pub open spec fn makes_room(ages: Seq<u64>, gone: Seq<usize>) -> bool {
    &&& gone.len() == if ages.len() > MAX_SESSIONS {
        ages.len() - MAX_SESSIONS
    } else {
        0
    }
    &&& forall|a: int| 0 <= a < gone.len() ==> #[trigger] gone[a] < ages.len()
    &&& forall|a: int, b: int|
        0 <= a < b < gone.len() ==> goes_before(
            ages,
            #[trigger] gone[a] as int,
            #[trigger] gone[b] as int,
        )
    &&& forall|a: int, j: int|
        #![trigger gone[a], ages[j]]
        0 <= a < gone.len() && 0 <= j < ages.len() && !gone.contains(j as usize) ==> goes_before(
            ages,
            gone[a] as int,
            j,
        )
}

/// Whether `order` lists the first `n` sessions in the order in which they go.
spec fn ordered(ages: Seq<u64>, order: Seq<usize>, n: int) -> bool {
    &&& order.len() == n
    &&& forall|a: int| 0 <= a < n ==> #[trigger] order[a] < n
    &&& forall|a: int, b: int|
        0 <= a < b < n ==> goes_before(
            ages,
            #[trigger] order[a] as int,
            #[trigger] order[b] as int,
        )
    &&& forall|j: int| 0 <= j < n ==> #[trigger] order.contains(j as usize)
}

proof fn lemma_insert_ordered(ages: Seq<u64>, order: Seq<usize>, i: usize, p: int)
    requires
        ordered(ages, order, i as int),
        i < ages.len(),
        0 <= p <= i,
        forall|a: int| 0 <= a < p ==> ages[#[trigger] order[a] as int] >= ages[i as int],
        p < i ==> ages[order[p] as int] < ages[i as int],
    ensures
        ordered(ages, order.insert(p, i), i + 1),
{
    let next = order.insert(p, i);
    assert(next[p] == i);
    assert forall|a: int, b: int| 0 <= a < b < i + 1 implies goes_before(
        ages,
        #[trigger] next[a] as int,
        #[trigger] next[b] as int,
    ) by {
        let x = if a < p {
            a
        } else {
            a - 1
        };
        let y = if b < p {
            b
        } else {
            b - 1
        };
        if a != p {
            assert(next[a] == order[x]);
        }
        if b != p {
            assert(next[b] == order[y]);
        }
        if a == p && p < y {
            assert(goes_before(ages, order[p] as int, order[y] as int));
        }
        if a != p && b != p {
            assert(goes_before(ages, order[x] as int, order[y] as int));
        }
    }
    assert forall|j: int| 0 <= j < i + 1 implies #[trigger] next.contains(j as usize) by {
        if j == i {
            assert(next[p] == j as usize);
        } else {
            assert(order.contains(j as usize));
            let a = choose|a: int| 0 <= a < order.len() && order[a] == j as usize;
            if a < p {
                assert(next[a] == j as usize);
            } else {
                assert(next[a + 1] == j as usize);
            }
        }
    }
    assert forall|a: int| 0 <= a < i + 1 implies #[trigger] next[a] < i + 1 by {
        if a < p {
            assert(next[a] == order[a]);
        } else if a > p {
            assert(next[a] == order[a - 1]);
        }
    }
}

/// The sessions that go to make room, by their place in the list of ages in
/// seconds; those that were touched recently stay.
pub fn evicted(ages: &Vec<u64>) -> (gone: Vec<usize>)
    ensures
        makes_room(ages@, gone@),
{
    let n: usize = ages.len();
    let mut order: Vec<usize> = Vec::new();
    let mut i: usize = 0;
    while i < n
        invariant
            n == ages@.len(),
            i <= n,
            ordered(ages@, order@, i as int),
        decreases n - i,
    {
        let mut p: usize = 0;
        while p < i && ages[order[p]] >= ages[i]
            invariant
                n == ages@.len(),
                p <= i < n,
                ordered(ages@, order@, i as int),
                forall|a: int|
                    0 <= a < p ==> ages@[#[trigger] order@[a] as int] >= ages@[i as int],
            decreases i - p,
        {
            p = p + 1;
        }
        proof {
            lemma_insert_ordered(ages@, order@, i, p as int);
        }
        order.insert(p, i);
        i = i + 1;
    }
    let ghost all = order@;
    let most: usize = if n > MAX_SESSIONS {
        n - MAX_SESSIONS
    } else {
        0
    };
    order.truncate(most);
    proof {
        let gone = order@;
        assert(gone =~= all.subrange(0, most as int));
        assert forall|a: int, j: int|
            #![trigger gone[a], ages@[j]]
            0 <= a < gone.len() && 0 <= j < ages@.len() && !gone.contains(
                j as usize,
            ) implies goes_before(ages@, gone[a] as int, j) by {
            assert(all.contains(j as usize));
            let b = choose|b: int| 0 <= b < all.len() && all[b] == j as usize;
            if b < most {
                assert(gone[b] == j as usize);
            }
            assert(goes_before(ages@, all[a] as int, all[b] as int));
        }
    }
    order
}

/// Pruning leaves no more sessions than the limit, and removes no session that
/// was touched more recently than one that stays.
pub proof fn law_recent_sessions_stay(ages: Seq<u64>, gone: Seq<usize>, a: int, j: int)
    requires
        makes_room(ages, gone),
        0 <= a < gone.len(),
        0 <= j < ages.len(),
        !gone.contains(j as usize),
    ensures
        ages.len() - gone.len() <= MAX_SESSIONS,
        ages[gone[a] as int] >= ages[j],
{
    assert(goes_before(ages, gone[a] as int, j));
}

/// The file of a session is never taken for a leftover or for something else,
/// and the file that it is first written to never for a session.
pub proof fn law_names_do_not_mix(id: Seq<char>)
    requires
        safe_id(id),
    ensures
        kind_of(file_name(id)) == FileKind::Session,
        kind_of(tmp_name(id)) == FileKind::Leftover,
        !id.contains('/'),
        !id.contains('.'),
{
    reveal_strlit(".json");
    reveal_strlit(".tmp");
    reveal_strlit(".");
    let name = file_name(id);
    assert(name[0] == id[0]);
    assert(name.subrange(name.len() - 5, name.len() as int) =~= ".json"@);
    let tmp = tmp_name(id);
    assert(tmp[0] == '.');
    assert(tmp.subrange(tmp.len() - 4, tmp.len() as int) =~= ".tmp"@);
}

/// What was saved comes back as it is under its own id, and nothing under
/// another, if its file is not too large and still holds it; and it is within
/// the limits.
pub proof fn law_saved_is_loadable(
    before: Session,
    after: Session,
    now: u64,
    id: Seq<char>,
    bytes: usize,
)
    requires
        safe_id(before.id@),
        saved(before, after, now),
    ensures
        loaded(id, bytes, Some(after)) == if id == before.id@ && bytes <= MAX_FILE_BYTES {
            Some(after)
        } else {
            None
        },
        after.turns@.len() <= MAX_TURNS,
        after.messages@.len() <= MAX_SESSION_MESSAGES,
{
}

/// Pruning leaves the file of a session alone that was saved within the time
/// that sessions are kept, while there are no more sessions than the limit.
pub proof fn law_fresh_sessions_stay(id: Seq<char>, age: u64, ages: Seq<u64>, gone: Seq<usize>)
    requires
        safe_id(id),
        age <= SESSION_SECS,
        ages.len() <= MAX_SESSIONS,
        makes_room(ages, gone),
    ensures
        pruned(file_name(id), age) == Pruning::Keep,
        gone.len() == 0,
{
    law_names_do_not_mix(id);
}

/// Whether a session stored under `stored`, in a file of `bytes` bytes, loads
/// under `id`.
pub open spec fn loads(id: Seq<char>, stored: Seq<char>, bytes: usize) -> bool {
    safe_id(id) && bytes <= MAX_FILE_BYTES && stored == id
}

/// Refuses to show a session to a client that is not on this machine.
pub fn session_refusal(loopback: bool) -> (r: Option<Refusal>)
    ensures
        match r {
            Some(refused) => !loopback && refused@ == refusal(
                403,
                "Open the resume link over HTTPS instead."@,
            ),
            None => loopback,
        },
{
    if loopback {
        None
    } else {
        Some(refuse(403, "Open the resume link over HTTPS instead."))
    }
}

/// The id that a link names.
pub fn linked_id(path: &str) -> (r: String)
    ensures
        r@ == trim(path@),
{
    trimmed(path)
}

/// Refuses a link under which nothing is stored.
pub fn unknown_session() -> (r: Refusal)
    ensures
        r@ == refusal(404, "Unknown or expired session link."@),
{
    refuse(404, "Unknown or expired session link.")
}

/// An id may be used exactly if it has 1 to 64 characters, each an ASCII letter
/// or digit, a hyphen or an underscore.
pub proof fn law_which_ids_are_safe(id: Seq<char>)
    ensures
        safe_id(id) <==> 1 <= id.len() <= 64 && forall|i: int|
            0 <= i < id.len() ==> ('a' <= #[trigger] id[i] <= 'z' || 'A' <= id[i] <= 'Z' || '0'
                <= id[i] <= '9' || id[i] == '-' || id[i] == '_'),
{
    if safe_id(id) {
        assert forall|i: int| 0 <= i < id.len() implies ('a' <= #[trigger] id[i] <= 'z' || 'A'
            <= id[i] <= 'Z' || '0' <= id[i] <= '9' || id[i] == '-' || id[i] == '_') by {
            assert(id_char(id[i]));
        }
    }
}

proof fn lemma_hex_digits_differ(a: nat, b: nat)
    requires
        a < 16,
        b < 16,
        hex_digit(a) == hex_digit(b),
    ensures
        a == b,
{
    assert(hex_digit(a) as nat == hex_digit(b) as nat);
}

proof fn lemma_hex_injective(a: Seq<u8>, b: Seq<u8>)
    requires
        hex(a) == hex(b),
    ensures
        a == b,
    decreases a.len(),
{
    lemma_hex_is_safe(a);
    lemma_hex_is_safe(b);
    if a.len() > 0 {
        let n = hex(a).len() as int;
        assert(hex(a).take(n - 2) =~= hex(a.drop_last()));
        assert(hex(b).take(n - 2) =~= hex(b.drop_last()));
        lemma_hex_injective(a.drop_last(), b.drop_last());
        assert(hex(a)[n - 2] == hex_digit((a.last() / 16) as nat));
        assert(hex(b)[n - 2] == hex_digit((b.last() / 16) as nat));
        assert(hex(a)[n - 1] == hex_digit((a.last() % 16) as nat));
        assert(hex(b)[n - 1] == hex_digit((b.last() % 16) as nat));
        lemma_hex_digits_differ((a.last() / 16) as nat, (b.last() / 16) as nat);
        lemma_hex_digits_differ((a.last() % 16) as nat, (b.last() % 16) as nat);
        assert(a.last() == b.last());
        assert(a =~= a.drop_last().push(a.last()));
        assert(b =~= b.drop_last().push(b.last()));
    } else {
        assert(b.len() == 0);
        assert(a =~= b);
    }
}

proof fn lemma_big_endian_injective(x: u64, y: u64)
    requires
        big_endian(x) == big_endian(y),
    ensures
        x == y,
{
    let p = big_endian(x);
    let q = big_endian(y);
    assert(p[0] == q[0]);
    assert(p[1] == q[1]);
    assert(p[2] == q[2]);
    assert(p[3] == q[3]);
    assert(p[4] == q[4]);
    assert(p[5] == q[5]);
    assert(p[6] == q[6]);
    assert(p[7] == q[7]);
    lemma_bytes_make_the_number(x, y);
}

proof fn lemma_bytes_make_the_number(x: u64, y: u64)
    by (bit_vector)
    requires
        (x / 0x100_0000_0000_0000u64) % 256u64 == (y / 0x100_0000_0000_0000u64) % 256u64,
        (x / 0x1_0000_0000_0000u64) % 256u64 == (y / 0x1_0000_0000_0000u64) % 256u64,
        (x / 0x100_0000_0000u64) % 256u64 == (y / 0x100_0000_0000u64) % 256u64,
        (x / 0x1_0000_0000u64) % 256u64 == (y / 0x1_0000_0000u64) % 256u64,
        (x / 0x100_0000u64) % 256u64 == (y / 0x100_0000u64) % 256u64,
        (x / 0x1_0000u64) % 256u64 == (y / 0x1_0000u64) % 256u64,
        (x / 0x100u64) % 256u64 == (y / 0x100u64) % 256u64,
        x % 256u64 == y % 256u64,
    ensures
        x == y,
{
}

/// Different random bytes give different ids, so that one says nothing of
/// another: each byte is in the id, whole. An id has two characters for each.
pub proof fn law_ids_keep_every_random_byte(a: Seq<u8>, b: Seq<u8>, x: u64, y: u64)
    ensures
        id_from(Some(a), x) == id_from(Some(b), y) ==> a == b,
        id_from(Some(a), x).len() == 2 * a.len(),
        id_from(None, x).len() == 18,
        id_from(None, x) == id_from(None, y) ==> x == y,
{
    lemma_hex_is_safe(a);
    lemma_hex_is_safe(big_endian(x));
    lemma_hex_is_safe(big_endian(y));
    reveal_strlit("fb");
    assert("fb"@.len() == 2);
    if id_from(Some(a), x) == id_from(Some(b), y) {
        lemma_hex_injective(a, b);
    }
    if id_from(None, x) == id_from(None, y) {
        assert(id_from(None, x).skip(2) =~= hex(big_endian(x)));
        assert(id_from(None, y).skip(2) =~= hex(big_endian(y)));
        lemma_hex_injective(big_endian(x), big_endian(y));
        lemma_big_endian_injective(x, y);
    }
}

/// A leftover goes after an hour and a session after a week; what is neither is
/// never touched, and a session that is younger is kept as far as there is
/// room.
pub proof fn law_what_pruning_does(name: Seq<char>, age: u64)
    ensures
        pruned(name, age) == Pruning::Remove <==> (kind_of(name) == FileKind::Leftover && age
            > 3600) || (kind_of(name) == FileKind::Session && age > 604_800),
        pruned(name, age) == Pruning::Keep <==> kind_of(name) == FileKind::Session && age
            <= 604_800,
        pruned(name, age) == Pruning::Ignore <==> kind_of(name) == FileKind::Other || (kind_of(
            name,
        ) == FileKind::Leftover && age <= 3600),
{
}

/// A save keeps the last 20 turns and the last 41 messages, in order.
pub proof fn law_save_keeps_the_last(before: Session, after: Session, now: u64, i: int)
    requires
        saved(before, after, now),
    ensures
        after.turns@.len() == if before.turns@.len() < 20 {
            before.turns@.len()
        } else {
            20
        },
        0 <= i < after.turns@.len() ==> after.turns@[i] == before.turns@[before.turns@.len()
            - after.turns@.len() + i],
        after.messages@.len() == if before.messages@.len() < 41 {
            before.messages@.len()
        } else {
            41
        },
        0 <= i < after.messages@.len() ==> after.messages@[i]
            == before.messages@[before.messages@.len() - after.messages@.len() + i],
        after.updated_unix_ms == now,
{
}

/// No more sessions are removed than there are too many, and none twice.
pub proof fn law_no_more_is_removed_than_needed(
    ages: Seq<u64>,
    gone: Seq<usize>,
    a: int,
    b: int,
)
    requires
        makes_room(ages, gone),
    ensures
        ages.len() > 200 ==> ages.len() - gone.len() == 200,
        ages.len() <= 200 ==> gone.len() == 0,
        0 <= a < b < gone.len() ==> gone[a] != gone[b],
        0 <= a < b < gone.len() ==> ages[gone[a] as int] >= ages[gone[b] as int],
        0 <= a < gone.len() ==> gone[a] < ages.len(),
{
    if 0 <= a < b < gone.len() {
        assert(goes_before(ages, gone[a] as int, gone[b] as int));
    }
}

/// A name is that of a leftover if it is hidden and ends in `.tmp`; else that
/// of a session if it ends in `.json` and has something before that.
pub proof fn law_what_names_say(name: Seq<char>)
    ensures
        kind_of(name) == FileKind::Leftover <==> name.len() > 0 && name[0] == '.'
            && ".tmp"@.is_suffix_of(name),
        kind_of(name) == FileKind::Session <==> !(name.len() > 0 && name[0] == '.'
            && ".tmp"@.is_suffix_of(name)) && ".json"@.is_suffix_of(name) && name.len() > 5,
{
    reveal_strlit(".json");
    assert(".json"@.len() == 5);
}

} // verus!
