//! Where sessions live, how they are named, and how one is picked from the
//! list of stored sessions.

use vstd::prelude::*;
use crate::config::{join_path, path_join};
use crate::text::{dec, push_char, push_dec, push_str, starts_with_at, to_chars, has_prefix};
use crate::tool_output::{lemma_lex_irreflexive, lemma_lex_transitive, lex_lt, text_before};

verus! {

/// The file of a session inside its directory.
pub const SESSION_FILE_NAME: &'static str = "session.jsonl";

/// Stored sessions: one directory per session under a sessions directory.
#[derive(Debug, Clone)]
pub struct SessionManager {
    sessions_dir: String,
}

/// A stored session, in brief.
#[derive(Debug, Clone)]
pub struct SessionInfo {
    pub id: String,
    pub path: String,
    pub created_at: String,
    pub cwd: String,
    pub message_count: usize,
    pub is_today: bool,
}

/// The outcome of branching a session.
#[derive(Debug, Clone)]
pub struct BranchResult {
    /// The entry the new branch starts from.
    pub branch_entry_id: String,
    /// How many entries follow the branch point.
    pub pruned_count: usize,
}

/// The outcome of compacting a session.
#[derive(Debug, Clone)]
pub struct CompactionResult {
    pub original_count: usize,
    pub compacted_count: usize,
    pub summarized_count: usize,
}

impl SessionManager {
    /// The directory that holds the sessions.
    pub closed spec fn dir(&self) -> Seq<char> {
        self.sessions_dir@
    }

    /// A manager of the sessions under `sessions_dir`.
    pub fn new(sessions_dir: &str) -> (m: Self)
        ensures
            m.dir() == sessions_dir@,
    {
        SessionManager { sessions_dir: sessions_dir.to_owned() }
    }

    /// The directory that holds the sessions.
    pub fn sessions_dir(&self) -> (r: &str)
        ensures
            r@ == self.dir(),
    {
        self.sessions_dir.as_str()
    }

    /// The file of the session stored under the directory name `id`.
    pub fn session_file(&self, id: &str) -> (r: String)
        ensures
            r@ == path_join(path_join(self.dir(), id@), SESSION_FILE_NAME@),
    {
        let d = join_path(self.sessions_dir.as_str(), id);
        join_path(d.as_str(), SESSION_FILE_NAME)
    }
}

/// The ids of sessions.
pub open spec fn session_ids(s: Seq<SessionInfo>) -> Seq<Seq<char>> {
    Seq::new(s.len(), |i: int| s[i].id@)
}

/// The positions of the sessions whose id starts with `prefix`, in order.
pub open spec fn prefix_matches(s: Seq<SessionInfo>, prefix: Seq<char>) -> Seq<int>
    decreases s.len(),
{
    if s.len() == 0 {
        Seq::empty()
    } else {
        let prev = prefix_matches(s.drop_last(), prefix);
        if has_prefix(s.last().id@, prefix) {
            prev.push(s.len() - 1)
        } else {
            prev
        }
    }
}

/// The message for a prefix that matches several sessions.
pub open spec fn ambiguous_message(prefix: Seq<char>, n: nat) -> Seq<char> {
    "Ambiguous session prefix '"@ + prefix + "', matches "@ + dec(n) + " sessions"@
}

fn clone_info(s: &SessionInfo) -> (r: SessionInfo)
    ensures
        r == *s,
{
    SessionInfo {
        id: s.id.clone(),
        path: s.path.clone(),
        created_at: s.created_at.clone(),
        cwd: s.cwd.clone(),
        message_count: s.message_count,
        is_today: s.is_today,
    }
}

/// The session whose id starts with `prefix`: none when no session
/// matches, the session when exactly one does, and an error naming the
/// number of matches when several do.
pub fn pick_by_prefix(sessions: &[SessionInfo], prefix: &str) -> (r: Result<Option<SessionInfo>, String>)
    ensures
        prefix_matches(sessions@, prefix@).len() == 0 ==> r == Ok::<Option<SessionInfo>, String>(None),
        prefix_matches(sessions@, prefix@).len() == 1 ==> r == Ok::<Option<SessionInfo>, String>(
            Some(sessions@[prefix_matches(sessions@, prefix@)[0]]),
        ),
        prefix_matches(sessions@, prefix@).len() > 1 ==> (r matches Err(m) && m@ == ambiguous_message(
            prefix@,
            prefix_matches(sessions@, prefix@).len(),
        )),
{
    let mut first: usize = 0;
    let mut count: usize = 0;
    let mut i: usize = 0;
    while i < sessions.len()
        invariant
            i <= sessions@.len(),
            count == prefix_matches(sessions@.take(i as int), prefix@).len(),
            count <= i,
            count > 0 ==> first == prefix_matches(sessions@.take(i as int), prefix@)[0],
            forall|k: int| 0 <= k < prefix_matches(sessions@.take(i as int), prefix@).len()
                ==> 0 <= #[trigger] prefix_matches(sessions@.take(i as int), prefix@)[k] < i,
        decreases sessions.len() - i,
    {
        let ghost t = sessions@.take(i + 1);
        assert(t.drop_last() =~= sessions@.take(i as int));
        assert(t.last() == sessions@[i as int]);
        let ids = to_chars(sessions[i].id.as_str());
        assert(ids@.skip(0) =~= ids@);
        if starts_with_at(ids.as_slice(), 0, prefix) {
            if count == 0 {
                first = i;
            }
            count = count + 1;
        }
        i = i + 1;
    }
    assert(sessions@.take(sessions@.len() as int) =~= sessions@);
    if count == 0 {
        Ok(None)
    } else if count == 1 {
        Ok(Some(clone_info(&sessions[first])))
    } else {
        let mut m = String::new();
        push_str(&mut m, "Ambiguous session prefix '");
        push_str(&mut m, prefix);
        push_str(&mut m, "', matches ");
        push_dec(&mut m, count as u64);
        push_str(&mut m, " sessions");
        Err(m)
    }
}

/// The session to continue: the first of the list (the newest), or an
/// error when there is none.
pub fn latest_session_id(sessions: &[SessionInfo]) -> (r: Result<String, String>)
    ensures
        sessions@.len() > 0 ==> (r matches Ok(id) && id@ == sessions@[0].id@),
        sessions@.len() == 0 ==> (r matches Err(m) && m@ == "No previous sessions found"@),
{
    if sessions.len() == 0 {
        Err("No previous sessions found".to_owned())
    } else {
        Ok(sessions[0].id.clone())
    }
}

/// One hexadecimal digit, in lowercase.
pub open spec fn hex_digit(d: nat) -> char {
    if d < 10 {
        digit_of(d)
    } else if d == 10 {
        'a'
    } else if d == 11 {
        'b'
    } else if d == 12 {
        'c'
    } else if d == 13 {
        'd'
    } else if d == 14 {
        'e'
    } else {
        'f'
    }
}

/// A decimal digit.
pub open spec fn digit_of(d: nat) -> char {
    crate::text::digit_char(d)
}

/// A 16-bit value as four lowercase hexadecimal digits (`{:04x}`).
pub open spec fn hex4(v: u16) -> Seq<char> {
    seq![
        hex_digit((v / 4096) as nat),
        hex_digit(((v / 256) % 16) as nat),
        hex_digit(((v / 16) % 16) as nat),
        hex_digit((v % 16) as nat),
    ]
}

pub(crate) fn hex_char(d: u16) -> (c: char)
    requires
        d < 16,
    ensures
        c == hex_digit(d as nat),
{
    if d < 10 {
        crate::text::digit(d as usize)
    } else if d == 10 {
        'a'
    } else if d == 11 {
        'b'
    } else if d == 12 {
        'c'
    } else if d == 13 {
        'd'
    } else if d == 14 {
        'e'
    } else {
        'f'
    }
}

/// The random part of a session id: the low 16 bits of the clock's
/// nanoseconds XOR the next 16 bits.
pub open spec fn id_suffix(nanos: u128) -> u16 {
    (nanos as u16) ^ ((nanos >> 16u128) as u16)
}

/// A session id: a timestamp, `-`, and four hexadecimal digits taken from
/// the clock's nanoseconds.
pub open spec fn session_id_text(timestamp: Seq<char>, nanos: u128) -> Seq<char> {
    timestamp + seq!['-'] + hex4(id_suffix(nanos))
}

/// The session id for a local timestamp (`YYYYMMDD-HHMM`) and the clock's
/// nanoseconds since the epoch.
pub fn session_id_from(timestamp: &str, nanos: u128) -> (r: String)
    ensures
        r@ == session_id_text(timestamp@, nanos),
{
    let v: u16 = (nanos as u16) ^ ((nanos >> 16u128) as u16);
    let mut r = timestamp.to_owned();
    push_char(&mut r, '-');
    push_char(&mut r, hex_char(v / 4096));
    push_char(&mut r, hex_char((v / 256) % 16));
    push_char(&mut r, hex_char((v / 16) % 16));
    push_char(&mut r, hex_char(v % 16));
    r
}

/// The local time as `YYYYMMDD-HHMM` (`chrono::Local::now`); it depends on
/// the clock, so nothing is promised of it.
#[verifier::external_body]
fn local_timestamp() -> String {
    chrono::Local::now().format("%Y%m%d-%H%M").to_string()
}

/// Nanoseconds since the Unix epoch (`SystemTime::now`); it depends on the
/// clock, so nothing is promised of it.
#[verifier::external_body]
pub(crate) fn nanos_since_epoch() -> u128 {
    std::time::SystemTime::now().duration_since(std::time::UNIX_EPOCH).map(|d| d.as_nanos()).unwrap_or(0)
}

/// A fresh session id from the current time, such as `20260511-1430-a3f2`.
pub fn generate_session_id() -> (r: String)
    ensures
        exists|ts: Seq<char>, nanos: u128| r@ == session_id_text(ts, nanos),
{
    let ts = local_timestamp();
    let n = nanos_since_epoch();
    session_id_from(ts.as_str(), n)
}

/// The sessions are newest first: none was created after one listed
/// before it (creation times compared as text).
pub open spec fn newest_first(s: Seq<SessionInfo>) -> bool {
    forall|i: int, j: int| 0 <= i < j < s.len() ==> !lex_lt(#[trigger] s[i].created_at@, #[trigger] s[j].created_at@)
}

/// Sorts sessions newest first.
pub fn sort_sessions(sessions: Vec<SessionInfo>) -> (r: Vec<SessionInfo>)
    ensures
        newest_first(r@),
        r@.to_multiset() == sessions@.to_multiset(),
{
    let ghost input = sessions@;
    let mut rest = sessions;
    let mut out: Vec<SessionInfo> = Vec::new();
    let mut taken: usize = 0;
    proof {
        assert(input.subrange(0, 0) =~= Seq::<SessionInfo>::empty());
        assert(out@ =~= Seq::<SessionInfo>::empty());
    }
    let n0 = rest.len();
    assert(input.len() == n0);
    while rest.len() > 0
        invariant
            input.len() <= usize::MAX,
            taken + rest@.len() == input.len(),
            rest@ == input.subrange(taken as int, input.len() as int),
            newest_first(out@),
            out@.to_multiset() == input.subrange(0, taken as int).to_multiset(),
        decreases rest@.len(),
    {
        let e = rest.remove(0);
        assert(e == input[taken as int]);
        assert(rest@ =~= input.subrange(taken + 1, input.len() as int));
        let mut p: usize = 0;
        while p < out.len() && !text_before(out[p].created_at.as_str(), e.created_at.as_str())
            invariant
                p <= out.len(),
                forall|k: int| 0 <= k < p ==> !lex_lt((#[trigger] out@[k]).created_at@, e.created_at@),
            decreases out.len() - p,
        {
            p = p + 1;
        }
        let ghost before = out@;
        out.insert(p, e);
        proof {
            assert(out@ =~= before.insert(p as int, e));
            assert forall|i: int, j: int| 0 <= i < j < out@.len() implies !lex_lt(
                (#[trigger] out@[i]).created_at@,
                (#[trigger] out@[j]).created_at@,
            ) by {
                if j < p {
                    assert(out@[i] == before[i] && out@[j] == before[j]);
                } else if j == p {
                    assert(out@[i] == before[i]);
                } else if i == p {
                    assert(out@[j] == before[j - 1]);
                    if lex_lt(e.created_at@, out@[j].created_at@) {
                        assert(p < before.len());
                        assert(lex_lt(before[p as int].created_at@, e.created_at@));
                        lemma_lex_transitive(before[p as int].created_at@, e.created_at@, before[j - 1].created_at@);
                        if j - 1 == p {
                            lemma_lex_irreflexive(before[p as int].created_at@);
                        }
                    }
                } else if i < p {
                    assert(out@[i] == before[i] && out@[j] == before[j - 1]);
                } else {
                    assert(out@[i] == before[i - 1] && out@[j] == before[j - 1]);
                }
            }
            broadcast use vstd::seq_lib::group_to_multiset_ensures;
            assert(out@.remove(p as int) =~= before);
            assert(out@[p as int] == e);
            assert(out@.contains(e));
            let m = out@.to_multiset();
            assert(before.to_multiset() =~= m.remove(e));
            assert(m =~= before.to_multiset().insert(e));
            assert(input.subrange(0, taken + 1) =~= input.subrange(0, taken as int).push(e));
        }
        taken = taken + 1;
    }
    assert(input.subrange(0, input.len() as int) =~= input);
    out
}

} // verus!
