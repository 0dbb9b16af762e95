//! A session log: a header and an append-only list of entries, each of which
//! may point at a parent entry, so that the entries form a tree of
//! conversation branches. The log is what a JSONL session file holds, one
//! entry per line after the header line; reading and writing the file are
//! left to the caller.

use vstd::prelude::*;
use crate::prompt::opt_view;
use crate::json_text::{json_quote, json_quoted};
use crate::session::{BranchResult, CompactionResult};
use crate::text::{dec, push_char, push_dec, push_str, str_eq};

verus! {

/// The first line of a session file.
#[derive(Debug)]
pub struct SessionHeader {
    /// Always `session` in a well-formed file.
    pub entry_type: String,
    pub version: u32,
    pub id: String,
    pub timestamp: String,
    pub cwd: String,
    pub parent_session: Option<String>,
}

/// A message of the conversation. Its content is kept as the JSON text it
/// was stored as.
#[derive(Debug)]
pub struct MessageEntry {
    pub id: String,
    pub parent_id: Option<String>,
    pub timestamp: String,
    pub role: String,
    pub content: String,
    pub model: Option<String>,
    pub stop_reason: Option<String>,
}

/// A compaction marker: a summary of older entries and, optionally, the ids
/// of the first and last entries that it archives.
#[derive(Debug)]
pub struct CompactionEntry {
    pub id: String,
    pub parent_id: Option<String>,
    pub timestamp: String,
    pub summary: String,
    pub archived_range: Option<Vec<String>>,
}

/// One line of a session file after the header.
#[derive(Debug)]
pub enum SessionEntry {
    Message(MessageEntry),
    Compaction(CompactionEntry),
}

/// What a message entry holds, as mathematical text.
pub struct MessageView {
    pub id: Seq<char>,
    pub parent: Option<Seq<char>>,
    pub timestamp: Seq<char>,
    pub role: Seq<char>,
    pub content: Seq<char>,
    pub model: Option<Seq<char>>,
    pub stop_reason: Option<Seq<char>>,
}

/// What a compaction entry holds, as mathematical text.
pub struct CompactionView {
    pub id: Seq<char>,
    pub parent: Option<Seq<char>>,
    pub timestamp: Seq<char>,
    pub summary: Seq<char>,
    pub archived_range: Option<Seq<Seq<char>>>,
}

/// What an entry holds, as mathematical text.
pub enum EntryView {
    Message(MessageView),
    Compaction(CompactionView),
}

impl EntryView {
    pub open spec fn id(self) -> Seq<char> {
        match self {
            EntryView::Message(m) => m.id,
            EntryView::Compaction(c) => c.id,
        }
    }

    pub open spec fn parent(self) -> Option<Seq<char>> {
        match self {
            EntryView::Message(m) => m.parent,
            EntryView::Compaction(c) => c.parent,
        }
    }

    /// A message entry with the id `id`.
    pub open spec fn is_message_with(self, id: Seq<char>) -> bool {
        self matches EntryView::Message(m) && m.id == id
    }
}

pub open spec fn strings_view(v: Seq<String>) -> Seq<Seq<char>> {
    v.map_values(|s: String| s@)
}

impl View for MessageEntry {
    type V = MessageView;

    open spec fn view(&self) -> MessageView {
        MessageView {
            id: self.id@,
            parent: opt_view(self.parent_id),
            timestamp: self.timestamp@,
            role: self.role@,
            content: self.content@,
            model: opt_view(self.model),
            stop_reason: opt_view(self.stop_reason),
        }
    }
}

impl View for CompactionEntry {
    type V = CompactionView;

    open spec fn view(&self) -> CompactionView {
        CompactionView {
            id: self.id@,
            parent: opt_view(self.parent_id),
            timestamp: self.timestamp@,
            summary: self.summary@,
            archived_range: match self.archived_range {
                Some(r) => Some(strings_view(r@)),
                None => None,
            },
        }
    }
}

impl View for SessionEntry {
    type V = EntryView;

    open spec fn view(&self) -> EntryView {
        match self {
            SessionEntry::Message(m) => EntryView::Message(m@),
            SessionEntry::Compaction(c) => EntryView::Compaction(c@),
        }
    }
}

/// The entries of a list, as views.
pub open spec fn entries_view(s: Seq<SessionEntry>) -> Seq<EntryView> {
    s.map_values(|e: SessionEntry| e@)
}

fn copy_opt(o: &Option<String>) -> (r: Option<String>)
    ensures
        opt_view(r) == opt_view(*o),
{
    match o {
        Some(s) => Some(s.clone()),
        None => None,
    }
}

fn copy_strings(v: &Vec<String>) -> (r: Vec<String>)
    ensures
        strings_view(r@) == strings_view(v@),
{
    let mut r: Vec<String> = Vec::new();
    let mut i: usize = 0;
    while i < v.len()
        invariant
            i <= v.len(),
            r@.len() == i,
            forall|k: int| 0 <= k < i ==> r@[k]@ == v@[k]@,
        decreases v.len() - i,
    {
        r.push(v[i].clone());
        i = i + 1;
    }
    assert(strings_view(r@) =~= strings_view(v@));
    r
}

impl MessageEntry {
    /// A copy of the entry.
    pub fn duplicate(&self) -> (r: Self)
        ensures
            r@ == self@,
    {
        MessageEntry {
            id: self.id.clone(),
            parent_id: copy_opt(&self.parent_id),
            timestamp: self.timestamp.clone(),
            role: self.role.clone(),
            content: self.content.clone(),
            model: copy_opt(&self.model),
            stop_reason: copy_opt(&self.stop_reason),
        }
    }
}

impl CompactionEntry {
    /// A copy of the entry.
    pub fn duplicate(&self) -> (r: Self)
        ensures
            r@ == self@,
    {
        let archived_range = match &self.archived_range {
            Some(v) => Some(copy_strings(v)),
            None => None,
        };
        CompactionEntry {
            id: self.id.clone(),
            parent_id: copy_opt(&self.parent_id),
            timestamp: self.timestamp.clone(),
            summary: self.summary.clone(),
            archived_range,
        }
    }
}

impl SessionEntry {
    /// A copy of the entry.
    pub fn duplicate(&self) -> (r: Self)
        ensures
            r@ == self@,
    {
        match self {
            SessionEntry::Message(m) => SessionEntry::Message(m.duplicate()),
            SessionEntry::Compaction(c) => SessionEntry::Compaction(c.duplicate()),
        }
    }

    /// The entry's id.
    pub fn id(&self) -> (r: &str)
        ensures
            r@ == self@.id(),
    {
        match self {
            SessionEntry::Message(m) => m.id.as_str(),
            SessionEntry::Compaction(c) => c.id.as_str(),
        }
    }

    /// The id of the entry's parent, if it has one.
    pub fn parent_id(&self) -> (r: Option<&str>)
        ensures
            match r {
                Some(p) => self@.parent() == Some(p@),
                None => self@.parent() is None,
            },
    {
        let p = match self {
            SessionEntry::Message(m) => &m.parent_id,
            SessionEntry::Compaction(c) => &c.parent_id,
        };
        match p {
            Some(s) => Some(s.as_str()),
            None => None,
        }
    }

    /// Whether this is a message entry with the id `id`.
    pub fn is_message_with(&self, id: &str) -> (r: bool)
        ensures
            r == self@.is_message_with(id@),
    {
        match self {
            SessionEntry::Message(m) => str_eq(m.id.as_str(), id),
            SessionEntry::Compaction(_) => false,
        }
    }
}

// ---------------------------------------------------------------------
// Branching
// ---------------------------------------------------------------------

/// `i` is the first message entry of `es` with the id `id`.
pub open spec fn first_message_at(es: Seq<EntryView>, id: Seq<char>, i: int) -> bool {
    &&& 0 <= i < es.len()
    &&& es[i].is_message_with(id)
    &&& forall|j: int| 0 <= j < i ==> !es[j].is_message_with(id)
}

/// The message with the id `id` is missing from `es`.
pub open spec fn no_message(es: Seq<EntryView>, id: Seq<char>) -> bool {
    forall|j: int| 0 <= j < es.len() ==> !es[j].is_message_with(id)
}

pub open spec fn entry_not_found(id: Seq<char>) -> Seq<char> {
    "Entry "@ + id + " not found"@
}

/// Branches the conversation at the message `from_entry_id`: the new branch
/// starts there, and the entries listed after it are left off the branch.
/// Fails when no message has that id.
pub fn create_branch(entries: &[SessionEntry], from_entry_id: &str) -> (r: Result<BranchResult, String>)
    ensures
        match r {
            Ok(b) => exists|i: int|
                first_message_at(entries_view(entries@), from_entry_id@, i)
                    && b.pruned_count == entries.len() - i - 1
                    && b.branch_entry_id@ == from_entry_id@,
            Err(e) => no_message(entries_view(entries@), from_entry_id@)
                && e@ == entry_not_found(from_entry_id@),
        },
{
    let ghost es = entries_view(entries@);
    let mut i: usize = 0;
    while i < entries.len()
        invariant
            i <= entries.len(),
            es == entries_view(entries@),
            forall|j: int| 0 <= j < i ==> !es[j].is_message_with(from_entry_id@),
        decreases entries.len() - i,
    {
        if entries[i].is_message_with(from_entry_id) {
            assert(first_message_at(es, from_entry_id@, i as int));
            return Ok(BranchResult {
                branch_entry_id: from_entry_id.to_string(),
                pruned_count: entries.len() - i - 1,
            });
        }
        i = i + 1;
    }
    let mut e = String::new();
    proof { reveal_strlit("Entry "); reveal_strlit(" not found"); }
    push_str(&mut e, "Entry ");
    push_str(&mut e, from_entry_id);
    push_str(&mut e, " not found");
    Err(e)
}

// ---------------------------------------------------------------------
// Lineage
// ---------------------------------------------------------------------

/// The index of the last message entry of `es` with the id `id`.
pub open spec fn last_message(es: Seq<EntryView>, id: Seq<char>) -> Option<int>
    decreases es.len(),
{
    if es.len() == 0 {
        None
    } else if es.last().is_message_with(id) {
        Some(es.len() - 1)
    } else {
        last_message(es.drop_last(), id)
    }
}

pub proof fn lemma_last_message(es: Seq<EntryView>, id: Seq<char>)
    ensures
        match last_message(es, id) {
            Some(i) => 0 <= i < es.len() && es[i].is_message_with(id)
                && forall|j: int| i < j < es.len() ==> !es[j].is_message_with(id),
            None => no_message(es, id),
        },
    decreases es.len(),
{
    if es.len() > 0 && !es.last().is_message_with(id) {
        lemma_last_message(es.drop_last(), id);
        assert forall|j: int| 0 <= j < es.len() - 1 implies es.drop_last()[j] == es[j] by {}
    }
}

/// An optional text, as a view.
pub open spec fn str_opt_view(o: Option<&str>) -> Option<Seq<char>> {
    match o {
        Some(s) => Some(s@),
        None => None,
    }
}

/// The messages from the root of the conversation down to the message
/// `oid`, each the parent of the next, as far as `fuel` steps reach; a
/// parent id that names no message ends the walk.
pub open spec fn lineage(es: Seq<EntryView>, oid: Option<Seq<char>>, fuel: nat) -> Seq<EntryView>
    decreases fuel,
{
    if fuel == 0 {
        Seq::empty()
    } else {
        match oid {
            None => Seq::empty(),
            Some(id) => match last_message(es, id) {
                None => Seq::empty(),
                Some(i) => lineage(es, es[i].parent(), (fuel - 1) as nat).push(es[i]),
            },
        }
    }
}

/// The walk up from `oid` comes to an end within `fuel` steps: the parent
/// ids do not run in a circle.
pub open spec fn lineage_ends(es: Seq<EntryView>, oid: Option<Seq<char>>, fuel: nat) -> bool
    decreases fuel,
{
    fuel > 0 && match oid {
        None => true,
        Some(id) => match last_message(es, id) {
            None => true,
            Some(i) => lineage_ends(es, es[i].parent(), (fuel - 1) as nat),
        },
    }
}

/// The index of the last message of `entries` with the id `id`.
fn find_last_message(entries: &[SessionEntry], id: &str) -> (r: Option<usize>)
    ensures
        match r {
            Some(i) => last_message(entries_view(entries@), id@) == Some(i as int),
            None => last_message(entries_view(entries@), id@) is None,
        },
{
    let ghost es = entries_view(entries@);
    let mut i: usize = entries.len();
    assert(es.subrange(0, i as int) =~= es);
    while i > 0
        invariant
            i <= entries.len(),
            es == entries_view(entries@),
            last_message(es.subrange(0, i as int), id@) == last_message(es, id@),
        decreases i,
    {
        let ghost sub = es.subrange(0, i as int);
        if entries[i - 1].is_message_with(id) {
            assert(sub.last() == es[i - 1]);
            return Some(i - 1);
        }
        assert(sub.drop_last() =~= es.subrange(0, i - 1));
        i = i - 1;
    }
    None
}

/// The messages from the root of the conversation down to `target_id`, each
/// the parent of the next; empty when no message has that id. Of messages
/// that share an id, the last one listed counts. The parent ids must not
/// run in a circle.
pub fn lineage_to(entries: &[SessionEntry], target_id: &str) -> (r: Vec<SessionEntry>)
    requires
        lineage_ends(entries_view(entries@), Some(target_id@), (entries.len() + 1) as nat),
    ensures
        entries_view(r@) == lineage(entries_view(entries@), Some(target_id@), (entries.len() + 1) as nat),
{
    let ghost es = entries_view(entries@);
    let ghost fuel0: nat = (entries.len() + 1) as nat;
    let ghost mut fuel: nat = fuel0;
    let mut path: Vec<SessionEntry> = Vec::new();
    let mut current: Option<&str> = Some(target_id);
    loop
        invariant
            es == entries_view(entries@),
            lineage_ends(es, str_opt_view(current), fuel),
            lineage(es, Some(target_id@), fuel0) == lineage(es, str_opt_view(current), fuel) + entries_view(path@),
        ensures
            lineage(es, str_opt_view(current), fuel) == Seq::<EntryView>::empty(),
        decreases fuel,
    {
        let id = match current {
            None => break,
            Some(id) => id,
        };
        let found = find_last_message(entries, id);
        let i = match found {
            None => break,
            Some(i) => i,
        };
        proof { lemma_last_message(es, id@); }
        let e = entries[i].duplicate();
        let ghost before = entries_view(path@);
        let ghost step = lineage(es, es[i as int].parent(), (fuel - 1) as nat);
        current = entries[i].parent_id();
        path.insert(0, e);
        proof {
            assert(entries_view(path@) =~= seq![es[i as int]] + before);
            assert(step.push(es[i as int]) + before =~= step + entries_view(path@));
            fuel = (fuel - 1) as nat;
        }
    }
    assert(lineage(es, str_opt_view(current), fuel) + entries_view(path@) =~= entries_view(path@));
    path
}

// ---------------------------------------------------------------------
// Compaction
// ---------------------------------------------------------------------

/// Above this many messages a session is due for compaction.
pub const COMPACTION_THRESHOLD: usize = 40;

/// The number of message entries of `es`.
pub open spec fn message_count(es: Seq<EntryView>) -> nat
    decreases es.len(),
{
    if es.len() == 0 {
        0
    } else {
        message_count(es.drop_last()) + if es.last() is Message { 1nat } else { 0nat }
    }
}

proof fn lemma_message_count_le(es: Seq<EntryView>)
    ensures
        message_count(es) <= es.len(),
    decreases es.len(),
{
    if es.len() > 0 {
        lemma_message_count_le(es.drop_last());
    }
}

fn count_messages(entries: &[SessionEntry]) -> (n: usize)
    ensures
        n == message_count(entries_view(entries@)),
{
    let ghost es = entries_view(entries@);
    let mut n: usize = 0;
    let mut i: usize = 0;
    while i < entries.len()
        invariant
            i <= entries.len(),
            es == entries_view(entries@),
            n == message_count(es.subrange(0, i as int)),
        decreases entries.len() - i,
    {
        proof {
            let sub = es.subrange(0, i + 1);
            assert(sub.drop_last() =~= es.subrange(0, i as int));
            lemma_message_count_le(es.subrange(0, i as int));
        }
        if let SessionEntry::Message(_) = &entries[i] {
            n = n + 1;
        }
        i = i + 1;
    }
    assert(es.subrange(0, entries.len() as int) =~= es);
    n
}

/// Whether the session holds more than `COMPACTION_THRESHOLD` messages.
pub fn should_compact(entries: &[SessionEntry]) -> (r: bool)
    ensures
        r == (message_count(entries_view(entries@)) > COMPACTION_THRESHOLD),
{
    count_messages(entries) > COMPACTION_THRESHOLD
}

/// `v` in decimal, with a leading `-` when negative.
pub open spec fn signed_dec(v: int) -> Seq<char> {
    if v < 0 {
        seq!['-'] + dec((-v) as nat)
    } else {
        dec(v as nat)
    }
}

pub(crate) fn push_signed(s: &mut String, v: i64)
    ensures
        final(s)@ == old(s)@ + signed_dec(v as int),
{
    if v < 0 {
        push_char(s, '-');
        let m: i128 = 0i128 - (v as i128);
        push_dec(s, m as u64);
    } else {
        push_dec(s, v as u64);
    }
}

/// The id of a summary made at `millis` milliseconds since the epoch.
pub open spec fn summary_id(millis: i64) -> Seq<char> {
    "summary-"@ + signed_dec(millis as int)
}

/// The content of a summary entry: one text block that holds the summary
/// under a `[Context Summary]` line.
pub open spec fn summary_content(text: Seq<char>) -> Seq<char> {
    "[{\"type\":\"text\",\"text\":"@ + json_quoted("[Context Summary]\n"@ + text) + "}]"@
}

/// The summary entry made at `millis` and `timestamp`.
pub open spec fn summary_entry(text: Seq<char>, millis: i64, timestamp: Seq<char>) -> MessageView {
    MessageView {
        id: summary_id(millis),
        parent: None,
        timestamp: timestamp,
        role: "system"@,
        content: summary_content(text),
        model: None,
        stop_reason: None,
    }
}

pub open spec fn not_enough_messages(n: nat, keep: nat) -> Seq<char> {
    "Not enough messages to compact ("@ + dec(n) + " <= "@ + dec(keep) + ")"@
}

/// What `create_summary` gives for `es` at `millis` and `timestamp`.
pub open spec fn summary_outcome(
    es: Seq<EntryView>,
    text: Seq<char>,
    keep_recent: nat,
    millis: i64,
    timestamp: Seq<char>,
    r: Result<(MessageEntry, CompactionResult), String>,
) -> bool {
    let n = message_count(es);
    match r {
        Ok((m, c)) => {
            &&& n > keep_recent
            &&& m@ == summary_entry(text, millis, timestamp)
            &&& c.original_count == n
            &&& c.compacted_count == 1 + keep_recent
            &&& c.summarized_count == n - keep_recent
        },
        Err(e) => n <= keep_recent && e@ == not_enough_messages(n, keep_recent),
    }
}

/// Folds the messages of `entries` but the last `keep_recent` into one
/// system message that holds `summary_text`, made at `millis` milliseconds
/// since the epoch and stamped `timestamp`. Fails when there are no more
/// than `keep_recent` messages.
pub fn create_summary_at(
    entries: &[SessionEntry],
    summary_text: &str,
    keep_recent: usize,
    millis: i64,
    timestamp: &str,
) -> (r: Result<(MessageEntry, CompactionResult), String>)
    ensures
        summary_outcome(entries_view(entries@), summary_text@, keep_recent as nat, millis, timestamp@, r),
{
    let original_count = count_messages(entries);
    proof { lemma_message_count_le(entries_view(entries@)); }
    if original_count <= keep_recent {
        let mut e = String::new();
        proof { reveal_strlit("Not enough messages to compact ("); reveal_strlit(" <= "); reveal_strlit(")"); }
        push_str(&mut e, "Not enough messages to compact (");
        push_dec(&mut e, original_count as u64);
        push_str(&mut e, " <= ");
        push_dec(&mut e, keep_recent as u64);
        push_str(&mut e, ")");
        return Err(e);
    }
    let mut id = String::new();
    proof { reveal_strlit("summary-"); }
    push_str(&mut id, "summary-");
    push_signed(&mut id, millis);
    let mut body = String::new();
    proof { reveal_strlit("[Context Summary]\n"); }
    push_str(&mut body, "[Context Summary]\n");
    push_str(&mut body, summary_text);
    let quoted = json_quote(body.as_str());
    let mut content = String::new();
    proof { reveal_strlit("[{\"type\":\"text\",\"text\":"); reveal_strlit("}]"); }
    push_str(&mut content, "[{\"type\":\"text\",\"text\":");
    push_str(&mut content, quoted.as_str());
    push_str(&mut content, "}]");
    proof { reveal_strlit("system"); }
    let m = MessageEntry {
        id,
        parent_id: None,
        timestamp: timestamp.to_string(),
        role: "system".to_string(),
        content,
        model: None,
        stop_reason: None,
    };
    Ok((m, CompactionResult {
        original_count,
        compacted_count: 1 + keep_recent,
        summarized_count: original_count - keep_recent,
    }))
}

/// The current time as milliseconds since the epoch and as RFC 3339 text
/// (`chrono::Utc::now`); it depends on the clock, so nothing is promised of
/// it.
#[verifier::external_body]
fn utc_now() -> (i64, String) {
    let now = chrono::Utc::now();
    (now.timestamp_millis(), now.to_rfc3339())
}

/// `create_summary_at` at the current time.
pub fn create_summary(
    entries: &[SessionEntry],
    summary_text: &str,
    keep_recent: usize,
) -> (r: Result<(MessageEntry, CompactionResult), String>)
    ensures
        exists|millis: i64, timestamp: Seq<char>|
            summary_outcome(entries_view(entries@), summary_text@, keep_recent as nat, millis, timestamp, r),
{
    let (millis, timestamp) = utc_now();
    create_summary_at(entries, summary_text, keep_recent, millis, timestamp.as_str())
}

/// The messages of `es` whose role is not `system`, in order.
pub open spec fn conversation(es: Seq<EntryView>) -> Seq<EntryView>
    decreases es.len(),
{
    if es.len() == 0 {
        Seq::empty()
    } else {
        let rest = conversation(es.drop_last());
        match es.last() {
            EntryView::Message(m) => if m.role != "system"@ { rest.push(es.last()) } else { rest },
            EntryView::Compaction(_) => rest,
        }
    }
}

/// The last `n` items of `s`, or all of them when there are fewer.
pub open spec fn last_n<A>(s: Seq<A>, n: nat) -> Seq<A> {
    if n >= s.len() {
        s
    } else {
        s.subrange(s.len() - n, s.len() as int)
    }
}

/// The compacted list: the summary, then the last `keep_recent` messages of
/// `entries` whose role is not `system`.
pub fn build_compacted_entries(
    entries: &[SessionEntry],
    summary_entry: MessageEntry,
    keep_recent: usize,
) -> (r: Vec<SessionEntry>)
    ensures
        entries_view(r@) == seq![EntryView::Message(summary_entry@)]
            + last_n(conversation(entries_view(entries@)), keep_recent as nat),
{
    let ghost es = entries_view(entries@);
    proof { reveal_strlit("system"); }
    let mut messages: Vec<SessionEntry> = Vec::new();
    let mut i: usize = 0;
    while i < entries.len()
        invariant
            i <= entries.len(),
            es == entries_view(entries@),
            entries_view(messages@) == conversation(es.subrange(0, i as int)),
        decreases entries.len() - i,
    {
        proof {
            let sub = es.subrange(0, i + 1);
            assert(sub.drop_last() =~= es.subrange(0, i as int));
        }
        let ghost before = entries_view(messages@);
        if let SessionEntry::Message(m) = &entries[i] {
            if !str_eq(m.role.as_str(), "system") {
                messages.push(entries[i].duplicate());
                assert(entries_view(messages@) =~= before.push(es[i as int]));
            }
        }
        i = i + 1;
    }
    assert(es.subrange(0, entries.len() as int) =~= es);
    let ghost conv = entries_view(messages@);
    let start: usize = if keep_recent >= messages.len() { 0 } else { messages.len() - keep_recent };
    let mut result: Vec<SessionEntry> = Vec::new();
    result.push(SessionEntry::Message(summary_entry));
    let ghost head = entries_view(result@);
    let mut j: usize = start;
    while j < messages.len()
        invariant
            start <= j <= messages.len(),
            conv == entries_view(messages@),
            entries_view(result@) == head + conv.subrange(start as int, j as int),
        decreases messages.len() - j,
    {
        let ghost before = entries_view(result@);
        result.push(messages[j].duplicate());
        assert(entries_view(result@) =~= before.push(conv[j as int]));
        assert(conv.subrange(start as int, j + 1) =~= conv.subrange(start as int, j as int).push(conv[j as int]));
        j = j + 1;
    }
    assert(last_n(conv, keep_recent as nat) =~= conv.subrange(start as int, conv.len() as int));
    result
}

// ---------------------------------------------------------------------
// The log
// ---------------------------------------------------------------------

/// What a session header holds, as mathematical text.
pub struct HeaderView {
    pub entry_type: Seq<char>,
    pub version: u32,
    pub id: Seq<char>,
    pub timestamp: Seq<char>,
    pub cwd: Seq<char>,
    pub parent_session: Option<Seq<char>>,
}

impl View for SessionHeader {
    type V = HeaderView;

    open spec fn view(&self) -> HeaderView {
        HeaderView {
            entry_type: self.entry_type@,
            version: self.version,
            id: self.id@,
            timestamp: self.timestamp@,
            cwd: self.cwd@,
            parent_session: opt_view(self.parent_session),
        }
    }
}

/// The format version that new session files are written in.
pub const SESSION_FORMAT_VERSION: u32 = 3;

impl SessionHeader {
    /// The header of a new session `id`, started in `cwd` at `timestamp`.
    pub fn new_at(id: &str, cwd: &str, timestamp: &str) -> (h: Self)
        ensures
            h@ == (HeaderView {
                entry_type: "session"@,
                version: SESSION_FORMAT_VERSION,
                id: id@,
                timestamp: timestamp@,
                cwd: cwd@,
                parent_session: None,
            }),
    {
        proof { reveal_strlit("session"); }
        SessionHeader {
            entry_type: "session".to_string(),
            version: SESSION_FORMAT_VERSION,
            id: id.to_string(),
            timestamp: timestamp.to_string(),
            cwd: cwd.to_string(),
            parent_session: None,
        }
    }

    /// The header of a new session `id`, started in `cwd` now.
    pub fn new(id: &str, cwd: &str) -> (h: Self)
        ensures
            h@.entry_type == "session"@,
            h@.version == SESSION_FORMAT_VERSION,
            h@.id == id@,
            h@.cwd == cwd@,
            h@.parent_session is None,
    {
        let (_, timestamp) = utc_now();
        Self::new_at(id, cwd, timestamp.as_str())
    }

    fn duplicate(&self) -> (h: Self)
        ensures
            h@ == self@,
    {
        SessionHeader {
            entry_type: self.entry_type.clone(),
            version: self.version,
            id: self.id.clone(),
            timestamp: self.timestamp.clone(),
            cwd: self.cwd.clone(),
            parent_session: copy_opt(&self.parent_session),
        }
    }
}

/// The index recorded last for `id` in a list of `(id, index)` records.
pub open spec fn recorded_index(pairs: Seq<(String, usize)>, id: Seq<char>) -> Option<usize>
    decreases pairs.len(),
{
    if pairs.len() == 0 {
        None
    } else if pairs.last().0@ == id {
        Some(pairs.last().1)
    } else {
        recorded_index(pairs.drop_last(), id)
    }
}

/// The index of the last entry of `es`, of any kind, with the id `id`.
pub open spec fn last_entry(es: Seq<EntryView>, id: Seq<char>) -> Option<usize>
    decreases es.len(),
{
    if es.len() == 0 {
        None
    } else if es.last().id() == id {
        Some((es.len() - 1) as usize)
    } else {
        last_entry(es.drop_last(), id)
    }
}

/// A session's metadata.
#[derive(Debug)]
pub struct SessionMetadata {
    pub id: String,
    pub name: Option<String>,
    pub created_at: String,
    pub cwd: String,
    pub path: String,
    pub parent_session_path: Option<String>,
}

/// A session log in memory: the file it belongs to, its header, its entries
/// in the order they were appended, the index of each id's last entry as
/// recorded when it was appended, and the id of the entry appended last.
#[derive(Debug)]
pub struct JsonlSession {
    path: String,
    header: SessionHeader,
    entries: Vec<SessionEntry>,
    by_id: Vec<(String, usize)>,
    current_leaf_id: Option<String>,
}

pub open spec fn not_a_header(path: Seq<char>) -> Seq<char> {
    "First line is not a session header in "@ + path
}

/// The views of a list of references to entries.
pub open spec fn refs_view(s: Seq<&SessionEntry>) -> Seq<EntryView> {
    s.map_values(|e: &SessionEntry| e@)
}

impl JsonlSession {
    pub closed spec fn path_view(&self) -> Seq<char> {
        self.path@
    }

    pub closed spec fn header_view(&self) -> HeaderView {
        self.header@
    }

    /// The entries, in the order they were appended.
    pub closed spec fn entries_seq(&self) -> Seq<EntryView> {
        entries_view(self.entries@)
    }

    /// The index recorded for `id`: where its last entry stood when it was
    /// appended.
    pub closed spec fn index_of(&self, id: Seq<char>) -> Option<usize> {
        recorded_index(self.by_id@, id)
    }

    pub closed spec fn leaf(&self) -> Option<Seq<char>> {
        opt_view(self.current_leaf_id)
    }

    /// Every recorded index names the last entry with its id.
    pub open spec fn index_current(&self) -> bool {
        forall|id: Seq<char>| #[trigger] self.index_of(id) == last_entry(self.entries_seq(), id)
    }

    fn lookup(&self, id: &str) -> (r: Option<usize>)
        ensures
            r == self.index_of(id@),
    {
        let mut i: usize = self.by_id.len();
        assert(self.by_id@.subrange(0, i as int) =~= self.by_id@);
        while i > 0
            invariant
                i <= self.by_id.len(),
                recorded_index(self.by_id@.subrange(0, i as int), id@) == recorded_index(self.by_id@, id@),
            decreases i,
        {
            let ghost sub = self.by_id@.subrange(0, i as int);
            if str_eq(self.by_id[i - 1].0.as_str(), id) {
                assert(sub.last() == self.by_id@[i - 1]);
                return Some(self.by_id[i - 1].1);
            }
            assert(sub.drop_last() =~= self.by_id@.subrange(0, i - 1));
            i = i - 1;
        }
        None
    }

    /// A log read from `path`: its parsed header and the entries that
    /// parsed, in file order. Fails when the header is not a session header.
    pub fn from_parsed(path: &str, header: SessionHeader, entries: Vec<SessionEntry>) -> (r: Result<Self, String>)
        ensures
            match r {
                Ok(s) => {
                    &&& header@.entry_type == "session"@
                    &&& s.path_view() == path@
                    &&& s.header_view() == header@
                    &&& s.entries_seq() == entries_view(entries@)
                    &&& s.index_current()
                    &&& s.leaf() == (if entries.len() == 0 { None } else { Some(entries_view(entries@).last().id()) })
                },
                Err(e) => header@.entry_type != "session"@ && e@ == not_a_header(path@),
            },
    {
        proof { reveal_strlit("session"); }
        if !str_eq(header.entry_type.as_str(), "session") {
            let mut e = String::new();
            proof { reveal_strlit("First line is not a session header in "); }
            push_str(&mut e, "First line is not a session header in ");
            push_str(&mut e, path);
            return Err(e);
        }
        let mut s = JsonlSession {
            path: path.to_string(),
            header,
            entries: Vec::new(),
            by_id: Vec::new(),
            current_leaf_id: None,
        };
        let ghost es = entries_view(entries@);
        let mut i: usize = 0;
        while i < entries.len()
            invariant
                i <= entries.len(),
                es == entries_view(entries@),
                s.path_view() == path@,
                s.header_view() == header@,
                s.entries_seq() == es.subrange(0, i as int),
                s.index_current(),
                s.leaf() == (if i == 0 { None } else { Some(es[i - 1].id()) }),
            decreases entries.len() - i,
        {
            s.append(entries[i].duplicate());
            assert(es.subrange(0, i + 1) =~= es.subrange(0, i as int).push(es[i as int]));
            i = i + 1;
        }
        assert(es.subrange(0, entries.len() as int) =~= es);
        Ok(s)
    }

    /// A new, empty log for the session `id`, started in `cwd` at
    /// `timestamp`.
    pub fn create_with_id_at(path: &str, cwd: &str, id: &str, timestamp: &str) -> (s: Self)
        ensures
            s.path_view() == path@,
            s.header_view() == SessionHeader::new_at_view(id@, cwd@, timestamp@),
            s.entries_seq().len() == 0,
            s.index_current(),
            s.leaf() is None,
    {
        let header = SessionHeader::new_at(id, cwd, timestamp);
        let s = JsonlSession {
            path: path.to_string(),
            header,
            entries: Vec::new(),
            by_id: Vec::new(),
            current_leaf_id: None,
        };
        s
    }

    /// A new, empty log for the session `id`, started in `cwd` now.
    pub fn create_with_id(path: &str, cwd: &str, id: &str) -> (s: Self)
        ensures
            s.path_view() == path@,
            exists|t: Seq<char>| s.header_view() == SessionHeader::new_at_view(id@, cwd@, t),
            s.entries_seq().len() == 0,
            s.index_current(),
            s.leaf() is None,
    {
        let (_, timestamp) = utc_now();
        Self::create_with_id_at(path, cwd, id, timestamp.as_str())
    }

    /// A new, empty log with a fresh id taken from the clock.
    pub fn create(path: &str, cwd: &str) -> (s: Self)
        ensures
            s.path_view() == path@,
            exists|n: u128, t: Seq<char>| s.header_view() == SessionHeader::new_at_view(short_id_text(n), cwd@, t),
            s.entries_seq().len() == 0,
            s.index_current(),
            s.leaf() is None,
    {
        let id = Self::generate_id();
        Self::create_with_id(path, cwd, id.as_str())
    }

    /// Appends `entry`; it becomes the leaf, and its id now names it.
    pub fn append(&mut self, entry: SessionEntry)
        ensures
            final(self).path_view() == old(self).path_view(),
            final(self).header_view() == old(self).header_view(),
            final(self).entries_seq() == old(self).entries_seq().push(entry@),
            final(self).leaf() == Some(entry@.id()),
            forall|id: Seq<char>| #[trigger] final(self).index_of(id) == if id == entry@.id() {
                Some(old(self).entries_seq().len() as usize)
            } else {
                old(self).index_of(id)
            },
            old(self).index_current() ==> final(self).index_current(),
    {
        let ghost old_es = self.entries_seq();
        let ghost old_pairs = self.by_id@;
        let id = entry.id().to_string();
        let n = self.entries.len();
        self.by_id.push((id.clone(), n));
        self.current_leaf_id = Some(id);
        self.entries.push(entry);
        proof {
            let es = self.entries_seq();
            assert(es =~= old_es.push(entry@));
            assert(self.by_id@.drop_last() =~= old_pairs);
            assert(es.drop_last() =~= old_es);
            if old(self).index_current() {
                assert forall|id: Seq<char>| #[trigger] self.index_of(id) == last_entry(es, id) by {
                    assert(old(self).index_of(id) == last_entry(old_es, id));
                }
            }
        }
    }

    /// The header.
    pub fn header(&self) -> (r: &SessionHeader)
        ensures
            r@ == self.header_view(),
    {
        &self.header
    }

    /// All entries, in the order they were appended.
    pub fn entries(&self) -> (r: &[SessionEntry])
        ensures
            entries_view(r@) == self.entries_seq(),
    {
        self.entries.as_slice()
    }

    /// The id of the entry appended last.
    pub fn leaf_id(&self) -> (r: Option<&str>)
        ensures
            str_opt_view(r) == self.leaf(),
    {
        match &self.current_leaf_id {
            Some(s) => Some(s.as_str()),
            None => None,
        }
    }

    /// The entry recorded for `id`. The recorded index must lie within the
    /// entries (it may not after `compact_keep_last`).
    pub fn get(&self, id: &str) -> (r: Option<&SessionEntry>)
        requires
            self.index_of(id@) matches Some(i) ==> i < self.entries_seq().len(),
        ensures
            match self.index_of(id@) {
                Some(i) => r matches Some(e) && e@ == self.entries_seq()[i as int],
                None => r is None,
            },
    {
        match self.lookup(id) {
            Some(i) => {
                assert(entries_view(self.entries@)[i as int] == self.entries@[i as int]@);
                Some(&self.entries[i])
            },
            None => None,
        }
    }

    /// The session id.
    pub fn id(&self) -> (r: &str)
        ensures
            r@ == self.header_view().id,
    {
        self.header.id.as_str()
    }

    /// The directory the session was started in.
    pub fn cwd(&self) -> (r: &str)
        ensures
            r@ == self.header_view().cwd,
    {
        self.header.cwd.as_str()
    }

    /// The number of entries.
    pub fn len(&self) -> (n: usize)
        ensures
            n == self.entries_seq().len(),
    {
        self.entries.len()
    }

    /// Whether there are no entries.
    pub fn is_empty(&self) -> (r: bool)
        ensures
            r == (self.entries_seq().len() == 0),
    {
        self.entries.len() == 0
    }

    /// The session's metadata: its id, start time, directory, file and
    /// parent session; it has no name.
    pub fn metadata(&self) -> (m: SessionMetadata)
        ensures
            m.id@ == self.header_view().id,
            m.name is None,
            m.created_at@ == self.header_view().timestamp,
            m.cwd@ == self.header_view().cwd,
            m.path@ == self.path_view(),
            opt_view(m.parent_session_path) == self.header_view().parent_session,
    {
        SessionMetadata {
            id: self.header.id.clone(),
            name: None,
            created_at: self.header.timestamp.clone(),
            cwd: self.header.cwd.clone(),
            path: self.path.clone(),
            parent_session_path: copy_opt(&self.header.parent_session),
        }
    }

    /// Keeps only the last `keep` entries and answers how many were dropped.
    /// The recorded indices and the leaf are left as they were.
    pub fn compact_keep_last(&mut self, keep: usize) -> (removed: usize)
        ensures
            final(self).path_view() == old(self).path_view(),
            final(self).header_view() == old(self).header_view(),
            final(self).leaf() == old(self).leaf(),
            forall|id: Seq<char>| #[trigger] final(self).index_of(id) == old(self).index_of(id),
            old(self).entries_seq().len() <= keep ==> removed == 0
                && final(self).entries_seq() == old(self).entries_seq(),
            old(self).entries_seq().len() > keep ==> removed == old(self).entries_seq().len() - keep
                && final(self).entries_seq() == old(self).entries_seq().subrange(
                    removed as int, old(self).entries_seq().len() as int),
    {
        let n = self.entries.len();
        if n <= keep {
            return 0;
        }
        let removed = n - keep;
        let ghost old_entries = self.entries@;
        let tail = self.entries.split_off(removed);
        self.entries = tail;
        assert(entries_view(self.entries@) =~= entries_view(old_entries).subrange(removed as int, n as int));
        removed
    }

    /// The entries from the root down to `oid`, each the parent of the
    /// next, as far as `fuel` steps reach; an id that names no entry ends
    /// the walk.
    pub open spec fn root_path(&self, oid: Option<Seq<char>>, fuel: nat) -> Seq<EntryView>
        decreases fuel,
    {
        if fuel == 0 {
            Seq::empty()
        } else {
            match oid {
                None => Seq::empty(),
                Some(id) => match self.index_of(id) {
                    None => Seq::empty(),
                    Some(i) => self.root_path(self.entries_seq()[i as int].parent(), (fuel - 1) as nat)
                        .push(self.entries_seq()[i as int]),
                },
            }
        }
    }

    /// The walk up from `oid` ends within `fuel` steps, and every index it
    /// looks up lies within the entries.
    pub open spec fn root_path_ends(&self, oid: Option<Seq<char>>, fuel: nat) -> bool
        decreases fuel,
    {
        fuel > 0 && match oid {
            None => true,
            Some(id) => match self.index_of(id) {
                None => true,
                Some(i) => i < self.entries_seq().len()
                    && self.root_path_ends(self.entries_seq()[i as int].parent(), (fuel - 1) as nat),
            },
        }
    }

    /// The entries from the root down to `leaf_id`, each the parent of the
    /// next; empty when no entry has that id.
    pub fn path_to_root(&self, leaf_id: &str) -> (r: Vec<&SessionEntry>)
        requires
            self.root_path_ends(Some(leaf_id@), (self.entries_seq().len() + 1) as nat),
        ensures
            refs_view(r@) == self.root_path(Some(leaf_id@), (self.entries_seq().len() + 1) as nat),
    {
        let ghost fuel0: nat = (self.entries_seq().len() + 1) as nat;
        let ghost mut fuel: nat = fuel0;
        let mut path: Vec<&SessionEntry> = Vec::new();
        let mut current: Option<&str> = Some(leaf_id);
        loop
            invariant
                self.root_path_ends(str_opt_view(current), fuel),
                self.root_path(Some(leaf_id@), fuel0) == self.root_path(str_opt_view(current), fuel) + refs_view(path@),
            ensures
                self.root_path(str_opt_view(current), fuel) == Seq::<EntryView>::empty(),
            decreases fuel,
        {
            let id = match current {
                None => break,
                Some(id) => id,
            };
            let i = match self.lookup(id) {
                None => break,
                Some(i) => i,
            };
            let e: &SessionEntry = &self.entries[i];
            let ghost before = refs_view(path@);
            let ghost ev = self.entries_seq()[i as int];
            assert(e@ == ev);
            let ghost step = self.root_path(ev.parent(), (fuel - 1) as nat);
            current = e.parent_id();
            path.insert(0, e);
            proof {
                assert(refs_view(path@) =~= seq![ev] + before);
                assert(step.push(ev) + before =~= step + refs_view(path@));
                fuel = (fuel - 1) as nat;
            }
        }
        assert(self.root_path(str_opt_view(current), fuel) + refs_view(path@) =~= refs_view(path@));
        path
    }

    /// The compaction entry at `c` archives the entry at `k`: its archived
    /// range names two ids whose recorded indices enclose `k`.
    pub open spec fn archives(&self, c: int, k: int) -> bool {
        let es = self.entries_seq();
        &&& 0 <= c < es.len()
        &&& 0 <= k < es.len()
        &&& es[c] matches EntryView::Compaction(cv)
        &&& cv.archived_range matches Some(range)
        &&& range.len() == 2
        &&& self.index_of(range[0]) matches Some(si)
        &&& self.index_of(range[1]) matches Some(ei)
        &&& si <= k <= ei
    }

    /// Some compaction archives an entry with the id `id`.
    pub open spec fn is_archived(&self, id: Seq<char>) -> bool {
        exists|c: int, k: int| #[trigger] self.archives(c, k) && self.entries_seq()[k].id() == id
    }

    /// The first `n` entries, without those whose id is archived.
    pub open spec fn active_prefix(&self, n: int) -> Seq<EntryView>
        decreases n,
    {
        if n <= 0 {
            Seq::empty()
        } else {
            let rest = self.active_prefix(n - 1);
            if self.is_archived(self.entries_seq()[n - 1].id()) {
                rest
            } else {
                rest.push(self.entries_seq()[n - 1])
            }
        }
    }

    /// The entries that no compaction archives, in order.
    pub fn active_entries(&self) -> (r: Vec<&SessionEntry>)
        ensures
            refs_view(r@) == self.active_prefix(self.entries_seq().len() as int),
    {
        let ghost es = self.entries_seq();
        let n = self.entries.len();
        // the ids of archived entries
        let mut archived: Vec<&str> = Vec::new();
        let mut c: usize = 0;
        while c < n
            invariant
                n == es.len(),
                es == self.entries_seq(),
                c <= n,
                forall|id: Seq<char>| #[trigger] slices_contain(archived@, id) <==>
                    exists|c2: int, k: int| 0 <= c2 < c && #[trigger] self.archives(c2, k) && es[k].id() == id,
            decreases n - c,
        {
            let ghost prev = archived@;
            if let SessionEntry::Compaction(ce) = &self.entries[c] {
                if let Some(range) = &ce.archived_range {
                    if range.len() == 2 {
                        let si = self.lookup(range[0].as_str());
                        let ei = self.lookup(range[1].as_str());
                        if let (Some(si), Some(ei)) = (si, ei) {
                            let mut k: usize = si;
                            while k <= ei && k < n
                                invariant
                                    n == es.len(),
                                    es == self.entries_seq(),
                                    c < n,
                                    si <= k,
                                    k == si || (k <= ei + 1 && k <= n),
                                    es[c as int] matches EntryView::Compaction(cv) && cv.archived_range matches Some(rg)
                                        && rg.len() == 2 && self.index_of(rg[0]) == Some(si) && self.index_of(rg[1]) == Some(ei),
                                    forall|id: Seq<char>| #[trigger] slices_contain(archived@, id) <==>
                                        (slices_contain(prev, id) || exists|k2: int| si <= k2 < k && es[k2].id() == id),
                                decreases n - k,
                            {
                                let ghost before = archived@;
                                archived.push(self.entries[k].id());
                                proof {
                                    assert forall|id: Seq<char>| #[trigger] slices_contain(archived@, id) <==>
                                        (slices_contain(prev, id) || exists|k2: int| si <= k2 < k + 1 && es[k2].id() == id) by {
                                        assert(archived@ == before.push(archived@.last()));
                                        lemma_slices_contain_push(before, archived@.last(), id);
                                        if id == es[k as int].id() {
                                            assert(si <= k < k + 1 && es[k as int].id() == id);
                                        }
                                        if exists|k2: int| si <= k2 < k + 1 && es[k2].id() == id {
                                            let k2 = choose|k2: int| si <= k2 < k + 1 && es[k2].id() == id;
                                            if k2 < k {
                                                assert(si <= k2 < k && es[k2].id() == id);
                                            }
                                        }
                                    }
                                }
                                k = k + 1;
                            }
                            proof {
                                assert forall|id: Seq<char>| #[trigger] slices_contain(archived@, id) <==>
                                    exists|c2: int, k2: int| 0 <= c2 < c + 1 && #[trigger] self.archives(c2, k2) && es[k2].id() == id by {
                                    if slices_contain(archived@, id) {
                                        if slices_contain(prev, id) {
                                            let (c2, k2) = choose|c2: int, k2: int| 0 <= c2 < c && #[trigger] self.archives(c2, k2) && es[k2].id() == id;
                                            assert(0 <= c2 < c + 1 && self.archives(c2, k2));
                                        } else {
                                            let k2 = choose|k2: int| si <= k2 < k && es[k2].id() == id;
                                            assert(self.archives(c as int, k2));
                                        }
                                    }
                                    if exists|c2: int, k2: int| 0 <= c2 < c + 1 && #[trigger] self.archives(c2, k2) && es[k2].id() == id {
                                        let (c2, k2) = choose|c2: int, k2: int| 0 <= c2 < c + 1 && #[trigger] self.archives(c2, k2) && es[k2].id() == id;
                                        if c2 < c {
                                            assert(slices_contain(prev, id));
                                        } else {
                                            assert(si <= k2 < k && es[k2].id() == id);
                                        }
                                    }
                                }
                            }
                        }
                    }
                }
            }
            proof {
                assert forall|id: Seq<char>| #[trigger] slices_contain(archived@, id) <==>
                    exists|c2: int, k2: int| 0 <= c2 < c + 1 && #[trigger] self.archives(c2, k2) && es[k2].id() == id by {
                    if exists|c2: int, k2: int| 0 <= c2 < c + 1 && #[trigger] self.archives(c2, k2) && es[k2].id() == id {
                        let (c2, k2) = choose|c2: int, k2: int| 0 <= c2 < c + 1 && #[trigger] self.archives(c2, k2) && es[k2].id() == id;
                        if c2 == c && !slices_contain(archived@, id) {
                            assert(self.archives(c as int, k2));
                        }
                    }
                }
            }
            c = c + 1;
        }
        // keep the entries whose id is not archived
        let mut result: Vec<&SessionEntry> = Vec::new();
        let mut i: usize = 0;
        while i < n
            invariant
                n == es.len(),
                es == self.entries_seq(),
                i <= n,
                forall|id: Seq<char>| #[trigger] slices_contain(archived@, id) <==> self.is_archived(id),
                refs_view(result@) == self.active_prefix(i as int),
            decreases n - i,
        {
            let e: &SessionEntry = &self.entries[i];
            assert(e@ == es[i as int]);
            if !contains_str(&archived, e.id()) {
                let ghost before = refs_view(result@);
                result.push(e);
                assert(refs_view(result@) =~= before.push(es[i as int]));
            }
            i = i + 1;
        }
        result
    }

    fn generate_id() -> (r: String)
        ensures
            exists|n: u128| r@ == short_id_text(n),
    {
        short_id_from(crate::session::nanos_since_epoch())
    }
}

impl SessionHeader {
    pub open spec fn new_at_view(id: Seq<char>, cwd: Seq<char>, timestamp: Seq<char>) -> HeaderView {
        HeaderView {
            entry_type: "session"@,
            version: SESSION_FORMAT_VERSION,
            id: id,
            timestamp: timestamp,
            cwd: cwd,
            parent_session: None,
        }
    }
}

/// Eight lowercase hexadecimal digits of a 32-bit value (`{:08x}`).
pub open spec fn hex8(v: u32) -> Seq<char> {
    Seq::new(8, |k: int| crate::session::hex_digit(((v as nat) / pow16((7 - k) as nat)) % 16))
}

pub open spec fn pow16(k: nat) -> nat
    decreases k,
{
    if k == 0 { 1 } else { 16 * pow16((k - 1) as nat) }
}

/// A short session id from the clock's nanoseconds: the low 32 bits XOR
/// the next 32 bits, in hexadecimal.
pub open spec fn short_id_text(nanos: u128) -> Seq<char> {
    hex8((nanos as u32) ^ ((nanos >> 32u128) as u32))
}

/// The short session id for the clock's nanoseconds since the epoch.
pub fn short_id_from(nanos: u128) -> (r: String)
    ensures
        r@ == short_id_text(nanos),
{
    let v: u32 = (nanos as u32) ^ ((nanos >> 32u128) as u32);
    let mut r = String::new();
    let mut k: usize = 0;
    let mut d: u32 = 0x1000_0000;
    proof { lemma_pow16_values(); }
    while k < 8
        invariant
            k <= 8,
            d as nat == pow16((7 - k) as nat) || k == 8,
            r@ == hex8(v).subrange(0, k as int),
        decreases 8 - k,
    {
        proof { lemma_pow16_values(); }
        let digit: u32 = (v / d) % 16;
        push_char(&mut r, crate::session::hex_char(digit as u16));
        assert(r@ =~= hex8(v).subrange(0, k + 1));
        if k < 7 {
            proof { assert(pow16((7 - k) as nat) == 16 * pow16((7 - (k + 1)) as nat)); }
            d = d / 16;
        }
        k = k + 1;
    }
    assert(r@ =~= hex8(v));
    r
}

proof fn lemma_pow16_values()
    ensures
        pow16(0) == 1,
        pow16(1) == 16,
        pow16(2) == 0x100,
        pow16(3) == 0x1000,
        pow16(4) == 0x1_0000,
        pow16(5) == 0x10_0000,
        pow16(6) == 0x100_0000,
        pow16(7) == 0x1000_0000,
{
    reveal_with_fuel(pow16, 8);
}

/// `id` is one of the texts of `v`.
pub open spec fn slices_contain(v: Seq<&str>, id: Seq<char>) -> bool {
    exists|i: int| 0 <= i < v.len() && v[i]@ == id
}

proof fn lemma_slices_contain_push(v: Seq<&str>, x: &str, id: Seq<char>)
    ensures
        slices_contain(v.push(x), id) <==> (slices_contain(v, id) || x@ == id),
{
    let w = v.push(x);
    if slices_contain(w, id) {
        let i = choose|i: int| 0 <= i < w.len() && w[i]@ == id;
        if i < v.len() {
            assert(v[i]@ == id);
        }
    }
    if slices_contain(v, id) {
        let i = choose|i: int| 0 <= i < v.len() && v[i]@ == id;
        assert(w[i]@ == id);
    }
    if x@ == id {
        assert(w[v.len() as int]@ == id);
    }
}

fn contains_str(v: &Vec<&str>, id: &str) -> (r: bool)
    ensures
        r == slices_contain(v@, id@),
{
    let mut i: usize = 0;
    while i < v.len()
        invariant
            i <= v.len(),
            forall|j: int| 0 <= j < i ==> v@[j]@ != id@,
        decreases v.len() - i,
    {
        if str_eq(v[i], id) {
            return true;
        }
        i = i + 1;
    }
    false
}

} // verus!
