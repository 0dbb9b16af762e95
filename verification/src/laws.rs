//! Properties that relate several operations of the library, or hold of
//! every input.

use vstd::prelude::*;
use crate::cli::{model_pattern, split_first};
use crate::diff::lcs_len;
use crate::edit::replace_first;
use crate::extension::{first_index, tool_names_of, ToolEntry};
use crate::prompt::{appended_parts, prompt_parts, prompt_text, PromptSettings};
use crate::rpc::{finish_events, rpc_answer, ActionModel, EventModel, RpcCommand};
use crate::skills::{dedup_by_name, escape_xml_char, escape_xml_spec, kept_prefix, last_of_name, skill_names, Skill};
use crate::session_log::{conversation, last_message, last_n, lemma_last_message, lineage, lineage_ends, EntryView, JsonlSession};
use crate::sse::openai_next;
use crate::text::{first_at_char, first_occurrence, join_nl, lacks};
use crate::token_est::{blocks_estimate, ceil_div, cjk_count, messages_estimate, spec_estimate, ContentBlock as TokenBlock, MessageContent};
use crate::tool_registry::{names_unique, place_of, with_tool};
use crate::conversation::{block_json, blocks_json, stop_reason_label, stop_reason_named, stored_block, stored_content};
use crate::json::{jget, member_value, JsonView};
use crate::message::{BlockView, StopReason, Usage};
use crate::llm_stream::{accumulated, anthropic_step, apply_call_delta, apply_call_deltas, call_end_events, finished_calls, openai_data_step, count_opt, gemini_chunk_step, gemini_part_step, gemini_parts_step, gemini_stop, jarr_of, AnthropicState, CallView, count_of, first_choice, jat, nonempty_event, openai_events, openai_chunk_events, openai_stop, EventView};
use crate::json::{jbool_of, ju64_of, jstr_of};
use crate::text::dec;
use crate::transform::{anthropic_block, anthropic_message, gemini_content, message_blocks, gemini_part, openai_message, openai_tool_results, tool_message};
use crate::message::MessageView;
use crate::search::grep_lines;
use crate::oauth::{set_member, stored_token, token_entry, with_token, without_member, without_token};

verus! {

// ---------------------------------------------------------------------------
// Key-value store
// ---------------------------------------------------------------------------

/// A value stored under a key is what is read back under that key, and
/// storing it leaves every other key as it was.
pub proof fn law_store_read_after_write(
    m: Map<Seq<char>, Seq<char>>,
    k: Seq<char>,
    v: Seq<char>,
    other: Seq<char>,
)
    requires
        other != k,
    ensures
        m.insert(k, v).contains_key(k),
        m.insert(k, v)[k] == v,
        m.insert(k, v).contains_key(other) == m.contains_key(other),
        m.contains_key(other) ==> m.insert(k, v)[other] == m[other],
{
}

/// After a key is removed nothing is read under it, and the other keys
/// keep their values.
pub proof fn law_store_read_after_remove(m: Map<Seq<char>, Seq<char>>, k: Seq<char>, other: Seq<char>)
    requires
        other != k,
    ensures
        !m.remove(k).contains_key(k),
        m.remove(k).contains_key(other) == m.contains_key(other),
        m.contains_key(other) ==> m.remove(k)[other] == m[other],
{
}

// ---------------------------------------------------------------------------
// Diffs
// ---------------------------------------------------------------------------

/// A text compared with itself has all its lines in common: its diff adds
/// and removes nothing.
pub proof fn law_identical_texts_share_all_lines<A>(s: Seq<A>)
    ensures
        lcs_len(s, s) == s.len(),
    decreases s.len(),
{
    if s.len() > 0 {
        law_identical_texts_share_all_lines(s.drop_last());
    }
}

// ---------------------------------------------------------------------------
// Edits
// ---------------------------------------------------------------------------

/// Replacing a text by itself leaves the content as it was.
pub proof fn law_edit_with_same_text_is_identity(s: Seq<char>, p: Seq<char>)
    ensures
        replace_first(s, p, p) == s,
{
    if exists|i: int| first_occurrence(s, p, i) {
        let i = choose|i: int| first_occurrence(s, p, i);
        assert(s.skip(i).take(p.len() as int) == p);
        assert(s.take(i) + p + s.skip(i + p.len()) =~= s);
    }
}

// ---------------------------------------------------------------------------
// Extensions
// ---------------------------------------------------------------------------

/// A tool is found by name exactly when its name is among the listed tool
/// names.
pub proof fn law_find_tool_agrees_with_names(tools: Seq<ToolEntry>, name: Seq<char>)
    ensures
        tool_names_of(tools).contains(name) <==> exists|i: int| first_index(tool_names_of(tools), name, i),
{
    let ns = tool_names_of(tools);
    if ns.contains(name) {
        let j = choose|j: int| 0 <= j < ns.len() && ns[j] == name;
        lemma_first_index_exists(ns, name, j);
    }
}

proof fn lemma_first_index_exists(ns: Seq<Seq<char>>, name: Seq<char>, j: int)
    requires
        0 <= j < ns.len(),
        ns[j] == name,
    ensures
        exists|i: int| first_index(ns, name, i),
    decreases j,
{
    if forall|k: int| 0 <= k < j ==> ns[k] != name {
        assert(first_index(ns, name, j));
    } else {
        let k = choose|k: int| 0 <= k < j && ns[k] == name;
        lemma_first_index_exists(ns, name, k);
    }
}

// ---------------------------------------------------------------------------
// System prompt
// ---------------------------------------------------------------------------

/// Appending a text to the prompt adds it at the very end, after an empty
/// line, and changes nothing before it.
pub proof fn law_append_extends_prompt(b: PromptSettings, x: Seq<char>, date: Seq<char>)
    ensures
        prompt_text(PromptSettings { append_prompts: b.append_prompts.push(x), ..b }, date) == prompt_text(
            b,
            date,
        ) + "\n\n"@ + x,
{
    reveal_strlit("\n\n");
    let b2 = PromptSettings { append_prompts: b.append_prompts.push(x), ..b };
    let p1 = prompt_parts(b, date);
    let p2 = prompt_parts(b2, date);
    assert(b2.append_prompts.drop_last() =~= b.append_prompts);
    assert(appended_parts(b2.append_prompts) == appended_parts(b.append_prompts) + seq![Seq::<char>::empty(), x]);
    assert(p2 =~= p1.push(Seq::<char>::empty()).push(x));
    assert(p1.len() >= 1);
    lemma_join_nl_push(p1, Seq::<char>::empty());
    lemma_join_nl_push(p1.push(Seq::<char>::empty()), x);
    assert(join_nl(p2) =~= join_nl(p1) + "\n\n"@ + x);
}

proof fn lemma_join_nl_push(ps: Seq<Seq<char>>, x: Seq<char>)
    requires
        ps.len() >= 1,
    ensures
        join_nl(ps.push(x)) == join_nl(ps).push('\n') + x,
{
    assert(ps.push(x).drop_last() =~= ps);
}

/// A custom prompt replaces the role prompt: it is the first part of the
/// prompt, whatever the working directory and date.
pub proof fn law_custom_prompt_comes_first(b: PromptSettings, c: Seq<char>, date: Seq<char>)
    ensures
        prompt_parts(PromptSettings { custom_prompt: Some(c), ..b }, date)[0] == c,
{
}

// ---------------------------------------------------------------------------
// Skills
// ---------------------------------------------------------------------------

/// `x` is one of the first `n` skills, and no later skill has its name.
spec fn is_last_of_name_before(s: Seq<Skill>, n: int, x: Skill) -> bool {
    exists|i: int| 0 <= i < n && last_of_name(s, i) && x == #[trigger] s[i]
}

/// Of the first `n` skills, the kept ones have pairwise distinct names,
/// each is a skill that no later one overrides, and each such skill is kept.
proof fn lemma_kept_prefix(s: Seq<Skill>, n: int)
    requires
        0 <= n <= s.len(),
    ensures
        skill_names(kept_prefix(s, n)).no_duplicates(),
        forall|k: int| 0 <= k < kept_prefix(s, n).len() ==> is_last_of_name_before(s, n, #[trigger] kept_prefix(s, n)[k]),
        forall|i: int| 0 <= i < n && last_of_name(s, i) ==> kept_prefix(s, n).contains(#[trigger] s[i]),
    decreases n,
{
    if n > 0 {
        lemma_kept_prefix(s, n - 1);
        let prev = kept_prefix(s, n - 1);
        let cur = kept_prefix(s, n);
        if last_of_name(s, n - 1) {
            assert(cur == prev.push(s[n - 1]));
            let np = skill_names(prev);
            let nc = skill_names(cur);
            assert forall|k: int| 0 <= k < prev.len() implies #[trigger] np[k] != s[n - 1].name@ by {
                assert(is_last_of_name_before(s, n - 1, prev[k]));
                let i = choose|i: int| 0 <= i < n - 1 && last_of_name(s, i) && prev[k] == #[trigger] s[i];
                assert(s[n - 1].name@ != s[i].name@);
            }
            assert forall|a: int, b: int| 0 <= a < nc.len() && 0 <= b < nc.len() && a != b implies nc[a] != nc[b] by {
                if a < np.len() && b < np.len() {
                    assert(np[a] != np[b]);
                } else if a < np.len() {
                    assert(np[a] != s[n - 1].name@);
                } else if b < np.len() {
                    assert(np[b] != s[n - 1].name@);
                }
            }
            assert forall|k: int| 0 <= k < cur.len() implies is_last_of_name_before(s, n, #[trigger] cur[k]) by {
                if k < prev.len() {
                    assert(is_last_of_name_before(s, n - 1, prev[k]));
                let i = choose|i: int| 0 <= i < n - 1 && last_of_name(s, i) && prev[k] == #[trigger] s[i];
                    assert(cur[k] == s[i]);
                } else {
                    assert(cur[k] == s[n - 1]);
                }
            }
            assert forall|i: int| 0 <= i < n && last_of_name(s, i) implies cur.contains(#[trigger] s[i]) by {
                if i < n - 1 {
                    let k = choose|k: int| 0 <= k < prev.len() && prev[k] == s[i];
                    assert(cur[k] == prev[k]);
                } else {
                    assert(cur[prev.len() as int] == s[i]);
                }
            }
        } else {
            assert(cur == prev);
            assert forall|k: int| 0 <= k < cur.len() implies is_last_of_name_before(s, n, #[trigger] cur[k]) by {
                assert(is_last_of_name_before(s, n - 1, prev[k]));
                let i = choose|i: int| 0 <= i < n - 1 && last_of_name(s, i) && prev[k] == #[trigger] s[i];
                assert(cur[k] == s[i]);
            }
        }
    }
}

/// Every skill has a later (or the same) one of its name that no later
/// skill overrides.
proof fn lemma_last_of_name_exists(s: Seq<Skill>, i: int)
    requires
        0 <= i < s.len(),
    ensures
        exists|j: int| i <= j < s.len() && last_of_name(s, j) && #[trigger] s[j].name@ == s[i].name@,
    decreases s.len() - i,
{
    if last_of_name(s, i) {
        assert(s[i].name@ == s[i].name@);
    } else {
        let j = choose|j: int| i < j < s.len() && #[trigger] s[j].name@ == s[i].name@;
        lemma_last_of_name_exists(s, j);
    }
}

/// After deduplication no two skills share a name, every name found is
/// still there, and the skill kept for a name is the last one found of it
/// (a later source overrides an earlier one).
pub proof fn law_dedup_skills_names(s: Seq<Skill>)
    ensures
        skill_names(dedup_by_name(s)).no_duplicates(),
        forall|i: int| 0 <= i < s.len() ==> skill_names(dedup_by_name(s)).contains(#[trigger] s[i].name@),
        forall|k: int| 0 <= k < dedup_by_name(s).len() ==> exists|i: int|
            0 <= i < s.len() && #[trigger] dedup_by_name(s)[k] == s[i]
            && forall|j: int| i < j < s.len() ==> #[trigger] s[j].name@ != s[i].name@,
{
    lemma_kept_prefix(s, s.len() as int);
    let d = dedup_by_name(s);
    assert forall|i: int| 0 <= i < s.len() implies skill_names(d).contains(#[trigger] s[i].name@) by {
        lemma_last_of_name_exists(s, i);
        let j = choose|j: int| i <= j < s.len() && last_of_name(s, j) && #[trigger] s[j].name@ == s[i].name@;
        assert(d.contains(s[j]));
        let k = choose|k: int| 0 <= k < d.len() && d[k] == s[j];
        assert(skill_names(d)[k] == s[i].name@);
    }
}

/// Escaped text holds no `<`, `>` or `"`: it cannot open markup.
pub proof fn law_escaped_text_has_no_markup(s: Seq<char>)
    ensures
        !escape_xml_spec(s).contains('<'),
        !escape_xml_spec(s).contains('>'),
        !escape_xml_spec(s).contains('"'),
    decreases s.len(),
{
    reveal_strlit("&amp;");
    reveal_strlit("&lt;");
    reveal_strlit("&gt;");
    reveal_strlit("&quot;");
    if s.len() > 0 {
        law_escaped_text_has_no_markup(s.drop_last());
        let a = escape_xml_spec(s.drop_last());
        let e = escape_xml_char(s.last());
        assert forall|c: char| c == '<' || c == '>' || c == '"' implies !(a + e).contains(c) by {
            if (a + e).contains(c) {
                let k = choose|k: int| 0 <= k < (a + e).len() && (a + e)[k] == c;
                if k < a.len() {
                    assert(a[k] == c);
                } else {
                    assert(e[k - a.len()] == c);
                }
            }
        }
    }
}

// ---------------------------------------------------------------------------
// Model pattern
// ---------------------------------------------------------------------------

/// Writing a provider, a non-empty model and a thinking level as
/// `provider/model:thinking` and parsing it gives them back, when the
/// provider holds neither `/` nor `:` and the model holds no `:`.
pub proof fn law_model_pattern_round_trip(provider: Seq<char>, model: Seq<char>, thinking: Seq<char>)
    requires
        model.len() > 0,
        lacks(provider, '/'),
        lacks(provider, ':'),
        lacks(model, ':'),
    ensures
        model_pattern(provider + seq!['/'] + model + seq![':'] + thinking) == (
            Some(model),
            Some(provider),
            Some(thinking),
        ),
{
    let p = provider + seq!['/'] + model + seq![':'] + thinking;
    let i: int = (provider.len() + 1 + model.len()) as int;
    assert(first_at_char(p, ':', i)) by {
        assert(p[i as int] == ':');
        assert forall|k: int| 0 <= k < i implies p.take(i as int)[k] != ':' by {
            if k < provider.len() {
                assert(p[k] == provider[k]);
            } else if k == provider.len() {
                assert(p[k] == '/');
            } else {
                assert(p[k] == model[k - provider.len() - 1]);
            }
        }
    }
    let q = p.take(i as int);
    assert(split_first(p, ':') == (q, Some(p.skip(i + 1)))) by {
        let j = choose|j: int| first_at_char(p, ':', j);
        crate::text::lemma_first_at_char_unique(p, ':', i as int, j);
    }
    assert(p.skip(i + 1) =~= thinking);
    assert(q =~= provider + seq!['/'] + model);
    let jp = provider.len() as int;
    assert(first_at_char(q, '/', jp)) by {
        assert(q[jp] == '/');
        assert forall|k: int| 0 <= k < jp implies q.take(jp)[k] != '/' by {
            assert(q[k] == provider[k]);
        }
    }
    assert(split_first(q, '/') == (q.take(jp), Some(q.skip(jp + 1)))) by {
        let j = choose|j: int| first_at_char(q, '/', j);
        crate::text::lemma_first_at_char_unique(q, '/', jp, j);
    }
    assert(q.take(jp) =~= provider);
    assert(q.skip(jp + 1) =~= model);
}

// ---------------------------------------------------------------------------
// RPC mode
// ---------------------------------------------------------------------------

/// A prompt while the agent runs is refused with an error: the agent keeps
/// running and nothing is started.
pub proof fn law_busy_prompt_is_refused(id: Option<String>, message: String, count: nat, session: Seq<char>)
    ensures
        rpc_answer(true, RpcCommand::Prompt { id, message }, count, session).0,
        rpc_answer(true, RpcCommand::Prompt { id, message }, count, session).1.len() == 1,
        rpc_answer(true, RpcCommand::Prompt { id, message }, count, session).1[0] is Emit,
{
}

/// An accepted prompt marks the agent running and starts exactly that
/// prompt; when the run ends, the agent is reported idle and the last
/// event completes the same request.
pub proof fn law_prompt_runs_and_completes(
    id: Option<String>,
    message: String,
    count: nat,
    session: Seq<char>,
    error: Option<Seq<char>>,
)
    ensures
        rpc_answer(false, RpcCommand::Prompt { id, message }, count, session).0,
        rpc_answer(false, RpcCommand::Prompt { id, message }, count, session).1.last() == ActionModel::RunAgent(
            crate::rpc::opt_id(id),
            message@,
        ),
        finish_events(crate::rpc::opt_id(id), error).last() == EventModel::Done(crate::rpc::opt_id(id)),
        finish_events(crate::rpc::opt_id(id), error).contains(EventModel::StateChange("idle"@)),
{
    let f = finish_events(crate::rpc::opt_id(id), error);
    assert(f[f.len() - 2] == EventModel::StateChange("idle"@));
}

/// An abort always leaves the agent idle.
pub proof fn law_abort_leaves_idle(running: bool, id: Option<String>, count: nat, session: Seq<char>)
    ensures
        !rpc_answer(running, RpcCommand::Abort { id }, count, session).0,
{
}

// ---------------------------------------------------------------------------
// Server-sent events
// ---------------------------------------------------------------------------

/// Receiving more text never changes an event that is already complete:
/// the next event of a buffer is the next event of any extension of it,
/// and the rest of the buffer is extended by the same text.
pub proof fn law_sse_more_text_keeps_next_event(b: Seq<char>, c: Seq<char>)
    requires
        openai_next(b).0 is Some,
    ensures
        openai_next(b + c).0 == openai_next(b).0,
        openai_next(b + c).1 == openai_next(b).1 + c,
    decreases b.len(),
{
    crate::sse::lemma_openai_next_extend(b, c);
}

// ---------------------------------------------------------------------------
// Token estimates
// ---------------------------------------------------------------------------

/// The estimate never exceeds the number of characters.
pub proof fn law_estimate_at_most_chars(s: Seq<char>)
    ensures
        spec_estimate(s) <= s.len(),
{
    crate::token_est::lemma_cjk_count_le(s);
    let c = cjk_count(s);
    let n = (s.len() - c) as nat;
    let x = ceil_div(c * 2, 3);
    let y = ceil_div(n, 4);
    assert(x <= c) by (nonlinear_arith)
        requires x == (if (c * 2) % 3 == 0 { (c * 2) / 3 } else { (c * 2) / 3 + 1 }), c >= 0;
    assert(y <= n) by (nonlinear_arith)
        requires y == (if n % 4 == 0 { n / 4 } else { n / 4 + 1 }), n >= 0;
}

// ---------------------------------------------------------------------------
// Session logs
// ---------------------------------------------------------------------------

/// A lineage is a chain of messages, each the parent of the next, that ends
/// at the target; it is empty exactly when no message has the target's id,
/// and its first message has no parent that names a message.
pub proof fn law_lineage_is_parent_chain(es: Seq<EntryView>, target: Seq<char>, fuel: nat)
    requires
        lineage_ends(es, Some(target), fuel),
    ensures
        forall|i: int| 0 <= i < lineage(es, Some(target), fuel).len()
            ==> #[trigger] lineage(es, Some(target), fuel)[i] is Message,
        forall|i: int| 0 <= i < lineage(es, Some(target), fuel).len() - 1
            ==> #[trigger] lineage(es, Some(target), fuel)[i + 1].parent()
                == Some(lineage(es, Some(target), fuel)[i].id()),
        (lineage(es, Some(target), fuel).len() == 0) == (last_message(es, target) is None),
        lineage(es, Some(target), fuel).len() > 0 ==> lineage(es, Some(target), fuel).last().id() == target,
        lineage(es, Some(target), fuel).len() > 0 ==> match lineage(es, Some(target), fuel)[0].parent() {
            None => true,
            Some(p) => last_message(es, p) is None,
        },
{
    lemma_lineage_chain(es, Some(target), fuel);
    lemma_last_message(es, target);
}

proof fn lemma_lineage_chain(es: Seq<EntryView>, oid: Option<Seq<char>>, fuel: nat)
    requires
        lineage_ends(es, oid, fuel),
    ensures
        forall|i: int| 0 <= i < lineage(es, oid, fuel).len() ==> #[trigger] lineage(es, oid, fuel)[i] is Message,
        forall|i: int| 0 <= i < lineage(es, oid, fuel).len() - 1
            ==> #[trigger] lineage(es, oid, fuel)[i + 1].parent() == Some(lineage(es, oid, fuel)[i].id()),
        lineage(es, oid, fuel).len() > 0 ==> oid == Some(lineage(es, oid, fuel).last().id()),
        lineage(es, oid, fuel).len() > 0 ==> match lineage(es, oid, fuel)[0].parent() {
            None => true,
            Some(p) => last_message(es, p) is None,
        },
        lineage(es, oid, fuel).len() == 0 ==> match oid {
            None => true,
            Some(id) => last_message(es, id) is None,
        },
    decreases fuel,
{
    match oid {
        None => {},
        Some(id) => {
            lemma_last_message(es, id);
            match last_message(es, id) {
                None => {},
                Some(i) => {
                    let p = es[i].parent();
                    let rest = lineage(es, p, (fuel - 1) as nat);
                    lemma_lineage_chain(es, p, (fuel - 1) as nat);
                    let l = lineage(es, oid, fuel);
                    assert(l == rest.push(es[i]));
                    assert(es[i].is_message_with(id));
                    assert forall|j: int| 0 <= j < l.len() - 1 implies #[trigger] l[j + 1].parent() == Some(l[j].id()) by {
                        if j + 1 == l.len() - 1 {
                            if rest.len() > 0 {
                                assert(p == Some(rest.last().id()));
                            }
                        } else {
                            assert(rest[j + 1].parent() == Some(rest[j].id()));
                        }
                    }
                    if rest.len() == 0 {
                        match p {
                            None => {},
                            Some(pid) => { assert(last_message(es, pid) is None); },
                        }
                    }
                },
            }
        },
    }
}

/// The active entries are exactly the entries whose id no compaction
/// archives, in their order: none of them is archived, and every entry
/// that is not archived is among them.
pub proof fn law_active_entries_exclude_archived(s: &JsonlSession, n: int)
    requires
        0 <= n <= s.entries_seq().len(),
    ensures
        forall|i: int| 0 <= i < s.active_prefix(n).len()
            ==> !s.is_archived(#[trigger] s.active_prefix(n)[i].id()),
        forall|k: int| 0 <= k < n && !s.is_archived(#[trigger] s.entries_seq()[k].id())
            ==> s.active_prefix(n).contains(s.entries_seq()[k]),
    decreases n,
{
    if n > 0 {
        law_active_entries_exclude_archived(s, n - 1);
        let rest = s.active_prefix(n - 1);
        let e = s.entries_seq()[n - 1];
        assert forall|k: int| 0 <= k < n && !s.is_archived(#[trigger] s.entries_seq()[k].id())
            implies s.active_prefix(n).contains(s.entries_seq()[k]) by {
            if k < n - 1 {
                assert(rest.contains(s.entries_seq()[k]));
                let j = choose|j: int| 0 <= j < rest.len() && rest[j] == s.entries_seq()[k];
                if !s.is_archived(e.id()) {
                    assert(s.active_prefix(n)[j] == s.entries_seq()[k]);
                }
            } else {
                assert(s.active_prefix(n) == rest.push(e));
                assert(s.active_prefix(n)[rest.len() as int] == e);
            }
        }
    }
}

/// A compacted list starts with the summary and keeps, at most,
/// `keep_recent` of the conversation's messages, the latest ones, in order.
pub proof fn law_compaction_keeps_latest(es: Seq<EntryView>, keep_recent: nat)
    ensures
        last_n(conversation(es), keep_recent).len() == if keep_recent < conversation(es).len() {
            keep_recent
        } else {
            conversation(es).len()
        },
        forall|i: int| 0 <= i < last_n(conversation(es), keep_recent).len()
            ==> #[trigger] last_n(conversation(es), keep_recent)[i]
                == conversation(es)[conversation(es).len() - last_n(conversation(es), keep_recent).len() + i],
{
}

// ---------------------------------------------------------------------------
// Tool registry
// ---------------------------------------------------------------------------

/// After a tool is registered under a name it is found under that name;
/// every other name is found exactly when it was before, and no name is
/// registered twice.
pub proof fn law_register_then_find<T>(s: Seq<(Seq<char>, T)>, name: Seq<char>, t: T, other: Seq<char>)
    requires
        names_unique(s),
        other != name,
    ensures
        ({
            let r = with_tool(s, name, t);
            &&& place_of(r, name) matches Some(k) && r[k] == (name, t)
            &&& (place_of(r, other) is Some <==> place_of(s, other) is Some)
            &&& names_unique(r)
        }),
{
    let r = with_tool(s, name, t);
    match place_of(s, name) {
        Some(k) => {
            assert(r == s.update(k, (name, t)));
            assert(r[k].0 == name);
            let k2 = choose|j: int| 0 <= j < r.len() && r[j].0 == name;
            if k2 != k {
                assert(s[k2].0 == name);
                if k2 < k { assert(s[k2].0 != s[k].0); } else { assert(s[k].0 != s[k2].0); }
            }
            if place_of(s, other) is Some {
                let j = choose|j: int| 0 <= j < s.len() && s[j].0 == other;
                assert(r[j].0 == other);
            }
            if place_of(r, other) is Some {
                let j = choose|j: int| 0 <= j < r.len() && r[j].0 == other;
                assert(s[j].0 == other);
            }
            assert forall|i: int, j: int| 0 <= i < j < r.len() implies #[trigger] r[i].0 != #[trigger] r[j].0 by {
                if i != k && j != k {
                    assert(s[i].0 != s[j].0);
                } else if i == k {
                    assert(s[i].0 != s[j].0);
                } else {
                    assert(s[i].0 != s[j].0);
                }
            }
        },
        None => {
            assert(r == s.push((name, t)));
            let n = s.len() as int;
            assert(r[n].0 == name);
            let k2 = choose|j: int| 0 <= j < r.len() && r[j].0 == name;
            if k2 != n {
                assert(s[k2].0 == name);
            }
            if place_of(s, other) is Some {
                let j = choose|j: int| 0 <= j < s.len() && s[j].0 == other;
                assert(r[j].0 == other);
            }
            if place_of(r, other) is Some {
                let j = choose|j: int| 0 <= j < r.len() && r[j].0 == other;
                assert(s[j].0 == other);
            }
            assert forall|i: int, j: int| 0 <= i < j < r.len() implies #[trigger] r[i].0 != #[trigger] r[j].0 by {
                if j == n {
                    assert(r[i] == s[i]);
                } else {
                    assert(s[i].0 != s[j].0);
                }
            }
        },
    }
}

// ---------------------------------------------------------------------------
// Stored conversation
// ---------------------------------------------------------------------------

/// A text, tool call or tool result is read back from its stored form as
/// the same block.
pub proof fn law_stored_block_round_trip(b: BlockView)
    requires
        b is Text || b is ToolUse || b is ToolResult,
    ensures
        stored_block(block_json(b)) == Some(b),
{
    reveal_strlit("type"); reveal_strlit("text"); reveal_strlit("tool_use"); reveal_strlit("tool_result");
    reveal_strlit("id"); reveal_strlit("name"); reveal_strlit("input"); reveal_strlit("tool_use_id");
    reveal_strlit("content"); reveal_strlit("is_error");
    let j = block_json(b);
    match b {
        BlockView::Text(t) => {
            let m = seq![("type"@, JsonView::Str("text"@)), ("text"@, JsonView::Str(t))];
            assert(m.drop_first() =~= seq![("text"@, JsonView::Str(t))]);
            assert(member_value(m, "type"@) == Some(JsonView::Str("text"@)));
            assert("type"@ != "text"@) by { assert("type"@[1] != "text"@[1]); }
            assert(member_value(m.drop_first(), "text"@) == Some(JsonView::Str(t)));
            assert(member_value(m, "text"@) == Some(JsonView::Str(t)));
        },
        BlockView::ToolUse { id, name, input } => {
            let m = seq![
                ("type"@, JsonView::Str("tool_use"@)),
                ("id"@, JsonView::Str(id)),
                ("name"@, JsonView::Str(name)),
                ("input"@, input),
            ];
            let m1 = m.drop_first();
            let m2 = m1.drop_first();
            let m3 = m2.drop_first();
            assert(m1 =~= seq![("id"@, JsonView::Str(id)), ("name"@, JsonView::Str(name)), ("input"@, input)]);
            assert(m2 =~= seq![("name"@, JsonView::Str(name)), ("input"@, input)]);
            assert(m3 =~= seq![("input"@, input)]);
            assert("type"@ != "tool_use"@) by { assert("type"@.len() != "tool_use"@.len()); }
            assert("type"@ != "id"@) by { assert("type"@.len() != "id"@.len()); }
            assert("type"@ != "name"@) by { assert("type"@[0] != "name"@[0]); }
            assert("type"@ != "input"@) by { assert("type"@.len() != "input"@.len()); }
            assert("id"@ != "name"@) by { assert("id"@.len() != "name"@.len()); }
            assert("id"@ != "input"@) by { assert("id"@.len() != "input"@.len()); }
            assert("name"@ != "input"@) by { assert("name"@.len() != "input"@.len()); }
            assert("tool_use"@ != "text"@) by { assert("tool_use"@.len() != "text"@.len()); }
            assert(member_value(m, "type"@) == Some(JsonView::Str("tool_use"@)));
            assert(member_value(m1, "id"@) == Some(JsonView::Str(id)));
            assert(member_value(m, "id"@) == Some(JsonView::Str(id)));
            assert(member_value(m2, "name"@) == Some(JsonView::Str(name)));
            assert(member_value(m1, "name"@) == Some(JsonView::Str(name)));
            assert(member_value(m, "name"@) == Some(JsonView::Str(name)));
            assert(member_value(m3, "input"@) == Some(input));
            assert(member_value(m2, "input"@) == Some(input));
            assert(member_value(m1, "input"@) == Some(input));
            assert(member_value(m, "input"@) == Some(input));
        },
        BlockView::ToolResult { tool_use_id, content, is_error } => {
            let m = seq![
                ("type"@, JsonView::Str("tool_result"@)),
                ("tool_use_id"@, JsonView::Str(tool_use_id)),
                ("content"@, JsonView::Str(content)),
                ("is_error"@, JsonView::Bool(is_error)),
            ];
            let m1 = m.drop_first();
            let m2 = m1.drop_first();
            let m3 = m2.drop_first();
            assert(m1 =~= seq![("tool_use_id"@, JsonView::Str(tool_use_id)), ("content"@, JsonView::Str(content)), ("is_error"@, JsonView::Bool(is_error))]);
            assert(m2 =~= seq![("content"@, JsonView::Str(content)), ("is_error"@, JsonView::Bool(is_error))]);
            assert(m3 =~= seq![("is_error"@, JsonView::Bool(is_error))]);
            assert("type"@ != "tool_use_id"@) by { assert("type"@.len() != "tool_use_id"@.len()); }
            assert("type"@ != "content"@) by { assert("type"@.len() != "content"@.len()); }
            assert("type"@ != "is_error"@) by { assert("type"@.len() != "is_error"@.len()); }
            assert("tool_use_id"@ != "content"@) by { assert("tool_use_id"@.len() != "content"@.len()); }
            assert("tool_use_id"@ != "is_error"@) by { assert("tool_use_id"@.len() != "is_error"@.len()); }
            assert("content"@ != "is_error"@) by { assert("content"@.len() != "is_error"@.len()); }
            assert("tool_result"@ != "text"@) by { assert("tool_result"@.len() != "text"@.len()); }
            assert("tool_result"@ != "tool_use"@) by { assert("tool_result"@.len() != "tool_use"@.len()); }
            assert(member_value(m, "type"@) == Some(JsonView::Str("tool_result"@)));
            assert(member_value(m1, "tool_use_id"@) == Some(JsonView::Str(tool_use_id)));
            assert(member_value(m, "tool_use_id"@) == Some(JsonView::Str(tool_use_id)));
            assert(member_value(m2, "content"@) == Some(JsonView::Str(content)));
            assert(member_value(m1, "content"@) == Some(JsonView::Str(content)));
            assert(member_value(m, "content"@) == Some(JsonView::Str(content)));
            assert(member_value(m3, "is_error"@) == Some(JsonView::Bool(is_error)));
            assert(member_value(m2, "is_error"@) == Some(JsonView::Bool(is_error)));
            assert(member_value(m1, "is_error"@) == Some(JsonView::Bool(is_error)));
            assert(member_value(m, "is_error"@) == Some(JsonView::Bool(is_error)));
        },
        _ => {},
    }
}

/// Blocks that are texts, tool calls and tool results are read back from
/// their stored form as the same blocks, in order.
pub proof fn law_stored_content_round_trip(bs: Seq<BlockView>)
    requires
        forall|i: int| 0 <= i < bs.len() ==> (#[trigger] bs[i] is Text || bs[i] is ToolUse || bs[i] is ToolResult),
    ensures
        stored_content(blocks_json(bs)) == bs,
    decreases bs.len(),
{
    let js = bs.map_values(|b: BlockView| block_json(b));
    if bs.len() > 0 {
        let t = bs.drop_last();
        law_stored_content_round_trip(t);
        assert(js.drop_last() =~= t.map_values(|b: BlockView| block_json(b)));
        law_stored_block_round_trip(bs.last());
        assert(bs.last() == bs[bs.len() - 1]);
        assert(crate::conversation::stored_blocks(js) == crate::conversation::stored_blocks(js.drop_last()).push(bs.last()));
        assert(bs =~= t.push(bs.last()));
    } else {
        assert(crate::conversation::stored_blocks(js) =~= Seq::<BlockView>::empty());
        assert(bs =~= Seq::<BlockView>::empty());
    }
}

/// A stop reason is read back from the name it is stored under, except a
/// tool-use stop, whose stored name `tooluse` is not one that is read.
pub proof fn law_stop_reason_round_trip(r: StopReason)
    requires
        r != StopReason::ToolUse,
    ensures
        stop_reason_named(stop_reason_label(r)) == Some(r),
{
    reveal_strlit("stop"); reveal_strlit("end_turn"); reveal_strlit("tool_use"); reveal_strlit("length");
    reveal_strlit("max_tokens"); reveal_strlit("error"); reveal_strlit("aborted"); reveal_strlit("tooluse");
    let l = stop_reason_label(r);
    assert(l != "tool_use"@) by { assert(l.len() != "tool_use"@.len()); }
    assert(l != "end_turn"@ && l != "max_tokens"@) by { assert(l.len() != 8 && l.len() != 10); }
    if r == StopReason::Length || r == StopReason::Error || r == StopReason::Aborted {
        assert(l != "stop"@) by { assert(l.len() != 4); }
    }
    if r == StopReason::Error || r == StopReason::Aborted {
        assert(l != "length"@) by { assert(l.len() != 6 || l[0] != 'l'); }
    }
    if r == StopReason::Aborted {
        assert(l != "error"@) by { assert(l.len() != 5); }
    }
}

// ---------------------------------------------------------------------------
// grep
// ---------------------------------------------------------------------------

/// Searching a file only adds reports, and adds exactly as many as it adds
/// to the match count.
pub proof fn law_grep_counts_reports(
    source: Seq<char>,
    display: Seq<char>,
    lines: Seq<Seq<char>>,
    i: nat,
    found: Seq<Seq<char>>,
    count: nat,
)
    ensures
        ({
            let (f2, c2) = grep_lines(source, display, lines, i, found, count);
            &&& f2.len() >= found.len()
            &&& f2.subrange(0, found.len() as int) == found
            &&& c2 - count == f2.len() - found.len()
        }),
    decreases lines.len() - i,
{
    if i < lines.len() {
        if crate::search::regex_matches(source, lines[i as int]) {
            let found2 = found.push(crate::search::match_line(display, i + 1, lines[i as int]));
            if count + 1 <= 500 {
                law_grep_counts_reports(source, display, lines, i + 1, found2, count + 1);
                let (f2, c2) = grep_lines(source, display, lines, i + 1, found2, count + 1);
                assert(f2.subrange(0, found.len() as int) =~= f2.subrange(0, found2.len() as int).subrange(0, found.len() as int));
                assert(found2.subrange(0, found.len() as int) =~= found);
            } else {
                assert(found2.subrange(0, found.len() as int) =~= found);
            }
        } else {
            law_grep_counts_reports(source, display, lines, i + 1, found, count);
        }
    } else {
        assert(found.subrange(0, found.len() as int) =~= found);
    }
}

// ---------------------------------------------------------------------------
// Stored sign-in token
// ---------------------------------------------------------------------------

proof fn lemma_member_value_first(m: Seq<(Seq<char>, JsonView)>, k: Seq<char>, i: int)
    requires
        0 <= i < m.len(),
        m[i].0 == k,
        forall|j: int| 0 <= j < i ==> m[j].0 != k,
    ensures
        member_value(m, k) == Some(m[i].1),
    decreases i,
{
    if i > 0 {
        let t = m.drop_first();
        assert forall|j: int| 0 <= j < i - 1 implies t[j].0 != k by {
            assert(t[j] == m[j + 1]);
        }
        lemma_member_value_first(t, k, i - 1);
        assert(m[0].0 != k);
    }
}

proof fn lemma_member_value_absent(m: Seq<(Seq<char>, JsonView)>, k: Seq<char>)
    requires
        forall|j: int| 0 <= j < m.len() ==> m[j].0 != k,
    ensures
        member_value(m, k) is None,
    decreases m.len(),
{
    if m.len() > 0 {
        let t = m.drop_first();
        assert forall|j: int| 0 <= j < t.len() implies t[j].0 != k by {
            assert(t[j] == m[j + 1]);
        }
        lemma_member_value_absent(t, k);
        assert(m[0].0 != k);
    }
}

/// Two member lists with the same names, whose values agree wherever the
/// name is `k`, give the same value for `k`.
proof fn lemma_member_value_same(a: Seq<(Seq<char>, JsonView)>, b: Seq<(Seq<char>, JsonView)>, k: Seq<char>)
    requires
        a.len() == b.len(),
        forall|j: int| 0 <= j < a.len() ==> #[trigger] a[j].0 == b[j].0,
        forall|j: int| 0 <= j < a.len() && a[j].0 == k ==> #[trigger] a[j].1 == b[j].1,
    ensures
        member_value(a, k) == member_value(b, k),
    decreases a.len(),
{
    if a.len() > 0 {
        let ta = a.drop_first();
        let tb = b.drop_first();
        assert forall|j: int| 0 <= j < ta.len() implies #[trigger] ta[j].0 == tb[j].0 by {
            assert(ta[j] == a[j + 1] && tb[j] == b[j + 1]);
            assert(a[j + 1].0 == b[j + 1].0);
        }
        assert forall|j: int| 0 <= j < ta.len() && ta[j].0 == k implies #[trigger] ta[j].1 == tb[j].1 by {
            assert(ta[j] == a[j + 1] && tb[j] == b[j + 1]);
            assert(a[j + 1].0 == b[j + 1].0);
            assert(a[j + 1].1 == b[j + 1].1);
        }
        lemma_member_value_same(ta, tb, k);
        assert(a[0].0 == b[0].0);
        if a[0].0 == k {
            assert(a[0].1 == b[0].1);
        }
    }
}

proof fn lemma_member_value_push(m: Seq<(Seq<char>, JsonView)>, x: (Seq<char>, JsonView), k: Seq<char>)
    requires
        member_value(m, k) is None,
    ensures
        member_value(m.push(x), k) == if x.0 == k { Some(x.1) } else { None },
    decreases m.len(),
{
    if m.len() > 0 {
        assert(m[0].0 != k);
        lemma_member_value_push(m.drop_first(), x, k);
        assert(m.push(x).drop_first() =~= m.drop_first().push(x));
        assert(m.push(x)[0] == m[0]);
    } else {
        assert(m.push(x).drop_first() =~= Seq::<(Seq<char>, JsonView)>::empty());
        assert(m.push(x)[0] == x);
        assert(member_value(Seq::<(Seq<char>, JsonView)>::empty(), k) is None);
    }
}

proof fn lemma_without_member_keys(m: Seq<(Seq<char>, JsonView)>, k: Seq<char>)
    ensures
        forall|j: int| 0 <= j < without_member(m, k).len() ==> (#[trigger] without_member(m, k)[j]).0 != k,
    decreases m.len(),
{
    if m.len() > 0 {
        lemma_without_member_keys(m.drop_last(), k);
        let rest = without_member(m.drop_last(), k);
        let w = without_member(m, k);
        if m.last().0 != k {
            assert forall|j: int| 0 <= j < w.len() implies (#[trigger] w[j]).0 != k by {
                if j < rest.len() {
                    assert(w[j] == rest[j]);
                } else {
                    assert(w[j] == m.last());
                }
            }
        }
    }
}

/// What `set_member` does to the value of each name: the name set reads
/// back the value set, every other name reads what it read before.
proof fn lemma_set_member(m: Seq<(Seq<char>, JsonView)>, k: Seq<char>, v: JsonView, other: Seq<char>)
    ensures
        member_value(set_member(m, k, v), k) == Some(v),
        other != k ==> member_value(set_member(m, k, v), other) == member_value(m, other),
{
    let r = set_member(m, k, v);
    if exists|i: int| 0 <= i < m.len() && m[i].0 == k {
        let w = choose|i: int| 0 <= i < m.len() && m[i].0 == k;
        assert(exists|i: int| 0 <= i < m.len() && m[i].0 == k && forall|j: int| 0 <= j < i ==> m[j].0 != k) by {
            lemma_first_member_exists(m, k, w);
        }
        let i = choose|i: int| 0 <= i < m.len() && m[i].0 == k && forall|j: int| 0 <= j < i ==> m[j].0 != k;
        assert(r == m.update(i, (k, v)));
        assert forall|j: int| 0 <= j < i implies r[j].0 != k by {
            assert(r[j] == m[j]);
        }
        lemma_member_value_first(r, k, i);
        if other != k {
            assert forall|j: int| 0 <= j < m.len() implies #[trigger] m[j].0 == r[j].0 by {
                if j != i { assert(r[j] == m[j]); }
            }
            assert forall|j: int| 0 <= j < m.len() && m[j].0 == other implies #[trigger] m[j].1 == r[j].1 by {
                if j != i { assert(r[j] == m[j]); }
            }
            lemma_member_value_same(m, r, other);
        }
    } else {
        assert(r == m.push((k, v)));
        lemma_member_value_absent(m, k);
        lemma_member_value_push(m, (k, v), k);
        if other != k {
            if member_value(m, other) is None {
                lemma_member_value_push(m, (k, v), other);
            } else {
                lemma_member_value_prefix(m, (k, v), other);
            }
        }
    }
}

proof fn lemma_first_member_exists(m: Seq<(Seq<char>, JsonView)>, k: Seq<char>, w: int)
    requires
        0 <= w < m.len(),
        m[w].0 == k,
    ensures
        exists|i: int| 0 <= i < m.len() && m[i].0 == k && forall|j: int| 0 <= j < i ==> m[j].0 != k,
    decreases w,
{
    if exists|j: int| 0 <= j < w && m[j].0 == k {
        let j = choose|j: int| 0 <= j < w && m[j].0 == k;
        lemma_first_member_exists(m, k, j);
    } else {
        assert(0 <= w < m.len() && m[w].0 == k && forall|j: int| 0 <= j < w ==> m[j].0 != k);
    }
}

proof fn lemma_member_value_prefix(m: Seq<(Seq<char>, JsonView)>, x: (Seq<char>, JsonView), k: Seq<char>)
    requires
        member_value(m, k) is Some,
    ensures
        member_value(m.push(x), k) == member_value(m, k),
    decreases m.len(),
{
    if m.len() > 0 {
        assert(m.push(x).drop_first() =~= m.drop_first().push(x));
        if m[0].0 != k {
            lemma_member_value_prefix(m.drop_first(), x, k);
        }
    }
}

/// A stored token is read back; the other credentials read as before.
pub proof fn law_token_read_after_store(entries: JsonView, token: Seq<char>, other: Seq<char>)
    requires
        entries is Object,
        other != "copilot"@,
    ensures
        stored_token(with_token(entries, token)) == Some(token),
        jget(with_token(entries, token), other) == jget(entries, other),
{
    reveal_strlit("access_token"); reveal_strlit("token_type"); reveal_strlit("provider");
    let m = entries->Object_0;
    lemma_set_member(m, "copilot"@, token_entry(token), other);
    let e = seq![
        ("access_token"@, JsonView::Str(token)),
        ("token_type"@, JsonView::Str("bearer"@)),
        ("provider"@, JsonView::Str("github-copilot"@)),
    ];
    assert(member_value(e, "access_token"@) == Some(JsonView::Str(token)));
}

/// After the token is removed none is read back.
pub proof fn law_token_gone_after_remove(entries: JsonView)
    ensures
        stored_token(without_token(entries)) is None,
{
    match entries {
        JsonView::Object(m) => {
            lemma_without_member_keys(m, "copilot"@);
            let w = without_member(m, "copilot"@);
            assert forall|j: int| 0 <= j < w.len() implies w[j].0 != "copilot"@ by {}
            lemma_member_value_absent(w, "copilot"@);
        },
        _ => {},
    }
}

// ---------------------------------------------------------------------------
// Stop reasons of streamed answers
// ---------------------------------------------------------------------------

/// None of the events of a delta's texts is a stop.
proof fn lemma_nonempty_event_no_stop(t: Option<Seq<char>>, thinking: bool)
    ensures
        forall|k: int| 0 <= k < nonempty_event(t, thinking).len() ==> !(#[trigger] nonempty_event(t, thinking)[k] is Stop),
{
}

/// An OpenAI chunk whose first choice has a finish reason reports exactly
/// one stop: a cut-off answer (`"length"`) stops for length, `"stop"` and
/// `"content_filter"` stop normally, `"tool_calls"` stops for tool use, and
/// any other finish reason stops with no known reason.
pub proof fn law_openai_finish_reason(chunk: JsonView, choice: JsonView, f: Seq<char>)
    requires
        first_choice(chunk) == Some(choice),
        jstr_of(jget(choice, "finish_reason"@)) == Some(f),
    ensures
        openai_events(chunk) is Some,
        exists|k: int| 0 <= k < openai_events(chunk)->0.len() && #[trigger] openai_events(chunk)->0[k] is Stop,
        forall|k: int| 0 <= k < openai_events(chunk)->0.len() && (#[trigger] openai_events(chunk)->0[k] is Stop) ==>
            openai_events(chunk)->0[k] == EventView::Stop(
                if f == "length"@ {
                    Some(StopReason::Length)
                } else if f == "stop"@ || f == "content_filter"@ {
                    Some(StopReason::Stop)
                } else if f == "tool_calls"@ {
                    Some(StopReason::ToolUse)
                } else {
                    None
                },
            ),
{
    reveal_strlit("length");
    reveal_strlit("stop");
    reveal_strlit("content_filter");
    reveal_strlit("tool_calls");
    assert("length"@ != "stop"@ && "length"@ != "content_filter"@ && "length"@ != "tool_calls"@) by {
        assert("length"@.len() != "stop"@.len());
        assert("length"@.len() != "content_filter"@.len());
        assert("length"@.len() != "tool_calls"@.len());
    }
    let es = openai_chunk_events(chunk);
    let usage: Seq<EventView> = match jget(chunk, "usage"@) {
        Some(u) => seq![EventView::Usage(Usage {
            input_tokens: count_of(jget(u, "prompt_tokens"@)),
            output_tokens: count_of(jget(u, "completion_tokens"@)),
            cache_creation_input_tokens: None,
            cache_read_input_tokens: None,
        })],
        None => Seq::empty(),
    };
    let stop = seq![EventView::Stop(openai_stop(f))];
    let texts: Seq<EventView> = match jget(choice, "delta"@) {
        Some(d) => nonempty_event(jstr_of(jget(d, "content"@)), false)
            + nonempty_event(jstr_of(jget(d, "reasoning_content"@)), true)
            + nonempty_event(jstr_of(jget(d, "reasoning"@)), true),
        None => Seq::empty(),
    };
    assert(es == usage + stop + texts);
    assert(es[usage.len() as int] == stop[0]);
    assert(openai_events(chunk) == Some(es));
    assert(openai_stop(f) == if f == "length"@ {
        Some(StopReason::Length)
    } else if f == "stop"@ || f == "content_filter"@ {
        Some(StopReason::Stop)
    } else if f == "tool_calls"@ {
        Some(StopReason::ToolUse)
    } else {
        None
    });
    match jget(choice, "delta"@) {
        Some(d) => {
            lemma_nonempty_event_no_stop(jstr_of(jget(d, "content"@)), false);
            lemma_nonempty_event_no_stop(jstr_of(jget(d, "reasoning_content"@)), true);
            lemma_nonempty_event_no_stop(jstr_of(jget(d, "reasoning"@)), true);
        },
        None => {},
    }
    assert forall|k: int| 0 <= k < es.len() && (#[trigger] es[k] is Stop) implies es[k] == EventView::Stop(openai_stop(f)) by {
        if k < usage.len() {
            assert(es[k] == usage[k]);
        } else if k > usage.len() {
            let j = k - usage.len() - 1;
            assert(es[k] == texts[j]);
            match jget(choice, "delta"@) {
                Some(d) => {
                    let a = nonempty_event(jstr_of(jget(d, "content"@)), false);
                    let b = nonempty_event(jstr_of(jget(d, "reasoning_content"@)), true);
                    let c = nonempty_event(jstr_of(jget(d, "reasoning"@)), true);
                    assert(texts == a + b + c);
                    if j < a.len() {
                        assert(texts[j] == a[j]);
                    } else if j < a.len() + b.len() {
                        assert(texts[j] == b[j - a.len()]);
                    } else {
                        assert(texts[j] == c[j - a.len() - b.len()]);
                    }
                },
                None => {},
            }
        }
    }
}

/// An OpenAI chunk passes on its delta's text as text and its reasoning
/// as thinking, and reports the usage it carries, first, with the prompt
/// tokens as input and the completion tokens as output.
pub proof fn law_openai_chunk_content(chunk: JsonView, choice: JsonView, d: JsonView)
    requires
        first_choice(chunk) == Some(choice),
        jget(choice, "delta"@) == Some(d),
    ensures
        forall|t: Seq<char>| jstr_of(jget(d, "content"@)) == Some(t) && t.len() > 0 ==>
            openai_events(chunk) is Some && openai_events(chunk)->0.contains(EventView::TextDelta(t)),
        forall|t: Seq<char>| jstr_of(jget(d, "reasoning_content"@)) == Some(t) && t.len() > 0 ==>
            openai_events(chunk) is Some && openai_events(chunk)->0.contains(EventView::ThinkingDelta(t)),
        jget(d, "reasoning_content"@) is None && jget(d, "reasoning"@) is None ==>
            !(openai_events(chunk) is Some && exists|k: int| 0 <= k < openai_events(chunk)->0.len()
                && #[trigger] openai_events(chunk)->0[k] is ThinkingDelta),
        forall|u: JsonView, a: u64, b: u64|
            jget(chunk, "usage"@) == Some(u) && ju64_of(jget(u, "prompt_tokens"@)) == Some(a)
            && ju64_of(jget(u, "completion_tokens"@)) == Some(b) && a <= u32::MAX && b <= u32::MAX ==> {
                &&& openai_events(chunk) is Some
                &&& openai_events(chunk)->0[0] is Usage
                &&& (#[trigger] openai_events(chunk)->0[0])->Usage_0.input_tokens == a
                &&& openai_events(chunk)->0[0]->Usage_0.output_tokens == b
            },
{
    let es = openai_chunk_events(chunk);
    let usage: Seq<EventView> = match jget(chunk, "usage"@) {
        Some(u) => seq![EventView::Usage(Usage {
            input_tokens: count_of(jget(u, "prompt_tokens"@)),
            output_tokens: count_of(jget(u, "completion_tokens"@)),
            cache_creation_input_tokens: None,
            cache_read_input_tokens: None,
        })],
        None => Seq::empty(),
    };
    let stop: Seq<EventView> = match jstr_of(jget(choice, "finish_reason"@)) {
        Some(f) => seq![EventView::Stop(openai_stop(f))],
        None => Seq::empty(),
    };
    let a = nonempty_event(jstr_of(jget(d, "content"@)), false);
    let b = nonempty_event(jstr_of(jget(d, "reasoning_content"@)), true);
    let c = nonempty_event(jstr_of(jget(d, "reasoning"@)), true);
    assert(es == usage + stop + (a + b + c));
    assert forall|t: Seq<char>| jstr_of(jget(d, "content"@)) == Some(t) && t.len() > 0 implies
        openai_events(chunk) is Some && openai_events(chunk)->0.contains(EventView::TextDelta(t)) by {
        assert(es[(usage.len() + stop.len()) as int] == EventView::TextDelta(t));
    }
    assert forall|t: Seq<char>| jstr_of(jget(d, "reasoning_content"@)) == Some(t) && t.len() > 0 implies
        openai_events(chunk) is Some && openai_events(chunk)->0.contains(EventView::ThinkingDelta(t)) by {
        assert(es[(usage.len() + stop.len() + a.len()) as int] == EventView::ThinkingDelta(t));
    }
    if jget(d, "reasoning_content"@) is None && jget(d, "reasoning"@) is None {
        assert forall|k: int| 0 <= k < es.len() implies !(#[trigger] es[k] is ThinkingDelta) by {
            if k < usage.len() {
                assert(es[k] == usage[k]);
            } else if k < usage.len() + stop.len() {
                assert(es[k] == stop[k - usage.len()]);
            } else {
                assert(es[k] == a[k - usage.len() - stop.len()]);
            }
        }
    }
    assert forall|u: JsonView, x: u64, y: u64|
        jget(chunk, "usage"@) == Some(u) && ju64_of(jget(u, "prompt_tokens"@)) == Some(x)
        && ju64_of(jget(u, "completion_tokens"@)) == Some(y) && x <= u32::MAX && y <= u32::MAX implies {
            &&& openai_events(chunk) is Some
            &&& openai_events(chunk)->0[0] is Usage
            &&& (#[trigger] openai_events(chunk)->0[0])->Usage_0.input_tokens == x
            &&& openai_events(chunk)->0[0]->Usage_0.output_tokens == y
        } by {
        assert(es[0] == usage[0]);
    }
}

/// A tool call of an OpenAI stream is gathered from its pieces: the first
/// gives its slot, id, name and the start of its arguments, a later one
/// the rest of the arguments; the end of the stream hands it on whole, then
/// stops.
pub proof fn law_openai_tool_call(
    ch1: JsonView, c1: JsonView, d1: JsonView, tc1: JsonView, f1: JsonView,
    ch2: JsonView, c2: JsonView, d2: JsonView, tc2: JsonView, f2: JsonView,
    data1: Seq<char>, data2: Seq<char>,
    id: Seq<char>, name: Seq<char>, a1: Seq<char>, a2: Seq<char>,
)
    requires
        data1 != "[DONE]"@,
        data2 != "[DONE]"@,
        first_choice(ch1) == Some(c1),
        jget(c1, "finish_reason"@) is None,
        jget(c1, "delta"@) == Some(d1),
        jarr_of(jget(d1, "tool_calls"@)) == Some(seq![tc1]),
        ju64_of(jget(tc1, "index"@)) == Some(0u64),
        jstr_of(jget(tc1, "id"@)) == Some(id),
        id.len() > 0,
        jget(tc1, "function"@) == Some(f1),
        jstr_of(jget(f1, "name"@)) == Some(name),
        jstr_of(jget(f1, "arguments"@)) == Some(a1),
        first_choice(ch2) == Some(c2),
        jget(c2, "finish_reason"@) is None,
        jget(c2, "delta"@) == Some(d2),
        jarr_of(jget(d2, "tool_calls"@)) == Some(seq![tc2]),
        ju64_of(jget(tc2, "index"@)) == Some(0u64),
        jget(tc2, "id"@) is None,
        jget(tc2, "function"@) == Some(f2),
        jget(f2, "name"@) is None,
        jstr_of(jget(f2, "arguments"@)) == Some(a2),
    ensures
        ({
            let s1 = openai_data_step(Seq::empty(), data1, Some(ch1)).1;
            let s2 = openai_data_step(s1, data2, Some(ch2)).1;
            openai_data_step(s2, "[DONE]"@, None).0
                == seq![EventView::ToolCallEnd { index: 0, id: id, name: name, input: a1 + a2 }, EventView::Stop(None)]
        }),
{
    let e: Seq<CallView> = Seq::empty();
    assert(seq![tc1].drop_last() =~= Seq::<JsonView>::empty());
    assert(seq![tc2].drop_last() =~= Seq::<JsonView>::empty());
    assert(apply_call_deltas(e, seq![tc1]) == apply_call_delta(apply_call_deltas(e, Seq::<JsonView>::empty()), tc1));
    assert(accumulated(e, d1) == apply_call_delta(e, tc1));
    let s1 = openai_data_step(e, data1, Some(ch1)).1;
    assert(s1 == apply_call_delta(e, tc1));
    assert(s1 =~= seq![(id, name, Seq::<char>::empty() + a1)]);
    assert(Seq::<char>::empty() + a1 =~= a1);
    assert(apply_call_deltas(s1, seq![tc2]) == apply_call_delta(apply_call_deltas(s1, Seq::<JsonView>::empty()), tc2));
    assert(accumulated(s1, d2) == apply_call_delta(s1, tc2));
    let s2 = openai_data_step(s1, data2, Some(ch2)).1;
    assert(s2 == apply_call_delta(s1, tc2));
    assert(s2 =~= seq![(id, name, a1 + a2)]);
    assert(s2.drop_last() =~= Seq::<CallView>::empty());
    assert(finished_calls(s2) == seq![(0usize, id, name, a1 + a2)]);
    assert(call_end_events(seq![(0usize, id, name, a1 + a2)]) =~= seq![EventView::ToolCallEnd { index: 0, id: id, name: name, input: a1 + a2 }]);
}

/// An Anthropic `message_delta` ends the answer with one stop, as its last
/// event, after at most the usage: `"max_tokens"` (a cut-off answer) stops
/// for length, `"end_turn"` and `"stop"` stop normally, `"tool_use"` stops
/// for tool use, and any other or missing reason stops with no known reason.
pub proof fn law_anthropic_stop_reason(st: AnthropicState, data: Seq<char>, delta: JsonView)
    ensures
        ({
            let es = anthropic_step(st, "message_delta"@, data, Some(delta)).0;
            let reason = jstr_of(jat(jget(delta, "delta"@), "stop_reason"@));
            &&& 1 <= es.len() <= 2
            &&& es.len() == 2 ==> es[0] is Usage
            &&& es.last() == EventView::Stop(
                if reason == Some("max_tokens"@) {
                    Some(StopReason::Length)
                } else if reason == Some("end_turn"@) || reason == Some("stop"@) {
                    Some(StopReason::Stop)
                } else if reason == Some("tool_use"@) {
                    Some(StopReason::ToolUse)
                } else {
                    None
                },
            )
        }),
{
    reveal_strlit("message_delta");
    reveal_strlit("message_start");
    reveal_strlit("content_block_start");
    reveal_strlit("content_block_delta");
    reveal_strlit("content_block_stop");
    reveal_strlit("max_tokens");
    reveal_strlit("end_turn");
    reveal_strlit("stop");
    reveal_strlit("tool_use");
    assert("message_delta"@ != "message_start"@) by {
        assert("message_delta"@[8] != "message_start"@[8]);
    }
    assert("message_delta"@ != "content_block_start"@ && "message_delta"@ != "content_block_delta"@
        && "message_delta"@ != "content_block_stop"@) by {
        assert("message_delta"@[0] != "content_block_start"@[0]);
    }
    assert("max_tokens"@ != "end_turn"@ && "max_tokens"@ != "stop"@ && "max_tokens"@ != "tool_use"@) by {
        assert("max_tokens"@.len() != "end_turn"@.len());
        assert("max_tokens"@.len() != "stop"@.len());
        assert("max_tokens"@.len() != "tool_use"@.len());
    }
}

/// None of the events of a candidate's parts is a stop.
proof fn lemma_gemini_parts_no_stop(calls: Seq<CallView>, parts: Seq<JsonView>)
    ensures
        forall|k: int| 0 <= k < gemini_parts_step(calls, parts).0.len() ==> !(#[trigger] gemini_parts_step(calls, parts).0[k] is Stop),
    decreases parts.len(),
{
    if parts.len() > 0 {
        lemma_gemini_parts_no_stop(calls, parts.drop_last());
        let prev = gemini_parts_step(calls, parts.drop_last());
        let last = gemini_part_step(prev.1, parts.last());
        let es = gemini_parts_step(calls, parts).0;
        assert(es == prev.0 + last.0);
        assert forall|k: int| 0 <= k < es.len() implies !(#[trigger] es[k] is Stop) by {
            if k < prev.0.len() {
                assert(es[k] == prev.0[k]);
            } else {
                assert(es[k] == last.0[k - prev.0.len()]);
            }
        }
    }
}

/// A Gemini chunk whose first candidate has the finish reason `"MAX_TOKENS"`
/// (a cut-off answer) starts with a stop for length, and one with `"STOP"`
/// or `"SAFETY"` with a normal stop; no other event of the chunk is a stop,
/// and a chunk with any other or no finish reason reports no stop at all.
pub proof fn law_gemini_finish_reason(calls: Seq<CallView>, chunk: JsonView, cands: Seq<JsonView>)
    requires
        jarr_of(jget(chunk, "candidates"@)) == Some(cands),
        cands.len() > 0,
    ensures
        ({
            let r = jstr_of(jget(cands[0], "finishReason"@));
            let out = gemini_chunk_step(calls, chunk).0;
            &&& r == Some("MAX_TOKENS"@) ==> out is Some && out->0[0] == EventView::Stop(Some(StopReason::Length))
            &&& (r == Some("STOP"@) || r == Some("SAFETY"@)) ==> out is Some && out->0[0] == EventView::Stop(Some(StopReason::Stop))
            &&& r != Some("MAX_TOKENS"@) && r != Some("STOP"@) && r != Some("SAFETY"@) ==>
                !(out is Some && exists|k: int| 0 <= k < out->0.len() && #[trigger] out->0[k] is Stop)
            &&& out is Some ==> forall|k: int| 1 <= k < out->0.len() ==> !(#[trigger] out->0[k] is Stop)
        }),
{
    reveal_strlit("MAX_TOKENS");
    reveal_strlit("STOP");
    reveal_strlit("SAFETY");
    assert("MAX_TOKENS"@ != "STOP"@ && "MAX_TOKENS"@ != "SAFETY"@) by {
        assert("MAX_TOKENS"@.len() != "STOP"@.len());
        assert("MAX_TOKENS"@.len() != "SAFETY"@.len());
    }
    let cand = cands[0];
    let stop_ev: Seq<EventView> = match jstr_of(jget(cand, "finishReason"@)) {
        Some(r) => match gemini_stop(r) { Some(s) => seq![EventView::Stop(Some(s))], None => Seq::empty() },
        None => Seq::empty(),
    };
    let usage_ev: Seq<EventView> = match jget(chunk, "usageMetadata"@) {
        Some(u) => seq![EventView::Usage(Usage {
            input_tokens: count_of(jget(u, "promptTokenCount"@)),
            output_tokens: count_of(jget(u, "candidatesTokenCount"@)),
            cache_creation_input_tokens: None,
            cache_read_input_tokens: count_opt(jget(u, "cachedContentTokenCount"@)),
        })],
        None => Seq::empty(),
    };
    let parts = match jarr_of(jat(jget(cand, "content"@), "parts"@)) { Some(p) => p, None => Seq::empty() };
    let ps = gemini_parts_step(calls, parts);
    let events = stop_ev + usage_ev + ps.0;
    lemma_gemini_parts_no_stop(calls, parts);
    assert(gemini_chunk_step(calls, chunk).0 == if events.len() == 0 { None } else { Some(events) });
    assert(stop_ev.len() <= 1);
    assert forall|k: int| stop_ev.len() <= k < events.len() implies !(#[trigger] events[k] is Stop) by {
        if k < stop_ev.len() + usage_ev.len() {
            assert(events[k] == usage_ev[k - stop_ev.len()]);
        } else {
            assert(events[k] == ps.0[k - stop_ev.len() - usage_ev.len()]);
        }
    }
    if stop_ev.len() == 1 {
        assert(events[0] == stop_ev[0]);
    }
}

/// The Anthropic event kinds are told apart.
proof fn lemma_anthropic_kinds_differ()
    ensures
        "message_delta"@ != "message_start"@,
        "message_delta"@ != "content_block_start"@,
        "message_delta"@ != "content_block_delta"@,
        "message_delta"@ != "content_block_stop"@,
        "content_block_start"@ != "message_start"@,
        "content_block_delta"@ != "message_start"@,
        "content_block_delta"@ != "content_block_start"@,
        "content_block_stop"@ != "message_start"@,
        "content_block_stop"@ != "content_block_start"@,
        "content_block_stop"@ != "content_block_delta"@,
{
    reveal_strlit("message_delta");
    reveal_strlit("message_start");
    reveal_strlit("content_block_start");
    reveal_strlit("content_block_delta");
    reveal_strlit("content_block_stop");
    assert("message_delta"@[8] != "message_start"@[8]);
    assert("message_delta"@[0] != "content_block_start"@[0]);
    assert("content_block_delta"@[14] != "content_block_start"@[14]);
    assert("content_block_stop"@.len() != "content_block_start"@.len());
    assert("content_block_stop"@.len() != "content_block_delta"@.len());
}

/// An Anthropic text delta passes on its text as text, and a thinking
/// delta its thinking as thinking; neither changes the stream's state.
pub proof fn law_anthropic_text_deltas(st: AnthropicState, delta: JsonView, d: JsonView, data: Seq<char>, t: Seq<char>)
    requires
        jget(delta, "delta"@) == Some(d),
    ensures
        (jstr_of(jget(d, "type"@)) == Some("text_delta"@) && jstr_of(jget(d, "text"@)) == Some(t)) ==>
            anthropic_step(st, "content_block_delta"@, data, Some(delta)) == (seq![EventView::TextDelta(t)], st),
        (jstr_of(jget(d, "type"@)) == Some("thinking_delta"@) && jstr_of(jget(d, "thinking"@)) == Some(t)) ==>
            anthropic_step(st, "content_block_delta"@, data, Some(delta)) == (seq![EventView::ThinkingDelta(t)], st),
{
    lemma_anthropic_kinds_differ();
    reveal_strlit("text_delta");
    reveal_strlit("thinking_delta");
    assert("text_delta"@ != "thinking_delta"@) by {
        assert("text_delta"@.len() != "thinking_delta"@.len());
    }
}

/// The usage that an Anthropic answer reports at its end is the one its
/// `message_start` gave, with the output tokens of the `message_delta`
/// added; it is reported once.
pub proof fn law_anthropic_usage(
    st: AnthropicState,
    start: JsonView,
    u: JsonView,
    delta: JsonView,
    du: JsonView,
    data: Seq<char>,
    a: u64,
    b: u64,
    d: u64,
    cr: u64,
    cc: u64,
)
    requires
        jat(jat(Some(start), "message"@), "usage"@) == Some(u),
        ju64_of(jget(u, "input_tokens"@)) == Some(a),
        ju64_of(jget(u, "output_tokens"@)) == Some(b),
        jget(delta, "usage"@) == Some(du),
        ju64_of(jget(du, "output_tokens"@)) == Some(d),
        a <= u32::MAX,
        b + d <= u32::MAX,
    ensures
        ({
            let st1 = anthropic_step(st, "message_start"@, data, Some(start)).1;
            let (es, st2) = anthropic_step(st1, "message_delta"@, data, Some(delta));
            &&& es.len() == 2
            &&& es[0] is Usage
            &&& es[0]->Usage_0.input_tokens == a
            &&& es[0]->Usage_0.output_tokens == b + d
            &&& ju64_of(jget(u, "cache_read_input_tokens"@)) == Some(cr) && cr <= u32::MAX
                ==> es[0]->Usage_0.cache_read_input_tokens == Some(cr as u32)
            &&& ju64_of(jget(u, "cache_creation_input_tokens"@)) == Some(cc) && cc <= u32::MAX
                ==> es[0]->Usage_0.cache_creation_input_tokens == Some(cc as u32)
            &&& anthropic_step(st2, "message_delta"@, data, Some(delta)).0.len() == 1
        }),
{
    lemma_anthropic_kinds_differ();
}

/// A tool call of an Anthropic answer is opened by its block start, grows
/// by the pieces of input that its deltas carry, in order, and ends, at its
/// block's end, with its id, its name and the whole input.
pub proof fn law_anthropic_tool_call(
    st: AnthropicState,
    start: JsonView,
    cb: JsonView,
    d1: JsonView,
    p1: JsonView,
    d2: JsonView,
    p2: JsonView,
    data: Seq<char>,
    i: u64,
    id: Seq<char>,
    name: Seq<char>,
    s1: Seq<char>,
    s2: Seq<char>,
)
    requires
        i < 0x1_0000,
        ju64_of(jget(start, "index"@)) == Some(i),
        jget(start, "content_block"@) == Some(cb),
        jstr_of(jget(cb, "type"@)) == Some("tool_use"@),
        jstr_of(jget(cb, "id"@)) == Some(id),
        jstr_of(jget(cb, "name"@)) == Some(name),
        ju64_of(jget(d1, "index"@)) == Some(i),
        jget(d1, "delta"@) == Some(p1),
        jstr_of(jget(p1, "type"@)) == Some("input_json_delta"@),
        jstr_of(jget(p1, "partial_json"@)) == Some(s1),
        ju64_of(jget(d2, "index"@)) == Some(i),
        jget(d2, "delta"@) == Some(p2),
        jstr_of(jget(p2, "type"@)) == Some("input_json_delta"@),
        jstr_of(jget(p2, "partial_json"@)) == Some(s2),
    ensures
        ({
            let (e0, st1) = anthropic_step(st, "content_block_start"@, data, Some(start));
            let (e1, st2) = anthropic_step(st1, "content_block_delta"@, data, Some(d1));
            let (e2, st3) = anthropic_step(st2, "content_block_delta"@, data, Some(d2));
            let e3 = anthropic_step(st3, "content_block_stop"@, data, None).0;
            &&& e0 == seq![EventView::ToolCallStart { id: id, name: name, index: i as usize }]
            &&& e1 == seq![EventView::ToolCallDelta { index: i as usize, input: s1 }]
            &&& e2 == seq![EventView::ToolCallDelta { index: i as usize, input: s2 }]
            &&& e3 == seq![EventView::ToolCallEnd { index: i as usize, id: id, name: name, input: s1 + s2 }]
        }),
{
    lemma_anthropic_kinds_differ();
    reveal_strlit("input_json_delta");
    reveal_strlit("text_delta");
    reveal_strlit("thinking_delta");
    assert("input_json_delta"@ != "text_delta"@ && "input_json_delta"@ != "thinking_delta"@) by {
        assert("input_json_delta"@.len() != "text_delta"@.len());
        assert("input_json_delta"@.len() != "thinking_delta"@.len());
    }
    let (e0, st1) = anthropic_step(st, "content_block_start"@, data, Some(start));
    let (e1, st2) = anthropic_step(st1, "content_block_delta"@, data, Some(d1));
    let (e2, st3) = anthropic_step(st2, "content_block_delta"@, data, Some(d2));
    let k = i as usize as int;
    assert(st1.calls.len() > k);
    assert(st1.calls[k] == (id, name, Seq::<char>::empty()));
    assert(st2.calls[k] == (id, name, Seq::<char>::empty() + s1));
    assert(Seq::<char>::empty() + s1 == s1);
    assert(st3.calls[k] == (id, name, s1 + s2));
    assert(st3.block_type == Some("tool_use"@));
    assert(st3.block_index == i as usize);
}

/// A Gemini chunk passes on its usage (prompt tokens as input, candidate
/// tokens as output), and for a part of its first candidate: the part's
/// text as text, its text again as thinking when the part is a thought,
/// and a function call as a complete tool call named `gc_` and its number,
/// which is added to the calls gathered so far.
pub proof fn law_gemini_chunk_content(calls: Seq<CallView>, chunk: JsonView, cand: JsonView, content: JsonView, part: JsonView)
    requires
        jarr_of(jget(chunk, "candidates"@)) == Some(seq![cand]),
        jget(cand, "content"@) == Some(content),
        jarr_of(jget(content, "parts"@)) == Some(seq![part]),
    ensures
        forall|t: Seq<char>| jstr_of(jget(part, "text"@)) == Some(t) ==> {
            &&& gemini_chunk_step(calls, chunk).0 is Some
            &&& gemini_chunk_step(calls, chunk).0->0.contains(EventView::TextDelta(t))
            &&& jbool_of(jget(part, "thought"@)) == Some(true) ==> gemini_chunk_step(calls, chunk).0->0.contains(EventView::ThinkingDelta(t))
        },
        jbool_of(jget(part, "thought"@)) != Some(true) ==> !(gemini_chunk_step(calls, chunk).0 is Some
            && exists|k: int| 0 <= k < gemini_chunk_step(calls, chunk).0->0.len()
                && #[trigger] gemini_chunk_step(calls, chunk).0->0[k] is ThinkingDelta),
        forall|fc: JsonView, n: Seq<char>| jget(part, "functionCall"@) == Some(fc) && jstr_of(jget(fc, "name"@)) == Some(n) ==> {
            let id = "gc_"@ + dec(calls.len());
            &&& gemini_chunk_step(calls, chunk).0 is Some
            &&& exists|k: int| 0 <= k < gemini_chunk_step(calls, chunk).0->0.len()
                && (#[trigger] gemini_chunk_step(calls, chunk).0->0[k] matches EventView::ToolCallEnd { index, id: i, name, input }
                && index == calls.len() as usize && i == id && name == n)
            &&& gemini_chunk_step(calls, chunk).1.len() == calls.len() + 1
            &&& gemini_chunk_step(calls, chunk).1.drop_last() == calls
            &&& gemini_chunk_step(calls, chunk).1.last().0 == id
            &&& gemini_chunk_step(calls, chunk).1.last().1 == n
        },
        jget(part, "functionCall"@) is None ==> gemini_chunk_step(calls, chunk).1 == calls,
        forall|u: JsonView, a: u64, b: u64|
            jget(chunk, "usageMetadata"@) == Some(u) && ju64_of(jget(u, "promptTokenCount"@)) == Some(a)
            && ju64_of(jget(u, "candidatesTokenCount"@)) == Some(b) && a <= u32::MAX && b <= u32::MAX ==> {
                &&& gemini_chunk_step(calls, chunk).0 is Some
                &&& exists|k: int| 0 <= k < gemini_chunk_step(calls, chunk).0->0.len()
                    && (#[trigger] gemini_chunk_step(calls, chunk).0->0[k] matches EventView::Usage(us)
                    && us.input_tokens == a && us.output_tokens == b)
            },
{
    let cands = seq![cand];
    let stop_ev: Seq<EventView> = match jstr_of(jget(cand, "finishReason"@)) {
        Some(r) => match gemini_stop(r) { Some(x) => seq![EventView::Stop(Some(x))], None => Seq::empty() },
        None => Seq::empty(),
    };
    let usage_ev: Seq<EventView> = match jget(chunk, "usageMetadata"@) {
        Some(u) => seq![EventView::Usage(Usage {
            input_tokens: count_of(jget(u, "promptTokenCount"@)),
            output_tokens: count_of(jget(u, "candidatesTokenCount"@)),
            cache_creation_input_tokens: None,
            cache_read_input_tokens: count_opt(jget(u, "cachedContentTokenCount"@)),
        })],
        None => Seq::empty(),
    };
    assert(seq![part].drop_last() =~= Seq::<JsonView>::empty());
    let ps = gemini_parts_step(calls, seq![part]);
    let pe = gemini_part_step(calls, part);
    let p0 = gemini_parts_step(calls, Seq::<JsonView>::empty());
    assert(p0.0 == Seq::<EventView>::empty() && p0.1 == calls);
    assert(seq![part].last() == part);
    assert(ps == (p0.0 + gemini_part_step(p0.1, part).0, gemini_part_step(p0.1, part).1));
    assert(ps.0 =~= pe.0);
    assert(ps.1 == pe.1);
    let events = stop_ev + usage_ev + ps.0;
    assert(cands[0] == cand);
    assert(gemini_chunk_step(calls, chunk).0 == if events.len() == 0 { None } else { Some(events) });
    assert(gemini_chunk_step(calls, chunk).1 == pe.1);
    let o = stop_ev.len() + usage_ev.len();
    let text = jstr_of(jget(part, "text"@));
    let text_ev: Seq<EventView> = match text { Some(t) => seq![EventView::TextDelta(t)], None => Seq::empty() };
    let thought_ev: Seq<EventView> = if jbool_of(jget(part, "thought"@)) == Some(true) {
        match text { Some(t) => seq![EventView::ThinkingDelta(t)], None => Seq::empty() }
    } else {
        Seq::empty()
    };
    assert forall|t: Seq<char>| jstr_of(jget(part, "text"@)) == Some(t) implies {
            &&& gemini_chunk_step(calls, chunk).0 is Some
            &&& gemini_chunk_step(calls, chunk).0->0.contains(EventView::TextDelta(t))
            &&& jbool_of(jget(part, "thought"@)) == Some(true) ==> gemini_chunk_step(calls, chunk).0->0.contains(EventView::ThinkingDelta(t))
        } by {
        assert(events[o as int] == EventView::TextDelta(t));
        if jbool_of(jget(part, "thought"@)) == Some(true) {
            assert(events[(o + 1) as int] == EventView::ThinkingDelta(t));
        }
    }
    if jbool_of(jget(part, "thought"@)) != Some(true) {
        assert forall|k: int| 0 <= k < events.len() implies !(#[trigger] events[k] is ThinkingDelta) by {
            if k < stop_ev.len() {
                assert(events[k] == stop_ev[k]);
            } else if k < o {
                assert(events[k] == usage_ev[k - stop_ev.len()]);
            } else if k < o + text_ev.len() {
                assert(events[k] == text_ev[k - o]);
            } else {
                assert(events[k] == pe.0[k - o]);
            }
        }
    }
    assert forall|fc: JsonView, n: Seq<char>| jget(part, "functionCall"@) == Some(fc) && jstr_of(jget(fc, "name"@)) == Some(n) implies {
            let id = "gc_"@ + dec(calls.len());
            &&& gemini_chunk_step(calls, chunk).0 is Some
            &&& exists|k: int| 0 <= k < gemini_chunk_step(calls, chunk).0->0.len()
                && (#[trigger] gemini_chunk_step(calls, chunk).0->0[k] matches EventView::ToolCallEnd { index, id: i, name, input }
                && index == calls.len() as usize && i == id && name == n)
            &&& gemini_chunk_step(calls, chunk).1.len() == calls.len() + 1
            &&& gemini_chunk_step(calls, chunk).1.drop_last() == calls
            &&& gemini_chunk_step(calls, chunk).1.last().0 == id
            &&& gemini_chunk_step(calls, chunk).1.last().1 == n
        } by {
        let k = events.len() - 1;
        assert(events[k] == pe.0.last());
        assert(pe.1.drop_last() =~= calls);
    }
    assert forall|u: JsonView, a: u64, b: u64|
        jget(chunk, "usageMetadata"@) == Some(u) && ju64_of(jget(u, "promptTokenCount"@)) == Some(a)
        && ju64_of(jget(u, "candidatesTokenCount"@)) == Some(b) && a <= u32::MAX && b <= u32::MAX implies {
            &&& gemini_chunk_step(calls, chunk).0 is Some
            &&& exists|k: int| 0 <= k < gemini_chunk_step(calls, chunk).0->0.len()
                && (#[trigger] gemini_chunk_step(calls, chunk).0->0[k] matches EventView::Usage(us)
                && us.input_tokens == a && us.output_tokens == b)
        } by {
        assert(events[stop_ev.len() as int] == usage_ev[0]);
    }
}

// ---------------------------------------------------------------------------
// Tool results sent to the model
// ---------------------------------------------------------------------------

/// In Anthropic's format a tool result is a `tool_result` block that names
/// the call it answers, carries the tool's output, and says whether the
/// tool failed exactly as the block does: a failed tool is never sent as a
/// success, nor a successful one as a failure.
pub proof fn law_anthropic_tool_result(tool_use_id: Seq<char>, content: Seq<char>, is_error: bool)
    ensures
        ({
            let j = anthropic_block(BlockView::ToolResult { tool_use_id, content, is_error });
            &&& jget(j, "type"@) == Some(JsonView::Str("tool_result"@))
            &&& jget(j, "tool_use_id"@) == Some(JsonView::Str(tool_use_id))
            &&& jget(j, "content"@) == Some(JsonView::Str(content))
            &&& jget(j, "is_error"@) == Some(JsonView::Bool(is_error))
        }),
{
    reveal_strlit("type");
    reveal_strlit("tool_use_id");
    reveal_strlit("content");
    reveal_strlit("is_error");
    let m = seq![
        ("type"@, JsonView::Str("tool_result"@)),
        ("tool_use_id"@, JsonView::Str(tool_use_id)),
        ("content"@, JsonView::Str(content)),
        ("is_error"@, JsonView::Bool(is_error)),
    ];
    assert(anthropic_block(BlockView::ToolResult { tool_use_id, content, is_error }) == JsonView::Object(m));
    assert("type"@ != "tool_use_id"@ && "type"@ != "content"@ && "type"@ != "is_error"@) by {
        assert("type"@.len() != "tool_use_id"@.len());
        assert("type"@.len() != "content"@.len());
        assert("type"@.len() != "is_error"@.len());
    }
    assert("tool_use_id"@ != "content"@ && "tool_use_id"@ != "is_error"@) by {
        assert("tool_use_id"@.len() != "content"@.len());
        assert("tool_use_id"@.len() != "is_error"@.len());
    }
    assert("content"@ != "is_error"@) by {
        assert("content"@.len() != "is_error"@.len());
    }
    reveal_with_fuel(member_value, 5);
    assert(m.drop_first().drop_first().drop_first()[0] == m[3]);
    assert(m.drop_first().drop_first()[0] == m[2]);
    assert(m.drop_first()[0] == m[1]);
    assert(member_value(m, "is_error"@) == Some(JsonView::Bool(is_error)));
    assert(member_value(m, "content"@) == Some(JsonView::Str(content)));
    assert(member_value(m, "tool_use_id"@) == Some(JsonView::Str(tool_use_id)));
}

/// The member names of the request formats are told apart.
proof fn lemma_member_names_differ()
    ensures
        "text"@ != "type"@,
        "thinking"@ != "type"@,
        "id"@ != "type"@,
        "name"@ != "type"@,
        "name"@ != "id"@,
        "input"@ != "type"@,
        "input"@ != "id"@,
        "input"@ != "name"@,
        "tool_call_id"@ != "role"@,
        "content"@ != "role"@,
        "content"@ != "tool_call_id"@,
        "response"@ != "name"@,
        "args"@ != "name"@,
        "text"@ != "thought"@,
{
    reveal_strlit("args");
    reveal_strlit("content");
    reveal_strlit("id");
    reveal_strlit("input");
    reveal_strlit("name");
    reveal_strlit("response");
    reveal_strlit("role");
    reveal_strlit("text");
    reveal_strlit("thinking");
    reveal_strlit("thought");
    reveal_strlit("tool_call_id");
    reveal_strlit("type");
    assert("text"@[1] != "type"@[1]);
    assert("thinking"@.len() != "type"@.len());
    assert("id"@.len() != "type"@.len());
    assert("name"@[0] != "type"@[0]);
    assert("name"@.len() != "id"@.len());
    assert("input"@.len() != "type"@.len());
    assert("input"@.len() != "id"@.len());
    assert("input"@.len() != "name"@.len());
    assert("tool_call_id"@.len() != "role"@.len());
    assert("content"@.len() != "role"@.len());
    assert("content"@.len() != "tool_call_id"@.len());
    assert("response"@.len() != "name"@.len());
    assert("args"@[0] != "name"@[0]);
    assert("text"@.len() != "thought"@.len());
}

/// In Anthropic's format a text block, a thinking block and a tool call
/// keep their kind, their text, and the call's id, name and input.
pub proof fn law_anthropic_blocks(t: Seq<char>, id: Seq<char>, name: Seq<char>, input: JsonView)
    ensures
        jget(anthropic_block(BlockView::Text(t)), "type"@) == Some(JsonView::Str("text"@)),
        jget(anthropic_block(BlockView::Text(t)), "text"@) == Some(JsonView::Str(t)),
        jget(anthropic_block(BlockView::Thinking(t)), "type"@) == Some(JsonView::Str("thinking"@)),
        jget(anthropic_block(BlockView::Thinking(t)), "thinking"@) == Some(JsonView::Str(t)),
        ({
            let j = anthropic_block(BlockView::ToolUse { id, name, input });
            &&& jget(j, "type"@) == Some(JsonView::Str("tool_use"@))
            &&& jget(j, "id"@) == Some(JsonView::Str(id))
            &&& jget(j, "name"@) == Some(JsonView::Str(name))
            &&& jget(j, "input"@) == Some(input)
        }),
{
    lemma_member_names_differ();
    reveal_with_fuel(member_value, 5);
    let m = seq![
        ("type"@, JsonView::Str("tool_use"@)),
        ("id"@, JsonView::Str(id)),
        ("name"@, JsonView::Str(name)),
        ("input"@, input),
    ];
    assert(m.drop_first()[0] == m[1]);
    assert(m.drop_first().drop_first()[0] == m[2]);
    assert(m.drop_first().drop_first().drop_first()[0] == m[3]);
    let tm = seq![("type"@, JsonView::Str("text"@)), ("text"@, JsonView::Str(t))];
    assert(tm.drop_first()[0] == tm[1]);
    let hm = seq![("type"@, JsonView::Str("thinking"@)), ("thinking"@, JsonView::Str(t))];
    assert(hm.drop_first()[0] == hm[1]);
}

/// In OpenAI's format each tool result becomes a `tool` message that names
/// the call it answers and carries the tool's output.
pub proof fn law_openai_tool_result(tool_use_id: Seq<char>, content: Seq<char>, is_error: bool)
    ensures
        ({
            let out = openai_message(MessageView::ToolResult(seq![BlockView::ToolResult { tool_use_id, content, is_error }]));
            &&& out.len() == 1
            &&& jget(out[0], "role"@) == Some(JsonView::Str("tool"@))
            &&& jget(out[0], "tool_call_id"@) == Some(JsonView::Str(tool_use_id))
            &&& jget(out[0], "content"@) == Some(JsonView::Str(content))
        }),
{
    lemma_member_names_differ();
    reveal_with_fuel(member_value, 4);
    let b = seq![BlockView::ToolResult { tool_use_id, content, is_error }];
    assert(b.drop_last() =~= Seq::<BlockView>::empty());
    assert(openai_tool_results(b) == openai_tool_results(Seq::<BlockView>::empty()).push(tool_message(tool_use_id, content)));
    assert(openai_tool_results(b) =~= seq![tool_message(tool_use_id, content)]);
    let m = seq![("role"@, JsonView::Str("tool"@)), ("tool_call_id"@, JsonView::Str(tool_use_id)), ("content"@, JsonView::Str(content))];
    assert(m.drop_first()[0] == m[1]);
    assert(m.drop_first().drop_first()[0] == m[2]);
}

/// As a Gemini part, a tool call becomes a `functionCall` with its name and
/// input, a tool result a `functionResponse` that names the call and
/// carries the output, and a thinking block a thought with its text.
pub proof fn law_gemini_parts(t: Seq<char>, id: Seq<char>, name: Seq<char>, input: JsonView, content: Seq<char>, is_error: bool)
    ensures
        ({
            let fc = jget(gemini_part(BlockView::ToolUse { id, name, input }), "functionCall"@);
            &&& fc is Some
            &&& jget(fc->0, "name"@) == Some(JsonView::Str(name))
            &&& jget(fc->0, "args"@) == Some(input)
        }),
        ({
            let fr = jget(gemini_part(BlockView::ToolResult { tool_use_id: id, content, is_error }), "functionResponse"@);
            &&& fr is Some
            &&& jget(fr->0, "name"@) == Some(JsonView::Str(id))
            &&& jget(fr->0, "response"@) is Some
            &&& jget(jget(fr->0, "response"@)->0, "content"@) == Some(JsonView::Str(content))
        }),
        jget(gemini_part(BlockView::Thinking(t)), "thought"@) == Some(JsonView::Bool(true)),
        jget(gemini_part(BlockView::Thinking(t)), "text"@) == Some(JsonView::Str(t)),
        jget(gemini_part(BlockView::Text(t)), "text"@) == Some(JsonView::Str(t)),
{
    lemma_member_names_differ();
    reveal_with_fuel(member_value, 3);
    let c = seq![("name"@, JsonView::Str(name)), ("args"@, input)];
    assert(c.drop_first()[0] == c[1]);
    let r = seq![("name"@, JsonView::Str(id)), ("response"@, JsonView::Object(seq![("content"@, JsonView::Str(content))]))];
    assert(r.drop_first()[0] == r[1]);
    let h = seq![("thought"@, JsonView::Bool(true)), ("text"@, JsonView::Str(t))];
    assert(h.drop_first()[0] == h[1]);
}

/// A message goes to Anthropic under the role `assistant` when the model
/// wrote it and `user` otherwise (tool results included), with its blocks
/// in order; to Gemini likewise, with `model` for the assistant.
pub proof fn law_message_roles(m: MessageView)
    ensures
        jget(anthropic_message(m), "role"@) == Some(JsonView::Str(if m is Assistant { "assistant"@ } else { "user"@ })),
        jget(anthropic_message(m), "content"@) == Some(JsonView::Array(message_blocks(m).map_values(|b: BlockView| anthropic_block(b)))),
        jget(gemini_content(m), "role"@) == Some(JsonView::Str(if m is Assistant { "model"@ } else { "user"@ })),
        jget(gemini_content(m), "parts"@) == Some(JsonView::Array(message_blocks(m).map_values(|b: BlockView| gemini_part(b)))),
{
    reveal_strlit("role");
    reveal_strlit("content");
    reveal_strlit("parts");
    assert("content"@.len() != "role"@.len());
    assert("parts"@.len() != "role"@.len());
    reveal_with_fuel(member_value, 3);
    let a = anthropic_message(m);
    let g = gemini_content(m);
    match a {
        JsonView::Object(am) => {
            assert(am.drop_first()[0] == am[1]);
        },
        _ => {},
    }
    match g {
        JsonView::Object(gm) => {
            assert(gm.drop_first()[0] == gm[1]);
        },
        _ => {},
    }
}

// ---------------------------------------------------------------------------
// Token estimates of CJK text
// ---------------------------------------------------------------------------

/// The code point lies in one of the blocks counted at 1.5 characters per
/// token: CJK ideographs (with extension A), CJK symbols and punctuation,
/// full- and half-width forms, CJK radicals, Hangul syllables, Hiragana and
/// Katakana.
pub open spec fn in_cjk_blocks(v: u32) -> bool {
    ||| (0x4E00 <= v <= 0x9FFF)
    ||| (0x3400 <= v <= 0x4DBF)
    ||| (0x3000 <= v <= 0x303F)
    ||| (0xFF00 <= v <= 0xFFEF)
    ||| (0x2E80 <= v <= 0x2EFF)
    ||| (0xAC00 <= v <= 0xD7AF)
    ||| (0x3040 <= v <= 0x309F)
    ||| (0x30A0 <= v <= 0x30FF)
}

proof fn lemma_cjk_count_all(s: Seq<char>)
    requires
        forall|i: int| 0 <= i < s.len() ==> in_cjk_blocks(#[trigger] s[i] as u32),
    ensures
        cjk_count(s) == s.len(),
    decreases s.len(),
{
    if s.len() > 0 {
        assert(in_cjk_blocks(s[s.len() - 1] as u32));
        lemma_cjk_count_all(s.drop_last());
    }
}

proof fn lemma_cjk_count_none(s: Seq<char>)
    requires
        forall|i: int| 0 <= i < s.len() ==> !in_cjk_blocks(#[trigger] s[i] as u32),
    ensures
        cjk_count(s) == 0,
    decreases s.len(),
{
    if s.len() > 0 {
        assert(!in_cjk_blocks(s[s.len() - 1] as u32));
        lemma_cjk_count_none(s.drop_last());
    }
}

/// A text made only of characters of the CJK blocks (Hangul syllables
/// among them) is estimated at 1.5 characters per token: `n` such
/// characters give `ceil(2n / 3)` tokens.
pub proof fn law_cjk_text_estimate(s: Seq<char>)
    requires
        forall|i: int| 0 <= i < s.len() ==> in_cjk_blocks(#[trigger] s[i] as u32),
    ensures
        spec_estimate(s) == (2 * s.len() + 2) / 3,
{
    lemma_cjk_count_all(s);
}

/// A text with no character of the CJK blocks is estimated at 4 characters
/// per token: `n` characters give `ceil(n / 4)` tokens.
pub proof fn law_other_text_estimate(s: Seq<char>)
    requires
        forall|i: int| 0 <= i < s.len() ==> !in_cjk_blocks(#[trigger] s[i] as u32),
    ensures
        spec_estimate(s) == (s.len() + 3) / 4,
{
    lemma_cjk_count_none(s);
}

/// The estimate of a history is the sum of the estimates of its parts:
/// appending messages adds their estimate.
pub proof fn law_messages_estimate_adds(a: Seq<MessageContent>, b: Seq<MessageContent>)
    ensures
        messages_estimate(a + b) == messages_estimate(a) + messages_estimate(b),
    decreases b.len(),
{
    if b.len() > 0 {
        law_messages_estimate_adds(a, b.drop_last());
        assert((a + b).drop_last() =~= a + b.drop_last());
        assert((a + b).last() == b.last());
    } else {
        assert(a + b =~= a);
    }
}

/// A message counts 4 tokens beside its text: one whose only block is a
/// text `t` is estimated at `t`'s estimate plus 4, and one without text
/// blocks at 4.
pub proof fn law_message_overhead(m: MessageContent, b: TokenBlock, t: Seq<char>)
    ensures
        (m.blocks is Some && m.blocks->0@ == seq![b] && b.block_type@ == "text"@ && b.text is Some && b.text->0@ == t)
            ==> messages_estimate(seq![m]) == spec_estimate(t) + 4,
        (m.blocks is Some && forall|k: int| 0 <= k < m.blocks->0@.len() ==> (#[trigger] m.blocks->0@[k]).block_type@ != "text"@)
            ==> messages_estimate(seq![m]) == 4,
        m.blocks is None ==> messages_estimate(seq![m]) == 4,
{
    assert(seq![m].drop_last() =~= Seq::<MessageContent>::empty());
    assert(seq![b].drop_last() =~= Seq::<TokenBlock>::empty());
    assert(messages_estimate(Seq::<MessageContent>::empty()) == 0);
    assert(seq![m].last() == m);
    match m.blocks {
        Some(bs) => {
            lemma_no_text_blocks(bs@);
            assert(messages_estimate(seq![m]) == blocks_estimate(bs@) + 4);
            if bs@ == seq![b] {
                assert(blocks_estimate(Seq::<TokenBlock>::empty()) == 0);
                assert(bs@.last() == b);
                assert(bs@.drop_last() =~= Seq::<TokenBlock>::empty());
            }
        },
        None => {},
    }
}

proof fn lemma_no_text_blocks(bs: Seq<TokenBlock>)
    ensures
        (forall|k: int| 0 <= k < bs.len() ==> (#[trigger] bs[k]).block_type@ != "text"@) ==> blocks_estimate(bs) == 0,
    decreases bs.len(),
{
    if bs.len() > 0 {
        lemma_no_text_blocks(bs.drop_last());
        if forall|k: int| 0 <= k < bs.len() ==> (#[trigger] bs[k]).block_type@ != "text"@ {
            assert forall|k: int| 0 <= k < bs.drop_last().len() implies (#[trigger] bs.drop_last()[k]).block_type@ != "text"@ by {
                assert(bs.drop_last()[k] == bs[k]);
            }
            assert(bs.last() == bs[bs.len() - 1]);
        }
    }
}

} // verus!
