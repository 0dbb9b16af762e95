//! Project context files (`AGENTS.md`, ...) and their place in
//! the system prompt.

use vstd::prelude::*;
use crate::text::{join_lines, join_nl, push_owned, push_str, str_eq, strs_view};

verus! {

/// The file names looked for in each directory, by priority.
pub const CONTEXT_FILE_NAMES: [&'static str; 2] = ["AGENTS.md", "AGENTS.MD"];

/// A loaded context file.
#[derive(Debug, Clone)]
pub struct ContextFile {
    pub path: String,
    pub content: String,
}

/// The paths of context files.
pub open spec fn context_paths(fs: Seq<ContextFile>) -> Seq<Seq<char>> {
    Seq::new(fs.len(), |i: int| fs[i].path@)
}

/// The files in order, each dropped when its path is in `seen` or an
/// earlier kept file has it.
pub open spec fn unseen_files(fs: Seq<ContextFile>, seen: Seq<Seq<char>>) -> Seq<ContextFile>
    decreases fs.len(),
{
    if fs.len() == 0 {
        Seq::empty()
    } else {
        let prev = unseen_files(fs.drop_last(), seen);
        if seen.contains(fs.last().path@) || context_paths(prev).contains(fs.last().path@) {
            prev
        } else {
            prev.push(fs.last())
        }
    }
}

/// The path already taken by the global file, if any.
pub open spec fn global_paths(global: Option<ContextFile>) -> Seq<Seq<char>> {
    match global {
        Some(g) => seq![g.path@],
        None => Seq::empty(),
    }
}

/// The context files in prompt order: the global one first, then those
/// found from the working directory up to the root, outermost first, each
/// path once.
pub open spec fn ordered_context(global: Option<ContextFile>, upward: Seq<ContextFile>) -> Seq<ContextFile> {
    match global {
        Some(g) => seq![g] + unseen_files(upward, seq![g.path@]).reverse(),
        None => unseen_files(upward, Seq::empty()).reverse(),
    }
}

fn clone_context_file(f: &ContextFile) -> (r: ContextFile)
    ensures
        r == *f,
{
    ContextFile { path: f.path.clone(), content: f.content.clone() }
}

/// Puts the context files in prompt order. `global` is the file of the
/// global agent directory, if any; `upward` the files found from the
/// working directory up to the root, nearest first.
pub fn order_context_files(global: Option<ContextFile>, upward: &[ContextFile]) -> (r: Vec<ContextFile>)
    ensures
        r@ == ordered_context(global, upward@),
{
    let ghost seen = global_paths(global);
    let mut kept: Vec<ContextFile> = Vec::new();
    let mut i: usize = 0;
    while i < upward.len()
        invariant
            i <= upward@.len(),
            seen == global_paths(global),
            kept@ == unseen_files(upward@.take(i as int), seen),
        decreases upward.len() - i,
    {
        let f = &upward[i];
        assert(upward@.take(i + 1).drop_last() =~= upward@.take(i as int));
        assert(upward@.take(i + 1).last() == *f);
        let mut dup = match &global {
            Some(g) => str_eq(g.path.as_str(), f.path.as_str()),
            None => false,
        };
        assert(dup <==> seen.contains(f.path@)) by {
            if dup {
                assert(seen[0] == f.path@);
            }
        }
        let mut j: usize = 0;
        while j < kept.len()
            invariant
                i < upward@.len(),
                *f == upward@[i as int],
                kept@ == unseen_files(upward@.take(i as int), seen),
                j <= kept@.len(),
                dup <==> (seen.contains(f.path@) || exists|k: int| 0 <= k < j && kept@[k].path@ == f.path@),
            decreases kept.len() - j,
        {
            if str_eq(kept[j].path.as_str(), f.path.as_str()) {
                dup = true;
            }
            j = j + 1;
        }
        proof {
            let ps = context_paths(kept@);
            if exists|k: int| 0 <= k < kept@.len() && kept@[k].path@ == f.path@ {
                let k = choose|k: int| 0 <= k < kept@.len() && kept@[k].path@ == f.path@;
                assert(ps[k] == f.path@);
            } else {
                assert forall|k: int| 0 <= k < ps.len() implies ps[k] != f.path@ by {
                    assert(ps[k] == kept@[k].path@);
                }
            }
        }
        if !dup {
            kept.push(clone_context_file(f));
        }
        i = i + 1;
    }
    assert(upward@.take(upward@.len() as int) =~= upward@);
    let mut r: Vec<ContextFile> = Vec::new();
    match global {
        Some(g) => r.push(g),
        None => {},
    }
    let ghost r0 = r@;
    let mut k = kept.len();
    while k > 0
        invariant
            k <= kept@.len(),
            r@ == r0 + kept@.skip(k as int).reverse(),
        decreases k,
    {
        let ghost before = r@;
        r.push(clone_context_file(&kept[k - 1]));
        assert(kept@.skip(k - 1).reverse() =~= kept@.skip(k as int).reverse().push(kept@[k - 1]));
        k = k - 1;
    }
    assert(kept@.skip(0) =~= kept@);
    r
}

/// The lines that present one context file.
pub open spec fn context_file_lines(f: ContextFile) -> Seq<Seq<char>> {
    seq!["## "@ + f.path@ + " "@, Seq::<char>::empty(), f.content@, Seq::<char>::empty()]
}

/// The lines of all context files, in order.
pub open spec fn context_lines(fs: Seq<ContextFile>) -> Seq<Seq<char>>
    decreases fs.len(),
{
    if fs.len() == 0 {
        Seq::empty()
    } else {
        context_lines(fs.drop_last()) + context_file_lines(fs.last())
    }
}

/// The context section of the system prompt: empty without files, else a
/// heading, an introduction and each file under its path, joined with
/// newlines.
pub open spec fn context_prompt(fs: Seq<ContextFile>) -> Seq<char> {
    if fs.len() == 0 {
        Seq::empty()
    } else {
        join_nl(seq![
            "# Project Context"@,
            Seq::<char>::empty(),
            "The following context files were loaded to guide your behavior."@,
            Seq::<char>::empty(),
        ] + context_lines(fs))
    }
}

/// Formats the context files for the system prompt.
pub fn format_context_for_prompt(files: &[ContextFile]) -> (r: String)
    ensures
        r@ == context_prompt(files@),
{
    if files.len() == 0 {
        return String::new();
    }
    proof {
        reveal_strlit("");
        assert(""@ =~= Seq::<char>::empty());
    }
    let mut parts: Vec<String> = Vec::new();
    push_owned(&mut parts, "# Project Context");
    push_owned(&mut parts, "");
    push_owned(&mut parts, "The following context files were loaded to guide your behavior.");
    push_owned(&mut parts, "");
    let ghost head = strs_view(parts@);
    assert(head =~= seq![
        "# Project Context"@,
        Seq::<char>::empty(),
        "The following context files were loaded to guide your behavior."@,
        Seq::<char>::empty(),
    ]);
    let mut i: usize = 0;
    while i < files.len()
        invariant
            i <= files@.len(),
            strs_view(parts@) == head + context_lines(files@.take(i as int)),
        decreases files.len() - i,
    {
        proof {
            reveal_strlit("");
        }
        let ghost before = strs_view(parts@);
        let f = &files[i];
        let mut h = String::new();
        push_str(&mut h, "## ");
        push_str(&mut h, f.path.as_str());
        push_str(&mut h, " ");
        push_owned(&mut parts, h.as_str());
        push_owned(&mut parts, "");
        push_owned(&mut parts, f.content.as_str());
        push_owned(&mut parts, "");
        proof {
            assert(files@.take(i + 1).drop_last() =~= files@.take(i as int));
            assert(files@.take(i + 1).last() == files@[i as int]);
            assert(""@ =~= Seq::<char>::empty());
            assert(strs_view(parts@) =~= before + context_file_lines(files@[i as int]));
        }
        i = i + 1;
    }
    assert(files@.take(files@.len() as int) =~= files@);
    join_lines(parts.as_slice())
}

} // verus!
