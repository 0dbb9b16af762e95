//! Skills: instruction files (`SKILL.md`) with a small front matter, and
//! their listing in the system prompt.

use vstd::prelude::*;
use crate::prompt::opt_view;
use crate::text::{find_pattern, first_at_char, first_occurrence, from_chars, has_prefix, join_lines, join_nl, push_owned, push_str, spec_lines, split_lines, starts_with_at, str_eq, strs_view, sub_chars, to_chars, trim, trim_chars, trim_char_chars, trim_matches, trim_start, trim_start_index};

verus! {

/// A skill: a named instruction file that the model may load.
#[derive(Debug, Clone)]
pub struct Skill {
    pub name: String,
    pub description: String,
    pub file_path: String,
    /// The file's text after the front matter.
    pub content: String,
    /// Where it was found: `"user"` for the global directory, `"project"`
    /// for the project's.
    pub source: String,
}

// ---------------------------------------------------------------------------
// Front matter
// ---------------------------------------------------------------------------

/// The `key: value` entry of one front-matter line: the line is trimmed;
/// empty lines and `#` comments give none, nor does a line without `:`;
/// the key is trimmed, the value trimmed and stripped of surrounding `"`
/// and then `'` characters.
pub open spec fn frontmatter_entry(line: Seq<char>) -> Option<(Seq<char>, Seq<char>)> {
    let l = trim(line);
    if l.len() == 0 || l[0] == '#' {
        None
    } else if exists|i: int| first_at_char(l, ':', i) {
        let i = choose|i: int| first_at_char(l, ':', i);
        Some((trim(l.take(i)), trim_matches(trim_matches(trim(l.skip(i + 1)), '"'), '\'')))
    } else {
        None
    }
}

/// The entries of the front-matter lines, in order.
pub open spec fn frontmatter_entries(lines: Seq<Seq<char>>) -> Seq<(Seq<char>, Seq<char>)>
    decreases lines.len(),
{
    if lines.len() == 0 {
        Seq::empty()
    } else {
        let prev = frontmatter_entries(lines.drop_last());
        match frontmatter_entry(lines.last()) {
            Some(e) => prev.push(e),
            None => prev,
        }
    }
}

/// The front matter of `content` and the text after it. The front matter
/// sits between a leading `---` (after leading whitespace) and the next
/// `"\n---"`; without both there is none, and the text is all of `content`.
pub open spec fn parse_frontmatter_spec(content: Seq<char>) -> (Seq<(Seq<char>, Seq<char>)>, Seq<char>) {
    let t = trim_start(content);
    if !has_prefix(t, "---"@) {
        (Seq::empty(), content)
    } else {
        let a = t.skip(3);
        if exists|e: int| first_occurrence(a, "\n---"@, e) {
            let e = choose|e: int| first_occurrence(a, "\n---"@, e);
            (frontmatter_entries(spec_lines(a.take(e))), a.skip(e + 4))
        } else {
            (Seq::empty(), content)
        }
    }
}

/// The value of the last entry with key `key` (a later entry overrides an
/// earlier one).
pub open spec fn lookup_last(entries: Seq<(Seq<char>, Seq<char>)>, key: Seq<char>) -> Option<Seq<char>>
    decreases entries.len(),
{
    if entries.len() == 0 {
        None
    } else if entries.last().0 == key {
        Some(entries.last().1)
    } else {
        lookup_last(entries.drop_last(), key)
    }
}

/// The views of string pairs.
pub open spec fn pairs_view(v: Seq<(String, String)>) -> Seq<(Seq<char>, Seq<char>)> {
    Seq::new(v.len(), |i: int| (v[i].0@, v[i].1@))
}

fn frontmatter_line(line: &[char]) -> (r: Option<(String, String)>)
    ensures
        match r {
            Some((k, v)) => frontmatter_entry(line@) == Some((k@, v@)),
            None => frontmatter_entry(line@) is None,
        },
{
    let l = trim_chars(line, 0, line.len());
    assert(line@.subrange(0, line@.len() as int) =~= line@);
    if l.len() == 0 || l[0] == '#' {
        return None;
    }
    match crate::text::find_char_index(l.as_slice(), ':') {
        None => {
            proof {
                assert forall|i: int| !first_at_char(l@, ':', i) by {
                    if first_at_char(l@, ':', i) {
                        assert(l@[i] == ':');
                    }
                }
            }
            None
        },
        Some(i) => {
            proof {
                let j = choose|j: int| first_at_char(l@, ':', j);
                crate::text::lemma_first_at_char_unique(l@, ':', i as int, j);
            }
            let key = trim_chars(l.as_slice(), 0, i);
            assert(l@.subrange(0, i as int) =~= l@.take(i as int));
            let v1 = trim_chars(l.as_slice(), i + 1, l.len());
            assert(l@.subrange(i + 1, l@.len() as int) =~= l@.skip(i + 1));
            let v2 = trim_char_chars(v1.as_slice(), '"');
            let v3 = trim_char_chars(v2.as_slice(), '\'');
            Some((from_chars(key.as_slice()), from_chars(v3.as_slice())))
        },
    }
}

/// Splits `content` into its front matter and the text after it.
pub fn parse_frontmatter(content: &str) -> (r: (Vec<(String, String)>, String))
    ensures
        (pairs_view(r.0@), r.1@) == parse_frontmatter_spec(content@),
{
    proof {
        reveal_strlit("---");
        reveal_strlit("\n---");
    }
    let cs = to_chars(content);
    let n = cs.len();
    let a0 = trim_start_index(cs.as_slice());
    let none: Vec<(String, String)> = Vec::new();
    assert(pairs_view(none@) =~= Seq::<(Seq<char>, Seq<char>)>::empty());
    if !starts_with_at(cs.as_slice(), a0, "---") {
        return (none, content.to_owned());
    }
    assert(cs@.skip(a0 as int).len() >= 3);
    let after = sub_chars(cs.as_slice(), a0 + 3, n);
    assert(after@ =~= trim_start(content@).skip(3));
    match find_pattern(after.as_slice(), "\n---") {
        None => {
            (none, content.to_owned())
        },
        Some(e) => {
            proof {
                let e2 = choose|e2: int| first_occurrence(after@, "\n---"@, e2);
                if e2 < e {
                    assert(!crate::text::occurs_at(after@, "\n---"@, e2));
                } else if e < e2 {
                    assert(!crate::text::occurs_at(after@, "\n---"@, e as int));
                }
            }
            let yaml = sub_chars(after.as_slice(), 0, e);
            let body = sub_chars(after.as_slice(), e + 4, after.len());
            assert(yaml@ =~= after@.take(e as int));
            assert(body@ =~= after@.skip(e + 4));
            let ys = from_chars(yaml.as_slice());
            let lines = split_lines(ys.as_str());
            let ghost ls = strs_view(lines@);
            let mut entries: Vec<(String, String)> = Vec::new();
            let mut i: usize = 0;
            while i < lines.len()
                invariant
                    i <= lines@.len(),
                    ls == strs_view(lines@),
                    pairs_view(entries@) == frontmatter_entries(ls.take(i as int)),
                decreases lines.len() - i,
            {
                let l = to_chars(lines[i].as_str());
                assert(ls.take(i + 1).drop_last() =~= ls.take(i as int));
                assert(ls.take(i + 1).last() == l@);
                match frontmatter_line(l.as_slice()) {
                    Some(kv) => {
                        let ghost before = entries@;
                        entries.push(kv);
                        assert(pairs_view(entries@) =~= pairs_view(before).push((kv.0@, kv.1@)));
                    },
                    None => {},
                }
                i = i + 1;
            }
            assert(ls.take(ls.len() as int) =~= ls);
            (entries, from_chars(body.as_slice()))
        },
    }
}

fn lookup(entries: &Vec<(String, String)>, key: &str) -> (r: Option<String>)
    ensures
        opt_view(r) == lookup_last(pairs_view(entries@), key@),
{
    let ghost pv = pairs_view(entries@);
    let mut i = entries.len();
    assert(pv.take(i as int) =~= pv);
    while i > 0
        invariant
            i <= entries@.len(),
            pv == pairs_view(entries@),
            lookup_last(pv, key@) == lookup_last(pv.take(i as int), key@),
        decreases i,
    {
        assert(pv.take(i as int).drop_last() =~= pv.take(i - 1));
        assert(pv.take(i as int).last() == pv[i - 1]);
        if str_eq(entries[i - 1].0.as_str(), key) {
            return Some(entries[i - 1].1.clone());
        }
        i = i - 1;
    }
    None
}

// ---------------------------------------------------------------------------
// Building a skill from its file
// ---------------------------------------------------------------------------

/// A line that can describe a skill: not blank and not a `#` heading.
pub open spec fn describes(l: Seq<char>) -> bool {
    trim(l).len() > 0 && !(l.len() > 0 && l[0] == '#')
}

/// The first describing line of `lines`, if any.
pub open spec fn first_describing(lines: Seq<Seq<char>>) -> Option<Seq<char>>
    decreases lines.len(),
{
    if lines.len() == 0 {
        None
    } else if describes(lines[0]) {
        Some(lines[0])
    } else {
        first_describing(lines.drop_first())
    }
}

/// The name of a skill: the front matter's `name`, else the fallback.
pub open spec fn skill_name(content: Seq<char>, fallback: Seq<char>) -> Seq<char> {
    match lookup_last(parse_frontmatter_spec(content).0, "name"@) {
        Some(n) => n,
        None => fallback,
    }
}

/// The description of a skill: the front matter's `description`, else the
/// first describing line of the text, else the fallback name.
pub open spec fn skill_description(content: Seq<char>, fallback: Seq<char>) -> Seq<char> {
    let (fm, body) = parse_frontmatter_spec(content);
    match lookup_last(fm, "description"@) {
        Some(d) => d,
        None => match first_describing(spec_lines(body)) {
            Some(l) => l,
            None => fallback,
        },
    }
}

fn first_describing_line(text: &str) -> (r: Option<String>)
    ensures
        opt_view(r) == first_describing(spec_lines(text@)),
{
    let lines = split_lines(text);
    let ghost ls = strs_view(lines@);
    let mut i: usize = 0;
    assert(ls.skip(0) =~= ls);
    while i < lines.len()
        invariant
            i <= lines@.len(),
            ls == strs_view(lines@),
            ls == spec_lines(text@),
            first_describing(ls) == first_describing(ls.skip(i as int)),
        decreases lines.len() - i,
    {
        let l = to_chars(lines[i].as_str());
        assert(ls.skip(i as int)[0] == l@);
        assert(ls.skip(i as int).drop_first() =~= ls.skip(i + 1));
        let t = trim_chars(l.as_slice(), 0, l.len());
        assert(l@.subrange(0, l@.len() as int) =~= l@);
        if t.len() > 0 && !(l.len() > 0 && l[0] == '#') {
            assert(describes(l@));
            assert(first_describing(ls.skip(i as int)) == Some(l@));
            return Some(lines[i].clone());
        }
        i = i + 1;
    }
    None
}

/// The skill that a `SKILL.md` with text `content` at `file_path`
/// describes; `fallback_name` is the name of its directory.
pub fn skill_from_content(content: &str, file_path: &str, fallback_name: &str, source: &str) -> (s: Skill)
    ensures
        s.name@ == skill_name(content@, fallback_name@),
        s.description@ == skill_description(content@, fallback_name@),
        s.content@ == parse_frontmatter_spec(content@).1,
        s.file_path@ == file_path@,
        s.source@ == source@,
{
    let (fm, body) = parse_frontmatter(content);
    let name = match lookup(&fm, "name") {
        Some(n) => n,
        None => fallback_name.to_owned(),
    };
    let description = match lookup(&fm, "description") {
        Some(d) => d,
        None => match first_describing_line(body.as_str()) {
            Some(l) => l,
            None => fallback_name.to_owned(),
        },
    };
    Skill {
        name,
        description,
        file_path: file_path.to_owned(),
        content: body,
        source: source.to_owned(),
    }
}

/// The names of skills.
pub open spec fn skill_names(s: Seq<Skill>) -> Seq<Seq<char>> {
    Seq::new(s.len(), |i: int| s[i].name@)
}

/// No skill after position `i` has the name of the skill at `i`: it is
/// the one that stands for its name.
pub open spec fn last_of_name(s: Seq<Skill>, i: int) -> bool {
    forall|j: int| i < j < s.len() ==> #[trigger] s[j].name@ != s[i].name@
}

/// The skills among the first `n` that are the last of their name, in order.
pub open spec fn kept_prefix(s: Seq<Skill>, n: int) -> Seq<Skill>
    decreases n,
{
    if n <= 0 {
        Seq::empty()
    } else {
        let prev = kept_prefix(s, n - 1);
        if last_of_name(s, n - 1) {
            prev.push(s[n - 1])
        } else {
            prev
        }
    }
}

/// The skills in order, each dropped when a later one has its name.
pub open spec fn dedup_by_name(s: Seq<Skill>) -> Seq<Skill> {
    kept_prefix(s, s.len() as int)
}

fn clone_skill(s: &Skill) -> (r: Skill)
    ensures
        r == *s,
{
    Skill {
        name: s.name.clone(),
        description: s.description.clone(),
        file_path: s.file_path.clone(),
        content: s.content.clone(),
        source: s.source.clone(),
    }
}

/// Keeps, of each name, the skill found last, in the order they were
/// found: project skills are found after global ones, so they override
/// global skills of the same name.
pub fn dedup_skills(found: Vec<Skill>) -> (r: Vec<Skill>)
    ensures
        r@ == dedup_by_name(found@),
{
    let mut r: Vec<Skill> = Vec::new();
    let mut i: usize = 0;
    while i < found.len()
        invariant
            i <= found@.len(),
            r@ == kept_prefix(found@, i as int),
        decreases found.len() - i,
    {
        let mut later = false;
        let mut j: usize = i + 1;
        while j < found.len()
            invariant
                i < found@.len(),
                i + 1 <= j <= found@.len(),
                later <==> exists|k: int| i < k < j && #[trigger] found@[k].name@ == found@[i as int].name@,
            decreases found.len() - j,
        {
            if str_eq(found[j].name.as_str(), found[i].name.as_str()) {
                later = true;
            }
            j = j + 1;
        }
        if !later {
            r.push(clone_skill(&found[i]));
        }
        i = i + 1;
    }
    r
}

// ---------------------------------------------------------------------------
// Listing skills in the prompt
// ---------------------------------------------------------------------------

/// One character escaped for XML text.
pub open spec fn escape_xml_char(c: char) -> Seq<char> {
    if c == '&' {
        "&amp;"@
    } else if c == '<' {
        "&lt;"@
    } else if c == '>' {
        "&gt;"@
    } else if c == '"' {
        "&quot;"@
    } else {
        seq![c]
    }
}

/// `s` with `&`, `<`, `>` and `"` escaped for XML.
pub open spec fn escape_xml_spec(s: Seq<char>) -> Seq<char>
    decreases s.len(),
{
    if s.len() == 0 {
        Seq::empty()
    } else {
        escape_xml_spec(s.drop_last()) + escape_xml_char(s.last())
    }
}

/// Escapes `&`, `<`, `>` and `"` for XML.
pub fn escape_xml(value: &str) -> (r: String)
    ensures
        r@ == escape_xml_spec(value@),
{
    let cs = to_chars(value);
    let mut r = String::new();
    let mut i: usize = 0;
    while i < cs.len()
        invariant
            i <= cs@.len(),
            cs@ == value@,
            r@ == escape_xml_spec(cs@.take(i as int)),
        decreases cs.len() - i,
    {
        let c = cs[i];
        assert(cs@.take(i + 1).drop_last() =~= cs@.take(i as int));
        assert(cs@.take(i + 1).last() == c);
        if c == '&' {
            push_str(&mut r, "&amp;");
        } else if c == '<' {
            push_str(&mut r, "&lt;");
        } else if c == '>' {
            push_str(&mut r, "&gt;");
        } else if c == '"' {
            push_str(&mut r, "&quot;");
        } else {
            let ghost before = r@;
            crate::text::push_char(&mut r, c);
            assert(r@ =~= before + seq![c]);
        }
        i = i + 1;
    }
    assert(cs@.take(cs@.len() as int) =~= cs@);
    r
}

/// The introduction above the skill list.
pub open spec fn skills_intro() -> Seq<Seq<char>> {
    seq![
        "The following skills provide specialized instructions for specific tasks."@,
        "Use the read tool to load a skill's file when the task matches its description."@,
        "When a skill file references a relative path, resolve it against the skill directory."@,
        Seq::<char>::empty(),
        "<available_skills>"@,
    ]
}

/// The lines that list one skill.
pub open spec fn skill_entry_lines(s: Skill) -> Seq<Seq<char>> {
    seq![
        "  <skill>"@,
        "    <name>"@ + escape_xml_spec(s.name@) + "</name>"@,
        "    <description>"@ + escape_xml_spec(s.description@) + "</description>"@,
        "    <location>"@ + escape_xml_spec(s.file_path@) + "</location>"@,
        "  </skill>"@,
    ]
}

/// The entry lines of all skills, in order.
pub open spec fn skills_entries(s: Seq<Skill>) -> Seq<Seq<char>>
    decreases s.len(),
{
    if s.len() == 0 {
        Seq::empty()
    } else {
        skills_entries(s.drop_last()) + skill_entry_lines(s.last())
    }
}

/// The skill list for the system prompt: empty without skills, else the
/// introduction, an `<available_skills>` element with one `<skill>` per
/// skill, joined with newlines.
pub open spec fn skills_prompt(s: Seq<Skill>) -> Seq<char> {
    if s.len() == 0 {
        Seq::empty()
    } else {
        join_nl(skills_intro() + skills_entries(s) + seq!["</available_skills>"@])
    }
}

fn push_tagged(lines: &mut Vec<String>, open: &str, value: &str, close: &str)
    ensures
        strs_view(final(lines)@) == strs_view(old(lines)@).push(open@ + escape_xml_spec(value@) + close@),
{
    let mut l = String::new();
    push_str(&mut l, open);
    let e = escape_xml(value);
    push_str(&mut l, e.as_str());
    push_str(&mut l, close);
    push_owned(lines, l.as_str());
}

/// Formats the skills for the system prompt.
pub fn format_skills_for_prompt(skills: &[Skill]) -> (r: String)
    ensures
        r@ == skills_prompt(skills@),
{
    if skills.len() == 0 {
        return String::new();
    }
    proof {
        reveal_strlit("");
        assert(""@ =~= Seq::<char>::empty());
    }
    let mut lines: Vec<String> = Vec::new();
    push_owned(&mut lines, "The following skills provide specialized instructions for specific tasks.");
    assert(strs_view(lines@) =~= seq!["The following skills provide specialized instructions for specific tasks."@]);
    push_owned(&mut lines, "Use the read tool to load a skill's file when the task matches its description.");
    push_owned(&mut lines, "When a skill file references a relative path, resolve it against the skill directory.");
    push_owned(&mut lines, "");
    push_owned(&mut lines, "<available_skills>");
    assert(strs_view(lines@) =~= skills_intro());
    let mut i: usize = 0;
    while i < skills.len()
        invariant
            i <= skills@.len(),
            strs_view(lines@) == skills_intro() + skills_entries(skills@.take(i as int)),
        decreases skills.len() - i,
    {
        let ghost before = strs_view(lines@);
        let sk = &skills[i];
        push_owned(&mut lines, "  <skill>");
        push_tagged(&mut lines, "    <name>", sk.name.as_str(), "</name>");
        push_tagged(&mut lines, "    <description>", sk.description.as_str(), "</description>");
        push_tagged(&mut lines, "    <location>", sk.file_path.as_str(), "</location>");
        push_owned(&mut lines, "  </skill>");
        proof {
            assert(skills@.take(i + 1).drop_last() =~= skills@.take(i as int));
            assert(skills@.take(i + 1).last() == skills@[i as int]);
            assert(strs_view(lines@) =~= before + skill_entry_lines(skills@[i as int]));
        }
        i = i + 1;
    }
    assert(skills@.take(skills@.len() as int) =~= skills@);
    let ghost before = strs_view(lines@);
    push_owned(&mut lines, "</available_skills>");
    assert(strs_view(lines@) =~= skills_intro() + skills_entries(skills@) + seq!["</available_skills>"@]);
    join_lines(lines.as_slice())
}

} // verus!
