//! The settings of a print-mode run, chosen from the command line, the
//! configuration and the environment: the provider, the model, the
//! endpoint, the tools and the prompt.

use vstd::prelude::*;
use crate::cli::{char_uppercase, to_uppercase};
use crate::text::{ends_with_chars, from_chars, has_suffix, push_char, push_str, str_eq, strs_view, to_chars, trim, trim_chars};

verus! {

/// The text of an optional string.
pub open spec fn opt_text(o: Option<String>) -> Option<Seq<char>> {
    match o {
        Some(s) => Some(s@),
        None => None,
    }
}

/// The provider of a run: the one given on the command line, else the one
/// named in the model pattern, else the configured one, else the one from
/// the environment, else `anthropic`.
pub open spec fn chosen_provider(
    cli: Option<Seq<char>>,
    pattern: Option<Seq<char>>,
    config: Option<Seq<char>>,
    env: Option<Seq<char>>,
) -> Seq<char> {
    match cli {
        Some(p) => p,
        None => match pattern {
            Some(p) => p,
            None => match config {
                Some(p) => p,
                None => match env {
                    Some(p) => p,
                    None => "anthropic"@,
                },
            },
        },
    }
}

/// The provider of a run.
pub fn choose_provider(
    cli: &Option<String>,
    pattern: &Option<String>,
    config: &Option<String>,
    env: &Option<String>,
) -> (r: String)
    ensures
        r@ == chosen_provider(opt_text(*cli), opt_text(*pattern), opt_text(*config), opt_text(*env)),
{
    match cli {
        Some(p) => p.clone(),
        None => match pattern {
            Some(p) => p.clone(),
            None => match config {
                Some(p) => p.clone(),
                None => match env {
                    Some(p) => p.clone(),
                    None => "anthropic".to_string(),
                },
            },
        },
    }
}

/// The model of a run: the one named in the model pattern, else the
/// configured one, else the one from the environment; `None` leaves the
/// default model.
pub fn choose_model(pattern: &Option<String>, config: &Option<String>, env: &Option<String>) -> (r: Option<String>)
    ensures
        opt_text(r) == match opt_text(*pattern) {
            Some(m) => Some(m),
            None => match opt_text(*config) {
                Some(m) => Some(m),
                None => opt_text(*env),
            },
        },
{
    match pattern {
        Some(m) => Some(m.clone()),
        None => match config {
            Some(m) => Some(m.clone()),
            None => match env {
                Some(m) => Some(m.clone()),
                None => None,
            },
        },
    }
}

/// A provider id as the name of its key variable: in upper case, with `-`
/// as `_`.
pub open spec fn key_var_stem(p: Seq<char>) -> Seq<char>
    decreases p.len(),
{
    if p.len() == 0 {
        Seq::empty()
    } else {
        key_var_stem(p.drop_last()) + (if p.last() == '-' { seq!['_'] } else { char_uppercase(p.last()) })
    }
}

/// The error of a run with no key for its provider.
pub open spec fn missing_key_text(provider: Seq<char>) -> Seq<char> {
    "No API key found for provider '"@ + provider + "'. Set "@ + key_var_stem(provider)
        + "_API_KEY or configure ~/.piso/models.json"@
}

/// The error of a run with no key for its provider.
pub fn missing_key_message(provider: &str) -> (r: String)
    ensures
        r@ == missing_key_text(provider@),
{
    let cs = to_chars(provider);
    let mut stem = String::new();
    let mut i: usize = 0;
    while i < cs.len()
        invariant
            i <= cs.len(),
            cs@ == provider@,
            stem@ == key_var_stem(provider@.take(i as int)),
        decreases cs.len() - i,
    {
        assert(provider@.take(i + 1).drop_last() =~= provider@.take(i as int));
        assert(provider@.take(i + 1).last() == cs@[i as int]);
        if cs[i] == '-' {
            push_char(&mut stem, '_');
        } else {
            let u = to_uppercase(cs[i]);
            push_str(&mut stem, u.as_str());
        }
        i = i + 1;
    }
    assert(provider@.take(cs.len() as int) =~= provider@);
    let mut r = String::new();
    proof {
        reveal_strlit("No API key found for provider '");
        reveal_strlit("'. Set ");
        reveal_strlit("_API_KEY or configure ~/.piso/models.json");
    }
    push_str(&mut r, "No API key found for provider '");
    push_str(&mut r, provider);
    push_str(&mut r, "'. Set ");
    push_str(&mut r, stem.as_str());
    push_str(&mut r, "_API_KEY or configure ~/.piso/models.json");
    r
}

/// The endpoint of a run: for the OpenAI flavours a base URL is made to end
/// in `/chat/completions`; other flavours take it as it is.
pub open spec fn endpoint_for(api_type: Seq<char>, base_url: Option<Seq<char>>) -> Option<Seq<char>> {
    if api_type == "openai-completions"@ || api_type == "openai-responses"@ {
        match base_url {
            Some(u) => Some(
                if has_suffix(u, "/chat/completions"@) {
                    u
                } else if u.len() > 0 && u.last() == '/' {
                    u + "chat/completions"@
                } else {
                    u + "/chat/completions"@
                },
            ),
            None => None,
        }
    } else {
        base_url
    }
}

/// The endpoint of a run.
pub fn effective_base_url(api_type: &str, base_url: Option<String>) -> (r: Option<String>)
    ensures
        opt_text(r) == endpoint_for(api_type@, opt_text(base_url)),
{
    if str_eq(api_type, "openai-completions") || str_eq(api_type, "openai-responses") {
        match base_url {
            Some(u) => {
                let cs = to_chars(u.as_str());
                let suffix = to_chars("/chat/completions");
                proof { reveal_strlit("/chat/completions"); reveal_strlit("chat/completions"); }
                if ends_with_chars(cs.as_slice(), suffix.as_slice()) {
                    Some(u)
                } else if cs.len() > 0 && cs[cs.len() - 1] == '/' {
                    let mut r = u;
                    push_str(&mut r, "chat/completions");
                    Some(r)
                } else {
                    let mut r = u;
                    push_str(&mut r, "/chat/completions");
                    Some(r)
                }
            },
            None => None,
        }
    } else {
        base_url
    }
}

/// The pieces of `s` between commas, in order.
pub open spec fn comma_pieces(s: Seq<char>) -> Seq<Seq<char>>
    decreases s.len(),
{
    if s.len() == 0 {
        seq![Seq::empty()]
    } else {
        let rest = comma_pieces(s.drop_last());
        if s.last() == ',' {
            rest.push(Seq::empty())
        } else {
            rest.update(rest.len() - 1, rest.last().push(s.last()))
        }
    }
}

/// The pieces, trimmed, without the empty ones.
pub open spec fn nonempty_trimmed(ps: Seq<Seq<char>>) -> Seq<Seq<char>>
    decreases ps.len(),
{
    if ps.len() == 0 {
        Seq::empty()
    } else {
        let rest = nonempty_trimmed(ps.drop_last());
        if trim(ps.last()).len() == 0 { rest } else { rest.push(trim(ps.last())) }
    }
}

proof fn lemma_comma_pieces_nonempty(s: Seq<char>)
    ensures
        comma_pieces(s).len() > 0,
    decreases s.len(),
{
    if s.len() > 0 {
        lemma_comma_pieces_nonempty(s.drop_last());
    }
}

/// The tool names of a `--tools` list: split at commas, trimmed, empty
/// names left out.
pub fn allowed_tool_names(list: &str) -> (r: Vec<String>)
    ensures
        strs_view(r@) == nonempty_trimmed(comma_pieces(list@)),
{
    let cs = to_chars(list);
    let mut done: Vec<String> = Vec::new();
    let mut start: usize = 0;
    let mut i: usize = 0;
    let ghost mut pieces: Seq<Seq<char>> = seq![Seq::empty()];
    assert(list@.take(0) =~= Seq::<char>::empty());
    while i < cs.len()
        invariant
            start <= i <= cs.len(),
            cs@ == list@,
            pieces == comma_pieces(list@.take(i as int)),
            pieces.len() > 0,
            pieces.last() == cs@.subrange(start as int, i as int),
            strs_view(done@) == nonempty_trimmed(pieces.drop_last()),
        decreases cs.len() - i,
    {
        assert(list@.take(i + 1).drop_last() =~= list@.take(i as int));
        assert(list@.take(i + 1).last() == cs@[i as int]);
        if cs[i] == ',' {
            let t = trim_chars(cs.as_slice(), start, i);
            let ghost before = done@;
            if t.len() > 0 {
                done.push(from_chars(t.as_slice()));
                assert(strs_view(done@) =~= strs_view(before).push(t@));
            }
            proof {
                let np = pieces.push(Seq::empty());
                assert(np.drop_last() =~= pieces);
                assert(pieces.drop_last() =~= pieces.drop_last());
                assert(pieces =~= pieces.drop_last().push(pieces.last()));
                pieces = np;
            }
            start = i + 1;
            assert(cs@.subrange(start as int, i + 1) =~= Seq::<char>::empty());
        } else {
            proof {
                let np = pieces.update(pieces.len() - 1, pieces.last().push(cs@[i as int]));
                assert(np.drop_last() =~= pieces.drop_last());
                assert(np.last() =~= cs@.subrange(start as int, i + 1));
                pieces = np;
            }
        }
        i = i + 1;
    }
    assert(list@.take(cs.len() as int) =~= list@);
    let t = trim_chars(cs.as_slice(), start, cs.len());
    let ghost before = done@;
    if t.len() > 0 {
        done.push(from_chars(t.as_slice()));
        assert(strs_view(done@) =~= strs_view(before).push(t@));
    }
    assert(pieces =~= pieces.drop_last().push(pieces.last()));
    done
}

/// The prompt of a print-mode run: the words of the command line joined by
/// spaces, else what came in on standard input; an error when both are
/// empty.
pub open spec fn print_prompt_text(words: Seq<Seq<char>>, piped: Option<Seq<char>>) -> Result<Seq<char>, Seq<char>> {
    let joined = join_words(words);
    if joined.len() > 0 {
        Ok(joined)
    } else {
        match piped {
            Some(p) => if p.len() > 0 { Ok(p) } else { Err(no_prompt_text()) },
            None => Err(no_prompt_text()),
        }
    }
}

/// The error of a print-mode run without a prompt.
pub open spec fn no_prompt_text() -> Seq<char> {
    "No prompt provided. Usage: piso -p \"your prompt\""@
}

/// The words joined by single spaces.
pub open spec fn join_words(words: Seq<Seq<char>>) -> Seq<char>
    decreases words.len(),
{
    if words.len() == 0 {
        Seq::empty()
    } else if words.len() == 1 {
        words[0]
    } else {
        join_words(words.drop_last()) + seq![' '] + words.last()
    }
}

/// The prompt of a print-mode run.
pub fn print_prompt(words: &[String], piped: Option<String>) -> (r: Result<String, String>)
    ensures
        match r {
            Ok(p) => print_prompt_text(strs_view(words@), opt_text(piped)) == Ok::<Seq<char>, Seq<char>>(p@),
            Err(e) => print_prompt_text(strs_view(words@), opt_text(piped)) == Err::<Seq<char>, Seq<char>>(e@),
        },
{
    let ghost ws = strs_view(words@);
    let mut joined = String::new();
    let mut i: usize = 0;
    while i < words.len()
        invariant
            i <= words.len(),
            ws == strs_view(words@),
            joined@ == join_words(ws.take(i as int)),
        decreases words.len() - i,
    {
        assert(ws.take(i + 1).drop_last() =~= ws.take(i as int));
        assert(ws.take(i + 1).last() == words@[i as int]@);
        if i > 0 {
            push_char(&mut joined, ' ');
        } else {
            assert(ws.take(1) =~= seq![words@[0]@]);
        }
        push_str(&mut joined, words[i].as_str());
        i = i + 1;
    }
    assert(ws.take(ws.len() as int) =~= ws);
    if to_chars(joined.as_str()).len() > 0 {
        return Ok(joined);
    }
    let message = "No prompt provided. Usage: piso -p \"your prompt\"".to_string();
    match piped {
        Some(p) => {
            if to_chars(p.as_str()).len() > 0 {
                Ok(p)
            } else {
                Err(message)
            }
        },
        None => Err(message),
    }
}

/// What came in on standard input, trimmed; nothing when that is empty.
pub fn piped_prompt(input: &str) -> (r: Option<String>)
    ensures
        opt_text(r) == if trim(input@).len() == 0 { None } else { Some(trim(input@)) },
{
    let cs = to_chars(input);
    let t = trim_chars(cs.as_slice(), 0, cs.len());
    assert(cs@.subrange(0, cs@.len() as int) =~= input@);
    if t.len() == 0 {
        None
    } else {
        Some(from_chars(t.as_slice()))
    }
}

} // verus!
