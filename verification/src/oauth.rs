//! The sign-in token of the device flow: what each poll answer means, and
//! how the token is kept in, read from and removed from the stored JSON
//! object of credentials.

use vstd::prelude::*;
use crate::json::{jget, jstr_of, jview, jview_members, lemma_jview_members, JsonValue, JsonView};
use crate::text::{push_str, str_eq};
use crate::transform::{js, obj3};

verus! {

/// What to do after a poll for the token.
#[derive(Debug)]
pub enum TokenPoll {
    /// The token was granted.
    Granted(String),
    /// Not granted yet: wait the interval and poll again.
    Pending,
    /// Asked to slow down: wait five more seconds, then poll again.
    SlowDown,
    /// The flow failed with this message.
    Failed(String),
}

/// The message of a failed flow for the error `err` and its description.
pub open spec fn oauth_error_message(err: Seq<char>, description: Seq<char>) -> Seq<char> {
    "OAuth error: "@ + err + " - "@ + description
}

/// What a poll answer means: a token is granted; `authorization_pending`
/// or no error means wait; `slow_down` means wait longer; an expired code
/// and any other error fail the flow.
pub fn token_poll_step(
    access_token: Option<&str>,
    error: Option<&str>,
    error_description: Option<&str>,
) -> (r: TokenPoll)
    ensures
        match access_token {
            Some(t) => r matches TokenPoll::Granted(g) && g@ == t@,
            None => match error {
                None => r is Pending,
                Some(e) => if e@ == "authorization_pending"@ {
                    r is Pending
                } else if e@ == "slow_down"@ {
                    r is SlowDown
                } else if e@ == "expired_token"@ {
                    r matches TokenPoll::Failed(m) && m@ == "Device code expired. Please try again."@
                } else {
                    r matches TokenPoll::Failed(m) && m@ == oauth_error_message(
                        e@,
                        match error_description {
                            Some(d) => d@,
                            None => Seq::empty(),
                        },
                    )
                },
            },
        },
{
    match access_token {
        Some(t) => TokenPoll::Granted(t.to_string()),
        None => match error {
            None => TokenPoll::Pending,
            Some(e) => {
                if str_eq(e, "authorization_pending") {
                    TokenPoll::Pending
                } else if str_eq(e, "slow_down") {
                    TokenPoll::SlowDown
                } else if str_eq(e, "expired_token") {
                    TokenPoll::Failed("Device code expired. Please try again.".to_string())
                } else {
                    let mut m = String::new();
                    proof { reveal_strlit("OAuth error: "); reveal_strlit(" - "); }
                    push_str(&mut m, "OAuth error: ");
                    push_str(&mut m, e);
                    push_str(&mut m, " - ");
                    match error_description {
                        Some(d) => push_str(&mut m, d),
                        None => {},
                    }
                    TokenPoll::Failed(m)
                }
            },
        },
    }
}

/// A stored sign-in token.
#[derive(Debug, Clone)]
pub struct CachedToken {
    pub access_token: String,
    pub token_type: String,
    pub expires_at: Option<String>,
    pub provider: String,
}

/// The stored form of a cached token: its members in order, with `null`
/// for no expiry.
pub open spec fn cached_token_json(t: CachedToken) -> JsonView {
    let expires = match t.expires_at {
        Some(e) => js(e@),
        None => JsonView::Null,
    };
    JsonView::Object(seq![
        ("access_token"@, js(t.access_token@)),
        ("token_type"@, js(t.token_type@)),
        ("expires_at"@, expires),
        ("provider"@, js(t.provider@)),
    ])
}

impl CachedToken {
    /// The stored form of the token.
    pub fn to_json(&self) -> (j: JsonValue)
        ensures
            jview(j) == cached_token_json(*self),
    {
        let expires = match &self.expires_at {
            Some(e) => JsonValue::string(e.as_str()),
            None => JsonValue::Null,
        };
        let j = crate::transform::obj4(
            "access_token",
            JsonValue::string(self.access_token.as_str()),
            "token_type",
            JsonValue::string(self.token_type.as_str()),
            "expires_at",
            expires,
            "provider",
            JsonValue::string(self.provider.as_str()),
        );
        j
    }
}

/// The members with the first member named `key` given the value `v`, or
/// with a member `key: v` added at the end when there is none.
pub open spec fn set_member(m: Seq<(Seq<char>, JsonView)>, key: Seq<char>, v: JsonView) -> Seq<(Seq<char>, JsonView)> {
    if exists|i: int| 0 <= i < m.len() && m[i].0 == key {
        let i = choose|i: int| 0 <= i < m.len() && m[i].0 == key && forall|j: int| 0 <= j < i ==> m[j].0 != key;
        m.update(i, (key, v))
    } else {
        m.push((key, v))
    }
}

/// The members without those named `key`, in order.
pub open spec fn without_member(m: Seq<(Seq<char>, JsonView)>, key: Seq<char>) -> Seq<(Seq<char>, JsonView)>
    decreases m.len(),
{
    if m.len() == 0 {
        Seq::empty()
    } else {
        let rest = without_member(m.drop_last(), key);
        if m.last().0 == key { rest } else { rest.push(m.last()) }
    }
}

/// The stored form of a token.
pub open spec fn token_entry(token: Seq<char>) -> JsonView {
    JsonView::Object(seq![
        ("access_token"@, js(token)),
        ("token_type"@, js("bearer"@)),
        ("provider"@, js("github-copilot"@)),
    ])
}

/// The credentials with the token stored under `copilot`; anything but an
/// object is left as it is.
pub open spec fn with_token(entries: JsonView, token: Seq<char>) -> JsonView {
    match entries {
        JsonView::Object(m) => JsonView::Object(set_member(m, "copilot"@, token_entry(token))),
        _ => entries,
    }
}

/// The credentials without the `copilot` entry; anything but an object is
/// left as it is.
pub open spec fn without_token(entries: JsonView) -> JsonView {
    match entries {
        JsonView::Object(m) => JsonView::Object(without_member(m, "copilot"@)),
        _ => entries,
    }
}

/// The token stored in the credentials, if any.
pub open spec fn stored_token(entries: JsonView) -> Option<Seq<char>> {
    match jget(entries, "copilot"@) {
        Some(c) => jstr_of(jget(c, "access_token"@)),
        None => None,
    }
}

/// Stores the token in the credentials under `copilot`.
pub fn store_token(entries: JsonValue, token: &str) -> (r: JsonValue)
    ensures
        jview(r) == with_token(jview(entries), token@),
{
    let ghost ev = jview(entries);
    match entries {
        JsonValue::Object(m) => {
            let ghost mv = jview_members(m@);
            assert(ev == JsonView::Object(mv));
            proof { lemma_jview_members(m@); }
            let entry = obj3(
                "access_token",
                JsonValue::string(token),
                "token_type",
                JsonValue::string("bearer"),
                "provider",
                JsonValue::string("github-copilot"),
            );
            assert(jview(entry) == token_entry(token@));
            let mut m = m;
            let mut i: usize = 0;
            while i < m.len()
                invariant
                    i <= m.len(),
                    mv == jview_members(m@),
                    mv.len() == m@.len(),
                    forall|k: int| 0 <= k < m@.len() ==> #[trigger] mv[k] == (m@[k].0@, jview(m@[k].1)),
                    forall|j: int| 0 <= j < i ==> mv[j].0 != "copilot"@,
                    jview(entry) == token_entry(token@),
                    ev == JsonView::Object(mv),
                    ev == jview(entries),
                decreases m.len() - i,
            {
                if str_eq(m[i].0.as_str(), "copilot") {
                    let ghost before = m@;
                    m.set(i, ("copilot".to_string(), entry));
                    proof {
                        lemma_jview_members(m@);
                        assert(jview_members(m@) =~= mv.update(i as int, ("copilot"@, token_entry(token@)))) by {
                            assert forall|k: int| 0 <= k < m@.len() implies #[trigger] jview_members(m@)[k]
                                == mv.update(i as int, ("copilot"@, token_entry(token@)))[k] by {
                                if k != i {
                                    assert(m@[k] == before[k]);
                                }
                            }
                        }
                        assert(mv[i as int].0 == "copilot"@);
                        assert(0 <= i < mv.len() && mv[i as int].0 == "copilot"@
                            && forall|j: int| 0 <= j < i ==> mv[j].0 != "copilot"@);
                        let c = choose|c: int| 0 <= c < mv.len() && mv[c].0 == "copilot"@
                            && forall|j: int| 0 <= j < c ==> mv[j].0 != "copilot"@;
                        if c != i {
                            if c < i {
                                assert(mv[c].0 != "copilot"@);
                            } else {
                                assert(mv[i as int].0 != "copilot"@);
                            }
                        }
                    }
                    let r = JsonValue::Object(m);
                    assert(set_member(mv, "copilot"@, token_entry(token@)) == mv.update(i as int, ("copilot"@, token_entry(token@))));
                    assert(jview(r) == JsonView::Object(jview_members(m@)));
                    return r;
                }
                i = i + 1;
            }
            let ghost before = m@;
            let member = ("copilot".to_string(), entry);
            let ghost mem = member;
            m.push(member);
            proof {
                crate::json::lemma_jview_members_push(before, mem);
                assert(!exists|k: int| 0 <= k < mv.len() && mv[k].0 == "copilot"@);
            }
            JsonValue::Object(m)
        },
        other => other,
    }
}

/// Removes the `copilot` entry from the credentials.
pub fn remove_token(entries: JsonValue) -> (r: JsonValue)
    ensures
        jview(r) == without_token(jview(entries)),
{
    match entries {
        JsonValue::Object(m) => {
            let ghost mv = jview_members(m@);
            proof { lemma_jview_members(m@); }
            let mut kept: Vec<(String, JsonValue)> = Vec::new();
            let mut rest = m;
            let ghost mut taken: int = 0;
            assert(mv.take(0) =~= Seq::<(Seq<char>, JsonView)>::empty());
            assert(jview_members(kept@) =~= Seq::<(Seq<char>, JsonView)>::empty());
            while rest.len() > 0
                invariant
                    0 <= taken <= mv.len(),
                    taken + rest@.len() == mv.len(),
                    jview_members(rest@) == mv.skip(taken),
                    jview_members(kept@) == without_member(mv.take(taken), "copilot"@),
                decreases rest@.len(),
            {
                let ghost r0 = rest@;
                proof { lemma_jview_members(r0); }
                let e = rest.remove(0);
                proof {
                    lemma_jview_members(rest@);
                    assert(rest@ =~= r0.skip(1));
                    assert(jview_members(rest@) =~= mv.skip(taken + 1)) by {
                        assert forall|k: int| 0 <= k < rest@.len() implies #[trigger] jview_members(rest@)[k]
                            == mv.skip(taken + 1)[k] by {
                            assert(jview_members(r0)[k + 1] == mv.skip(taken)[k + 1]);
                        }
                    }
                    assert(jview_members(r0)[0] == (e.0@, jview(e.1)));
                    assert(mv[taken] == mv.skip(taken)[0]);
                    assert(mv.take(taken + 1).drop_last() =~= mv.take(taken));
                    assert(mv.take(taken + 1).last() == mv[taken]);
                }
                if !str_eq(e.0.as_str(), "copilot") {
                    let ghost kb = kept@;
                    kept.push(e);
                    proof { crate::json::lemma_jview_members_push(kb, e); }
                }
                proof { taken = taken + 1; }
            }
            assert(mv.take(mv.len() as int) =~= mv);
            JsonValue::Object(kept)
        },
        other => other,
    }
}

/// The token stored in the credentials, if any.
pub fn cached_token(entries: &JsonValue) -> (r: Option<String>)
    ensures
        match r {
            Some(t) => stored_token(jview(*entries)) == Some(t@),
            None => stored_token(jview(*entries)) is None,
        },
{
    match entries.get("copilot") {
        Some(c) => match c.get("access_token") {
            Some(v) => match v.as_str() {
                Some(t) => Some(t.to_string()),
                None => None,
            },
            None => None,
        },
        None => None,
    }
}

} // verus!
