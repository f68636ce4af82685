//! Member search: the names shown for a member, how a member is referred to
//! once gone, the full-text label, and how autocomplete input becomes a
//! query.

use vstd::prelude::*;

use crate::commands::{opt_chars, pick_name};
use crate::text::{
    char_is_alphanumeric, char_is_whitespace, chars_of, contains, contains_text, is_white_space,
    lowercase_text, push_char, push_str, string_of, to_lowercase, trim, trim_text, unicode_alphanumeric,
};

verus! {

/// A member as the search queries return it.
#[derive(Debug, Clone)]
pub struct MemberRow {
    pub user_id: String,
    pub account_username: Option<String>,
    pub display_name: Option<String>,
    pub server_nickname: Option<String>,
    /// RFC 2822 time the member was first seen.
    pub first_seen_at: String,
    pub is_present: bool,
}

/// The stored names of a member: account username, display name, server
/// nickname.
pub type StoredNames = (Option<String>, Option<String>, Option<String>);

/// The best display name of a member: nothing when the member is not on
/// record, else a non-empty server nickname, a non-empty display name, or
/// the account username.
pub open spec fn display_name_of(row: Option<StoredNames>) -> Option<Seq<char>> {
    match row {
        Some(r) => pick_name(opt_chars(r.0), opt_chars(r.1), opt_chars(r.2)),
        None => None,
    }
}

fn nonempty(o: &Option<String>) -> (r: bool)
    ensures
        r == (o is Some && o->0@.len() > 0),
{
    match o {
        Some(s) => {
            let cs = chars_of(s.as_str());
            cs.len() > 0
        },
        None => false,
    }
}

fn copy_opt(o: &Option<String>) -> (r: Option<String>)
    ensures
        opt_chars(r) == opt_chars(*o),
{
    match o {
        Some(s) => Some(string_of(s.as_str())),
        None => None,
    }
}

/// Pick the name shown for a member from its stored names.
pub fn pick_stored_name(names: &StoredNames) -> (r: Option<String>)
    ensures
        opt_chars(r) == pick_name(opt_chars(names.0), opt_chars(names.1), opt_chars(names.2)),
{
    if nonempty(&names.2) {
        copy_opt(&names.2)
    } else if nonempty(&names.1) {
        copy_opt(&names.1)
    } else {
        copy_opt(&names.0)
    }
}

/// The best display name from a member's stored names, `None` when the
/// member is not on record.
pub fn best_display_name(row: &Option<StoredNames>) -> (r: Option<String>)
    ensures
        opt_chars(r) == display_name_of(*row),
{
    match row {
        Some(names) => pick_stored_name(names),
        None => None,
    }
}

/// How a user is referred to: a mention while present, the name in italics
/// once gone, and the bare id when no name is known.
pub open spec fn user_ref_text(user_id: Seq<char>, is_present: bool, name: Option<Seq<char>>) -> Seq<char> {
    if is_present {
        "<@"@ + user_id + ">"@
    } else {
        match name {
            Some(n) => "*"@ + n + "*"@,
            None => user_id,
        }
    }
}

/// The best reference for a user: `<@id>` if present, `*name*` if departed,
/// the id itself when no name is on record. A user not on record counts as
/// not present.
pub fn best_user_ref(user_id: &str, is_present: Option<bool>, name: &Option<String>) -> (r: String)
    ensures
        r@ == user_ref_text(user_id@, is_present == Some(true), opt_chars(*name)),
{
    let present = match is_present {
        Some(p) => p,
        None => false,
    };
    if present {
        let mut s = string_of("<@");
        push_str(&mut s, user_id);
        push_str(&mut s, ">");
        proof {
            assert(s@ =~= user_ref_text(user_id@, true, opt_chars(*name)));
        }
        return s;
    }
    match name {
        Some(n) => {
            let mut s = string_of("*");
            push_str(&mut s, n.as_str());
            push_str(&mut s, "*");
            proof {
                assert(s@ =~= user_ref_text(user_id@, false, opt_chars(*name)));
            }
            s
        },
        None => string_of(user_id),
    }
}

/// The name a departing member is shown under: the best stored name, else
/// the global name, else the account name.
pub open spec fn departed_name_text(best: Option<Seq<char>>, global_name: Option<Seq<char>>, name: Seq<char>) -> Seq<char> {
    match best {
        Some(b) => b,
        None => match global_name {
            Some(g) => g,
            None => name,
        },
    }
}

/// The name a departing member is shown under.
pub fn departed_name(best: &Option<String>, global_name: &Option<String>, name: &str) -> (r: String)
    ensures
        r@ == departed_name_text(opt_chars(*best), opt_chars(*global_name), name@),
{
    match best {
        Some(b) => string_of(b.as_str()),
        None => match global_name {
            Some(g) => string_of(g.as_str()),
            None => string_of(name),
        },
    }
}

// ── Full-text index ──────────────────────────────────────────────────────────

/// The label indexed for a member: the picked name, or `User ID` when there
/// is none.
pub open spec fn fts_label_text(user_id: Seq<char>, names: (Option<Seq<char>>, Option<Seq<char>>, Option<Seq<char>>)) -> Seq<char> {
    match pick_name(names.0, names.1, names.2) {
        Some(n) => n,
        None => "User "@ + user_id,
    }
}

/// The label and its lowercase form indexed for a member.
pub fn fts_label(user_id: &str, names: &StoredNames) -> (r: (String, String))
    ensures
        r.0@ == fts_label_text(user_id@, (opt_chars(names.0), opt_chars(names.1), opt_chars(names.2))),
        r.1@ == lowercase_text(r.0@),
{
    let label = match pick_stored_name(names) {
        Some(n) => n,
        None => {
            let mut s = string_of("User ");
            push_str(&mut s, user_id);
            s
        },
    };
    let norm = to_lowercase(label.as_str());
    (label, norm)
}

// ── Autocomplete queries ─────────────────────────────────────────────────────

/// The characters kept in a full-text query: alphanumerics, whitespace and
/// underscores (others are full-text operators).
pub open spec fn query_char(c: char) -> bool {
    unicode_alphanumeric(c) || is_white_space(c) || c == '_'
}

/// `s` with every character but query characters dropped.
pub open spec fn query_chars(s: Seq<char>) -> Seq<char>
    decreases s.len(),
{
    if s.len() == 0 {
        s
    } else if query_char(s.last()) {
        query_chars(s.drop_last()).push(s.last())
    } else {
        query_chars(s.drop_last())
    }
}

/// A sanitized query holds only alphanumerics, whitespace and underscores,
/// so no full-text operator reaches the index.
pub proof fn lemma_query_chars_allowed(s: Seq<char>)
    ensures
        forall|i: int| 0 <= i < query_chars(s).len() ==> query_char(#[trigger] query_chars(s)[i]),
    decreases s.len(),
{
    if s.len() > 0 {
        lemma_query_chars_allowed(s.drop_last());
        let p = query_chars(s.drop_last());
        if query_char(s.last()) {
            assert forall|i: int| 0 <= i < query_chars(s).len() implies query_char(#[trigger] query_chars(s)[i]) by {
                if i < p.len() {
                    assert(query_chars(s)[i] == p[i]);
                }
            }
        }
    }
}

/// The full-text match expression for a sanitized query `q`.
pub open spec fn fts_match_text(q: Seq<char>) -> Seq<char> {
    "label_norm:"@ + q + "* OR account_username:"@ + q + "* OR server_nickname:"@ + q + "*"@
}

/// How autocomplete input is looked up.
#[derive(Debug, Clone, PartialEq, Eq)]
pub enum SearchPlan {
    /// Show the most recent members.
    Recent,
    /// Search the full-text index with `match_expr`, falling back to a
    /// `LIKE` search with `like` where the index cannot be used.
    Text { match_expr: String, like: String },
}

/// The plan for trimmed input `t` whose lowercase form is `lowered`, as
/// text: `None` for recent members, else the match expression and the
/// `LIKE` pattern.
pub open spec fn plan_text_for(t: Seq<char>, lowered: Seq<char>) -> Option<(Seq<char>, Seq<char>)> {
    let q = query_chars(lowered);
    if t.len() == 0 || q.len() == 0 {
        None
    } else {
        Some((fts_match_text(q), "%"@ + t + "%"@))
    }
}

/// The plan for autocomplete input, as text.
pub open spec fn search_plan_text(partial: Seq<char>) -> Option<(Seq<char>, Seq<char>)> {
    plan_text_for(trim_text(partial), lowercase_text(trim_text(partial)))
}

/// The plan's text.
pub open spec fn plan_view(p: SearchPlan) -> Option<(Seq<char>, Seq<char>)> {
    match p {
        SearchPlan::Recent => None,
        SearchPlan::Text { match_expr, like } => Some((match_expr@, like@)),
    }
}

fn sanitize_query(s: &str) -> (r: String)
    ensures
        r@ == query_chars(s@),
{
    let cs = chars_of(s);
    let mut out = String::new();
    let mut i: usize = 0;
    while i < cs.len()
        invariant
            cs@ == s@,
            i <= cs@.len(),
            out@ == query_chars(cs@.subrange(0, i as int)),
        decreases cs@.len() - i,
    {
        let c = cs[i];
        proof {
            let pre = cs@.subrange(0, i + 1);
            assert(pre.drop_last() =~= cs@.subrange(0, i as int));
            assert(pre.last() == c);
        }
        if char_is_alphanumeric(c) || char_is_whitespace(c) || c == '_' {
            push_char(&mut out, c);
        }
        i = i + 1;
    }
    proof {
        assert(cs@.subrange(0, cs@.len() as int) =~= cs@);
    }
    out
}

/// Turn autocomplete input into a lookup: recent members for blank input
/// or input with nothing searchable, else a full-text query on the
/// lowercased, sanitized input and a `LIKE` pattern on the trimmed input.
pub fn search_plan(partial: &str) -> (r: SearchPlan)
    ensures
        plan_view(r) == search_plan_text(partial@),
{
    let trimmed = trim(partial);
    if chars_of(trimmed.as_str()).len() == 0 {
        return SearchPlan::Recent;
    }
    let lower = to_lowercase(trimmed.as_str());
    search_plan_for(trimmed.as_str(), lower.as_str())
}

/// The lookup for trimmed input `trimmed` whose lowercase form is
/// `lowered`.
pub fn search_plan_for(trimmed: &str, lowered: &str) -> (r: SearchPlan)
    ensures
        plan_view(r) == plan_text_for(trimmed@, lowered@),
{
    if chars_of(trimmed).len() == 0 {
        return SearchPlan::Recent;
    }
    let q = sanitize_query(lowered);
    if chars_of(q.as_str()).len() == 0 {
        return SearchPlan::Recent;
    }
    let mut m = string_of("label_norm:");
    push_str(&mut m, q.as_str());
    push_str(&mut m, "* OR account_username:");
    push_str(&mut m, q.as_str());
    push_str(&mut m, "* OR server_nickname:");
    push_str(&mut m, q.as_str());
    push_str(&mut m, "*");
    let mut like = string_of("%");
    push_str(&mut like, trimmed);
    push_str(&mut like, "%");
    proof {
        assert(m@ =~= fts_match_text(q@));
        assert(like@ =~= "%"@ + trimmed@ + "%"@);
    }
    SearchPlan::Text { match_expr: m, like }
}

/// A full-text failure that the `LIKE` search stands in for: the index
/// module is missing, or the query did not parse.
pub open spec fn fts_fallback_text(msg: Seq<char>) -> bool {
    contains_text(msg, "no such module: fts5"@) || contains_text(msg, "malformed MATCH"@)
}

/// Whether a full-text query error (its message) should fall back to the
/// `LIKE` search rather than fail.
pub fn fts_error_falls_back(msg: &str) -> (r: bool)
    ensures
        r == fts_fallback_text(msg@),
{
    contains(msg, "no such module: fts5") || contains(msg, "malformed MATCH")
}

} // verus!
