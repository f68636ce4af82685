//! Mention editing when users depart.
//!
//! When a user leaves, embeds that reference them via `<@user_id>` are edited
//! to replace the broken mention with their display name. Only specific parts
//! are targeted based on the embed type: the description and the `Invite`
//! field of join embeds, the `Invite` and `By` fields of departure embeds.

use vstd::prelude::*;

use crate::services::embeds::{field_view, EmbedField, FieldView};
use crate::services::messages::{BotMessageRow, MessageType};
use crate::text::{
    contains_text, lemma_replace_removes, occurs_at, parse_u64, parse_u64_spec, push_str, replace_all, replace_spec,
    str_eq, string_of,
};

verus! {

/// The mention of a user: `<@ID>`.
pub open spec fn mention_pattern_text(user_id: Seq<char>) -> Seq<char> {
    "<@"@ + user_id + ">"@
}

/// What a departed user's mention becomes: `*NAME*`.
pub open spec fn name_replacement_text(display_name: Seq<char>) -> Seq<char> {
    "*"@ + display_name + "*"@
}

/// The mention of `user_id`, as it appears in embeds.
pub fn mention_pattern(user_id: &str) -> (r: String)
    ensures
        r@ == mention_pattern_text(user_id@),
        r@.len() > 0,
{
    let mut s = string_of("<@");
    push_str(&mut s, user_id);
    push_str(&mut s, ">");
    proof {
        assert(s@ =~= mention_pattern_text(user_id@));
        reveal_strlit("<@");
        assert(s@[0] == '<');
    }
    s
}

/// The text a departed user's mention is replaced by.
pub fn name_replacement(display_name: &str) -> (r: String)
    ensures
        r@ == name_replacement_text(display_name@),
{
    let mut s = string_of("*");
    push_str(&mut s, display_name);
    push_str(&mut s, "*");
    proof {
        assert(s@ =~= name_replacement_text(display_name@));
    }
    s
}

/// A field after the edit: a field whose name is one of `targets` has
/// every `pat` in its value replaced by `rep`; other fields stay as they
/// are.
pub open spec fn edited_field(f: FieldView, targets: Seq<Seq<char>>, pat: Seq<char>, rep: Seq<char>) -> FieldView {
    if targets.contains(f.0) {
        (f.0, replace_spec(f.1, pat, rep), f.2)
    } else {
        f
    }
}

/// `after` is `before` with each field edited.
pub open spec fn fields_edited(
    after: Seq<EmbedField>,
    before: Seq<EmbedField>,
    targets: Seq<Seq<char>>,
    pat: Seq<char>,
    rep: Seq<char>,
) -> bool {
    &&& after.len() == before.len()
    &&& forall|i: int|
        0 <= i < before.len() ==> field_view(#[trigger] after[i]) == edited_field(
            field_view(before[i]),
            targets,
            pat,
            rep,
        )
}

/// The fields edited in join embeds.
pub open spec fn join_targets() -> Seq<Seq<char>> {
    seq!["Invite"@]
}

/// The fields edited in departure embeds.
pub open spec fn departure_targets() -> Seq<Seq<char>> {
    seq!["Invite"@, "By"@]
}

fn copy_field(f: &EmbedField) -> (r: EmbedField)
    ensures
        field_view(r) == field_view(*f),
{
    EmbedField { name: string_of(f.name.as_str()), value: string_of(f.value.as_str()), inline: f.inline }
}

fn edit_fields(fields: &Vec<EmbedField>, with_by: bool, pat: &str, rep: &str) -> (r: Vec<EmbedField>)
    ensures
        fields_edited(r@, fields@, if with_by { departure_targets() } else { join_targets() }, pat@, rep@),
{
    let ghost targets = if with_by { departure_targets() } else { join_targets() };
    let mut out: Vec<EmbedField> = Vec::new();
    let mut i: usize = 0;
    while i < fields.len()
        invariant
            i <= fields@.len(),
            targets == (if with_by { departure_targets() } else { join_targets() }),
            out@.len() == i,
            forall|k: int|
                0 <= k < i ==> field_view(#[trigger] out@[k]) == edited_field(
                    field_view(fields@[k]),
                    targets,
                    pat@,
                    rep@,
                ),
        decreases fields@.len() - i,
    {
        let f = &fields[i];
        let is_invite = str_eq(f.name.as_str(), "Invite");
        let is_by = str_eq(f.name.as_str(), "By");
        let hit = is_invite || (with_by && is_by);
        proof {
            let t = targets;
            if with_by {
                if t.contains(f.name@) {
                    let k = choose|k: int| 0 <= k < t.len() && t[k] == f.name@;
                    assert(k == 0 || k == 1);
                }
                if is_invite {
                    assert(t[0] == f.name@);
                }
                if is_by {
                    assert(t[1] == f.name@);
                }
            } else {
                if t.contains(f.name@) {
                    let k = choose|k: int| 0 <= k < t.len() && t[k] == f.name@;
                    assert(k == 0);
                }
                if is_invite {
                    assert(t[0] == f.name@);
                }
            }
            assert(hit == t.contains(f.name@));
        }
        let g = if hit {
            EmbedField {
                name: string_of(f.name.as_str()),
                value: replace_all(f.value.as_str(), pat, rep),
                inline: f.inline,
            }
        } else {
            copy_field(f)
        };
        out.push(g);
        i = i + 1;
    }
    out
}

/// A join embed after its departed member's mentions are replaced: in the
/// description and in the `Invite` field.
pub fn edit_join_embed(
    description: &Option<String>,
    fields: &Vec<EmbedField>,
    pattern: &str,
    replacement: &str,
) -> (r: (Option<String>, Vec<EmbedField>))
    ensures
        match *description {
            Some(d) => r.0 is Some && r.0->0@ == replace_spec(d@, pattern@, replacement@),
            None => r.0 is None,
        },
        fields_edited(r.1@, fields@, join_targets(), pattern@, replacement@),
{
    let d = match description {
        Some(d) => Some(replace_all(d.as_str(), pattern, replacement)),
        None => None,
    };
    (d, edit_fields(fields, false, pattern, replacement))
}

/// A departure embed after mentions of a departed user are replaced: in the
/// `Invite` and `By` fields only.
pub fn edit_departure_embed(fields: &Vec<EmbedField>, pattern: &str, replacement: &str) -> (r: Vec<EmbedField>)
    ensures
        fields_edited(r@, fields@, departure_targets(), pattern@, replacement@),
{
    edit_fields(fields, true, pattern, replacement)
}

/// Once a departed user's mentions are replaced by their name, the text no
/// longer mentions them: this holds whenever the user id has no `*` and the
/// name does not itself contain the mention.
pub proof fn lemma_departed_mention_removed(s: Seq<char>, user_id: Seq<char>, display_name: Seq<char>)
    requires
        !user_id.contains('*'),
        !contains_text(display_name, mention_pattern_text(user_id)),
    ensures
        !contains_text(
            replace_spec(s, mention_pattern_text(user_id), name_replacement_text(display_name)),
            mention_pattern_text(user_id),
        ),
{
    let pat = mention_pattern_text(user_id);
    let rep = name_replacement_text(display_name);
    reveal_strlit("<@");
    reveal_strlit(">");
    reveal_strlit("*");
    assert(pat.len() == user_id.len() + 3);
    assert(rep.len() == display_name.len() + 2);
    assert(rep[0] == '*');
    assert(rep.last() == '*');
    assert(!pat.contains('*')) by {
        if pat.contains('*') {
            let k = choose|k: int| 0 <= k < pat.len() && pat[k] == '*';
            if k >= 2 && k < pat.len() - 1 {
                assert(pat[k] == user_id[k - 2]);
            }
        }
    }
    assert(!contains_text(rep, pat)) by {
        if contains_text(rep, pat) {
            let i = choose|i: int| occurs_at(rep, pat, i);
            let w = rep.subrange(i, i + pat.len());
            if i == 0 {
                assert(w[0] == rep[0]);
                assert(pat[0] == '*');
            } else if i + pat.len() == rep.len() {
                assert(w[pat.len() - 1] == rep.last());
                assert(pat[pat.len() - 1] == '*');
            } else {
                assert(display_name.subrange(i - 1, i - 1 + pat.len()) =~= w);
                assert(occurs_at(display_name, pat, i - 1));
            }
        }
    }
    lemma_replace_removes(s, pat, rep);
}

/// In an edited embed, no targeted field mentions the departed user any
/// more (under the conditions of `lemma_departed_mention_removed`).
pub proof fn lemma_edited_fields_drop_mention(
    after: Seq<EmbedField>,
    before: Seq<EmbedField>,
    targets: Seq<Seq<char>>,
    user_id: Seq<char>,
    display_name: Seq<char>,
    i: int,
)
    requires
        fields_edited(after, before, targets, mention_pattern_text(user_id), name_replacement_text(display_name)),
        0 <= i < after.len(),
        targets.contains(after[i].name@),
        !user_id.contains('*'),
        !contains_text(display_name, mention_pattern_text(user_id)),
    ensures
        !contains_text(after[i].value@, mention_pattern_text(user_id)),
{
    assert(field_view(after[i]) == edited_field(
        field_view(before[i]),
        targets,
        mention_pattern_text(user_id),
        name_replacement_text(display_name),
    ));
    lemma_departed_mention_removed(before[i].value@, user_id, display_name);
}

/// The pause after editing the `i`-th embed (newest first): 300 ms for the
/// first five, 800 ms up to the fifteenth, 2 s after that.
pub open spec fn edit_delay(i: int) -> u64 {
    if i <= 4 {
        300
    } else if i <= 14 {
        800
    } else {
        2000
    }
}

/// How long to wait after editing the `i`-th embed.
pub fn edit_delay_ms(i: usize) -> (r: u64)
    ensures
        r == edit_delay(i as int),
{
    if i <= 4 {
        300
    } else if i <= 14 {
        800
    } else {
        2000
    }
}

/// A recorded embed to edit: where it is, and whether it is a join embed
/// (else a departure embed).
#[derive(Debug, Clone, Copy, PartialEq, Eq)]
pub struct MentionEdit {
    pub channel_id: u64,
    pub message_id: u64,
    pub join_embed: bool,
}

/// The edit for a recorded embed: none when its channel or message id does
/// not parse.
pub open spec fn mention_edit_of(row: BotMessageRow) -> Option<MentionEdit> {
    match (parse_u64_spec(row.channel_id@), parse_u64_spec(row.message_id@)) {
        (Some(c), Some(m)) => Some(MentionEdit { channel_id: c, message_id: m, join_embed: row.message_type == MessageType::Join }),
        _ => None,
    }
}

/// Where and how to edit a recorded embed that mentions a departed user.
pub fn mention_edit_target(row: &BotMessageRow) -> (r: Option<MentionEdit>)
    ensures
        r == mention_edit_of(*row),
{
    let c = parse_u64(row.channel_id.as_str());
    let m = parse_u64(row.message_id.as_str());
    match (c, m) {
        (Some(c), Some(m)) => {
            let join_embed = match row.message_type {
                MessageType::Join => true,
                _ => false,
            };
            Some(MentionEdit { channel_id: c, message_id: m, join_embed })
        },
        _ => None,
    }
}

/// The kind of edit follows the recorded type alone: a join embed is
/// edited as a join embed, and every departure embed (leave, kick or ban) as
/// a departure embed, whose edited fields include `By` as well as `Invite`.
pub proof fn lemma_edit_kind_follows_type(row: BotMessageRow)
    ensures
        mention_edit_of(row) matches Some(e) ==> (e.join_embed <==> row.message_type == MessageType::Join),
        (row.message_type == MessageType::Leave || row.message_type == MessageType::Kick
            || row.message_type == MessageType::Ban) ==> (mention_edit_of(row) matches Some(e) ==> !e.join_embed),
        departure_targets().contains("By"@),
        departure_targets().contains("Invite"@),
        join_targets().contains("Invite"@),
{
    assert(departure_targets()[1] == "By"@);
    assert(departure_targets()[0] == "Invite"@);
    assert(join_targets()[0] == "Invite"@);
}

} // verus!
