//! Owner-only cross-guild statistics: how many guilds allow each feature.

use vstd::prelude::*;

use crate::permissions::{check_features, feature_table, granted, Feature};
use crate::text::push_char;

verus! {

/// Width of the text progress bar, in cells.
pub const PROGRESS_BAR_WIDTH: u64 = 10;

/// `n` copies of `c`.
pub open spec fn repeat(c: char, n: nat) -> Seq<char>
    decreases n,
{
    if n == 0 {
        Seq::empty()
    } else {
        repeat(c, (n - 1) as nat).push(c)
    }
}

/// The number of filled cells: `value / max` of the width, rounded to the
/// nearest cell with halves rounded up; none when `max` is zero.
pub open spec fn filled_cells(value: nat, max: nat) -> nat {
    if max > 0 {
        (20 * value + max) / (2 * max)
    } else {
        0
    }
}

/// Filled cells then empty cells, ten in all.
pub open spec fn progress_bar_text(value: nat, max: nat) -> Seq<char> {
    repeat('\u{2588}', filled_cells(value, max)) + repeat(
        '\u{2591}',
        (10 - filled_cells(value, max)) as nat,
    )
}

fn push_repeat(s: &mut String, c: char, n: u64)
    ensures
        final(s)@ == old(s)@ + repeat(c, n as nat),
{
    let mut i: u64 = 0;
    while i < n
        invariant
            i <= n,
            s@ == old(s)@ + repeat(c, i as nat),
        decreases n - i,
    {
        push_char(s, c);
        proof {
            assert(old(s)@ + repeat(c, (i + 1) as nat) =~= (old(s)@ + repeat(c, i as nat)).push(c));
        }
        i = i + 1;
    }
}

/// Simple text progress bar.
pub fn progress_bar(value: u64, max: u64) -> (r: String)
    requires
        filled_cells(value as nat, max as nat) <= 10,
    ensures
        r@ == progress_bar_text(value as nat, max as nat),
{
    let filled: u64 = if max > 0 {
        ((20 * (value as u128) + (max as u128)) / (2 * (max as u128))) as u64
    } else {
        0
    };
    let empty = PROGRESS_BAR_WIDTH - filled;
    let mut s = String::new();
    push_repeat(&mut s, '\u{2588}', filled);
    push_repeat(&mut s, '\u{2591}', empty);
    proof {
        assert(s@ =~= progress_bar_text(value as nat, max as nat));
    }
    s
}

/// How many of the guilds with known permissions allow feature `i`.
pub open spec fn count_available(perms: Seq<Option<u64>>, i: int) -> nat
    decreases perms.len(),
{
    if perms.len() == 0 {
        0
    } else {
        count_available(perms.drop_last(), i) + match perms.last() {
            Some(p) => if feature_available(p, i) { 1nat } else { 0nat },
            None => 0nat,
        }
    }
}

/// How many guilds have known permissions.
pub open spec fn count_known(perms: Seq<Option<u64>>) -> nat
    decreases perms.len(),
{
    if perms.len() == 0 {
        0
    } else {
        count_known(perms.drop_last()) + if perms.last() is Some { 1nat } else { 0nat }
    }
}

/// Feature `i` of the table is available under `perms`.
pub open spec fn feature_available(perms: u64, i: int) -> bool {
    forall|k: int|
        0 <= k < feature_table()[i].2.len() ==> granted(perms, #[trigger] feature_table()[i].2[k].0)
}

/// Feature counts across guilds, as the feature-availability report shows
/// them: the number of guilds whose permissions are known, and for each
/// feature, in table order, its name and the number of those guilds that
/// allow it. Guilds whose permissions are unknown (`None`) are skipped.
pub fn tally_features(perms_per_guild: &[Option<u64>]) -> (r: (u64, Vec<(&'static str, u64)>))
    requires
        perms_per_guild@.len() <= u64::MAX,
    ensures
        r.0 as nat == count_known(perms_per_guild@),
        r.0 > 0 ==> r.1@.len() == feature_table().len(),
        r.0 == 0 ==> r.1@.len() == 0,
        forall|i: int|
            0 <= i < r.1@.len() ==> (#[trigger] r.1@[i]).0@ == feature_table()[i].0 && r.1@[i].1 as nat
                == count_available(perms_per_guild@, i),
{
    let mut guild_count: u64 = 0;
    let mut counts: Vec<(&'static str, u64)> = Vec::new();
    let mut i: usize = 0;
    let ghost ps = perms_per_guild@;
    while i < perms_per_guild.len()
        invariant
            ps == perms_per_guild@,
            ps.len() <= u64::MAX,
            i <= ps.len(),
            guild_count as nat == count_known(ps.subrange(0, i as int)),
            guild_count <= i,
            guild_count > 0 ==> counts@.len() == feature_table().len(),
            guild_count == 0 ==> counts@.len() == 0,
            forall|k: int|
                0 <= k < counts@.len() ==> (#[trigger] counts@[k]).0@ == feature_table()[k].0
                    && counts@[k].1 as nat == count_available(ps.subrange(0, i as int), k),
            forall|k: int| 0 <= k < counts@.len() ==> (#[trigger] counts@[k]).1 <= i,
        decreases ps.len() - i,
    {
        let ghost pre = ps.subrange(0, i as int);
        let ghost post = ps.subrange(0, i + 1);
        proof {
            assert(post.drop_last() =~= pre);
            assert(post.last() == ps[i as int]);
        }
        match perms_per_guild[i] {
            Some(p) => {
                let features = check_features(p);
                proof {
                    assert forall|k: int| 0 <= k < features@.len() implies (#[trigger] features@[k]).available
                        == feature_available(p, k) by {
                        let f = features@[k];
                        let req = feature_table()[k].2;
                        if f.available {
                        } else {
                            let m = choose|m: int| 0 <= m < req.len() && !granted(p, #[trigger] req[m].0);
                        }
                    }
                }
                if guild_count == 0 {
                    let mut j: usize = 0;
                    while j < features.len()
                        invariant
                            j <= features@.len(),
                            features@.len() == feature_table().len(),
                            counts@.len() == j,
                            forall|k: int|
                                0 <= k < features@.len() ==> (#[trigger] features@[k]).available
                                    == feature_available(p, k),
                            forall|k: int|
                                0 <= k < features@.len() ==> (#[trigger] features@[k]).name@
                                    == feature_table()[k].0,
                            forall|k: int|
                                0 <= k < j ==> (#[trigger] counts@[k]).0@ == feature_table()[k].0
                                    && counts@[k].1 == (if feature_available(p, k) { 1u64 } else { 0u64 }),
                        decreases features@.len() - j,
                    {
                        let c: u64 = if features[j].available { 1 } else { 0 };
                        counts.push((features[j].name, c));
                        j = j + 1;
                    }
                    proof {
                        assert forall|k: int| 0 <= k < counts@.len() implies counts@[k].1 as nat
                            == count_available(post, k) by {
                            assert(count_available(pre, k) == 0) by {
                                lemma_no_known_no_available(pre, k);
                            }
                        }
                    }
                } else {
                    let mut j: usize = 0;
                    let ghost before = counts@;
                    while j < features.len()
                        invariant
                            j <= features@.len(),
                            features@.len() == feature_table().len(),
                            counts@.len() == before.len(),
                            before.len() == feature_table().len(),
                            forall|k: int|
                                0 <= k < features@.len() ==> (#[trigger] features@[k]).available
                                    == feature_available(p, k),
                            forall|k: int| 0 <= k < before.len() ==> (#[trigger] before[k]).1 <= i,
                            i < u64::MAX,
                            forall|k: int|
                                0 <= k < counts@.len() ==> (#[trigger] counts@[k]).0 == before[k].0,
                            forall|k: int|
                                0 <= k < j ==> (#[trigger] counts@[k]).1 == before[k].1 + (if feature_available(
                                    p,
                                    k,
                                ) { 1u64 } else { 0u64 }),
                            forall|k: int| j <= k < counts@.len() ==> (#[trigger] counts@[k]).1 == before[k].1,
                        decreases features@.len() - j,
                    {
                        if features[j].available {
                            let (name, c) = counts[j];
                            counts.set(j, (name, c + 1));
                        }
                        j = j + 1;
                    }
                }
                guild_count = guild_count + 1;
            },
            None => {},
        }
        i = i + 1;
    }
    proof {
        assert(ps.subrange(0, ps.len() as int) =~= ps);
    }
    (guild_count, counts)
}

proof fn lemma_no_known_no_available(perms: Seq<Option<u64>>, i: int)
    requires
        count_known(perms) == 0,
    ensures
        count_available(perms, i) == 0,
    decreases perms.len(),
{
    if perms.len() > 0 {
        lemma_no_known_no_available(perms.drop_last(), i);
    }
}

} // verus!
