//! Dividing the catalogue by channel loses nothing and doubles nothing.

use vstd::prelude::*;
use crate::catalogue::{
    channel_entries, entry_refs, has_channel, has_group, in_channel, is_channel_list, is_grouping,
};
use crate::record::CatalogueEntry;
use crate::seasons::{
    is_seasons_of, lemma_seasons_keep_the_channel, season_videos, SeasonedStructure,
};
use crate::seqs::{lemma_filter_empty, lemma_filter_push};

verus! {

/// Whether `name` is one of `names`.
pub open spec fn is_listed(names: Seq<Seq<char>>, name: Seq<char>) -> bool {
    exists|g: int| 0 <= g < names.len() && #[trigger] names[g] == name
}

/// The entries `s` divided by channel: for each of `names` the entries of
/// that channel, in the order of `s`.
pub open spec fn parts<'a>(s: Seq<&'a CatalogueEntry>, names: Seq<Seq<char>>) -> Seq<
    Seq<&'a CatalogueEntry>,
> {
    Seq::new(names.len(), |g: int| s.filter(in_channel(names[g])))
}

/// The entries of each of `groups`.
pub open spec fn group_entries<'a>(groups: Seq<(String, Vec<&'a CatalogueEntry>)>) -> Seq<
    Seq<&'a CatalogueEntry>,
> {
    groups.map_values(|g: (String, Vec<&'a CatalogueEntry>)| g.1@)
}

/// The videos of each of `channels`, season after season.
pub open spec fn channel_videos<'a>(channels: Seq<SeasonedStructure<'a>>) -> Seq<
    Seq<&'a CatalogueEntry>,
> {
    channels.map_values(|c: SeasonedStructure<'a>| season_videos(c.seasons@).flatten())
}

/// Sequences that are all empty give the empty sequence when put one after
/// the other.
proof fn lemma_flatten_of_empties(p: Seq<Seq<&CatalogueEntry>>)
    requires
        forall|g: int| 0 <= g < p.len() ==> (#[trigger] p[g]).len() == 0,
    ensures
        p.flatten() == Seq::<&CatalogueEntry>::empty(),
    decreases p.len(),
{
    if p.len() > 0 {
        let front = p.drop_last();
        assert(p =~= front.push(p.last()));
        front.lemma_flatten_push(p.last());
        assert forall|g: int| 0 <= g < front.len() implies (#[trigger] front[g]).len() == 0 by {
            assert(front[g] == p[g]);
        }
        lemma_flatten_of_empties(front);
        assert(p.flatten() =~= Seq::<&CatalogueEntry>::empty());
    }
}

/// Where one of several sequences gets one more element at its end, the
/// sequences put one after the other hold that element once more and all
/// else as before.
proof fn lemma_flatten_with_one_more(
    p: Seq<Seq<&CatalogueEntry>>,
    q: Seq<Seq<&CatalogueEntry>>,
    at: int,
    x: &CatalogueEntry,
)
    requires
        p.len() == q.len(),
        0 <= at < p.len(),
        q[at] == p[at].push(x),
        forall|g: int| 0 <= g < p.len() && g != at ==> #[trigger] q[g] == p[g],
    ensures
        q.flatten().to_multiset() == p.flatten().to_multiset().insert(x),
    decreases p.len(),
{
    broadcast use vstd::seq_lib::to_multiset_build, vstd::seq_lib::lemma_multiset_commutative;

    let pf = p.drop_last();
    let qf = q.drop_last();
    assert(p =~= pf.push(p.last()));
    assert(q =~= qf.push(q.last()));
    pf.lemma_flatten_push(p.last());
    qf.lemma_flatten_push(q.last());
    if at == p.len() - 1 {
        assert(qf =~= pf) by {
            assert forall|g: int| 0 <= g < pf.len() implies qf[g] == pf[g] by {
                assert(q[g] == p[g]);
            }
        }
        assert(q.flatten() =~= p.flatten().push(x));
    } else {
        assert(q.last() == p.last()) by {
            assert(q[p.len() - 1] == p[p.len() - 1]);
        }
        assert forall|g: int| 0 <= g < pf.len() && g != at implies #[trigger] qf[g] == pf[g] by {
            assert(q[g] == p[g]);
        }
        lemma_flatten_with_one_more(pf, qf, at, x);
        assert(q.flatten().to_multiset() =~= p.flatten().to_multiset().insert(x));
    }
}

/// Sequences that hold the same elements equally often, pair by pair, hold
/// the same elements equally often when put one after the other.
proof fn lemma_flatten_of_rearranged(p: Seq<Seq<&CatalogueEntry>>, q: Seq<Seq<&CatalogueEntry>>)
    requires
        p.len() == q.len(),
        forall|g: int| 0 <= g < p.len() ==> (#[trigger] q[g]).to_multiset() == p[g].to_multiset(),
    ensures
        q.flatten().to_multiset() == p.flatten().to_multiset(),
    decreases p.len(),
{
    broadcast use vstd::seq_lib::lemma_multiset_commutative;

    if p.len() > 0 {
        let pf = p.drop_last();
        let qf = q.drop_last();
        assert(p =~= pf.push(p.last()));
        assert(q =~= qf.push(q.last()));
        pf.lemma_flatten_push(p.last());
        qf.lemma_flatten_push(q.last());
        assert forall|g: int| 0 <= g < pf.len() implies (#[trigger] qf[g]).to_multiset()
            == pf[g].to_multiset() by {
            assert(q[g].to_multiset() == p[g].to_multiset());
        }
        lemma_flatten_of_rearranged(pf, qf);
        assert(q[p.len() - 1].to_multiset() == p[p.len() - 1].to_multiset());
    } else {
        assert(q =~= p);
    }
}

/// Entries divided by channel, under names of which no two are equal and
/// among which the channel of every entry is found, are a partition: the
/// parts together hold every entry as often as it was given.
pub proof fn lemma_parts_partition(s: Seq<&CatalogueEntry>, names: Seq<Seq<char>>)
    requires
        forall|g: int, h: int| 0 <= g < h < names.len() ==> names[g] != names[h],
        forall|i: int| 0 <= i < s.len() ==> is_listed(names, (#[trigger] s[i]).json.channel@),
    ensures
        parts(s, names).flatten().to_multiset() == s.to_multiset(),
    decreases s.len(),
{
    broadcast use vstd::seq_lib::to_multiset_build;

    if s.len() == 0 {
        assert forall|g: int| 0 <= g < names.len() implies (#[trigger] parts(s, names)[g]).len()
            == 0 by {
            lemma_filter_empty(in_channel(names[g]));
            assert(s =~= Seq::<&CatalogueEntry>::empty());
        }
        lemma_flatten_of_empties(parts(s, names));
        assert(s =~= parts(s, names).flatten());
    } else {
        let t = s.drop_last();
        let x = s.last();
        assert(s =~= t.push(x));
        assert forall|i: int| 0 <= i < t.len() implies is_listed(
            names,
            (#[trigger] t[i]).json.channel@,
        ) by {
            assert(t[i] == s[i]);
        }
        lemma_parts_partition(t, names);
        assert(is_listed(names, s[s.len() - 1].json.channel@));
        let at = choose|g: int| 0 <= g < names.len() && #[trigger] names[g] == x.json.channel@;
        let p = parts(t, names);
        let q = parts(s, names);
        assert forall|g: int| 0 <= g < p.len() implies #[trigger] q[g] == (if g == at {
            p[g].push(x)
        } else {
            p[g]
        }) by {
            lemma_filter_push(t, in_channel(names[g]), x);
            if g != at {
                if g < at {
                    assert(names[g] != names[at]);
                } else {
                    assert(names[at] != names[g]);
                }
            }
        }
        lemma_flatten_with_one_more(p, q, at, x);
    }
}

/// The groups of a division by channel, put one after the other, hold every
/// entry of the catalogue, each as often as the catalogue holds it: no entry
/// is lost and none is doubled.
pub proof fn lemma_groups_partition_the_catalogue(
    raw: Seq<CatalogueEntry>,
    groups: Seq<(String, Vec<&CatalogueEntry>)>,
)
    requires
        is_grouping(raw, groups),
    ensures
        group_entries(groups).flatten().to_multiset() == entry_refs(raw).to_multiset(),
{
    let names = Seq::new(groups.len(), |g: int| groups[g].0@);
    let s = entry_refs(raw);
    assert forall|i: int| 0 <= i < s.len() implies is_listed(
        names,
        (#[trigger] s[i]).json.channel@,
    ) by {
        assert(has_group(groups, raw[i].json.channel@));
        let g = choose|g: int|
            0 <= g < groups.len() && (#[trigger] groups[g]).0@ == raw[i].json.channel@;
        assert(names[g] == raw[i].json.channel@);
    }
    assert forall|g: int, h: int| 0 <= g < h < names.len() implies names[g] != names[h] by {
        assert(groups[g].0@ != groups[h].0@);
    }
    lemma_parts_partition(s, names);
    assert(group_entries(groups) =~= parts(s, names)) by {
        assert forall|g: int| 0 <= g < groups.len() implies group_entries(groups)[g] == parts(
            s,
            names,
        )[g] by {
            assert(groups[g].1@ == channel_entries(raw, groups[g].0@));
        }
    }
}

/// The videos of all seasons of all channels together are the entries of the
/// catalogue, each as often as the catalogue holds it.
pub proof fn lemma_channels_partition_the_catalogue(
    raw: Seq<CatalogueEntry>,
    channels: Seq<SeasonedStructure>,
)
    requires
        is_channel_list(raw, channels),
    ensures
        channel_videos(channels).flatten().to_multiset() == entry_refs(raw).to_multiset(),
{
    let names = Seq::new(channels.len(), |c: int| channels[c].channel_name@);
    let s = entry_refs(raw);
    assert forall|i: int| 0 <= i < s.len() implies is_listed(
        names,
        (#[trigger] s[i]).json.channel@,
    ) by {
        assert(has_channel(channels, raw[i].json.channel@));
        let c = choose|c: int|
            0 <= c < channels.len() && (#[trigger] channels[c]).channel_name@
                == raw[i].json.channel@;
        assert(names[c] == raw[i].json.channel@);
    }
    assert forall|g: int, h: int| 0 <= g < h < names.len() implies names[g] != names[h] by {
        assert(channels[g].channel_name@ != channels[h].channel_name@);
    }
    lemma_parts_partition(s, names);
    let p = parts(s, names);
    let q = channel_videos(channels);
    assert forall|c: int| 0 <= c < p.len() implies (#[trigger] q[c]).to_multiset()
        == p[c].to_multiset() by {
        assert(is_seasons_of(
            channel_entries(raw, channels[c].channel_name@),
            channels[c].seasons@,
        ));
        lemma_seasons_keep_the_channel(
            channel_entries(raw, channels[c].channel_name@),
            channels[c].seasons@,
        );
    }
    lemma_flatten_of_rearranged(p, q);
}

} // verus!
