//! Locating resources across an ordered list of prefixes.
//!
//! A resource of type `T` named `N` is registered under a prefix `P` as the
//! regular file `P/share/ament_index/resource_index/T/N`. Scanning the index
//! directories of all prefixes, in order, yields a stream of
//! `(resource_name, prefix)` pairs; every aggregation offered here is a pure
//! function of that stream.
use vstd::prelude::*;

verus! {

/// The views of a list of prefix strings.
pub open spec fn prefix_views(prefixes: Seq<String>) -> Seq<Seq<char>> {
    prefixes.map_values(|p: String| p@)
}

/// A resource name is hidden when it starts with `.`; hidden entries are
/// never reported as resources.
pub open spec fn is_hidden_name(name: Seq<char>) -> bool {
    name.len() > 0 && name[0] == '.'
}

/// The directory holding the resources of `resource_type` under `prefix`.
/// An empty prefix gives the relative `share/ament_index/...` path, as
/// joining path components does.
pub open spec fn index_dir_view(prefix: Seq<char>, resource_type: Seq<char>) -> Seq<char> {
    if prefix.len() == 0 {
        "share/ament_index/resource_index/"@ + resource_type
    } else {
        prefix + "/"@ + "share/ament_index/resource_index/"@ + resource_type
    }
}

/// The file registering the resource `resource_name` of `resource_type`
/// under `prefix`.
pub open spec fn resource_file_view(
    prefix: Seq<char>,
    resource_type: Seq<char>,
    resource_name: Seq<char>,
) -> Seq<char> {
    index_dir_view(prefix, resource_type) + "/"@ + resource_name
}

/// The names carried by a stream of `(resource_name, prefix)` pairs.
pub open spec fn names_of(stream: Seq<(String, String)>) -> Seq<Seq<char>> {
    stream.map_values(|e: (String, String)| e.0@)
}

/// The prefixes under which `name` occurs in the stream, in stream order,
/// duplicates retained.
pub open spec fn prefixes_of(stream: Seq<(String, String)>, name: Seq<char>) -> Seq<Seq<char>>
    decreases stream.len(),
{
    if stream.len() == 0 {
        Seq::empty()
    } else {
        let rest = prefixes_of(stream.drop_last(), name);
        if stream.last().0@ == name {
            rest.push(stream.last().1@)
        } else {
            rest
        }
    }
}

/// The distinct resource names of the stream, in first-occurrence order.
pub open spec fn first_seen_names(stream: Seq<(String, String)>) -> Seq<Seq<char>>
    decreases stream.len(),
{
    if stream.len() == 0 {
        Seq::empty()
    } else {
        let rest = first_seen_names(stream.drop_last());
        if rest.contains(stream.last().0@) {
            rest
        } else {
            rest.push(stream.last().0@)
        }
    }
}

/// The first-occurrence name order carries a name if and only if the name
/// has at least one prefix in the stream.
pub proof fn lemma_first_seen_names_complete(stream: Seq<(String, String)>)
    ensures
        forall|name: Seq<char>|
            first_seen_names(stream).contains(name) <==> prefixes_of(stream, name).len() != 0,
    decreases stream.len(),
{
    if stream.len() > 0 {
        let prior = stream.drop_last();
        let rest = first_seen_names(prior);
        let last_name = stream.last().0@;
        lemma_first_seen_names_complete(prior);
        assert forall|name: Seq<char>|
            first_seen_names(stream).contains(name) <==> prefixes_of(stream, name).len()
                != 0 by {
            if name == last_name {
                assert(prefixes_of(stream, name).len() != 0);
                if rest.contains(name) {
                    assert(first_seen_names(stream).contains(name));
                } else {
                    assert(first_seen_names(stream)[rest.len() as int] == name);
                    assert(first_seen_names(stream).contains(name));
                }
            } else {
                assert(prefixes_of(stream, name) == prefixes_of(prior, name));
                if rest.contains(name) {
                    let i = choose|i: int| 0 <= i < rest.len() && rest[i] == name;
                    assert(first_seen_names(stream)[i] == name);
                    assert(first_seen_names(stream).contains(name));
                } else {
                    if first_seen_names(stream).contains(name) {
                        let i = choose|i: int|
                            0 <= i < first_seen_names(stream).len() && first_seen_names(
                                stream,
                            )[i] == name;
                        if i < rest.len() {
                            assert(rest[i] == name);
                        }
                        assert(false);
                    }
                }
            }
        }
    }
}

/// The first-occurrence name order lists every name once.
pub proof fn lemma_first_seen_names_distinct(stream: Seq<(String, String)>)
    ensures
        first_seen_names(stream).no_duplicates(),
    decreases stream.len(),
{
    if stream.len() > 0 {
        let prior = stream.drop_last();
        let rest = first_seen_names(prior);
        lemma_first_seen_names_distinct(prior);
        if !rest.contains(stream.last().0@) {
            assert forall|i: int, j: int|
                0 <= i < j < first_seen_names(stream).len() implies first_seen_names(stream)[i]
                != first_seen_names(stream)[j] by {
                if j == rest.len() {
                    assert(first_seen_names(stream)[i] == rest[i]);
                }
            }
        }
    }
}

/// Some entry of the stream carries `name` under the prefix `p`.
pub open spec fn stream_has(stream: Seq<(String, String)>, name: Seq<char>, p: Seq<char>) -> bool {
    exists|i: int| 0 <= i < stream.len() && stream[i].0@ == name && stream[i].1@ == p
}

/// Every prefix that `prefixes_of` reports for a name comes from an entry of
/// the stream that carries that name.
pub proof fn lemma_prefixes_of_entries(stream: Seq<(String, String)>, name: Seq<char>)
    ensures
        forall|k: int|
            0 <= k < prefixes_of(stream, name).len() ==> stream_has(
                stream,
                name,
                #[trigger] prefixes_of(stream, name)[k],
            ),
    decreases stream.len(),
{
    if stream.len() > 0 {
        let prior = stream.drop_last();
        lemma_prefixes_of_entries(prior, name);
        assert forall|k: int|
            0 <= k < prefixes_of(stream, name).len() implies stream_has(
            stream,
            name,
            #[trigger] prefixes_of(stream, name)[k],
        ) by {
            if k < prefixes_of(prior, name).len() {
                let p = prefixes_of(prior, name)[k];
                let i = choose|i: int|
                    0 <= i < prior.len() && prior[i].0@ == name && #[trigger] prior[i].1@ == p;
                assert(stream[i] == prior[i]);
                assert(prefixes_of(stream, name)[k] == p);
                assert(0 <= i < stream.len() && stream[i].0@ == name && stream[i].1@ == p);
            } else {
                let w = stream.len() - 1;
                assert(stream[w].0@ == name && stream[w].1@ == prefixes_of(stream, name)[k]);
            }
        }
    }
}

/// True when `name` starts with `.`.
pub(crate) fn is_hidden(name: &String) -> (hidden: bool)
    ensures
        hidden == is_hidden_name(name@),
{
    let s = name.as_str();
    if s.unicode_len() == 0 {
        false
    } else {
        s.get_char(0) == '.'
    }
}

/// Whether some entry of `entries` carries the resource name `name`.
fn contains_name(entries: &Vec<(String, String)>, name: &String) -> (found: bool)
    ensures
        found == names_of(entries@).contains(name@),
{
    let mut i: usize = 0;
    while i < entries.len()
        invariant
            i <= entries@.len(),
            forall|k: int| 0 <= k < i ==> entries@[k].0@ != name@,
        decreases entries@.len() - i,
    {
        if name.eq(&entries[i].0) {
            assert(names_of(entries@)[i as int] == name@);
            return true;
        }
        i = i + 1;
    }
    assert forall|k: int| 0 <= k < names_of(entries@).len() implies names_of(entries@)[k]
        != name@ by {
        assert(names_of(entries@)[k] == entries@[k].0@);
    }
    false
}

proof fn lemma_name_occurs_prefixes_of(stream: Seq<(String, String)>, i: int)
    requires
        0 <= i < stream.len(),
    ensures
        prefixes_of(stream, stream[i].0@).len() != 0,
    decreases stream.len(),
{
    if i < stream.len() - 1 {
        lemma_name_occurs_prefixes_of(stream.drop_last(), i);
        assert(stream.drop_last()[i] == stream[i]);
    }
}

/// Law: the two aggregation forms agree on which resources exist. The names
/// listed by the first-prefix-per-resource aggregation and the names keying
/// the all-prefixes-per-resource aggregation are both `first_seen_names`,
/// and that sequence carries exactly the names occurring in the stream: the
/// two forms can disagree only on the prefixes attached to a name, never on
/// the set of names.
pub proof fn lemma_aggregations_agree_on_names(stream: Seq<(String, String)>)
    ensures
        forall|name: Seq<char>|
            first_seen_names(stream).contains(name) <==> names_of(stream).contains(name),
        first_seen_names(stream).to_set() == names_of(stream).to_set(),
{
    lemma_first_seen_names_complete(stream);
    assert forall|name: Seq<char>|
        first_seen_names(stream).contains(name) <==> names_of(stream).contains(name) by {
        if names_of(stream).contains(name) {
            let i = choose|i: int|
                0 <= i < names_of(stream).len() && names_of(stream)[i] == name;
            assert(stream[i].0@ == name);
            lemma_name_occurs_prefixes_of(stream, i);
        }
        if first_seen_names(stream).contains(name) {
            lemma_prefixes_of_entries(stream, name);
            let p = prefixes_of(stream, name)[0];
            assert(stream_has(stream, name, p));
            let w = choose|w: int|
                0 <= w < stream.len() && stream[w].0@ == name && stream[w].1@ == p;
            assert(names_of(stream)[w] == name);
        }
    }
    assert(first_seen_names(stream).to_set() =~= names_of(stream).to_set());
}

/// Law: a resource occurring in the stream under exactly the prefixes `a`
/// then `b`, in that order, is listed by the aggregations — paired with `a`
/// by the first-prefix form (which reports `prefixes_of[0]`) and with
/// `[a, b]`, in order, by the all-prefixes form (which reports
/// `prefixes_of` whole).
pub proof fn lemma_resource_under_two_prefixes(
    stream: Seq<(String, String)>,
    name: Seq<char>,
    a: Seq<char>,
    b: Seq<char>,
)
    requires
        prefixes_of(stream, name) == seq![a, b],
    ensures
        first_seen_names(stream).contains(name),
        prefixes_of(stream, name)[0] == a,
        prefixes_of(stream, name)[1] == b,
{
    lemma_first_seen_names_complete(stream);
    assert(seq![a, b].len() == 2);
    assert(seq![a, b][0] == a);
    assert(seq![a, b][1] == b);
}

/// The resource names keying a grouped aggregation result.
pub open spec fn group_keys(grouped: Seq<(String, Vec<String>)>) -> Seq<Seq<char>> {
    grouped.map_values(|e: (String, Vec<String>)| e.0@)
}

/// Law: aggregating one stream twice gives one result. Any two values that
/// meet the first-prefix-per-resource contract for the same stream list the
/// same names with the same prefixes: the result is a function of the
/// stream alone, with no hidden state.
pub proof fn lemma_first_per_resource_deterministic(
    stream: Seq<(String, String)>,
    r1: Seq<(String, String)>,
    r2: Seq<(String, String)>,
)
    requires
        names_of(r1) == first_seen_names(stream),
        names_of(r2) == first_seen_names(stream),
        forall|i: int|
            0 <= i < r1.len() ==> (#[trigger] r1[i]).1@ == prefixes_of(stream, r1[i].0@)[0],
        forall|i: int|
            0 <= i < r2.len() ==> (#[trigger] r2[i]).1@ == prefixes_of(stream, r2[i].0@)[0],
    ensures
        r1.len() == r2.len(),
        forall|i: int| 0 <= i < r1.len() ==> (#[trigger] r1[i]).0@ == r2[i].0@ && r1[i].1@ == r2[i].1@,
{
    assert(names_of(r1).len() == r1.len());
    assert(names_of(r2).len() == r2.len());
    assert forall|i: int|
        0 <= i < r1.len() implies (#[trigger] r1[i]).0@ == r2[i].0@ && r1[i].1@ == r2[i].1@ by {
        assert(names_of(r1)[i] == r1[i].0@);
        assert(names_of(r2)[i] == r2[i].0@);
    }
}

/// Law: same as [`lemma_first_per_resource_deterministic`], for the
/// all-prefixes-per-resource aggregation: two values meeting its contract
/// for one stream carry the same names and, name for name, the same prefix
/// lists.
pub proof fn lemma_prefixes_per_resource_deterministic(
    stream: Seq<(String, String)>,
    g1: Seq<(String, Vec<String>)>,
    g2: Seq<(String, Vec<String>)>,
)
    requires
        group_keys(g1) == first_seen_names(stream),
        group_keys(g2) == first_seen_names(stream),
        forall|i: int|
            0 <= i < g1.len() ==> prefix_views(#[trigger] g1[i].1@) == prefixes_of(
                stream,
                g1[i].0@,
            ),
        forall|i: int|
            0 <= i < g2.len() ==> prefix_views(#[trigger] g2[i].1@) == prefixes_of(
                stream,
                g2[i].0@,
            ),
    ensures
        g1.len() == g2.len(),
        forall|i: int|
            0 <= i < g1.len() ==> (#[trigger] g1[i]).0@ == g2[i].0@ && prefix_views(g1[i].1@)
                == prefix_views(g2[i].1@),
{
    assert(group_keys(g1).len() == g1.len());
    assert(group_keys(g2).len() == g2.len());
    assert forall|i: int|
        0 <= i < g1.len() implies (#[trigger] g1[i]).0@ == g2[i].0@ && prefix_views(g1[i].1@)
        == prefix_views(g2[i].1@) by {
        assert(group_keys(g1)[i] == g1[i].0@);
        assert(group_keys(g2)[i] == g2[i].0@);
    }
}

proof fn lemma_prefix_views_push(v: Seq<String>, s: String)
    ensures
        prefix_views(v.push(s)) =~= prefix_views(v).push(s@),
{
}

proof fn lemma_names_of_push(v: Seq<(String, String)>, e: (String, String))
    ensures
        names_of(v.push(e)) =~= names_of(v).push(e.0@),
{
}

proof fn lemma_group_keys_push(v: Seq<(String, Vec<String>)>, e: (String, Vec<String>))
    ensures
        group_keys(v.push(e)) =~= group_keys(v).push(e.0@),
{
}

proof fn lemma_take_step<A>(s: Seq<A>, j: int)
    requires
        0 <= j < s.len(),
    ensures
        s.take(j + 1).drop_last() =~= s.take(j),
        s.take(j + 1).last() == s[j],
        s.take(j + 1).len() == j + 1,
{
}

/// Law: `prefixes_of` distributes over concatenation of streams — what an
/// earlier block of the stream reports for a name comes, in order, before
/// what a later block adds.
pub proof fn lemma_prefixes_of_concat(
    s1: Seq<(String, String)>,
    s2: Seq<(String, String)>,
    name: Seq<char>,
)
    ensures
        prefixes_of(s1 + s2, name) == prefixes_of(s1, name) + prefixes_of(s2, name),
    decreases s2.len(),
{
    if s2.len() == 0 {
        assert(s1 + s2 =~= s1);
        assert(prefixes_of(s1, name) + prefixes_of(s2, name) =~= prefixes_of(s1, name));
    } else {
        lemma_prefixes_of_concat(s1, s2.drop_last(), name);
        assert((s1 + s2).drop_last() =~= s1 + s2.drop_last());
        assert((s1 + s2).last() == s2.last());
        if s2.last().0@ == name {
            assert(prefixes_of(s1, name) + prefixes_of(s2.drop_last(), name).push(s2.last().1@)
                =~= (prefixes_of(s1, name) + prefixes_of(s2.drop_last(), name)).push(
                s2.last().1@,
            ));
        }
    }
}

/// Law: `prefixes_of` splits at any position of the stream — the prefixes
/// reported for a name are those of the part before the position followed
/// by those of the part after it.
pub proof fn lemma_prefixes_of_split(stream: Seq<(String, String)>, name: Seq<char>, m: int)
    requires
        0 <= m <= stream.len(),
    ensures
        prefixes_of(stream, name) == prefixes_of(stream.take(m), name) + prefixes_of(
            stream.skip(m),
            name,
        ),
{
    lemma_prefixes_of_concat(stream.take(m), stream.skip(m), name);
    assert(stream.take(m) + stream.skip(m) =~= stream);
}

/// Law: the first prefix wins. A name already present in an earlier block
/// of the stream keeps that block's first prefix as its first prefix
/// overall, whatever a later block adds.
pub proof fn lemma_first_prefix_from_earlier(
    s1: Seq<(String, String)>,
    s2: Seq<(String, String)>,
    name: Seq<char>,
)
    requires
        prefixes_of(s1, name).len() > 0,
    ensures
        prefixes_of(s1 + s2, name).len() > 0,
        prefixes_of(s1 + s2, name)[0] == prefixes_of(s1, name)[0],
{
    lemma_prefixes_of_concat(s1, s2, name);
}

/// The prefixes under which `resource_name` occurs in `stream`, in stream
/// order, duplicates retained.
pub fn prefixes_of_resource(resource_name: &str, stream: &Vec<(String, String)>) -> (found: Vec<
    String,
>)
    ensures
        prefix_views(found@) == prefixes_of(stream@, resource_name@),
{
    let name: String = resource_name.to_owned();
    let mut found: Vec<String> = Vec::new();
    proof {
        assert(stream@.take(0) =~= Seq::<(String, String)>::empty());
        assert(prefix_views(found@) =~= prefixes_of(stream@.take(0), resource_name@));
    }
    let mut j: usize = 0;
    while j < stream.len()
        invariant
            j <= stream@.len(),
            name@ == resource_name@,
            prefix_views(found@) == prefixes_of(stream@.take(j as int), resource_name@),
        decreases stream@.len() - j,
    {
        proof {
            lemma_take_step(stream@, j as int);
        }
        let ghost pre = found@;
        if name.eq(&stream[j].0) {
            found.push(stream[j].1.clone());
            proof {
                lemma_prefix_views_push(pre, stream@[j as int].1);
            }
        }
        j = j + 1;
    }
    proof {
        assert(stream@.take(stream@.len() as int) =~= stream@);
    }
    found
}

/// One `(resource_name, prefix)` pair per distinct resource name of the
/// stream: the name paired with the first prefix under which it occurs,
/// names kept in first-occurrence order.
pub fn first_per_resource(stream: &Vec<(String, String)>) -> (firsts: Vec<(String, String)>)
    ensures
        names_of(firsts@) == first_seen_names(stream@),
        forall|i: int|
            0 <= i < firsts@.len() ==> (#[trigger] prefixes_of(stream@, firsts@[i].0@)).len() >= 1
                && firsts@[i].1@ == prefixes_of(stream@, firsts@[i].0@)[0],
        forall|i: int| 0 <= i < firsts@.len() ==> stream@.contains(#[trigger] firsts@[i]),
{
    let mut firsts: Vec<(String, String)> = Vec::new();
    proof {
        assert(stream@.take(0) =~= Seq::<(String, String)>::empty());
        assert(names_of(firsts@) =~= first_seen_names(stream@.take(0)));
    }
    let mut j: usize = 0;
    while j < stream.len()
        invariant
            j <= stream@.len(),
            names_of(firsts@) == first_seen_names(stream@.take(j as int)),
            forall|i: int|
                0 <= i < firsts@.len() ==> (#[trigger] prefixes_of(
                    stream@.take(j as int),
                    firsts@[i].0@,
                )).len() >= 1 && firsts@[i].1@ == prefixes_of(stream@.take(j as int), firsts@[i].0@)[0],
            forall|i: int| 0 <= i < firsts@.len() ==> stream@.contains(#[trigger] firsts@[i]),
        decreases stream@.len() - j,
    {
        proof {
            lemma_take_step(stream@, j as int);
        }
        let ghost pre = firsts@;
        let ghost taken = stream@.take(j as int);
        let ghost entry = stream@[j as int];
        let seen = contains_name(&firsts, &stream[j].0);
        if !seen {
            let pair = (stream[j].0.clone(), stream[j].1.clone());
            proof {
                assert(pair == entry);
            }
            firsts.push(pair);
            proof {
                lemma_names_of_push(pre, entry);
                lemma_first_seen_names_complete(taken);
                assert(prefixes_of(taken, entry.0@).len() == 0);
                assert(stream@.contains(entry));
                assert forall|i: int|
                    0 <= i < firsts@.len() implies (#[trigger] prefixes_of(
                    stream@.take(j as int + 1),
                    firsts@[i].0@,
                )).len() >= 1 && firsts@[i].1@ == prefixes_of(
                    stream@.take(j as int + 1),
                    firsts@[i].0@,
                )[0] by {
                    if i < pre.len() {
                        assert(names_of(pre)[i] == pre[i].0@);
                        assert(pre[i].0@ != entry.0@);
                        assert(prefixes_of(stream@.take(j as int + 1), firsts@[i].0@)
                            == prefixes_of(taken, firsts@[i].0@));
                    } else {
                        assert(firsts@[i] == entry);
                        assert(prefixes_of(stream@.take(j as int + 1), entry.0@)
                            == prefixes_of(taken, entry.0@).push(entry.1@));
                    }
                }
            }
        } else {
            proof {
                assert forall|i: int|
                    0 <= i < firsts@.len() implies (#[trigger] prefixes_of(
                    stream@.take(j as int + 1),
                    firsts@[i].0@,
                )).len() >= 1 && firsts@[i].1@ == prefixes_of(
                    stream@.take(j as int + 1),
                    firsts@[i].0@,
                )[0] by {
                    if firsts@[i].0@ == entry.0@ {
                        assert(prefixes_of(stream@.take(j as int + 1), firsts@[i].0@)
                            == prefixes_of(taken, firsts@[i].0@).push(entry.1@));
                    } else {
                        assert(prefixes_of(stream@.take(j as int + 1), firsts@[i].0@)
                            == prefixes_of(taken, firsts@[i].0@));
                    }
                }
            }
        }
        j = j + 1;
    }
    proof {
        assert(stream@.take(stream@.len() as int) =~= stream@);
    }
    firsts
}

/// For each distinct resource name of the stream, in first-occurrence order,
/// the ordered list of all prefixes under which it occurs; a name seen under
/// prefixes `A`, `B`, `A` again keeps all three, in that order.
pub fn prefixes_per_resource(stream: &Vec<(String, String)>) -> (grouped: Vec<(String, Vec<String>)>)
    ensures
        group_keys(grouped@) == first_seen_names(stream@),
        forall|i: int|
            0 <= i < grouped@.len() ==> prefix_views(#[trigger] grouped@[i].1@) == prefixes_of(
                stream@,
                grouped@[i].0@,
            ),
{
    let firsts = first_per_resource(stream);
    let mut grouped: Vec<(String, Vec<String>)> = Vec::new();
    proof {
        assert(group_keys(grouped@) =~= names_of(firsts@).take(0));
    }
    let mut j: usize = 0;
    while j < firsts.len()
        invariant
            j <= firsts@.len(),
            names_of(firsts@) == first_seen_names(stream@),
            group_keys(grouped@) == names_of(firsts@).take(j as int),
            forall|i: int|
                0 <= i < grouped@.len() ==> prefix_views(#[trigger] grouped@[i].1@) == prefixes_of(
                    stream@,
                    grouped@[i].0@,
                ),
        decreases firsts@.len() - j,
    {
        let ghost pre = grouped@;
        let key = firsts[j].0.clone();
        let values = prefixes_of_resource(key.as_str(), stream);
        grouped.push((key, values));
        proof {
            lemma_group_keys_push(pre, grouped@.last());
            assert(names_of(firsts@)[j as int] == firsts@[j as int].0@);
            assert(names_of(firsts@).take(j as int + 1) =~= names_of(firsts@).take(j as int).push(
                names_of(firsts@)[j as int],
            ));
        }
        j = j + 1;
    }
    proof {
        assert(names_of(firsts@).take(firsts@.len() as int) =~= names_of(firsts@));
    }
    grouped
}

/// Joins `prefix` with the conventional index location of `resource_type`.
/// Pure path computation: no existence check is made.
pub fn index_directory(prefix: &str, resource_type: &str) -> (path: String)
    ensures
        path@ == index_dir_view(prefix@, resource_type@),
{
    let mut path = String::new();
    if !prefix.is_empty() {
        path.append(prefix);
        path.append("/");
    }
    path.append("share/ament_index/resource_index/");
    path.append(resource_type);
    path
}

/// The full path of the file that registers `resource_name` of
/// `resource_type` under `prefix`. Pure path computation.
pub fn resource_file_path(prefix: &str, resource_type: &str, resource_name: &str) -> (path:
    String)
    ensures
        path@ == resource_file_view(prefix@, resource_type@, resource_name@),
{
    let mut path = index_directory(prefix, resource_type);
    path.append("/");
    path.append(resource_name);
    path
}

/// The `(resource_name, prefix)` pairs kept from one index directory's
/// entries — each entry being a file name and a regular-file flag: one pair
/// per entry whose flag is set and whose name is not hidden, in directory
/// order, each paired with `prefix`.
pub open spec fn kept_pairs_view(entries: Seq<(String, bool)>, prefix: String) -> Seq<
    (String, String),
>
    decreases entries.len(),
{
    if entries.len() == 0 {
        Seq::empty()
    } else {
        let rest = kept_pairs_view(entries.drop_last(), prefix);
        if entries.last().1 && !is_hidden_name(entries.last().0@) {
            rest.push((entries.last().0, prefix))
        } else {
            rest
        }
    }
}

/// Every kept pair carries a non-hidden name and `prefix` itself.
pub proof fn lemma_kept_pairs_items(entries: Seq<(String, bool)>, prefix: String)
    ensures
        forall|k: int|
            0 <= k < kept_pairs_view(entries, prefix).len() ==> !is_hidden_name(
                (#[trigger] kept_pairs_view(entries, prefix)[k]).0@,
            ) && kept_pairs_view(entries, prefix)[k].1 == prefix,
    decreases entries.len(),
{
    if entries.len() > 0 {
        let prior = entries.drop_last();
        lemma_kept_pairs_items(prior, prefix);
        assert forall|k: int|
            0 <= k < kept_pairs_view(entries, prefix).len() implies !is_hidden_name(
            (#[trigger] kept_pairs_view(entries, prefix)[k]).0@,
        ) && kept_pairs_view(entries, prefix)[k].1 == prefix by {
            if k < kept_pairs_view(prior, prefix).len() {
                assert(kept_pairs_view(entries, prefix)[k] == kept_pairs_view(prior, prefix)[k]);
            } else {
                assert(kept_pairs_view(entries, prefix)[k] == (entries.last().0, prefix));
            }
        }
    }
}

/// Keeps, from one index directory's entries, exactly those flagged as
/// regular files whose name is not hidden, pairing each kept name with
/// `prefix`, in directory order.
pub fn kept_pairs(entries: &Vec<(String, bool)>, prefix: &String) -> (pairs: Vec<(String, String)>)
    ensures
        pairs@ == kept_pairs_view(entries@, *prefix),
{
    let mut pairs: Vec<(String, String)> = Vec::new();
    proof {
        assert(entries@.take(0) =~= Seq::<(String, bool)>::empty());
    }
    let mut k: usize = 0;
    while k < entries.len()
        invariant
            k <= entries@.len(),
            pairs@ == kept_pairs_view(entries@.take(k as int), *prefix),
        decreases entries@.len() - k,
    {
        proof {
            lemma_take_step(entries@, k as int);
        }
        if entries[k].1 {
            let hidden = is_hidden(&entries[k].0);
            if !hidden {
                pairs.push((entries[k].0.clone(), prefix.clone()));
                proof {
                    assert(pairs@.last() == (entries@[k as int].0, *prefix));
                }
            }
        }
        k = k + 1;
    }
    proof {
        assert(entries@.take(entries@.len() as int) =~= entries@);
    }
    pairs
}

/// Whether `cut` witnesses that `stream` is grouped by prefix: one
/// contiguous block per prefix, in prefix-list order, the block of prefix
/// `j` lying between `cut[j]` and `cut[j + 1]`.
pub open spec fn grouped_by_prefix(
    stream: Seq<(String, String)>,
    prefixes: Seq<String>,
    cut: Seq<int>,
) -> bool {
    &&& cut.len() == prefixes.len() + 1
    &&& cut[0] == 0
    &&& cut[prefixes.len() as int] == stream.len()
    &&& forall|j: int| 0 <= j < cut.len() ==> 0 <= #[trigger] cut[j] <= stream.len()
    &&& forall|j: int| 0 <= j < prefixes.len() ==> #[trigger] cut[j] <= cut[j + 1]
    &&& forall|j: int, k: int|
        #![trigger cut[j], stream[k]]
        0 <= j < prefixes.len() && cut[j] <= k < cut[j + 1] ==> stream[k].1@ == prefixes[j]@
}

/// Law: the highest-priority prefix wins. In a stream grouped by prefix
/// order, a name that does not occur before block `j` and does occur within
/// block `j` is first paired with prefix `j` — so the first prefix reported
/// for a resource is the earliest prefix, in prefix-list order, containing
/// it.
pub proof fn lemma_grouped_first_prefix(
    stream: Seq<(String, String)>,
    prefixes: Seq<String>,
    cut: Seq<int>,
    j: int,
    name: Seq<char>,
)
    requires
        grouped_by_prefix(stream, prefixes, cut),
        0 <= j < prefixes.len(),
        prefixes_of(stream.take(cut[j]), name).len() == 0,
        prefixes_of(stream.subrange(cut[j], cut[j + 1]), name).len() != 0,
    ensures
        prefixes_of(stream, name).len() != 0,
        prefixes_of(stream, name)[0] == prefixes[j]@,
{
    let a = cut[j];
    let b = cut[j + 1];
    let middle = stream.subrange(a, b);
    lemma_prefixes_of_split(stream, name, a);
    lemma_prefixes_of_split(stream.skip(a), name, b - a);
    assert(stream.skip(a).take(b - a) =~= middle);
    assert(prefixes_of(stream, name) =~= prefixes_of(middle, name) + prefixes_of(
        stream.skip(a).skip(b - a),
        name,
    ));
    assert(prefixes_of(stream, name)[0] == prefixes_of(middle, name)[0]);
    lemma_prefixes_of_entries(middle, name);
    let p0 = prefixes_of(middle, name)[0];
    assert(stream_has(middle, name, p0));
    let w = choose|w: int| 0 <= w < middle.len() && middle[w].0@ == name && middle[w].1@ == p0;
    assert(middle[w] == stream[a + w]);
    assert(stream[a + w].1@ == prefixes[j]@);
}

/// Relies on walkdir::WalkDir with minimum and maximum depth 1, and on
/// std::path::Path::is_file for the flag: yields, for each immediate child
/// of the directory at `path`, its file name and whether it is a regular
/// file after following symlinks — so a symlink to a regular file counts,
/// as it does for [`path_is_file`]. What comes back depends on the
/// filesystem at the time of the call; a missing or unreadable directory
/// yields no entries rather than an error.
#[verifier::external_body]
fn list_index_dir(path: &str) -> (entries: Vec<(String, bool)>) {
    let mut entries = Vec::new();
    for entry in walkdir::WalkDir::new(path).min_depth(1).max_depth(1) {
        if let Ok(e) = entry {
            entries.push((e.file_name().to_string_lossy().to_string(), e.path().is_file()));
        }
    }
    entries
}

/// Relies on std::path::Path::is_file: whether `path` names an existing
/// regular file at the time of the call.
#[verifier::external_body]
fn path_is_file(path: &str) -> (found: bool) {
    std::path::Path::new(path).is_file()
}

/// Pairs every prefix, in order, with the index directory of
/// `resource_type` under it. Pure path computation, no existence check.
pub fn list_all_prefixes(resource_type: &str, prefixes: &Vec<String>) -> (dirs: Vec<
    (String, String),
>)
    ensures
        dirs@.len() == prefixes@.len(),
        forall|i: int|
            0 <= i < dirs@.len() ==> (#[trigger] dirs@[i]).0@ == prefixes@[i]@ && dirs@[i].1@
                == index_dir_view(prefixes@[i]@, resource_type@),
{
    let mut dirs: Vec<(String, String)> = Vec::new();
    let mut j: usize = 0;
    while j < prefixes.len()
        invariant
            j <= prefixes@.len(),
            dirs@.len() == j,
            forall|i: int|
                0 <= i < dirs@.len() ==> (#[trigger] dirs@[i]).0@ == prefixes@[i]@ && dirs@[i].1@
                    == index_dir_view(prefixes@[i]@, resource_type@),
        decreases prefixes@.len() - j,
    {
        let dir = index_directory(prefixes[j].as_str(), resource_type);
        dirs.push((prefixes[j].clone(), dir));
        j = j + 1;
    }
    dirs
}

/// Scans, for each prefix in order, the index directory of `resource_type`
/// under it, and emits one `(resource_name, prefix)` pair for every
/// regular, non-hidden file found there, through [`kept_pairs`]; a prefix
/// whose index directory does not exist contributes nothing, and the
/// remaining prefixes are still scanned. What is emitted depends on the
/// filesystem, but every pair carries one of the given prefixes and never a
/// hidden name, and the stream is grouped by prefix, in prefix-list order.
pub fn list_all_prefixes_of_resources_disjointly(resource_type: &str, prefixes: &Vec<String>) -> (stream: Vec<(String, String)>)
    ensures
        forall|i: int|
            0 <= i < stream@.len() ==> !is_hidden_name((#[trigger] stream@[i]).0@) && prefix_views(
                prefixes@,
            ).contains(stream@[i].1@),
        exists|cut: Seq<int>| grouped_by_prefix(stream@, prefixes@, cut),
{
    let mut stream: Vec<(String, String)> = Vec::new();
    let ghost mut cut: Seq<int> = Seq::empty().push(0);
    let mut j: usize = 0;
    while j < prefixes.len()
        invariant
            j <= prefixes@.len(),
            forall|i: int|
                0 <= i < stream@.len() ==> !is_hidden_name((#[trigger] stream@[i]).0@)
                    && prefix_views(prefixes@).contains(stream@[i].1@),
            cut.len() == j + 1,
            cut[0] == 0,
            cut[j as int] == stream@.len(),
            forall|t: int| 0 <= t <= j ==> 0 <= #[trigger] cut[t] <= stream@.len(),
            forall|t: int| 0 <= t < j ==> #[trigger] cut[t] <= cut[t + 1],
            forall|t: int, k: int|
                #![trigger cut[t], stream@[k]]
                0 <= t < j && cut[t] <= k < cut[t + 1] ==> stream@[k].1@ == prefixes@[t]@,
        decreases prefixes@.len() - j,
    {
        let ghost pre = stream@;
        let dir = index_directory(prefixes[j].as_str(), resource_type);
        let entries = list_index_dir(dir.as_str());
        let mut block = kept_pairs(&entries, &prefixes[j]);
        let ghost block_view = block@;
        stream.append(&mut block);
        proof {
            lemma_kept_pairs_items(entries@, prefixes@[j as int]);
            assert(prefix_views(prefixes@)[j as int] == prefixes@[j as int]@);
            cut = cut.push(stream@.len() as int);
            assert(block_view == kept_pairs_view(entries@, prefixes@[j as int]));
            assert forall|i: int|
                0 <= i < stream@.len() implies !is_hidden_name((#[trigger] stream@[i]).0@)
                && prefix_views(prefixes@).contains(stream@[i].1@) by {
                if i < pre.len() {
                    assert(stream@[i] == pre[i]);
                } else {
                    assert(stream@[i] == kept_pairs_view(entries@, prefixes@[j as int])[i
                        - pre.len()]);
                    assert(stream@[i].1 == prefixes@[j as int]);
                }
            }
            assert forall|t: int, k: int|
                #![trigger cut[t], stream@[k]]
                0 <= t < j + 1 && cut[t] <= k < cut[t + 1] implies stream@[k].1@ == prefixes@[t]@ by {
                if t < j {
                    assert(cut[t + 1] <= pre.len());
                    assert(stream@[k] == pre[k]);
                } else {
                    assert(k >= pre.len());
                    assert(stream@[k] == kept_pairs_view(entries@, prefixes@[j as int])[k
                        - pre.len()]);
                    assert(stream@[k].1 == prefixes@[j as int]);
                }
            }
        }
        j = j + 1;
    }
    proof {
        assert(grouped_by_prefix(stream@, prefixes@, cut));
    }
    stream
}

/// Lists, for `resource_type`, every resource found under any of the
/// prefixes, each paired with the first prefix (in prefix order) that
/// contains it. Resource names are distinct, never hidden, and every
/// reported prefix is one of the given prefixes.
pub fn list_prefix_of_resources(resource_type: &str, prefixes: &Vec<String>) -> (firsts: Vec<
    (String, String),
>)
    ensures
        forall|i: int, k: int|
            0 <= i < k < firsts@.len() ==> (#[trigger] firsts@[i]).0@ != (#[trigger] firsts@[k]).0@,
        forall|i: int|
            0 <= i < firsts@.len() ==> !is_hidden_name((#[trigger] firsts@[i]).0@) && prefix_views(
                prefixes@,
            ).contains(firsts@[i].1@),
{
    let stream = list_all_prefixes_of_resources_disjointly(resource_type, prefixes);
    let firsts = first_per_resource(&stream);
    proof {
        lemma_first_seen_names_distinct(stream@);
        assert forall|i: int, k: int|
            0 <= i < k < firsts@.len() implies (#[trigger] firsts@[i]).0@ != (
        #[trigger] firsts@[k]).0@ by {
            assert(names_of(firsts@)[i] == firsts@[i].0@);
            assert(names_of(firsts@)[k] == firsts@[k].0@);
        }
        assert forall|i: int|
            0 <= i < firsts@.len() implies !is_hidden_name((#[trigger] firsts@[i]).0@)
            && prefix_views(prefixes@).contains(firsts@[i].1@) by {
            let e = firsts@[i];
            assert(stream@.contains(e));
            let w = choose|w: int| 0 <= w < stream@.len() && stream@[w] == e;
            assert(!is_hidden_name(stream@[w].0@));
        }
    }
    firsts
}

/// Maps each resource name found for `resource_type`, in first-occurrence
/// order, to the ordered list of all prefixes containing it: a resource
/// found under prefixes `A` then `B` then `A` again is mapped to
/// `[A, B, A]`. Names are distinct; every list holds at least one prefix,
/// and only prefixes from the given list.
pub fn list_all_prefixes_of_resources(resource_type: &str, prefixes: &Vec<String>) -> (grouped: Vec<
    (String, Vec<String>),
>)
    ensures
        forall|i: int, k: int|
            0 <= i < k < grouped@.len() ==> (#[trigger] grouped@[i]).0@ != (
            #[trigger] grouped@[k]).0@,
        forall|i: int| 0 <= i < grouped@.len() ==> (#[trigger] grouped@[i]).1@.len() >= 1,
        forall|i: int, k: int|
            0 <= i < grouped@.len() && 0 <= k < grouped@[i].1@.len() ==> prefix_views(
                prefixes@,
            ).contains((#[trigger] grouped@[i].1@[k])@),
{
    let stream = list_all_prefixes_of_resources_disjointly(resource_type, prefixes);
    let grouped = prefixes_per_resource(&stream);
    proof {
        lemma_first_seen_names_distinct(stream@);
        lemma_first_seen_names_complete(stream@);
        assert forall|i: int, k: int|
            0 <= i < k < grouped@.len() implies (#[trigger] grouped@[i]).0@ != (
        #[trigger] grouped@[k]).0@ by {
            assert(group_keys(grouped@)[i] == grouped@[i].0@);
            assert(group_keys(grouped@)[k] == grouped@[k].0@);
        }
        assert forall|i: int| 0 <= i < grouped@.len() implies (#[trigger] grouped@[i]).1@.len()
            >= 1 by {
            assert(group_keys(grouped@)[i] == grouped@[i].0@);
            assert(first_seen_names(stream@).contains(grouped@[i].0@));
            assert(prefix_views(grouped@[i].1@).len() == grouped@[i].1@.len());
        }
        assert forall|i: int, k: int|
            0 <= i < grouped@.len() && 0 <= k < grouped@[i].1@.len() implies prefix_views(
            prefixes@,
        ).contains((#[trigger] grouped@[i].1@[k])@) by {
            lemma_prefixes_of_entries(stream@, grouped@[i].0@);
            let p = prefixes_of(stream@, grouped@[i].0@)[k];
            assert(prefix_views(grouped@[i].1@)[k] == grouped@[i].1@[k]@);
            assert(stream_has(stream@, grouped@[i].0@, p));
            let w = choose|w: int|
                0 <= w < stream@.len() && stream@[w].0@ == grouped@[i].0@ && stream@[w].1@ == p;
            assert(prefix_views(prefixes@).contains(stream@[w].1@));
        }
    }
    grouped
}

/// The prefixes containing `resource_name` for `resource_type`, in prefix
/// order; every reported prefix is one of the given prefixes.
pub fn list_all_prefixes_of_resource(
    resource_name: &str,
    resource_type: &str,
    prefixes: &Vec<String>,
) -> (found: Vec<String>)
    ensures
        forall|i: int|
            0 <= i < found@.len() ==> prefix_views(prefixes@).contains((#[trigger] found@[i])@),
        is_hidden_name(resource_name@) ==> found@.len() == 0,
{
    let stream = list_all_prefixes_of_resources_disjointly(resource_type, prefixes);
    let found = prefixes_of_resource(resource_name, &stream);
    proof {
        lemma_prefixes_of_entries(stream@, resource_name@);
        if is_hidden_name(resource_name@) && found@.len() > 0 {
            assert(prefix_views(found@).len() == found@.len());
            let p = prefixes_of(stream@, resource_name@)[0];
            assert(stream_has(stream@, resource_name@, p));
            let w = choose|w: int|
                0 <= w < stream@.len() && stream@[w].0@ == resource_name@ && stream@[w].1@ == p;
            assert(!is_hidden_name(stream@[w].0@));
            assert(false);
        }
        assert forall|i: int|
            0 <= i < found@.len() implies prefix_views(prefixes@).contains(
            (#[trigger] found@[i])@,
        ) by {
            assert(prefix_views(found@)[i] == found@[i]@);
            let p = prefixes_of(stream@, resource_name@)[i];
            assert(stream_has(stream@, resource_name@, p));
            let w = choose|w: int|
                0 <= w < stream@.len() && stream@[w].0@ == resource_name@ && stream@[w].1@ == p;
            assert(prefix_views(prefixes@).contains(stream@[w].1@));
        }
    }
    found
}

/// Same mapping as [`list_all_prefixes_of_resources`]: each resource name
/// with the ordered list of all prefixes containing it.
pub fn get_resources_prefixes(resource_type: &str, prefixes: &Vec<String>) -> (grouped: Vec<
    (String, Vec<String>),
>)
    ensures
        forall|i: int, k: int|
            0 <= i < k < grouped@.len() ==> (#[trigger] grouped@[i]).0@ != (
            #[trigger] grouped@[k]).0@,
        forall|i: int| 0 <= i < grouped@.len() ==> (#[trigger] grouped@[i]).1@.len() >= 1,
        forall|i: int, k: int|
            0 <= i < grouped@.len() && 0 <= k < grouped@[i].1@.len() ==> prefix_views(
                prefixes@,
            ).contains((#[trigger] grouped@[i].1@[k])@),
{
    list_all_prefixes_of_resources(resource_type, prefixes)
}

/// The first of a list of found prefixes: `Some` exactly when the list is
/// non-empty, and then its first element.
pub fn first_found_prefix(found: &Vec<String>) -> (first: Option<String>)
    ensures
        first is None <==> found@.len() == 0,
        first matches Some(p) ==> found@.len() > 0 && p@ == found@[0]@,
{
    if found.len() == 0 {
        None
    } else {
        Some(found[0].clone())
    }
}

/// The first prefix, in prefix order, whose index directory for
/// `resource_type` lists `resource_name`; `None` when no prefix does.
/// Hidden resource names are never reported. A returned prefix is always
/// one of the given prefixes.
pub fn get_resource_prefix(
    resource_name: &str,
    resource_type: &str,
    prefixes: &Vec<String>,
) -> (first: Option<String>)
    ensures
        first matches Some(p) ==> prefix_views(prefixes@).contains(p@),
        is_hidden_name(resource_name@) ==> first is None,
{
    let found = list_all_prefixes_of_resource(resource_name, resource_type, prefixes);
    first_found_prefix(&found)
}

/// Each resource name found for `resource_type` paired with the first
/// prefix containing it, as [`list_prefix_of_resources`] reports them.
pub fn get_resources_prefix(resource_type: &str, prefixes: &Vec<String>) -> (firsts: Vec<
    (String, String),
>)
    ensures
        forall|i: int, k: int|
            0 <= i < k < firsts@.len() ==> (#[trigger] firsts@[i]).0@ != (#[trigger] firsts@[k]).0@,
        forall|i: int|
            0 <= i < firsts@.len() ==> !is_hidden_name((#[trigger] firsts@[i]).0@) && prefix_views(
                prefixes@,
            ).contains(firsts@[i].1@),
{
    list_prefix_of_resources(resource_type, prefixes)
}

/// Probes, prefix by prefix in order, whether the file registering
/// `resource_name` of `resource_type` exists, and returns the first prefix
/// whose probe succeeds; `None` when every probe fails. Hidden resource
/// names are never reported. A returned prefix is always one of the given
/// prefixes.
pub fn find_resource(resource_name: &str, resource_type: &str, prefixes: &Vec<String>) -> (first:
    Option<String>)
    ensures
        first matches Some(p) ==> prefix_views(prefixes@).contains(p@),
        is_hidden_name(resource_name@) ==> first is None,
{
    let name: String = resource_name.to_owned();
    if is_hidden(&name) {
        return None;
    }
    let mut j: usize = 0;
    while j < prefixes.len()
        invariant
            j <= prefixes@.len(),
            !is_hidden_name(resource_name@),
        decreases prefixes@.len() - j,
    {
        let path = resource_file_path(prefixes[j].as_str(), resource_type, resource_name);
        if path_is_file(path.as_str()) {
            let p = prefixes[j].clone();
            proof {
                assert(prefix_views(prefixes@)[j as int] == prefixes@[j as int]@);
            }
            return Some(p);
        }
        j = j + 1;
    }
    None
}

/// Whether some prefix contains the resource, as [`find_resource`] probes
/// it; absence everywhere is an ordinary `false`, not an error.
pub fn has_resource(resource_name: &str, resource_type: &str, prefixes: &Vec<String>) -> (found:
    bool)
    ensures
        is_hidden_name(resource_name@) ==> !found,
{
    find_resource(resource_name, resource_type, prefixes).is_some()
}

} // verus!
