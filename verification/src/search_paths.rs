//! Turning a colon-separated list into an ordered sequence of prefixes.
//!
//! Splitting does no trimming and no normalization: empty segments are kept
//! as empty strings, and the empty list yields a single empty segment.
use vstd::prelude::*;

verus! {

/// The segments of `s` between `:` separators, in order. No segment holds a
/// `:`; empty segments are kept, so the empty sequence splits into one empty
/// segment.
pub open spec fn split_on_colon(s: Seq<char>) -> Seq<Seq<char>>
    decreases s.len(),
{
    if s.len() == 0 {
        seq![Seq::<char>::empty()]
    } else if s.last() == ':' {
        split_on_colon(s.drop_last()).push(Seq::<char>::empty())
    } else {
        let rest = split_on_colon(s.drop_last());
        rest.update(rest.len() - 1, rest.last().push(s.last()))
    }
}

/// Splitting always yields at least one segment.
pub proof fn lemma_split_on_colon_len(s: Seq<char>)
    ensures
        split_on_colon(s).len() >= 1,
    decreases s.len(),
{
    if s.len() > 0 {
        lemma_split_on_colon_len(s.drop_last());
    }
}

/// The list of prefixes written in `prefixes_list`, split on `:` with no
/// trimming; empty segments are retained as empty strings.
pub fn get_search_paths_from(prefixes_list: &str) -> (paths: Vec<String>)
    ensures
        paths@.map_values(|p: String| p@) == split_on_colon(prefixes_list@),
        paths@.len() >= 1,
{
    let n = prefixes_list.unicode_len();
    let mut paths: Vec<String> = Vec::new();
    let mut start: usize = 0;
    proof {
        assert(prefixes_list@.take(0) =~= Seq::<char>::empty());
        assert(prefixes_list@.subrange(0, 0) =~= Seq::<char>::empty());
        assert(paths@.map_values(|p: String| p@).push(prefixes_list@.subrange(0, 0))
            =~= split_on_colon(prefixes_list@.take(0)));
    }
    let mut i: usize = 0;
    while i < n
        invariant
            n == prefixes_list@.len(),
            0 <= start <= i <= n,
            paths@.map_values(|p: String| p@).push(
                prefixes_list@.subrange(start as int, i as int),
            ) == split_on_colon(prefixes_list@.take(i as int)),
        decreases n - i,
    {
        let ghost s = prefixes_list@;
        let ghost segs = paths@.map_values(|p: String| p@);
        proof {
            assert(s.take(i as int + 1).drop_last() =~= s.take(i as int));
            assert(s.take(i as int + 1).last() == s[i as int]);
        }
        let c = prefixes_list.get_char(i);
        if c == ':' {
            let seg = prefixes_list.substring_char(start, i).to_owned();
            paths.push(seg);
            proof {
                assert(paths@.map_values(|p: String| p@) =~= segs.push(
                    s.subrange(start as int, i as int),
                ));
                assert(s.subrange(i as int + 1, i as int + 1) =~= Seq::<char>::empty());
                assert(paths@.map_values(|p: String| p@).push(
                    s.subrange(i as int + 1, i as int + 1),
                ) =~= split_on_colon(s.take(i as int + 1)));
            }
            start = i + 1;
        } else {
            proof {
                let rest = split_on_colon(s.take(i as int));
                assert(rest == segs.push(s.subrange(start as int, i as int)));
                assert(rest.len() == segs.len() + 1);
                assert(rest.last() == s.subrange(start as int, i as int));
                assert(s.subrange(start as int, i as int).push(s[i as int]) =~= s.subrange(
                    start as int,
                    i as int + 1,
                ));
                assert(split_on_colon(s.take(i as int + 1)) == rest.update(
                    rest.len() - 1,
                    s.subrange(start as int, i as int + 1),
                ));
                assert(segs.push(s.subrange(start as int, i as int)).update(
                    segs.len() as int,
                    s.subrange(start as int, i as int + 1),
                ) =~= segs.push(s.subrange(start as int, i as int + 1)));
            }
        }
        i = i + 1;
    }
    let ghost segs = paths@.map_values(|p: String| p@);
    let last = prefixes_list.substring_char(start, n).to_owned();
    paths.push(last);
    proof {
        let s = prefixes_list@;
        assert(s.take(n as int) =~= s);
        assert(paths@.map_values(|p: String| p@) =~= segs.push(
            s.subrange(start as int, n as int),
        ));
        lemma_split_on_colon_len(s);
    }
    paths
}

/// Turns the raw value of a prefix-list variable into the prefix list.
/// `None` — the variable is unset — and an empty value both yield no list:
/// an empty value is an error, never a single empty prefix. Any other value
/// is split on `:`.
pub fn search_paths_from_value(value: Option<&str>) -> (paths: Option<Vec<String>>)
    ensures
        paths is None <==> (value is None || value->0@.len() == 0),
        (value matches Some(v) && v@.len() != 0) ==> (paths matches Some(p) && p@.map_values(
            |s: String| s@,
        ) == split_on_colon(value->0@)),
{
    match value {
        None => None,
        Some(v) => {
            if v.is_empty() {
                None
            } else {
                Some(get_search_paths_from(v))
            }
        },
    }
}

} // verus!
