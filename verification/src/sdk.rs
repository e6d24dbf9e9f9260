//! Which installed Connect IQ SDK the API database is taken from: the one
//! whose folder name carries the greatest version.
use vstd::prelude::*;

use crate::text::{parse_u32, spec_parse_u32};

verus! {

/// The parts of `s` between the separators `c`, as `str::split` gives them.
pub open spec fn split_on(s: Seq<char>, c: char) -> Seq<Seq<char>>
    decreases s.len(),
{
    if s.len() == 0 {
        seq![seq![]]
    } else {
        let init = split_on(s.drop_last(), c);
        if s.last() == c {
            init.push(seq![])
        } else {
            init.update(init.len() - 1, init.last().push(s.last()))
        }
    }
}

proof fn lemma_split_nonempty(s: Seq<char>, c: char)
    ensures
        split_on(s, c).len() >= 1,
    decreases s.len(),
{
    if s.len() > 0 {
        lemma_split_nonempty(s.drop_last(), c);
    }
}

/// The numbers among the parts, as `filter_map` with `str::parse` keeps them.
pub open spec fn parsed_parts(parts: Seq<Seq<char>>) -> Seq<u32>
    decreases parts.len(),
{
    if parts.len() == 0 {
        seq![]
    } else {
        let init = parsed_parts(parts.drop_last());
        match spec_parse_u32(parts.last()) {
            Some(v) => init.push(v),
            None => init,
        }
    }
}

/// The version in the name of an SDK folder: after `connectiq-sdk-lin-`, up
/// to the next `-`, the numbers between the dots, where there are three.
pub open spec fn spec_sdk_version(name: Seq<char>) -> Option<(u32, u32, u32)> {
    let prefix = "connectiq-sdk-lin-"@;
    if prefix.len() <= name.len() && name.subrange(0, prefix.len() as int) == prefix {
        let rest = name.subrange(prefix.len() as int, name.len() as int);
        let nums = parsed_parts(split_on(split_on(rest, '-')[0], '.'));
        if nums.len() == 3 {
            Some((nums[0], nums[1], nums[2]))
        } else {
            None
        }
    } else {
        None
    }
}

/// The ranges of the parts of `s` between the separators `c`.
fn split_ranges(s: &str, c: char) -> (r: Vec<(usize, usize)>)
    ensures
        r@.len() == split_on(s@, c).len(),
        forall|i: int| 0 <= i < r@.len() ==> (#[trigger] r@[i]).0 <= r@[i].1 <= s@.len()
            && s@.subrange(r@[i].0 as int, r@[i].1 as int) == split_on(s@, c)[i],
{
    let n = s.unicode_len();
    let mut ranges: Vec<(usize, usize)> = Vec::new();
    let mut start: usize = 0;
    let mut i: usize = 0;
    while i < n
        invariant
            n == s@.len(),
            start <= i <= n,
            ranges@.len() + 1 == split_on(s@.subrange(0, i as int), c).len(),
            forall|k: int| 0 <= k < ranges@.len() ==> (#[trigger] ranges@[k]).0 <= ranges@[k].1 <= i
                && s@.subrange(ranges@[k].0 as int, ranges@[k].1 as int) == split_on(s@.subrange(0, i as int), c)[k],
            s@.subrange(start as int, i as int) == split_on(s@.subrange(0, i as int), c).last(),
        decreases n - i,
    {
        let ghost pre = s@.subrange(0, i as int);
        let ghost next = s@.subrange(0, i + 1);
        assert(next.drop_last() =~= pre);
        proof { lemma_split_nonempty(pre, c); }
        if s.get_char(i) == c {
            ranges.push((start, i));
            start = i + 1;
            assert(s@.subrange(start as int, i + 1) =~= Seq::<char>::empty());
        } else {
            assert(s@.subrange(start as int, i + 1) =~= s@.subrange(start as int, i as int).push(s@[i as int]));
        }
        i = i + 1;
    }
    ranges.push((start, n));
    assert(s@.subrange(0, n as int) =~= s@);
    ranges
}

/// The version in the name of an SDK folder, where it has one.
pub fn sdk_version(name: &str) -> (r: Option<(u32, u32, u32)>)
    ensures
        r == spec_sdk_version(name@),
{
    let prefix = "connectiq-sdk-lin-";
    let p = prefix.unicode_len();
    let n = name.unicode_len();
    if p > n {
        return None;
    }
    let mut i: usize = 0;
    while i < p
        invariant
            prefix@ == "connectiq-sdk-lin-"@,
            p == prefix@.len(),
            n == name@.len(),
            p <= n,
            i <= p,
            forall|k: int| 0 <= k < i ==> name@[k] == prefix@[k],
        decreases p - i,
    {
        if name.get_char(i) != prefix.get_char(i) {
            assert(name@.subrange(0, p as int)[i as int] != prefix@[i as int]);
            assert(name@.subrange(0, p as int) != prefix@);
            return None;
        }
        i = i + 1;
    }
    assert(name@.subrange(0, p as int) =~= prefix@);
    let rest = name.substring_char(p, n);
    let dashes = split_ranges(rest, '-');
    proof { lemma_split_nonempty(rest@, '-'); }
    let ver = rest.substring_char(dashes[0].0, dashes[0].1);
    let dots = split_ranges(ver, '.');
    let ghost parts = split_on(ver@, '.');
    let mut nums: Vec<u32> = Vec::new();
    let mut k: usize = 0;
    while k < dots.len()
        invariant
            dots@.len() == parts.len(),
            forall|i: int| 0 <= i < dots@.len() ==> (#[trigger] dots@[i]).0 <= dots@[i].1 <= ver@.len()
                && ver@.subrange(dots@[i].0 as int, dots@[i].1 as int) == parts[i],
            k <= dots@.len(),
            nums@ == parsed_parts(parts.subrange(0, k as int)),
        decreases dots@.len() - k,
    {
        let part = ver.substring_char(dots[k].0, dots[k].1);
        let ghost sub = parts.subrange(0, k + 1);
        assert(sub.drop_last() =~= parts.subrange(0, k as int));
        match parse_u32(part) {
            Some(v) => nums.push(v),
            None => {},
        }
        k = k + 1;
    }
    assert(parts.subrange(0, k as int) =~= parts);
    if nums.len() == 3 {
        Some((nums[0], nums[1], nums[2]))
    } else {
        None
    }
}

/// Whether version `a` comes before version `b`.
pub open spec fn version_lt(a: (u32, u32, u32), b: (u32, u32, u32)) -> bool {
    a.0 < b.0 || (a.0 == b.0 && (a.1 < b.1 || (a.1 == b.1 && a.2 < b.2)))
}

/// The versions in the names of folders.
pub open spec fn folder_versions(names: Seq<String>) -> Seq<Option<(u32, u32, u32)>> {
    names.map_values(|n: String| spec_sdk_version(n@))
}

/// Whether folder `i` carries the greatest version, and no later folder
/// carries one as great (the last of equals is taken, as `max_by_key` does).
pub open spec fn is_latest(vs: Seq<Option<(u32, u32, u32)>>, i: int) -> bool {
    &&& 0 <= i < vs.len()
    &&& vs[i] is Some
    &&& forall|j: int| 0 <= j < vs.len() && (#[trigger] vs[j]) is Some ==> !version_lt(vs[i]->0, vs[j]->0)
    &&& forall|j: int| i < j < vs.len() && (#[trigger] vs[j]) is Some ==> version_lt(vs[j]->0, vs[i]->0)
}

/// The folder, among the names given, of the SDK with the greatest version;
/// `None` where no name carries a version.
pub fn latest_sdk(names: &Vec<String>) -> (r: Option<usize>)
    ensures
        match r {
            Some(i) => is_latest(folder_versions(names@), i as int),
            None => forall|j: int| 0 <= j < names@.len() ==> (#[trigger] folder_versions(names@)[j]) is None,
        },
{
    let ghost vs = folder_versions(names@);
    let mut best: Option<(usize, (u32, u32, u32))> = None;
    let mut i: usize = 0;
    while i < names.len()
        invariant
            vs == folder_versions(names@),
            vs.len() == names@.len(),
            i <= names@.len(),
            match best {
                Some((b, v)) => b < i && vs[b as int] == Some(v)
                    && (forall|j: int| 0 <= j < i && (#[trigger] vs[j]) is Some ==> !version_lt(v, vs[j]->0))
                    && (forall|j: int| b < j < i && (#[trigger] vs[j]) is Some ==> version_lt(vs[j]->0, v)),
                None => forall|j: int| 0 <= j < i ==> (#[trigger] vs[j]) is None,
            },
        decreases names@.len() - i,
    {
        match sdk_version(names[i].as_str()) {
            Some(v) => {
                let take = match best {
                    Some((_, w)) => !(v.0 < w.0 || (v.0 == w.0 && (v.1 < w.1 || (v.1 == w.1 && v.2 < w.2)))),
                    None => true,
                };
                if take {
                    best = Some((i, v));
                }
            },
            None => {},
        }
        i = i + 1;
    }
    match best {
        Some((b, _)) => Some(b),
        None => None,
    }
}

} // verus!
