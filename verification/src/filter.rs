use vstd::prelude::*;
use crate::hex::{hex_of, hex_encode};
use crate::types::{Event, bytes_eq, bytes_prefix_of, is_prefix_of};

verus! {

/// One tag constraint: a single-letter tag name and the set of accepted
/// values for it.
pub struct TagFilter {
    pub letter: u8,
    pub values: Vec<Vec<u8>>,
}

/// A filter: a conjunction over ids, author hex prefixes, kinds, tag values,
/// an inclusive created_at window, and an optional result limit. An empty
/// list for a dimension places no constraint on that dimension.
pub struct Filter {
    pub ids: Vec<Vec<u8>>,
    pub authors: Vec<Vec<u8>>,
    pub kinds: Vec<u16>,
    pub tags: Vec<TagFilter>,
    pub since: Option<u64>,
    pub until: Option<u64>,
    pub limit: Option<usize>,
}

pub open spec fn ids_match(f: Filter, e: Event) -> bool {
    f.ids@.len() == 0 || exists|i: int| 0 <= i < f.ids@.len() && f.ids@[i]@ =~= e.id@
}

pub open spec fn authors_match(f: Filter, e: Event) -> bool {
    f.authors@.len() == 0 || exists|i: int|
        0 <= i < f.authors@.len() && is_prefix_of(f.authors@[i]@, hex_of(e.pubkey@))
}

pub open spec fn kinds_match(f: Filter, e: Event) -> bool {
    f.kinds@.len() == 0 || exists|i: int| 0 <= i < f.kinds@.len() && f.kinds@[i] == e.kind
}

/// An event tag satisfies a tag constraint when its name is the single
/// letter and its first value is among the accepted values.
pub open spec fn tag_satisfies(tf: TagFilter, e: Event) -> bool {
    exists|j: int|
        0 <= j < e.tags@.len() && e.tags@[j]@.len() >= 2 && e.tags@[j]@[0]@ =~= seq![tf.letter]
            && exists|k: int| 0 <= k < tf.values@.len() && tf.values@[k]@ =~= e.tags@[j]@[1]@
}

pub open spec fn tags_match(f: Filter, e: Event) -> bool {
    forall|i: int|
        0 <= i < f.tags@.len() ==> (f.tags@[i].values@.len() == 0 || tag_satisfies(
            #[trigger] f.tags@[i],
            e,
        ))
}

pub open spec fn time_match(f: Filter, e: Event) -> bool {
    &&& match f.since {
        Some(s) => e.created_at >= s,
        None => true,
    }
    &&& match f.until {
        Some(u) => e.created_at <= u,
        None => true,
    }
}

/// The full filter conjunction.
pub open spec fn filter_matches(f: Filter, e: Event) -> bool {
    ids_match(f, e) && authors_match(f, e) && kinds_match(f, e) && tags_match(f, e) && time_match(
        f,
        e,
    )
}

fn ids_match_exec(f: &Filter, e: &Event) -> (r: bool)
    ensures
        r == ids_match(*f, *e),
{
    if f.ids.len() == 0 {
        return true;
    }
    let mut i: usize = 0;
    while i < f.ids.len()
        invariant
            0 <= i <= f.ids@.len(),
            forall|j: int| 0 <= j < i ==> !(f.ids@[j]@ =~= e.id@),
        decreases f.ids@.len() - i,
    {
        if bytes_eq(f.ids[i].as_slice(), e.id.as_slice()) {
            return true;
        }
        i = i + 1;
    }
    false
}

fn authors_match_exec(f: &Filter, e: &Event) -> (r: bool)
    ensures
        r == authors_match(*f, *e),
{
    if f.authors.len() == 0 {
        return true;
    }
    let pk_hex = hex_encode(e.pubkey.as_slice());
    let mut i: usize = 0;
    while i < f.authors.len()
        invariant
            0 <= i <= f.authors@.len(),
            pk_hex@ == hex_of(e.pubkey@),
            forall|j: int| 0 <= j < i ==> !is_prefix_of(f.authors@[j]@, hex_of(e.pubkey@)),
        decreases f.authors@.len() - i,
    {
        if bytes_prefix_of(f.authors[i].as_slice(), pk_hex.as_slice()) {
            return true;
        }
        i = i + 1;
    }
    false
}

fn kinds_match_exec(f: &Filter, e: &Event) -> (r: bool)
    ensures
        r == kinds_match(*f, *e),
{
    if f.kinds.len() == 0 {
        return true;
    }
    let mut i: usize = 0;
    while i < f.kinds.len()
        invariant
            0 <= i <= f.kinds@.len(),
            forall|j: int| 0 <= j < i ==> f.kinds@[j] != e.kind,
        decreases f.kinds@.len() - i,
    {
        if f.kinds[i] == e.kind {
            return true;
        }
        i = i + 1;
    }
    false
}

fn tag_satisfies_exec(tf: &TagFilter, e: &Event) -> (r: bool)
    ensures
        r == tag_satisfies(*tf, *e),
{
    let mut j: usize = 0;
    while j < e.tags.len()
        invariant
            0 <= j <= e.tags@.len(),
            forall|j2: int|
                0 <= j2 < j ==> !(e.tags@[j2]@.len() >= 2 && e.tags@[j2]@[0]@ =~= seq![tf.letter]
                    && exists|k: int|
                    0 <= k < tf.values@.len() && tf.values@[k]@ =~= e.tags@[j2]@[1]@),
        decreases e.tags@.len() - j,
    {
        let tag = &e.tags[j];
        if tag.len() >= 2 && tag[0].len() == 1 && tag[0].as_slice()[0] == tf.letter {
            proof {
                assert(e.tags@[j as int]@[0]@ =~= seq![tf.letter]);
            }
            let mut k: usize = 0;
            let mut found: bool = false;
            while k < tf.values.len()
                invariant
                    0 <= j < e.tags@.len(),
                    0 <= k <= tf.values@.len(),
                    found ==> exists|k2: int|
                        0 <= k2 < tf.values@.len() && tf.values@[k2]@ =~= e.tags@[j as int]@[1]@,
                    !found ==> forall|k2: int|
                        0 <= k2 < k ==> !(tf.values@[k2]@ =~= e.tags@[j as int]@[1]@),
                    e.tags@[j as int]@.len() >= 2,
                decreases tf.values@.len() - k,
            {
                if !found && bytes_eq(tf.values[k].as_slice(), e.tags[j][1].as_slice()) {
                    found = true;
                }
                k = k + 1;
            }
            if found {
                return true;
            }
        }
        j = j + 1;
    }
    false
}

fn tags_match_exec(f: &Filter, e: &Event) -> (r: bool)
    ensures
        r == tags_match(*f, *e),
{
    let mut i: usize = 0;
    while i < f.tags.len()
        invariant
            0 <= i <= f.tags@.len(),
            forall|j: int|
                0 <= j < i ==> (f.tags@[j].values@.len() == 0 || tag_satisfies(
                    #[trigger] f.tags@[j],
                    *e,
                )),
        decreases f.tags@.len() - i,
    {
        if f.tags[i].values.len() > 0 {
            if !tag_satisfies_exec(&f.tags[i], e) {
                return false;
            }
        }
        i = i + 1;
    }
    true
}

fn time_match_exec(f: &Filter, e: &Event) -> (r: bool)
    ensures
        r == time_match(*f, *e),
{
    let since_ok = match f.since {
        Some(s) => e.created_at >= s,
        None => true,
    };
    let until_ok = match f.until {
        Some(u) => e.created_at <= u,
        None => true,
    };
    since_ok && until_ok
}

/// Evaluate the filter against an event.
pub fn event_matches(f: &Filter, e: &Event) -> (r: bool)
    ensures
        r == filter_matches(*f, *e),
{
    ids_match_exec(f, e) && authors_match_exec(f, e) && kinds_match_exec(f, e) && tags_match_exec(
        f,
        e,
    ) && time_match_exec(f, e)
}

/// A subscription matches when any of its filters matches.
pub open spec fn filters_match(fs: Seq<Filter>, e: Event) -> bool {
    exists|i: int| 0 <= i < fs.len() && filter_matches(#[trigger] fs[i], e)
}

/// Evaluate a filter list (a subscription) against an event.
pub fn any_matches(fs: &Vec<Filter>, e: &Event) -> (r: bool)
    ensures
        r == filters_match(fs@, *e),
{
    let mut i: usize = 0;
    while i < fs.len()
        invariant
            0 <= i <= fs@.len(),
            forall|j: int| 0 <= j < i ==> !filter_matches(#[trigger] fs@[j], *e),
        decreases fs@.len() - i,
    {
        if event_matches(&fs[i], e) {
            return true;
        }
        i = i + 1;
    }
    false
}


/// The index a query of this filter should probe, from most selective to
/// least: exact ids, then authors and kinds, then tag values, then the
/// created_at window, and a full scan only when nothing constrains.
#[derive(Clone, Copy, PartialEq, Eq, Structural, Debug)]
pub enum IndexScan {
    ByIds,
    ByAuthorsKinds,
    ByTags,
    ByTimeRange,
    FullScan,
}

/// The planned scan as a function of which dimensions are constrained.
pub open spec fn spec_plan(f: Filter) -> IndexScan {
    if f.ids@.len() > 0 {
        IndexScan::ByIds
    } else if f.authors@.len() > 0 || f.kinds@.len() > 0 {
        IndexScan::ByAuthorsKinds
    } else if f.tags@.len() > 0 {
        IndexScan::ByTags
    } else if f.since is Some || f.until is Some {
        IndexScan::ByTimeRange
    } else {
        IndexScan::FullScan
    }
}

/// Choose the most selective index for a filter.
pub fn plan(f: &Filter) -> (r: IndexScan)
    ensures
        r == spec_plan(*f),
{
    if f.ids.len() > 0 {
        IndexScan::ByIds
    } else if f.authors.len() > 0 || f.kinds.len() > 0 {
        IndexScan::ByAuthorsKinds
    } else if f.tags.len() > 0 {
        IndexScan::ByTags
    } else if f.since.is_some() || f.until.is_some() {
        IndexScan::ByTimeRange
    } else {
        IndexScan::FullScan
    }
}

} // verus!

