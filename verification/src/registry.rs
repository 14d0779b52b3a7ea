//! In-memory operations over the config's location list: membership test,
//! append, remove-by-value. Pure list logic, no I/O.

use vstd::prelude::*;
use crate::config::Config;
use crate::location::{Location, LocationView};

verus! {

/// Index of the first entry of `l` structurally equal to `v`, if any.
pub open spec fn spec_find(l: Seq<LocationView>, v: LocationView) -> Option<int>
    decreases l.len(),
{
    if l.len() == 0 {
        None
    } else if l.first() == v {
        Some(0int)
    } else {
        match spec_find(l.skip(1), v) {
            None => None,
            Some(i) => Some(i + 1),
        }
    }
}

/// The list after removing the first entry equal to `v`; the list itself
/// when `v` does not occur.
pub open spec fn spec_remove(l: Seq<LocationView>, v: LocationView) -> Seq<LocationView> {
    match spec_find(l, v) {
        None => l,
        Some(i) => l.remove(i),
    }
}

/// Law: when `find` answers an index, the entry there equals the needle and
/// no earlier entry does; when it answers nothing, no entry equals it.
pub proof fn lemma_find_first_match(l: Seq<LocationView>, v: LocationView)
    ensures
        match spec_find(l, v) {
            Some(i) => 0 <= i < l.len() && l[i] == v && (forall|j: int| 0 <= j < i ==> l[j] != v),
            None => forall|j: int| 0 <= j < l.len() ==> l[j] != v,
        },
    decreases l.len(),
{
    if l.len() != 0 && l.first() != v {
        lemma_find_first_match(l.skip(1), v);
        match spec_find(l.skip(1), v) {
            Some(i) => {
                assert(l[i + 1] == l.skip(1)[i]);
                assert forall|j: int| 0 <= j < i + 1 implies l[j] != v by {
                    if j == 0 {
                        assert(l[0] == l.first());
                    } else {
                        assert(l.skip(1)[j - 1] == l[j]);
                    }
                }
            },
            None => {
                assert forall|j: int| 0 <= j < l.len() implies l[j] != v by {
                    if j == 0 {
                        assert(l[0] == l.first());
                    } else {
                        assert(l.skip(1)[j - 1] == l[j]);
                    }
                }
            },
        }
    }
}

/// Law: appending `v` to a list without `v` makes it the unique last match.
pub proof fn lemma_find_after_add(l: Seq<LocationView>, v: LocationView)
    requires
        spec_find(l, v) is None,
    ensures
        spec_find(l.push(v), v) == Some(l.len() as int),
    decreases l.len(),
{
    if l.len() == 0 {
        assert(l.push(v).first() == v);
    } else {
        assert(l.push(v).first() == l.first());
        assert(l.push(v).skip(1) =~= l.skip(1).push(v));
        lemma_find_after_add(l.skip(1), v);
    }
}

/// Law: removing `v` right after adding it restores a list in which `v` did
/// not occur.
pub proof fn lemma_add_remove(l: Seq<LocationView>, v: LocationView)
    requires
        spec_find(l, v) is None,
    ensures
        spec_remove(l.push(v), v) == l,
{
    lemma_find_after_add(l, v);
    assert(l.push(v).remove(l.len() as int) =~= l);
}

/// Linear scan of the config's location list: the index of the first entry
/// structurally equal to `needle`, or none.
pub fn check_city(conf: &Config, needle: Location) -> (r: Option<usize>)
    ensures
        match r {
            Some(i) => spec_find(conf@.loc, needle@) == Some(i as int),
            None => spec_find(conf@.loc, needle@) is None,
        },
{
    let n = conf.loc.len();
    let mut i: usize = 0;
    while i < n
        invariant
            0 <= i <= n,
            n == conf.loc.len(),
            forall|j: int| 0 <= j < i ==> conf@.loc[j] != needle@,
        decreases n - i,
    {
        if conf.loc[i] == needle {
            proof {
                assert(conf@.loc[i as int] == conf.loc@[i as int]@);
                lemma_find_first_match(conf@.loc, needle@);
                match spec_find(conf@.loc, needle@) {
                    Some(k) => {
                        if k < i {
                            assert(conf@.loc[k] != needle@);
                        }
                        if k > i {
                            assert(conf@.loc[i as int] != needle@);
                        }
                    },
                    None => {
                        assert(conf@.loc[i as int] != needle@);
                    },
                }
            }
            return Some(i);
        }
        i = i + 1;
    }
    proof {
        lemma_find_first_match(conf@.loc, needle@);
    }
    None
}

/// Appends a location to the list; a structural duplicate is not prevented
/// (documented behavior of the registry, not corrected silently).
pub fn add_location(conf: &mut Config, loc: Location)
    ensures
        final(conf)@.loc == old(conf)@.loc.push(loc@),
        final(conf)@.unit == old(conf)@.unit,
        final(conf)@.key == old(conf)@.key,
{
    let ghost l0 = conf@.loc;
    let ghost lv = loc@;
    conf.loc.push(loc);
    proof {
        assert(conf@.loc =~= l0.push(lv));
    }
}

/// Removes at most one entry: the first one equal to `needle`. Reports
/// whether a removal occurred so the caller can decide whether to persist.
pub fn remove_location(conf: &mut Config, needle: &Location) -> (removed: bool)
    ensures
        removed == (spec_find(old(conf)@.loc, needle@) is Some),
        final(conf)@.loc == spec_remove(old(conf)@.loc, needle@),
        final(conf)@.unit == old(conf)@.unit,
        final(conf)@.key == old(conf)@.key,
{
    match check_city(conf, needle.duplicate()) {
        Some(i) => {
            proof {
                lemma_find_first_match(conf@.loc, needle@);
            }
            let ghost l0 = conf@.loc;
            conf.loc.remove(i);
            proof {
                assert(conf@.loc =~= l0.remove(i as int));
            }
            true
        },
        None => false,
    }
}

} // verus!
